use vstd::prelude::*;

use crate::model::{
    AuditEntry, Candidate, ElectionData, ElectionState, ErrorKind, Event, Identity, Voter,
    VotingMethod,
};
use crate::model::{copy_candidates, copy_voters, same_candidates, same_voters, Statistics};
use crate::text::{decimal, decimal_text, mentions, text_contains};
use crate::tally::{
    ids_increasing, is_leaderboard, is_outcome, leaderboard_of, total_votes, vote_total, winner_of,
};

verus! {

/// The whole application state: the active election, the registry of
/// tracked elections and the audit trail.
#[derive(Debug)]
pub struct TrustBallot {
    owner: Option<Identity>,
    state: ElectionState,
    candidates: Vec<Candidate>,
    voters: Vec<(Identity, Voter)>,
    next_candidate_id: u64,
    elections: Vec<ElectionData>,
    current_election_id: Option<String>,
    audit_trail: Vec<AuditEntry>,
    voting_method: VotingMethod,
}

/// The mathematical picture of a `TrustBallot`.
pub struct BallotView {
    pub owner: Option<Identity>,
    pub state: ElectionState,
    /// candidates in insertion (and so id) order
    pub candidates: Seq<Candidate>,
    /// voters in registration order, one entry per identity
    pub voters: Seq<(Identity, Voter)>,
    pub next_candidate_id: u64,
    pub elections: Seq<ElectionData>,
    pub current_election_id: Option<Seq<char>>,
    pub audit_trail: Seq<AuditEntry>,
    pub voting_method: VotingMethod,
}

impl View for TrustBallot {
    type V = BallotView;

    closed spec fn view(&self) -> BallotView {
        BallotView {
            owner: self.owner,
            state: self.state,
            candidates: self.candidates@,
            voters: self.voters@,
            next_candidate_id: self.next_candidate_id,
            elections: self.elections@,
            current_election_id: match self.current_election_id {
                Some(s) => Some(s@),
                None => None,
            },
            audit_trail: self.audit_trail@,
            voting_method: self.voting_method,
        }
    }
}

/// Number of voters of `vs` that have cast their vote.
pub open spec fn voted_count(vs: Seq<(Identity, Voter)>) -> nat
    decreases vs.len(),
{
    if vs.len() == 0 {
        0
    } else {
        voted_count(vs.drop_last()) + if vs.last().1.has_voted {
            1nat
        } else {
            0nat
        }
    }
}

/// `who` has an entry in `vs`.
pub open spec fn is_registered(vs: Seq<(Identity, Voter)>, who: Identity) -> bool {
    exists|i: int| 0 <= i < vs.len() && #[trigger] vs[i].0 == who
}

/// Each identity appears at most once in `vs`.
pub open spec fn keys_unique(vs: Seq<(Identity, Voter)>) -> bool {
    forall|i: int, j: int| 0 <= i < j < vs.len() ==> vs[i].0 != vs[j].0
}

/// A candidate of `cs` carries `id`.
pub open spec fn has_candidate(cs: Seq<Candidate>, id: u64) -> bool {
    exists|i: int| 0 <= i < cs.len() && #[trigger] cs[i].id == id
}

/// `caller` may perform owner-gated actions: it is the owner, or no owner
/// is bound yet and `caller` would become it.
pub open spec fn authorized(v: BallotView, caller: Identity) -> bool {
    match v.owner {
        Some(o) => o == caller,
        None => true,
    }
}

/// A bound owner stays bound to the same identity from `a` to `b`.
pub open spec fn owner_kept(a: BallotView, b: BallotView) -> bool {
    a.owner is Some ==> b.owner == a.owner
}

/// Every voter of `a` who has voted keeps, in `b`, the same place and the
/// same record, so the same recorded choice.
pub open spec fn keeps_votes(a: BallotView, b: BallotView) -> bool {
    &&& a.voters.len() <= b.voters.len()
    &&& forall|i: int|
        0 <= i < a.voters.len() && (#[trigger] a.voters[i]).1.has_voted ==> b.voters[i]
            == a.voters[i]
}

pub open spec fn fresh_voter(name: String, image: String) -> Voter {
    Voter { name, image, is_registered: true, has_voted: false, voted_candidate_id: 0 }
}

/// Invariant of the active election's tables.
pub open spec fn tables_wf(cs: Seq<Candidate>, vs: Seq<(Identity, Voter)>) -> bool {
    &&& ids_increasing(cs)
    &&& keys_unique(vs)
    &&& total_votes(cs) == voted_count(vs)
}

/// Appending a voter who has not voted keeps the count.
proof fn lemma_voted_push(vs: Seq<(Identity, Voter)>, e: (Identity, Voter))
    ensures
        voted_count(vs.push(e)) == voted_count(vs) + if e.1.has_voted {
            1nat
        } else {
            0nat
        },
{
    assert(vs.push(e).drop_last() =~= vs);
}

/// Appending a candidate adds its votes to the total.
proof fn lemma_total_push(cs: Seq<Candidate>, c: Candidate)
    ensures
        total_votes(cs.push(c)) == total_votes(cs) + c.vote_count,
{
    assert(cs.push(c).drop_last() =~= cs);
}

/// Replacing one candidate changes the total by the difference of counts.
proof fn lemma_total_update(cs: Seq<Candidate>, i: int, c: Candidate)
    requires
        0 <= i < cs.len(),
    ensures
        total_votes(cs.update(i, c)) + cs[i].vote_count == total_votes(cs) + c.vote_count,
    decreases cs.len(),
{
    if i < cs.len() - 1 {
        lemma_total_update(cs.drop_last(), i, c);
        assert(cs.update(i, c).drop_last() =~= cs.drop_last().update(i, c));
    } else {
        assert(cs.update(i, c).drop_last() =~= cs.drop_last());
    }
}

/// Replacing one voter changes the count by the difference of flags.
proof fn lemma_voted_update(vs: Seq<(Identity, Voter)>, i: int, e: (Identity, Voter))
    requires
        0 <= i < vs.len(),
    ensures
        voted_count(vs.update(i, e)) + (if vs[i].1.has_voted {
            1nat
        } else {
            0nat
        }) == voted_count(vs) + if e.1.has_voted {
            1nat
        } else {
            0nat
        },
    decreases vs.len(),
{
    if i < vs.len() - 1 {
        lemma_voted_update(vs.drop_last(), i, e);
        assert(vs.update(i, e).drop_last() =~= vs.drop_last().update(i, e));
    } else {
        assert(vs.update(i, e).drop_last() =~= vs.drop_last());
    }
}

/// At most every voter has voted.
pub proof fn lemma_voted_bound(vs: Seq<(Identity, Voter)>)
    ensures
        voted_count(vs) <= vs.len(),
    decreases vs.len(),
{
    if vs.len() > 0 {
        lemma_voted_bound(vs.drop_last());
    }
}

/// The registry key of the `n`-th election created.
pub open spec fn election_key(n: nat) -> Seq<char> {
    "election_"@ + decimal(n)
}

/// `e` is a newly created registry entry named `name` under key `id`.
pub open spec fn is_new_election(e: ElectionData, id: Seq<char>, name: Seq<char>) -> bool {
    &&& e.id@ == id
    &&& e.name@ == name
    &&& e.state == ElectionState::Created
    &&& e.candidates@.len() == 0
    &&& e.voters@.len() == 0
    &&& e.start_time is None
    &&& e.end_time is None
    &&& e.voting_method == VotingMethod::Simple
}

/// `a` records `action` by `actor` at `now`, with `details` and no hash.
pub open spec fn is_entry(
    a: AuditEntry,
    now: u64,
    action: Seq<char>,
    actor: Identity,
    details: Seq<char>,
) -> bool {
    a.timestamp == now && a.action@ == action && a.actor == actor && a.details@ == details
        && a.tx_hash@.len() == 0
}

/// The entries of `s` whose details mention `e`, in order.
pub open spec fn mentioning(s: Seq<AuditEntry>, e: Seq<char>) -> Seq<AuditEntry>
    decreases s.len(),
{
    if s.len() == 0 {
        s
    } else if mentions(s.last().details@, e) {
        mentioning(s.drop_last(), e).push(s.last())
    } else {
        mentioning(s.drop_last(), e)
    }
}

/// `a` and `b` hold the same entries, in the same order.
pub open spec fn same_entries(a: Seq<AuditEntry>, b: Seq<AuditEntry>) -> bool {
    a.len() == b.len() && forall|k: int| 0 <= k < a.len() ==> (#[trigger] a[k]).same(b[k])
}

/// `c` is a candidate added under `id` from `(name, meta)`, with no votes.
pub open spec fn added_as(c: Candidate, id: int, item: (String, String)) -> bool {
    c.id == id && c.name@ == item.0@ && c.meta@ == item.1@ && c.vote_count == 0
}

/// `e` announces candidate `id` named `name`.
pub open spec fn announces_candidate(e: Event, id: int, name: Seq<char>) -> bool {
    e matches Event::CandidateAdded { id: i, name: n } && i == id && n@ == name
}

/// `e` announces the registration of `who` named `name`.
pub open spec fn announces_voter(e: Event, who: Identity, name: Seq<char>) -> bool {
    e matches Event::VoterRegistered { voter, name: n } && voter == who && n@ == name
}

/// `v` is a voter newly registered from `item = (identity, name, image)`.
pub open spec fn enrolled_as(v: (Identity, Voter), item: (Identity, String, String)) -> bool {
    &&& v.0 == item.0
    &&& v.1.name@ == item.1@
    &&& v.1.image@ == item.2@
    &&& v.1.is_registered
    &&& !v.1.has_voted
    &&& v.1.voted_candidate_id == 0
}

/// Some identity of `items` is already in `vs`, or appears twice in `items`.
pub open spec fn batch_conflict(
    vs: Seq<(Identity, Voter)>,
    items: Seq<(Identity, String, String)>,
) -> bool {
    exists|k: int|
        0 <= k < items.len() && (is_registered(vs, #[trigger] items[k].0) || exists|j: int|
            0 <= j < k && items[j].0 == items[k].0)
}

/// The effect of `vote(caller, candidate_id)` on `a`, giving `r` and `b`:
/// refused with no change unless voting is open, the caller is registered
/// and has not voted, and the candidate exists; otherwise that candidate
/// gains exactly one vote and the caller's record keeps it.
pub open spec fn vote_outcome(
    a: BallotView,
    caller: Identity,
    candidate_id: u64,
    r: Result<Event, ErrorKind>,
    b: BallotView,
) -> bool {
    &&& r is Err ==> b == a
    &&& a.state != ElectionState::Ongoing ==> r == Err::<Event, ErrorKind>(ErrorKind::InvalidState)
    &&& a.state == ElectionState::Ongoing && !is_registered(a.voters, caller) ==> r == Err::<
        Event,
        ErrorKind,
    >(ErrorKind::NotRegistered)
    &&& a.state == ElectionState::Ongoing ==> forall|vi: int|
        0 <= vi < a.voters.len() && #[trigger] a.voters[vi].0 == caller ==> {
            let v = a.voters[vi].1;
            &&& v.has_voted ==> r == Err::<Event, ErrorKind>(ErrorKind::AlreadyVoted)
            &&& !v.has_voted && !has_candidate(a.candidates, candidate_id) ==> r == Err::<
                Event,
                ErrorKind,
            >(ErrorKind::UnknownCandidate)
            &&& !v.has_voted ==> forall|ci: int|
                0 <= ci < a.candidates.len() && #[trigger] a.candidates[ci].id == candidate_id
                    ==> {
                    let c = a.candidates[ci];
                    &&& c.vote_count < u64::MAX
                    &&& r == Ok::<Event, ErrorKind>(
                        Event::VoteCast {
                            voter: caller,
                            candidate_id,
                            vote_count: (c.vote_count + 1) as u64,
                        },
                    )
                    &&& b == (BallotView {
                        candidates: a.candidates.update(
                            ci,
                            (Candidate { vote_count: (c.vote_count + 1) as u64, ..c }),
                        ),
                        voters: a.voters.update(
                            vi,
                            (caller, (Voter { has_voted: true, voted_candidate_id: candidate_id, ..v })),
                        ),
                        ..a
                    })
                }
        }
}

/// The effect of `add_candidate(caller, name, meta)` on `a`, giving `r` and `b`.
pub open spec fn add_candidate_outcome(
    a: BallotView,
    caller: Identity,
    name: String,
    meta: String,
    r: Result<Event, ErrorKind>,
    b: BallotView,
) -> bool {
    &&& !authorized(a, caller) ==> r == Err::<Event, ErrorKind>(ErrorKind::Unauthorized)
        && b == a
    &&& authorized(a, caller) && a.next_candidate_id == u64::MAX ==> r == Err::<
        Event,
        ErrorKind,
    >(ErrorKind::IdsExhausted) && b == a
    &&& authorized(a, caller) && a.next_candidate_id < u64::MAX ==> {
        &&& r matches Ok(Event::CandidateAdded { id, name: n }) && id
            == a.next_candidate_id && n@ == name@
        &&& b == (BallotView {
            owner: Some(caller),
            candidates: a.candidates.push(
                Candidate {
                    id: a.next_candidate_id,
                    name: name,
                    meta: meta,
                    vote_count: 0,
                },
            ),
            next_candidate_id: (a.next_candidate_id + 1) as u64,
            ..a
        })
    }
}

/// The effect of `register_voter(caller, voter, name, image)` on `a`, giving `r` and `b`.
pub open spec fn register_outcome(
    a: BallotView,
    caller: Identity,
    voter: Identity,
    name: String,
    image: String,
    r: Result<Event, ErrorKind>,
    b: BallotView,
) -> bool {
    &&& !authorized(a, caller) ==> r == Err::<Event, ErrorKind>(ErrorKind::Unauthorized)
        && b == a
    &&& authorized(a, caller) && is_registered(a.voters, voter) ==> r == Err::<
        Event,
        ErrorKind,
    >(ErrorKind::AlreadyRegistered) && b == a
    &&& authorized(a, caller) && !is_registered(a.voters, voter) ==> {
        &&& r matches Ok(Event::VoterRegistered { voter: w, name: n }) && w == voter && n@
            == name@
        &&& b == (BallotView {
            owner: Some(caller),
            voters: a.voters.push((voter, fresh_voter(name, image))),
            ..a
        })
    }
}

/// The effect of `self_register(caller, name, image)` on `a`, giving `r` and `b`.
pub open spec fn self_register_outcome(
    a: BallotView,
    caller: Identity,
    name: String,
    image: String,
    r: Result<Event, ErrorKind>,
    b: BallotView,
) -> bool {
    &&& is_registered(a.voters, caller) ==> r == Err::<Event, ErrorKind>(
        ErrorKind::AlreadyRegistered,
    ) && b == a
    &&& !is_registered(a.voters, caller) ==> {
        &&& r matches Ok(Event::VoterRegistered { voter: w, name: n }) && w == caller && n@
            == name@
        &&& b == (BallotView {
            voters: a.voters.push((caller, fresh_voter(name, image))),
            ..a
        })
    }
}

/// The effect of `start_election(caller)` on `a`, giving `r` and `b`.
pub open spec fn start_outcome(
    a: BallotView,
    caller: Identity,
    r: Result<Event, ErrorKind>,
    b: BallotView,
) -> bool {
    &&& !authorized(a, caller) ==> r == Err::<Event, ErrorKind>(ErrorKind::Unauthorized)
        && b == a
    &&& authorized(a, caller) && a.state == ElectionState::Ongoing ==> r == Err::<
        Event,
        ErrorKind,
    >(ErrorKind::InvalidState) && b == a
    &&& authorized(a, caller) && a.state != ElectionState::Ongoing ==> r == Ok::<
        Event,
        ErrorKind,
    >(Event::ElectionStarted) && b == (BallotView {
        owner: Some(caller),
        state: ElectionState::Ongoing,
        candidates: Seq::empty(),
        voters: Seq::empty(),
        next_candidate_id: 1,
        ..a
    })
}

/// The effect of `end_election(caller)` on `a`, giving `r` and `b`.
pub open spec fn end_outcome(
    a: BallotView,
    caller: Identity,
    r: Result<Event, ErrorKind>,
    b: BallotView,
) -> bool {
    &&& !authorized(a, caller) ==> r == Err::<Event, ErrorKind>(ErrorKind::Unauthorized)
        && b == a
    &&& authorized(a, caller) && a.state != ElectionState::Ongoing ==> r == Err::<
        Event,
        ErrorKind,
    >(ErrorKind::InvalidState) && b == a
    &&& authorized(a, caller) && a.state == ElectionState::Ongoing ==> r == Ok::<
        Event,
        ErrorKind,
    >(Event::ElectionEnded) && b == (BallotView {
        owner: Some(caller),
        state: ElectionState::Ended,
        ..a
    })
}

/// The effect of `create_election(caller, name, now)` on `a`, giving `r` and `b`.
pub open spec fn create_outcome(
    a: BallotView,
    caller: Identity,
    name: String,
    now: u64,
    r: Result<String, ErrorKind>,
    b: BallotView,
) -> bool {
    &&& !authorized(a, caller) ==> r == Err::<String, ErrorKind>(ErrorKind::Unauthorized)
        && b == a
    &&& authorized(a, caller) ==> {
        let key = election_key(a.elections.len() + 1);
        &&& r matches Ok(id) && id@ == key
        &&& b == (BallotView {
            owner: Some(caller),
            elections: a.elections.push(b.elections.last()),
            audit_trail: a.audit_trail.push(b.audit_trail.last()),
            ..a
        })
        &&& is_new_election(b.elections.last(), key, name@)
        &&& is_entry(
            b.audit_trail.last(),
            now,
            "create_election"@,
            caller,
            "Created election: "@ + name@,
        )
    }
}

/// The effect of `switch_election(caller, election_id, now)` on `a`, giving `r` and `b`.
pub open spec fn switch_outcome(
    a: BallotView,
    caller: Identity,
    election_id: String,
    now: u64,
    r: Result<(), ErrorKind>,
    b: BallotView,
) -> bool {
    &&& (forall|j: int|
        0 <= j < a.elections.len() ==> #[trigger] a.elections[j].id@
            != election_id@) ==> r == Err::<(), ErrorKind>(ErrorKind::ElectionNotFound)
        && b == a
    &&& (exists|j: int|
        0 <= j < a.elections.len() && #[trigger] a.elections[j].id@
            == election_id@) ==> r == Ok::<(), ErrorKind>(()) && exists|i: int|
        {
            &&& 0 <= i < a.elections.len()
            &&& #[trigger] a.elections[i].id@ == election_id@
            &&& forall|j: int|
                0 <= j < i ==> #[trigger] a.elections[j].id@ != election_id@
            &&& b.state == a.elections[i].state
            &&& same_candidates(b.candidates, a.elections[i].candidates@)
            &&& same_voters(b.voters, a.elections[i].voters@)
        }
    &&& r is Ok ==> {
        &&& b.current_election_id == Some(election_id@)
        &&& b.audit_trail == a.audit_trail.push(
            b.audit_trail.last(),
        )
        &&& is_entry(
            b.audit_trail.last(),
            now,
            "switch_election"@,
            caller,
            "Switched to election: "@ + election_id@,
        )
        &&& b.owner == a.owner
        &&& b.next_candidate_id == a.next_candidate_id
        &&& b.elections == a.elections
        &&& b.voting_method == a.voting_method
    }
}

/// The effect of `set_voting_method(caller, method)` on `a`, giving `r` and `b`.
pub open spec fn set_method_outcome(
    a: BallotView,
    caller: Identity,
    method: VotingMethod,
    r: Result<(), ErrorKind>,
    b: BallotView,
) -> bool {
    &&& !authorized(a, caller) ==> r == Err::<(), ErrorKind>(ErrorKind::Unauthorized)
        && b == a
    &&& authorized(a, caller) ==> r == Ok::<(), ErrorKind>(()) && b == (BallotView {
        owner: Some(caller),
        voting_method: method,
        ..a
    })
}

/// The effect of `batch_add_candidates(caller, items)` on `a`, giving `r` and `b`.
pub open spec fn add_batch_outcome(
    a: BallotView,
    caller: Identity,
    items: Vec<(String, String)>,
    r: Result<Vec<Event>, ErrorKind>,
    b: BallotView,
) -> bool {
    &&& !authorized(a, caller) ==> r == Err::<Vec<Event>, ErrorKind>(
        ErrorKind::Unauthorized,
    ) && b == a
    &&& authorized(a, caller) && a.next_candidate_id + items@.len() > u64::MAX
        ==> r == Err::<Vec<Event>, ErrorKind>(ErrorKind::IdsExhausted) && b == a
    &&& authorized(a, caller) && a.next_candidate_id + items@.len() <= u64::MAX
        ==> {
        let base = a.candidates.len();
        let next = a.next_candidate_id;
        &&& r matches Ok(evs) && evs@.len() == items@.len() && forall|k: int|
            0 <= k < items@.len() ==> announces_candidate(
                #[trigger] evs@[k],
                next + k,
                items@[k].0@,
            )
        &&& b == (BallotView {
            owner: Some(caller),
            candidates: b.candidates,
            next_candidate_id: (next + items@.len()) as u64,
            ..a
        })
        &&& b.candidates.len() == base + items@.len()
        &&& b.candidates.subrange(0, base as int) == a.candidates
        &&& forall|k: int|
            0 <= k < items@.len() ==> added_as(
                #[trigger] b.candidates[base + k],
                next + k,
                items@[k],
            )
    }
}

/// The effect of `batch_register_voters(caller, items)` on `a`, giving `r` and `b`.
pub open spec fn register_batch_outcome(
    a: BallotView,
    caller: Identity,
    items: Vec<(Identity, String, String)>,
    r: Result<Vec<Event>, ErrorKind>,
    b: BallotView,
) -> bool {
    &&& !authorized(a, caller) ==> r == Err::<Vec<Event>, ErrorKind>(
        ErrorKind::Unauthorized,
    ) && b == a
    &&& authorized(a, caller) && batch_conflict(a.voters, items@) ==> r == Err::<
        Vec<Event>,
        ErrorKind,
    >(ErrorKind::AlreadyRegistered) && b == a
    &&& authorized(a, caller) && !batch_conflict(a.voters, items@) ==> {
        let base = a.voters.len();
        &&& r matches Ok(evs) && evs@.len() == items@.len() && forall|k: int|
            0 <= k < items@.len() ==> announces_voter(
                #[trigger] evs@[k],
                items@[k].0,
                items@[k].1@,
            )
        &&& b == (BallotView {
            owner: Some(caller),
            voters: b.voters,
            ..a
        })
        &&& b.voters.len() == base + items@.len()
        &&& b.voters.subrange(0, base as int) == a.voters
        &&& forall|k: int|
            0 <= k < items@.len() ==> enrolled_as(
                #[trigger] b.voters[base + k],
                items@[k],
            )
    }
}

impl TrustBallot {
    /// The invariant: candidate ids increase and stay below the counter,
    /// each voter identity appears once, the candidates' vote counts add up
    /// to the number of voters who voted, and every registry snapshot is
    /// as it was created (nothing ever writes back into the registry).
    pub closed spec fn wf(&self) -> bool {
        &&& tables_wf(self.candidates@, self.voters@)
        &&& forall|i: int|
            0 <= i < self.candidates@.len() ==> #[trigger] self.candidates@[i].id
                < self.next_candidate_id
        &&& forall|i: int|
            0 <= i < self.elections@.len() ==> (#[trigger] self.elections@[i]).candidates@.len()
                == 0 && self.elections@[i].voters@.len() == 0
    }

    pub fn new() -> (r: TrustBallot)
        ensures
            r.wf(),
            r@.owner is None,
            r@.state == ElectionState::Created,
            r@.candidates.len() == 0,
            r@.voters.len() == 0,
            r@.next_candidate_id == 1,
            r@.elections.len() == 0,
            r@.current_election_id is None,
            r@.audit_trail.len() == 0,
            r@.voting_method == VotingMethod::Simple,
    {
        TrustBallot {
            owner: None,
            state: ElectionState::Created,
            candidates: Vec::new(),
            voters: Vec::new(),
            next_candidate_id: 1,
            elections: Vec::new(),
            current_election_id: None,
            audit_trail: Vec::new(),
            voting_method: VotingMethod::Simple,
        }
    }

    /// Whether an owner is bound and equals `caller`.
    pub fn is_owner(&self, caller: Identity) -> (r: bool)
        ensures
            r == (self@.owner == Some(caller)),
    {
        match self.owner {
            Some(o) => o == caller,
            None => false,
        }
    }

    fn may_administer(&self, caller: Identity) -> (r: bool)
        ensures
            r == authorized(self@, caller),
    {
        match self.owner {
            Some(o) => o == caller,
            None => true,
        }
    }

    /// Binds `caller` as owner when none is bound; returns the owner.
    pub fn ensure_owner(&mut self, caller: Identity) -> (r: Identity)
        ensures
            final(self)@ == (BallotView { owner: Some(r), ..old(self)@ }),
            r == match old(self)@.owner {
                Some(o) => o,
                None => caller,
            },
            old(self).wf() ==> final(self).wf(),
            owner_kept(old(self)@, final(self)@),
    {
        match self.owner {
            Some(o) => o,
            None => {
                self.owner = Some(caller);
                caller
            },
        }
    }

    /// Adds a candidate with the next id and no votes (owner only).
    pub fn add_candidate(&mut self, caller: Identity, name: String, meta: String) -> (r: Result<
        Event,
        ErrorKind,
    >)
        requires
            old(self).wf(),
        ensures
            final(self).wf(),
            owner_kept(old(self)@, final(self)@),
            add_candidate_outcome(old(self)@, caller, name, meta, r, final(self)@),
    {
        if !self.may_administer(caller) {
            return Err(ErrorKind::Unauthorized);
        }
        if self.next_candidate_id == u64::MAX {
            return Err(ErrorKind::IdsExhausted);
        }
        self.ensure_owner(caller);
        let id = self.next_candidate_id;
        self.next_candidate_id = id + 1;
        let label = name.clone();
        let ghost before = self.candidates@;
        let c = Candidate { id, name, meta, vote_count: 0 };
        proof {
            lemma_total_push(before, c);
        }
        self.candidates.push(c);
        Ok(Event::CandidateAdded { id, name: label })
    }

    fn find_voter(&self, who: Identity) -> (r: Option<usize>)
        ensures
            match r {
                Some(i) => i < self@.voters.len() && self@.voters[i as int].0 == who,
                None => !is_registered(self@.voters, who),
            },
    {
        let mut i: usize = 0;
        while i < self.voters.len()
            invariant
                i <= self.voters@.len(),
                forall|k: int| 0 <= k < i ==> self.voters@[k].0 != who,
            decreases self.voters@.len() - i,
        {
            if self.voters[i].0 == who {
                return Some(i);
            }
            i = i + 1;
        }
        None
    }

    fn find_candidate(&self, id: u64) -> (r: Option<usize>)
        ensures
            match r {
                Some(i) => i < self@.candidates.len() && self@.candidates[i as int].id == id,
                None => !has_candidate(self@.candidates, id),
            },
    {
        let mut i: usize = 0;
        while i < self.candidates.len()
            invariant
                i <= self.candidates@.len(),
                forall|k: int| 0 <= k < i ==> self.candidates@[k].id != id,
            decreases self.candidates@.len() - i,
        {
            if self.candidates[i].id == id {
                return Some(i);
            }
            i = i + 1;
        }
        None
    }

    fn enroll(&mut self, who: Identity, name: String, image: String) -> (r: Event)
        requires
            old(self).wf(),
            !is_registered(old(self)@.voters, who),
        ensures
            final(self).wf(),
            owner_kept(old(self)@, final(self)@),
            r matches Event::VoterRegistered { voter, name: n } && voter == who && n@ == name@,
            final(self)@ == (BallotView {
                voters: old(self)@.voters.push((who, fresh_voter(name, image))),
                ..old(self)@
            }),
    {
        let label = name.clone();
        let e = (who, Voter { name, image, is_registered: true, has_voted: false, voted_candidate_id: 0 });
        proof {
            lemma_voted_push(self.voters@, e);
        }
        self.voters.push(e);
        Event::VoterRegistered { voter: who, name: label }
    }

    /// Registers `voter` (owner only); an identity registers once.
    pub fn register_voter(&mut self, caller: Identity, voter: Identity, name: String, image: String) -> (r:
        Result<Event, ErrorKind>)
        requires
            old(self).wf(),
        ensures
            final(self).wf(),
            owner_kept(old(self)@, final(self)@),
            register_outcome(old(self)@, caller, voter, name, image, r, final(self)@),
    {
        if !self.may_administer(caller) {
            return Err(ErrorKind::Unauthorized);
        }
        if self.find_voter(voter).is_some() {
            return Err(ErrorKind::AlreadyRegistered);
        }
        self.ensure_owner(caller);
        Ok(self.enroll(voter, name, image))
    }

    /// Registers the caller itself; an identity registers once.
    pub fn self_register(&mut self, caller: Identity, name: String, image: String) -> (r: Result<
        Event,
        ErrorKind,
    >)
        requires
            old(self).wf(),
        ensures
            final(self).wf(),
            owner_kept(old(self)@, final(self)@),
            self_register_outcome(old(self)@, caller, name, image, r, final(self)@),
    {
        if self.find_voter(caller).is_some() {
            return Err(ErrorKind::AlreadyRegistered);
        }
        Ok(self.enroll(caller, name, image))
    }

    /// Opens voting (owner only, not while ongoing): discards all candidates
    /// and voters and restarts candidate ids at 1.
    pub fn start_election(&mut self, caller: Identity) -> (r: Result<Event, ErrorKind>)
        requires
            old(self).wf(),
        ensures
            final(self).wf(),
            owner_kept(old(self)@, final(self)@),
            start_outcome(old(self)@, caller, r, final(self)@),
    {
        if !self.may_administer(caller) {
            return Err(ErrorKind::Unauthorized);
        }
        if self.state == ElectionState::Ongoing {
            return Err(ErrorKind::InvalidState);
        }
        self.ensure_owner(caller);
        self.candidates.clear();
        self.voters.clear();
        self.next_candidate_id = 1;
        self.state = ElectionState::Ongoing;
        proof {
            assert(self.candidates@ =~= Seq::empty());
            assert(self.voters@ =~= Seq::empty());
        }
        Ok(Event::ElectionStarted)
    }

    /// Closes voting (owner only, only while ongoing).
    pub fn end_election(&mut self, caller: Identity) -> (r: Result<Event, ErrorKind>)
        requires
            old(self).wf(),
        ensures
            final(self).wf(),
            owner_kept(old(self)@, final(self)@),
            end_outcome(old(self)@, caller, r, final(self)@),
    {
        if !self.may_administer(caller) {
            return Err(ErrorKind::Unauthorized);
        }
        if self.state != ElectionState::Ongoing {
            return Err(ErrorKind::InvalidState);
        }
        self.ensure_owner(caller);
        self.state = ElectionState::Ended;
        Ok(Event::ElectionEnded)
    }

    /// Casts the caller's single vote for `candidate_id` while voting is open.
    pub fn vote(&mut self, caller: Identity, candidate_id: u64) -> (r: Result<Event, ErrorKind>)
        requires
            old(self).wf(),
        ensures
            final(self).wf(),
            owner_kept(old(self)@, final(self)@),
            vote_outcome(old(self)@, caller, candidate_id, r, final(self)@),
    {
        if self.state != ElectionState::Ongoing {
            return Err(ErrorKind::InvalidState);
        }
        let vi = match self.find_voter(caller) {
            Some(i) => i,
            None => return Err(ErrorKind::NotRegistered),
        };
        if self.voters[vi].1.has_voted {
            return Err(ErrorKind::AlreadyVoted);
        }
        let ci = match self.find_candidate(candidate_id) {
            Some(i) => i,
            None => return Err(ErrorKind::UnknownCandidate),
        };
        let ghost cs = self.candidates@;
        let ghost vs = self.voters@;
        let ghost marked = vs.update(
            vi as int,
            (caller, Voter { has_voted: true, voted_candidate_id: candidate_id, ..vs[vi as int].1 }),
        );
        proof {
            // the candidate's count is below the number of voters, as this
            // voter has not voted yet
            lemma_voted_update(vs, vi as int, marked[vi as int]);
            lemma_voted_bound(marked);
            crate::tally::lemma_prefix_total(cs, ci as int + 1);
            assert(cs.take(ci as int + 1).drop_last() =~= cs.take(ci as int));
            assert(cs[ci as int].vote_count < vs.len());
        }
        let vcount = self.voters.len();
        let mut c = self.candidates.remove(ci);
        proof {
            assert(c == cs[ci as int]);
            assert(c.vote_count < vcount);
            assert(vcount as int <= usize::MAX as int);
            assert(usize::MAX as int <= u64::MAX as int);
        }
        c.vote_count = c.vote_count + 1;
        let count = c.vote_count;
        proof {
            lemma_total_update(cs, ci as int, c);
        }
        self.candidates.insert(ci, c);
        let mut v = self.voters.remove(vi);
        v.1.has_voted = true;
        v.1.voted_candidate_id = candidate_id;
        self.voters.insert(vi, v);
        proof {
            assert(self.candidates@ =~= cs.update(ci as int, c));
            assert(self.voters@ =~= vs.update(vi as int, v));
            assert forall|i: int, j: int| 0 <= i < j < self.voters@.len() implies self.voters@[i].0 != self.voters@[j].0 by {
                assert(vs[i].0 != vs[j].0);
            }
            assert forall|i: int, j: int| 0 <= i < j < self.candidates@.len() implies self.candidates@[i].id < self.candidates@[j].id by {
                assert(cs[i].id < cs[j].id);
            }
            assert forall|i: int| 0 <= i < self.candidates@.len() implies #[trigger] self.candidates@[i].id < self.next_candidate_id by {
                assert(cs[i].id < self.next_candidate_id);
            }
        }
        Ok(Event::VoteCast { voter: caller, candidate_id, vote_count: count })
    }

    /// The total of all vote counts; the invariant keeps it within range.
    fn total(&self) -> (r: u64)
        requires
            self.wf(),
        ensures
            r == total_votes(self@.candidates),
            r <= self@.voters.len(),
    {
        let nv = self.voters.len();
        proof {
            lemma_voted_bound(self.voters@);
            assert(nv as int <= usize::MAX as int);
            assert(usize::MAX as int <= u64::MAX as int);
        }
        vote_total(&self.candidates)
    }

    /// The winner, once the election has ended; see `is_outcome`.
    pub fn get_winner(&self) -> (r: Option<(u64, String, u64, String)>)
        ensures
            self@.state != ElectionState::Ended <==> r is None,
            r matches Some(w) ==> is_outcome(self@.candidates, w),
    {
        if self.state != ElectionState::Ended {
            return None;
        }
        Some(winner_of(&self.candidates))
    }

    /// `(total votes, total votes / number of candidates)`, the average
    /// truncated and 0 without candidates.
    pub fn get_performance_metrics(&self) -> (r: (u64, u64))
        requires
            self.wf(),
        ensures
            r.0 == total_votes(self@.candidates),
            r.1 == if self@.candidates.len() > 0 {
                total_votes(self@.candidates) / self@.candidates.len()
            } else {
                0
            },
    {
        let total = self.total();
        let n = self.candidates.len() as u64;
        let avg = if n > 0 {
            total / n
        } else {
            0
        };
        (total, avg)
    }

    fn count_voted(&self) -> (r: u64)
        ensures
            r == voted_count(self@.voters),
    {
        let mut n: u64 = 0;
        let mut i: usize = 0;
        while i < self.voters.len()
            invariant
                i <= self.voters@.len(),
                n == voted_count(self.voters@.take(i as int)),
            decreases self.voters@.len() - i,
        {
            proof {
                assert(self.voters@.take(i + 1).drop_last() =~= self.voters@.take(i as int));
                lemma_voted_bound(self.voters@.take(i as int));
                assert(usize::MAX as int <= u64::MAX as int);
            }
            if self.voters[i].1.has_voted {
                n = n + 1;
            }
            i = i + 1;
        }
        proof {
            assert(self.voters@.take(i as int) =~= self.voters@);
        }
        n
    }

    /// Totals of votes, candidates and voters, and how many voters voted.
    pub fn get_statistics(&self) -> (r: Statistics)
        requires
            self.wf(),
        ensures
            r.total_votes == total_votes(self@.candidates),
            r.total_candidates == self@.candidates.len(),
            r.total_voters == self@.voters.len(),
            r.voted_voters == voted_count(self@.voters),
    {
        proof {
            assert(usize::MAX as int <= u64::MAX as int);
        }
        Statistics {
            total_votes: self.total(),
            total_candidates: self.candidates.len() as u64,
            total_voters: self.voters.len() as u64,
            voted_voters: self.count_voted(),
        }
    }

    /// `(rank, candidate, votes)` from most to fewest votes, equal counts in
    /// id order; a share is `votes / total * 100` of `get_performance_metrics().0`.
    pub fn get_leaderboard(&self) -> (r: Vec<(u64, Candidate, u64)>)
        requires
            self.wf(),
        ensures
            is_leaderboard(self@.candidates, r@),
    {
        leaderboard_of(&self.candidates)
    }

    pub fn get_state(&self) -> (r: ElectionState)
        ensures
            r == self@.state,
    {
        self.state
    }

    pub fn get_voting_method(&self) -> (r: VotingMethod)
        ensures
            r == self@.voting_method,
    {
        self.voting_method
    }

    /// The candidate carrying `id`, if any.
    pub fn get_candidate(&self, id: u64) -> (r: Option<Candidate>)
        ensures
            match r {
                Some(c) => exists|i: int|
                    0 <= i < self@.candidates.len() && #[trigger] self@.candidates[i].id == id
                        && c.same(self@.candidates[i]),
                None => !has_candidate(self@.candidates, id),
            },
    {
        match self.find_candidate(id) {
            Some(i) => Some(self.candidates[i].duplicate()),
            None => None,
        }
    }

    pub fn get_all_candidates(&self) -> (r: Vec<Candidate>)
        ensures
            crate::model::same_candidates(r@, self@.candidates),
    {
        crate::model::copy_candidates(&self.candidates)
    }

    /// The record of voter `address`, if registered.
    pub fn get_voter(&self, address: Identity) -> (r: Option<Voter>)
        ensures
            match r {
                Some(v) => exists|i: int|
                    0 <= i < self@.voters.len() && #[trigger] self@.voters[i].0 == address
                        && v.same(self@.voters[i].1),
                None => !is_registered(self@.voters, address),
            },
    {
        match self.find_voter(address) {
            Some(i) => Some(self.voters[i].1.duplicate()),
            None => None,
        }
    }

    pub fn get_all_voters(&self) -> (r: Vec<(Identity, Voter)>)
        ensures
            crate::model::same_voters(r@, self@.voters),
    {
        crate::model::copy_voters(&self.voters)
    }

    pub fn is_voter_registered(&self, address: Identity) -> (r: bool)
        ensures
            r == is_registered(self@.voters, address),
    {
        self.find_voter(address).is_some()
    }

    /// Whether `address` is registered and has voted.
    pub fn has_voted(&self, address: Identity) -> (r: bool)
        requires
            self.wf(),
        ensures
            r == exists|i: int|
                0 <= i < self@.voters.len() && #[trigger] self@.voters[i].0 == address
                    && self@.voters[i].1.has_voted,
    {
        match self.find_voter(address) {
            Some(i) => {
                proof {
                    assert forall|j: int|
                        0 <= j < self@.voters.len() && #[trigger] self@.voters[j].0 == address implies j
                        == i by {
                        if j < i {
                            assert(self.voters@[j].0 != self.voters@[i as int].0);
                        } else if j > i {
                            assert(self.voters@[i as int].0 != self.voters@[j].0);
                        }
                    }
                }
                self.voters[i].1.has_voted
            },
            None => false,
        }
    }

    /// Appends one entry to the audit trail.
    fn add_audit_entry(
        &mut self,
        action: String,
        actor: Identity,
        details: String,
        tx_hash: String,
        now: u64,
    )
        requires
            old(self).wf(),
        ensures
            final(self).wf(),
            owner_kept(old(self)@, final(self)@),
            final(self)@ == (BallotView {
                audit_trail: old(self)@.audit_trail.push(
                    AuditEntry { timestamp: now, action, actor, details, tx_hash },
                ),
                ..old(self)@
            }),
    {
        self.audit_trail.push(AuditEntry { timestamp: now, action, actor, details, tx_hash });
    }

    /// Adds an empty election named `name` to the registry (owner only),
    /// keyed `election_<count after adding>`; the active election is left
    /// as it is.
    pub fn create_election(&mut self, caller: Identity, name: String, now: u64) -> (r: Result<
        String,
        ErrorKind,
    >)
        requires
            old(self).wf(),
            old(self)@.elections.len() < usize::MAX,
        ensures
            final(self).wf(),
            owner_kept(old(self)@, final(self)@),
            create_outcome(old(self)@, caller, name, now, r, final(self)@),
    {
        if !self.may_administer(caller) {
            return Err(ErrorKind::Unauthorized);
        }
        self.ensure_owner(caller);
        let n = self.elections.len();
        proof {
            assert(usize::MAX as int <= u64::MAX as int);
        }
        let number = decimal_text((n + 1) as u64);
        let election_id = String::from_str("election_").concat(number.as_str());
        let mut details = String::from_str("Created election: ");
        details.append(name.as_str());
        let e = ElectionData {
            id: election_id.clone(),
            name,
            state: ElectionState::Created,
            candidates: Vec::new(),
            voters: Vec::new(),
            start_time: None,
            end_time: None,
            voting_method: VotingMethod::Simple,
        };
        self.elections.push(e);
        self.add_audit_entry(
            String::from_str("create_election"),
            caller,
            details,
            String::new(),
            now,
        );
        proof {
            assert(self.elections@.drop_last() =~= old(self)@.elections);
        }
        Ok(election_id)
    }

    fn find_election(&self, id: &String) -> (r: Option<usize>)
        ensures
            match r {
                Some(i) => i < self@.elections.len() && self@.elections[i as int].id@ == id@
                    && forall|j: int| 0 <= j < i ==> #[trigger] self@.elections[j].id@ != id@,
                None => forall|j: int|
                    0 <= j < self@.elections.len() ==> #[trigger] self@.elections[j].id@ != id@,
            },
    {
        let mut i: usize = 0;
        while i < self.elections.len()
            invariant
                i <= self.elections@.len(),
                forall|j: int| 0 <= j < i ==> #[trigger] self@.elections[j].id@ != id@,
            decreases self.elections@.len() - i,
        {
            if self.elections[i].id == *id {
                return Some(i);
            }
            i = i + 1;
        }
        None
    }

    /// Makes the registry entry keyed `election_id` the active election:
    /// its state, candidates and voters replace the active ones, which are
    /// not saved back. Logged to the audit trail.
    pub fn switch_election(&mut self, caller: Identity, election_id: String, now: u64) -> (r:
        Result<(), ErrorKind>)
        requires
            old(self).wf(),
        ensures
            final(self).wf(),
            owner_kept(old(self)@, final(self)@),
            switch_outcome(old(self)@, caller, election_id, now, r, final(self)@),
    {
        let i = match self.find_election(&election_id) {
            Some(i) => i,
            None => return Err(ErrorKind::ElectionNotFound),
        };
        let state = self.elections[i].state;
        let candidates = copy_candidates(&self.elections[i].candidates);
        let voters = copy_voters(&self.elections[i].voters);
        let mut details = String::from_str("Switched to election: ");
        details.append(election_id.as_str());
        self.current_election_id = Some(election_id);
        self.state = state;
        self.candidates = candidates;
        self.voters = voters;
        proof {
            assert(self.candidates@ =~= Seq::empty());
            assert(self.voters@ =~= Seq::empty());
        }
        self.add_audit_entry(
            String::from_str("switch_election"),
            caller,
            details,
            String::new(),
            now,
        );
        proof {
            assert(self@.audit_trail.drop_last() =~= old(self)@.audit_trail);
        }
        Ok(())
    }

    /// The whole trail, or only the entries whose details mention
    /// `election_id`, in order of recording.
    pub fn get_audit_trail(&self, election_id: Option<String>) -> (r: Vec<AuditEntry>)
        ensures
            match election_id {
                None => same_entries(r@, self@.audit_trail),
                Some(e) => same_entries(r@, mentioning(self@.audit_trail, e@)),
            },
    {
        let mut r: Vec<AuditEntry> = Vec::new();
        let ghost s = self@.audit_trail;
        let mut i: usize = 0;
        while i < self.audit_trail.len()
            invariant
                s == self@.audit_trail,
                i <= s.len(),
                match election_id {
                    None => same_entries(r@, s.take(i as int)),
                    Some(e) => same_entries(r@, mentioning(s.take(i as int), e@)),
                },
            decreases s.len() - i,
        {
            proof {
                assert(s.take(i + 1).drop_last() =~= s.take(i as int));
            }
            let keep = match &election_id {
                None => true,
                Some(e) => text_contains(self.audit_trail[i].details.as_str(), e.as_str()),
            };
            if keep {
                r.push(self.audit_trail[i].duplicate());
            }
            i = i + 1;
        }
        proof {
            assert(s.take(i as int) =~= s);
        }
        r
    }

    /// Adds the candidates `(name, meta)` of `items` in order (owner only),
    /// all or none; one event per candidate.
    pub fn batch_add_candidates(&mut self, caller: Identity, items: Vec<(String, String)>) -> (r:
        Result<Vec<Event>, ErrorKind>)
        requires
            old(self).wf(),
        ensures
            final(self).wf(),
            owner_kept(old(self)@, final(self)@),
            add_batch_outcome(old(self)@, caller, items, r, final(self)@),
    {
        if !self.may_administer(caller) {
            return Err(ErrorKind::Unauthorized);
        }
        if self.next_candidate_id as u128 + items.len() as u128 > u64::MAX as u128 {
            return Err(ErrorKind::IdsExhausted);
        }
        self.ensure_owner(caller);
        let ghost base = old(self)@.candidates.len();
        let ghost next = old(self)@.next_candidate_id;
        let mut evs: Vec<Event> = Vec::new();
        let mut k: usize = 0;
        while k < items.len()
            invariant
                self.wf(),
                k <= items@.len(),
                next + items@.len() <= u64::MAX,
                base == old(self)@.candidates.len(),
                next == old(self)@.next_candidate_id,
                self@ == (BallotView {
                    owner: Some(caller),
                    candidates: self@.candidates,
                    next_candidate_id: (next + k) as u64,
                    ..old(self)@
                }),
                self@.candidates.len() == base + k,
                self@.candidates.subrange(0, base as int) == old(self)@.candidates,
                forall|j: int| 0 <= j < k ==> added_as(#[trigger] self@.candidates[base + j], next + j, items@[j]),
                evs@.len() == k,
                forall|j: int| 0 <= j < k ==> announces_candidate(#[trigger] evs@[j], next + j, items@[j].0@),
            decreases items@.len() - k,
        {
            let ghost before = self@.candidates;
            match self.add_candidate(caller, items[k].0.clone(), items[k].1.clone()) {
                Ok(e) => evs.push(e),
                Err(e) => return Err(e),
            }
            proof {
                assert(self@.candidates.subrange(0, base as int) =~= before.subrange(0, base as int));
                assert forall|j: int| 0 <= j < k + 1 implies added_as(#[trigger] self@.candidates[base + j], next + j, items@[j]) by {
                    if j < k {
                        assert(self@.candidates[base + j] == before[base + j]);
                    }
                }
            }
            k = k + 1;
        }
        Ok(evs)
    }

    /// Registers the voters `(identity, name, image)` of `items` in order
    /// (owner only), all or none: nothing is registered when any identity is
    /// already registered or repeats within `items`.
    pub fn batch_register_voters(
        &mut self,
        caller: Identity,
        items: Vec<(Identity, String, String)>,
    ) -> (r: Result<Vec<Event>, ErrorKind>)
        requires
            old(self).wf(),
        ensures
            final(self).wf(),
            owner_kept(old(self)@, final(self)@),
            register_batch_outcome(old(self)@, caller, items, r, final(self)@),
    {
        if !self.may_administer(caller) {
            return Err(ErrorKind::Unauthorized);
        }
        let mut k: usize = 0;
        while k < items.len()
            invariant
                self.wf(),
                self@ == old(self)@,
                authorized(old(self)@, caller),
                k <= items@.len(),
                forall|x: int|
                    0 <= x < k ==> !(is_registered(self@.voters, #[trigger] items@[x].0) || exists|j: int|
                        0 <= j < x && items@[j].0 == items@[x].0),
            decreases items@.len() - k,
        {
            if self.find_voter(items[k].0).is_some() {
                return Err(ErrorKind::AlreadyRegistered);
            }
            let mut j: usize = 0;
            while j < k
                invariant
                    self.wf(),
                    self@ == old(self)@,
                    authorized(old(self)@, caller),
                    j <= k < items@.len(),
                    forall|y: int| 0 <= y < j ==> items@[y].0 != items@[k as int].0,
                decreases k - j,
            {
                if items[j].0 == items[k].0 {
                    return Err(ErrorKind::AlreadyRegistered);
                }
                j = j + 1;
            }
            k = k + 1;
        }
        self.ensure_owner(caller);
        let ghost base = old(self)@.voters.len();
        let mut evs: Vec<Event> = Vec::new();
        let mut k: usize = 0;
        while k < items.len()
            invariant
                self.wf(),
                k <= items@.len(),
                !batch_conflict(old(self)@.voters, items@),
                base == old(self)@.voters.len(),
                self@ == (BallotView { owner: Some(caller), voters: self@.voters, ..old(self)@ }),
                self@.voters.len() == base + k,
                self@.voters.subrange(0, base as int) == old(self)@.voters,
                forall|j: int| 0 <= j < k ==> enrolled_as(#[trigger] self@.voters[base + j], items@[j]),
                evs@.len() == k,
                forall|j: int| 0 <= j < k ==> announces_voter(#[trigger] evs@[j], items@[j].0, items@[j].1@),
            decreases items@.len() - k,
        {
            let ghost before = self@.voters;
            proof {
                assert(!is_registered(before, items@[k as int].0)) by {
                    if is_registered(before, items@[k as int].0) {
                        let i = choose|i: int| 0 <= i < before.len() && #[trigger] before[i].0 == items@[k as int].0;
                        if i < base {
                            assert(old(self)@.voters[i] == before[i]);
                            assert(is_registered(old(self)@.voters, items@[k as int].0));
                        } else {
                            assert(enrolled_as(before[base + (i - base)], items@[i - base]));
                        }
                        assert(batch_conflict(old(self)@.voters, items@));
                    }
                }
            }
            match self.register_voter(caller, items[k].0, items[k].1.clone(), items[k].2.clone()) {
                Ok(e) => evs.push(e),
                Err(e) => return Err(e),
            }
            proof {
                assert(self@.voters.subrange(0, base as int) =~= before.subrange(0, base as int));
                assert forall|j: int| 0 <= j < k + 1 implies enrolled_as(#[trigger] self@.voters[base + j], items@[j]) by {
                    if j < k {
                        assert(self@.voters[base + j] == before[base + j]);
                    }
                }
            }
            k = k + 1;
        }
        Ok(evs)
    }

    /// Selects how votes are to be read (owner only).
    pub fn set_voting_method(&mut self, caller: Identity, method: VotingMethod) -> (r: Result<
        (),
        ErrorKind,
    >)
        requires
            old(self).wf(),
        ensures
            final(self).wf(),
            owner_kept(old(self)@, final(self)@),
            set_method_outcome(old(self)@, caller, method, r, final(self)@),
    {
        if !self.may_administer(caller) {
            return Err(ErrorKind::Unauthorized);
        }
        self.ensure_owner(caller);
        self.voting_method = method;
        Ok(())
    }
}

impl TrustBallot {
    /// The registry entry keyed `election_id` (the first, should keys repeat).
    pub fn get_election(&self, election_id: &String) -> (r: Option<ElectionData>)
        ensures
            match r {
                Some(e) => exists|i: int|
                    0 <= i < self@.elections.len() && #[trigger] self@.elections[i].id@
                        == election_id@ && e.same(self@.elections[i]),
                None => forall|j: int|
                    0 <= j < self@.elections.len() ==> #[trigger] self@.elections[j].id@
                        != election_id@,
            },
    {
        match self.find_election(election_id) {
            Some(i) => Some(self.elections[i].duplicate()),
            None => None,
        }
    }

    /// The number of registry entries.
    pub fn election_count(&self) -> (r: usize)
        ensures
            r == self@.elections.len(),
    {
        self.elections.len()
    }

    /// Every registry entry, in order of creation.
    pub fn get_all_elections(&self) -> (r: Vec<ElectionData>)
        ensures
            r@.len() == self@.elections.len(),
            forall|k: int| 0 <= k < r@.len() ==> (#[trigger] r@[k]).same(self@.elections[k]),
    {
        let mut r: Vec<ElectionData> = Vec::new();
        let mut i: usize = 0;
        while i < self.elections.len()
            invariant
                i <= self@.elections.len(),
                r@.len() == i,
                forall|k: int| 0 <= k < i ==> (#[trigger] r@[k]).same(self@.elections[k]),
            decreases self@.elections.len() - i,
        {
            r.push(self.elections[i].duplicate());
            i = i + 1;
        }
        r
    }

    /// The key of the election last switched to, if any.
    pub fn get_current_election_id(&self) -> (r: Option<String>)
        ensures
            match r {
                Some(k) => self@.current_election_id == Some(k@),
                None => self@.current_election_id is None,
            },
    {
        match &self.current_election_id {
            Some(k) => Some(k.clone()),
            None => None,
        }
    }
}

/// Once `owner` is bound, nobody else is authorized: every owner-gated
/// operation of another caller is refused with `Unauthorized`, and no
/// operation rebinds the owner (each one keeps `owner_kept`).
pub proof fn lemma_owner_sticky(v: BallotView, owner: Identity, other: Identity)
    requires
        v.owner == Some(owner),
        other != owner,
    ensures
        !authorized(v, other),
        authorized(v, owner),
{
}

/// A voter whose vote was recorded cannot vote again: a second `vote` by
/// the same caller, for any candidate, is refused with `AlreadyVoted` and
/// changes nothing, so no vote count moves.
pub proof fn lemma_one_vote_per_voter(
    a: BallotView,
    caller: Identity,
    first: u64,
    r1: Result<Event, ErrorKind>,
    b: BallotView,
    second: u64,
    r2: Result<Event, ErrorKind>,
    c: BallotView,
)
    requires
        vote_outcome(a, caller, first, r1, b),
        r1 is Ok,
        vote_outcome(b, caller, second, r2, c),
    ensures
        r2 == Err::<Event, ErrorKind>(ErrorKind::AlreadyVoted),
        c == b,
{
    let vi = choose|vi: int| 0 <= vi < a.voters.len() && #[trigger] a.voters[vi].0 == caller;
    let ci = choose|ci: int| 0 <= ci < a.candidates.len() && #[trigger] a.candidates[ci].id == first;
    assert(b.voters[vi].0 == caller && b.voters[vi].1.has_voted);
}

/// A caller already recorded as having voted is refused by `vote` with
/// `AlreadyVoted`, whatever the candidate, and nothing changes. Together
/// with `keeps_votes`, which every operation but `start_election` and
/// `switch_election` guarantees, a voter's vote is cast at most once.
pub proof fn lemma_voted_voter_refused(
    a: BallotView,
    caller: Identity,
    candidate_id: u64,
    r: Result<Event, ErrorKind>,
    b: BallotView,
)
    requires
        exists|i: int| 0 <= i < a.voters.len() && #[trigger] a.voters[i].0 == caller && a.voters[i].1.has_voted,
        a.state == ElectionState::Ongoing,
        vote_outcome(a, caller, candidate_id, r, b),
    ensures
        r == Err::<Event, ErrorKind>(ErrorKind::AlreadyVoted),
        b == a,
{
}

/// In every well-formed state the vote counts of all candidates add up to
/// the number of voters who have voted.
pub proof fn lemma_votes_conserved(t: &TrustBallot)
    requires
        t.wf(),
    ensures
        total_votes(t@.candidates) == voted_count(t@.voters),
{
}

/// A successful vote adds exactly one to the total of the vote counts and
/// one to the number of voters who have voted; with `start_election`
/// emptying both tables, the total counts the successful votes since.
pub proof fn lemma_vote_adds_one(
    a: BallotView,
    caller: Identity,
    candidate_id: u64,
    r: Result<Event, ErrorKind>,
    b: BallotView,
)
    requires
        vote_outcome(a, caller, candidate_id, r, b),
        r is Ok,
    ensures
        total_votes(b.candidates) == total_votes(a.candidates) + 1,
        voted_count(b.voters) == voted_count(a.voters) + 1,
{
    let vi = choose|vi: int| 0 <= vi < a.voters.len() && #[trigger] a.voters[vi].0 == caller;
    let ci = choose|ci: int|
        0 <= ci < a.candidates.len() && #[trigger] a.candidates[ci].id == candidate_id;
    let c = a.candidates[ci];
    lemma_total_update(a.candidates, ci, Candidate { vote_count: (c.vote_count + 1) as u64, ..c });
    let v = a.voters[vi].1;
    lemma_voted_update(
        a.voters,
        vi,
        (caller, Voter { has_voted: true, voted_candidate_id: candidate_id, ..v }),
    );
}

} // verus!
