use vstd::prelude::*;

verus! {

/// An authenticated principal, as handed in by the host: a 256-bit hash
/// held as four 64-bit words.
#[derive(Clone, Copy, Debug, PartialEq, Eq, Structural)]
pub struct Identity {
    pub w0: u64,
    pub w1: u64,
    pub w2: u64,
    pub w3: u64,
}

/// Lifecycle of an election: `Created`, then `Ongoing`, then `Ended`.
#[derive(Clone, Copy, Debug, PartialEq, Eq, Structural)]
pub enum ElectionState {
    Created,
    Ongoing,
    Ended,
}

/// How votes are meant to be interpreted; only `Simple` has a tally rule.
#[derive(Clone, Copy, Debug, PartialEq, Eq, Structural)]
pub enum VotingMethod {
    Simple,
    RankedChoice,
    Approval,
    Weighted,
}

/// Why an operation was rejected. A rejected operation changes nothing.
#[derive(Clone, Copy, Debug, PartialEq, Eq, Structural)]
pub enum ErrorKind {
    Unauthorized,
    InvalidState,
    AlreadyRegistered,
    AlreadyVoted,
    NotRegistered,
    UnknownCandidate,
    ElectionNotFound,
    /// A vote form whose voting method has no tally rule.
    Unsupported,
    /// The candidate id counter has reached its largest value.
    IdsExhausted,
}

#[derive(Debug)]
pub struct Candidate {
    pub id: u64,
    pub name: String,
    pub meta: String,
    pub vote_count: u64,
}

#[derive(Debug)]
pub struct Voter {
    pub name: String,
    pub image: String,
    pub is_registered: bool,
    pub has_voted: bool,
    pub voted_candidate_id: u64,
}

/// What a successful operation announces to subscribers.
#[derive(Debug)]
pub enum Event {
    CandidateAdded { id: u64, name: String },
    VoterRegistered { voter: Identity, name: String },
    ElectionStarted,
    ElectionEnded,
    VoteCast { voter: Identity, candidate_id: u64, vote_count: u64 },
    CandidatesUpdated,
    VotersUpdated,
    WinnerDeclared { id: u64, name: String, votes: u64 },
    ElectionStateChanged { state: ElectionState },
}

/// One immutable record of the audit trail.
#[derive(Debug)]
pub struct AuditEntry {
    pub timestamp: u64,
    pub action: String,
    pub actor: Identity,
    pub details: String,
    pub tx_hash: String,
}

/// A named snapshot of one election held in the registry.
#[derive(Debug)]
pub struct ElectionData {
    pub id: String,
    pub name: String,
    pub state: ElectionState,
    pub candidates: Vec<Candidate>,
    pub voters: Vec<(Identity, Voter)>,
    pub start_time: Option<u64>,
    pub end_time: Option<u64>,
    pub voting_method: VotingMethod,
}

/// Counts behind the participation figures: the rate is
/// `voted_voters / total_voters * 100`, or 0 without voters.
#[derive(Clone, Copy, Debug, PartialEq, Eq, Structural)]
pub struct Statistics {
    pub total_votes: u64,
    pub total_candidates: u64,
    pub total_voters: u64,
    pub voted_voters: u64,
}

/// A state-changing request, performed on behalf of an authenticated caller.
#[derive(Debug)]
pub enum Operation {
    AddCandidate { name: String, meta: String },
    RegisterVoter { voter: Identity, name: String, image: String },
    SelfRegister { name: String, image: String },
    StartElection,
    EndElection,
    Vote { candidate_id: u64 },
    CreateElection { name: String },
    SwitchElection { election_id: String },
    SetVotingMethod { method: VotingMethod },
    /// `(candidate_id, rank)` pairs
    VoteRankedChoice { rankings: Vec<(u64, u64)> },
    VoteApproval { candidate_ids: Vec<u64> },
    /// `(candidate_id, weight)` pairs
    VoteWeighted { votes: Vec<(u64, u64)> },
}

/// Several requests of one kind, applied all or none.
#[derive(Debug)]
pub enum BatchOperation {
    /// `(name, meta)` of each candidate
    AddCandidates(Vec<(String, String)>),
    /// `(identity, name, image)` of each voter
    RegisterVoters(Vec<(Identity, String, String)>),
}

/// The messages that peer instances of a multi-chain election exchange.
#[derive(Debug)]
pub enum CrossChainMessage {
    VoteUpdate { candidate_id: u64, vote_count: u64 },
    ElectionState { state: ElectionState },
    CandidateAdded { candidate: Candidate },
    WinnerAnnouncement { winner: (u64, String, u64) },
}

impl Candidate {
    /// Field-by-field equality of two candidate records, strings by content.
    pub open spec fn same(self, o: Candidate) -> bool {
        &&& self.id == o.id
        &&& self.name@ == o.name@
        &&& self.meta@ == o.meta@
        &&& self.vote_count == o.vote_count
    }

    pub fn duplicate(&self) -> (r: Candidate)
        ensures
            r.same(*self),
    {
        Candidate {
            id: self.id,
            name: self.name.clone(),
            meta: self.meta.clone(),
            vote_count: self.vote_count,
        }
    }
}

impl Voter {
    /// Field-by-field equality of two voter records, strings by content.
    pub open spec fn same(self, o: Voter) -> bool {
        &&& self.name@ == o.name@
        &&& self.image@ == o.image@
        &&& self.is_registered == o.is_registered
        &&& self.has_voted == o.has_voted
        &&& self.voted_candidate_id == o.voted_candidate_id
    }

    pub fn duplicate(&self) -> (r: Voter)
        ensures
            r.same(*self),
    {
        Voter {
            name: self.name.clone(),
            image: self.image.clone(),
            is_registered: self.is_registered,
            has_voted: self.has_voted,
            voted_candidate_id: self.voted_candidate_id,
        }
    }
}

impl AuditEntry {
    /// Field-by-field equality of two entries, strings by content.
    pub open spec fn same(self, o: AuditEntry) -> bool {
        &&& self.timestamp == o.timestamp
        &&& self.action@ == o.action@
        &&& self.actor == o.actor
        &&& self.details@ == o.details@
        &&& self.tx_hash@ == o.tx_hash@
    }

    pub fn duplicate(&self) -> (r: AuditEntry)
        ensures
            r.same(*self),
    {
        AuditEntry {
            timestamp: self.timestamp,
            action: self.action.clone(),
            actor: self.actor,
            details: self.details.clone(),
            tx_hash: self.tx_hash.clone(),
        }
    }
}

impl ElectionData {
    /// Field-by-field equality of two snapshots, contents by value.
    pub open spec fn same(self, o: ElectionData) -> bool {
        &&& self.id@ == o.id@
        &&& self.name@ == o.name@
        &&& self.state == o.state
        &&& same_candidates(self.candidates@, o.candidates@)
        &&& same_voters(self.voters@, o.voters@)
        &&& self.start_time == o.start_time
        &&& self.end_time == o.end_time
        &&& self.voting_method == o.voting_method
    }

    pub fn duplicate(&self) -> (r: ElectionData)
        ensures
            r.same(*self),
    {
        ElectionData {
            id: self.id.clone(),
            name: self.name.clone(),
            state: self.state,
            candidates: copy_candidates(&self.candidates),
            voters: copy_voters(&self.voters),
            start_time: self.start_time,
            end_time: self.end_time,
            voting_method: self.voting_method,
        }
    }
}

/// `a` and `b` hold the same candidates, in the same order.
pub open spec fn same_candidates(a: Seq<Candidate>, b: Seq<Candidate>) -> bool {
    a.len() == b.len() && forall|k: int| 0 <= k < a.len() ==> (#[trigger] a[k]).same(b[k])
}

/// `a` and `b` hold the same voters, in the same order.
pub open spec fn same_voters(a: Seq<(Identity, Voter)>, b: Seq<(Identity, Voter)>) -> bool {
    a.len() == b.len() && forall|k: int|
        0 <= k < a.len() ==> (#[trigger] a[k]).0 == b[k].0 && a[k].1.same(b[k].1)
}

pub fn copy_candidates(v: &Vec<Candidate>) -> (r: Vec<Candidate>)
    ensures
        same_candidates(r@, v@),
{
    let mut r: Vec<Candidate> = Vec::new();
    let mut i: usize = 0;
    while i < v.len()
        invariant
            i <= v@.len(),
            r@.len() == i,
            forall|k: int| 0 <= k < i ==> (#[trigger] r@[k]).same(v@[k]),
        decreases v@.len() - i,
    {
        r.push(v[i].duplicate());
        i = i + 1;
    }
    r
}

pub fn copy_voters(v: &Vec<(Identity, Voter)>) -> (r: Vec<(Identity, Voter)>)
    ensures
        same_voters(r@, v@),
{
    let mut r: Vec<(Identity, Voter)> = Vec::new();
    let mut i: usize = 0;
    while i < v.len()
        invariant
            i <= v@.len(),
            r@.len() == i,
            forall|k: int| 0 <= k < i ==> (#[trigger] r@[k]).0 == v@[k].0 && r@[k].1.same(v@[k].1),
        decreases v@.len() - i,
    {
        r.push((v[i].0, v[i].1.duplicate()));
        i = i + 1;
    }
    r
}

} // verus!
