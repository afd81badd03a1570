use vstd::prelude::*;

use crate::ballot::{
    add_batch_outcome, add_candidate_outcome, authorized, create_outcome, end_outcome, owner_kept,
    register_batch_outcome, register_outcome, self_register_outcome, set_method_outcome,
    keeps_votes, start_outcome, switch_outcome, vote_outcome, BallotView, TrustBallot,
};
use crate::model::{BatchOperation, ErrorKind, Event, Identity, Operation};

verus! {

/// `op` is one of the vote forms of the voting methods without a tally rule.
pub open spec fn is_unsupported_vote(op: Operation) -> bool {
    op is VoteRankedChoice || op is VoteApproval || op is VoteWeighted
}

/// `op` announces itself with exactly one event when it succeeds.
pub open spec fn emits_one_event(op: Operation) -> bool {
    op is AddCandidate || op is RegisterVoter || op is SelfRegister || op is StartElection
        || op is EndElection || op is Vote
}

/// `op` may only be performed by the owner.
pub open spec fn is_owner_gated(op: Operation) -> bool {
    op is AddCandidate || op is RegisterVoter || op is StartElection || op is EndElection
        || op is CreateElection || op is SetVotingMethod
}

/// `r` reports the single event of `e`, or its error.
pub open spec fn reports_event(e: Result<Event, ErrorKind>, r: Result<Vec<Event>, ErrorKind>) -> bool {
    match e {
        Ok(ev) => r matches Ok(v) && v@ == seq![ev],
        Err(k) => r == Err::<Vec<Event>, ErrorKind>(k),
    }
}

/// `r` reports no event when `e` succeeded, and its error otherwise.
pub open spec fn reports_silently<T>(e: Result<T, ErrorKind>, r: Result<Vec<Event>, ErrorKind>) -> bool {
    match e {
        Ok(_) => r matches Ok(v) && v@.len() == 0,
        Err(k) => r == Err::<Vec<Event>, ErrorKind>(k),
    }
}

fn single(e: Result<Event, ErrorKind>) -> (r: Result<Vec<Event>, ErrorKind>)
    ensures
        match e {
            Ok(ev) => r matches Ok(v) && v@ == seq![ev],
            Err(k) => r == Err::<Vec<Event>, ErrorKind>(k),
        },
{
    match e {
        Ok(ev) => Ok(vec![ev]),
        Err(k) => Err(k),
    }
}

fn silent<T>(e: Result<T, ErrorKind>) -> (r: Result<Vec<Event>, ErrorKind>)
    ensures
        reports_silently(e, r),
{
    match e {
        Ok(_) => Ok(Vec::new()),
        Err(k) => Err(k),
    }
}

impl TrustBallot {
    /// Performs `op` for `caller` at time `now`: either all of its changes
    /// and its events, or an error and no change at all.
    pub fn apply(&mut self, caller: Identity, op: Operation, now: u64) -> (r: Result<
        Vec<Event>,
        ErrorKind,
    >)
        requires
            old(self).wf(),
            old(self)@.elections.len() < usize::MAX,
        ensures
            final(self).wf(),
            owner_kept(old(self)@, final(self)@),
            r is Err ==> final(self)@ == old(self)@,
            is_owner_gated(op) && !authorized(old(self)@, caller) ==> r == Err::<
                Vec<Event>,
                ErrorKind,
            >(ErrorKind::Unauthorized),
            is_owner_gated(op) && r is Ok ==> final(self)@.owner == Some(caller),
            is_unsupported_vote(op) ==> r == Err::<Vec<Event>, ErrorKind>(ErrorKind::Unsupported),
            !(op is StartElection) && !(op is SwitchElection) ==> keeps_votes(
                old(self)@,
                final(self)@,
            ),
            emits_one_event(op) && r is Ok ==> r->Ok_0@.len() == 1,
            !emits_one_event(op) && r is Ok ==> r->Ok_0@.len() == 0,
            match op {
                Operation::AddCandidate { name, meta } => exists|e: Result<Event, ErrorKind>|
                    #[trigger] add_candidate_outcome(old(self)@, caller, name, meta, e, final(self)@)
                        && reports_event(e, r),
                Operation::RegisterVoter { voter, name, image } => exists|
                    e: Result<Event, ErrorKind>,
                |
                    #[trigger] register_outcome(old(self)@, caller, voter, name, image, e, final(self)@)
                        && reports_event(e, r),
                Operation::SelfRegister { name, image } => exists|e: Result<Event, ErrorKind>|
                    #[trigger] self_register_outcome(old(self)@, caller, name, image, e, final(self)@)
                        && reports_event(e, r),
                Operation::StartElection => exists|e: Result<Event, ErrorKind>|
                    #[trigger] start_outcome(old(self)@, caller, e, final(self)@) && reports_event(e, r),
                Operation::EndElection => exists|e: Result<Event, ErrorKind>|
                    #[trigger] end_outcome(old(self)@, caller, e, final(self)@) && reports_event(e, r),
                Operation::Vote { candidate_id } => exists|e: Result<Event, ErrorKind>|
                    #[trigger] vote_outcome(old(self)@, caller, candidate_id, e, final(self)@)
                        && reports_event(e, r),
                Operation::CreateElection { name } => exists|e: Result<String, ErrorKind>|
                    #[trigger] create_outcome(old(self)@, caller, name, now, e, final(self)@)
                        && reports_silently(e, r),
                Operation::SwitchElection { election_id } => exists|e: Result<(), ErrorKind>|
                    #[trigger] switch_outcome(old(self)@, caller, election_id, now, e, final(self)@)
                        && reports_silently(e, r),
                Operation::SetVotingMethod { method } => exists|e: Result<(), ErrorKind>|
                    #[trigger] set_method_outcome(old(self)@, caller, method, e, final(self)@)
                        && reports_silently(e, r),
                _ => r == Err::<Vec<Event>, ErrorKind>(ErrorKind::Unsupported) && final(self)@
                    == old(self)@,
            },
    {
        match op {
            Operation::AddCandidate { name, meta } => single(self.add_candidate(caller, name, meta)),
            Operation::RegisterVoter { voter, name, image } => single(
                self.register_voter(caller, voter, name, image),
            ),
            Operation::SelfRegister { name, image } => single(self.self_register(caller, name, image)),
            Operation::StartElection => single(self.start_election(caller)),
            Operation::EndElection => single(self.end_election(caller)),
            Operation::Vote { candidate_id } => single(self.vote(caller, candidate_id)),
            Operation::CreateElection { name } => silent(self.create_election(caller, name, now)),
            Operation::SwitchElection { election_id } => silent(
                self.switch_election(caller, election_id, now),
            ),
            Operation::SetVotingMethod { method } => silent(self.set_voting_method(caller, method)),
            Operation::VoteRankedChoice { .. } => Err(ErrorKind::Unsupported),
            Operation::VoteApproval { .. } => Err(ErrorKind::Unsupported),
            Operation::VoteWeighted { .. } => Err(ErrorKind::Unsupported),
        }
    }

    /// Performs a batch for `caller`, all or none; one event per item.
    pub fn apply_batch(&mut self, caller: Identity, op: BatchOperation) -> (r: Result<
        Vec<Event>,
        ErrorKind,
    >)
        requires
            old(self).wf(),
        ensures
            final(self).wf(),
            owner_kept(old(self)@, final(self)@),
            r is Err ==> final(self)@ == old(self)@,
            !authorized(old(self)@, caller) ==> r == Err::<Vec<Event>, ErrorKind>(
                ErrorKind::Unauthorized,
            ),
            r is Ok ==> final(self)@.owner == Some(caller),
            keeps_votes(old(self)@, final(self)@),
            match op {
                BatchOperation::AddCandidates(items) => add_batch_outcome(
                    old(self)@,
                    caller,
                    items,
                    r,
                    final(self)@,
                ),
                BatchOperation::RegisterVoters(items) => register_batch_outcome(
                    old(self)@,
                    caller,
                    items,
                    r,
                    final(self)@,
                ),
            },
    {
        match op {
            BatchOperation::AddCandidates(items) => self.batch_add_candidates(caller, items),
            BatchOperation::RegisterVoters(items) => self.batch_register_voters(caller, items),
        }
    }
}

} // verus!
