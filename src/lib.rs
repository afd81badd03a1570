//! An election ledger core: candidates, registered voters, cast votes and
//! derived results, with owner-gated administration, several tracked
//! elections and an append-only audit trail.

pub mod ballot;
pub mod dispatch;
pub mod model;
pub mod tally;
mod text;

pub use ballot::{BallotView, TrustBallot};
pub use model::{
    AuditEntry, BatchOperation, Candidate, CrossChainMessage, ElectionData, ElectionState,
    ErrorKind, Event, Identity, Operation, Statistics, Voter, VotingMethod,
};
pub use tally::{leaderboard_of, vote_total, winner_of};
