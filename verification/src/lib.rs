//! A commitment-based challenge ledger.
//!
//! A creator posts a challenge: a hash committing to a secret answer,
//! together with a prize amount. Anyone who knows the answer may later
//! submit it; the ledger hashes the submitted answer, compares it to the
//! stored commitment, and marks the challenge solved for the first correct
//! submission. The ledger is append-only: challenges are never deleted,
//! a solved challenge never becomes unsolved, and every write either
//! commits completely or leaves the state untouched.

pub mod hashing;
pub mod laws;
pub mod ledger;

pub use ledger::AccountId;
pub use ledger::Balance;
pub use ledger::Challenge;
pub use ledger::ChallengeId;
pub use ledger::ChallengeLedger;
pub use ledger::Creation;
pub use ledger::Event;
pub use ledger::LedgerError;
pub use ledger::Resolution;
pub use ledger::Submission;
pub use ledger::SubmissionOutcome;
