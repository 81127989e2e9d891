//! An interactive fuzzy finder's core: a scoring function that ranks
//! candidate lines against an incremental query, and a state machine that
//! re-filters, re-ranks and navigates the candidate set on every keystroke.
//!
//! Terminal handling, keystroke reading and painting live outside this
//! library; they hand decoded tokens in and take `Search` snapshots out.

pub mod configuration;
pub mod ranking;
pub mod score;
pub mod screen;
pub mod search;
