//! Process-local admission, retries, scheduling, and orderly shutdown.

pub mod admission;
pub mod attempts;
pub mod drive;
pub mod dropping;
pub mod import;
pub mod index;
pub mod laws;
pub mod queue;
pub mod results;
pub mod retry;
