//! Demand-driven Structure Maintenance and foreground routing.

pub mod accounts;
pub mod agreement;
pub mod balance;
pub mod beam;
pub mod corrections;
pub mod corrective;
pub mod descent;
pub mod drain;
pub mod fixup;
pub mod laws;
pub mod merge;
pub mod mutation;
pub mod pulling;
pub mod ranking;
pub mod relocation;
pub mod routing;
pub mod snapshot;
pub mod split;
pub mod trainer;
pub mod training;
pub mod waiting;
