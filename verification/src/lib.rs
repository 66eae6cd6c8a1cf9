//! KTANN: the verified core of a K-means tree approximate nearest-neighbor
//! index over transactional key-value storage.

pub mod api;
pub mod hashing;
pub mod maintenance;
pub mod observe;
pub mod ordering;
pub mod runtime;
pub mod topology;
pub mod verify;
