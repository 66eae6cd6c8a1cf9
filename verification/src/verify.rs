//! Bounded read-only verification of one consistent snapshot.

pub mod accounting;
pub mod audit;
pub mod bounds;
pub mod by_key;
pub mod limits;
pub mod records;
pub mod sink;
pub mod structure;
pub mod synopsis;
pub mod topology;
pub mod tree;
