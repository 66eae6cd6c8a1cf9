//! Bounded observability: labels and samples free of caller data.

pub mod distinct;
pub mod labels;
pub mod samples;
