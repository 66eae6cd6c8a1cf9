//! Public values: errors, identifiers, schema, configuration, and requests.

pub mod config;
pub mod duration;
pub mod error;
pub mod identifiers;
pub mod laws;
pub mod number;
pub mod operation;
pub mod record;
pub mod redaction;
pub mod schema;
pub mod search;
pub mod verify;
