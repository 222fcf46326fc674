//! Composes records from a pattern whose expressions are pipelines of
//! commands.

pub mod compose;
pub mod executor;
pub mod parser;
pub mod pattern;
pub mod plan;
pub mod scan;
pub mod shutdown;
