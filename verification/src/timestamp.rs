//! The timestamp normalizer: `datetime.datetime(..)` constructor literals in a line are
//! replaced by ISO-8601 timestamps, and the rest of the line is kept.

pub mod literal;
pub mod rewrite;
pub mod spans;
pub mod stamp;
