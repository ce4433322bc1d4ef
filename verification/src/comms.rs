//! The section comparer: one list of lines, two sections divided by blank lines, and a
//! report of the lines that are in the first section only, in the second only, or in both.

pub mod args;
pub mod error;
pub mod laws;
pub mod report;
pub mod run;
pub mod sections;
