//! Two line-oriented text filters, as a library.
//!
//! [`comms`] divides a list of lines into two sections at a run of blank lines and reports
//! which lines are in the first section only, in the second only, and in both.
//! [`timestamp`] rewrites the `datetime.datetime(..)` constructor literals in a line into
//! ISO-8601 timestamps.
//!
//! Both work on lines that the caller has read and return the lines to write. [`text`]
//! holds what they share, and [`matcher`] the calls into the `regex` crate, which are the
//! only part of the library that is stated and not proved.

pub mod comms;
pub mod matcher;
pub mod text;
pub mod timestamp;
