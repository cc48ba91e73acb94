//! Author- and time-aware analytics over a commit history.
//!
//! The library holds the rules of a walk over the history and the analyses
//! that take its commits one by one: churn, commit frequency, commit size,
//! frecency, ownership, streaks and time of day. Reading a repository is
//! left to the caller, who hands over plain values.

pub mod analysis;
pub mod calendar;
pub mod changes;
pub mod churn;
pub mod commit_frequency;
pub mod commit_size;
pub mod config;
pub mod days;
pub mod floats;
pub mod frecency;
pub mod hours;
pub mod ints;
pub mod lines;
pub mod model;
pub mod order;
pub mod ownership;
pub mod pattern;
pub mod ranking;
pub mod stats;
pub mod streaks;
pub mod sums;
pub mod table;
pub mod text;
pub mod time_of_day;
pub mod walk;
