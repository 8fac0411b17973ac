//! Bracket orchestration for a multi-round elimination tournament.
//!
//! Competitors are partitioned into groups, every pairing inside a group is
//! played twice with sides swapped, outcomes are scored and ranked, and a
//! shrinking subset of competitors advances round by round until a champion
//! and minor placements are produced.  The actual matches are played by an
//! external referee process; this crate owns the schedule, the scoring and
//! the advancement rules, and interprets the referee's captured output.

pub mod aggregate;
pub mod bracket;
pub mod command;
pub mod errors;
pub mod formation;
pub mod outcome;
pub mod parse;
pub mod schedule;
pub mod standings;
pub mod stats;
pub mod text;
pub mod engine;
