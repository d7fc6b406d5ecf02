//! Weekly shift scheduling.
//!
//! A roster of employees is assigned to three daily shifts over a seven-day
//! week. Three passes run in order: each employee is first placed on the
//! shifts they asked for, then a fallback pass consults their personal
//! ranking, and finally under-staffed shifts are filled with employees drawn
//! at random from those still available. Nobody works more than five days
//! and nobody works two shifts on one day.

pub mod shift;
pub mod employee;
pub mod grid;
pub mod random;
pub mod roster;
pub mod validate;
pub mod engine;
pub mod backfill;
pub mod laws;
pub mod schedule;
