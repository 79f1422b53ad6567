//! A selection of positional-astronomy algorithms on exact integers:
//! validation of ISO 8601 calendar dates, Julian Days counted in seconds, and
//! ΔT estimates counted in microseconds.

pub mod arith;
pub mod calendar;
pub mod julian;
pub mod nasa;
