//! What the operations are for: how their answers stand to what they are given.

pub mod changing;
pub mod coercing;
pub mod deciding;
pub mod defining;
pub mod explaining;
pub mod expressions;
pub mod filtering;
pub mod grouping;
pub mod joining;
pub mod linking;
pub mod lowering;
pub mod naming;
pub mod nesting;
pub mod reading;
pub mod scanning;
pub mod shortcuts;
pub mod sorting;
pub mod spelling;
pub mod storing;
pub mod totals;
pub mod tracing;
pub mod viewing;
pub mod windowing;
