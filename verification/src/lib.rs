//! A population-based genetic algorithm that searches for a conflict-free
//! class timetable. Scheduling units ("tuples", each bound to a teacher and
//! a room) are assigned to time periods; rank-weighted selection, per-period
//! single-point crossover with genome repair, relocation mutation and a
//! conflict-counting fitness score evolve the assignment toward zero
//! conflicts. Every candidate timetable covers the tuple-id set exactly
//! once, an invariant each operator is proved to preserve.

pub mod algorithm;
pub mod config;
pub mod datatypes;
pub mod driver;
pub mod random;
