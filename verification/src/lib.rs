//! Soundness analysis for algebraic constraint systems over a prime field.
//!
//! An AIR-style circuit constrains a rectangular execution trace: every pair
//! of consecutive rows (cyclically, so the last row's successor is the first)
//! must satisfy a fixed list of polynomial constraints, with special
//! predicates marking the first row, the last row, and the transition rows.
//! This crate evaluates such constraints concretely against one given trace,
//! and compiles them into an integer satisfiability query whose answer tells
//! whether a second, distinct trace also satisfies them (an under-constrained
//! circuit).

pub mod air;
pub mod backend;
pub mod check_constraints;
pub mod check_unconstrained;
pub mod field;
pub mod field_elem;
pub mod query;
pub mod round_flags_air;
pub mod symbolic;
pub mod term;
pub mod trace;
