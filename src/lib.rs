//! A small gravitational simulator over exact integer arithmetic.
//!
//! Bodies attract one another by Newton's law of gravitation. Quantities are
//! integers in units that the caller picks once for a run (a length unit, a
//! time unit and a mass unit), and the gravitational constant is a rational
//! number expressed in those units. Every division rounds toward zero.
pub mod arith;
pub mod vector;
pub mod planet;
pub mod universe;
pub mod laws;
