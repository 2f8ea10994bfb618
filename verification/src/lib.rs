//! Narrow-phase collision detection and contact-constraint generation for a
//! rigid-body simulation.
//!
//! Given candidate entity pairs from an upstream broad phase, this library
//! computes contact data between their shapes, maintains a persistent
//! per-pair contact registry across simulation steps, and converts registry
//! entries into constraint data for an external solver.
//!
//! All lengths, velocities and coefficients are fixed-point integers: one
//! world unit is [`math::SCALE`] raw units, and a step's time delta is an
//! integer count of time ticks. Velocities are raw length units per tick, so
//! `delta * velocity` is a plain product. Vector magnitudes are integer
//! square roots, rounded toward zero.

pub mod config;
pub mod constraint;
pub mod contact;
pub mod margin;
pub mod matching;
pub mod math;
pub mod phase;
pub mod registry;
pub mod shapes;
pub mod world;
