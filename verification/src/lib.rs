//! Steering-behaviour decisions for a small chase scene: a light pursues a
//! set of movers, and each mover flees while the light is close.
//!
//! The crate holds the parts of that scene that are decided rather than
//! measured: how partial acceleration requests combine, which state a mover
//! is in, which behaviour that state dispatches, and which mover the light
//! chases. Positions, velocities and orientations pass through as values of
//! the caller's own types and are never inspected here.

pub mod entity;
pub mod output;
pub mod random;
pub mod state;
