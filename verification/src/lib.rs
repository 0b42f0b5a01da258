//! Exact 2-D visibility / shadow-outline computation.
//!
//! Given an observer point and a collection of convex polygon occluders,
//! the library casts rays toward every occluder vertex (plus two siblings
//! rotated by a small angular epsilon and two fixed anchor rays), finds the
//! nearest ray/polygon intersection among all occluders, and assembles the
//! impact points into a closed outline sorted by polar angle around the
//! observer.
//!
//! All geometry is exact: coordinates are integer grid units, rotations are
//! rational rotations `(c, s, d)` with `c^2 + s^2 == d^2`, and times of
//! impact are rational numbers kept as integer pairs.

pub mod geom;
pub mod cast;
pub mod xform;
pub mod angle;
pub mod outline;
pub mod scene;
