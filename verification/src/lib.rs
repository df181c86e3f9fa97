//! Neighborhood enumeration on a 2D discrete grid.
//!
//! Three strategies compute the cells surrounding a center cell: a
//! deduplicating set-based strategy with a fast path for interior queries,
//! an ordered vector strategy, and a boundary-clamping range strategy.
//! Moore (Chebyshev) and von Neumann (Manhattan) topologies are supported,
//! with optional torus wraparound and optional inclusion of the center.

pub mod bounds;
pub mod dedup;
pub mod laws;
pub mod model;
pub mod range;
pub mod vector;
