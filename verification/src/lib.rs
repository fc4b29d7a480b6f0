//! Snow crystals on a hexagonal lattice.
//!
//! The crate holds the cellular automaton of Gravner and Griffeath and the simpler
//! model of Reiter, and turns the crystals they grow into outlines and surfaces.
//!
//! * [`lattice`], [`neighbors`]: the lattice that wraps around, and the count of
//!   frozen neighbours.
//! * [`rules`], [`stages`], [`state`], [`noise`]: the step of the automaton. The
//!   library decides which cells a stage touches and what it reads; the arithmetic
//!   on the quantities is the caller's.
//! * [`determinism`], [`symmetry`], [`mass`]: what holds of every step.
//! * [`simulation`]: the driver of a run.
//! * [`reiter`]: Reiter's model.
//! * [`hexagon`], [`outline`], [`contour`]: the outline of a crystal as closed paths.
//! * [`rim`], [`surface`]: the surface of a crystal as facets.
//! * [`grid`], [`layer`], [`segments`], [`fans`], [`sums`]: the collections and
//!   sums underneath.

pub mod contour;
pub mod determinism;
pub mod fans;
pub mod grid;
pub mod hexagon;
pub mod lattice;
pub mod layer;
pub mod mass;
pub mod neighbors;
pub mod noise;
pub mod outline;
pub mod reiter;
pub mod rim;
pub mod rules;
pub mod segments;
pub mod simulation;
pub mod stages;
pub mod state;
pub mod sums;
pub mod surface;
pub mod symmetry;
