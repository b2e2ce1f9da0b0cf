//! A constrained-particle simulator: circular bodies advanced by Verlet
//! integration, held inside a circular arena and pushed apart on overlap.
//!
//! All quantities are integers in fixed-point units chosen by the host
//! (for instance 65536 units per pixel and one time tick per sub-step).
//! Square roots are integer square roots and divisions truncate toward
//! zero, so every pass is exact and its result is stated in its contract.
use vstd::prelude::*;

pub mod geometry;
pub mod body;
pub mod solver;
pub mod laws;
