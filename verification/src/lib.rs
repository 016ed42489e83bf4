//! Conway's Game of Life on a bounded (non-wrapping) two-dimensional grid.
//!
//! Each cell caches the number of its live neighbours, so advancing a
//! generation only touches the cells that change and their neighbourhoods
//! instead of rescanning the whole board. The cached counts are kept
//! accurate incrementally, and that bookkeeping is verified: see
//! [`world::World`] for the board invariant and the generation-advance
//! contract, and [`grid`] for the mathematical model of the rule.

pub mod canvas;
pub mod cell;
pub mod grid;
pub mod world;
