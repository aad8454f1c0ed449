//! Conway's Game of Life on a fixed-size toroidal grid.
//!
//! A board is a rectangular `Vec<Vec<bool>>`; its mathematical model is the
//! `Seq<Seq<bool>>` given by [`grid::grid_of`]. The transition rule and the
//! toroidal neighbour count are defined once as spec functions in [`grid`]
//! and computed by the executable functions of [`rules`]; the random first
//! generation comes from [`seed`]. [`board`] wraps such a grid in a type
//! that cannot hold a ragged or empty one, and [`laws`] proves what holds
//! of every step.

pub mod board;
pub mod grid;
pub mod laws;
pub mod rules;
pub mod seed;
