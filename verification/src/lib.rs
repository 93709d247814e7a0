//! Rust Sweeper: the board engine of a minesweeper in which the mines are
//! patches of rust.
//!
//! A square grid hides a fixed number of hazards (rusted cells). The player
//! reveals cells one at a time; a cell without hazards around it opens up the
//! whole quiet region it belongs to. Revealing a hazard loses the round;
//! revealing every other cell wins it.
//!
//! The engine is pure state and logic. [`session::Session`] is what a user
//! interface talks to; [`board::Board`] is the grid underneath it, with its
//! operations in [`adjacency`], [`cascade`], [`moves`], [`outcome`] and
//! [`text`]. The contracts of both are stated over a mathematical model of
//! the grid, which [`grid`] holds together with the models that the
//! operations' own modules add; [`laws`] states what follows from them.
pub mod error;
pub mod difficulty;
pub mod cell;
pub mod grid;
pub mod markers;
pub mod board;
pub mod adjacency;
pub mod cascade;
pub mod moves;
pub mod outcome;
pub mod text;
pub mod session;
pub mod laws;
