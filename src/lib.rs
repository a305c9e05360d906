//! A two-player Sternhalma (Chinese Checkers) engine: the star-shaped board,
//! the move rules with multi-hop jumps, and the turn and termination state
//! machine.
pub mod board;
pub mod game;
pub mod geometry;
pub mod moves;
pub mod player;
