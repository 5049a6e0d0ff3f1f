//! Conway's Game of Life on a bounded (non-wrapping) grid: a row-major board
//! of boolean cells, a verified neighbor enumeration, and a verified
//! generation step, with random initial seeding. Proofs establish the
//! classical facts about the rule: the neighbor counts by position class,
//! the block still life, the blinker oscillator, extinction of an isolated
//! cell, birth by exactly three neighbors, and preservation of the board
//! length across generations.

pub mod board;
pub mod grid;
pub mod life;
pub mod patterns;
pub mod seed;
