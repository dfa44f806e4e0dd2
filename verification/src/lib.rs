//! A verified model of the classic 3x3 sliding-tile puzzle.
//!
//! The board is a row-major sequence of nine tiles, the values `1..=8` plus
//! `0` for the blank. Every operation preserves the invariant that the tiles
//! are a permutation of `0..=8`.

pub mod board;
pub mod perm;
