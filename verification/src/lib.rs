//! A solver library for Wordle-family word puzzles, including the
//! four-board "Quordle" variant.
//!
//! The library simulates the feedback a guess receives against a hidden
//! goal word, filters a pool of still-possible solutions from accumulated
//! feedback, and supports recommending the next guess by expected
//! information gain over the remaining pool.

pub mod words;
pub mod feedback;
pub mod game;
pub mod laws;
pub mod scorer;
pub mod boards;
pub mod analytics;
