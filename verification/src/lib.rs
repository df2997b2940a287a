//! BoardgameBench - a benchmark for evaluating language-model performance on
//! abstract board-game puzzles.
//!
//! The library holds the verified core of the benchmark: the puzzle data
//! model and answer validation, the prompt builder, the answer parser, the
//! solver configuration, and the score aggregation (including pass@1 /
//! pass@N metrics). File and network I/O live outside the library and hand
//! it plain values.

pub mod evaluation;
pub mod game;
pub mod parser;
pub mod puzzle;
pub mod solver;

pub use evaluation::{BenchmarkResult, BenchmarkRunner, GameTypeScore, PassResults};
pub use game::{Game, GameError};
pub use puzzle::{Puzzle, PuzzleCollection, PuzzleError, PuzzleScore};
pub use solver::{ApiError, ConfigError, Solver};
