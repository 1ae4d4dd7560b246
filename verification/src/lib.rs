//! Conway's Game of Life on a finite rectangular grid.

pub mod engine;
pub mod grid;
pub mod parser;
pub mod rules;
pub mod simulation;
pub mod speed;

pub use engine::LifeEngine;
pub use grid::{Grid, MalformedInputError};
pub use parser::{parse, parse_chars};
pub use simulation::Simulation;
pub use speed::{InvalidSpeedError, SpeedFactor};
