//! A multi-state hexagonal cellular automaton on a disc whose opposite
//! edges are identified, so that every cell has six neighbours.
use vstd::prelude::*;

pub mod coord;
pub mod disc;
pub mod rule;
pub mod world;

pub use coord::Coord;
pub use rule::{Rule, Type};
pub use world::{ConfigError, World, DEFAULT_RADIUS};
