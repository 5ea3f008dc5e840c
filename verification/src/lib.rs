//! Procedural 2D platformer levels: a deterministic generator that builds a
//! tile grid from an integer seed, and a validator that checks structural
//! rules (boundaries, hazard spacing, platform support) and reachability of
//! the trophy and the exit under walk/fall/jump movement.
#![verifier::loop_isolation(false)]
use vstd::prelude::*;

pub mod args;
pub mod config;
pub mod grid;
pub mod levelgen;
pub mod props;
pub mod reach;
pub mod rng;
pub mod rules;
pub mod spacing;
pub mod tile;

pub use args::parse_args;
pub use config::default_max_level;
pub use config::Config;
pub use config::KeyCode;
pub use config::KeysConfig;
pub use grid::Grid;
pub use levelgen::generate_level;
pub use reach::is_reachable;
pub use rng::SimpleRng;
pub use tile::Tile;

verus! {

/// Width of the game level in tiles.
pub const LEVEL_WIDTH: usize = 60;

/// Height of the game level in tiles.
pub const LEVEL_HEIGHT: usize = 20;

} // verus!
