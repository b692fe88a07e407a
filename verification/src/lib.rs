//! A deterministic snake engine on a square, toroidal grid.
//!
//! The engine advances one tick at a time. Everything that is not a pure
//! function of the game state (drawing random numbers, pacing the ticks,
//! rendering) belongs to the host; the host hands random draws in as
//! plain integers and this crate decides what becomes of them.
//!
//! Every exec function carries a contract over the mathematical views
//! [`snake::SnakeView`] and [`world::WorldView`].

pub mod grid;
pub mod reward;
pub mod snake;
pub mod world;

pub use grid::Direction;
pub use reward::InvariantError;
pub use snake::{GameStatus, Snake, SnakeCell};
pub use world::{ConfigurationError, World};
