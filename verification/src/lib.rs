//! A sparse, chunked grid for an unbounded two-dimensional cellular automaton,
//! the rule that advances it by one generation, and the decisions of the
//! engine and of the terminal view that run around it.

pub mod seed;
pub mod sim;
pub mod utils;
pub mod view;
pub mod world;

pub use seed::deserialize;
pub use sim::{Engine, SimCmd, SimHandle, State};
pub use utils::Pos;
pub use view::{Canvas, Dir, InputCmd, KeyPress, ViewCmd, ViewRemote};
pub use world::{snap, Cell, HashedWorld, World};
