//! A small in-memory dungeon: uniquely named rooms joined by directional
//! links, a line-oriented text format that describes such a dungeon, and a
//! breadth-first search that finds a shortest connecting path between two
//! rooms. Value types for colors and small matrices accompany the graph.

pub mod cells;
pub mod color;
pub mod dungeon;
pub mod matrix;
pub mod parse;
pub mod path;
pub mod render;

pub use color::Color;
pub use dungeon::Direction;
pub use dungeon::Dungeon;
pub use dungeon::Errors;
pub use dungeon::Room;
pub use matrix::ColIter;
pub use matrix::Matrix;
pub use matrix::RowIter;
pub use dungeon::reverse_direction;
