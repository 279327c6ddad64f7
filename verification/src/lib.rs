//! A spatial index for a tile-based game, and the small pieces of state
//! that the game keeps around it.
//!
//! The index is a quad-tree over a fixed region of an integer grid. It
//! stores entities by the four corners of their bounding boxes: see
//! [`AABBQuadTree`]. The modules `quad`, `routing`, `spots` and `laws` hold
//! the mathematical model of the tree and what is proved of it.
//!
//! Beside it stand the containers that attach properties to entities
//! (`entity`), the chunks of the world and the hitboxes that reach into them
//! (`world`), the frames that messages travel in (`net`), and the state
//! behind the windows (`ui`, `sys`).

pub mod bounds;
pub mod entity;
pub mod error;
pub mod laws;
pub mod net;
pub mod node;
pub mod quad;
pub mod routing;
pub mod spots;
pub mod sys;
pub mod tree;
pub mod ui;
pub mod world;

pub use bounds::{Bounds, Coord};
pub use error::InsertError;
pub use tree::{AABBQuadTree, AABB};
