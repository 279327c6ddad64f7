//! Entities and the containers that attach properties to them.

pub mod bits;
pub mod entities;
pub mod entity_bitvec;
pub mod entity_map;
pub mod entity_vec;

pub use entities::Entities;
pub use entity_bitvec::EntityBitVec;
pub use entity_map::EntityMap;
pub use entity_vec::EntityVec;

use vstd::prelude::*;

verus! {

/// The identity of an entity: a small number that containers use as an index.
#[derive(PartialEq, Eq, Hash, Clone, Copy, Debug, Structural)]
pub struct Entity(pub u64);

} // verus!
