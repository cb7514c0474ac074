use vstd::prelude::*;
use crate::nbt::tag::NbtCompound;

verus! {

/// The kinds of block entity.
#[derive(Clone, Copy, PartialEq, Eq, Structural, Debug)]
pub enum BlockEntityType {
    Furnace,
}

/// A block that keeps state of its own: saved to and restored from NBT, and updated each tick.
pub trait BlockEntity {
    /// Writes the entity's state into `nbt`.
    fn write_nbt(&mut self, nbt: &mut NbtCompound);

    /// Restores the entity's state from `nbt`.
    fn from_nbt(&mut self, nbt: &NbtCompound);

    /// Advances the entity by one tick.
    fn tick(&mut self);

    /// The kind of entity this is.
    fn id(&self) -> BlockEntityType;
}

} // verus!
