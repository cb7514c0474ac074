use vstd::prelude::*;
use crate::data::uln::UnlocalizedName;

verus! {

/// The number of blocks the registry makes room for.
pub const BLOCK_COUNT: usize = 100;

/// A kind of block: its name and the id of its default state.
#[derive(Clone, Copy)]
pub struct Block {
    pub name: UnlocalizedName<'static>,
    pub default_state: u16,
}

/// Air, the empty block, whose default state is `0`.
pub fn air() -> (b: Block)
    ensures
        b.name.spec_namespace() == "minecraft"@,
        b.name.spec_name() == "air"@,
        b.default_state == 0,
{
    Block { name: UnlocalizedName::minecraft("air"), default_state: 0 }
}

} // verus!
