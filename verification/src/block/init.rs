use vstd::prelude::*;
use crate::block::block::air;
use crate::data::registry::Registry;

verus! {

/// Registers every known block with `registry`.
pub fn init_blocks(registry: &mut Registry)
    requires
        old(registry).wf(),
    ensures
        final(registry).wf(),
        final(registry).names() == old(registry).names().insert(
            ("minecraft"@, "air"@),
            0u16,
        ),
        final(registry).palette() == old(registry).palette(),
{
    registry.register_block(&air());
}

} // verus!
