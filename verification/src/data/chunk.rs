use vstd::prelude::*;

verus! {

/// A 16 by 16 by 16 section of the world, holding one block state id per position.
pub struct Chunk {
    block_data: Vec<u16>,
}

/// Where the block at `(x, y, z)` sits in a chunk's data: `x` varies fastest, then `z`, then
/// `y`.
pub open spec fn block_index(x: int, y: int, z: int) -> int {
    x + z * 16 + y * 256
}

/// Whether `(x, y, z)` lies in a chunk with every step of the index computation in range.
pub open spec fn in_chunk(x: i32, y: i32, z: i32) -> bool {
    &&& i32::MIN <= z * 16 <= i32::MAX
    &&& i32::MIN <= y * 256 <= i32::MAX
    &&& i32::MIN <= x + z * 16 <= i32::MAX
    &&& 0 <= block_index(x as int, y as int, z as int) < 4096
}

impl Chunk {
    /// The block state ids, one per position.
    pub closed spec fn blocks(&self) -> Seq<u16> {
        self.block_data@
    }

    /// Whether the chunk holds one id for each of its 4096 positions.
    pub closed spec fn wf(&self) -> bool {
        self.block_data@.len() == 4096
    }

    /// A chunk filled with the state id `0`.
    pub fn new() -> (c: Chunk)
        ensures
            c.wf(),
            c.blocks() == Seq::new(4096, |i: int| 0u16),
    {
        let c = Chunk { block_data: vec![0u16; 4096] };
        assert(c.blocks() =~= Seq::new(4096, |i: int| 0u16));
        c
    }

    #[inline]
    fn index(x: i32, y: i32, z: i32) -> (i: usize)
        requires
            in_chunk(x, y, z),
        ensures
            i == block_index(x as int, y as int, z as int),
    {
        (x + z * 16 + y * 256) as usize
    }

    /// The state id of the block at `(x, y, z)`.
    #[inline]
    pub fn block_id(&self, x: i32, y: i32, z: i32) -> (id: u16)
        requires
            self.wf(),
            in_chunk(x, y, z),
        ensures
            id == self.blocks()[block_index(x as int, y as int, z as int)],
    {
        self.block_data[Self::index(x, y, z)]
    }
}

} // verus!
