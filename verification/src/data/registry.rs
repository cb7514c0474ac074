use vstd::prelude::*;
use crate::block::block::Block;
use crate::block::state::BlockState;
use crate::data::uln::UnlocalizedName;

verus! {

/// The key under which a block is registered: its namespace and name.
pub open spec fn block_key(b: Block) -> (Seq<char>, Seq<char>) {
    (b.name.spec_namespace(), b.name.spec_name())
}

/// The registered blocks as a map from their key to their default state id; a later entry with
/// the same key wins.
pub open spec fn block_map(s: Seq<Block>) -> Map<(Seq<char>, Seq<char>), u16>
    decreases s.len(),
{
    if s.len() == 0 {
        Map::empty()
    } else {
        block_map(s.drop_last()).insert(block_key(s.last()), s.last().default_state)
    }
}

/// Whether no two blocks of `s` share a key.
pub open spec fn keys_distinct(s: Seq<Block>) -> bool {
    forall|i: int, j: int| 0 <= i < j < s.len() ==> block_key(s[i]) != block_key(s[j])
}

/// The registry of blocks and block states.
pub struct Registry {
    block_list: Vec<Block>,
    global_palette: Vec<Option<BlockState>>,
}

proof fn lemma_block_map_contains(s: Seq<Block>, k: (Seq<char>, Seq<char>))
    ensures
        block_map(s).contains_key(k) <==> exists|i: int| 0 <= i < s.len() && block_key(s[i]) == k,
    decreases s.len(),
{
    if s.len() > 0 {
        lemma_block_map_contains(s.drop_last(), k);
        if exists|i: int| 0 <= i < s.len() - 1 && block_key(s.drop_last()[i]) == k {
            let i = choose|i: int| 0 <= i < s.len() - 1 && block_key(s.drop_last()[i]) == k;
            assert(block_key(s[i]) == k);
        }
        if exists|i: int| 0 <= i < s.len() && block_key(s[i]) == k {
            let i = choose|i: int| 0 <= i < s.len() && block_key(s[i]) == k;
            if i < s.len() - 1 {
                assert(block_key(s.drop_last()[i]) == k);
            }
        }
    }
}

proof fn lemma_block_map_at(s: Seq<Block>, j: int)
    requires
        keys_distinct(s),
        0 <= j < s.len(),
    ensures
        block_map(s).contains_key(block_key(s[j])),
        block_map(s)[block_key(s[j])] == s[j].default_state,
    decreases s.len(),
{
    if j < s.len() - 1 {
        lemma_block_map_at(s.drop_last(), j);
        assert(s.drop_last()[j] == s[j]);
        assert(block_key(s[j]) != block_key(s.last()));
    }
}

proof fn lemma_block_map_update(s: Seq<Block>, j: int, b: Block)
    requires
        keys_distinct(s),
        0 <= j < s.len(),
        block_key(s[j]) == block_key(b),
    ensures
        block_map(s.update(j, b)) == block_map(s).insert(block_key(b), b.default_state),
        keys_distinct(s.update(j, b)),
    decreases s.len(),
{
    let t = s.update(j, b);
    if j == s.len() - 1 {
        assert(t.drop_last() =~= s.drop_last());
        assert(block_map(s.drop_last()).insert(block_key(b), s.last().default_state).insert(
            block_key(b),
            b.default_state,
        ) =~= block_map(s.drop_last()).insert(block_key(b), b.default_state));
    } else {
        lemma_block_map_update(s.drop_last(), j, b);
        assert(t.drop_last() =~= s.drop_last().update(j, b));
        assert(block_key(s.last()) != block_key(b));
        assert(block_map(t) =~= block_map(s).insert(block_key(b), b.default_state));
    }
}

impl Registry {
    /// The registered blocks: each key with its block's default state id.
    pub closed spec fn names(&self) -> Map<(Seq<char>, Seq<char>), u16> {
        block_map(self.block_list@)
    }

    /// The state palette: the state registered under each id, if any.
    pub closed spec fn palette(&self) -> Seq<Option<BlockState>> {
        self.global_palette@
    }

    /// Whether no two registered blocks share a key.
    pub closed spec fn wf(&self) -> bool {
        keys_distinct(self.block_list@)
    }

    /// An empty registry with room for `block_count` blocks and `state_count` states.
    pub fn new(block_count: usize, state_count: usize) -> (r: Self)
        ensures
            r.wf(),
            r.names() == Map::<(Seq<char>, Seq<char>), u16>::empty(),
            r.palette().len() == state_count,
            forall|i: int| 0 <= i < state_count ==> r.palette()[i] is None,
    {
        let block_list: Vec<Block> = Vec::with_capacity(block_count);
        let mut global_palette: Vec<Option<BlockState>> = Vec::with_capacity(state_count);
        let mut i: usize = 0;
        while i < state_count
            invariant
                0 <= i <= state_count,
                global_palette@.len() == i,
                forall|k: int| 0 <= k < i ==> global_palette@[k] is None,
            decreases state_count - i,
        {
            global_palette.push(None);
            i += 1;
        }
        Registry { block_list, global_palette }
    }

    /// Registers `block` under its name, replacing any block registered under the same name.
    pub fn register_block(&mut self, block: &Block)
        requires
            old(self).wf(),
        ensures
            final(self).wf(),
            final(self).names() == old(self).names().insert(block_key(*block), block.default_state),
            final(self).palette() == old(self).palette(),
    {
        let mut j: usize = 0;
        while j < self.block_list.len()
            invariant
                self.block_list@ == old(self).block_list@,
                self.global_palette@ == old(self).global_palette@,
                keys_distinct(self.block_list@),
                0 <= j <= self.block_list@.len(),
                forall|k: int| 0 <= k < j ==> block_key(self.block_list@[k]) != block_key(*block),
            decreases self.block_list@.len() - j,
        {
            if self.block_list[j].name.same_as(&block.name) {
                proof {
                    lemma_block_map_update(self.block_list@, j as int, *block);
                }
                self.block_list.set(j, *block);
                return;
            }
            j += 1;
        }
        proof {
            let s = self.block_list@;
            let t = s.push(*block);
            assert(t.drop_last() =~= s);
        }
        self.block_list.push(*block);
    }

    /// Places `state` in the palette under `id`.
    pub fn register_state(&mut self, id: u16, state: BlockState)
        requires
            (id as int) < old(self).palette().len(),
        ensures
            final(self).palette() == old(self).palette().update(id as int, Some(state)),
            final(self).names() == old(self).names(),
            final(self).wf() == old(self).wf(),
    {
        self.global_palette.set(id as usize, Some(state));
    }

    /// The block registered under `name`, if any.
    pub fn get_block(&self, name: &UnlocalizedName) -> (r: Option<Block>)
        requires
            self.wf(),
        ensures
            r is Some <==> self.names().contains_key((name.spec_namespace(), name.spec_name())),
            r matches Some(b) ==> block_key(b) == (name.spec_namespace(), name.spec_name())
                && b.default_state == self.names()[(name.spec_namespace(), name.spec_name())],
    {
        let ghost k = (name.spec_namespace(), name.spec_name());
        let mut j: usize = 0;
        while j < self.block_list.len()
            invariant
                keys_distinct(self.block_list@),
                k == (name.spec_namespace(), name.spec_name()),
                0 <= j <= self.block_list@.len(),
                forall|i: int| 0 <= i < j ==> block_key(self.block_list@[i]) != k,
            decreases self.block_list@.len() - j,
        {
            if self.block_list[j].name.same_as(name) {
                proof {
                    lemma_block_map_at(self.block_list@, j as int);
                }
                return Some(self.block_list[j]);
            }
            j += 1;
        }
        proof {
            lemma_block_map_contains(self.block_list@, k);
        }
        None
    }
}

/// A registered block is what its name then looks up, with its default state, and every other
/// name looks up what it did before.
pub proof fn law_lookup_after_register(before: Registry, after: Registry, block: Block)
    requires
        after.names() == before.names().insert(block_key(block), block.default_state),
    ensures
        after.names().contains_key(block_key(block)),
        after.names()[block_key(block)] == block.default_state,
        forall|k: (Seq<char>, Seq<char>)|
            k != block_key(block) ==> (after.names().contains_key(k) == before.names().contains_key(k)
                && (after.names().contains_key(k) ==> after.names()[k] == before.names()[k])),
{
}

} // verus!
