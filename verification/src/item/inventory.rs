use vstd::prelude::*;
use crate::item::item::{ItemStack, is_blank, stack_entries, find_first, first_named, stack_id, stack_count, stack_damage, stack_tag};
use crate::item::init::{ItemRegistry, name_splits, name_key};
use crate::nbt::tag::{NbtCompound, NbtList, NbtTag, NbtView, compound_view, compound_set, list_view};
use crate::nbt::snbt::lemma_compound_set;

verus! {

/// A fixed number of slots, each holding a stack.
pub struct Inventory {
    pub size: usize,
    items: Vec<ItemStack>,
}

/// The compound `write_tag` writes for the stack `s` in slot `i`.
pub open spec fn slot_entries(i: int, s: ItemStack) -> Seq<(Seq<char>, NbtView)> {
    stack_entries(compound_set(Seq::empty(), "Slot"@, NbtView::Byte(i as i8)), s)
}

/// The list `write_tag` writes for the stacks `s`.
pub open spec fn slots_view(s: Seq<ItemStack>) -> Seq<NbtView> {
    Seq::new(s.len(), |i: int| NbtView::Compound(slot_entries(i, s[i])))
}

/// The list a compound holds under `Items`, if it holds one there.
pub open spec fn items_list(nbt: NbtCompound) -> Option<Seq<NbtTag>> {
    match first_named(nbt.0@, "Items"@) {
        Some(NbtTag::List(l)) => Some(l.0@),
        _ => None,
    }
}

/// The slot a stack's compound names with the byte `Slot`, or zero.
pub open spec fn slot_of(c: NbtCompound) -> int {
    match first_named(c.0@, "Slot"@) {
        Some(NbtTag::Byte(b)) => b as int,
        _ => 0,
    }
}

/// Whether `stack` is what `ItemStack::from_nbt` reads from `c`.
pub open spec fn read_from(stack: ItemStack, c: NbtCompound) -> bool {
    &&& (stack.item.spec_namespace(), stack.item.spec_name()) == name_key(stack_id(c))
    &&& stack.count == stack_count(c)
    &&& stack.damage == stack_damage(stack_tag(c))
    &&& compound_view(stack.nbt.0@) == compound_view(stack_tag(c))
}

/// Whether the element `t` of an item list can be read into an inventory of `size` slots: it is
/// a compound, and when its slot is one of the inventory's, it names a registered item.
pub open spec fn element_ok(t: NbtTag, items: ItemRegistry, size: int) -> bool {
    match t {
        NbtTag::Compound(c) => 0 <= slot_of(c) < size ==> name_splits(stack_id(c)) && items.holds(
            name_key(stack_id(c)),
        ),
        _ => false,
    }
}

/// Whether `nbt` holds a list `Items` whose every element can be read into an inventory of
/// `size` slots.
pub open spec fn readable(nbt: NbtCompound, items: ItemRegistry, size: int) -> bool {
    match items_list(nbt) {
        Some(l) => forall|i: int| 0 <= i < l.len() ==> element_ok(#[trigger] l[i], items, size),
        None => false,
    }
}

/// The slot the element `t` names, or `-1` for an element that is not a compound.
pub open spec fn element_slot(t: NbtTag) -> int {
    match t {
        NbtTag::Compound(c) => slot_of(c),
        _ => -1,
    }
}

/// Whether `after` is `before` with the first `n` elements of `elems` read into their slots:
/// a slot that none of them names keeps its stack, and a slot that some name holds what the
/// last of those gives.
pub open spec fn placed(before: Seq<ItemStack>, after: Seq<ItemStack>, elems: Seq<NbtTag>, n: int) -> bool {
    &&& after.len() == before.len()
    &&& forall|s: int|
        0 <= s < before.len() && (forall|i: int| 0 <= i < n ==> element_slot(#[trigger] elems[i]) != s)
            ==> after[s] == before[s]
    &&& forall|s: int, i: int|
        0 <= s < before.len() && 0 <= i < n && element_slot(elems[i]) == s && (forall|j: int|
            i < j < n ==> element_slot(#[trigger] elems[j]) != s) ==> #[trigger] read_from(
            after[s],
            elems[i]->Compound_0,
        )
}

impl Inventory {
    /// The stacks, slot by slot.
    pub closed spec fn stacks(&self) -> Seq<ItemStack> {
        self.items@
    }

    /// The number of slots.
    pub closed spec fn slot_count(&self) -> usize {
        self.size
    }

    /// There is a stack for each slot.
    pub closed spec fn wf(&self) -> bool {
        self.stacks().len() == self.size
    }

    /// An inventory of `size` slots, each holding the empty stack.
    pub fn new(size: usize) -> (r: Self)
        ensures
            r.wf(),
            r.slot_count() == size,
            r.stacks().len() == size,
            forall|i: int| 0 <= i < size ==> is_blank(#[trigger] r.stacks()[i]),
    {
        let mut items: Vec<ItemStack> = Vec::new();
        let mut i: usize = 0;
        while i < size
            invariant
                0 <= i <= size,
                items@.len() == i,
                forall|k: int| 0 <= k < i ==> is_blank(#[trigger] items@[k]),
            decreases size - i,
        {
            items.push(ItemStack::empty());
            i += 1;
        }
        Inventory { size, items }
    }

    /// Puts `item` in slot `index` and returns the stack that was there.
    pub fn insert(&mut self, index: usize, item: ItemStack) -> (r: ItemStack)
        requires
            old(self).wf(),
            index < old(self).slot_count(),
        ensures
            final(self).wf(),
            final(self).slot_count() == old(self).slot_count(),
            r == old(self).stacks()[index as int],
            final(self).stacks() == old(self).stacks().update(index as int, item),
    {
        let mut taken = item;
        std::mem::swap(&mut self.items[index], &mut taken);
        taken
    }

    /// Adds one to the count of the stack in slot `index`.
    pub fn increment(&mut self, index: usize)
        requires
            old(self).wf(),
            index < old(self).slot_count(),
            old(self).stacks()[index as int].count < 255,
        ensures
            final(self).wf(),
            final(self).slot_count() == old(self).slot_count(),
            final(self).stacks().len() == old(self).stacks().len(),
            forall|j: int|
                0 <= j < old(self).stacks().len() && j != index ==> final(self).stacks()[j]
                    == old(self).stacks()[j],
            final(self).stacks()[index as int].count == old(self).stacks()[index as int].count + 1,
            final(self).stacks()[index as int].item == old(self).stacks()[index as int].item,
            final(self).stacks()[index as int].damage == old(self).stacks()[index as int].damage,
            final(self).stacks()[index as int].nbt == old(self).stacks()[index as int].nbt,
    {
        let mut stack = ItemStack::empty();
        std::mem::swap(&mut self.items[index], &mut stack);
        stack.count = stack.count + 1;
        std::mem::swap(&mut self.items[index], &mut stack);
    }

    /// The stack in slot `index`.
    pub fn get(&self, index: usize) -> (r: &ItemStack)
        requires
            self.wf(),
            index < self.slot_count(),
        ensures
            *r == self.stacks()[index as int],
    {
        &self.items[index]
    }

    /// Whether `index` names a slot.
    pub fn can_insert(&self, index: usize) -> (b: bool)
        ensures
            b == (index < self.slot_count()),
    {
        self.size > index
    }

    /// Writes the stacks into `tag` as the list `Items`, one compound per slot in slot order:
    /// the slot's number as the byte `Slot` (truncated), then the stack's own entries.
    pub fn write_tag(&self, tag: &mut NbtCompound)
        requires
            self.wf(),
            old(tag).wf(),
        ensures
            final(tag).wf(),
            compound_view(final(tag).0@) == compound_set(
                compound_view(old(tag).0@),
                "Items"@,
                NbtView::List(slots_view(self.stacks())),
            ),
    {
        let mut list = NbtList::new();
        let mut i: usize = 0;
        while i < self.size
            invariant
                self.wf(),
                self.stacks().len() == self.size,
                0 <= i <= self.size,
                list.0@.len() == i,
                forall|k: int|
                    0 <= k < i ==> crate::nbt::tag::tag_view(#[trigger] list.0@[k]) == NbtView::Compound(
                        slot_entries(k, self.stacks()[k]),
                    ),
            decreases self.size - i,
        {
            let mut slot_tag = NbtCompound::new();
            let ghost c0 = slot_tag.0@;
            let key = String::from_str("Slot");
            let value = NbtTag::Byte(i as i8);
            let ghost (gk, gv) = (key, value);
            slot_tag.set(key, value);
            proof {
                reveal_strlit("Slot");
                lemma_compound_set(c0, slot_tag.0@, gk, gv);
                assert(compound_view(c0) =~= Seq::<(Seq<char>, NbtView)>::empty());
            }
            self.items[i].write_nbt(&mut slot_tag);
            list.add(NbtTag::Compound(slot_tag));
            i += 1;
        }
        assert(list_view(list.0@) =~= slots_view(self.stacks()));
        let ghost before = tag.0@;
        let key = String::from_str("Items");
        let value = NbtTag::List(list);
        let ghost (gk, gv) = (key, value);
        tag.set(key, value);
        proof {
            reveal_strlit("Items");
            lemma_compound_set(before, tag.0@, gk, gv);
        }
    }
}

impl Inventory {
    /// Reads the stacks of the list `Items` of `nbt` into their slots, each element a compound
    /// naming its slot with the byte `Slot`; elements whose slot is not one of the inventory's
    /// are skipped. Gives `false`, leaving the inventory as it was, when there is no such list,
    /// when an element is not a compound, or when an element for a slot of the inventory names
    /// no registered item.
    pub fn from_tag(&mut self, nbt: &NbtCompound, items: &ItemRegistry) -> (ok: bool)
        requires
            old(self).wf(),
            items.wf(),
        ensures
            final(self).wf(),
            final(self).slot_count() == old(self).slot_count(),
            ok == readable(*nbt, *items, old(self).slot_count() as int),
            !ok ==> final(self).stacks() == old(self).stacks(),
            ok ==> placed(old(self).stacks(), final(self).stacks(), items_list(*nbt)->0, items_list(*nbt)->0.len() as int),
    {
        let list = match find_first(nbt, "Items") {
            Some(NbtTag::List(l)) => l,
            _ => return false,
        };
        let ghost elems = list.0@;
        let size = self.size;
        let mut i: usize = 0;
        while i < list.0.len()
            invariant
                0 <= i <= elems.len(),
                elems == list.0@,
                items.wf(),
                self.wf(),
                self.stacks() == old(self).stacks(),
                self.slot_count() == old(self).slot_count(),
                size == old(self).slot_count(),
                items_list(*nbt) == Some(elems),
                forall|j: int| 0 <= j < i ==> element_ok(#[trigger] elems[j], *items, size as int),
            decreases elems.len() - i,
        {
            match &list.0[i] {
                NbtTag::Compound(c) => {
                    let slot: i8 = match find_first(c, "Slot") {
                        Some(NbtTag::Byte(b)) => *b,
                        _ => 0,
                    };
                    assert(slot as int == slot_of(*c));
                    if slot >= 0 && (slot as usize) < size {
                        if ItemStack::from_nbt(c, items).is_none() {
                            assert(!element_ok(elems[i as int], *items, old(self).slot_count() as int));
                            assert(items_list(*nbt) matches Some(l) && l == elems);
                            assert(items_list(*nbt) matches Some(l) && l == elems);
                    assert(readable(*nbt, *items, old(self).slot_count() as int) == (forall|j: int|
                                0 <= j < elems.len() ==> element_ok(#[trigger] elems[j], *items, old(self).slot_count() as int)));
                            return false;
                        }
                    }
                },
                _ => {
                    assert(!element_ok(elems[i as int], *items, old(self).slot_count() as int));
                    assert(items_list(*nbt) matches Some(l) && l == elems);
                    assert(readable(*nbt, *items, old(self).slot_count() as int) == (forall|j: int|
                        0 <= j < elems.len() ==> element_ok(#[trigger] elems[j], *items, old(self).slot_count() as int)));
                    return false;
                },
            }
            i += 1;
        }
        let ghost before = self.stacks();
        let mut n: usize = 0;
        while n < list.0.len()
            invariant
                0 <= n <= elems.len(),
                elems == list.0@,
                items.wf(),
                self.wf(),
                self.slot_count() == size,
                self.stacks().len() == size,
                before.len() == size,
                forall|j: int| 0 <= j < elems.len() ==> element_ok(#[trigger] elems[j], *items, size as int),
                placed(before, self.stacks(), elems, n as int),
            decreases elems.len() - n,
        {
            let ghost mid = self.stacks();
            let ghost e = elems[n as int];
            assert(element_ok(e, *items, size as int));
            match &list.0[n] {
                NbtTag::Compound(c) => {
                    let slot: i8 = match find_first(c, "Slot") {
                        Some(NbtTag::Byte(b)) => *b,
                        _ => 0,
                    };
                    assert(slot as int == slot_of(*c));
                    if slot >= 0 && (slot as usize) < size {
                        match ItemStack::from_nbt(c, items) {
                            Some(stack) => {
                                let ghost st = stack;
                                self.insert(slot as usize, stack);
                                proof {
                                    let sl = slot as int;
                                    assert(self.stacks() == mid.update(sl, st));
                                    assert(read_from(self.stacks()[sl], elems[n as int]->Compound_0));
                                    lemma_placed_step(before, mid, self.stacks(), elems, n as int, sl);
                                }
                            },
                            None => {
                                assert(false);
                            },
                        }
                    } else {
                        proof {
                            lemma_placed_skip(before, mid, elems, n as int);
                        }
                    }
                },
                _ => {
                    assert(false);
                },
            }
            n += 1;
        }
        true
    }
}

/// Reading element `n` into slot `sl` extends what the first `n` elements placed.
proof fn lemma_placed_step(
    before: Seq<ItemStack>,
    mid: Seq<ItemStack>,
    after: Seq<ItemStack>,
    elems: Seq<NbtTag>,
    n: int,
    sl: int,
)
    requires
        0 <= n < elems.len(),
        0 <= sl < before.len(),
        element_slot(elems[n]) == sl,
        elems[n] is Compound,
        placed(before, mid, elems, n),
        after == mid.update(sl, after[sl]),
        read_from(after[sl], elems[n]->Compound_0),
    ensures
        placed(before, after, elems, n + 1),
{
    assert forall|s: int|
        0 <= s < before.len() && (forall|i: int| 0 <= i < n + 1 ==> element_slot(#[trigger] elems[i]) != s)
            implies after[s] == before[s] by {
        assert(element_slot(elems[n]) != s);
        assert(forall|i: int| 0 <= i < n ==> element_slot(#[trigger] elems[i]) != s);
    }
    assert forall|s: int, i: int|
        0 <= s < before.len() && 0 <= i < n + 1 && element_slot(elems[i]) == s && (forall|j: int|
            i < j < n + 1 ==> element_slot(#[trigger] elems[j]) != s) implies #[trigger] read_from(
            after[s],
            elems[i]->Compound_0,
        ) by {
        if i < n {
            assert(element_slot(elems[n]) != s);
            assert(forall|j: int| i < j < n ==> element_slot(#[trigger] elems[j]) != s);
            assert(read_from(mid[s], elems[i]->Compound_0));
        }
    }
}

/// An element whose slot is not one of the inventory's places nothing.
proof fn lemma_placed_skip(before: Seq<ItemStack>, mid: Seq<ItemStack>, elems: Seq<NbtTag>, n: int)
    requires
        0 <= n < elems.len(),
        !(0 <= element_slot(elems[n]) < before.len()),
        placed(before, mid, elems, n),
    ensures
        placed(before, mid, elems, n + 1),
{
    assert forall|s: int|
        0 <= s < before.len() && (forall|i: int| 0 <= i < n + 1 ==> element_slot(#[trigger] elems[i]) != s)
            implies mid[s] == before[s] by {
        assert(forall|i: int| 0 <= i < n ==> element_slot(#[trigger] elems[i]) != s);
    }
    assert forall|s: int, i: int|
        0 <= s < before.len() && 0 <= i < n + 1 && element_slot(elems[i]) == s && (forall|j: int|
            i < j < n + 1 ==> element_slot(#[trigger] elems[j]) != s) implies #[trigger] read_from(
            mid[s],
            elems[i]->Compound_0,
        ) by {
        assert(i != n);
        assert(forall|j: int| i < j < n ==> element_slot(#[trigger] elems[j]) != s);
    }
}

} // verus!
