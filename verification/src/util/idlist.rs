use vstd::prelude::*;
use crate::qutil::map::{present, refill, lemma_refill_shape};

verus! {

/// Represents an object which has a usize as a modifiable ID.
pub trait Identify: Sized {
    /// The ID this object carries.
    spec fn spec_id(&self) -> usize;

    /// This object with its ID changed to `id` and nothing else.
    spec fn spec_with_id(&self, id: usize) -> Self;

    /// Updates the ID of this object to the given new ID.
    fn set_id(&mut self, id: usize)
        ensures
            *final(self) == old(self).spec_with_id(id),
            final(self).spec_id() == id,
    ;

    /// Returns the ID of this object.
    fn id(&self) -> (r: usize)
        ensures
            r == self.spec_id(),
    ;
}

/// A map from IDs to an object of a given type. Internally, this operates on vectors and
/// indexing so it is more efficient than a hash map.
pub struct IdList<T: Identify> {
    inner: Vec<Option<T>>,
    free_ids: Vec<usize>,
}

impl<T: Identify> IdList<T> {
    /// The slot for each ID ever handed out: `Some` while an item holds it.
    pub closed spec fn slots(&self) -> Seq<Option<T>> {
        self.inner@
    }

    /// The IDs given back by `remove`, the most recent last; `insert` reuses them from the end.
    pub closed spec fn free(&self) -> Seq<usize> {
        self.free_ids@
    }

    /// Every freed ID names an empty slot, and no ID is free twice.
    pub closed spec fn wf(&self) -> bool {
        &&& forall|i: int|
            0 <= i < self.free_ids@.len() ==> #[trigger] self.free_ids@[i] < self.inner@.len()
                && self.inner@[self.free_ids@[i] as int] is None
        &&& forall|i: int, j: int|
            0 <= i < j < self.free_ids@.len() ==> self.free_ids@[i] != self.free_ids@[j]
    }

    /// Whether an item holds the ID `id`.
    pub open spec fn holds(&self, id: usize) -> bool {
        id < self.slots().len() && self.slots()[id as int] is Some
    }

    /// Every item carries the ID of its slot.
    pub open spec fn ids_match(&self) -> bool {
        forall|i: int|
            0 <= i < self.slots().len() && #[trigger] self.slots()[i] is Some ==> self.slots()[i]->0.spec_id()
                == i
    }

    /// `after` is `before` with an item added under `id`, an ID that held no item: the ID freed
    /// last if there is one, otherwise a new one past the end. The item carries `id`, and every
    /// other slot is unchanged.
    pub open spec fn added(before: Self, after: Self, item: T, id: usize) -> bool {
        &&& after.wf()
        &&& before.free().len() > 0 ==> {
            &&& id == before.free().last()
            &&& after.free() == before.free().drop_last()
            &&& after.slots().len() == before.slots().len()
        }
        &&& before.free().len() == 0 ==> {
            &&& id == before.slots().len()
            &&& after.free() == before.free()
            &&& after.slots().len() == before.slots().len() + 1
        }
        &&& !before.holds(id)
        &&& after.slots()[id as int] == Some(item.spec_with_id(id))
        &&& after.slots()[id as int]->0.spec_id() == id
        &&& forall|j: int|
            0 <= j < before.slots().len() && j != id ==> after.slots()[j] == before.slots()[j]
    }

    /// `after` is `before` with the slot of `id` emptied and `id` freed, its item returned as
    /// `r`; an ID that holds no item changes nothing and returns `None`.
    pub open spec fn removed(before: Self, after: Self, id: usize, r: Option<T>) -> bool {
        &&& after.wf()
        &&& !before.holds(id) ==> r is None && after.slots() == before.slots()
            && after.free() == before.free()
        &&& before.holds(id) ==> {
            &&& r == before.slots()[id as int]
            &&& after.slots() == before.slots().update(id as int, None)
            &&& after.free() == before.free().push(id)
        }
    }

    /// Returns a new, empty ID list with an empty internal vector.
    pub fn new() -> (list: Self)
        ensures
            list.wf(),
            list.slots() == Seq::<Option<T>>::empty(),
            list.free() == Seq::<usize>::empty(),
    {
        IdList { inner: Vec::new(), free_ids: Vec::new() }
    }

    /// Returns a new ID list with an internal vector with the given initial capacity.
    pub fn with_capacity(capacity: usize) -> (list: Self)
        ensures
            list.wf(),
            list.slots() == Seq::<Option<T>>::empty(),
            list.free() == Seq::<usize>::empty(),
    {
        IdList { inner: Vec::with_capacity(capacity), free_ids: Vec::new() }
    }

    /// Returns shared references to the values in this ID list, in ID order.
    pub fn iter(&self) -> (items: Vec<&T>)
        ensures
            items@.len() == present(self.slots()).len(),
            forall|k: int| 0 <= k < items@.len() ==> *items@[k] == present(self.slots())[k],
    {
        let mut items: Vec<&T> = Vec::new();
        let mut i: usize = 0;
        while i < self.inner.len()
            invariant
                0 <= i <= self.inner@.len(),
                items@.len() == present(self.inner@.take(i as int)).len(),
                forall|k: int|
                    0 <= k < items@.len() ==> *items@[k] == present(self.inner@.take(i as int))[k],
            decreases self.inner@.len() - i,
        {
            assert(self.inner@.take(i + 1).drop_last() =~= self.inner@.take(i as int));
            match &self.inner[i] {
                Some(item) => {
                    items.push(item);
                },
                None => {},
            }
            i += 1;
        }
        assert(self.inner@.take(self.inner@.len() as int) =~= self.inner@);
        items
    }

    /// Returns mutable references to the values in this ID list, in ID order. What is written
    /// through them ends up in the list.
    pub fn iter_mut(&mut self) -> (items: Vec<&mut T>)
        ensures
            items@.len() == present(old(self).slots()).len(),
            forall|k: int| 0 <= k < items@.len() ==> *items@[k] == present(old(self).slots())[k],
            final(self).slots() == refill(old(self).slots(), items@.map_values(|x: &mut T| *final(x))),
            final(self).free() == old(self).free(),
            old(self).wf() ==> final(self).wf(),
    {
        let ghost s0 = self.inner@;
        let ghost free0 = self.free_ids@;
        let mut items: Vec<&mut T> = Vec::new();
        let mut rest: &mut [Option<T>] = self.inner.as_mut_slice();
        let ghost mut idx: int = 0;
        while rest.len() > 0
            invariant
                0 <= idx <= s0.len(),
                rest@ == s0.skip(idx),
                self.free_ids@ == free0,
                items@.len() == present(s0.take(idx)).len(),
                forall|k: int| 0 <= k < items@.len() ==> *items@[k] == present(s0.take(idx))[k],
                after_borrow(self.inner)@ == refill(
                    s0.take(idx),
                    items@.map_values(|x: &mut T| *final(x)),
                ) + final(rest)@,
            decreases rest@.len(),
        {
            let ghost items0 = items@;
            let (head, tail) = rest.split_at_mut(1);
            proof {
                assert(s0.take(idx + 1).drop_last() =~= s0.take(idx));
                assert(s0.take(idx + 1).last() == s0[idx]);
                assert(head@[0] == s0[idx]);
            }
            if let Some(cell) = head.first_mut() {
                if let Some(x) = cell.as_mut() {
                    items.push(x);
                    proof {
                        assert(items@.map_values(|x: &mut T| *final(x)).drop_last() =~= items0.map_values(
                            |x: &mut T| *final(x),
                        ));
                    }
                }
            }
            proof {
                assert(tail@ =~= s0.skip(idx + 1));
                idx = idx + 1;
            }
            rest = tail;
        }
        let _ = rest.first_mut();
        proof {
            assert(s0.take(idx) =~= s0);
            lemma_refill_shape(s0, items@.map_values(|x: &mut T| *final(x)));
        }
        items
    }

    /// Adds the given item to this list, setting its ID to the next open ID in this list and
    /// returning that ID: the ID freed last if there is one, otherwise a new one.
    pub fn add(&mut self, item: T) -> (id: usize)
        requires
            old(self).wf(),
        ensures
            Self::added(*old(self), *final(self), item, id),
    {
        let mut item = item;
        if self.free_ids.is_empty() {
            let id = self.inner.len();
            item.set_id(id);
            self.inner.push(Some(item));
            id
        } else {
            let id = self.free_ids.pop().unwrap();
            item.set_id(id);
            self.inner.set(id, Some(item));
            id
        }
    }

    /// Returns a shared reference to the element with the given ID, or `None` if no element has
    /// the given ID.
    pub fn get(&self, id: usize) -> (r: Option<&T>)
        ensures
            r is Some <==> self.holds(id),
            r matches Some(x) ==> Some(*x) == self.slots()[id as int],
    {
        if id < self.inner.len() {
            self.inner[id].as_ref()
        } else {
            None
        }
    }

    /// Returns a mutable reference to the element with the given ID, or `None` if no element has
    /// the given ID.
    pub fn get_mut(&mut self, id: usize) -> (r: Option<&mut T>)
        ensures
            r is Some <==> old(self).holds(id),
            r matches Some(x) ==> Some(*x) == old(self).slots()[id as int] && final(self).slots()
                == old(self).slots().update(id as int, Some(*final(x))),
            r is None ==> final(self).slots() == old(self).slots(),
            final(self).free() == old(self).free(),
            old(self).wf() ==> final(self).wf(),
    {
        if id < self.inner.len() {
            self.inner[id].as_mut()
        } else {
            None
        }
    }

    /// Removes the item with the given ID returning that item if it exists, or None if it does
    /// not. The ID of a removed item is freed for reuse. An ID that holds no item is left as it
    /// is and not freed again, so that no ID is ever handed out to two items at once.
    pub fn remove(&mut self, id: usize) -> (r: Option<T>)
        requires
            old(self).wf(),
        ensures
            Self::removed(*old(self), *final(self), id, r),
    {
        if id >= self.inner.len() {
            return None;
        }
        if self.inner[id].is_none() {
            return None;
        }
        self.free_ids.push(id);
        let mut taken: Option<T> = None;
        let slot = &mut self.inner[id];
        std::mem::swap(slot, &mut taken);
        taken
    }
}

/// Removing an item frees its ID: the next item added is given that same ID, and the other IDs
/// keep their items.
pub proof fn law_add_reuses_removed_id<T: Identify>(
    a: IdList<T>,
    b: IdList<T>,
    c: IdList<T>,
    id: usize,
    r: Option<T>,
    item: T,
    new_id: usize,
)
    requires
        a.wf(),
        a.holds(id),
        IdList::removed(a, b, id, r),
        IdList::added(b, c, item, new_id),
    ensures
        new_id == id,
        c.holds(id),
        c.slots().len() == a.slots().len(),
        forall|j: int| 0 <= j < a.slots().len() && j != id ==> c.slots()[j] == a.slots()[j],
{
}

/// An ID that held an item holds none once it is removed, and the item removed is the one
/// it held.
pub proof fn law_remove_empties_slot<T: Identify>(before: IdList<T>, after: IdList<T>, id: usize, r: Option<T>)
    requires
        before.wf(),
        before.holds(id),
        IdList::removed(before, after, id, r),
    ensures
        !after.holds(id),
        r == before.slots()[id as int],
        before.ids_match() ==> after.ids_match(),
{
}

/// An added item is stored with the ID it was given set and nothing else changed, and no item
/// that was there before is overwritten.
pub proof fn law_add_keeps_items<T: Identify>(before: IdList<T>, after: IdList<T>, item: T, id: usize)
    requires
        before.wf(),
        IdList::added(before, after, item, id),
    ensures
        after.holds(id),
        after.slots()[id as int] == Some(item.spec_with_id(id)),
        after.slots()[id as int]->0.spec_id() == id,
        forall|j: int| 0 <= j < before.slots().len() && before.slots()[j] is Some ==> after.slots()[j] == before.slots()[j],
        before.ids_match() ==> after.ids_match(),
{
}

/// Removing an ID that holds no item, however often, frees nothing.
pub proof fn law_remove_of_empty_changes_nothing<T: Identify>(
    before: IdList<T>,
    after: IdList<T>,
    id: usize,
    r: Option<T>,
)
    requires
        before.wf(),
        !before.holds(id),
        IdList::removed(before, after, id, r),
    ensures
        r is None,
        after.slots() == before.slots(),
        after.free() == before.free(),
{
}

} // verus!
