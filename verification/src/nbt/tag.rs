use vstd::prelude::*;

verus! {

/// A value of the named binary tag format. Floating-point values are held as their decimal
/// text.
#[derive(Debug)]
pub enum NbtTag {
    Byte(i8),
    Short(i16),
    Int(i32),
    Long(i64),
    Float(String),
    Double(String),
    ByteArray(Vec<i8>),
    StringModUtf8(String),
    List(NbtList),
    Compound(NbtCompound),
    IntArray(Vec<i32>),
    LongArray(Vec<i64>),
}

/// A list of tags.
#[derive(Debug)]
pub struct NbtList(pub Vec<NbtTag>);

/// Named tags; no name occurs twice.
#[derive(Debug)]
pub struct NbtCompound(pub Vec<(String, NbtTag)>);

/// The mathematical content of a tag.
pub enum NbtView {
    Byte(i8),
    Short(i16),
    Int(i32),
    Long(i64),
    Float(Seq<char>),
    Double(Seq<char>),
    ByteArray(Seq<i8>),
    Str(Seq<char>),
    List(Seq<NbtView>),
    Compound(Seq<(Seq<char>, NbtView)>),
    IntArray(Seq<i32>),
    LongArray(Seq<i64>),
}

/// The content of a tag.
pub open spec fn tag_view(t: NbtTag) -> NbtView
    decreases t,
{
    match t {
        NbtTag::Byte(v) => NbtView::Byte(v),
        NbtTag::Short(v) => NbtView::Short(v),
        NbtTag::Int(v) => NbtView::Int(v),
        NbtTag::Long(v) => NbtView::Long(v),
        NbtTag::Float(v) => NbtView::Float(v@),
        NbtTag::Double(v) => NbtView::Double(v@),
        NbtTag::ByteArray(v) => NbtView::ByteArray(v@),
        NbtTag::StringModUtf8(v) => NbtView::Str(v@),
        NbtTag::List(l) => NbtView::List(list_view(l.0@)),
        NbtTag::Compound(c) => NbtView::Compound(compound_view(c.0@)),
        NbtTag::IntArray(v) => NbtView::IntArray(v@),
        NbtTag::LongArray(v) => NbtView::LongArray(v@),
    }
}

/// The contents of a list.
pub open spec fn list_view(s: Seq<NbtTag>) -> Seq<NbtView>
    decreases s,
{
    Seq::new(s.len(), |i: int| if 0 <= i < s.len() { tag_view(s[i]) } else { NbtView::Byte(0) })
}

/// The contents of a compound.
pub open spec fn compound_view(s: Seq<(String, NbtTag)>) -> Seq<(Seq<char>, NbtView)>
    decreases s,
{
    Seq::new(s.len(), |i: int| if 0 <= i < s.len() { (s[i].0@, tag_view(s[i].1)) } else { (Seq::empty(), NbtView::Byte(0)) })
}

/// `c` with the entry `k` set to `v`: replaced where `k` is already named, appended otherwise.
pub open spec fn compound_set(c: Seq<(Seq<char>, NbtView)>, k: Seq<char>, v: NbtView) -> Seq<(Seq<char>, NbtView)> {
    if exists|i: int| 0 <= i < c.len() && c[i].0 == k {
        c.update(choose|i: int| 0 <= i < c.len() && c[i].0 == k, (k, v))
    } else {
        c.push((k, v))
    }
}

/// A copy of the integers of `v`.
fn copy_ints<T: Copy>(v: &Vec<T>) -> (r: Vec<T>)
    ensures
        r@ == v@,
{
    let mut out: Vec<T> = Vec::new();
    let mut i: usize = 0;
    while i < v.len()
        invariant
            0 <= i <= v@.len(),
            out@ == v@.take(i as int),
        decreases v@.len() - i,
    {
        out.push(v[i]);
        assert(out@ =~= v@.take(i + 1));
        i += 1;
    }
    assert(v@.take(v@.len() as int) =~= v@);
    out
}

impl NbtTag {
    /// A copy of the tag, nested tags included.
    pub fn deep_clone(&self) -> (r: NbtTag)
        ensures
            tag_view(r) == tag_view(*self),
        decreases self,
    {
        match self {
            NbtTag::Byte(v) => NbtTag::Byte(*v),
            NbtTag::Short(v) => NbtTag::Short(*v),
            NbtTag::Int(v) => NbtTag::Int(*v),
            NbtTag::Long(v) => NbtTag::Long(*v),
            NbtTag::Float(v) => NbtTag::Float(v.clone()),
            NbtTag::Double(v) => NbtTag::Double(v.clone()),
            NbtTag::ByteArray(v) => NbtTag::ByteArray(copy_ints(v)),
            NbtTag::StringModUtf8(v) => NbtTag::StringModUtf8(v.clone()),
            NbtTag::List(l) => NbtTag::List(l.deep_clone()),
            NbtTag::Compound(c) => NbtTag::Compound(c.deep_clone()),
            NbtTag::IntArray(v) => NbtTag::IntArray(copy_ints(v)),
            NbtTag::LongArray(v) => NbtTag::LongArray(copy_ints(v)),
        }
    }
    /// The numeric id of the tag's type.
    pub fn id(&self) -> (r: u8)
        ensures
            r == match *self {
                NbtTag::Byte(_) => 1u8,
                NbtTag::Short(_) => 2u8,
                NbtTag::Int(_) => 3u8,
                NbtTag::Long(_) => 4u8,
                NbtTag::Float(_) => 5u8,
                NbtTag::Double(_) => 6u8,
                NbtTag::ByteArray(_) => 7u8,
                NbtTag::StringModUtf8(_) => 8u8,
                NbtTag::List(_) => 9u8,
                NbtTag::Compound(_) => 10u8,
                NbtTag::IntArray(_) => 11u8,
                NbtTag::LongArray(_) => 12u8,
            },
    {
        match self {
            NbtTag::Byte(_) => 0x1,
            NbtTag::Short(_) => 0x2,
            NbtTag::Int(_) => 0x3,
            NbtTag::Long(_) => 0x4,
            NbtTag::Float(_) => 0x5,
            NbtTag::Double(_) => 0x6,
            NbtTag::ByteArray(_) => 0x7,
            NbtTag::StringModUtf8(_) => 0x8,
            NbtTag::List(_) => 0x9,
            NbtTag::Compound(_) => 0xA,
            NbtTag::IntArray(_) => 0xB,
            NbtTag::LongArray(_) => 0xC,
        }
    }
}

impl NbtList {
    /// A copy of the list, nested tags included.
    pub fn deep_clone(&self) -> (r: NbtList)
        ensures
            list_view(r.0@) == list_view(self.0@),
        decreases self,
    {
        let mut out: Vec<NbtTag> = Vec::new();
        let mut i: usize = 0;
        while i < self.0.len()
            invariant
                0 <= i <= self.0@.len(),
                out@.len() == i,
                forall|k: int| 0 <= k < i ==> tag_view(out@[k]) == tag_view(self.0@[k]),
            decreases self.0@.len() - i,
        {
            proof {
                assert(decreases_to!(self => self.0));
                vstd::std_specs::vec::axiom_vec_index_decreases(self.0, i as int);
            }
            let t = self.0[i].deep_clone();
            out.push(t);
            i += 1;
        }
        assert(list_view(out@) =~= list_view(self.0@));
        NbtList(out)
    }

    /// The tags of the list.
    pub open spec fn view_seq(&self) -> Seq<NbtView> {
        list_view(self.0@)
    }

    /// An empty list.
    pub fn new() -> (l: Self)
        ensures
            l.0@.len() == 0,
    {
        NbtList(Vec::new())
    }

    /// An empty list with room for `capacity` tags. The room the allocator gives is not part of
    /// the model, so the contract speaks only of the tags.
    pub fn with_capacity(capacity: usize) -> (l: Self)
        ensures
            l.0@.len() == 0,
    {
        NbtList(Vec::with_capacity(capacity))
    }

    /// The number of tags.
    pub fn len(&self) -> (n: usize)
        ensures
            n == self.0@.len(),
    {
        self.0.len()
    }

    /// Whether the list holds no tag.
    pub fn is_empty(&self) -> (b: bool)
        ensures
            b == (self.0@.len() == 0),
    {
        self.0.len() == 0
    }

    /// The tag at `index`.
    pub fn get(&self, index: usize) -> (t: &NbtTag)
        requires
            index < self.0@.len(),
        ensures
            *t == self.0@[index as int],
    {
        &self.0[index]
    }

    /// Takes out the tag at `index`.
    pub fn remove(&mut self, index: usize) -> (t: NbtTag)
        requires
            index < old(self).0@.len(),
        ensures
            t == old(self).0@[index as int],
            final(self).0@ == old(self).0@.remove(index as int),
    {
        self.0.remove(index)
    }

    /// Appends `tag`.
    pub fn add(&mut self, tag: NbtTag)
        ensures
            final(self).0@ == old(self).0@.push(tag),
    {
        self.0.push(tag);
    }

    /// The byte at `index`, or `0` when that tag is not a byte.
    pub fn get_byte(&self, index: usize) -> (r: i8)
        requires
            index < self.0@.len(),
        ensures
            r == match self.0@[index as int] {
                NbtTag::Byte(v) => v,
                _ => 0i8,
            },
    {
        match &self.0[index] {
            NbtTag::Byte(v) => *v,
            _ => 0,
        }
    }

    /// The string at `index`, or the empty string when that tag is not a string.
    pub fn get_string(&self, index: usize) -> (r: &str)
        requires
            index < self.0@.len(),
        ensures
            r@ == match self.0@[index as int] {
                NbtTag::StringModUtf8(v) => v@,
                _ => Seq::<char>::empty(),
            },
    {
        proof {
            reveal_strlit("");
        }
        match &self.0[index] {
            NbtTag::StringModUtf8(v) => v.as_str(),
            _ => "",
        }
    }

    /// Whether the byte at `index` is non-zero.
    pub fn get_bool(&self, index: usize) -> (r: bool)
        requires
            index < self.0@.len(),
        ensures
            r == (match self.0@[index as int] {
                NbtTag::Byte(v) => v,
                _ => 0i8,
            } != 0),
    {
        self.get_byte(index) != 0
    }

    /// Appends a byte.
    pub fn add_byte(&mut self, value: i8)
        ensures
            final(self).0@ == old(self).0@.push(NbtTag::Byte(value)),
    {
        self.add(NbtTag::Byte(value));
    }

    /// Appends `1` for true and `0` for false as a byte.
    pub fn add_bool(&mut self, value: bool)
        ensures
            final(self).0@ == old(self).0@.push(NbtTag::Byte(if value { 1i8 } else { 0i8 })),
    {
        if value {
            self.add_byte(1);
        } else {
            self.add_byte(0);
        }
    }
}

impl NbtCompound {
    /// A copy of the compound, nested tags included.
    pub fn deep_clone(&self) -> (r: NbtCompound)
        ensures
            compound_view(r.0@) == compound_view(self.0@),
            forall|i: int| 0 <= i < self.0@.len() ==> #[trigger] r.0@[i].0@ == self.0@[i].0@,
            r.0@.len() == self.0@.len(),
            self.wf() ==> r.wf(),
        decreases self,
    {
        let mut out: Vec<(String, NbtTag)> = Vec::new();
        let mut i: usize = 0;
        while i < self.0.len()
            invariant
                0 <= i <= self.0@.len(),
                out@.len() == i,
                forall|k: int|
                    0 <= k < i ==> out@[k].0@ == self.0@[k].0@ && tag_view(out@[k].1) == tag_view(
                        self.0@[k].1,
                    ),
            decreases self.0@.len() - i,
        {
            proof {
                assert(decreases_to!(self => self.0));
                vstd::std_specs::vec::axiom_vec_index_decreases(self.0, i as int);
            }
            let t = self.0[i].1.deep_clone();
            out.push((self.0[i].0.clone(), t));
            i += 1;
        }
        assert(compound_view(out@) =~= compound_view(self.0@));
        NbtCompound(out)
    }

    /// The named tags.
    pub open spec fn view_seq(&self) -> Seq<(Seq<char>, NbtView)> {
        compound_view(self.0@)
    }

    /// Whether no name occurs twice.
    pub open spec fn wf(&self) -> bool {
        forall|i: int, j: int| 0 <= i < j < self.0@.len() ==> self.0@[i].0@ != self.0@[j].0@
    }

    /// The tag named `name`, if any.
    pub open spec fn lookup(&self, name: Seq<char>) -> Option<NbtTag> {
        if exists|i: int| 0 <= i < self.0@.len() && self.0@[i].0@ == name {
            Some(self.0@[choose|i: int| 0 <= i < self.0@.len() && self.0@[i].0@ == name].1)
        } else {
            None
        }
    }

    /// `after` is `before` with the tag named `name` set to `tag`: replaced in place where the
    /// name is present, added at the end otherwise.
    pub open spec fn sets(before: Self, after: Self, name: String, tag: NbtTag) -> bool {
        &&& after.wf()
        &&& forall|j: int|
            0 <= j < before.0@.len() && before.0@[j].0@ == name@ ==> after.0@ == before.0@.update(
                j,
                (before.0@[j].0, tag),
            )
        &&& (forall|i: int| 0 <= i < before.0@.len() ==> before.0@[i].0@ != name@) ==> after.0@
            == before.0@.push((name, tag))
    }

    /// `after` is `before` without the tag named `name`, which is returned as `r`.
    pub open spec fn takes(before: Self, after: Self, name: Seq<char>, r: Option<NbtTag>) -> bool {
        &&& after.wf()
        &&& r matches Some(t) ==> exists|i: int|
            0 <= i < before.0@.len() && before.0@[i].0@ == name && t == before.0@[i].1
                && after.0@ == before.0@.remove(i)
        &&& r is None ==> after.0@ == before.0@ && forall|i: int|
            0 <= i < before.0@.len() ==> before.0@[i].0@ != name
    }

    /// An empty compound.
    pub fn new() -> (c: Self)
        ensures
            c.0@.len() == 0,
            c.wf(),
    {
        NbtCompound(Vec::new())
    }

    /// The number of named tags.
    pub fn len(&self) -> (n: usize)
        ensures
            n == self.0@.len(),
    {
        self.0.len()
    }

    /// Whether the compound holds no tag.
    pub fn is_empty(&self) -> (b: bool)
        ensures
            b == (self.0@.len() == 0),
    {
        self.0.len() == 0
    }

    /// The names of the tags, in the order they are held.
    pub fn keys(&self) -> (ks: Vec<String>)
        ensures
            ks@.len() == self.0@.len(),
            forall|i: int| 0 <= i < ks@.len() ==> ks@[i]@ == self.0@[i].0@,
    {
        let mut ks: Vec<String> = Vec::new();
        let mut i: usize = 0;
        while i < self.0.len()
            invariant
                0 <= i <= self.0@.len(),
                ks@.len() == i,
                forall|k: int| 0 <= k < i ==> ks@[k]@ == self.0@[k].0@,
            decreases self.0@.len() - i,
        {
            ks.push(self.0[i].0.clone());
            i += 1;
        }
        ks
    }

    /// Where the tag named `name` is.
    fn position(&self, name: &str) -> (r: Option<usize>)
        ensures
            r matches Some(i) ==> i < self.0@.len() && self.0@[i as int].0@ == name@,
            r is None ==> forall|i: int| 0 <= i < self.0@.len() ==> self.0@[i].0@ != name@,
    {
        let key = name.to_owned();
        let mut i: usize = 0;
        while i < self.0.len()
            invariant
                key@ == name@,
                0 <= i <= self.0@.len(),
                forall|k: int| 0 <= k < i ==> self.0@[k].0@ != name@,
            decreases self.0@.len() - i,
        {
            if self.0[i].0 == key {
                return Some(i);
            }
            i += 1;
        }
        None
    }

    /// Sets the tag named `name`, replacing any tag of that name.
    pub fn set(&mut self, name: String, tag: NbtTag)
        requires
            old(self).wf(),
        ensures
            Self::sets(*old(self), *final(self), name, tag),
    {
        match self.position(name.as_str()) {
            Some(i) => {
                let key = self.0[i].0.clone();
                let ghost before = self.0@;
                self.0.set(i, (key, tag));
                assert forall|j: int| 0 <= j < before.len() && before[j].0@ == name@ implies self.0@
                    == before.update(j, (before[j].0, tag)) by {
                    if j != i {
                        assert(before[i as int].0@ == before[j].0@);
                    }
                }
            },
            None => {
                self.0.push((name, tag));
            },
        }
    }

    /// The tag named `name`, if any.
    pub fn get(&self, name: &str) -> (r: Option<&NbtTag>)
        requires
            self.wf(),
        ensures
            r matches Some(t) ==> exists|i: int|
                0 <= i < self.0@.len() && self.0@[i].0@ == name@ && *t == self.0@[i].1,
            r is None ==> forall|i: int| 0 <= i < self.0@.len() ==> self.0@[i].0@ != name@,
            r matches Some(t) ==> self.lookup(name@) == Some(*t),
            r is None ==> self.lookup(name@) is None,
    {
        match self.position(name) {
            Some(i) => Some(&self.0[i].1),
            None => None,
        }
    }

    /// Takes out the tag named `name`, if any.
    pub fn remove(&mut self, name: &str) -> (r: Option<NbtTag>)
        requires
            old(self).wf(),
        ensures
            Self::takes(*old(self), *final(self), name@, r),
    {
        match self.position(name) {
            Some(i) => {
                let (_, t) = self.0.remove(i);
                Some(t)
            },
            None => None,
        }
    }

    /// The byte named `name`, or `0` when there is none.
    pub fn get_byte(&self, name: &str) -> (r: i8)
        requires
            self.wf(),
        ensures
            (exists|i: int| 0 <= i < self.0@.len() && self.0@[i].0@ == name@ && self.0@[i].1 == NbtTag::Byte(r))
                || (r == 0 && forall|i: int| 0 <= i < self.0@.len() && self.0@[i].0@ == name@ ==> !(self.0@[i].1 is Byte)),
    {
        match self.get(name) {
            Some(NbtTag::Byte(v)) => *v,
            _ => 0,
        }
    }

    /// Whether the byte named `name` is present and non-zero.
    pub fn get_bool(&self, name: &str) -> (r: bool)
        requires
            self.wf(),
        ensures
            r == exists|i: int| 0 <= i < self.0@.len() && self.0@[i].0@ == name@ && (self.0@[i].1 matches NbtTag::Byte(v) && v != 0),
    {
        self.get_byte(name) != 0
    }

    /// The string named `name`, or the empty string when there is none.
    pub fn get_string(&self, name: &str) -> (r: &str)
        requires
            self.wf(),
        ensures
            (exists|i: int| 0 <= i < self.0@.len() && self.0@[i].0@ == name@ && (self.0@[i].1 matches NbtTag::StringModUtf8(v) && v@ == r@))
                || (r@.len() == 0 && forall|i: int| 0 <= i < self.0@.len() && self.0@[i].0@ == name@ ==> !(self.0@[i].1 is StringModUtf8)),
    {
        proof {
            reveal_strlit("");
        }
        match self.get(name) {
            Some(NbtTag::StringModUtf8(v)) => v.as_str(),
            _ => "",
        }
    }

    /// Sets the byte named `name`.
    pub fn set_byte(&mut self, name: String, value: i8)
        requires
            old(self).wf(),
        ensures
            Self::sets(*old(self), *final(self), name, NbtTag::Byte(value)),
    {
        self.set(name, NbtTag::Byte(value));
    }

    /// Sets the byte named `name` to `1` for true and `0` for false.
    pub fn set_bool(&mut self, name: String, value: bool)
        requires
            old(self).wf(),
        ensures
            Self::sets(*old(self), *final(self), name, NbtTag::Byte(if value { 1i8 } else { 0i8 })),
    {
        if value {
            self.set_byte(name, 1);
        } else {
            self.set_byte(name, 0);
        }
    }
}

/// A tag set under a name is what the name then looks up, and every other name keeps its tag.
pub proof fn law_lookup_after_set(before: NbtCompound, after: NbtCompound, name: String, tag: NbtTag)
    requires
        before.wf(),
        NbtCompound::sets(before, after, name, tag),
    ensures
        after.lookup(name@) == Some(tag),
        forall|k: Seq<char>| k != name@ ==> after.lookup(k) == before.lookup(k),
{
    if exists|j: int| 0 <= j < before.0@.len() && before.0@[j].0@ == name@ {
        let j = choose|j: int| 0 <= j < before.0@.len() && before.0@[j].0@ == name@;
        assert(after.0@[j].0@ == name@);
        assert(after.lookup(name@) == Some(tag));
        assert forall|k: Seq<char>| k != name@ implies after.lookup(k) == before.lookup(k) by {
            if exists|i: int| 0 <= i < before.0@.len() && before.0@[i].0@ == k {
                let i = choose|i: int| 0 <= i < before.0@.len() && before.0@[i].0@ == k;
                assert(after.0@[i] == before.0@[i]);
            }
            if exists|i: int| 0 <= i < after.0@.len() && after.0@[i].0@ == k {
                let i = choose|i: int| 0 <= i < after.0@.len() && after.0@[i].0@ == k;
                assert(after.0@[i] == before.0@[i]);
            }
        }
    } else {
        let n = before.0@.len() as int;
        assert(after.0@[n].0@ == name@);
        assert(after.lookup(name@) == Some(tag));
        assert forall|k: Seq<char>| k != name@ implies after.lookup(k) == before.lookup(k) by {
            if exists|i: int| 0 <= i < before.0@.len() && before.0@[i].0@ == k {
                let i = choose|i: int| 0 <= i < before.0@.len() && before.0@[i].0@ == k;
                assert(after.0@[i] == before.0@[i]);
            }
            if exists|i: int| 0 <= i < after.0@.len() && after.0@[i].0@ == k {
                let i = choose|i: int| 0 <= i < after.0@.len() && after.0@[i].0@ == k;
                assert(after.0@[i] == before.0@[i]);
            }
        }
    }
}

/// A name taken out of a compound looks nothing up afterwards; what it held is returned, and
/// every other name keeps its tag.
pub proof fn law_lookup_after_remove(before: NbtCompound, after: NbtCompound, name: Seq<char>, r: Option<NbtTag>)
    requires
        before.wf(),
        NbtCompound::takes(before, after, name, r),
    ensures
        after.lookup(name) is None,
        r == before.lookup(name),
        forall|k: Seq<char>| k != name ==> after.lookup(k) == before.lookup(k),
{
    if let Some(t) = r {
        let i = choose|i: int|
            0 <= i < before.0@.len() && before.0@[i].0@ == name && t == before.0@[i].1
                && after.0@ == before.0@.remove(i);
        assert(before.lookup(name) == Some(t));
        assert forall|j: int| 0 <= j < after.0@.len() implies after.0@[j].0@ != name by {
            if j < i {
                assert(after.0@[j] == before.0@[j]);
            } else {
                assert(after.0@[j] == before.0@[j + 1]);
            }
        }
        assert forall|k: Seq<char>| k != name implies after.lookup(k) == before.lookup(k) by {
            if exists|a: int| 0 <= a < before.0@.len() && before.0@[a].0@ == k {
                let a = choose|a: int| 0 <= a < before.0@.len() && before.0@[a].0@ == k;
                if a < i {
                    assert(after.0@[a] == before.0@[a]);
                } else {
                    assert(a != i);
                    assert(after.0@[a - 1] == before.0@[a]);
                }
            }
            if exists|b: int| 0 <= b < after.0@.len() && after.0@[b].0@ == k {
                let b = choose|b: int| 0 <= b < after.0@.len() && after.0@[b].0@ == k;
                if b < i {
                    assert(after.0@[b] == before.0@[b]);
                } else {
                    assert(after.0@[b] == before.0@[b + 1]);
                }
            }
        }
    }
}

} // verus!
