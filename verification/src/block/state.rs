use vstd::prelude::*;
use vstd::string::StringExecFns;
use crate::qutil::uln::{UnlocalizedName, namespace_of, identifier_of};

verus! {

/// A kind of block together with the properties its states range over.
pub struct Block {
    pub name: UnlocalizedName,
    /// Each property with the values it can take, ordered by property name.
    pub properties: Vec<(String, Vec<String>)>,
    /// The id of the state whose properties all take their first value.
    pub base_state: u16,
    /// The id of the block's default state.
    pub default_state: u16,
}

/// A state of a block: a value for each of some of the block's properties.
pub struct BlockState {
    pub handle: &'static Block,
    /// Property names with their values; no name occurs twice.
    pub properties: Vec<(String, String)>,
}

/// Whether the name `a` sorts before the name `b`: character by character, a name before any
/// longer name it begins.
pub open spec fn name_before(a: Seq<char>, b: Seq<char>) -> bool
    decreases a.len(),
{
    if a.len() == 0 {
        b.len() > 0
    } else if b.len() == 0 {
        false
    } else if a[0] != b[0] {
        (a[0] as u32) < (b[0] as u32)
    } else {
        name_before(a.drop_first(), b.drop_first())
    }
}

impl Block {
    /// The block's properties are sorted by name, each name once.
    pub open spec fn wf(&self) -> bool {
        forall|i: int, j: int|
            0 <= i < j < self.properties@.len() ==> name_before(
                #[trigger] self.properties@[i].0@,
                #[trigger] self.properties@[j].0@,
            )
    }
}

/// No name sorts before itself.
pub proof fn lemma_name_before_irreflexive(a: Seq<char>)
    ensures
        !name_before(a, a),
    decreases a.len(),
{
    if a.len() > 0 {
        lemma_name_before_irreflexive(a.drop_first());
    }
}

/// The properties of a well-formed block have distinct names, so each name picks out one
/// property.
pub proof fn law_block_property_names_distinct(b: Block)
    requires
        b.wf(),
    ensures
        forall|i: int, j: int|
            0 <= i < j < b.properties@.len() ==> b.properties@[i].0@ != b.properties@[j].0@,
{
    assert forall|i: int, j: int| 0 <= i < j < b.properties@.len() implies b.properties@[i].0@
        != b.properties@[j].0@ by {
        lemma_name_before_irreflexive(b.properties@[i].0@);
        assert(name_before(b.properties@[i].0@, b.properties@[j].0@));
    }
}

impl BlockState {
    /// The block is well formed and no property name of the state occurs twice.
    pub open spec fn wf(&self) -> bool {
        &&& self.handle.wf()
        &&& forall|i: int, j: int|
            0 <= i < j < self.properties@.len() ==> #[trigger] self.properties@[i].0@
                != #[trigger] self.properties@[j].0@
    }
}

/// The value `props` gives the property `name`: the first entry with that name, or the empty
/// string when there is none.
pub open spec fn lookup(props: Seq<(String, String)>, name: Seq<char>) -> Seq<char>
    decreases props.len(),
{
    if props.len() == 0 {
        Seq::empty()
    } else if props[0].0@ == name {
        props[0].1@
    } else {
        lookup(props.drop_first(), name)
    }
}

/// The position of the first of `values` equal to `v`, or `0` when none is.
pub open spec fn value_index(values: Seq<String>, v: Seq<char>) -> nat {
    if exists|j: int| 0 <= j < values.len() && values[j]@ == v && forall|k: int| 0 <= k < j ==> values[k]@ != v {
        (choose|j: int|
            0 <= j < values.len() && values[j]@ == v && forall|k: int| 0 <= k < j ==> values[k]@ != v) as nat
    } else {
        0
    }
}

/// The digits of a state: for each of the block's properties, the position of the state's
/// value among the property's values, and the number of values, both as 16-bit numbers.
pub open spec fn state_digits(
    block_props: Seq<(String, Vec<String>)>,
    state_props: Seq<(String, String)>,
) -> Seq<(u16, u16)> {
    Seq::new(
        block_props.len(),
        |i: int|
            (
                value_index(block_props[i].1@, lookup(state_props, block_props[i].0@)) as u16,
                block_props[i].1@.len() as u16,
            ),
    )
}

/// The mixed-radix number the digits spell, the last digit least significant, and the product
/// of their radices.
pub open spec fn mixed_radix(d: Seq<(u16, u16)>) -> (int, int)
    decreases d.len(),
{
    if d.len() == 0 {
        (0, 1)
    } else {
        let rest = mixed_radix(d.drop_first());
        (rest.0 + d[0].0 * rest.1, rest.1 * d[0].1)
    }
}

/// Whether computing a state's id in 16-bit arithmetic, last property first, never overflows.
pub open spec fn id_fits(base: u16, d: Seq<(u16, u16)>) -> bool {
    forall|k: int|
        0 <= k <= d.len() ==> base + #[trigger] mixed_radix(d.skip(k)).0 <= u16::MAX
            && mixed_radix(d.skip(k)).1 <= u16::MAX
}

impl BlockState {
    /// The id of this state: the block's base id plus the state's property values read as a
    /// mixed-radix number over the block's properties in the order of their names, the last
    /// property least significant. A state that gives no property at all has the base id.
    pub fn id(&self) -> (r: u16)
        requires
            self.handle.wf(),
            self.properties@.len() > 0 ==> id_fits(
                self.handle.base_state,
                state_digits(self.handle.properties@, self.properties@),
            ),
        ensures
            self.properties@.len() == 0 ==> r == self.handle.base_state,
            self.properties@.len() > 0 ==> r == self.handle.base_state + mixed_radix(
                state_digits(self.handle.properties@, self.properties@),
            ).0,
    {
        let mut state: u16 = self.handle.base_state;
        if self.properties.len() == 0 {
            return state;
        }
        let ghost d = state_digits(self.handle.properties@, self.properties@);
        let props = &self.handle.properties;
        let mut multiplier: u16 = 1;
        let mut i = props.len();
        proof {
            assert(d.skip(i as int) =~= Seq::<(u16, u16)>::empty());
        }
        while i > 0
            invariant
                d == state_digits(self.handle.properties@, self.properties@),
                props@ == self.handle.properties@,
                d.len() == props@.len(),
                0 <= i <= props@.len(),
                id_fits(self.handle.base_state, d),
                state == self.handle.base_state + mixed_radix(d.skip(i as int)).0,
                multiplier == mixed_radix(d.skip(i as int)).1,
            decreases i,
        {
            let value = self.value_of(&props[i - 1].0);
            let values = &props[i - 1].1;
            let index = position(values, &value);
            let count = values.len() as u16;
            proof {
                assert(d[i - 1] == (index, count));
                assert(d.skip(i - 1).drop_first() =~= d.skip(i as int));
                assert(d.skip(i - 1)[0] == d[i - 1]);
                let rest = mixed_radix(d.skip(i as int));
                assert(mixed_radix(d.skip(i - 1)) == (rest.0 + index * rest.1, rest.1 * count));
                assert(base_fits(self.handle.base_state, d, i - 1));
            }
            state = state + index * multiplier;
            multiplier = multiplier * count;
            i -= 1;
        }
        assert(d.skip(0) =~= d);
        state
    }

    /// The value this state gives the property `name`, or the empty string when it gives none.
    fn value_of(&self, name: &String) -> (v: String)
        ensures
            v@ == lookup(self.properties@, name@),
    {
        let props = &self.properties;
        let mut j: usize = 0;
        assert(props@.skip(0) =~= props@);
        while j < props.len()
            invariant
                props@ == self.properties@,
                0 <= j <= props@.len(),
                lookup(props@, name@) == lookup(props@.skip(j as int), name@),
            decreases props@.len() - j,
        {
            proof {
                assert(props@.skip(j as int).drop_first() =~= props@.skip(j + 1));
            }
            if props[j].0 == *name {
                return props[j].1.clone();
            }
            j += 1;
        }
        String::new()
    }
}

/// The bound `id_fits` gives at position `k`.
pub open spec fn base_fits(base: u16, d: Seq<(u16, u16)>, k: int) -> bool {
    base + mixed_radix(d.skip(k)).0 <= u16::MAX && mixed_radix(d.skip(k)).1 <= u16::MAX
}

/// The position of the first of `values` equal to `v`, or `0` when none is.
fn position(values: &Vec<String>, v: &String) -> (r: u16)
    ensures
        r == value_index(values@, v@) as u16,
{
    let mut j: usize = 0;
    while j < values.len()
        invariant
            0 <= j <= values@.len(),
            forall|k: int| 0 <= k < j ==> values@[k]@ != v@,
        decreases values@.len() - j,
    {
        if values[j] == *v {
            proof {
                let w = choose|w: int|
                    0 <= w < values@.len() && values@[w]@ == v@ && forall|k: int|
                        0 <= k < w ==> values@[k]@ != v@;
                assert(values@[j as int]@ == v@);
                if w < j {
                } else if w > j {
                    assert(values@[j as int]@ != v@);
                }
            }
            return j as u16;
        }
        j += 1;
    }
    proof {
        if exists|w: int|
            0 <= w < values@.len() && values@[w]@ == v@ && forall|k: int|
                0 <= k < w ==> values@[k]@ != v@ {
            let w = choose|w: int|
                0 <= w < values@.len() && values@[w]@ == v@ && forall|k: int|
                    0 <= k < w ==> values@[k]@ != v@;
            assert(values@[w]@ != v@);
        }
    }
    0
}

/// The properties of a state as names and values.
pub open spec fn props_view(p: Seq<(String, String)>) -> Seq<(Seq<char>, Seq<char>)> {
    Seq::new(p.len(), |i: int| (p[i].0@, p[i].1@))
}

/// The position of the first property of a state named `name`.
pub open spec fn find_key(p: Seq<(String, String)>, name: Seq<char>) -> Option<int> {
    if exists|i: int| 0 <= i < p.len() && p[i].0@ == name {
        Some(choose|i: int| 0 <= i < p.len() && p[i].0@ == name && forall|k: int| 0 <= k < i ==> p[k].0@ != name)
    } else {
        None
    }
}

/// The position of the first property of a block named `name`.
pub open spec fn find_block_prop(p: Seq<(String, Vec<String>)>, name: Seq<char>) -> Option<int> {
    if exists|i: int| 0 <= i < p.len() && p[i].0@ == name {
        Some(choose|i: int| 0 <= i < p.len() && p[i].0@ == name && forall|k: int| 0 <= k < i ==> p[k].0@ != name)
    } else {
        None
    }
}

/// A block's name as it is displayed: `namespace:identifier`.
pub open spec fn block_label(b: Block) -> Seq<char> {
    namespace_of(b.name.spec_repr(), b.name.spec_colon()) + seq![':'] + identifier_of(
        b.name.spec_repr(),
        b.name.spec_colon(),
    )
}

/// What `with_property` makes of a state with properties `p` of block `b`: the new properties,
/// or the error message.
pub open spec fn with_property_result(
    b: Block,
    p: Seq<(String, String)>,
    name: Seq<char>,
    value: Seq<char>,
) -> Result<Seq<(Seq<char>, Seq<char>)>, Seq<char>> {
    match find_key(p, name) {
        None => Err("Invalid property for "@ + block_label(b) + ": "@ + name),
        Some(i) => match find_block_prop(b.properties@, name) {
            None => Err("Encountered corrupted state while building "@ + block_label(b)),
            Some(j) => if allows(b.properties@[j].1@, value) {
                Ok(props_view(p).update(i, (p[i].0@, value)))
            } else {
                Err("Invalid property value for "@ + name + " in "@ + block_label(b) + ": "@ + value)
            },
        },
    }
}

/// Whether `values` holds `v`.
pub open spec fn allows(values: Seq<String>, v: Seq<char>) -> bool {
    exists|k: int| 0 <= k < values.len() && values[k]@ == v
}

/// Builds a block state from another by setting property values.
pub struct StateBuilder {
    state: BlockState,
}

/// A copy of a state's properties.
fn clone_props(p: &Vec<(String, String)>) -> (r: Vec<(String, String)>)
    ensures
        props_view(r@) == props_view(p@),
{
    let mut r: Vec<(String, String)> = Vec::new();
    let mut i: usize = 0;
    while i < p.len()
        invariant
            0 <= i <= p@.len(),
            r@.len() == i,
            forall|k: int| 0 <= k < i ==> r@[k].0@ == p@[k].0@ && r@[k].1@ == p@[k].1@,
        decreases p@.len() - i,
    {
        r.push((p[i].0.clone(), p[i].1.clone()));
        i += 1;
    }
    assert(props_view(r@) =~= props_view(p@));
    r
}

/// The position of the first property of a state named `name`, found by searching.
fn search_key(p: &Vec<(String, String)>, name: &String) -> (r: Option<usize>)
    ensures
        r matches Some(k) ==> find_key(p@, name@) == Some(k as int),
        r is None ==> find_key(p@, name@) is None,
        r matches Some(i) ==> i < p@.len(),
{
    let mut i: usize = 0;
    while i < p.len()
        invariant
            0 <= i <= p@.len(),
            forall|k: int| 0 <= k < i ==> p@[k].0@ != name@,
        decreases p@.len() - i,
    {
        if p[i].0 == *name {
            proof {
                let w = choose|w: int| 0 <= w < p@.len() && p@[w].0@ == name@ && forall|k: int| 0 <= k < w ==> p@[k].0@ != name@;
                assert(p@[i as int].0@ == name@);
                if w > i {
                    assert(p@[i as int].0@ != name@);
                }
            }
            return Some(i);
        }
        i += 1;
    }
    None
}

/// The position of the first property of a block named `name`, found by searching.
fn search_block_prop(p: &Vec<(String, Vec<String>)>, name: &String) -> (r: Option<usize>)
    ensures
        r matches Some(k) ==> find_block_prop(p@, name@) == Some(k as int),
        r is None ==> find_block_prop(p@, name@) is None,
        r matches Some(i) ==> i < p@.len(),
{
    let mut i: usize = 0;
    while i < p.len()
        invariant
            0 <= i <= p@.len(),
            forall|k: int| 0 <= k < i ==> p@[k].0@ != name@,
        decreases p@.len() - i,
    {
        if p[i].0 == *name {
            proof {
                let w = choose|w: int| 0 <= w < p@.len() && p@[w].0@ == name@ && forall|k: int| 0 <= k < w ==> p@[k].0@ != name@;
                assert(p@[i as int].0@ == name@);
                if w > i {
                    assert(p@[i as int].0@ != name@);
                }
            }
            return Some(i);
        }
        i += 1;
    }
    None
}

/// Whether `values` holds `v`.
fn contains_value(values: &Vec<String>, v: &String) -> (b: bool)
    ensures
        b == allows(values@, v@),
{
    let mut i: usize = 0;
    while i < values.len()
        invariant
            0 <= i <= values@.len(),
            forall|k: int| 0 <= k < i ==> values@[k]@ != v@,
        decreases values@.len() - i,
    {
        if values[i] == *v {
            return true;
        }
        i += 1;
    }
    false
}

impl StateBuilder {
    /// The block of the state being built.
    pub closed spec fn handle(&self) -> &'static Block {
        self.state.handle
    }

    /// The properties of the state being built.
    pub closed spec fn props(&self) -> Seq<(String, String)> {
        self.state.properties@
    }

    /// A builder starting from a copy of `base`.
    pub fn new(base: &BlockState) -> (r: Self)
        ensures
            r.handle() == base.handle,
            props_view(r.props()) == props_view(base.properties@),
    {
        StateBuilder { state: BlockState { handle: base.handle, properties: clone_props(&base.properties) } }
    }

    /// Sets the property `name` to `value`. Fails when the state has no such property, when the
    /// block does not know it, or when the block does not allow the value.
    pub fn with_property(self, name: &str, value: &str) -> (r: Result<Self, String>)
        requires
            self.handle().name.wf(),
        ensures
            match with_property_result(*self.handle(), self.props(), name@, value@) {
                Ok(p) => r matches Ok(b) && b.handle() == self.handle() && props_view(b.props()) == p,
                Err(m) => r matches Err(e) && e@ == m,
            },
    {
        let mut this = self;
        let key = String::from_str(name);
        let owned_value = String::from_str(value);
        let handle = this.state.handle;
        match search_key(&this.state.properties, &key) {
            Some(i) => match search_block_prop(&handle.properties, &key) {
                Some(j) => {
                    if !contains_value(&handle.properties[j].1, &owned_value) {
                        let mut e = String::from_str("Invalid property value for ");
                        e.append(name);
                        e.append(" in ");
                        e.append(handle.name.to_string().as_str());
                        e.append(": ");
                        e.append(value);
                        Err(e)
                    } else {
                        let ghost before = this.state.properties@;
                        let old_key = this.state.properties[i].0.clone();
                        this.state.properties.set(i, (old_key, owned_value));
                        assert(props_view(this.state.properties@) =~= props_view(before).update(
                            i as int,
                            (before[i as int].0@, value@),
                        ));
                        Ok(this)
                    }
                },
                None => {
                    let mut e = String::from_str("Encountered corrupted state while building ");
                    e.append(handle.name.to_string().as_str());
                    Err(e)
                },
            },
            None => {
                let mut e = String::from_str("Invalid property for ");
                e.append(handle.name.to_string().as_str());
                e.append(": ");
                e.append(name);
                Err(e)
            },
        }
    }

    /// Sets the property `name` to `value`, which must be allowed.
    pub fn with_property_unchecked(self, name: &str, value: &str) -> (r: Self)
        requires
            self.handle().name.wf(),
            with_property_result(*self.handle(), self.props(), name@, value@) is Ok,
        ensures
            r.handle() == self.handle(),
            props_view(r.props()) == with_property_result(
                *self.handle(),
                self.props(),
                name@,
                value@,
            )->Ok_0,
    {
        match self.with_property(name, value) {
            Ok(b) => b,
            Err(_) => vstd::pervasive::unreached(),
        }
    }

    /// The state built.
    pub fn build(self) -> (r: BlockState)
        ensures
            r.handle == self.handle(),
            r.properties@ == self.props(),
    {
        self.state
    }
}

/// Properties written `name=value`, separated by commas.
pub open spec fn props_text(p: Seq<(Seq<char>, Seq<char>)>) -> Seq<char>
    decreases p.len(),
{
    if p.len() == 0 {
        Seq::empty()
    } else if p.len() == 1 {
        p[0].0 + seq!['='] + p[0].1
    } else {
        props_text(p.drop_last()) + seq![','] + p.last().0 + seq!['='] + p.last().1
    }
}

/// The text of a state: its block's name, then its properties in brackets unless it has none.
pub open spec fn state_text(b: Block, p: Seq<(Seq<char>, Seq<char>)>) -> Seq<char> {
    if p.len() == 0 {
        block_label(b)
    } else {
        block_label(b) + seq!['['] + props_text(p) + seq![']']
    }
}

impl Block {
    /// The block's name written out in full.
    pub fn to_string(&self) -> (r: String)
        requires
            self.name.wf(),
        ensures
            r@ == block_label(*self),
    {
        self.name.to_string()
    }
}

impl BlockState {
    /// The state written as its block's name followed by `[name=value,...]` when it has
    /// properties.
    pub fn to_string(&self) -> (r: String)
        requires
            self.handle.name.wf(),
        ensures
            r@ == state_text(*self.handle, props_view(self.properties@)),
    {
        let mut r = self.handle.to_string();
        if self.properties.len() == 0 {
            return r;
        }
        let ghost p = props_view(self.properties@);
        proof {
            reveal_strlit("[");
            reveal_strlit("]");
            reveal_strlit(",");
            reveal_strlit("=");
        }
        let ghost label = r@;
        let open = "[";
        proof {
            assert(open@ =~= seq!['[']);
        }
        r.append(open);
        let mut i: usize = 0;
        while i < self.properties.len()
            invariant
                p == props_view(self.properties@),
                0 <= i <= self.properties@.len(),
                label == block_label(*self.handle),
                r@ == label + seq!['['] + props_text(p.take(i as int)),
            decreases self.properties@.len() - i,
        {
            let ghost before = r@;
            let comma = ",";
            let equals = "=";
            proof {
                reveal_strlit(",");
                reveal_strlit("=");
                assert(comma@ =~= seq![',']);
                assert(equals@ =~= seq!['=']);
            }
            if i > 0 {
                r.append(comma);
            }
            r.append(self.properties[i].0.as_str());
            r.append(equals);
            r.append(self.properties[i].1.as_str());
            proof {
                let entry = self.properties@[i as int].0@ + seq!['='] + self.properties@[i as int].1@;
                if i > 0 {
                    assert(r@ =~= before + seq![','] + entry);
                } else {
                    assert(r@ =~= before + entry);
                }
                assert(p.take(i + 1).drop_last() =~= p.take(i as int));
                assert(p.take(i + 1).last() == (self.properties@[i as int].0@, self.properties@[i as int].1@));
                if i == 0 {
                    assert(p.take(1)[0] == (self.properties@[0].0@, self.properties@[0].1@));
                }
            }
            i += 1;
        }
        let close = "]";
        proof {
            assert(close@ =~= seq![']']);
        }
        r.append(close);
        proof {
            assert(p.take(self.properties@.len() as int) =~= p);
        }
        r
    }
}

} // verus!
