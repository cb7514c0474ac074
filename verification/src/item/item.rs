use vstd::prelude::*;
use crate::data::uln::UnlocalizedName;
use crate::nbt::tag::{NbtCompound, NbtTag, NbtView, compound_view, compound_set};
use crate::nbt::snbt::lemma_compound_set;
use crate::item::item_info::{ItemInfo, info_durability};
use crate::item::init::{ItemRegistry, name_splits, name_key, item_key};

verus! {

/// A kind of item: its name, how many fit in a stack, its rarity, and its extra data.
#[derive(Clone, Copy, Debug)]
pub struct Item {
    pub id: UnlocalizedName<'static>,
    pub stack_size: u8,
    pub rarity: u8,
    pub item_info: Option<ItemInfo>,
}

/// A stack of items: which item, how many, how worn, and extra data.
pub struct ItemStack {
    pub item: UnlocalizedName<'static>,
    pub count: u8,
    pub damage: u32,
    pub nbt: NbtCompound,
}

/// Whether `s` is the stack that fills an empty slot: no air, unworn, without extra data.
pub open spec fn is_blank(s: ItemStack) -> bool {
    &&& s.item.spec_namespace() == "minecraft"@
    &&& s.item.spec_name() == "air"@
    &&& s.count == 0
    &&& s.damage == 0
    &&& s.nbt.0@.len() == 0
}

/// The entries `write_nbt` leaves in a compound holding `c`: the count and the damage as
/// bytes, the item's name as text, and the extra data as a compound.
pub open spec fn stack_entries(c: Seq<(Seq<char>, NbtView)>, s: ItemStack) -> Seq<(Seq<char>, NbtView)> {
    compound_set(
        compound_set(
            compound_set(
                compound_set(c, "Count"@, NbtView::Byte(s.count as i8)),
                "Damage"@,
                NbtView::Byte(s.damage as i8),
            ),
            "id"@,
            NbtView::Str(s.item.spec_namespace() + seq![':'] + s.item.spec_name()),
        ),
        "tag"@,
        NbtView::Compound(compound_view(s.nbt.0@)),
    )
}

impl ItemStack {
    /// The stack that fills an empty slot: no air.
    pub fn empty() -> (r: Self)
        ensures
            is_blank(r),
            r.nbt.wf(),
    {
        ItemStack { item: UnlocalizedName::minecraft("air"), count: 0, damage: 0, nbt: NbtCompound::new() }
    }

    /// A stack of one `item`, unworn: its damage starts at the durability of the item's extra
    /// data, or zero for an item without any.
    pub fn new(item: &Item) -> (r: Self)
        ensures
            r.item == item.id,
            r.count == 1,
            r.damage == match item.item_info {
                Some(info) => info_durability(info),
                None => 0,
            },
            r.nbt.0@.len() == 0,
            r.nbt.wf(),
    {
        let damage = match &item.item_info {
            Some(info) => info.max_durability(),
            None => 0,
        };
        ItemStack { item: item.id, count: 1, damage, nbt: NbtCompound::new() }
    }

    /// Whether the stack holds nothing: a count of zero, or air.
    pub fn is_empty(&self) -> (b: bool)
        ensures
            b == (self.count == 0 || (self.item.spec_namespace() == "minecraft"@
                && self.item.spec_name() == "air"@)),
    {
        let air = UnlocalizedName::minecraft("air");
        self.count == 0 || self.item.same_as(&air)
    }

    /// Writes the stack into `tag`: `Count` and `Damage` as bytes (truncated), `id` as the
    /// item's name, and `tag` as a copy of the extra data.
    pub fn write_nbt(&self, tag: &mut NbtCompound)
        requires
            old(tag).wf(),
        ensures
            final(tag).wf(),
            compound_view(final(tag).0@) == stack_entries(compound_view(old(tag).0@), *self),
    {
        let ghost c0 = tag.0@;
        let k1 = String::from_str("Count");
        let v1 = NbtTag::Byte(self.count as i8);
        let ghost (gk1, gv1) = (k1, v1);
        tag.set(k1, v1);
        let ghost c1 = tag.0@;
        proof {
            reveal_strlit("Count");
            lemma_compound_set(c0, c1, gk1, gv1);
        }
        let k2 = String::from_str("Damage");
        let v2 = NbtTag::Byte(self.damage as i8);
        let ghost (gk2, gv2) = (k2, v2);
        tag.set(k2, v2);
        let ghost c2 = tag.0@;
        proof {
            reveal_strlit("Damage");
            lemma_compound_set(c1, c2, gk2, gv2);
        }
        let k3 = String::from_str("id");
        let v3 = NbtTag::StringModUtf8(self.item.to_string());
        let ghost (gk3, gv3) = (k3, v3);
        tag.set(k3, v3);
        let ghost c3 = tag.0@;
        proof {
            reveal_strlit("id");
            lemma_compound_set(c2, c3, gk3, gv3);
        }
        let k4 = String::from_str("tag");
        let v4 = NbtTag::Compound(self.nbt.deep_clone());
        let ghost (gk4, gv4) = (k4, v4);
        tag.set(k4, v4);
        proof {
            reveal_strlit("tag");
            lemma_compound_set(c3, tag.0@, gk4, gv4);
        }
    }
}

/// The first tag named `name` among the entries `s`.
pub open spec fn first_named(s: Seq<(String, NbtTag)>, name: Seq<char>) -> Option<NbtTag>
    decreases s.len(),
{
    if s.len() == 0 {
        None
    } else if s[0].0@ == name {
        Some(s[0].1)
    } else {
        first_named(s.drop_first(), name)
    }
}

/// The first tag named `name` in `c`.
pub(crate) fn find_first<'a>(c: &'a NbtCompound, name: &str) -> (r: Option<&'a NbtTag>)
    ensures
        r matches Some(t) ==> first_named(c.0@, name@) == Some(*t),
        r is None ==> first_named(c.0@, name@) is None,
{
    let key = String::from_str(name);
    let mut i: usize = 0;
    assert(c.0@.skip(0) =~= c.0@);
    while i < c.0.len()
        invariant
            0 <= i <= c.0@.len(),
            key@ == name@,
            first_named(c.0@, name@) == first_named(c.0@.skip(i as int), name@),
        decreases c.0@.len() - i,
    {
        assert(c.0@.skip(i as int).drop_first() =~= c.0@.skip(i + 1));
        if c.0[i].0 == key {
            return Some(&c.0[i].1);
        }
        i += 1;
    }
    None
}

/// The extra data a stack's compound carries under `tag`, or none.
pub open spec fn stack_tag(nbt: NbtCompound) -> Seq<(String, NbtTag)> {
    match first_named(nbt.0@, "tag"@) {
        Some(NbtTag::Compound(c)) => c.0@,
        _ => Seq::empty(),
    }
}

/// The damage the extra data records as the integer `Damage`, or zero.
pub open spec fn stack_damage(tag: Seq<(String, NbtTag)>) -> u32 {
    match first_named(tag, "Damage"@) {
        Some(NbtTag::Int(v)) => v as u32,
        _ => 0,
    }
}

/// The item name a stack's compound gives as the string `id`, or the empty text.
pub open spec fn stack_id(nbt: NbtCompound) -> Seq<char> {
    match first_named(nbt.0@, "id"@) {
        Some(NbtTag::StringModUtf8(v)) => v@,
        _ => Seq::empty(),
    }
}

/// The count a stack's compound gives as the byte `Count`, or zero.
pub open spec fn stack_count(nbt: NbtCompound) -> u8 {
    match first_named(nbt.0@, "Count"@) {
        Some(NbtTag::Byte(v)) => v as u8,
        _ => 0,
    }
}

impl ItemStack {
    /// Reads a stack from its compound: the item named by `id`, looked up in `items`, the
    /// count from the byte `Count`, and a copy of the compound `tag` as the extra data, whose
    /// integer `Damage` gives the damage. `None` when `id` is no item name or names no
    /// registered item.
    pub fn from_nbt(nbt: &NbtCompound, items: &ItemRegistry) -> (r: Option<ItemStack>)
        requires
            items.wf(),
        ensures
            r is Some <==> name_splits(stack_id(*nbt)) && items.holds(name_key(stack_id(*nbt))),
            r matches Some(s) ==> {
                &&& (s.item.spec_namespace(), s.item.spec_name()) == name_key(stack_id(*nbt))
                &&& s.count == stack_count(*nbt)
                &&& s.damage == stack_damage(stack_tag(*nbt))
                &&& compound_view(s.nbt.0@) == compound_view(stack_tag(*nbt))
            },
    {
        proof {
            reveal_strlit("");
        }
        let tag = match find_first(nbt, "tag") {
            Some(NbtTag::Compound(c)) => c.deep_clone(),
            _ => NbtCompound::new(),
        };
        assert(compound_view(tag.0@) == compound_view(stack_tag(*nbt)));
        let damage: u32 = match find_first(&tag, "Damage") {
            Some(NbtTag::Int(v)) => *v as u32,
            _ => 0,
        };
        proof {
            lemma_first_named_view(tag.0@, stack_tag(*nbt), "Damage"@);
        }
        let id_text: &str = match find_first(nbt, "id") {
            Some(NbtTag::StringModUtf8(v)) => v.as_str(),
            _ => "",
        };
        let count: u8 = match find_first(nbt, "Count") {
            Some(NbtTag::Byte(v)) => *v as u8,
            _ => 0,
        };
        let name = match UnlocalizedName::parse(id_text) {
            Ok(name) => name,
            Err(_) => return None,
        };
        match items.get(&name) {
            Some(item) => Some(ItemStack { item: item.id, count, damage, nbt: tag }),
            None => None,
        }
    }
}

/// Two entry lists with the same contents find the same first integer under a name.
proof fn lemma_first_named_view(a: Seq<(String, NbtTag)>, b: Seq<(String, NbtTag)>, name: Seq<char>)
    requires
        compound_view(a) == compound_view(b),
    ensures
        match (first_named(a, name), first_named(b, name)) {
            (Some(NbtTag::Int(x)), Some(NbtTag::Int(y))) => x == y,
            (Some(NbtTag::Int(_)), _) => false,
            (_, Some(NbtTag::Int(_))) => false,
            _ => true,
        },
    decreases a.len(),
{
    assert(compound_view(a).len() == a.len() && compound_view(b).len() == b.len());
    if a.len() > 0 {
        assert(compound_view(a)[0] == compound_view(b)[0]);
        assert(compound_view(a.drop_first()) =~= compound_view(a).drop_first());
        assert(compound_view(b.drop_first()) =~= compound_view(b).drop_first());
        lemma_first_named_view(a.drop_first(), b.drop_first(), name);
    }
}

} // verus!
