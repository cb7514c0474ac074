use vstd::prelude::*;
use crate::data::uln::UnlocalizedName;
use crate::qutil::uln::first_colon;
use crate::item::item::Item;
use crate::item::item_info::{ArmorType, ItemInfo, RangedWeapon, ToolLevel, ToolType, UsableType};

verus! {

/// The extra data of an item as the item list writes it: kinds by their snake-case names.
pub enum RawItemInfo {
    RawFoodInfo { hunger: u32, meat: bool, eat_when_full: bool, snack: bool },
    RawToolInfo { tool_type: String, level: String },
    RawArmorInfo { armor_type: String, protection: u32, max_durability: u32 },
    RawUsableInfo { usable_type: String, max_durability: u32 },
    RawRangedWeaponInfo { weapon_type: String, max_charge_time: u32, max_durability: u32 },
    ElytraInfo { max_durability: u32 },
}

/// An entry of the item list.
pub struct RawItemData {
    pub stack_size: u8,
    pub rarity: u8,
    pub info: Option<RawItemInfo>,
}

/// The tool kind named `s`.
pub open spec fn tool_type_named(s: Seq<char>) -> Option<ToolType> {
    if s == "sword"@ {
        Some(ToolType::Sword)
    } else if s == "pickaxe"@ {
        Some(ToolType::Pickaxe)
    } else if s == "shovel"@ {
        Some(ToolType::Shovel)
    } else if s == "axe"@ {
        Some(ToolType::Axe)
    } else if s == "hoe"@ {
        Some(ToolType::Hoe)
    } else {
        None
    }
}

/// The tool material named `s`.
pub open spec fn tool_level_named(s: Seq<char>) -> Option<ToolLevel> {
    if s == "wood"@ {
        Some(ToolLevel::Wood)
    } else if s == "stone"@ {
        Some(ToolLevel::Stone)
    } else if s == "iron"@ {
        Some(ToolLevel::Iron)
    } else if s == "gold"@ {
        Some(ToolLevel::Gold)
    } else if s == "diamond"@ {
        Some(ToolLevel::Diamond)
    } else if s == "netherite"@ {
        Some(ToolLevel::Netherite)
    } else {
        None
    }
}

/// The piece of armor named `s`.
pub open spec fn armor_type_named(s: Seq<char>) -> Option<ArmorType> {
    if s == "helmet"@ {
        Some(ArmorType::Helmet)
    } else if s == "chestplate"@ {
        Some(ArmorType::Chestplate)
    } else if s == "leggings"@ {
        Some(ArmorType::Leggings)
    } else if s == "boots"@ {
        Some(ArmorType::Boots)
    } else {
        None
    }
}

/// The usable item named `s`.
pub open spec fn usable_type_named(s: Seq<char>) -> Option<UsableType> {
    if s == "shears"@ {
        Some(UsableType::Shears)
    } else if s == "fishing_rod"@ {
        Some(UsableType::FishingRod)
    } else if s == "flint_and_steel"@ {
        Some(UsableType::FlintAndSteel)
    } else if s == "shield"@ {
        Some(UsableType::Shield)
    } else if s == "carrot_stick"@ {
        Some(UsableType::CarrotStick)
    } else if s == "fungus_stick"@ {
        Some(UsableType::FungusStick)
    } else {
        None
    }
}

/// The ranged weapon named `s`.
pub open spec fn ranged_weapon_named(s: Seq<char>) -> Option<RangedWeapon> {
    if s == "bow"@ {
        Some(RangedWeapon::Bow)
    } else if s == "crossbow"@ {
        Some(RangedWeapon::Crossbow)
    } else if s == "trident"@ {
        Some(RangedWeapon::Trident)
    } else {
        None
    }
}

/// The extra data `r` describes, or `None` when it names a kind that does not exist.
pub open spec fn raw_info(r: RawItemInfo) -> Option<ItemInfo> {
    match r {
        RawItemInfo::RawFoodInfo { hunger, meat, eat_when_full, snack } => Some(
            ItemInfo::FoodInfo { hunger, meat, eat_when_full, snack },
        ),
        RawItemInfo::RawToolInfo { tool_type, level } => match (
            tool_type_named(tool_type@),
            tool_level_named(level@),
        ) {
            (Some(t), Some(l)) => Some(ItemInfo::ToolInfo { tool_type: t, level: l }),
            _ => None,
        },
        RawItemInfo::RawArmorInfo { armor_type, protection, max_durability } => match armor_type_named(
            armor_type@,
        ) {
            Some(a) => Some(ItemInfo::ArmorInfo { armor_type: a, protection, max_durability }),
            None => None,
        },
        RawItemInfo::RawUsableInfo { usable_type, max_durability } => match usable_type_named(
            usable_type@,
        ) {
            Some(u) => Some(ItemInfo::UsableInfo { usable_type: u, max_durability }),
            None => None,
        },
        RawItemInfo::RawRangedWeaponInfo { weapon_type, max_charge_time, max_durability } => match ranged_weapon_named(
            weapon_type@,
        ) {
            Some(w) => Some(
                ItemInfo::RangedWeaponInfo { weapon_type: w, max_charge_time, max_durability },
            ),
            None => None,
        },
        RawItemInfo::ElytraInfo { max_durability } => Some(ItemInfo::ElytraInfo { max_durability }),
    }
}

/// Whether `s` reads `lit`.
fn reads(s: &String, lit: &str) -> (b: bool)
    ensures
        b == (s@ == lit@),
{
    let l = String::from_str(lit);
    *s == l
}

fn tool_type_of(s: &String) -> (r: Option<ToolType>)
    ensures
        r == tool_type_named(s@),
{
    if reads(s, "sword") {
        Some(ToolType::Sword)
    } else if reads(s, "pickaxe") {
        Some(ToolType::Pickaxe)
    } else if reads(s, "shovel") {
        Some(ToolType::Shovel)
    } else if reads(s, "axe") {
        Some(ToolType::Axe)
    } else if reads(s, "hoe") {
        Some(ToolType::Hoe)
    } else {
        None
    }
}

fn tool_level_of(s: &String) -> (r: Option<ToolLevel>)
    ensures
        r == tool_level_named(s@),
{
    if reads(s, "wood") {
        Some(ToolLevel::Wood)
    } else if reads(s, "stone") {
        Some(ToolLevel::Stone)
    } else if reads(s, "iron") {
        Some(ToolLevel::Iron)
    } else if reads(s, "gold") {
        Some(ToolLevel::Gold)
    } else if reads(s, "diamond") {
        Some(ToolLevel::Diamond)
    } else if reads(s, "netherite") {
        Some(ToolLevel::Netherite)
    } else {
        None
    }
}

fn armor_type_of(s: &String) -> (r: Option<ArmorType>)
    ensures
        r == armor_type_named(s@),
{
    if reads(s, "helmet") {
        Some(ArmorType::Helmet)
    } else if reads(s, "chestplate") {
        Some(ArmorType::Chestplate)
    } else if reads(s, "leggings") {
        Some(ArmorType::Leggings)
    } else if reads(s, "boots") {
        Some(ArmorType::Boots)
    } else {
        None
    }
}

fn usable_type_of(s: &String) -> (r: Option<UsableType>)
    ensures
        r == usable_type_named(s@),
{
    if reads(s, "shears") {
        Some(UsableType::Shears)
    } else if reads(s, "fishing_rod") {
        Some(UsableType::FishingRod)
    } else if reads(s, "flint_and_steel") {
        Some(UsableType::FlintAndSteel)
    } else if reads(s, "shield") {
        Some(UsableType::Shield)
    } else if reads(s, "carrot_stick") {
        Some(UsableType::CarrotStick)
    } else if reads(s, "fungus_stick") {
        Some(UsableType::FungusStick)
    } else {
        None
    }
}

fn ranged_weapon_of(s: &String) -> (r: Option<RangedWeapon>)
    ensures
        r == ranged_weapon_named(s@),
{
    if reads(s, "bow") {
        Some(RangedWeapon::Bow)
    } else if reads(s, "crossbow") {
        Some(RangedWeapon::Crossbow)
    } else if reads(s, "trident") {
        Some(RangedWeapon::Trident)
    } else {
        None
    }
}

/// The extra data `r` describes, or `None` when it names a kind that does not exist.
pub fn info_from_raw(r: &RawItemInfo) -> (i: Option<ItemInfo>)
    ensures
        i == raw_info(*r),
{
    match r {
        RawItemInfo::RawFoodInfo { hunger, meat, eat_when_full, snack } => Some(
            ItemInfo::FoodInfo { hunger: *hunger, meat: *meat, eat_when_full: *eat_when_full, snack: *snack },
        ),
        RawItemInfo::RawToolInfo { tool_type, level } => match (tool_type_of(tool_type), tool_level_of(level)) {
            (Some(t), Some(l)) => Some(ItemInfo::ToolInfo { tool_type: t, level: l }),
            _ => None,
        },
        RawItemInfo::RawArmorInfo { armor_type, protection, max_durability } => match armor_type_of(armor_type) {
            Some(a) => Some(
                ItemInfo::ArmorInfo { armor_type: a, protection: *protection, max_durability: *max_durability },
            ),
            None => None,
        },
        RawItemInfo::RawUsableInfo { usable_type, max_durability } => match usable_type_of(usable_type) {
            Some(u) => Some(ItemInfo::UsableInfo { usable_type: u, max_durability: *max_durability }),
            None => None,
        },
        RawItemInfo::RawRangedWeaponInfo { weapon_type, max_charge_time, max_durability } => match ranged_weapon_of(
            weapon_type,
        ) {
            Some(w) => Some(
                ItemInfo::RangedWeaponInfo {
                    weapon_type: w,
                    max_charge_time: *max_charge_time,
                    max_durability: *max_durability,
                },
            ),
            None => None,
        },
        RawItemInfo::ElytraInfo { max_durability } => Some(
            ItemInfo::ElytraInfo { max_durability: *max_durability },
        ),
    }
}

/// Whether `name` splits at its first colon into a non-empty namespace and name.
pub open spec fn name_splits(name: Seq<char>) -> bool {
    first_colon(name) matches Some(k) && k != 0 && k != name.len() - 1
}

/// The namespace and name of an item called `name`, when it splits.
pub open spec fn name_key(name: Seq<char>) -> (Seq<char>, Seq<char>) {
    let k = first_colon(name)->0;
    (name.take(k as int), name.skip(k as int + 1))
}

/// Why the entry `name` with data `raw` cannot become an item, if it cannot: its name does
/// not split, its stack size is zero, or its extra data names a kind that does not exist.
pub open spec fn item_error(name: Seq<char>, raw: RawItemData) -> Option<Seq<char>> {
    if !name_splits(name) {
        Some("Invalid item name in items.json"@)
    } else if raw.stack_size == 0 {
        Some("Item has max stack size of 0, "@ + name)
    } else if raw.info matches Some(i) && raw_info(i) is None {
        Some("Invalid item info for "@ + name)
    } else {
        None
    }
}

/// Whether `item` is what the entry `name` with data `raw` becomes.
pub open spec fn converted(item: Item, name: Seq<char>, raw: RawItemData) -> bool {
    &&& (item.id.spec_namespace(), item.id.spec_name()) == name_key(name)
    &&& item.stack_size == raw.stack_size
    &&& item.rarity == raw.rarity
    &&& item.item_info == match raw.info {
        Some(i) => raw_info(i),
        None => None,
    }
}

/// The item an entry of the item list describes, or why it describes none.
pub fn item_from_raw(name: &'static str, raw: &RawItemData) -> (r: Result<Item, String>)
    ensures
        item_error(name@, *raw) matches Some(m) ==> (r matches Err(e) && e@ == m),
        item_error(name@, *raw) is None ==> (r matches Ok(item) && converted(item, name@, *raw)),
{
    let id = match UnlocalizedName::parse(name) {
        Ok(id) => id,
        Err(_) => {
            proof {
                reveal_strlit("Invalid item name in items.json");
            }
            return Err(String::from_str("Invalid item name in items.json"));
        },
    };
    if raw.stack_size == 0 {
        let mut e = String::from_str("Item has max stack size of 0, ");
        e.append(name);
        return Err(e);
    }
    let item_info = match &raw.info {
        Some(i) => match info_from_raw(i) {
            Some(info) => Some(info),
            None => {
                let mut e = String::from_str("Invalid item info for ");
                e.append(name);
                return Err(e);
            },
        },
        None => None,
    };
    Ok(Item { id, stack_size: raw.stack_size, rarity: raw.rarity, item_info })
}

/// The key of an item: its namespace and name.
pub open spec fn item_key(item: Item) -> (Seq<char>, Seq<char>) {
    (item.id.spec_namespace(), item.id.spec_name())
}

/// The known items, each name once.
pub struct ItemRegistry {
    items: Vec<Item>,
}

impl ItemRegistry {
    /// The items, in the order they were first registered.
    pub closed spec fn items(&self) -> Seq<Item> {
        self.items@
    }

    /// No two items share a key.
    pub closed spec fn wf(&self) -> bool {
        forall|i: int, j: int|
            0 <= i < j < self.items@.len() ==> item_key(self.items@[i]) != item_key(self.items@[j])
    }

    /// Whether an item with key `k` is registered.
    pub open spec fn holds(&self, k: (Seq<char>, Seq<char>)) -> bool {
        exists|i: int| 0 <= i < self.items().len() && item_key(self.items()[i]) == k
    }

    /// An empty registry.
    pub fn new() -> (r: Self)
        ensures
            r.wf(),
            r.items() == Seq::<Item>::empty(),
    {
        ItemRegistry { items: Vec::new() }
    }

    /// The number of registered items.
    pub fn len(&self) -> (n: usize)
        ensures
            n == self.items().len(),
    {
        self.items.len()
    }

    /// The position of the item with the key of `name`.
    fn position(&self, name: &UnlocalizedName) -> (r: Option<usize>)
        requires
            self.wf(),
        ensures
            r matches Some(i) ==> i < self.items().len() && item_key(self.items()[i as int]) == (
                name.spec_namespace(),
                name.spec_name(),
            ),
            r is None ==> !self.holds((name.spec_namespace(), name.spec_name())),
    {
        let mut i: usize = 0;
        while i < self.items.len()
            invariant
                0 <= i <= self.items@.len(),
                forall|j: int|
                    0 <= j < i ==> item_key(self.items@[j]) != (name.spec_namespace(), name.spec_name()),
            decreases self.items@.len() - i,
        {
            if self.items[i].id.same_as(name) {
                return Some(i);
            }
            i += 1;
        }
        None
    }

    /// Registers `item`, in place of the item with the same name if there is one.
    pub fn insert(&mut self, item: Item)
        requires
            old(self).wf(),
        ensures
            final(self).wf(),
            forall|j: int|
                0 <= j < old(self).items().len() && item_key(old(self).items()[j]) == item_key(item)
                    ==> final(self).items() == old(self).items().update(j, item),
            !old(self).holds(item_key(item)) ==> final(self).items() == old(self).items().push(item),
    {
        match self.position(&item.id) {
            Some(i) => {
                self.items.set(i, item);
            },
            None => {
                self.items.push(item);
            },
        }
    }

    /// The item called `name`, if it is registered.
    pub fn get(&self, name: &UnlocalizedName) -> (r: Option<&Item>)
        requires
            self.wf(),
        ensures
            r is Some <==> self.holds((name.spec_namespace(), name.spec_name())),
            r matches Some(x) ==> exists|i: int|
                0 <= i < self.items().len() && self.items()[i] == *x && item_key(*x) == (
                    name.spec_namespace(),
                    name.spec_name(),
                ),
    {
        match self.position(name) {
            Some(i) => Some(&self.items[i]),
            None => None,
        }
    }
}

/// Whether every entry of `e` before `n` can become an item.
pub open spec fn all_convert(e: Seq<(&'static str, RawItemData)>, n: int) -> bool {
    forall|i: int| 0 <= i < n ==> #[trigger] item_error(e[i].0@, e[i].1) is None
}

/// Whether no entry of `e` after `i` and before `n` has the key of entry `i`.
pub open spec fn last_of_key(e: Seq<(&'static str, RawItemData)>, i: int, n: int) -> bool {
    forall|j: int| i < j < n ==> name_key(#[trigger] e[j].0@) != name_key(e[i].0@)
}

/// Whether `reg` holds what the entries of `e` before `n` give: an item for each of their
/// keys, the one of the last entry with that key, and nothing else.
pub open spec fn registers(reg: ItemRegistry, e: Seq<(&'static str, RawItemData)>, n: int) -> bool {
    &&& reg.wf()
    &&& forall|i: int| 0 <= i < n ==> reg.holds(name_key(#[trigger] e[i].0@))
    &&& forall|i: int|
        0 <= i < n && #[trigger] last_of_key(e, i, n) ==> exists|k: int|
            0 <= k < reg.items().len() && #[trigger] converted(reg.items()[k], e[i].0@, e[i].1)
    &&& forall|k: int|
        0 <= k < reg.items().len() ==> exists|i: int|
            0 <= i < n && converted(#[trigger] reg.items()[k], e[i].0@, e[i].1)
}

/// Builds the registry from the entries of the item list, a later entry replacing an earlier
/// one with the same name; the first entry that cannot become an item gives the error.
pub fn init_items(entries: &Vec<(&'static str, RawItemData)>) -> (r: Result<ItemRegistry, String>)
    ensures
        r is Ok <==> all_convert(entries@, entries@.len() as int),
        r matches Err(e) ==> exists|i: int|
            0 <= i < entries@.len() && item_error(entries@[i].0@, entries@[i].1) == Some(e@)
                && all_convert(entries@, i),
        r matches Ok(reg) ==> registers(reg, entries@, entries@.len() as int),
{
    let mut reg = ItemRegistry::new();
    let mut n: usize = 0;
    while n < entries.len()
        invariant
            0 <= n <= entries@.len(),
            all_convert(entries@, n as int),
            registers(reg, entries@, n as int),
        decreases entries@.len() - n,
    {
        let item = match item_from_raw(entries[n].0, &entries[n].1) {
            Ok(item) => item,
            Err(e) => {
                return Err(e);
            },
        };
        let ghost before = reg;
        let ghost e = entries@;
        reg.insert(item);
        proof {
            let ni = n as int;
            let bl = before.items().len() as int;
            assert(item_key(item) == name_key(e[ni].0@));
            let j0: int = if before.holds(item_key(item)) {
                choose|j: int| 0 <= j < bl && item_key(before.items()[j]) == item_key(item)
            } else {
                bl
            };
            if before.holds(item_key(item)) {
                assert(reg.items() == before.items().update(j0, item));
            } else {
                assert(reg.items() == before.items().push(item));
            }
            assert(reg.items()[j0] == item);
            assert(reg.items().len() == if j0 < bl { bl } else { bl + 1 });
            assert forall|k: int| 0 <= k < bl && k != j0 implies reg.items()[k] == before.items()[k]
                && item_key(before.items()[k]) != item_key(item) by {
                if before.holds(item_key(item)) {
                    if k < j0 {
                        assert(item_key(before.items()[k]) != item_key(before.items()[j0]));
                    } else {
                        assert(item_key(before.items()[j0]) != item_key(before.items()[k]));
                    }
                }
            }
            assert forall|i: int| 0 <= i < ni + 1 implies reg.holds(name_key(#[trigger] e[i].0@)) by {
                if i == ni {
                    assert(item_key(reg.items()[j0]) == name_key(e[i].0@));
                } else {
                    assert(before.holds(name_key(e[i].0@)));
                    let j = choose|j: int| 0 <= j < bl && item_key(before.items()[j]) == name_key(e[i].0@);
                    if j == j0 {
                        assert(item_key(reg.items()[j0]) == name_key(e[i].0@));
                    } else {
                        assert(item_key(reg.items()[j]) == name_key(e[i].0@));
                    }
                }
            }
            assert forall|i: int| 0 <= i < ni + 1 && #[trigger] last_of_key(e, i, ni + 1) implies exists|k: int|
                0 <= k < reg.items().len() && #[trigger] converted(reg.items()[k], e[i].0@, e[i].1) by {
                if i == ni {
                    assert(converted(reg.items()[j0], e[i].0@, e[i].1));
                } else {
                    assert(last_of_key(e, i, ni));
                    assert(name_key(e[ni].0@) != name_key(e[i].0@));
                    let k = choose|k: int| 0 <= k < bl && converted(before.items()[k], e[i].0@, e[i].1);
                    assert(item_key(before.items()[k]) == name_key(e[i].0@));
                    assert(k != j0);
                    assert(converted(reg.items()[k], e[i].0@, e[i].1));
                }
            }
            assert forall|k: int| 0 <= k < reg.items().len() implies exists|i: int|
                0 <= i < ni + 1 && converted(#[trigger] reg.items()[k], e[i].0@, e[i].1) by {
                if k == j0 {
                    assert(converted(reg.items()[k], e[ni].0@, e[ni].1));
                } else {
                    assert(reg.items()[k] == before.items()[k]);
                    let i = choose|i: int| 0 <= i < ni && converted(before.items()[k], e[i].0@, e[i].1);
                    assert(converted(reg.items()[k], e[i].0@, e[i].1));
                }
            }
        }
        n += 1;
    }
    Ok(reg)
}

} // verus!
