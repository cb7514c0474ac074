use vstd::prelude::*;

verus! {

/// The kinds of tool.
#[derive(Clone, Copy, PartialEq, Eq, Structural, Debug)]
pub enum ToolType {
    Sword,
    Pickaxe,
    Shovel,
    Axe,
    Hoe,
}

/// The materials a tool is made of.
#[derive(Clone, Copy, PartialEq, Eq, Structural, Debug)]
pub enum ToolLevel {
    Wood,
    Stone,
    Iron,
    Gold,
    Diamond,
    Netherite,
}

/// How many uses a tool of each material lasts.
pub open spec fn tool_durability(level: ToolLevel) -> u32 {
    match level {
        ToolLevel::Wood => 59,
        ToolLevel::Gold => 32,
        ToolLevel::Stone => 131,
        ToolLevel::Iron => 250,
        ToolLevel::Diamond => 1561,
        ToolLevel::Netherite => 2031,
    }
}

impl ToolLevel {
    /// How many uses a tool of this material lasts.
    pub fn max_durability(&self) -> (r: u32)
        ensures
            r == tool_durability(*self),
    {
        match self {
            ToolLevel::Wood => 59,
            ToolLevel::Gold => 32,
            ToolLevel::Stone => 131,
            ToolLevel::Iron => 250,
            ToolLevel::Diamond => 1561,
            ToolLevel::Netherite => 2031,
        }
    }
}

/// The pieces of armor.
#[derive(Clone, Copy, PartialEq, Eq, Structural, Debug)]
pub enum ArmorType {
    Helmet,
    Chestplate,
    Leggings,
    Boots,
}

/// Items that are used up with use.
#[derive(Clone, Copy, PartialEq, Eq, Structural, Debug)]
pub enum UsableType {
    Shears,
    FishingRod,
    FlintAndSteel,
    Shield,
    CarrotStick,
    FungusStick,
}

/// Ranged weapons.
#[derive(Clone, Copy, PartialEq, Eq, Structural, Debug)]
pub enum RangedWeapon {
    Bow,
    Crossbow,
    Trident,
}

/// The extra data an item can carry, as far as whole numbers and flags go; the food's
/// saturation, a tool's attack damage and armor's toughness are kept beside it by the server.
#[derive(Clone, Copy, PartialEq, Eq, Structural, Debug)]
pub enum ItemInfo {
    FoodInfo { hunger: u32, meat: bool, eat_when_full: bool, snack: bool },
    ToolInfo { tool_type: ToolType, level: ToolLevel },
    ArmorInfo { armor_type: ArmorType, protection: u32, max_durability: u32 },
    UsableInfo { usable_type: UsableType, max_durability: u32 },
    RangedWeaponInfo { weapon_type: RangedWeapon, max_charge_time: u32, max_durability: u32 },
    ElytraInfo { max_durability: u32 },
}

/// How many uses an item with this extra data lasts; food does not wear.
pub open spec fn info_durability(info: ItemInfo) -> u32 {
    match info {
        ItemInfo::FoodInfo { .. } => 0,
        ItemInfo::ToolInfo { level, .. } => tool_durability(level),
        ItemInfo::ArmorInfo { max_durability, .. } => max_durability,
        ItemInfo::UsableInfo { max_durability, .. } => max_durability,
        ItemInfo::RangedWeaponInfo { max_durability, .. } => max_durability,
        ItemInfo::ElytraInfo { max_durability } => max_durability,
    }
}

impl ItemInfo {
    /// How many uses an item with this extra data lasts; food does not wear.
    pub fn max_durability(&self) -> (r: u32)
        ensures
            r == info_durability(*self),
    {
        match self {
            ItemInfo::FoodInfo { .. } => 0,
            ItemInfo::ToolInfo { level, .. } => level.max_durability(),
            ItemInfo::ArmorInfo { max_durability, .. } => *max_durability,
            ItemInfo::UsableInfo { max_durability, .. } => *max_durability,
            ItemInfo::RangedWeaponInfo { max_durability, .. } => *max_durability,
            ItemInfo::ElytraInfo { max_durability } => *max_durability,
        }
    }
}

} // verus!
