use quartz::data::uln::UnlocalizedName;
use quartz::item::inventory::Inventory;
use quartz::item::init::{init_items, item_from_raw, ItemRegistry, RawItemData, RawItemInfo};
use quartz::item::item::{Item, ItemStack};
use quartz::item::item_info::{ItemInfo, ToolLevel, ToolType};
use quartz::nbt::tag::{NbtCompound, NbtTag};

fn stone() -> Item {
    Item { id: UnlocalizedName::minecraft("stone"), stack_size: 64, rarity: 0, item_info: None }
}

fn pickaxe() -> Item {
    Item {
        id: UnlocalizedName::minecraft("iron_pickaxe"),
        stack_size: 1,
        rarity: 0,
        item_info: Some(ItemInfo::ToolInfo { tool_type: ToolType::Pickaxe, level: ToolLevel::Iron }),
    }
}

#[test]
fn item_stacks() {
    let empty = ItemStack::empty();
    assert!(empty.is_empty());
    assert_eq!(empty.item.to_string(), "minecraft:air");
    let s = ItemStack::new(&stone());
    assert_eq!(s.count, 1);
    assert_eq!(s.damage, 0);
    assert!(!s.is_empty());
    let p = ItemStack::new(&pickaxe());
    assert_eq!(p.damage, 250);
    let mut none = ItemStack::new(&stone());
    none.count = 0;
    assert!(none.is_empty());
}

#[test]
fn item_stack_writes_nbt() {
    let mut p = ItemStack::new(&pickaxe());
    p.nbt.set_byte("Unbreakable".to_string(), 1);
    let mut tag = NbtCompound::new();
    p.write_nbt(&mut tag);
    assert_eq!(tag.keys(), vec!["Count", "Damage", "id", "tag"]);
    assert_eq!(tag.get_byte("Count"), 1);
    assert_eq!(tag.get_byte("Damage"), 250u32 as i8);
    assert_eq!(tag.get_string("id"), "minecraft:iron_pickaxe");
    match tag.get("tag") {
        Some(NbtTag::Compound(c)) => assert_eq!(c.get_byte("Unbreakable"), 1),
        _ => panic!("missing extra data"),
    }
}

#[test]
fn inventory_slots() {
    let mut inv = Inventory::new(3);
    assert!(inv.can_insert(2));
    assert!(!inv.can_insert(3));
    assert!(inv.get(0).is_empty());
    let old = inv.insert(1, ItemStack::new(&stone()));
    assert!(old.is_empty());
    inv.increment(1);
    assert_eq!(inv.get(1).count, 2);
    assert_eq!(inv.get(1).item.to_string(), "minecraft:stone");
    let back = inv.insert(1, ItemStack::empty());
    assert_eq!(back.count, 2);
    assert!(inv.get(1).is_empty());
}

#[test]
fn inventory_writes_items_list() {
    let mut inv = Inventory::new(2);
    inv.insert(1, ItemStack::new(&stone()));
    let mut tag = NbtCompound::new();
    inv.write_tag(&mut tag);
    assert_eq!(tag.keys(), vec!["Items"]);
    match tag.get("Items") {
        Some(NbtTag::List(l)) => {
            assert_eq!(l.len(), 2);
            match l.get(1) {
                NbtTag::Compound(c) => {
                    assert_eq!(c.keys(), vec!["Slot", "Count", "Damage", "id", "tag"]);
                    assert_eq!(c.get_byte("Slot"), 1);
                    assert_eq!(c.get_string("id"), "minecraft:stone");
                },
                _ => panic!("slot is not a compound"),
            }
        },
        _ => panic!("missing item list"),
    }
}

fn tool(kind: &str, level: &str) -> RawItemData {
    RawItemData {
        stack_size: 1,
        rarity: 0,
        info: Some(RawItemInfo::RawToolInfo { tool_type: kind.to_string(), level: level.to_string() }),
    }
}

#[test]
fn items_from_raw_entries() {
    let item = item_from_raw("minecraft:diamond_sword", &tool("sword", "diamond")).unwrap();
    assert_eq!(item.id.to_string(), "minecraft:diamond_sword");
    assert_eq!(item.stack_size, 1);
    assert_eq!(item.item_info, Some(ItemInfo::ToolInfo { tool_type: ToolType::Sword, level: ToolLevel::Diamond }));
    assert_eq!(ItemStack::new(&item).damage, 1561);
    assert_eq!(item_from_raw("diamond_sword", &tool("sword", "diamond")).err().unwrap(), "Invalid item name in items.json");
    let empty = RawItemData { stack_size: 0, rarity: 0, info: None };
    assert_eq!(item_from_raw("minecraft:air", &empty).err().unwrap(), "Item has max stack size of 0, minecraft:air");
    assert_eq!(
        item_from_raw("minecraft:stick", &tool("wand", "wood")).err().unwrap(),
        "Invalid item info for minecraft:stick"
    );
    let elytra = RawItemData { stack_size: 1, rarity: 2, info: Some(RawItemInfo::ElytraInfo { max_durability: 432 }) };
    assert_eq!(ItemStack::new(&item_from_raw("minecraft:elytra", &elytra).unwrap()).damage, 432);
}

#[test]
fn item_registry_lookups() {
    let entries: Vec<(&'static str, RawItemData)> = vec![
        ("minecraft:stone", RawItemData { stack_size: 64, rarity: 0, info: None }),
        ("minecraft:iron_pickaxe", tool("pickaxe", "iron")),
        ("minecraft:stone", RawItemData { stack_size: 16, rarity: 1, info: None }),
    ];
    let reg: ItemRegistry = init_items(&entries).ok().unwrap();
    assert_eq!(reg.len(), 2);
    assert_eq!(reg.get(&UnlocalizedName::minecraft("stone")).unwrap().stack_size, 16);
    assert_eq!(reg.get(&UnlocalizedName::minecraft("iron_pickaxe")).unwrap().rarity, 0);
    assert!(reg.get(&UnlocalizedName::minecraft("dirt")).is_none());
    let bad: Vec<(&'static str, RawItemData)> = vec![
        ("minecraft:stone", RawItemData { stack_size: 64, rarity: 0, info: None }),
        ("minecraft:air", RawItemData { stack_size: 0, rarity: 0, info: None }),
        ("nothing", RawItemData { stack_size: 1, rarity: 0, info: None }),
    ];
    assert_eq!(init_items(&bad).err().unwrap(), "Item has max stack size of 0, minecraft:air");
}

fn registry() -> ItemRegistry {
    let entries: Vec<(&'static str, RawItemData)> = vec![
        ("minecraft:stone", RawItemData { stack_size: 64, rarity: 0, info: None }),
        ("minecraft:iron_pickaxe", tool("pickaxe", "iron")),
    ];
    init_items(&entries).ok().unwrap()
}

#[test]
fn item_stack_from_nbt() {
    let reg = registry();
    let mut p = ItemStack::new(&pickaxe());
    p.count = 3;
    p.nbt.set("Damage".to_string(), NbtTag::Int(17));
    let mut tag = NbtCompound::new();
    p.write_nbt(&mut tag);
    let back = ItemStack::from_nbt(&tag, &reg).unwrap();
    assert_eq!(back.item.to_string(), "minecraft:iron_pickaxe");
    assert_eq!(back.count, 3);
    assert_eq!(back.damage, 17);
    assert_eq!(back.nbt.keys(), vec!["Damage"]);
    let mut unknown = NbtCompound::new();
    unknown.set("id".to_string(), NbtTag::StringModUtf8("minecraft:dirt".to_string()));
    assert!(ItemStack::from_nbt(&unknown, &reg).is_none());
    let mut bare = NbtCompound::new();
    bare.set("id".to_string(), NbtTag::StringModUtf8("minecraft:stone".to_string()));
    let s = ItemStack::from_nbt(&bare, &reg).unwrap();
    assert_eq!((s.count, s.damage), (0, 0));
}

#[test]
fn inventory_reads_items_list() {
    let reg = registry();
    let mut inv = Inventory::new(3);
    let mut s = ItemStack::new(&stone());
    s.count = 5;
    inv.insert(2, s);
    let mut tag = NbtCompound::new();
    inv.write_tag(&mut tag);
    let mut fresh = Inventory::new(3);
    assert!(fresh.from_tag(&tag, &reg) == false);
    // The empty stacks are air, which this registry does not know.
    let air = vec![("minecraft:air", RawItemData { stack_size: 64, rarity: 0, info: None })];
    let mut with_air = init_items(&air).ok().unwrap();
    with_air.insert(*reg.get(&UnlocalizedName::minecraft("stone")).unwrap());
    assert!(fresh.from_tag(&tag, &with_air));
    assert_eq!(fresh.get(2).count, 5);
    assert_eq!(fresh.get(2).item.to_string(), "minecraft:stone");
    assert!(fresh.get(0).is_empty());
    let mut none = Inventory::new(1);
    assert!(!none.from_tag(&NbtCompound::new(), &reg));
}
