use quartz::block::block::{air, Block as NamedBlock, BLOCK_COUNT};
use quartz::block::init::init_blocks;
use quartz::block::state::{Block, BlockState, StateBuilder};
use quartz::data::chunk::Chunk;
use quartz::data::registry::Registry;
use quartz::data::uln::UnlocalizedName as DataName;
use quartz::qutil::uln::UnlocalizedName;

fn furnace() -> &'static Block {
    Box::leak(Box::new(Block {
        name: UnlocalizedName::from_str("minecraft:furnace").unwrap(),
        properties: vec![
            (
                "facing".to_string(),
                vec!["north".to_string(), "south".to_string(), "east".to_string(), "west".to_string()],
            ),
            ("lit".to_string(), vec!["false".to_string(), "true".to_string()]),
        ],
        base_state: 10,
        default_state: 10,
    }))
}

fn state(handle: &'static Block, facing: &str, lit: &str) -> BlockState {
    BlockState {
        handle,
        properties: vec![("facing".to_string(), facing.to_string()), ("lit".to_string(), lit.to_string())],
    }
}

#[test]
fn state_ids_are_mixed_radix() {
    let f = furnace();
    assert_eq!(state(f, "north", "false").id(), 10);
    assert_eq!(state(f, "north", "true").id(), 11);
    assert_eq!(state(f, "east", "true").id(), 15);
    assert_eq!(state(f, "west", "true").id(), 17);
    assert_eq!(BlockState { handle: f, properties: vec![] }.id(), 10);
    assert_eq!(state(f, "nowhere", "true").id(), 11);
}

#[test]
fn builder_sets_properties() {
    let f = furnace();
    let base = state(f, "north", "false");
    let built = StateBuilder::new(&base).with_property("lit", "true").unwrap().with_property_unchecked("facing", "south").build();
    assert_eq!(built.id(), 13);
    assert_eq!(built.properties[0].1, "south");
    assert_eq!(built.properties[1].1, "true");
}

#[test]
fn builder_errors() {
    let f = furnace();
    let base = state(f, "north", "false");
    assert_eq!(
        StateBuilder::new(&base).with_property("lit", "maybe").err().unwrap(),
        "Invalid property value for lit in minecraft:furnace: maybe"
    );
    assert_eq!(
        StateBuilder::new(&base).with_property("color", "red").err().unwrap(),
        "Invalid property for minecraft:furnace: color"
    );
}

#[test]
fn registry_lookup_after_register() {
    let mut registry = Registry::new(BLOCK_COUNT, 4);
    init_blocks(&mut registry);
    let found = registry.get_block(&DataName::minecraft("air")).unwrap();
    assert_eq!(found.default_state, 0);
    assert_eq!(found.name.name(), "air");
    assert!(registry.get_block(&DataName::minecraft("stone")).is_none());
    registry.register_block(&NamedBlock { name: DataName::minecraft("stone"), default_state: 1 });
    assert_eq!(registry.get_block(&DataName::minecraft("stone")).unwrap().default_state, 1);
    registry.register_block(&NamedBlock { name: DataName::minecraft("stone"), default_state: 7 });
    assert_eq!(registry.get_block(&DataName::minecraft("stone")).unwrap().default_state, 7);
    assert_eq!(registry.get_block(&DataName::minecraft("air")).unwrap().default_state, 0);
    assert_eq!(air().default_state, 0);
}

#[test]
fn registry_states() {
    let f = furnace();
    let mut registry = Registry::new(1, 20);
    registry.register_state(11, state(f, "north", "true"));
}

#[test]
fn chunk_starts_empty() {
    let chunk = Chunk::new();
    assert_eq!(chunk.block_id(0, 0, 0), 0);
    assert_eq!(chunk.block_id(15, 15, 15), 0);
}

#[test]
fn state_text() {
    let f = furnace();
    assert_eq!(f.to_string(), "minecraft:furnace");
    assert_eq!(state(f, "east", "true").to_string(), "minecraft:furnace[facing=east,lit=true]");
    assert_eq!(BlockState { handle: f, properties: vec![] }.to_string(), "minecraft:furnace");
}

#[test]
fn state_id_follows_sorted_property_names() {
    let b: &'static Block = Box::leak(Box::new(Block {
        name: UnlocalizedName::from_str("minecraft:sample").unwrap(),
        properties: vec![
            ("a".to_string(), vec!["x".to_string(), "y".to_string()]),
            ("b".to_string(), vec!["p".to_string(), "q".to_string(), "r".to_string()]),
        ],
        base_state: 10,
        default_state: 10,
    }));
    let s = BlockState { handle: b, properties: vec![("b".to_string(), "q".to_string()), ("a".to_string(), "y".to_string())] };
    assert_eq!(s.id(), 14);
}
