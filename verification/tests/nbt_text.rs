use quartz::chat::component::{EventArgument, HoverEvent};
use quartz::nbt::tag::{NbtCompound, NbtList, NbtTag};

#[test]
fn numbers_carry_their_suffix() {
    assert_eq!(NbtTag::Byte(5).to_string(), "5b");
    assert_eq!(NbtTag::Short(-3).to_string(), "-3s");
    assert_eq!(NbtTag::Int(42).to_string(), "42");
    assert_eq!(NbtTag::Long(i64::MIN).to_string(), "-9223372036854775808L");
    assert_eq!(NbtTag::Float("1.5".to_string()).to_string(), "1.5f");
    assert_eq!(NbtTag::Double("2".to_string()).to_string(), "2d");
}

#[test]
fn arrays_suffix_all_but_the_first() {
    assert_eq!(NbtTag::ByteArray(vec![1, 2, 3]).to_string(), "[1, 2b, 3b]");
    assert_eq!(NbtTag::ByteArray(vec![]).to_string(), "[]");
    assert_eq!(NbtTag::IntArray(vec![1, -2]).to_string(), "[1, -2]");
    assert_eq!(NbtTag::LongArray(vec![5, 6]).to_string(), "[5, 6L]");
}

#[test]
fn strings_are_quoted_and_escaped() {
    assert_eq!(NbtTag::StringModUtf8("hi".to_string()).to_string(), "\"hi\"");
    assert_eq!(NbtTag::StringModUtf8("say \"x\"".to_string()).to_string(), "'say \"x\"'");
    assert_eq!(NbtTag::StringModUtf8("a\\b".to_string()).to_string(), "\"a\\\\b\"");
    assert_eq!(NbtTag::StringModUtf8("it's \"x\"".to_string()).to_string(), "'it\\'s \"x\"'");
}

#[test]
fn lists_and_compounds() {
    let mut l = NbtList::new();
    l.add_byte(1);
    l.add_byte(2);
    assert_eq!(l.to_string(), "[1b, 2b]");
    assert_eq!(NbtList::new().to_string(), "[]");
    let mut c = NbtCompound::new();
    assert_eq!(c.to_string(), "{}");
    c.set_byte("a".to_string(), 1);
    c.set("b".to_string(), NbtTag::StringModUtf8("x".to_string()));
    c.set("l".to_string(), NbtTag::List(l));
    assert_eq!(c.to_string(), "{a: 1b, b: \"x\", l: [1b, 2b]}");
    assert_eq!(NbtTag::Compound(c).to_string(), "{a: 1b, b: \"x\", l: [1b, 2b]}");
}

#[test]
fn hover_item_shows_compound_text() {
    let mut item = NbtCompound::new();
    item.set("id".to_string(), NbtTag::StringModUtf8("minecraft:stone".to_string()));
    item.set_byte("Count".to_string(), 1);
    let e = HoverEvent::show_item(item);
    assert_eq!(e.action, "show_item");
    match e.value {
        EventArgument::Text(t) => assert_eq!(t, "{id: \"minecraft:stone\", Count: 1b}"),
        _ => panic!("expected text"),
    }
    let entity = HoverEvent::show_entity(NbtCompound::new());
    assert_eq!(entity.action, "show_entity");
    assert!(matches!(entity.value, EventArgument::Text(ref t) if t == "{}"));
}
