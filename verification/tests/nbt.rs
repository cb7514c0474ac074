use quartz::nbt::snbt::SnbtParser;
use quartz::nbt::tag::{NbtCompound, NbtList, NbtTag};

fn parse(text: &str) -> Result<NbtCompound, String> {
    SnbtParser::new(text).try_parse().expect("the parser gave up")
}

#[test]
fn compound_set_get_remove() {
    let mut c = NbtCompound::new();
    assert!(c.is_empty());
    c.set_byte("a".to_string(), 5);
    c.set("b".to_string(), NbtTag::StringModUtf8("text".to_string()));
    c.set_bool("flag".to_string(), true);
    assert_eq!(c.len(), 3);
    assert_eq!(c.get_byte("a"), 5);
    assert_eq!(c.get_string("b"), "text");
    assert!(c.get_bool("flag"));
    assert_eq!(c.get_byte("missing"), 0);
    assert_eq!(c.get_string("a"), "");
    c.set_byte("a".to_string(), 9);
    assert_eq!(c.len(), 3);
    assert_eq!(c.get_byte("a"), 9);
    assert_eq!(c.keys(), vec!["a".to_string(), "b".to_string(), "flag".to_string()]);
    match c.remove("b") {
        Some(NbtTag::StringModUtf8(s)) => assert_eq!(s, "text"),
        _ => panic!("expected the string back"),
    }
    assert!(c.get("b").is_none());
    assert!(c.remove("b").is_none());
    assert_eq!(c.len(), 2);
    assert_eq!(c.get_byte("a"), 9);
}

#[test]
fn list_operations() {
    let mut l = NbtList::with_capacity(2);
    l.add_byte(3);
    l.add_bool(false);
    l.add(NbtTag::StringModUtf8("x".to_string()));
    assert_eq!(l.len(), 3);
    assert_eq!(l.get_byte(0), 3);
    assert!(!l.get_bool(1));
    assert_eq!(l.get_string(2), "x");
    assert_eq!(l.get_string(0), "");
    assert_eq!(l.get_byte(2), 0);
    match l.remove(0) {
        NbtTag::Byte(3) => {},
        _ => panic!("expected the first byte"),
    }
    assert_eq!(l.len(), 2);
    assert!(NbtList::new().is_empty());
}

#[test]
fn tag_ids() {
    assert_eq!(NbtTag::Byte(0).id(), 1);
    assert_eq!(NbtTag::Short(0).id(), 2);
    assert_eq!(NbtTag::Int(0).id(), 3);
    assert_eq!(NbtTag::Long(0).id(), 4);
    assert_eq!(NbtTag::Float("0".to_string()).id(), 5);
    assert_eq!(NbtTag::Double("0".to_string()).id(), 6);
    assert_eq!(NbtTag::ByteArray(vec![]).id(), 7);
    assert_eq!(NbtTag::StringModUtf8(String::new()).id(), 8);
    assert_eq!(NbtTag::List(NbtList::new()).id(), 9);
    assert_eq!(NbtTag::Compound(NbtCompound::new()).id(), 10);
    assert_eq!(NbtTag::IntArray(vec![]).id(), 11);
    assert_eq!(NbtTag::LongArray(vec![]).id(), 12);
}

#[test]
fn snbt_scalars() {
    let c = parse("{a:1b,b:12,c:7s,d:99L,e:\"hi\"}").unwrap();
    assert_eq!(c.len(), 5);
    assert_eq!(c.get_byte("a"), 1);
    assert!(matches!(c.get("b"), Some(NbtTag::Int(12))));
    assert!(matches!(c.get("c"), Some(NbtTag::Short(7))));
    assert!(matches!(c.get("d"), Some(NbtTag::Long(99))));
    assert_eq!(c.get_string("e"), "hi");
}

#[test]
fn snbt_floats_keep_their_text() {
    let c = parse("{x:1.5f,y:2d}").unwrap();
    match c.get("x") {
        Some(NbtTag::Float(t)) => assert_eq!(t, "1.5"),
        _ => panic!("expected a float"),
    }
    match c.get("y") {
        Some(NbtTag::Double(t)) => assert_eq!(t, "2"),
        _ => panic!("expected a double"),
    }
}

#[test]
fn snbt_nested() {
    let c = parse("{list:[1b,2b,3b],inner:{k:5s},str:'single'}").unwrap();
    match c.get("list") {
        Some(NbtTag::List(l)) => {
            assert_eq!(l.len(), 3);
            assert_eq!(l.get_byte(2), 3);
        },
        _ => panic!("expected a list"),
    }
    match c.get("inner") {
        Some(NbtTag::Compound(inner)) => assert!(matches!(inner.get("k"), Some(NbtTag::Short(5)))),
        _ => panic!("expected a compound"),
    }
    assert_eq!(c.get_string("str"), "single");
}

#[test]
fn snbt_empty_compound() {
    let c = parse("{}").unwrap();
    assert!(c.is_empty());
}

#[test]
fn snbt_errors() {
    assert_eq!(parse("x").unwrap_err(), "Invalid root tag: x");
    assert_eq!(parse("{a:1b}xy").unwrap_err(), "Unexpected characters after closing tag 6: xy");
    assert_eq!(parse("{a:[1b,2s]}").unwrap_err(), "Values in list are not of same type, 9: 1b,2s");
    assert_eq!(
        parse("{a:128b}").unwrap_err(),
        "Invalid value for type byte 3: 128b, number too large to fit in target type"
    );
    assert_eq!(parse("{a:1b").unwrap_err(), "NBT not closed");
}

#[test]
fn snbt_parse_matches_try_parse() {
    let mut p = SnbtParser::new("{k:3b}");
    let c = p.parse().unwrap();
    assert_eq!(c.get_byte("k"), 3);
}
