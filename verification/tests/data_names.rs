use quartz::data::uln::UnlocalizedName;

#[test]
fn data_uln_parse() {
    let n = UnlocalizedName::parse("minecraft:stone").unwrap();
    assert_eq!(n.namespace(), "minecraft");
    assert_eq!(n.name(), "stone");
    assert_eq!(n.to_string(), "minecraft:stone");
}

#[test]
fn data_uln_errors() {
    assert_eq!(UnlocalizedName::parse("stone").unwrap_err(), "Expected ':' in unlocalized name.");
    assert_eq!(UnlocalizedName::parse(":stone").unwrap_err(), "Expected two strings separated by a colon.");
    assert_eq!(UnlocalizedName::parse("stone:").unwrap_err(), "Expected two strings separated by a colon.");
}

#[test]
fn data_uln_roundtrip_and_same() {
    let n = UnlocalizedName::minecraft("dirt");
    let text = n.to_string();
    let m = UnlocalizedName::parse(&text).unwrap();
    assert!(m.same_as(&n));
    assert!(!m.same_as(&UnlocalizedName::minecraft("grass")));
    let k = UnlocalizedName::parse("a:b:c").unwrap();
    assert_eq!(k.namespace(), "a");
    assert_eq!(k.name(), "b:c");
}
