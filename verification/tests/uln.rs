use quartz::qutil::uln::{ParseUnlocalizedNameError, UlnStr, UnlocalizedName};

#[test]
fn cloning() {
    let uln = UnlocalizedName::minecraft("dirt".to_string());
    let uln2 = uln.clone();

    let uln_str = uln.as_uln_str();
    let uln3 = uln_str.to_owned();

    assert_eq!(uln, uln2);
    assert_eq!(uln, uln_str);
    assert_eq!(uln, uln3);
}

#[test]
fn uln_parse_parts() {
    let u = UnlocalizedName::from_str("quartz:stone").unwrap();
    assert_eq!(u.namespace(), "quartz");
    assert_eq!(u.identifier(), "stone");
    assert_eq!(u.to_string(), "quartz:stone");
    assert_eq!(u.repr(), "quartz:stone");
}

#[test]
fn uln_default_namespace() {
    let u = UnlocalizedName::from_str("stone").unwrap();
    assert_eq!(u.namespace(), "minecraft");
    assert_eq!(u.identifier(), "stone");
    assert_eq!(u.to_string(), "minecraft:stone");
    let v = UnlocalizedName::from_str("minecraft:stone").unwrap();
    assert_eq!(v.repr(), "stone");
    assert_eq!(u, v);
}

#[test]
fn uln_identifier_keeps_later_colons() {
    let u = UnlocalizedName::from_str("a:b:c").unwrap();
    assert_eq!(u.namespace(), "a");
    assert_eq!(u.identifier(), "b:c");
}

#[test]
fn uln_errors() {
    assert_eq!(UnlocalizedName::from_str("").unwrap_err(), ParseUnlocalizedNameError::EmptyInput);
    assert_eq!(UnlocalizedName::from_str(":stone").unwrap_err(), ParseUnlocalizedNameError::EmptyNamespace);
    assert_eq!(UnlocalizedName::from_str("quartz:").unwrap_err(), ParseUnlocalizedNameError::EmptyIdentifier);
    assert!(UlnStr::from_str("x:").is_err());
}

#[test]
fn uln_text_parses_back() {
    for text in ["quartz:stone", "stone", "a:b:c", "minecraft:dirt"] {
        let u = UnlocalizedName::from_str(text).unwrap();
        let again = UnlocalizedName::from_str(&u.to_string()).unwrap();
        assert_eq!(again.namespace(), u.namespace());
        assert_eq!(again.identifier(), u.identifier());
    }
}

#[test]
fn uln_str_borrowed() {
    let s = UlnStr::from_str("quartz:ore").unwrap();
    assert_eq!(s.namespace(), "quartz");
    assert_eq!(s.identifier(), "ore");
    assert_eq!(s.to_string(), "quartz:ore");
    let m = UlnStr::minecraft("air");
    assert_eq!(m.to_string(), "minecraft:air");
}

#[test]
fn uln_error_messages() {
    assert_eq!(ParseUnlocalizedNameError::EmptyInput.to_string(), "unlocalized name cannot be empty");
    assert_eq!(ParseUnlocalizedNameError::EmptyNamespace.to_string(), "empty namespace in unlocalized name");
    assert_eq!(ParseUnlocalizedNameError::EmptyIdentifier.to_string(), "empty identifier in unlocalized name");
    assert_eq!(
        ParseUnlocalizedNameError::StringTooLarge(3000000000).to_string(),
        "encountered unlocalized name of length 3000000000, the maximum length is 2147483647"
    );
}

#[test]
fn repr_drops_minecraft_namespace() {
    assert_eq!(UlnStr::from_str("minecraft:stone").unwrap().repr(), "stone");
    assert_eq!(UlnStr::from_str("foo:bar").unwrap().repr(), "foo:bar");
    assert_eq!(UnlocalizedName::from_str("minecraft:dirt").unwrap().repr(), "dirt");
    assert_eq!(UnlocalizedName::from_str("custom:item").unwrap().repr(), "custom:item");
}
