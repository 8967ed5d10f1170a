use pigeon::identifier::Identifier;

#[test]
fn parse_default_namespace() {
    let id = Identifier::from_str("stone").unwrap();
    assert_eq!(id.namespace(), "minecraft");
    assert_eq!(id.path(), "stone");
}

#[test]
fn parse_explicit_namespace() {
    let id = Identifier::from_str("minecraft:dirt").unwrap();
    assert_eq!(id.namespace(), "minecraft");
    assert_eq!(id.path(), "dirt");
}

#[test]
fn parse_custom_namespace() {
    let id = Identifier::from_str("pigeon:custom_block").unwrap();
    assert_eq!(id.namespace(), "pigeon");
    assert_eq!(id.path(), "custom_block");
}

#[test]
fn reject_uppercase() {
    assert!(Identifier::from_str("Block").is_err());
}

#[test]
fn display_roundtrip() {
    let id = Identifier::minecraft("stone").unwrap();
    assert_eq!(id.as_str(), "minecraft:stone");
}
