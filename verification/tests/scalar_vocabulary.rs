use schema::{Name, TypeReference};

#[test]
fn every_scalar_kind_resolves_through_one_vocabulary() {
    for kind in &TypeReference::scalar_kinds() {
        let name = Name::new(
            kind.scalar_name()
                .expect("a scalar kind exposes its reserved name"),
        );
        assert!(
            TypeReference::is_reserved_scalar_name(&name),
            "scalar name {name:?} must be reserved",
        );
        assert!(
            TypeReference::from_name(name.clone()).same(kind),
            "scalar name {name:?} must resolve back to its own kind",
        );
    }
}

#[test]
fn declared_name_is_not_a_reserved_scalar() {
    let declared = Name::new("Widget");
    assert!(!TypeReference::is_reserved_scalar_name(&declared));
    assert!(matches!(
        TypeReference::from_name(declared),
        TypeReference::Plain(_),
    ));
}

#[test]
fn machine_wire_tag_matches_reserved_source_name() {
    for kind in &TypeReference::scalar_kinds() {
        assert_eq!(
            Some(kind.to_dotos().as_str()),
            kind.scalar_name(),
            "machine wire tag must match the reserved source name",
        );
    }
}
