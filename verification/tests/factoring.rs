use schema::{
    IndirectionProjection, LinkedStructureExpansion, MainStructureDepthCap, Name,
    SourceReference, TypeReference,
};

fn plain(name: &str) -> SourceReference {
    SourceReference::plain(Name::new(name))
}

/// `Outer.(Map.(Key Vector.Item) Topic)`.
fn nested() -> SourceReference {
    let map = SourceReference::from_type_reference(&TypeReference::map(
        TypeReference::new("Key"),
        TypeReference::vector(TypeReference::new("Item")),
    ));
    SourceReference::application(Name::new("Outer"), vec![map, plain("Topic")])
}

fn complete(cap: usize) -> IndirectionProjection {
    IndirectionProjection::new(
        MainStructureDepthCap::new(cap),
        LinkedStructureExpansion::Complete,
    )
}

#[test]
fn nested_reference_renders_before_factoring() {
    assert_eq!(nested().to_schema_text(), "Outer.(Map.(Key Vector.Item) Topic)");
}

#[test]
fn beyond_cap_subtrees_hoist_behind_linknames() {
    let encoding = complete(0).encode(&nested()).expect("a complete projection encodes");
    assert_eq!(encoding.main_text(), "Outer.(map Topic)");
    let links = encoding.links();
    assert_eq!(links.len(), 2);
    assert_eq!(links[0].name().as_str(), "map");
    assert_eq!(links[0].structure_text(), "Map.(Key vector)");
    assert_eq!(links[1].name().as_str(), "vector");
    assert_eq!(links[1].structure_text(), "Vector.Item");
    assert_eq!(
        encoding.to_schema_text(),
        "Outer.(map Topic)\nmap Map.(Key vector)\nvector Vector.Item"
    );
}

#[test]
fn factored_encoding_lowers_back_to_the_reference() {
    let reference = nested();
    for cap in 0..4 {
        let encoding = complete(cap).encode(&reference).expect("complete");
        assert_eq!(encoding.lower().to_schema_text(), reference.to_schema_text());
    }
}

#[test]
fn encoding_round_trips_a_semantic_reference() {
    let semantic = TypeReference::optional(TypeReference::map(
        TypeReference::new("Key"),
        TypeReference::vector(TypeReference::vector(TypeReference::new("Item"))),
    ));
    let source = SourceReference::from_type_reference(&semantic);
    let encoding = complete(0).encode(&source).expect("complete");
    assert!(encoding.to_type_reference().same(&semantic));
}

#[test]
fn a_cap_at_the_full_depth_hoists_nothing() {
    let encoding = complete(5).encode(&nested()).expect("complete");
    assert!(encoding.links().is_empty());
    assert_eq!(encoding.to_schema_text(), "Outer.(Map.(Key Vector.Item) Topic)");
}

#[test]
fn colliding_linknames_take_the_next_ordinal() {
    let left = SourceReference::from_type_reference(&TypeReference::vector(TypeReference::new("A")));
    let right =
        SourceReference::from_type_reference(&TypeReference::vector(TypeReference::new("B")));
    let third =
        SourceReference::from_type_reference(&TypeReference::vector(TypeReference::new("C")));
    let reference = SourceReference::application(Name::new("Outer"), vec![left, right, third]);
    let encoding = complete(0).encode(&reference).expect("complete");
    assert_eq!(encoding.main_text(), "Outer.(vector vector2 vector3)");
    assert_eq!(
        encoding.to_schema_text(),
        "Outer.(vector vector2 vector3)\nvector Vector.A\nvector2 Vector.B\nvector3 Vector.C"
    );
    assert_eq!(encoding.lower().to_schema_text(), reference.to_schema_text());
}

#[test]
fn a_truncating_projection_never_encodes() {
    let projection = IndirectionProjection::new(
        MainStructureDepthCap::new(0),
        LinkedStructureExpansion::Truncated { visible_links: 1 },
    );
    assert!(projection.encode(&nested()).is_none());
}

#[test]
fn help_prints_only_the_visible_links() {
    let projection = IndirectionProjection::new(
        MainStructureDepthCap::new(0),
        LinkedStructureExpansion::Truncated { visible_links: 1 },
    );
    assert_eq!(projection.help(&nested()).text(), "Outer.(map Topic)\nmap Map.(Key vector)");
    let none = IndirectionProjection::new(
        MainStructureDepthCap::new(0),
        LinkedStructureExpansion::Truncated { visible_links: 0 },
    );
    assert_eq!(none.help(&nested()).text(), "Outer.(map Topic)");
    let all = IndirectionProjection::new(
        MainStructureDepthCap::new(0),
        LinkedStructureExpansion::Truncated { visible_links: 9 },
    );
    assert_eq!(
        all.help(&nested()).text(),
        complete(0).encode(&nested()).expect("complete").to_schema_text()
    );
}

#[test]
fn leaves_are_never_hoisted() {
    let reference = SourceReference::application(Name::new("Outer"), vec![plain("Topic")]);
    let encoding = complete(0).encode(&reference).expect("complete");
    assert!(encoding.links().is_empty());
    assert_eq!(encoding.main_text(), "Outer.Topic");
}

#[test]
fn linknames_keep_clear_of_the_reference_plain_names() {
    // `Outer.(Map.(Key Vector.Item) map)`: the plain `map` keeps the hoisted
    // `Map` from taking that linkname.
    let inner = SourceReference::from_type_reference(&TypeReference::map(
        TypeReference::new("Key"),
        TypeReference::vector(TypeReference::new("Item")),
    ));
    let reference = SourceReference::application(Name::new("Outer"), vec![inner, plain("map")]);
    let encoding = complete(0).encode(&reference).expect("complete");
    assert_eq!(encoding.main_text(), "Outer.(map2 map)");
    assert_eq!(encoding.links()[0].name().as_str(), "map2");
    assert_eq!(encoding.lower().to_schema_text(), reference.to_schema_text());
}
