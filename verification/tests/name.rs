use schema::{Name, SchemaIdentity, SymbolPath, TypeReference};

#[test]
fn a_name_splits_into_namespace_and_local_part() {
    let name = Name::new("crate:module:Widget");
    assert!(name.has_namespace());
    assert_eq!(name.local_part(), "Widget");
    assert_eq!(name.namespace_segments(), vec!["crate", "module", "Widget"]);
    assert!(!Name::new("Widget").has_namespace());
}

#[test]
fn derived_field_names_and_linknames() {
    assert_eq!(Name::new("DomainScope").field_name(), "domain_scope");
    assert_eq!(Name::new("crate:module:HTTPRequest").lower_camel(), "hTTPRequest");
    assert_eq!(Name::new("Map").lower_camel(), "map");
}

#[test]
fn a_name_renders_as_a_symbol_or_pipe_text() {
    assert_eq!(Name::new("Widget").to_dotos(), "Widget");
    assert_eq!(Name::new("two words").to_dotos(), "[|two words|]");
    assert!(Name::new("Widget").qualifies_as_pascal_case());
    assert!(!Name::new("widget").qualifies_as_pascal_case());
}

#[test]
fn a_name_qualifies_under_a_namespace() {
    let name = Name::new("Widget");
    assert_eq!(name.qualified_under(Some(&Name::new("parts"))).as_str(), "parts:Widget");
    assert_eq!(name.qualified_under(None).as_str(), "Widget");
}

#[test]
fn symbol_paths_join_their_segments() {
    let identity = SchemaIdentity::new("domain:lib", "0.1.0");
    let path = SymbolPath::field_path(&identity, &Name::new("Entry"), &Name::new("topic"));
    assert_eq!(path.to_text(), "domain:lib/Entry/topic");
    assert!(path.belongs_to(&identity));
    assert!(!path.belongs_to(&SchemaIdentity::new("other:lib", "0.1.0")));
}

#[test]
fn references_render_in_machine_form() {
    assert_eq!(TypeReference::new("Topic").to_dotos(), "(Plain Topic)");
    assert_eq!(TypeReference::vector(TypeReference::new("Topic")).to_dotos(), "(Vector (Plain Topic))");
    assert_eq!(TypeReference::fixed_width_bytes(32).to_dotos(), "(Bytes 32)");
}

#[test]
fn unicode_whitespace_keeps_a_name_from_being_a_symbol() {
    assert!(Name::new("ab").qualifies_as_symbol_name());
    assert!(!Name::new("a\u{00A0}b").qualifies_as_symbol_name());
    assert!(!Name::new("a\u{2003}b").qualifies_as_symbol_name());
    assert!(!Name::new("a\u{3000}b").qualifies_as_symbol_name());
    assert!(Name::new("a\u{200B}b").qualifies_as_symbol_name());
}
