use schema::{DeclarationKind, Name, NameDeclaration, NameHarvest, NameTable, NominalIdentifier, SchemaError};

fn table_of(names: &[&str]) -> NameTable {
    let declarations = names
        .iter()
        .map(|name| NameDeclaration::top_level(DeclarationKind::Type, Name::new(name)))
        .collect();
    NameTable::build(&NameTable::empty(), declarations)
}

fn type_id(table: &NameTable, name: &str) -> NominalIdentifier {
    table
        .identifier_of(DeclarationKind::Type, &Name::new(name))
        .expect("the table binds the name")
}

#[test]
fn minting_is_deterministic_and_name_sensitive() {
    let first = NominalIdentifier::mint(DeclarationKind::Type, "crate:module:Widget");
    let again = NominalIdentifier::mint(DeclarationKind::Type, "crate:module:Widget");
    let other = NominalIdentifier::mint(DeclarationKind::Type, "crate:module:Gadget");
    assert!(first.same(&again));
    assert!(!first.same(&other));
    assert_eq!(first.to_hex(), again.to_hex());
    assert_eq!(first.to_hex().len(), 32);
    assert!(first.to_hex().chars().all(|c| c.is_ascii_hexdigit() && !c.is_ascii_uppercase()));
    assert_eq!(first.kind(), DeclarationKind::Type);
}

#[test]
fn minting_separates_kinds_and_owners() {
    let as_type = NominalIdentifier::mint(DeclarationKind::Type, "Widget");
    let as_variant = NominalIdentifier::mint(DeclarationKind::Variant, "Widget");
    assert!(!as_type.same(&as_variant));
    let owner = NominalIdentifier::mint(DeclarationKind::Type, "Widget");
    let other_owner = NominalIdentifier::mint(DeclarationKind::Type, "Gadget");
    let field = NominalIdentifier::mint_member(DeclarationKind::Field, &owner, "size");
    let same_field = NominalIdentifier::mint_member(DeclarationKind::Field, &owner, "size");
    let other_field = NominalIdentifier::mint_member(DeclarationKind::Field, &other_owner, "size");
    let renamed_field = NominalIdentifier::mint_member(DeclarationKind::Field, &owner, "width");
    assert!(field.same(&same_field));
    assert!(!field.same(&other_field));
    assert!(!field.same(&renamed_field));
}

#[test]
fn a_built_table_resolves_names_and_identifiers() {
    let table = table_of(&["Widget", "Gadget"]);
    assert_eq!(table.entries().len(), 2);
    let widget = type_id(&table, "Widget");
    assert_eq!(table.name_of(&widget).map(|n| n.as_str().to_owned()), Some("Widget".to_owned()));
    assert_eq!(table.projected_name(&widget).unwrap().as_str(), "Widget");
    assert!(table.identifier_of(DeclarationKind::Variant, &Name::new("Widget")).is_none());
}

#[test]
fn a_rename_reads_back_and_keeps_the_identifier() {
    let mut table = table_of(&["Widget", "Gadget"]);
    let widget = type_id(&table, "Widget");
    let gadget = type_id(&table, "Gadget");
    table.rename(&widget, Name::new("Gizmo")).expect("a free name is accepted");
    assert_eq!(table.name_of(&widget).unwrap().as_str(), "Gizmo");
    assert!(type_id(&table, "Gizmo").same(&widget));
    assert!(table.identifier_of(DeclarationKind::Type, &Name::new("Widget")).is_none());
    assert_eq!(table.name_of(&gadget).unwrap().as_str(), "Gadget");
    // Re-associating against the renamed table keeps the identifier.
    let rebuilt = NameTable::build(
        &table,
        vec![NameDeclaration::top_level(DeclarationKind::Type, Name::new("Gizmo"))],
    );
    assert!(type_id(&rebuilt, "Gizmo").same(&widget));
}

#[test]
fn a_rename_onto_a_held_name_is_refused() {
    let mut table = table_of(&["Widget", "Gadget"]);
    let widget = type_id(&table, "Widget");
    let gadget = type_id(&table, "Gadget");
    let error = table.rename(&widget, Name::new("Gadget")).unwrap_err();
    assert_eq!(
        error,
        SchemaError::NameTableNameConflict {
            kind: DeclarationKind::Type,
            name: "Gadget".to_owned(),
            holder: gadget.to_hex(),
            requested: widget.to_hex(),
        },
    );
    assert_eq!(table.name_of(&widget).unwrap().as_str(), "Widget");
    // Renaming onto its own current name is no conflict.
    table.rename(&widget, Name::new("Widget")).expect("the holder is the identifier itself");
}

#[test]
fn a_rename_of_an_absent_identifier_is_refused() {
    let mut table = table_of(&["Widget"]);
    let absent = NominalIdentifier::mint(DeclarationKind::Type, "Elsewhere");
    assert_eq!(
        table.rename(&absent, Name::new("Anything")).unwrap_err(),
        SchemaError::NameTableIdentifierAbsent { identifier: absent.to_hex() },
    );
    assert_eq!(
        table.projected_name(&absent).unwrap_err(),
        SchemaError::CoreProjectionNameAbsent { identifier: absent.to_hex() },
    );
}

#[test]
fn building_does_not_depend_on_declaration_order() {
    let forward = table_of(&["Alpha", "Beta", "Gamma"]);
    let backward = table_of(&["Gamma", "Beta", "Alpha"]);
    assert_eq!(forward.entries().len(), backward.entries().len());
    for (a, b) in forward.entries().iter().zip(backward.entries()) {
        assert!(a.identifier().same(&b.identifier()));
        assert_eq!(a.name().as_str(), b.name().as_str());
    }
}

#[test]
fn a_harvest_associates_against_its_prior_table() {
    let prior = table_of(&["Widget"]);
    let widget = type_id(&prior, "Widget");
    let mut harvest = NameHarvest::new(&prior);
    let declared = harvest.declare(DeclarationKind::Type, &Name::new("Widget"));
    assert!(declared.same(&widget));
    let fresh = harvest.declare(DeclarationKind::Type, &Name::new("Fresh"));
    assert!(fresh.same(&NominalIdentifier::mint(DeclarationKind::Type, "Fresh")));
    let member = harvest.declare_member(DeclarationKind::Field, widget, &Name::new("size"));
    assert!(member.same(&NominalIdentifier::mint_member(DeclarationKind::Field, &widget, "size")));
    let table = harvest.into_table();
    assert_eq!(table.entries().len(), 3);
    assert!(table
        .member_identifier_of(DeclarationKind::Field, &widget, &Name::new("size"))
        .is_some());
}

#[test]
fn an_identifier_hex_parses_back_to_its_digest() {
    let id = NominalIdentifier::mint(DeclarationKind::Type, "Widget");
    let hex = id.to_hex();
    let digest = NominalIdentifier::digest_from_hex(&hex).expect("32 lowercase hex digits");
    let text: String = digest.iter().map(|b| format!("{b:02x}")).collect();
    assert_eq!(text, hex);
    assert_eq!(NominalIdentifier::digest_from_hex(&hex.to_uppercase()), None);
    assert_eq!(NominalIdentifier::digest_from_hex(&hex[..30]), None);
    assert_eq!(NominalIdentifier::digest_from_hex(&"+0".repeat(16)), None);
}

#[test]
fn a_harvested_table_binds_each_declared_name_to_its_answer() {
    let prior = table_of(&["Widget"]);
    let mut harvest = NameHarvest::new(&prior);
    let widget = harvest.declare(DeclarationKind::Type, &Name::new("Widget"));
    let fresh = harvest.declare(DeclarationKind::Type, &Name::new("Fresh"));
    harvest.declare_member(DeclarationKind::Field, widget, &Name::new("size"));
    let table = harvest.into_table();
    let bound = table.identifier_of(DeclarationKind::Type, &Name::new("Widget")).expect("declared");
    assert!(bound.same(&widget));
    let bound = table.identifier_of(DeclarationKind::Type, &Name::new("Fresh")).expect("declared");
    assert!(bound.same(&fresh));
}
