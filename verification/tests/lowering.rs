use schema::{
    Name, SchemaError, SchemaIdentity, SchemaSource, SourceDeclarationValue, SourceEnumBody,
    SourceField, SourceGenerics, SourceImports, SourceImpls, SourceInlineDeclarationVisibility,
    SourceReference, SourceRootBody, SourceRootEnum, SourceStructBody, SourceTypeEntry,
    SourceTypeResolver, SourceTypes, SourceVariantSignature, TypeDeclaration, TypeReference,
};

fn plain(name: &str) -> SourceReference {
    SourceReference::plain(Name::new(name))
}

fn unit_root(position: &str, variants: &[&str]) -> SourceRootEnum {
    SourceRootEnum::new(
        Name::new(position),
        SourceRootBody::Enum(SourceEnumBody::new(
            variants.iter().map(|v| SourceVariantSignature::from_name(Name::new(v))).collect(),
        )),
    )
}

fn source(types: Vec<SourceTypeEntry>) -> SchemaSource {
    SchemaSource::new(
        SourceImports::empty(),
        unit_root("Input", &["Start"]),
        unit_root("Output", &["Done"]),
        SourceTypes::new(types),
        SourceGenerics::new(Vec::new()),
        SourceImpls::new(Vec::new()),
    )
}

fn widget() -> SourceTypeEntry {
    SourceTypeEntry::new(
        Name::new("Widget"),
        SourceDeclarationValue::Struct(SourceStructBody::new(vec![
            SourceField::from_reference(Name::new("size"), plain("Integer")),
            SourceField::from_reference(Name::new("weight"), plain("Integer")),
            SourceField::derived(Name::new("Label")),
        ])),
    )
}

fn label() -> SourceTypeEntry {
    SourceTypeEntry::new(Name::new("Label"), SourceDeclarationValue::Reference(plain("String")))
}

fn lower(types: Vec<SourceTypeEntry>) -> Result<schema::SchemaTree, SchemaError> {
    source(types).to_schema_tree(SchemaIdentity::new("shop", "1"), Vec::new(), Vec::new())
}

#[test]
fn a_source_lowers_into_its_schema_tree() {
    let tree = lower(vec![widget(), label()]).expect("the source lowers");
    let names: Vec<&str> = tree.namespace().iter().map(|d| d.name().as_str()).collect();
    assert_eq!(names, vec!["Widget", "Label"]);
    match tree.namespace()[0].value() {
        TypeDeclaration::Struct(s) => {
            let size = s.fields.field_named("size").expect("size");
            assert!(matches!(size.reference, TypeReference::Integer));
            assert!(s.fields.field_named("weight").is_some());
            let label = s.fields.field_named("label").expect("label");
            assert!(matches!(&label.reference, TypeReference::Plain(n) if n.as_str() == "Label"));
        },
        _ => panic!("Widget lowers to a struct"),
    }
    assert!(matches!(tree.namespace()[1].value(), TypeDeclaration::Newtype(n) if matches!(n.reference, TypeReference::String)));
    let input = tree.input().as_enum().expect("an enum root");
    let variant = input.variant_named("Start").expect("the Start variant");
    assert!(variant.payload.is_none());
}

#[test]
fn a_lowered_tree_still_faces_the_product_check() {
    let entry = SourceTypeEntry::new(
        Name::new("Gauge"),
        SourceDeclarationValue::Struct(SourceStructBody::new(vec![
            SourceField::from_reference(Name::new("count"), plain("Integer")),
            SourceField::derived(Name::new("Label")),
        ])),
    );
    assert_eq!(
        lower(vec![entry, label(), widget()]).err(),
        Some(SchemaError::ExplicitFieldOnUniqueProductComponent {
            field: "count".to_owned(),
            type_label: "Integer".to_owned(),
        })
    );
}

#[test]
fn a_reserved_scalar_cannot_be_declared() {
    let entry = SourceTypeEntry::new(Name::new("String"), SourceDeclarationValue::Reference(plain("Integer")));
    assert_eq!(lower(vec![entry]).err(), Some(SchemaError::ReservedScalarTypeName { name: "String".to_owned() }));
}

#[test]
fn a_name_declared_twice_is_refused() {
    assert_eq!(
        lower(vec![label(), label()]).err(),
        Some(SchemaError::DuplicateSourceDeclaration { name: "Label".to_owned() })
    );
}

#[test]
fn a_text_body_is_no_declaration() {
    let entry = SourceTypeEntry::new(Name::new("Note"), SourceDeclarationValue::Text("hello".to_owned()));
    assert_eq!(
        lower(vec![entry]).err(),
        Some(SchemaError::ExpectedSyntaxDeclaration { found: "text declaration".to_owned() })
    );
}

#[test]
fn an_inline_body_needs_a_type_named_field() {
    let field = SourceField::from_declaration(
        Name::new("extra"),
        SourceDeclarationValue::Reference(plain("Integer")),
    );
    let resolver = SourceTypeResolver::new(Vec::new());
    let lowered = field.to_lowered_field(&resolver, None, SourceInlineDeclarationVisibility::PrivateHelper);
    assert_eq!(
        lowered.err(),
        Some(SchemaError::ExpectedSyntaxDeclaration { found: "inline declaration field extra".to_owned() })
    );
}

#[test]
fn a_type_named_field_declares_its_type_inline() {
    let field = SourceField::from_reference(Name::new("Tag"), plain("String"));
    let resolver = SourceTypeResolver::new(vec![Name::new("Tag")]);
    let lowered = field
        .to_lowered_field(&resolver, None, SourceInlineDeclarationVisibility::PrivateHelper)
        .expect("a type-named field lowers");
    assert_eq!(lowered.field().name.as_str(), "tag");
    assert!(matches!(&lowered.field().reference, TypeReference::Plain(n) if n.as_str() == "Tag"));
    assert!(lowered.public_declarations().is_empty());
    assert_eq!(lowered.private_declarations().len(), 1);
    assert_eq!(lowered.private_declarations()[0].name().as_str(), "Tag");
}

#[test]
fn a_name_resolves_to_its_deepest_declared_scope() {
    let resolver = SourceTypeResolver::new(vec![Name::new("a:Item"), Name::new("a:b:Item")]);
    let ns = Name::new("a:b");
    assert_eq!(resolver.visible_name(Some(&ns), &Name::new("Item")).as_str(), "a:b:Item");
    let shallow = SourceTypeResolver::new(vec![Name::new("a:Item")]);
    assert_eq!(shallow.visible_name(Some(&ns), &Name::new("Item")).as_str(), "a:Item");
    assert_eq!(shallow.visible_name(Some(&ns), &Name::new("Other")).as_str(), "Other");
    assert_eq!(shallow.visible_name(Some(&ns), &Name::new("x:Item")).as_str(), "x:Item");
    assert_eq!(shallow.visible_name(None, &Name::new("Item")).as_str(), "Item");
}
