use schema::{
    ApplicationHead, SingleTypeReferenceProjection, Declaration, EnumDeclaration, EnumVariant, FieldDeclaration, ImplBlock, ImplCatalog, ImplFact,
    ImplReference, ImportSource, StructFieldMap, MethodParameter, MethodSignature, Name, NewtypeDeclaration,
    ResolvedImport, Root, RootApplication, RustSurface, SchemaError, SchemaIdentity, SchemaTree,
    StructDeclaration, SymbolPath, SymbolPathPosition, TypeDeclaration, TypeReference,
};

fn identity() -> SchemaIdentity {
    SchemaIdentity::new("distinct-declarations:lib", "0.1.0")
}

fn root(name: &str, variant: &str, payload: &str) -> Root {
    Root::Enum(EnumDeclaration::new(
        Name::new(name),
        vec![EnumVariant::new(Name::new(variant), Some(TypeReference::new(payload)))],
    ))
}

fn record(name: &str) -> Declaration {
    Declaration::public(TypeDeclaration::Struct(StructDeclaration::new(
        Name::new(name),
        vec![FieldDeclaration::new(Name::new("topic"), TypeReference::new("Topic"))],
    )))
}

fn topic() -> Declaration {
    Declaration::public(TypeDeclaration::Newtype(NewtypeDeclaration::new(
        Name::new("Topic"),
        TypeReference::String,
    )))
}

fn namespace() -> Vec<Declaration> {
    vec![record("Command"), record("Report"), topic()]
}

fn tree_with(namespace: Vec<Declaration>, resolved: Vec<ResolvedImport>) -> SchemaTree {
    SchemaTree::new(
        identity(),
        Vec::new(),
        resolved,
        root("Input", "Start", "Command"),
        root("Output", "Finish", "Report"),
        namespace,
    )
}

fn distinct_tree() -> SchemaTree {
    tree_with(namespace(), Vec::new())
}

fn plain_import(local_name: &str) -> ResolvedImport {
    ResolvedImport::from_projected_parts(
        Name::new(local_name),
        ImportSource::new(Name::new("plane-crate:signal:Wrapped")),
        Some(0),
        Vec::new(),
        Vec::new(),
    )
}

#[test]
fn a_tree_renders_its_canonical_schema_text() {
    assert_eq!(
        distinct_tree().to_schema_text(),
        "{}\n[(Start Command)]\n[(Finish Report)]\n{\n  Command.{ Topic }\n  Report.{ Topic }\n  Topic.String\n}\n{}\n{}"
    );
}

#[test]
fn distinct_declaration_names_pass() {
    assert_eq!(distinct_tree().declaration_names_unique(), Ok(()));
    assert_eq!(distinct_tree().parameters_verified(), Ok(()));
    assert!(distinct_tree().arities_verified().is_ok());
    assert!(distinct_tree().product_components_verified().is_ok());
    assert!(distinct_tree().impls_verified().is_ok());
}

#[test]
fn duplicate_namespace_declarations_are_rejected() {
    let mut declarations = namespace();
    declarations.push(record("Command"));
    assert_eq!(
        tree_with(declarations, Vec::new()).declaration_names_unique(),
        Err(SchemaError::DuplicateDeclaration {
            name: "Command".to_owned(),
            first_site: "a namespace declaration".to_owned(),
            second_site: "a namespace declaration".to_owned(),
        }),
    );
}

#[test]
fn a_namespace_type_named_for_a_root_is_rejected() {
    let mut declarations = namespace();
    declarations.push(Declaration::public(TypeDeclaration::Newtype(NewtypeDeclaration::new(
        Name::new("Input"),
        TypeReference::Integer,
    ))));
    assert_eq!(
        tree_with(declarations, Vec::new()).declaration_names_unique(),
        Err(SchemaError::DuplicateDeclaration {
            name: "Input".to_owned(),
            first_site: "the input root".to_owned(),
            second_site: "a namespace declaration".to_owned(),
        }),
    );
}

#[test]
fn an_import_colliding_with_a_root_is_rejected() {
    assert_eq!(
        tree_with(namespace(), vec![plain_import("Input")]).declaration_names_unique(),
        Err(SchemaError::DuplicateDeclaration {
            name: "Input".to_owned(),
            first_site: "the input root".to_owned(),
            second_site: "a resolved import".to_owned(),
        }),
    );
}

#[test]
fn duplicate_generic_parameters_are_rejected() {
    let mut declarations = namespace();
    declarations.push(
        Declaration::public(TypeDeclaration::Struct(StructDeclaration::new(
            Name::new("Plane"),
            vec![FieldDeclaration::new(Name::new("wing"), TypeReference::new("Wing"))],
        )))
        .with_parameters(vec![Name::new("Wing"), Name::new("Wing")]),
    );
    assert_eq!(
        tree_with(declarations, Vec::new()).parameters_verified(),
        Err(SchemaError::DuplicateTypeParameter {
            declaration: "Plane".to_owned(),
            parameter: "Wing".to_owned(),
        }),
    );
}

#[test]
fn duplicate_imported_frame_parameters_are_rejected() {
    let import = ResolvedImport::from_projected_parts(
        Name::new("Beacon"),
        ImportSource::new(Name::new("dependency-core:mail:Beacon")),
        Some(2),
        vec![Name::new("Frame"), Name::new("Frame")],
        Vec::new(),
    );
    assert_eq!(
        tree_with(namespace(), vec![import]).parameters_verified(),
        Err(SchemaError::DuplicateTypeParameter {
            declaration: "Beacon".to_owned(),
            parameter: "Frame".to_owned(),
        }),
    );
}

#[test]
fn an_impl_block_must_target_a_declared_type() {
    let tree = distinct_tree().with_impl_blocks(vec![ImplBlock::new(
        Name::new("Missing"),
        ImplCatalog::new(vec![ImplReference::Marker(Name::new("Clone"))]),
    )]);
    assert_eq!(
        tree.impls_verified().err(),
        Some(SchemaError::UnresolvedImplTarget { name: "Missing".to_owned() }),
    );
}

#[test]
fn a_surface_verifies_the_referenced_impls() {
    let signature = || {
        MethodSignature::new(
            Name::new("fmt"),
            vec![MethodParameter::new(Name::new("width"), TypeReference::Integer)],
            TypeReference::String,
        )
    };
    let tree = distinct_tree().with_impl_blocks(vec![ImplBlock::new(
        Name::new("Command"),
        ImplCatalog::new(vec![
            ImplReference::Marker(Name::new("Clone")),
            ImplReference::InherentMethod(signature()),
        ]),
    )]);
    let complete = RustSurface::new(vec![
        ImplFact::trait_impl(Name::new("Command"), Name::new("Clone")),
        ImplFact::method(Name::new("Command"), signature()),
    ]);
    assert_eq!(complete.verify_catalog(&tree), Ok(()));
    let missing_method = RustSurface::new(vec![ImplFact::trait_impl(
        Name::new("Command"),
        Name::new("Clone"),
    )]);
    assert_eq!(
        missing_method.verify_catalog(&tree),
        Err(SchemaError::UnverifiedImplReference {
            target: "Command".to_owned(),
            kind: "method signature".to_owned(),
            signature: signature().render(),
        }),
    );
    let missing_trait = RustSurface::new(Vec::new());
    assert_eq!(
        missing_trait.verify_catalog(&tree),
        Err(SchemaError::UnverifiedImplReference {
            target: "Command".to_owned(),
            kind: "trait impl".to_owned(),
            signature: "Clone".to_owned(),
        }),
    );
}

#[test]
fn symbol_paths_address_declared_positions() {
    let tree = distinct_tree();
    let path = tree.type_path("Command").expect("Command is declared");
    assert_eq!(path.to_text(), SymbolPath::type_path(&identity(), &Name::new("Command")).to_text());
    assert!(matches!(
        tree.symbol_path_position(&path),
        Some(SymbolPathPosition::Type { type_label }) if type_label.as_str() == "Command"
    ));
    let field = tree.field_path("Command", "topic").expect("Command has a topic field");
    assert!(matches!(
        tree.symbol_path_position(&field),
        Some(SymbolPathPosition::Field { type_label, field_name })
            if type_label.as_str() == "Command" && field_name.as_str() == "topic"
    ));
    let variant = tree.root_variant_path("Input", "Start").expect("Input has Start");
    assert!(matches!(
        tree.symbol_path_position(&variant),
        Some(SymbolPathPosition::RootVariant { root_name, variant_name })
            if root_name.as_str() == "Input" && variant_name.as_str() == "Start"
    ));
    assert!(tree.type_path("Missing").is_none());
    assert!(tree.field_path("Command", "missing").is_none());
    let stray = SymbolPath::type_path(&SchemaIdentity::new("other:lib", "0.1.0"), &Name::new("Command"));
    assert!(tree.symbol_path_position(&stray).is_none());
}

#[test]
fn a_field_map_iterates_its_fields_in_order() {
    let map = StructFieldMap::new(vec![
        FieldDeclaration::new(Name::new("left"), TypeReference::new("Integer")),
        FieldDeclaration::new(Name::new("right"), TypeReference::new("String")),
    ]);
    let names: Vec<&str> = map.iter().map(|field| field.name.as_str()).collect();
    assert_eq!(names, vec!["left", "right"]);
    assert_eq!(map.len(), 2);
}

fn tree_with_input(input: Root, namespace: Vec<Declaration>) -> SchemaTree {
    SchemaTree::new(identity(), Vec::new(), Vec::new(), input, root("Output", "Finish", "Report"), namespace)
}

#[test]
fn an_optional_variant_payload_is_rejected_by_name() {
    let input = Root::Enum(EnumDeclaration::new(
        Name::new("Input"),
        vec![EnumVariant::new(
            Name::new("Start"),
            Some(TypeReference::SingleTypeApplication {
                projection: SingleTypeReferenceProjection::Optional,
                argument: Box::new(TypeReference::new("Command")),
            }),
        )],
    ));
    assert_eq!(
        tree_with_input(input, namespace()).arities_verified().err(),
        Some(SchemaError::OptionalVariantPayload {
            enum_name: "Input".to_owned(),
            variant_name: "Start".to_owned(),
        }),
    );
}

#[test]
fn a_payload_repeating_its_variant_name_is_rejected() {
    let input = Root::Enum(EnumDeclaration::new(
        Name::new("Input"),
        vec![EnumVariant::new(Name::new("Command"), Some(TypeReference::new("Command")))],
    ));
    assert_eq!(
        tree_with_input(input, namespace()).arities_verified().err(),
        Some(SchemaError::SameNamedVariantPayload {
            enum_name: "Input".to_owned(),
            variant_name: "Command".to_owned(),
            payload_type: "Command".to_owned(),
        }),
    );
}

#[test]
fn the_first_wrong_arity_application_is_reported() {
    let mut declarations = namespace();
    declarations.push(
        Declaration::public(TypeDeclaration::Struct(StructDeclaration::new(
            Name::new("Pair"),
            vec![FieldDeclaration::new(Name::new("left"), TypeReference::new("Left"))],
        )))
        .with_parameters(vec![Name::new("Left"), Name::new("Right")]),
    );
    declarations.push(Declaration::public(TypeDeclaration::Newtype(NewtypeDeclaration::new(
        Name::new("Half"),
        TypeReference::Application {
            head: ApplicationHead::Local(Name::new("Pair")),
            arguments: vec![TypeReference::Integer],
        },
    ))));
    assert_eq!(
        tree_with(declarations, Vec::new()).arities_verified().err(),
        Some(SchemaError::GenericArityMismatch { head: "Pair".to_owned(), expected: 2, found: 1 }),
    );
}

#[test]
fn a_signature_renders_as_its_identity() {
    let fmt = MethodSignature::new(
        Name::new("fmt"),
        vec![MethodParameter::new(Name::new("width"), TypeReference::Integer)],
        TypeReference::String,
    );
    assert_eq!(fmt.render(), "fmt { width.Integer } String");
    let get = MethodSignature::new(
        Name::new("get"),
        vec![MethodParameter::new(Name::new("key"), TypeReference::String)],
        TypeReference::Integer,
    );
    assert_eq!(get.render(), "get { key.String } Integer");
    let ping = MethodSignature::new(Name::new("ping"), Vec::new(), TypeReference::Boolean);
    assert_eq!(ping.render(), "ping {  } Boolean");
    let nested = MethodSignature::new(
        Name::new("all"),
        vec![MethodParameter::new(
            Name::new("items"),
            TypeReference::vector(TypeReference::new("Item")),
        )],
        TypeReference::Plain(Name::new("Report")),
    );
    assert_eq!(nested.render(), "all { items.(Vector (Plain Item)) } (Plain Report)");
    let two = MethodSignature::new(
        Name::new("m"),
        vec![
            MethodParameter::new(Name::new("a"), TypeReference::String),
            MethodParameter::new(Name::new("b"), TypeReference::String),
        ],
        TypeReference::Integer,
    );
    let one = MethodSignature::new(
        Name::new("m"),
        vec![MethodParameter::new(Name::new("a.String b"), TypeReference::String)],
        TypeReference::Integer,
    );
    assert_eq!(two.render(), "m { a.String b.String } Integer");
    assert_eq!(one.render(), "m { \"a.String b\".String } Integer");
    assert_ne!(two.render(), one.render());
    let quoted = MethodSignature::new(Name::new("q\"x"), Vec::new(), TypeReference::Integer);
    assert_eq!(quoted.render(), "\"q\\\"x\" {  } Integer");
}

#[test]
fn duplicate_frame_parameters_are_rejected() {
    let mut declarations = namespace();
    declarations.push(
        Declaration::public(TypeDeclaration::Enum(EnumDeclaration::new(
            Name::new("Work"),
            vec![
                EnumVariant::new(Name::new("Started"), Some(TypeReference::new("Event"))),
                EnumVariant::new(Name::new("Completed"), Some(TypeReference::new("Outcome"))),
            ],
        )))
        .with_parameters(vec![Name::new("Event"), Name::new("Event")]),
    );
    assert_eq!(
        tree_with(declarations, Vec::new()).parameters_verified(),
        Err(SchemaError::DuplicateTypeParameter {
            declaration: "Work".to_owned(),
            parameter: "Event".to_owned(),
        }),
    );
}

#[test]
fn an_application_root_with_an_unused_missing_argument_expands() {
    let mut declarations = namespace();
    declarations.push(
        Declaration::public(TypeDeclaration::Enum(EnumDeclaration::new(
            Name::new("Work"),
            vec![
                EnumVariant::new(Name::new("Started"), Some(TypeReference::new("Event"))),
                EnumVariant::new(Name::new("Idle"), None),
            ],
        )))
        .with_parameters(vec![Name::new("Event"), Name::new("Outcome")]),
    );
    let tree = tree_with(declarations, Vec::new());
    let application = RootApplication::new(
        Name::new("Input"),
        ApplicationHead::Local(Name::new("Work")),
        vec![TypeReference::new("Command")],
    );
    let expanded = tree.expand_application_root(&application).expect("Work is a frame");
    assert_eq!(expanded.name.as_str(), "Input");
    assert_eq!(expanded.variants.len(), 2);
    assert_eq!(expanded.variants[0].payload.as_ref().and_then(|p| p.plain_name()).map(|n| n.as_str()), Some("Command"));
    assert!(expanded.variants[1].payload.is_none());
}
