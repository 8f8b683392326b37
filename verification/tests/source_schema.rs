use schema::{
    Name, SchemaError, SchemaSource, SchemaSourceArtifact, SourceDeclarationValue,
    SourceEnumBody, SourceField, SourceGenericEntry, SourceGenerics, SourceImplCatalog,
    SourceImplEntry, SourceImpls, SourceImplsEntry, SourceImport, SourceImports,
    SourceMethodParameter, SourceMethodSignature, SourceReference, SourceRootBody,
    SourceRootEnum, SourceStructBody, SourceTypeEntry, SourceTypes, SourceVariantPayload,
    SourceVariantSignature, TypeReference,
};

fn names(values: &[&str]) -> Vec<Name> {
    values.iter().map(|value| Name::new(value)).collect()
}

fn plain(name: &str) -> SourceReference {
    SourceReference::plain(Name::new(name))
}

fn sample() -> SchemaSource {
    let imports = SourceImports::new(vec![
        SourceImport::new(names(&["a", "b"]), names(&["X"])).expect("valid import"),
        SourceImport::new(names(&["c"]), names(&["Y", "Z"])).expect("valid import"),
    ]);
    let input = SourceRootEnum::new(
        Name::new("Input"),
        SourceRootBody::Enum(SourceEnumBody::new(vec![SourceVariantSignature::from_payload(
            Name::new("Start"),
            SourceVariantPayload::Reference(plain("Command")),
        )])),
    );
    let output = SourceRootEnum::new(
        Name::new("Output"),
        SourceRootBody::Application(SourceReference::application(
            Name::new("Frame"),
            vec![plain("Report")],
        )),
    );
    let types = SourceTypes::new(vec![SourceTypeEntry::new(
        Name::new("Topic"),
        SourceDeclarationValue::Reference(plain("String")),
    )]);
    let generics = SourceGenerics::new(vec![SourceGenericEntry::new(
        Name::new("Pair"),
        names(&["A", "B"]),
        SourceDeclarationValue::Struct(SourceStructBody::new(vec![
            SourceField::derived(Name::new("A")),
            SourceField::derived(Name::new("B")),
        ])),
    )]);
    SchemaSource::new(imports, input, output, types, generics, SourceImpls::new(Vec::new()))
}

#[test]
fn a_schema_source_renders_its_six_blocks() {
    let expected = "{\n  a.b.X\n  c.[Y Z]\n}\n[Start.Command]\nFrame.Report\n{\n  Topic.String\n}\n{\n  Pair.((A B) { A B })\n}\n{}";
    assert_eq!(sample().to_schema_text(), expected);
    let artifact = SchemaSourceArtifact::new(sample());
    assert_eq!(artifact.to_schema_text(), expected);
    assert_eq!(artifact.source().input().name().as_str(), "Input");
    assert_eq!(artifact.into_source().types().entries()[0].name().as_str(), "Topic");
}

#[test]
fn an_empty_import_block_renders_as_braces() {
    assert_eq!(SourceImports::empty().to_schema_text(), "{}");
    assert!(SourceImports::empty().entries().is_empty());
}

#[test]
fn imports_need_a_path_and_targets() {
    assert_eq!(
        SourceImport::new(Vec::new(), names(&["X"])).unwrap_err(),
        SchemaError::MalformedImportSource { found: ".X".to_owned() },
    );
    assert_eq!(
        SourceImport::new(names(&["a"]), Vec::new()).unwrap_err(),
        SchemaError::MalformedImportSource { found: "a.[]".to_owned() },
    );
}

#[test]
fn import_path_segments_are_lowercase() {
    assert_eq!(
        SourceImport::new(names(&["a", "Bad", "Worse"]), names(&["X"])).unwrap_err(),
        SchemaError::MalformedImportSource { found: "Bad".to_owned() },
    );
}

#[test]
fn import_targets_are_simple_type_names() {
    assert_eq!(
        SourceImport::new(names(&["a"]), names(&["X", "lower"])).unwrap_err(),
        SchemaError::MalformedImportTarget { target: "lower".to_owned() },
    );
    assert_eq!(
        SourceImport::new(names(&["a"]), names(&["X.Y", "Z"])).unwrap_err(),
        SchemaError::MalformedImportTarget { target: "X.Y".to_owned() },
    );
}

#[test]
fn each_import_target_becomes_a_declaration() {
    let import = SourceImport::new(names(&["core", "mail"]), names(&["Beacon", "Letter"]))
        .expect("valid import");
    assert_eq!(import.to_schema_text(), "core.mail.[Beacon Letter]");
    let declarations = import.to_schema_imports();
    assert_eq!(declarations.len(), 2);
    assert_eq!(declarations[0].local_name.as_str(), "Beacon");
    assert!(declarations[0].source.same(&TypeReference::new("core:mail:Beacon")));
    assert!(declarations[1].source.same(&TypeReference::new("core:mail:Letter")));
    let imports = SourceImports::new(vec![import]);
    assert_eq!(imports.to_schema_imports().len(), 2);
}

#[test]
fn impls_render_their_catalogs() {
    let signature = SourceMethodSignature::new(
        Name::new("fmt"),
        vec![SourceMethodParameter::new(Name::new("width"), plain("Integer"))],
        plain("String"),
    );
    let impls = SourceImpls::new(vec![SourceImplsEntry::new(
        Name::new("Topic"),
        SourceImplCatalog::new(vec![
            SourceImplEntry::Marker(Name::new("Clone")),
            SourceImplEntry::TraitImpl(Name::new("Display"), vec![signature]),
        ]),
    )]);
    assert_eq!(
        impls.to_schema_text(),
        "{\n  Topic.[ Clone Display [ (fmt { width.Integer } String) ] ]\n}"
    );
}

#[test]
fn root_bodies_report_their_inline_declarations() {
    let record = SourceStructBody::new(vec![
        SourceField::from_reference(Name::new("Entry"), plain("Entry")),
        SourceField::derived(Name::new("Topic")),
        SourceField::from_reference(Name::new("note"), plain("Text")),
    ]);
    let body = SourceRootBody::Enum(SourceEnumBody::new(vec![
        SourceVariantSignature::from_name(Name::new("Idle")),
        SourceVariantSignature::from_payload(
            Name::new("Record"),
            SourceVariantPayload::Declaration(SourceDeclarationValue::Struct(record)),
        ),
    ]));
    let inline: Vec<String> =
        body.inline_declaration_names().iter().map(|n| n.as_str().to_owned()).collect();
    assert_eq!(inline, vec!["Record".to_owned()]);
    let fields: Vec<String> = body
        .public_inline_field_declaration_names()
        .iter()
        .map(|n| n.as_str().to_owned())
        .collect();
    assert_eq!(fields, vec!["Entry".to_owned()]);
    let application = SourceRootBody::Application(plain("Frame"));
    assert!(application.inline_declaration_names().is_empty());
    assert!(application.as_enum().is_none());
    assert!(body.as_application().is_none());
}

#[test]
fn a_semantic_field_renders_implicitly_when_its_name_is_derived() {
    let implicit = SourceField::from_type_reference(Name::new("topic"), &TypeReference::new("Topic"));
    assert_eq!(implicit.to_schema_text(), "Topic");
    let explicit = SourceField::from_type_reference(Name::new("other"), &TypeReference::new("Topic"));
    assert_eq!(explicit.to_schema_text(), "other.Topic");
}

fn import_atom(text: &str) -> schema::DotosBlock {
    schema::DotosBlock { form: schema::BlockForm::Atom(text.to_owned()), fallback: text.to_owned() }
}

fn import_dotted(head: schema::DotosBlock, payload: schema::DotosBlock, fallback: &str) -> schema::DotosBlock {
    schema::DotosBlock {
        form: schema::BlockForm::Application(Box::new(head), Box::new(payload), None),
        fallback: fallback.to_owned(),
    }
}

fn name_texts(values: &[Name]) -> Vec<String> {
    values.iter().map(|value| value.as_str().to_owned()).collect()
}

#[test]
fn import_reader_takes_a_dotted_single_target() {
    let blocks = vec![
        import_dotted(
            import_atom("crate"),
            import_dotted(import_atom("mail"), import_atom("Letter"), "mail.Letter"),
            "crate.mail.Letter",
        ),
        import_atom("after"),
    ];
    let mut index = 0;
    let import = SourceImport::from_blocks_at(&blocks, &mut index).expect("import entry");
    assert_eq!(index, 1);
    assert_eq!(name_texts(import.path()), vec!["crate", "mail"]);
    assert_eq!(name_texts(import.targets()), vec!["Letter"]);
}

fn import_bracket(targets: Vec<schema::DotosBlock>) -> schema::DotosBlock {
    schema::DotosBlock {
        form: schema::BlockForm::Delimited(schema::BlockDelimiter::SquareBracket, targets),
        fallback: "[…]".to_owned(),
    }
}

#[test]
fn import_reader_takes_a_bracket_of_targets() {
    let targets = vec![
        import_atom("Letter"),
        schema::DotosBlock { form: schema::BlockForm::PipeText("Parcel".to_owned()), fallback: "[|Parcel|]".to_owned() },
    ];
    let blocks = vec![import_dotted(import_atom("post"), import_bracket(targets), "post.[…]")];
    let mut index = 0;
    let import = SourceImport::from_blocks_at(&blocks, &mut index).expect("import entry");
    assert_eq!(index, 1);
    assert_eq!(name_texts(import.path()), vec!["post"]);
    assert_eq!(name_texts(import.targets()), vec!["Letter", "Parcel"]);

    let dotted_target = vec![import_atom("Letter"), import_dotted(import_atom("Box"), import_atom("Crate"), "Box.Crate")];
    let blocks = vec![import_dotted(import_atom("post"), import_bracket(dotted_target), "post.[…]")];
    let mut index = 0;
    assert_eq!(
        SourceImport::from_blocks_at(&blocks, &mut index).unwrap_err(),
        SchemaError::MalformedImportTarget { target: "Box.Crate".to_owned() }
    );
}

#[test]
fn import_reader_refuses_a_malformed_entry() {
    let mut index = 0;
    assert_eq!(
        SourceImport::from_blocks_at(&[], &mut index).unwrap_err(),
        SchemaError::MalformedImportSource { found: String::new() }
    );
    let brace = schema::DotosBlock {
        form: schema::BlockForm::Delimited(schema::BlockDelimiter::Brace, vec![]),
        fallback: "{}".to_owned(),
    };
    let blocks = vec![import_dotted(import_atom("post"), brace, "post.{}")];
    assert_eq!(
        SourceImport::from_blocks_at(&blocks, &mut index).unwrap_err(),
        SchemaError::MalformedImportSource { found: "{}".to_owned() }
    );
    let blocks = vec![import_atom("Letter")];
    let mut index = 0;
    assert!(matches!(
        SourceImport::from_blocks_at(&blocks, &mut index),
        Err(SchemaError::MalformedImportSource { .. })
    ));
}
