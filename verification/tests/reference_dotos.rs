use schema::{
    ApplicationHead, BlockDelimiter, BlockForm, DotosBlock, MultiTypeReferenceProjection, Name,
    ReferenceDecodeError, SingleTypeReferenceProjection, TypeReference, ValueReferenceProjection,
};

fn atom(text: &str) -> DotosBlock {
    DotosBlock { form: BlockForm::Atom(text.to_owned()), fallback: text.to_owned() }
}

fn group(children: Vec<DotosBlock>) -> DotosBlock {
    DotosBlock { form: BlockForm::Delimited(BlockDelimiter::Parenthesis, children), fallback: "(…)".to_owned() }
}

fn decoded(block: &DotosBlock) -> TypeReference {
    TypeReference::from_dotos_block(block).expect("canonical reference")
}

#[test]
fn canonical_scalars_read_back() {
    for (text, expected) in [
        ("String", TypeReference::String),
        ("Integer", TypeReference::Integer),
        ("Boolean", TypeReference::Boolean),
        ("Path", TypeReference::Path),
        ("Bytes", TypeReference::Bytes),
    ] {
        assert!(decoded(&atom(text)).same(&expected));
    }
    let pipe = DotosBlock { form: BlockForm::PipeText("Integer".to_owned()), fallback: "[|Integer|]".to_owned() };
    assert!(decoded(&pipe).same(&TypeReference::Integer));
}

#[test]
fn canonical_applications_read_back() {
    let plain = group(vec![atom("Plain"), atom("Widget")]);
    assert!(decoded(&plain).same(&TypeReference::Plain(Name::new("Widget"))));

    let vector = group(vec![atom("Vector"), atom("Integer")]);
    assert!(decoded(&vector).same(&TypeReference::single_type_application(
        SingleTypeReferenceProjection::Vector,
        TypeReference::Integer,
    )));

    let optional = group(vec![atom("Optional"), group(vec![atom("Plain"), atom("Note")])]);
    assert!(decoded(&optional).same(&TypeReference::single_type_application(
        SingleTypeReferenceProjection::Optional,
        TypeReference::Plain(Name::new("Note")),
    )));

    let map = group(vec![atom("Map"), atom("String"), atom("Integer")]);
    assert!(decoded(&map).same(&TypeReference::multi_type_application(
        MultiTypeReferenceProjection::KeyedMap,
        vec![TypeReference::String, TypeReference::Integer],
    )));

    let bytes = group(vec![atom("Bytes"), atom("32")]);
    assert!(decoded(&bytes).same(&TypeReference::value_application(ValueReferenceProjection::Bytes, 32)));

    let application = group(vec![
        atom("Application"),
        group(vec![atom("Pair"), group(vec![atom("String"), atom("Integer")])]),
    ]);
    assert!(decoded(&application).same(&TypeReference::Application {
        head: ApplicationHead::Local(Name::new("Pair")),
        arguments: vec![TypeReference::String, TypeReference::Integer],
    }));
}

#[test]
fn malformed_canonical_references_are_refused() {
    assert_eq!(
        TypeReference::from_dotos_block(&atom("Widget")).unwrap_err(),
        ReferenceDecodeError::UnknownVariant { enum_name: "TypeReference", variant: "Widget".to_owned() }
    );
    let brace = DotosBlock { form: BlockForm::Delimited(BlockDelimiter::Brace, vec![]), fallback: "{}".to_owned() };
    assert_eq!(
        TypeReference::from_dotos_block(&brace).unwrap_err(),
        ReferenceDecodeError::ExpectedDelimited { position: "TypeReference", delimiter: "(" }
    );
    assert_eq!(
        TypeReference::from_dotos_block(&group(vec![])).unwrap_err(),
        ReferenceDecodeError::ExpectedRootCount { position: "TypeReference", expected: 1, found: 0 }
    );
    assert_eq!(
        TypeReference::from_dotos_block(&group(vec![atom("Frob"), atom("X")])).unwrap_err(),
        ReferenceDecodeError::UnknownVariant { enum_name: "TypeReference", variant: "Frob".to_owned() }
    );
    assert_eq!(
        TypeReference::from_dotos_block(&group(vec![atom("Bytes"), atom("wide")])).unwrap_err(),
        ReferenceDecodeError::ExpectedAtom { position: "value application width" }
    );
    assert_eq!(
        TypeReference::from_dotos_block(&group(vec![atom("Application"), group(vec![atom("Pair")])])).unwrap_err(),
        ReferenceDecodeError::ExpectedRootCount { position: "TypeReference::Application payload", expected: 2, found: 1 }
    );
    assert_eq!(
        TypeReference::from_dotos_block(&group(vec![atom("Map"), atom("String"), atom("Widget")])).unwrap_err(),
        ReferenceDecodeError::UnknownVariant { enum_name: "TypeReference", variant: "Widget".to_owned() }
    );
}
