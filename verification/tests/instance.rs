use schema::{InstanceReference, InstanceSchema, InstanceSchemaBody, InstanceSchemaText};

fn named(name: &str) -> InstanceReference {
    InstanceReference::Named(name.to_owned())
}

fn scalar(name: &str) -> InstanceSchema {
    InstanceSchema { expected: named(name), body: InstanceSchemaBody::Scalar }
}

fn structure(name: &str, fields: Vec<InstanceSchema>) -> InstanceSchema {
    InstanceSchema { expected: named(name), body: InstanceSchemaBody::Struct(fields) }
}

fn entry() -> InstanceSchema {
    structure("Entry", vec![scalar("Domains"), scalar("Kind"), scalar("Description")])
}

fn justification() -> InstanceSchema {
    structure("Justification", vec![scalar("Testimony"), scalar("Reasoning")])
}

/// `Input::Record(Record(RecordRequest { entry, justification }))`.
fn input_record() -> InstanceSchema {
    let request = structure("RecordRequest", vec![entry(), justification()]);
    let wrapper = InstanceSchema {
        expected: named("Record"),
        body: InstanceSchemaBody::Newtype(Box::new(request)),
    };
    InstanceSchema {
        expected: named("Input"),
        body: InstanceSchemaBody::EnumPayload(Some(Box::new(wrapper))),
    }
}

#[test]
fn a_struct_aligns_as_its_field_references() {
    assert_eq!(InstanceSchemaText::new(&entry()).aligned(), "{ Domains Kind Description }");
}

#[test]
fn a_newtype_payload_collapses_to_its_wrapped_reference_when_aligned() {
    let partial = InstanceSchema {
        expected: named("Partial"),
        body: InstanceSchemaBody::Newtype(Box::new(scalar("DomainScopes"))),
    };
    let domain_match = InstanceSchema {
        expected: named("DomainMatch"),
        body: InstanceSchemaBody::EnumPayload(Some(Box::new(partial))),
    };
    assert_eq!(InstanceSchemaText::new(&domain_match).aligned(), "DomainMatch.DomainScopes");
}

#[test]
fn a_wrapped_struct_payload_aligns_as_its_field_group() {
    assert_eq!(
        InstanceSchemaText::new(&input_record()).aligned(),
        "Input.({ Domains Kind Description } { Testimony Reasoning })"
    );
}

#[test]
fn a_wrapped_struct_payload_expands_as_its_field_group() {
    assert_eq!(
        InstanceSchemaText::new(&input_record()).expanded(),
        "Input.({ Domains Kind Description } { Testimony Reasoning })"
    );
}

#[test]
fn collections_expand_element_by_element() {
    let vector = InstanceSchema {
        expected: InstanceReference::Vector(Box::new(named("Topic"))),
        body: InstanceSchemaBody::Vector(vec![scalar("Topic"), scalar("Topic")]),
    };
    assert_eq!(InstanceSchemaText::new(&vector).expanded(), "[Topic Topic]");
    let empty = InstanceSchema {
        expected: InstanceReference::Vector(Box::new(named("Topic"))),
        body: InstanceSchemaBody::Vector(Vec::new()),
    };
    assert_eq!(InstanceSchemaText::new(&empty).expanded(), "Vector.Topic");
    let map = InstanceSchema {
        expected: InstanceReference::KeyedMap(Box::new(named("Key")), Box::new(named("Value"))),
        body: InstanceSchemaBody::KeyedMap(vec![(scalar("Key"), scalar("Value"))]),
    };
    assert_eq!(InstanceSchemaText::new(&map).expanded(), "{ Key Value }");
    assert_eq!(InstanceSchemaText::new(&map).aligned(), "Map.(Key Value)");
}

#[test]
fn optional_and_newtype_keep_both_facts_when_expanded() {
    let optional = InstanceSchema {
        expected: InstanceReference::Optional(Box::new(named("Event"))),
        body: InstanceSchemaBody::Optional(Some(Box::new(scalar("Event")))),
    };
    assert_eq!(InstanceSchemaText::new(&optional).expanded(), "Optional.Event.Event");
    let absent = InstanceSchema {
        expected: InstanceReference::Optional(Box::new(named("Event"))),
        body: InstanceSchemaBody::Optional(None),
    };
    assert_eq!(InstanceSchemaText::new(&absent).expanded(), "Optional.Event");
    let newtype = InstanceSchema {
        expected: named("Wrapper"),
        body: InstanceSchemaBody::Newtype(Box::new(scalar("Inner"))),
    };
    assert_eq!(InstanceSchemaText::new(&newtype).expanded(), "Wrapper.Inner");
    assert_eq!(InstanceSchemaText::new(&newtype).aligned(), "Wrapper");
}

#[test]
fn fixed_bytes_render_through_the_bytes_definition() {
    let bytes = InstanceSchema {
        expected: InstanceReference::FixedBytes(32),
        body: InstanceSchemaBody::Scalar,
    };
    assert_eq!(InstanceSchemaText::new(&bytes).reference_text(), "Bytes.32");
}

#[test]
fn an_empty_struct_renders_as_bare_braces() {
    assert_eq!(InstanceSchemaText::new(&structure("Unit", Vec::new())).expanded(), "{}");
}
