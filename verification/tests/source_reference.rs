use schema::{
    Name, SingleTypeReferenceProjection, SourceGenericDefinition, SourceGenericFieldNamePattern,
    SourceReference, TypeReference,
};

#[test]
fn single_type_alias_definition_projects_vector_by_definition_data() {
    let reference = SourceGenericDefinition::single_type(
        "List",
        SingleTypeReferenceProjection::Vector,
        SourceGenericFieldNamePattern::Suffix("list"),
    )
    .lower(vec![SourceReference::Plain(Name::new("Topic"))])
    .expect("List definition lowers by single-type kind data");

    assert_eq!(reference.to_schema_text(), "List.Topic");
    assert_eq!(reference.derived_field_name(), Name::new("topic_list"));
    assert!(reference
        .to_type_reference()
        .same(&TypeReference::vector(TypeReference::new("Topic"))));
}

#[test]
fn single_type_alias_definition_projects_optional_by_definition_data() {
    let reference = SourceGenericDefinition::single_type(
        "Maybe",
        SingleTypeReferenceProjection::Optional,
        SourceGenericFieldNamePattern::Prefix("maybe"),
    )
    .lower(vec![SourceReference::Plain(Name::new("Event"))])
    .expect("Maybe definition lowers by single-type kind data");

    assert_eq!(reference.to_schema_text(), "Maybe.Event");
    assert_eq!(reference.derived_field_name(), Name::new("maybe_event"));
    assert!(reference
        .to_type_reference()
        .same(&TypeReference::optional(TypeReference::new("Event"))));
}
