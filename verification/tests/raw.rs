use schema::{
    BlockDelimiter, BlockForm, DotosBlock, RawDotosDatatype, RawSchemaFile, SchemaError,
};

fn atom(text: &str) -> DotosBlock {
    DotosBlock { form: BlockForm::Atom(text.to_owned()), fallback: text.to_owned() }
}

fn pipe(text: &str) -> DotosBlock {
    DotosBlock {
        form: BlockForm::PipeText(text.to_owned()),
        fallback: format!("[|{text}|]"),
    }
}

fn group(delimiter: BlockDelimiter, children: Vec<DotosBlock>, fallback: &str) -> DotosBlock {
    DotosBlock { form: BlockForm::Delimited(delimiter, children), fallback: fallback.to_owned() }
}

fn entry(key: &str, value: DotosBlock) -> DotosBlock {
    let fallback = format!("{key}.{}", value.fallback);
    DotosBlock {
        form: BlockForm::Application(Box::new(atom(key)), Box::new(value), None),
        fallback,
    }
}

fn document() -> Vec<DotosBlock> {
    vec![group(
        BlockDelimiter::Brace,
        vec![
            entry("Name", atom("String")),
            entry(
                "Pair",
                group(BlockDelimiter::Parenthesis, vec![atom("A"), pipe("b c")], "(A [|b c|])"),
            ),
            entry("List", group(BlockDelimiter::SquareBracket, vec![atom("Item")], "[Item]")),
            entry(
                "Nested",
                group(BlockDelimiter::Brace, vec![entry("role", atom("Kind"))], "{role.Kind}"),
            ),
        ],
        "{...}",
    )]
}

#[test]
fn a_raw_file_reads_its_root_name_from_the_stem() {
    let file = RawSchemaFile::from_stem_and_root_objects("my-schema_file2", &document())
        .expect("a one-map document reads");
    assert_eq!(file.root_name().as_str(), "MySchemaFile2");
}

#[test]
fn a_raw_file_reads_each_datatype() {
    let file = RawSchemaFile::from_stem_and_root_objects("domain", &document()).expect("reads");
    let map = file.datatypes();
    assert_eq!(map.entries().len(), 4);
    assert_eq!(map.entries()[0].name().as_str(), "Name");
    assert_eq!(map.datatype_named("Name").and_then(RawDotosDatatype::as_atom), Some("String"));
    let pair = map
        .datatype_named("Pair")
        .and_then(RawDotosDatatype::as_record)
        .expect("a parenthesized group is a record");
    assert_eq!(pair.items().len(), 2);
    assert_eq!(pair.items()[1].as_text(), Some("b c"));
    let list = map
        .datatype_named("List")
        .and_then(RawDotosDatatype::as_vector)
        .expect("a bracketed group is a vector");
    assert_eq!(list.items()[0].as_atom(), Some("Item"));
    let nested = map
        .datatype_named("Nested")
        .and_then(RawDotosDatatype::as_key_value)
        .expect("a braced group is a map");
    assert_eq!(nested.datatype_named("role").and_then(RawDotosDatatype::as_atom), Some("Kind"));
    assert!(map.datatype_named("Absent").is_none());
}

#[test]
fn a_raw_file_needs_exactly_one_root() {
    let mut two = document();
    two.push(atom("Extra"));
    assert_eq!(
        RawSchemaFile::from_stem_and_root_objects("domain", &two).unwrap_err(),
        SchemaError::ExpectedRootObjectCount { expected: "one root key-value datatype map", found: 2 },
    );
    assert_eq!(
        RawSchemaFile::from_stem_and_root_objects("domain", &Vec::new()).unwrap_err(),
        SchemaError::ExpectedRootObjectCount { expected: "one root key-value datatype map", found: 0 },
    );
}

#[test]
fn a_raw_file_root_must_be_a_braced_map() {
    let roots = vec![group(BlockDelimiter::SquareBracket, Vec::new(), "[]")];
    assert_eq!(
        RawSchemaFile::from_stem_and_root_objects("domain", &roots).unwrap_err(),
        SchemaError::ExpectedDelimiter { expected: "root key-value datatype map" },
    );
}

#[test]
fn a_map_entry_must_be_dotted() {
    let roots = vec![group(BlockDelimiter::Brace, vec![atom("Loose")], "{Loose}")];
    assert_eq!(
        RawSchemaFile::from_stem_and_root_objects("domain", &roots).unwrap_err(),
        SchemaError::ExpectedDottedEntry,
    );
}

#[test]
fn a_map_key_must_be_a_symbol() {
    let key = pipe("not a symbol");
    let bad = DotosBlock {
        form: BlockForm::Application(Box::new(key), Box::new(atom("String")), None),
        fallback: "[|not a symbol|].String".to_owned(),
    };
    let roots = vec![group(BlockDelimiter::Brace, vec![bad], "{...}")];
    assert_eq!(
        RawSchemaFile::from_stem_and_root_objects("domain", &roots).unwrap_err(),
        SchemaError::ExpectedSymbol { found: "[|not a symbol|]".to_owned() },
    );
}

#[test]
fn pipe_delimited_groups_are_not_datatypes() {
    let block = group(BlockDelimiter::PipeBrace, Vec::new(), "{||}");
    assert_eq!(
        RawDotosDatatype::from_block(&block).unwrap_err(),
        SchemaError::ExpectedSyntaxReference { found: "{||}".to_owned() },
    );
}

#[test]
fn a_dotted_application_reads_as_its_dotted_text() {
    let dotted = DotosBlock {
        form: BlockForm::Application(
            Box::new(atom("module")),
            Box::new(atom("Type")),
            Some("module.Type".to_owned()),
        ),
        fallback: "module.Type".to_owned(),
    };
    assert_eq!(RawDotosDatatype::from_block(&dotted).unwrap().as_atom(), Some("module.Type"));
    let grouped = DotosBlock {
        form: BlockForm::Application(
            Box::new(atom("Head")),
            Box::new(group(BlockDelimiter::Parenthesis, vec![atom("A")], "(A)")),
            None,
        ),
        fallback: "Head.(A)".to_owned(),
    };
    assert_eq!(
        RawDotosDatatype::from_block(&grouped).unwrap_err(),
        SchemaError::ExpectedSyntaxReference { found: "Head.(A)".to_owned() },
    );
}

#[test]
fn the_first_failing_entry_is_reported() {
    let roots = vec![group(
        BlockDelimiter::Brace,
        vec![entry("Good", atom("String")), atom("First"), atom("Second")],
        "{...}",
    )];
    assert_eq!(
        RawSchemaFile::from_stem_and_root_objects("domain", &roots).unwrap_err(),
        SchemaError::ExpectedDottedEntry,
    );
}
