use schema::{
    BlockDelimiter, BlockForm, DeclarationHead, DelimiterText, DotosBlock, NamespaceEntryWalk,
    NamespacePairWalk, SchemaError,
};

fn atom(text: &str) -> DotosBlock {
    DotosBlock { form: BlockForm::Atom(text.to_owned()), fallback: text.to_owned() }
}

fn brace(children: Vec<DotosBlock>) -> DotosBlock {
    DotosBlock { form: BlockForm::Delimited(BlockDelimiter::Brace, children), fallback: "{}".to_owned() }
}

fn dotted(key: &str, value: DotosBlock) -> DotosBlock {
    DotosBlock {
        form: BlockForm::Application(Box::new(atom(key)), Box::new(value), None),
        fallback: key.to_owned(),
    }
}

fn key_text(block: &DotosBlock) -> String {
    match &block.form {
        BlockForm::Atom(text) => text.clone(),
        _ => block.fallback.clone(),
    }
}

#[test]
fn a_symbol_atom_names_a_declaration_head() {
    let head = DeclarationHead::from_block(&atom("Widget")).expect("a symbol names a head");
    assert_eq!(head.name().as_str(), "Widget");
    assert!(head.parameters().is_empty());
    let (name, parameters) = head.into_parts();
    assert_eq!(name.as_str(), "Widget");
    assert!(parameters.is_empty());
}

#[test]
fn a_non_symbol_is_no_declaration_head() {
    assert_eq!(
        DeclarationHead::from_block(&atom("two words")).unwrap_err(),
        SchemaError::ExpectedSymbol { found: "two words".to_owned() },
    );
    assert_eq!(
        DeclarationHead::from_block(&brace(Vec::new())).unwrap_err(),
        SchemaError::ExpectedSymbol { found: "{}".to_owned() },
    );
}

#[test]
fn the_entry_walk_segments_dotted_and_trailing_dot_entries() {
    let objects = vec![
        dotted("Topic", atom("String")),
        atom("Command."),
        brace(vec![atom("Topic")]),
        atom("Inline"),
    ];
    let mut walk = NamespaceEntryWalk::new(&objects);
    let first = walk.next_entry().unwrap().expect("a dotted entry");
    assert_eq!(key_text(first.name), "Topic");
    assert_eq!(key_text(first.definition), "String");
    let second = walk.next_entry().unwrap().expect("a trailing-dot entry");
    assert_eq!(key_text(second.name), "Command.");
    assert!(matches!(second.definition.form, BlockForm::Delimited(BlockDelimiter::Brace, _)));
    let third = walk.next_entry().unwrap().expect("an inline entry");
    assert_eq!(key_text(third.name), "Inline");
    assert_eq!(key_text(third.definition), "Inline");
    assert!(walk.next_entry().unwrap().is_none());
}

#[test]
fn a_trailing_dot_key_needs_a_value() {
    let objects = vec![atom("Command.")];
    let mut walk = NamespaceEntryWalk::new(&objects);
    assert_eq!(walk.next_entry().unwrap_err(), SchemaError::ExpectedDelimiter { expected: "a declaration value after a trailing-dot key" });
}

#[test]
fn the_pair_walk_yields_a_dangling_key_as_its_own_value() {
    let objects = vec![dotted("Topic", atom("String")), atom("Command.")];
    let mut walk = NamespacePairWalk::new(&objects);
    let first = walk.next_pair().expect("a dotted pair");
    assert_eq!(key_text(first.name), "Topic");
    assert_eq!(key_text(first.definition), "String");
    let second = walk.next_pair().expect("a dangling key");
    assert_eq!(key_text(second.name), "Command.");
    assert_eq!(key_text(second.definition), "Command.");
    assert!(walk.next_pair().is_none());
}

#[test]
fn delimiter_text_wraps_children_unpadded() {
    let children = vec!["a".to_owned(), "b".to_owned()];
    assert_eq!(DelimiterText::new(BlockDelimiter::Parenthesis).wrap(&children), "(a b)");
    assert_eq!(DelimiterText::new(BlockDelimiter::SquareBracket).wrap(&children), "[a b]");
    assert_eq!(DelimiterText::new(BlockDelimiter::Brace).wrap(&children), "{a b}");
    assert_eq!(DelimiterText::new(BlockDelimiter::PipeParenthesis).wrap(&children), "(|a b|)");
    assert_eq!(DelimiterText::new(BlockDelimiter::PipeBrace).wrap(&Vec::new()), "{||}");
}

#[test]
fn a_block_tree_reemits_faithfully() {
    let pipe = DotosBlock { form: BlockForm::PipeText("note".to_owned()), fallback: "[|note|]".to_owned() };
    let square = DotosBlock {
        form: BlockForm::Delimited(BlockDelimiter::SquareBracket, vec![atom("A"), pipe]),
        fallback: "[]".to_owned(),
    };
    let tree = brace(vec![dotted("Widget", square), atom("Tail")]);
    assert_eq!(tree.reemit(), "{Widget.[A [|note|]] Tail}");
    assert_eq!(brace(Vec::new()).reemit(), "{}");
}
