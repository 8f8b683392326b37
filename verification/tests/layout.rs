use schema::{
    BlockDelimiter, BlockForm, DotosBlock, SchemaDocumentLayout, SchemaError, SchemaNodeType,
    SchemaSourcePosition, SchemaSourceRange, SchemaSourceSummary,
};

fn atom(text: &str) -> DotosBlock {
    DotosBlock { form: BlockForm::Atom(text.to_owned()), fallback: text.to_owned() }
}

fn brace() -> DotosBlock {
    DotosBlock { form: BlockForm::Delimited(BlockDelimiter::Brace, Vec::new()), fallback: "{}".to_owned() }
}

fn square() -> DotosBlock {
    DotosBlock {
        form: BlockForm::Delimited(BlockDelimiter::SquareBracket, Vec::new()),
        fallback: "[]".to_owned(),
    }
}

/// `{} Input. [] Output {} {} {}`: seven objects, the input a dotted head
/// and its payload.
fn document() -> Vec<DotosBlock> {
    vec![brace(), atom("Input."), square(), atom("Output"), brace(), brace(), brace()]
}

fn object_range(line: usize) -> SchemaSourceRange {
    SchemaSourceRange::new(
        SchemaSourcePosition::new(line * 10, line, 1),
        SchemaSourcePosition::new(line * 10 + 2, line, 3),
    )
}

fn slots(layout: &SchemaDocumentLayout) -> Vec<(usize, usize)> {
    [layout.imports(), layout.input(), layout.output(), layout.types(), layout.generics(), layout.impls()]
        .iter()
        .map(|s| (s.start(), s.width()))
        .collect()
}

#[test]
fn a_document_splits_into_six_slots() {
    let layout = SchemaDocumentLayout::from_root_objects(&document()).expect("layout");
    assert_eq!(slots(&layout), vec![(0, 1), (1, 2), (3, 1), (4, 1), (5, 1), (6, 1)]);
}

#[test]
fn a_layout_needs_every_slot() {
    let mut objects = document();
    objects.pop();
    assert_eq!(
        SchemaDocumentLayout::from_root_objects(&objects).unwrap_err(),
        SchemaError::ExpectedRootObjectCount {
            expected: "6 root slots (imports input output types generics impls)",
            found: 6,
        }
    );
}

#[test]
fn a_layout_refuses_objects_after_the_last_slot() {
    let mut objects = document();
    objects.push(brace());
    assert_eq!(
        SchemaDocumentLayout::from_root_objects(&objects).unwrap_err(),
        SchemaError::ExpectedRootObjectCount {
            expected: "6 root slots (imports input output types generics impls)",
            found: 8,
        }
    );
}

#[test]
fn a_brace_slot_refuses_another_block() {
    let mut objects = document();
    objects[4] = atom("Types");
    assert_eq!(
        SchemaDocumentLayout::from_root_objects(&objects).unwrap_err(),
        SchemaError::ExpectedSyntaxDeclaration {
            found: "types root slot Types, expected brace block".to_owned(),
        }
    );
}

#[test]
fn a_dotted_head_needs_its_payload() {
    let objects = vec![brace(), atom("Input"), atom("Output.")];
    assert_eq!(
        SchemaDocumentLayout::from_root_objects(&objects).unwrap_err(),
        SchemaError::ExpectedSyntaxReferenceArity {
            form: "dotted reference",
            expected: "a head and payload",
            found: 1,
        }
    );
}

#[test]
fn a_summary_ranges_each_slot_over_its_objects() {
    let objects = document();
    let ranges: Vec<SchemaSourceRange> = (1..=7).map(object_range).collect();
    let summary = SchemaSourceSummary::from_root_objects("domain.schema", "{}\n", &objects, &ranges);
    assert_eq!(summary.root_blocks().len(), 6);
    let input = summary.root_blocks()[1].range();
    assert_eq!(input.start().byte(), 20);
    assert_eq!(input.end().byte(), 32);
    assert_eq!(summary.root_blocks()[2].range().start().byte(), 40);
    assert_eq!(summary.node_type_labels()[2].node_type(), SchemaNodeType::InputRoot);
}

#[test]
fn a_summary_without_the_layout_has_no_root_blocks() {
    let objects = vec![brace()];
    let ranges = vec![object_range(1)];
    let summary = SchemaSourceSummary::from_root_objects("x.schema", "{}", &objects, &ranges);
    assert!(summary.root_blocks().is_empty());
    assert_eq!(summary.node_type_labels().len(), 1);
}
