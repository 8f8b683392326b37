use schema::{
    MacroPosition, Name, SchemaEnvironmentManifest, SchemaNodeType, SchemaRootBlockKind,
    SchemaSourcePosition, SchemaSourceRange, SchemaSourceSummary,
};

fn at(position: SchemaSourcePosition) -> (usize, usize, usize) {
    (position.byte(), position.line(), position.column())
}

#[test]
fn a_position_advances_by_bytes_lines_and_columns() {
    assert_eq!(at(SchemaSourcePosition::from_source_text("")), (0, 1, 1));
    assert_eq!(at(SchemaSourcePosition::from_source_text("ab\nc\u{e9}")), (6, 2, 3));
    assert_eq!(at(SchemaSourcePosition::from_source_text("\n\n")), (2, 3, 1));
}

#[test]
fn a_file_range_spans_the_whole_text() {
    let range = SchemaSourceRange::from_source_text("{}\n[A]");
    assert_eq!(at(range.start()), (0, 1, 1));
    assert_eq!(at(range.end()), (6, 2, 4));
}

fn block_range(line: usize) -> SchemaSourceRange {
    SchemaSourceRange::new(
        SchemaSourcePosition::new(line * 10, line, 1),
        SchemaSourcePosition::new(line * 10 + 2, line, 3),
    )
}

#[test]
fn a_summary_labels_the_module_and_its_six_blocks() {
    let ranges: Vec<SchemaSourceRange> = (1..=6).map(block_range).collect();
    let summary =
        SchemaSourceSummary::from_module_source("schemas/domain.schema", "{}\n", Some(&ranges));
    assert_eq!(summary.path(), "schemas/domain.schema");
    assert_eq!(at(summary.file_range().end()), (3, 2, 1));
    let kinds: Vec<SchemaRootBlockKind> = summary.root_blocks().iter().map(|b| b.kind()).collect();
    assert_eq!(
        kinds,
        vec![
            SchemaRootBlockKind::Imports,
            SchemaRootBlockKind::Input,
            SchemaRootBlockKind::Output,
            SchemaRootBlockKind::Types,
            SchemaRootBlockKind::Generics,
            SchemaRootBlockKind::Impls,
        ]
    );
    assert_eq!(summary.root_blocks()[1].node_type(), SchemaNodeType::InputRoot);
    assert_eq!(at(summary.root_blocks()[2].range().start()), (30, 3, 1));
    let labels: Vec<SchemaNodeType> =
        summary.node_type_labels().iter().map(|l| l.node_type()).collect();
    assert_eq!(
        labels,
        vec![
            SchemaNodeType::Module,
            SchemaNodeType::Imports,
            SchemaNodeType::InputRoot,
            SchemaNodeType::OutputRoot,
            SchemaNodeType::Types,
            SchemaNodeType::Generics,
            SchemaNodeType::Impls,
        ]
    );
    assert_eq!(at(summary.node_type_labels()[0].range().end()), (3, 2, 1));
}

#[test]
fn a_summary_without_the_layout_has_only_the_module_label() {
    let summary = SchemaSourceSummary::from_module_source("x.schema", "oops", None);
    assert!(summary.root_blocks().is_empty());
    assert_eq!(summary.node_type_labels().len(), 1);
    assert_eq!(summary.node_type_labels()[0].node_type(), SchemaNodeType::Module);
}

#[test]
fn a_manifest_keeps_its_module_names() {
    let manifest = SchemaEnvironmentManifest::new(vec![Name::new("core"), Name::new("mail")]);
    let names: Vec<&str> = manifest.module_names().iter().map(|n| n.as_str()).collect();
    assert_eq!(names, vec!["core", "mail"]);
}

#[test]
fn macro_positions_spell_their_keywords() {
    assert_eq!(MacroPosition::RootImports.as_str(), "RootImports");
    assert_eq!(MacroPosition::NamespaceDeclaration.as_str(), "NamespaceDeclaration");
    assert_eq!(MacroPosition::TypeReference.as_str(), "TypeReference");
}
