use schema::{MacroContext, MacroPosition};

#[test]
fn a_context_records_what_fired_in_order() {
    let mut context = MacroContext::default();
    context.remember_position(MacroPosition::RootInput);
    context.remember_macro("root-enum");
    context.remember_position(MacroPosition::EnumVariants);
    context.remember_binding("root-enum", "variant_name");
    context.remember_expanded_template("frame", "(Option T)");
    assert_eq!(context.positions_seen(), &[MacroPosition::RootInput, MacroPosition::EnumVariants]);
    assert_eq!(context.macros_applied(), &["root-enum".to_string()]);
    assert_eq!(context.bindings_seen(), &["root-enum::variant_name".to_string()]);
    assert_eq!(context.expanded_templates(), &["frame -> (Option T)".to_string()]);
}

#[test]
fn draining_from_the_current_count_takes_nothing() {
    let mut context = MacroContext::new();
    let start = context.inline_declaration_count();
    assert_eq!(start, 0);
    assert!(context.drain_inline_declarations_from(start).is_empty());
    assert!(context.inline_declarations().is_empty());
}
