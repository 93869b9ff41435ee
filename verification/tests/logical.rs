use glam_syntax::access_inventory::BoundaryCounts;
use glam_syntax::ast::{DeclarationKind, SyntaxExpr};
use glam_syntax::diagnostic::{Diagnostic, Severity};
use glam_syntax::lexical::{lex_source, TokenKind};
use glam_syntax::logical::{macro_invocation_at, macro_layout_end, MacroInvocation};
use glam_syntax::macro_io::{MacroInput, MacroInputKind, MacroOutput};
use glam_syntax::rewrite::{
    generated_output, validate_generated_text, DeclarationMacroWork, OriginalMacroInvocation,
    EMBEDDED_MARKER,
};
use glam_syntax::source::parse_expanded_text;
use glam_syntax::values::Value;

fn assert_rewrite_owner_inventory(
    invocation: &MacroInvocation,
    original: &OriginalMacroInvocation,
    work: &DeclarationMacroWork,
) {
    let MacroInvocation {
        path: _,
        start: _,
        anchor_position: _,
        indentation: _,
        input,
    } = invocation;
    let _: &MacroInput = input;
    let OriginalMacroInvocation {
        id: _,
        path: _,
        start: _,
        line: _,
    } = original;
    let DeclarationMacroWork {
        line: _,
        invocations: _,
        text: _,
        embedded_values,
    } = work;
    let _: &Vec<Value> = embedded_values;
}

#[test]
fn macro_rewrite_owner_inventory_is_compile_exhaustive() {
    let _: fn(&MacroInvocation, &OriginalMacroInvocation, &DeclarationMacroWork) =
        assert_rewrite_owner_inventory;
}

fn original_macro_paths(source: &str) -> Result<Vec<Vec<String>>, Diagnostic> {
    let lexical = lex_source(source);
    assert!(
        !lexical.has_errors(),
        "macro-head fixture must be lexically valid: {:?}",
        lexical.diagnostics()
    );
    assert!(
        !lexical.declarations().is_empty(),
        "macro-head fixture must contain one declaration"
    );
    Ok(DeclarationMacroWork::from_original(&lexical, 0)?
        .map(|work| {
            work.invocations()
                .iter()
                .map(|invocation| invocation.path.clone())
                .collect()
        })
        .unwrap_or_default())
}

#[test]
fn production_macro_heads_are_static_joint_paths_in_expansion_order() {
    let cases: &[(&str, &[&[&str]])] = &[
        ("value = @name", &[&["name"]]),
        ("value = @name.child", &[&["name", "child"]]),
        ("value = @table.create input", &[&["table", "create"]]),
        ("value = @name .child", &[&["name"]]),
        ("value = (@outer @inner input)", &[&["inner"], &["outer"]]),
        ("value = @outer\n  @inner input", &[&["inner"], &["outer"]]),
        ("value = \"@text\" # @comment", &[]),
    ];

    for (source, expected) in cases {
        let actual = original_macro_paths(source)
            .unwrap_or_else(|diagnostic| panic!("{source:?} failed: {diagnostic:?}"));
        let expected = expected
            .iter()
            .map(|path| path.iter().map(|part| (*part).to_owned()).collect())
            .collect::<Vec<Vec<String>>>();
        assert_eq!(actual, expected, "{source:?}");
    }
}

#[test]
fn production_macro_heads_reject_missing_dynamic_or_nonjoint_paths() {
    for source in [
        "@",
        "@ name",
        "@(name)",
        "@.name",
        "@name.[42]",
        "@name.",
        "@name. child",
        "@name..child",
    ] {
        let diagnostic = original_macro_paths(source)
            .expect_err("malformed macro head must fail in the production parser");
        assert_eq!(
            diagnostic.message, "macro invocation requires a joint static name path after `@`",
            "{source:?}"
        );
    }
}

#[test]
fn generated_text_is_validated_locally_and_reserves_source_markers() {
    validate_generated_text("name (42) \"text\"").unwrap();

    for text in ["@next", "# comment", "left@right"] {
        let diagnostics = validate_generated_text(text).unwrap_err();
        assert!(diagnostics.iter().any(|diagnostic| {
            diagnostic.severity == Severity::Error && diagnostic.message.contains("cannot contain")
        }));
    }
}

#[test]
fn invalid_numbers_fail_during_generated_text_classification() {
    let diagnostics = validate_generated_text("1e999999999999999999999999").unwrap_err();
    assert!(
        diagnostics
            .iter()
            .any(|diagnostic| diagnostic.message.contains("invalid number literal")),
        "{diagnostics:?}"
    );
}

#[test]
fn generated_output_preserves_lexer_structure_diagnostics() {
    for (text, expected) in [
        ("(", "unclosed delimiter"),
        ("[)", "mismatched closing delimiter"),
        (")", "unmatched closing delimiter"),
    ] {
        let diagnostics =
            generated_output(&vec![MacroOutput::Text(text.to_owned())], 7, 0).unwrap_err();
        assert!(
            diagnostics.iter().any(|diagnostic| {
                diagnostic.line == 7 && diagnostic.message.contains(expected)
            }),
            "{text:?}: {diagnostics:?}"
        );
    }
}

#[test]
fn macro_layout_ranges_exclude_a_dedented_parent_closer() {
    let lexical = lex_source("(do\n  .r 1\n  .r (2)\n)\n");
    let start = lexical
        .tokens()
        .iter()
        .position(|token| matches!(token.kind(), TokenKind::Symbol(symbol) if symbol == "."))
        .expect("the layout should contain a first return");
    let parent_close = lexical
        .tokens()
        .iter()
        .rposition(|token| matches!(token.kind(), TokenKind::Close { .. }))
        .expect("the parent group should be closed");

    assert_eq!(
        macro_layout_end(&lexical, start, parent_close + 1),
        parent_close,
    );
}

fn work(source: &str) -> DeclarationMacroWork {
    DeclarationMacroWork::from_original(&lex_source(source), 0)
        .unwrap()
        .unwrap()
}

#[test]
fn generated_layouts_are_indented_below_their_item() {
    let output = vec![
        MacroOutput::Text("do".to_owned()),
        MacroOutput::LayoutStart,
        MacroOutput::Anchor,
        MacroOutput::Text("first".to_owned()),
        MacroOutput::Anchor,
        MacroOutput::Data(Value::unit()),
        MacroOutput::LayoutEnd,
        MacroOutput::Separator,
        MacroOutput::Text("tail".to_owned()),
    ];
    let (text, embedded) = generated_output(&output, 1, 4).unwrap();
    assert_eq!(
        text,
        format!("do\n      first\n      {EMBEDDED_MARKER}\n     tail")
    );
    assert_eq!(embedded, [Value::unit()]);
}

#[test]
fn macros_are_replaced_from_the_last_to_the_first() {
    let mut work = work("value = @outer @inner 42");
    assert_eq!(work.invocations().len(), 2);
    let inner = work.current_invocation(&work.invocations()[0]).unwrap();
    assert_eq!(inner.path, ["inner"]);
    assert_eq!(inner.start, 15);
    assert_eq!(inner.input.elements.len(), 1);
    assert!(matches!(
        &inner.input.elements[0].kind,
        MacroInputKind::Data(Value::Number(number)) if number.literal == "42"
    ));
    let output = vec![MacroOutput::Data(Value::atom("made"))];
    work.splice(
        inner.anchor_position,
        inner.indentation,
        inner.start,
        inner.input.end,
        &output,
        1,
    )
    .unwrap();
    assert_eq!(work.text, format!("value = @outer {EMBEDDED_MARKER}"));
    assert_eq!(work.embedded_values, [Value::atom("made")]);

    let outer = work.current_invocation(&work.invocations()[1]).unwrap();
    assert_eq!(outer.path, ["outer"]);
    assert!(matches!(
        &outer.input.elements[0].kind,
        MacroInputKind::Data(value) if *value == Value::atom("made")
    ));
    work.splice(
        outer.anchor_position,
        outer.indentation,
        outer.start,
        outer.input.end,
        &vec![MacroOutput::Text("done".to_owned())],
        1,
    )
    .unwrap();
    assert!(work.is_marked());
    assert_eq!(work.text, "value = done");
    assert!(work.embedded_values.is_empty());
}

#[test]
fn splices_stay_in_their_declaration() {
    let mut work = work("value = @make λ");
    let output = vec![MacroOutput::Text("x".to_owned())];
    let size = work.text.len();
    assert_eq!(
        work.splice(false, 0, 8, size + 1, &output, 3).unwrap_err()[0].message,
        "macro reader produced an invalid source range"
    );
    assert_eq!(
        work.splice(false, 0, 8, size - 1, &output, 3).unwrap_err()[0].message,
        "macro reader stopped outside a UTF-8 boundary"
    );
    assert_eq!(
        work.splice(false, 0, 8, size, &vec![MacroOutput::Anchor], 3)
            .unwrap_err()[0]
            .message,
        "anchored macro output requires an invocation at the start of its logical item"
    );
    assert_eq!(work.text, "value = @make λ");
}

#[test]
fn lost_macros_are_reported() {
    let mut lost = work("value = @make input");
    let original = OriginalMacroInvocation {
        id: 0,
        path: vec!["make".to_owned()],
        start: 8,
        line: 5,
    };
    assert!(lost.current_invocation(&original).is_ok());
    lost.text = "value = input".to_owned();
    let errors = lost.current_invocation(&original).unwrap_err();
    assert_eq!(errors[0].line, 5);
    assert_eq!(
        errors[0].message,
        "macro invocation 0 became invalid: macro invocation no longer starts on a token boundary"
    );
    lost.text = "value = @other.name".to_owned();
    assert_eq!(
        lost.current_invocation(&original).unwrap_err()[0].message,
        "macro invocation 0 changed from `make` to `other.name` before expansion"
    );
    lost.text = String::new();
    assert_eq!(
        lost.current_invocation(&original).unwrap_err()[0].message,
        "macro invocation 0 disappeared before it could expand"
    );
    lost.text = "value = (".to_owned();
    assert!(lost.current_invocation(&original).is_err());
}

#[test]
fn macro_inputs_end_with_their_item() {
    let lexed = lex_source("value = do\n  @first (a) b\n  next\n");
    let found = macro_invocation_at(&lexed, 0, 13, &vec![]).unwrap();
    assert_eq!(found.path, ["first"]);
    assert!(found.anchor_position);
    assert_eq!(found.indentation, 2);
    assert_eq!(found.input.elements.len(), 4);
    assert!(!found.input.layouts.is_empty());
    assert!(macro_invocation_at(&lexed, 0, 14, &vec![]).is_err());
}

#[test]
fn declarations_keep_their_place() {
    let mut placed = work("value = @make input");
    placed.line = 3;
    let (source, values) = placed.materialize();
    assert_eq!(source, "\n\nvalue = @make input");
    assert!(values.is_empty());
    placed.text = "a\nλb".to_owned();
    assert_eq!(placed.position_at(0), (3, 1));
    assert_eq!(placed.position_at(4), (4, 3));
    assert_eq!(placed.position_at(99), (4, 4));
}

#[test]
fn excerpts_are_one_short_line() {
    let mut long = work("value = @make input");
    long.text = format!("  a\n\n  b{EMBEDDED_MARKER} c ");
    assert_eq!(long.normalized_excerpt(), "a b<embedded-data> c");
    long.text = "word ".repeat(40);
    let excerpt = long.normalized_excerpt();
    assert_eq!(excerpt.chars().count(), 161);
    assert!(excerpt.ends_with('…'));
}

#[test]
fn boundaries_are_counted_without_overlap() {
    let counts = BoundaryCounts::in_source(
        "RuntimeValueRoot PublicValuePublicValue x.as_core() y.into_core() z.as_core()",
    );
    assert_eq!(counts, BoundaryCounts::new([1, 2, 0, 3]));
}

#[test]
fn markers_without_values_are_told_apart() {
    let mut marked = work("value = @make input");
    assert!(marked.is_marked());
    marked.text = format!("{EMBEDDED_MARKER}");
    assert!(!marked.is_marked());
    marked.embedded_values.push(Value::unit());
    assert!(marked.is_marked());
}

#[test]
fn embedded_data_is_parsed_as_an_expression() {
    let mut work = work("value = @make.pair 42");
    let current = work.current_invocation(&work.invocations()[0]).unwrap();
    let output = vec![
        MacroOutput::Text("[".to_owned()),
        MacroOutput::Data(Value::atom("first")),
        MacroOutput::Text(",".to_owned()),
        MacroOutput::Data(Value::unit()),
        MacroOutput::Text(".tail]".to_owned()),
    ];
    work.splice(
        current.anchor_position,
        current.indentation,
        current.start,
        current.input.end,
        &output,
        1,
    )
    .unwrap();
    let (source, values) = work.materialize();
    assert_eq!(values.len(), 2);
    let parsed = parse_expanded_text(&source, 1, values, &vec![]);
    assert_eq!(parsed.diagnostics, []);
    let DeclarationKind::Definition(definition) = &parsed.declarations[0].kind else {
        panic!("a definition");
    };
    let Some(SyntaxExpr::List(items)) = &definition.expr else {
        panic!("a list: {:?}", definition.expr);
    };
    assert_eq!(items[0], SyntaxExpr::Embedded(Value::atom("first")));
    assert!(matches!(&items[1], SyntaxExpr::Access(base, _)
        if **base == SyntaxExpr::Embedded(Value::unit())));

    let missing = parse_expanded_text(&source, 7, vec![], &vec![]);
    assert_eq!(missing.declarations, []);
    assert_eq!(missing.diagnostics.len(), 1);
    assert_eq!(missing.diagnostics[0].line, 7);
    assert_eq!(
        missing.diagnostics[0].message,
        "embedded data does not match its marks"
    );
}
