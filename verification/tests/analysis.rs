use glam_syntax::diagnostic::{Diagnostic, Severity};
use glam_syntax::infix::{
    infix_operator_relation, infix_operator_symbol, operator_precedence, resolve_infix_chain,
    Associativity, OperatorRelation,
};
use glam_syntax::ast::{SyntaxExpr, SyntaxOperator};
use glam_syntax::names::{find_binding, local_name_metadata, push_local};
use glam_syntax::block_previews::block_previews;
use glam_syntax::recursive_preview::BlockPlan;
use glam_syntax::source::{parse_planned_source, parse_source, SimpleDeclaration};
use glam_syntax::values::Builtin;

fn reports(source: &str) -> Vec<Diagnostic> {
    parse_source(source.as_bytes()).diagnostics
}

#[test]
fn unused_locals_are_reported_where_they_are_bound() {
    assert_eq!(
        reports("language g0\nvalue = \\unused -> 1\n"),
        [Diagnostic::warn(2, "unused local `unused`")]
    );
    assert_eq!(reports("language g0\nvalue = \\_unused -> 1\n"), []);
    assert_eq!(reports("language g0\nvalue = \\used -> used\n"), []);
}

#[test]
fn unused_bindings_are_reported() {
    let found = reports("language g0\nvalue = do\n  x <- .read\n  .r ()\n");
    assert_eq!(found.len(), 1);
    assert_eq!(found[0].severity, Severity::Warning);
    assert!(found[0].message.contains("unused local `x`"));
}

#[test]
fn languages_come_first_and_once() {
    assert_eq!(
        reports(""),
        [Diagnostic::error(
            1,
            "empty source has no language declaration"
        )]
    );
    assert_eq!(
        reports("value = 1\n"),
        [Diagnostic::error(
            1,
            "first declaration should be a language version declaration"
        )]
    );
    assert_eq!(
        reports("language g0\nlanguage g0\n"),
        [Diagnostic::error(
            2,
            "language declaration must appear before all other declarations"
        )]
    );
}

#[test]
fn simple_declarations_have_reserved_heads() {
    assert_eq!(
        SimpleDeclaration::from_head("import"),
        Some(SimpleDeclaration::Import)
    );
    assert_eq!(
        SimpleDeclaration::from_head("unique"),
        Some(SimpleDeclaration::Unique)
    );
    assert_eq!(SimpleDeclaration::from_head("value"), None);
}

#[test]
fn names_resolve_to_the_innermost_binding() {
    let mut locals = Vec::new();
    push_local(&mut locals, "x");
    push_local(&mut locals, "_y");
    push_local(&mut locals, "x");
    assert_eq!(find_binding(&locals, "x"), Some(2));
    assert_eq!(find_binding(&locals, "y"), Some(1));
    assert_eq!(find_binding(&locals, "z"), None);
    assert_eq!(local_name_metadata("_").canonical, None);
}

fn name(text: &str) -> SyntaxExpr {
    SyntaxExpr::Name(text.to_owned())
}

#[test]
fn operators_group_by_their_relation() {
    assert_eq!(
        resolve_infix_chain(name("a"), vec![]),
        Ok(name("a"))
    );
    let chain = resolve_infix_chain(
        name("a"),
        vec![
            (SyntaxOperator::PipeForward, name("b")),
            (SyntaxOperator::PipeForward, name("c")),
        ],
    );
    assert_eq!(
        chain,
        Ok(SyntaxExpr::OperatorApply {
            operator: SyntaxOperator::PipeForward,
            left: Box::new(SyntaxExpr::OperatorApply {
                operator: SyntaxOperator::PipeForward,
                left: Box::new(name("a")),
                right: Box::new(name("b")),
            }),
            right: Box::new(name("c")),
        })
    );
    let compared = resolve_infix_chain(
        name("a"),
        vec![
            (SyntaxOperator::Builtin(Builtin::Add), name("b")),
            (SyntaxOperator::Builtin(Builtin::Less), name("c")),
        ],
    );
    assert_eq!(
        compared,
        Ok(SyntaxExpr::OperatorApply {
            operator: SyntaxOperator::Builtin(Builtin::Less),
            left: Box::new(SyntaxExpr::Add(Box::new(name("a")), Box::new(name("b")))),
            right: Box::new(name("c")),
        })
    );
    let mixed = resolve_infix_chain(
        name("a"),
        vec![
            (SyntaxOperator::Builtin(Builtin::Add), name("b")),
            (SyntaxOperator::Builtin(Builtin::Multiply), name("c")),
        ],
    );
    assert!(mixed.unwrap_err().contains("no precedence relationship"));
    assert_eq!(
        infix_operator_relation(SyntaxOperator::PipeForward, SyntaxOperator::PipeForward),
        OperatorRelation::Same(Associativity::Left)
    );
    assert_eq!(operator_precedence(SyntaxOperator::BoolOr), 0);
    assert_eq!(infix_operator_symbol(SyntaxOperator::BoolAnd), "and");
}

#[test]
fn unknown_declarations_are_reported() {
    let parsed = parse_source(b"language g0\nfoo bar\n");
    assert_eq!(parsed.declarations.len(), 2);
    assert_eq!(
        parsed.diagnostics,
        [Diagnostic::error(2, "expected a declaration")]
    );
}

#[test]
fn promotion_warnings_come_before_those_of_the_block() {
    let source = b"language g0\nvalue = do\n  abstract late\n  x <- do\n    y <- .read late\n    .r ()\n  late = 1\n  .r late\n";
    let found = block_previews(&parse_source(source).declarations);
    assert_eq!(found.len(), 2);
    assert_eq!(found[0].forwards, ["late"]);
    assert_eq!(found[1].forwards, Vec::<String>::new());
    let plans: Vec<BlockPlan> = found
        .into_iter()
        .map(|preview| BlockPlan {
            warnings: vec![Diagnostic::warn(
                preview.steps[0].line,
                &format!("planned {}", preview.steps.len()),
            )],
            preview,
        })
        .collect();
    let told: Vec<(usize, String)> = parse_planned_source(source, &plans)
        .diagnostics
        .into_iter()
        .map(|found| (found.line, found.message))
        .collect();
    assert_eq!(
        told,
        [
            (3, "planned 3".to_owned()),
            (5, "planned 1".to_owned()),
            (5, "unused local `y`".to_owned()),
            (4, "unused local `x`".to_owned()),
        ]
    );
    assert_eq!(reports("language g0\nvalue = 1\n"), []);
    assert_eq!(parse_source(source).diagnostics.len(), 2);
}

#[test]
fn the_blocks_of_a_source_are_found_wherever_they_stand() {
    let source = b"language g0\nobject host with\n  member = [do { .r 1 }, (if x = do { .r 2 } then 1 else 2)]\nlist = match do { .r 3 } with { (do { .r 4 } -> y) => y }\n";
    assert_eq!(block_previews(&parse_source(source).declarations).len(), 4);
}
