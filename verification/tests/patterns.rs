use glam_syntax::ast::{
    flatten_path_suffixes, DoExpr, DoStepKind, PathSuffix, SyntaxExpr, SyntaxKeyExpr,
    SyntaxPattern,
};
use glam_syntax::source::parse_expression_fragment;

fn pattern(source: &str) -> SyntaxPattern {
    let text = format!("do {{ .r 1 -> ({source}); .r () }}");
    let SyntaxExpr::Do(DoExpr { mut steps, .. }) =
        parse_expression_fragment(text.as_bytes()).unwrap()
    else {
        panic!("expected a do expression");
    };
    match steps.remove(0).kind {
        DoStepKind::Bind { pattern, .. } => pattern,
        other => panic!("expected a binding, got {other:?}"),
    }
}

fn bound(pattern: &SyntaxPattern) -> Vec<String> {
    let mut steps = Vec::new();
    pattern.visit_primitive_events(&mut steps);
    steps.into_iter().flatten().map(str::to_owned).collect()
}

#[test]
fn primitive_steps_bind_the_captures_in_order() {
    for source in [
        "x",
        "_",
        "x as y",
        "[a, b] ++ rest ++ [z]",
        "{first: left, {second: right}}",
        "[a, b] when a < b and .r a -> c",
    ] {
        let pattern = pattern(source);
        assert_eq!(bound(&pattern), pattern.captures(), "{source}");
    }
}

#[test]
fn only_names_match_every_value() {
    for (source, expected) in [
        ("x", true),
        ("_", true),
        ("x as y", true),
        ("1", false),
        ("[x]", false),
        ("{}", false),
    ] {
        assert_eq!(pattern(source).is_irrefutable(), expected, "{source}");
    }
}

fn atom(name: &str) -> SyntaxKeyExpr {
    SyntaxKeyExpr::Atom(name.to_owned())
}

#[test]
fn spreading_path_steps_keeps_their_order() {
    assert_eq!(
        flatten_path_suffixes(vec![
            PathSuffix::Single(atom("a")),
            PathSuffix::Expand(vec![atom("b"), atom("c")]),
            PathSuffix::Expand(vec![]),
            PathSuffix::Single(atom("d")),
        ]),
        [atom("a"), atom("b"), atom("c"), atom("d")]
    );
}
