use glam_syntax::ast::{
    ConditionalMode, ConditionalResultMode, MatchCommitment, MatchOutcome, SyntaxExpr,
    SyntaxGuardClause, SyntaxPatternKind,
};
use glam_syntax::conditional::parse_if_expression;
use glam_syntax::expression_context::ExpressionContext;
use glam_syntax::input::TokenView;
use glam_syntax::lexical::lex_source;
use glam_syntax::source::parse_expression_fragment;

fn parse(source: &str) -> SyntaxExpr {
    parse_expression_fragment(source.as_bytes())
        .unwrap_or_else(|diagnostics| panic!("`{source}` reported {diagnostics:#?}"))
}

#[test]
fn prefix_if_owns_guards_and_both_results() {
    let SyntaxExpr::If(if_expr) = parse("if value = 42 and _ then value else 0") else {
        panic!("prefix syntax should produce an if expression");
    };
    assert_eq!(if_expr.guards.len(), 2);
    assert!(matches!(
        &if_expr.guards[0],
        SyntaxGuardClause::ValueBind { pattern, .. }
            if matches!(&pattern.kind, SyntaxPatternKind::Capture(name) if name == "value")
    ));
    assert!(matches!(if_expr.guards[1], SyntaxGuardClause::Pass));
    assert!(matches!(
        if_expr.then_result.as_ref(),
        SyntaxExpr::Name(name) if name == "value"
    ));
    assert!(matches!(
        if_expr.else_result.as_ref(),
        SyntaxExpr::Number(_)
    ));
}

#[test]
fn nested_if_keywords_do_not_escape_to_the_outer_conditional() {
    let SyntaxExpr::If(outer) = parse("if _ then if _ then 1 else 2 else 3") else {
        panic!("source should produce an outer if expression");
    };
    assert!(matches!(outer.then_result.as_ref(), SyntaxExpr::If(_)));
    assert!(matches!(outer.else_result.as_ref(), SyntaxExpr::Number(_)));
}

#[test]
fn prefix_if_supports_hanging_and_next_line_results() {
    let hanging = parse("if _ then first\n          else second");
    assert!(matches!(hanging, SyntaxExpr::If(_)));

    let next_line = parse("if _ then\n  first\n  else\n    second");
    assert!(matches!(next_line, SyntaxExpr::If(_)));
}

#[test]
fn malformed_prefix_if_reports_its_missing_boundary_or_result() {
    for (source, expected) in [
        ("if _ else 0", "requires `then` before `else`"),
        ("if _ then 1", "requires `else`"),
        ("if _ then else 0", "requires a result after `then`"),
        ("if _ then 1 else", "requires a fallback after `else`"),
    ] {
        let diagnostics =
            parse_expression_fragment(source.as_bytes())
            .expect_err("malformed conditional should fail");
        assert!(
            diagnostics
                .iter()
                .any(|diagnostic| diagnostic.message.contains(expected)),
            "`{source}` reported {diagnostics:#?} instead of `{expected}`"
        );
    }
}

#[test]
fn flat_match_parses_layout_and_braced_arms() {
    let SyntaxExpr::Match(layout) = parse(
        "match subject with\n  1 => \"one\"\n  value when value == 2 => \"two\"\n  _ => \"other\"",
    ) else {
        panic!("layout syntax should produce a match expression");
    };
    assert!(matches!(
        layout.subject.as_ref(),
        SyntaxExpr::Name(name) if name == "subject"
    ));
    assert_eq!(layout.arms.len(), 3);
    assert!(layout.arms[0].guards.is_empty());
    assert_eq!(layout.arms[1].guards.len(), 1);
    assert!(matches!(
        &layout.arms[1].pattern.kind,
        SyntaxPatternKind::Capture(name) if name == "value"
    ));

    let SyntaxExpr::Match(dict_pattern) =
        parse("match subject with\n  {} => \"empty\"\n  _ => \"other\"")
    else {
        panic!("a dictionary pattern must not become the braced match body");
    };
    assert_eq!(dict_pattern.arms.len(), 2);
    assert!(matches!(
        dict_pattern.arms[0].pattern.kind,
        SyntaxPatternKind::Dict { .. }
    ));

    let SyntaxExpr::Match(braced) =
        parse("match subject with {; [head] ++ tail => head; _ => 0;}")
    else {
        panic!("braced syntax should produce a match expression");
    };
    assert_eq!(braced.arms.len(), 2);

    let SyntaxExpr::Match(empty) = parse("match subject with {}") else {
        panic!("an explicit empty match should remain a match expression");
    };
    assert!(empty.arms.is_empty());
}

#[test]
fn match_when_and_hierarchical_outcomes_parse_as_choice_trees() {
    let SyntaxExpr::MatchWhen(guard_only) = parse(
        "match when\n  value = 1 when\n    value == 2 => \"bad\"\n    value == 1 => value\n  _ => 0",
    ) else {
        panic!("guard-only syntax should produce a match-when expression");
    };
    assert_eq!(guard_only.arms.len(), 2);
    let MatchOutcome::Nested(children) = &guard_only.arms[0].outcome else {
        panic!("the first guard-only arm should own nested choices");
    };
    assert_eq!(children.len(), 2);

    let SyntaxExpr::Match(subject) = parse(
        "match subject with\n  value when value == 1 when\n    next = value + 1 => next\n    _ => value\n  _ => 0",
    ) else {
        panic!("source should produce a subject match");
    };
    let MatchOutcome::Nested(children) = &subject.arms[0].outcome else {
        panic!("the first subject arm should own nested choices");
    };
    assert_eq!(subject.arms[0].guards.len(), 1);
    assert_eq!(children.len(), 2);

    let SyntaxExpr::MatchWhen(braced) =
        parse("match when { _ when { 1 == 2 => \"bad\"; _ => \"ok\"; }; }")
    else {
        panic!("braced nested choices should produce a match-when expression");
    };
    assert!(matches!(braced.arms[0].outcome, MatchOutcome::Nested(_)));

    let SyntaxExpr::MatchWhen(empty) = parse("match when {}") else {
        panic!("an explicit empty guard-only search should remain a match-when expression");
    };
    assert!(empty.arms.is_empty());
}

#[test]
fn complete_match_patterns_accept_unparenthesized_views() {
    let SyntaxExpr::Match(forward) = parse("match subject with { inspect -> value => value; }")
    else {
        panic!("source should produce a match expression");
    };
    assert!(matches!(
        forward.arms[0].pattern.kind,
        SyntaxPatternKind::View { .. }
    ));

    let SyntaxExpr::Match(backward) =
        parse("match subject with { value <- inspect => value; }")
    else {
        panic!("source should produce a match expression");
    };
    assert!(matches!(
        backward.arms[0].pattern.kind,
        SyntaxPatternKind::View { .. }
    ));
}

#[test]
fn malformed_match_reports_its_missing_boundary_or_arm_part() {
    for (source, expected) in [
        ("match value", "requires `with`"),
        (
            "match value with",
            "layout match expression requires at least one arm",
        ),
        ("match value with { 1 }", "requires `=>`"),
        (
            "match value with { => 1 }",
            "requires a pattern before `=>`",
        ),
        ("match value with { 1 => }", "requires a result after `=>`"),
        (
            "match value with { value when => value }",
            "requires guards after `when`",
        ),
        (
            "match value with { _ => 1 => 2 }",
            "exactly one top-level `=>`",
        ),
    ] {
        let diagnostics =
            parse_expression_fragment(source.as_bytes())
            .expect_err("malformed match should fail");
        assert!(
            diagnostics
                .iter()
                .any(|diagnostic| diagnostic.message.contains(expected)),
            "`{source}` reported {diagnostics:#?} instead of `{expected}`"
        );
    }
}

#[test]
fn malformed_hierarchical_match_reports_missing_prefixes_and_children() {
    for (source, expected) in [
        (
            "match when",
            "layout `match when` requires at least one arm",
        ),
        (
            "match when\n  _ when",
            "nested `when` requires at least one child arm",
        ),
        (
            "match value with\n  when\n    _ => 1",
            "requires a pattern before nested `when`",
        ),
        ("match when\n  => 1", "requires guards before `=>`"),
    ] {
        let diagnostics =
            parse_expression_fragment(source.as_bytes())
            .expect_err("malformed hierarchical match should fail");
        assert!(
            diagnostics
                .iter()
                .any(|diagnostic| diagnostic.message.contains(expected)),
            "`{source}` reported {diagnostics:#?} instead of `{expected}`"
        );
    }
}

#[test]
fn try_is_a_conditional_of_its_host() {
    let SyntaxExpr::If(attempt) = parse("try value <- .read then value else 0") else {
        panic!("prefix syntax should produce a conditional");
    };
    assert_eq!(attempt.mode, ConditionalMode::Host);
    assert_eq!(attempt.then_mode, ConditionalResultMode::Ordinary);
    assert_eq!(attempt.guards.len(), 1);
    let SyntaxExpr::If(plain) = parse("if _ then 1 else 2") else {
        panic!("prefix syntax should produce a conditional");
    };
    assert_eq!(plain.mode, ConditionalMode::Pure);
    let SyntaxExpr::If(outer) = parse("if _ then try _ then 1 else 2 else 3") else {
        panic!("a nested `try` takes its own `then` and `else`");
    };
    assert!(matches!(outer.then_result.as_ref(), SyntaxExpr::If(_)));
    assert!(matches!(outer.else_result.as_ref(), SyntaxExpr::Number(_)));
}

#[test]
fn try_match_is_an_open_match_of_its_host() {
    let SyntaxExpr::Match(choice) = parse("try_match subject with { 1 => 2; _ => 3 }") else {
        panic!("prefix syntax should produce a match");
    };
    assert_eq!(choice.mode, ConditionalMode::Host);
    assert_eq!(choice.commitment, MatchCommitment::Open);
    assert_eq!(choice.arms.len(), 2);
    let SyntaxExpr::MatchWhen(guarded) = parse("try_match when { _ => 1 }") else {
        panic!("prefix syntax should produce a match by guards");
    };
    assert_eq!(guarded.mode, ConditionalMode::Host);
    assert_eq!(guarded.commitment, MatchCommitment::Open);
    let SyntaxExpr::Match(plain) = parse("match subject with {}") else {
        panic!("prefix syntax should produce a match");
    };
    assert_eq!(plain.mode, ConditionalMode::Pure);
    assert_eq!(plain.commitment, MatchCommitment::Cut);
}

#[test]
fn using_takes_a_namespace_and_a_body() {
    let SyntaxExpr::Using { namespace, body } = parse("using group.inner in first second") else {
        panic!("prefix syntax should produce a using expression");
    };
    assert!(matches!(*namespace, SyntaxExpr::Access(_, _)));
    assert!(matches!(*body, SyntaxExpr::Apply(_, _)));
    assert!(matches!(
        parse("f (using group in value)"),
        SyntaxExpr::Apply(_, _)
    ));
}

#[test]
fn malformed_host_forms_report_their_missing_part() {
    for (source, expected) in [
        ("try _ else 0", "try expression requires `then` before `else`"),
        (
            "try _ then 1",
            "try expression requires `else` and a fallback result",
        ),
        ("try then 1 else 0", "try expression requires a guard before `then`"),
        ("try _ then else 0", "try expression requires a result after `then`"),
        ("try _ then 1 else", "try expression requires a fallback after `else`"),
        (
            "try _ then then 1 else 0",
            "unexpected `then`; a try branch is already active",
        ),
        (
            "try_match with { _ => 1 }",
            "try_match expression requires a subject before `with`",
        ),
        (
            "try_match value with",
            "layout try_match expression requires at least one arm",
        ),
        (
            "try_match when",
            "layout `try_match when` requires at least one arm",
        ),
        ("using group", "using expression requires `in` and a body"),
        ("using in value", "using expression requires a namespace"),
        ("using group in", "using expression requires a body after `in`"),
    ] {
        let diagnostics = parse_expression_fragment(source.as_bytes())
            .expect_err("an incomplete form should fail");
        assert_eq!(diagnostics[0].message, expected, "{source}");
    }
}

#[test]
fn a_conditional_ends_at_the_next_separator() {
    let lexical = lex_source("if _ then 1 else [2, 3], rest");
    let view = TokenView::whole(&lexical);
    let start = view.first_significant().expect("a token").0;
    let parsed =
        parse_if_expression(view, start, ExpressionContext::for_fragment(view), false).unwrap();
    assert!(matches!(parsed.expression(), SyntaxExpr::If(_)));
    assert_eq!(parsed.end(), view.range().end() - 2);
}
