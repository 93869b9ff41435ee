use glam_syntax::expression_context::ExpressionContext;
use glam_syntax::input::{TokenRange, TokenView};
use glam_syntax::layout::{LayoutBase, LayoutView};
use glam_syntax::lexical::{lex_source, Delimiter, TokenKind};
use glam_syntax::source::{parse_expression_fragment, parse_source, parse_text};

#[test]
fn token_views_constrain_ranges_and_project_source_locations() {
    let source = "alpha (beta [42]) omega\r\n  gamma \"text\"";
    let lexical = lex_source(source);
    let whole = TokenView::whole(&lexical);

    assert_eq!(whole.len(), lexical.tokens().len());
    assert!(!whole.is_empty());
    assert!(std::ptr::eq(whole.source(), &lexical));
    assert_eq!(
        whole.source_line(1),
        Some("alpha (beta [42]) omega".to_owned())
    );
    assert_eq!(whole.source_line(2), Some("  gamma \"text\"".to_owned()));
    assert_eq!(whole.source_line(3), None);
    assert_eq!(whole.line_span(1).unwrap().range(), 0..23);
    assert_eq!(
        TokenView::declarations(&lexical)
            .into_iter()
            .map(|(line, declaration)| (line, declaration.source_text().unwrap()))
            .collect::<Vec<_>>(),
        [(1, source.to_owned())]
    );

    let (first_index, first) = whole.first_significant().unwrap();
    let (last_index, last) = whole.last_significant().unwrap();
    assert!(matches!(first.kind(), TokenKind::Name(name) if name == "alpha"));
    assert!(matches!(last.kind(), TokenKind::Text(_)));
    assert_eq!(whole.absolute_index(first_index), Some(first_index));
    assert_eq!(whole.absolute_index(whole.len()), None);
    assert_eq!(whole.token_at(first_index), Some(first));
    assert_eq!(whole.token_at(last_index), Some(last));
    assert_eq!(whole.line_at_span(first.span()), Some(1));
    assert_eq!(whole.line_at_span(last.span()), Some(2));
    assert_eq!(whole.line_indentation_at(first_index), Some(0));
    assert_eq!(whole.line_indentation_at(last_index), Some(2));
    assert_eq!(&source[first.span().range()], "alpha");

    let significant = whole
        .subview(TokenRange::new(first_index, last_index + 1).unwrap())
        .unwrap();
    assert_eq!(significant.source_text(), Some(source.to_owned()));
    assert_eq!(significant.get(0), Some(first));
    assert_eq!(significant.absolute_index(0), Some(first_index));
    assert!(significant.before(0).unwrap().is_empty());
    assert!(significant.after(significant.len() - 1).unwrap().is_empty());
    assert!(TokenView::new(&lexical, TokenRange::new(0, whole.len() + 1).unwrap()).is_none());
    assert!(TokenRange::new(2, 1).is_none());
}

#[test]
fn top_level_iteration_jumps_balanced_groups() {
    let lexical = lex_source("alpha (beta [42]) omega");
    let whole = TokenView::whole(&lexical);
    let top = whole.top_level();
    let rendered = top
        .iter()
        .map(|indexed| whole.display(indexed.index()))
        .collect::<Vec<_>>();

    assert_eq!(rendered, ["start of line", "`alpha`", "`(`", "`omega`"]);
    let open_index = top[2].index();
    let (group, contents) = whole.group_at(open_index, Delimiter::Parenthesis).unwrap();
    assert_eq!(
        whole.group(group).unwrap().delimiter(),
        Delimiter::Parenthesis
    );
    assert_eq!(contents.source_text(), Some("beta [42]".to_owned()));
    assert_eq!(
        contents
            .top_level()
            .iter()
            .map(|indexed| contents.display(indexed.index()))
            .collect::<Vec<_>>(),
        ["`beta`", "`[`"]
    );
    assert!(whole.group_at(open_index, Delimiter::Brace).is_none());
}

#[test]
fn expression_fragment_validation_precedes_token_parsing() {
    let utf8 = parse_expression_fragment(&[0xff]);
    assert!(utf8.unwrap_err()[0].message.contains("valid UTF-8"));

    let structure = parse_expression_fragment(b"([)]");
    assert!(structure
        .unwrap_err()
        .iter()
        .any(|diagnostic| diagnostic.message.contains("mismatched closing delimiter")));
}

#[test]
fn undecodable_sources_hold_no_declarations() {
    let parsed = parse_source(&[b'a', 0xff]);
    assert!(parsed.declarations.is_empty());
    assert_eq!(parsed.diagnostics.len(), 1);
    assert_eq!(
        parsed.diagnostics[0].message,
        "source is not valid UTF-8: invalid utf-8 sequence of 1 bytes from index 1"
    );
    let decoded = parse_source("language g0\nλ = 1\n".as_bytes());
    let same = parse_text("language g0\nλ = 1\n");
    assert_eq!(decoded.declarations, same.declarations);
    assert_eq!(decoded.diagnostics, same.diagnostics);
}

#[test]
fn layout_lines_ignore_nested_groups_and_multiline_text() {
    let source = ".first {\n.at_column_zero\n}\n.next\n  continuation \"\"\"\ninside text\n\"\"\"";
    let lexical = lex_source(source);
    let view = TokenView::whole(&lexical);
    let layout = LayoutView::new(view);
    let lines = layout.lines();

    assert_eq!(
        lines
            .iter()
            .map(|line| (line.line(), line.indentation()))
            .collect::<Vec<_>>(),
        [(1, 0), (4, 0), (5, 2)]
    );
    assert_eq!(layout.tokens().range(), view.range());
    assert_eq!(lines[0].tokens().start(), view.range().start() + 1);

    let statements = layout.statements(LayoutBase::FirstLine).unwrap();
    assert_eq!(statements.len(), 2);
    assert_eq!(statements[0].line(), 1);
    assert_eq!(statements[1].line(), 4);
    assert_eq!(
        view.subview(statements[0].tokens()).unwrap().source_text(),
        Some(".first {\n.at_column_zero\n}".to_owned())
    );
    assert_eq!(
        view.subview(statements[1].tokens()).unwrap().source_text(),
        Some(".next\n  continuation \"\"\"\ninside text\n\"\"\"".to_owned())
    );
}

#[test]
fn layout_policy_handles_fixed_bases_continuations_and_closers() {
    let lexical = lex_source("(\n  .first\n)\n  .second\n    continuation");
    let whole = TokenView::whole(&lexical);
    let open_index = whole
        .top_level()
        .iter()
        .find(|indexed| matches!(indexed.token().kind(), TokenKind::Open { .. }))
        .unwrap()
        .index();
    let group = match whole.token_at(open_index).unwrap().kind() {
        TokenKind::Open { group, .. } => *group,
        _ => unreachable!(),
    };
    let close = whole.group(group).unwrap().close_token().unwrap();
    let body_through_close = whole
        .subview(TokenRange::new(open_index + 1, close + 1).unwrap())
        .unwrap();
    let statements = LayoutView::new(body_through_close)
        .statements(LayoutBase::Indentation(2))
        .unwrap();
    assert_eq!(statements.len(), 1);
    assert_eq!(statements[0].line(), 2);

    let second_start = close + 1;
    let second = whole
        .subview(TokenRange::new(second_start, whole.range().end()).unwrap())
        .unwrap();
    let statements = LayoutView::new(second)
        .statements(LayoutBase::Indentation(2))
        .unwrap();
    assert_eq!(statements.len(), 1);
    assert_eq!(statements[0].line(), 4);

    let error = LayoutView::new(second)
        .statements(LayoutBase::Indentation(4))
        .unwrap_err();
    assert_eq!(error.line(), 4);
    assert!(error.message().contains("expected at least 4"));
}

#[test]
fn layout_blocks_report_the_first_unconsumed_dedent() {
    let lexical = lex_source("  first\n    continuation\n  second\n boundary\nlater");
    let view = TokenView::whole(&lexical);
    let block = LayoutView::new(view).block(LayoutBase::FirstLine).unwrap();

    assert_eq!(block.anchor(), 2);
    assert_eq!(block.statements().len(), 2);
    let boundary = block.boundary().expect("the block should yield at line 4");
    assert_eq!(boundary.line(), 4);
    assert_eq!(boundary.indentation(), 1);
    assert_eq!(
        view.subview(
            TokenRange::new(block.end(), view.range().end())
                .expect("the yielded tail is an ordered range")
        )
        .unwrap()
        .source_text(),
        Some("boundary\nlater".to_owned())
    );
}

#[test]
fn hanging_layout_uses_the_inline_member_column_for_later_lines() {
    let lexical = lex_source("first\n   second\n     continuation\nboundary");
    let view = TokenView::whole(&lexical);
    let block = LayoutView::new(view).block(LayoutBase::Hanging(3)).unwrap();

    assert_eq!(block.anchor(), 3);
    assert_eq!(block.statements().len(), 2);
    assert_eq!(block.statements()[0].line(), 1);
    assert_eq!(block.statements()[1].line(), 2);
    assert_eq!(block.boundary().map(|line| line.line()), Some(4));
}

#[test]
fn owner_context_uses_physical_indentation_and_preserves_it_for_hard_ranges() {
    let lexical = lex_source("  value");
    let view = TokenView::whole(&lexical);
    let owner = ExpressionContext::for_owner(view);
    assert_eq!(owner.continuation_floor(), 2);
    assert!(!owner.permits_yield());
    assert_eq!(owner.may_yield().complete(), owner);
}
