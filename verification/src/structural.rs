//! Expressions with clauses: `let`, `where`, `with` and objects.

use vstd::prelude::*;
use crate::ast::{ObjectBodyDefinition, ObjectExpr, ObjectRealization, SyntaxExpr};
use crate::declaration::parse_members;
use crate::diagnostic;
use crate::diagnostic::Diagnostic;
use crate::expression::{parse_exprs, syntax_expr_parser};
use crate::expression_context::{
    validate_expression_floor, ExpressionContext, ParsedExpression,
};
use crate::grammar;
use crate::input;
use crate::input::{MarkText, TokenView};
use crate::layout;
use crate::layout::{LayoutBase, LayoutStatement, LayoutView, Member};
use crate::lexical::{Delimiter, Lexed};
use crate::notation;
use crate::notation::{
    binding_members, braced_members, expected, fail_at, fail_view, find_clause, first_mark,
    header_alias, header_end, header_marks, joined, layout_failure, let_parts, local_of,
    nonempty_parts, not_a_name, object_head, stands, with_head,
};
use crate::term;
use crate::term::{formed, Term};

verus! {

/// What the reading of a list of bindings says.
pub open spec fn said_bindings(
    result: Result<Vec<(String, SyntaxExpr)>, Vec<Diagnostic>>,
) -> grammar::Outs {
    match result {
        Ok(items) => Ok(term::bindings_terms(items@)),
        Err(errors) => Err(diagnostic::reports(errors@)),
    }
}

/// What the reading of a body, and of the position after it, says.
pub open spec fn said_body(
    result: Result<(Vec<ObjectBodyDefinition>, usize), Vec<Diagnostic>>,
) -> grammar::Parts {
    match result {
        Ok((items, end)) => Ok((term::items_terms(items@), end as int)),
        Err(errors) => Err(diagnostic::reports(errors@)),
    }
}

/// What is wrong with the first bindings is what is wrong with all of them.
pub proof fn bindings_fail(l: Lexed, members: Seq<Member>, k: int, lo: int, hi: int, context: ExpressionContext)
    requires
        0 <= k <= members.len(),
    ensures
        grammar::p_binding_list(l, members.take(k), lo, hi, context) is Err ==> grammar::p_binding_list(l, members, lo, hi, context)
            == grammar::p_binding_list(l, members.take(k), lo, hi, context),
    decreases members.len(),
{
    if k < members.len() {
        bindings_fail(l, members.drop_last(), k, lo, hi, context);
        assert(members.drop_last().take(k) =~= members.take(k));
    } else {
        assert(members.take(k) =~= members);
    }
}

/// A complete expression. Its continuation lines must clear the floor.
pub fn parse_expression(view: TokenView<'_>, context: ExpressionContext) -> (result: Result<
    SyntaxExpr,
    Vec<Diagnostic>,
>)
    requires
        view.wf(),
    ensures
        result matches Err(errors) ==> errors.len() > 0,
        notation::said(result) == grammar::p_expr(view.l(), view.lo(), view.hi(), context),
    decreases view.hi() - view.lo(), 50nat, 0nat,
{
    let (own, errors) = validate_expression_floor(view, context);
    assert(diagnostic::reports(errors@).len() == errors.len());
    if errors.len() > 0 {
        return Err(errors);
    }
    let inner = view.trim_layout();
    if inner.is_empty() {
        return Err(expected(view, view.range.end, "expression"));
    }
    parse_structural_expression(inner, own)
}

/// An expression and the position after it. In a context that permits it, an
/// expression with a layout body leaves what follows the body.
pub fn parse_expression_extent(view: TokenView<'_>, context: ExpressionContext) -> (result: Result<
    ParsedExpression,
    Vec<Diagnostic>,
>)
    requires
        view.wf(),
    ensures
        result matches Err(errors) ==> errors.len() > 0,
        notation::said_extent(result) == grammar::p_extent(
            view.l(),
            view.lo(),
            view.hi(),
            context,
        ),
        result matches Ok(parsed) ==> view.lo() <= parsed.end <= view.hi(),
{
    let (own, errors) = validate_expression_floor(view, context);
    assert(diagnostic::reports(errors@).len() == errors.len());
    let inner = view.trim_layout();
    if context.permits_yield() && errors.len() == 0 && inner.len() > 1 && !stands(
        inner,
        inner.range.start,
        "let",
    ) {
        if let Some((head, is_abstract)) = object_head(inner) {
            return parse_yielded(
                inner,
                view.range.end,
                parse_object_part(inner, head, is_abstract, own),
                own,
            );
        }
        if let Some((at, false)) = find_clause(inner) {
            return parse_yielded(
                inner,
                view.range.end,
                parse_with_part(inner, at, own),
                own,
            );
        }
    }
    match parse_expression(view, context) {
        Ok(expression) => Ok(ParsedExpression::new(expression, view.range.end)),
        Err(errors) => Err(errors),
    }
}

/// An expression with a layout body, which leaves what follows the body.
fn parse_yielded(
    view: TokenView<'_>,
    end: usize,
    part: Result<ParsedExpression, Vec<Diagnostic>>,
    context: ExpressionContext,
) -> (result: Result<ParsedExpression, Vec<Diagnostic>>)
    requires
        view.wf(),
        view.hi() <= end,
        part matches Err(errors) ==> errors.len() > 0,
        part matches Ok(parsed) ==> view.lo() < parsed.end <= view.hi(),
    ensures
        result matches Err(errors) ==> errors.len() > 0,
        notation::said_extent(result) == grammar::p_yielded(
            view.l(),
            view.lo(),
            view.hi(),
            end as int,
            notation::said_extent(part),
            context,
        ),
        result matches Ok(parsed) ==> view.lo() <= parsed.end <= end,
{
    match part {
        Err(errors) => Err(errors),
        Ok(parsed) => {
            let next = view.skip(parsed.end);
            if next < view.range.end && !stands(view, next, "where") {
                return Ok(parsed);
            }
            match parse_rest(view, parsed.end, parsed.expression, context) {
                Ok(expression) => Ok(ParsedExpression::new(expression, end)),
                Err(errors) => Err(errors),
            }
        },
    }
}

/// An expression with its clauses.
fn parse_structural_expression(view: TokenView<'_>, context: ExpressionContext) -> (result: Result<
    SyntaxExpr,
    Vec<Diagnostic>,
>)
    requires
        view.wf(),
    ensures
        result matches Err(errors) ==> errors.len() > 0,
        notation::said(result) == grammar::p_structural(view.l(), view.lo(), view.hi(), context),
    decreases view.hi() - view.lo(), 48nat, 0nat,
{
    proof {
        reveal(grammar::stands);
    }
    if view.len() == 1 {
        return syntax_expr_parser(view, context);
    }
    if stands(view, view.range.start, "let") {
        return parse_let_expression(view, context);
    }
    match object_head(view) {
        Some((head, is_abstract)) => {
            return parse_object_expression(view, head, is_abstract, context);
        },
        None => {},
    }
    match find_clause(view) {
        None => syntax_expr_parser(view, context),
        Some((at, true)) => {
            let before = view.between(view.range.start, at);
            if before.is_layout_empty() {
                return Err(fail_at(view, at, "where expression requires a body"));
            }
            let body = match parse_expression(before, context) {
                Ok(body) => body,
                Err(errors) => {
                    return Err(errors);
                },
            };
            match parse_bindings(view, at, context) {
                Ok(bindings) => Ok(formed(SyntaxExpr::Let { bindings, body: Box::new(body) })),
                Err(errors) => Err(errors),
            }
        },
        Some((at, false)) => parse_with_expression(view, at, context),
    }
}

/// An expression with the `with` clause at a position, and what follows it.
fn parse_with_expression(view: TokenView<'_>, at: usize, context: ExpressionContext) -> (result:
    Result<SyntaxExpr, Vec<Diagnostic>>)
    requires
        view.wf(),
        view.lo() <= at < view.hi(),
    ensures
        result matches Err(errors) ==> errors.len() > 0,
        notation::said(result) == grammar::p_with(
            view.l(),
            view.lo(),
            view.hi(),
            at as int,
            context,
        ),
    decreases view.hi() - view.lo(), 46nat, 0nat,
{
    match parse_with_part(view, at, context) {
        Ok(parsed) => parse_rest(view, parsed.end, parsed.expression, context),
        Err(errors) => Err(errors),
    }
}

/// An expression with the `with` clause at a position.
fn parse_with_part(view: TokenView<'_>, at: usize, context: ExpressionContext) -> (result:
    Result<ParsedExpression, Vec<Diagnostic>>)
    requires
        view.wf(),
        view.lo() <= at < view.hi(),
    ensures
        result matches Err(errors) ==> errors.len() > 0,
        notation::said_extent(result) == grammar::p_with_part(
            view.l(),
            view.lo(),
            view.hi(),
            at as int,
            context,
        ),
        result matches Ok(parsed) ==> view.lo() < parsed.end <= view.hi(),
    decreases view.hi() - view.lo(), 45nat, 0nat,
{
    let before = view.between(view.range.start, at);
    let (end, alias) = match with_head(before) {
        Ok(found) => found,
        Err(errors) => {
            return Err(errors);
        },
    };
    let part = view.between(view.range.start, end);
    if part.is_layout_empty() {
        return Err(fail_at(view, at, "with expression requires a base expression"));
    }
    let base = match parse_expression(part, context) {
        Ok(base) => base,
        Err(errors) => {
            return Err(errors);
        },
    };
    match parse_with_body(view, at, context) {
        Ok((body, after)) => Ok(
            ParsedExpression::new(
                formed(SyntaxExpr::With { base: Box::new(base), alias, body }),
                after,
            ),
        ),
        Err(errors) => Err(errors),
    }
}

/// The members of the body of the `with` at a position, and where it ends.
fn parse_with_body(view: TokenView<'_>, at: usize, context: ExpressionContext) -> (result: Result<
    (Vec<ObjectBodyDefinition>, usize),
    Vec<Diagnostic>,
>)
    requires
        view.wf(),
        view.lo() <= at < view.hi(),
    ensures
        result matches Err(errors) ==> errors.len() > 0,
        said_body(result) == grammar::p_with_body(view.l(), at as int, view.hi(), context),
        result matches Ok((_, end)) ==> at < end <= view.hi(),
    decreases view.hi() - at, 44nat, 0nat,
{
    let rest = view.between(at + 1, view.range.end);
    let start = view.skip(at + 1);
    if start >= view.range.end {
        return Err(
            fail_at(view, at, "`with` requires a body; use `with {}` for an explicit empty body"),
        );
    }
    match view.opens(start, Delimiter::Brace) {
        Some(close) => match braced_members(view.between(start + 1, close), "`with` body") {
            Ok(members) => {
                let (items, errors) = parse_members(rest, &members, context);
                assert(diagnostic::reports(errors@).len() == errors.len());
                if errors.len() > 0 {
                    Err(errors)
                } else {
                    Ok((items, close + 1))
                }
            },
            Err(errors) => Err(errors),
        },
        None => {
            proof {
                layout::block_bounds(view.l(), at + 1, view.hi(), LayoutBase::FirstLine);
            }
            match LayoutView::new(rest).block(LayoutBase::FirstLine) {
                Ok(block) => {
                    proof {
                        notation::block_fits(block.statements@, at + 1, view.hi());
                    }
                    let (items, errors) = parse_members(rest, &block.statements, context);
                    assert(diagnostic::reports(errors@).len() == errors.len());
                    if errors.len() > 0 {
                        Err(errors)
                    } else {
                        Ok((items, block.end))
                    }
                },
                Err(error) => Err(layout_failure(error)),
            }
        },
    }
}

/// What follows a layout body.
fn parse_rest(
    view: TokenView<'_>,
    from: usize,
    body: SyntaxExpr,
    context: ExpressionContext,
) -> (result: Result<SyntaxExpr, Vec<Diagnostic>>)
    requires
        view.wf(),
        view.lo() < from <= view.hi(),
    ensures
        result matches Err(errors) ==> errors.len() > 0,
        notation::said(result) == grammar::p_rest(
            view.l(),
            view.lo(),
            from as int,
            view.hi(),
            term::expr_term(body),
            context,
        ),
    decreases view.hi() - view.lo(), 43nat, 0nat,
{
    let next = view.skip(from);
    if next >= view.range.end {
        return Ok(body);
    }
    if stands(view, next, "where") {
        return match parse_bindings(view, next, context) {
            Ok(bindings) => Ok(formed(SyntaxExpr::Let { bindings, body: Box::new(body) })),
            Err(errors) => Err(errors),
        };
    }
    Err(fail_at(view, next, "expression continues after its layout body"))
}

/// The bindings of the clause whose word stands at a position.
fn parse_bindings(view: TokenView<'_>, at: usize, context: ExpressionContext) -> (result: Result<
    Vec<(String, SyntaxExpr)>,
    Vec<Diagnostic>,
>)
    requires
        view.wf(),
        view.lo() <= at < view.hi(),
    ensures
        result matches Err(errors) ==> errors.len() > 0,
        said_bindings(result) == grammar::p_bindings(view.l(), at as int, view.hi(), context),
    decreases view.hi() - at, 42nat, 0nat,
{
    let start = view.skip(at + 1);
    if start >= view.range.end {
        return Err(fail_at(view, at, "let expression requires at least one binding"));
    }
    match binding_members(view, at) {
        Ok(members) => {
            assert(layout::members_of(members@).len() == members.len());
            if members.len() == 0 {
                Err(fail_at(view, at, "let expression requires at least one binding"))
            } else {
                parse_binding_list(view.between(at + 1, view.range.end), &members, context)
            }
        },
        Err(errors) => Err(errors),
    }
}

fn parse_binding_list(
    view: TokenView<'_>,
    members: &Vec<LayoutStatement>,
    context: ExpressionContext,
) -> (result: Result<Vec<(String, SyntaxExpr)>, Vec<Diagnostic>>)
    requires
        view.wf(),
        notation::fits(members@, view.lo(), view.hi()),
    ensures
        result matches Err(errors) ==> errors.len() > 0,
        said_bindings(result) == grammar::p_binding_list(
            view.l(),
            layout::members_of(members@),
            view.lo(),
            view.hi(),
            context,
        ),
    decreases view.hi() - view.lo(), 60nat, 0nat,
{
    let ghost all = layout::members_of(members@);
    let ghost l = view.l();
    assert(all.len() == members.len());
    let mut done: Vec<(String, SyntaxExpr)> = Vec::new();
    let mut k: usize = 0;
    assert(term::bindings_terms(done@) =~= Seq::empty());
    while k < members.len()
        invariant
            view.wf(),
            l == view.l(),
            k <= members.len(),
            all == layout::members_of(members@),
            all.len() == members.len(),
            notation::fits(members@, view.lo(), view.hi()),
            grammar::p_binding_list(l, all.take(k as int), view.lo(), view.hi(), context) == Ok::<
                Seq<Term>,
                Seq<diagnostic::DiagnosticView>,
            >(term::bindings_terms(done@)),
        decreases members.len() - k,
    {
        proof {
            assert(all.take(k + 1).drop_last() =~= all.take(k as int));
            assert(all.take(k + 1).last() == members@[k as int]@);
            bindings_fail(l, all, k + 1, view.lo(), view.hi(), context);
        }
        let range = members[k].tokens;
        match parse_binding(view.between(range.start, range.end), context) {
            Ok(binding) => {
                proof {
                    term::bindings_terms_push(done@, binding);
                }
                done.push(binding);
            },
            Err(errors) => {
                return Err(errors);
            },
        }
        k = k + 1;
    }
    assert(all.take(members.len() as int) =~= all);
    Ok(done)
}

/// One binding: a local name, `=`, and a value.
fn parse_binding(view: TokenView<'_>, context: ExpressionContext) -> (result: Result<
    (String, SyntaxExpr),
    Vec<Diagnostic>,
>)
    requires
        view.wf(),
    ensures
        result matches Err(errors) ==> errors.len() > 0,
        match result {
            Ok(binding) => grammar::p_binding(view.l(), view.lo(), view.hi(), context) == Ok::<
                Term,
                Seq<diagnostic::DiagnosticView>,
            >(term::binding_term(binding)),
            Err(errors) => grammar::p_binding(view.l(), view.lo(), view.hi(), context) == Err::<
                Term,
                Seq<diagnostic::DiagnosticView>,
            >(diagnostic::reports(errors@)),
        },
    decreases view.hi() - view.lo(), 58nat, 0nat,
{
    let equal = match first_mark(view, MarkText::Symbol("=")) {
        Some(equal) => equal,
        None => {
            return Err(fail_view(view, "local binding must use `=`"));
        },
    };
    let before = view.between(view.range.start, equal);
    let name = match local_of(before) {
        Some(name) => name,
        None => {
            return Err(not_a_name(before, "invalid local binding name"));
        },
    };
    let rest = view.between(equal + 1, view.range.end);
    if rest.is_layout_empty() {
        return Err(
            fail_view(
                view,
                joined("local binding `", name.as_str(), "` requires a value").as_str(),
            ),
        );
    }
    match parse_expression(rest, context.child_owner(rest)) {
        Ok(value) => {
            let binding = (name, value);
            proof {
                term::binding_def(binding);
            }
            Ok(binding)
        },
        Err(errors) => Err(errors),
    }
}

/// A `let` expression.
fn parse_let_expression(view: TokenView<'_>, context: ExpressionContext) -> (result: Result<
    SyntaxExpr,
    Vec<Diagnostic>,
>)
    requires
        view.wf(),
        view.lo() < view.hi(),
    ensures
        result matches Err(errors) ==> errors.len() > 0,
        notation::said(result) == grammar::p_let(view.l(), view.lo(), view.hi(), context),
    decreases view.hi() - view.lo(), 46nat, 0nat,
{
    let at = view.range.start;
    let rest = view.between(at + 1, view.range.end);
    if rest.is_layout_empty() {
        return Err(fail_at(view, at, "let expression requires bindings and a body"));
    }
    let (members, from) = match let_parts(view) {
        Ok(found) => found,
        Err(errors) => {
            return Err(errors);
        },
    };
    assert(layout::members_of(members@).len() == members.len());
    if members.len() == 0 {
        return Err(fail_at(view, at, "let expression requires at least one binding"));
    }
    let tail = view.between(from, view.range.end);
    if tail.is_layout_empty() {
        return Err(fail_at(view, at, "let expression requires a body"));
    }
    let bindings = match parse_binding_list(rest, &members, context) {
        Ok(bindings) => bindings,
        Err(errors) => {
            return Err(errors);
        },
    };
    match parse_expression(tail, context) {
        Ok(body) => Ok(formed(SyntaxExpr::Let { bindings, body: Box::new(body) })),
        Err(errors) => Err(errors),
    }
}

/// The parents that a header gives after `extends`.
pub fn parse_parents(view: TokenView<'_>, x: Option<usize>, context: ExpressionContext) -> (result:
    Result<Vec<SyntaxExpr>, Vec<Diagnostic>>)
    requires
        view.wf(),
        x matches Some(j) ==> view.lo() <= j < view.hi(),
    ensures
        result matches Err(errors) ==> errors.len() > 0,
        notation::said_exprs(result) == grammar::p_parents(
            view.l(),
            notation::position(x),
            view.lo(),
            view.hi(),
            context,
        ),
    decreases view.hi() - view.lo(), 53nat, 0nat,
{
    match x {
        None => {
            let none: Vec<SyntaxExpr> = Vec::new();
            assert(term::exprs_terms(none@) =~= Seq::empty());
            Ok(none)
        },
        Some(j) => {
            let rest = view.between(j + 1, view.range.end);
            let views = rest.split_top_level(",");
            let items = nonempty_parts(&views, Ghost(rest));
            assert(input::ranges(items@).len() == items.len());
            if items.len() == 0 {
                return Err(fail_at(view, j, "object `extends` requires at least one dependency"));
            }
            parse_exprs(&items, rest, context)
        },
    }
}

/// How an object is realized.
pub fn realization(is_abstract: bool) -> (realization: ObjectRealization)
    ensures
        term::realization_term(realization) == Term::Flag(is_abstract),
{
    if is_abstract {
        ObjectRealization::Abstract
    } else {
        ObjectRealization::Instance
    }
}

/// An object expression, and what follows it.
fn parse_object_expression(
    view: TokenView<'_>,
    head: usize,
    is_abstract: bool,
    context: ExpressionContext,
) -> (result: Result<SyntaxExpr, Vec<Diagnostic>>)
    requires
        view.wf(),
        view.lo() <= head < view.hi(),
        grammar::object_head(view.l(), view.lo(), view.hi()) == Some((head as int, is_abstract)),
    ensures
        result matches Err(errors) ==> errors.len() > 0,
        notation::said(result) == grammar::p_object(view.l(), view.lo(), view.hi(), context),
    decreases view.hi() - view.lo(), 46nat, 0nat,
{
    match parse_object_part(view, head, is_abstract, context) {
        Ok(parsed) => parse_rest(view, parsed.end, parsed.expression, context),
        Err(errors) => Err(errors),
    }
}

/// An object expression, and the position after it.
fn parse_object_part(
    view: TokenView<'_>,
    head: usize,
    is_abstract: bool,
    context: ExpressionContext,
) -> (result: Result<ParsedExpression, Vec<Diagnostic>>)
    requires
        view.wf(),
        view.lo() <= head < view.hi(),
        grammar::object_head(view.l(), view.lo(), view.hi()) == Some((head as int, is_abstract)),
    ensures
        result matches Err(errors) ==> errors.len() > 0,
        notation::said_extent(result) == grammar::p_object_part(
            view.l(),
            view.lo(),
            view.hi(),
            context,
        ),
        result matches Ok(parsed) ==> view.lo() < parsed.end <= view.hi(),
    decreases view.hi() - view.lo(), 45nat, 0nat,
{
    proof {
        reveal(grammar::object_head);
    }
    let rest = view.between(head + 1, view.range.end);
    let end = header_end(rest);
    let header = view.between(head + 1, end);
    let (a, x, stop) = header_marks(header);
    let target = view.between(head + 1, stop);
    if target.is_layout_empty() {
        return Err(fail_at(view, head, "object expression requires a name expression or `_`"));
    }
    match (a, x) {
        (Some(i), Some(j)) => if i >= j {
            return Err(fail_at(view, head, "object expression `as` must precede `extends`"));
        },
        _ => {},
    }
    let inner = target.trim_layout();
    let name = if inner.len() == 1 && inner.is_word(inner.range.start, "_") {
        None
    } else {
        match parse_expression(target, context) {
            Ok(name) => Some(Box::new(name)),
            Err(errors) => {
                return Err(errors);
            },
        }
    };
    let alias = match header_alias(header, a, x) {
        Ok(alias) => alias,
        Err(errors) => {
            return Err(errors);
        },
    };
    let deps = match parse_parents(header, x, context) {
        Ok(deps) => deps,
        Err(errors) => {
            return Err(errors);
        },
    };
    let (body, after) = if end < view.range.end {
        match parse_with_body(view, end, context) {
            Ok(found) => found,
            Err(errors) => {
                return Err(errors);
            },
        }
    } else {
        let none: Vec<ObjectBodyDefinition> = Vec::new();
        assert(term::items_terms(none@) =~= Seq::empty());
        (none, view.range.end)
    };
    Ok(
        ParsedExpression::new(
            formed(SyntaxExpr::Object(
                ObjectExpr { realization: realization(is_abstract), name, alias, deps, body },
            )),
            after,
        ),
    )
}

} // verus!
