//! Ordinary expressions: operators, applications, paths and atoms.

use vstd::prelude::*;
use crate::ast::{SyntaxExpr, SyntaxKeyExpr, SyntaxOperator};
use crate::conditional::{
    parse_if_expression, parse_match_expression, parse_using_expression,
};
use crate::diagnostic;
use crate::diagnostic::Diagnostic;
use crate::do_expr::parse_do;
use crate::expression_context::ExpressionContext;
use crate::grammar;
use crate::grammar::ItemKind;
use crate::infix;
use crate::infix::resolve_infix_chain;
use crate::input;
use crate::input::TokenView;
use crate::lexical::{Delimiter, Lexed, TokenKind};
use crate::notation;
use crate::notation::{
    access_if_path, caret_end, effect_names, expected, fail_at, fail_view, infix_operator,
    is_free_name, is_lettered, is_tag, is_word_free, key_of, kind_at, lambda_params,
    list_parts, path_end, path_starts, quoted_path, reserved_text, stands, text_value, tuple_parts,
};
use crate::number::{number_refusal, Number};
use crate::structural::parse_expression;
use crate::term;
use crate::text;
use crate::text::{chars_of, same_text, string_of};
use crate::term::{formed, formed_key};

verus! {

/// What is wrong with the first items is what is wrong with all of them.
pub proof fn items_fail(l: Lexed, parts: Seq<(int, int)>, k: int, lo: int, hi: int, context: ExpressionContext, kind: ItemKind)
    requires
        0 <= k <= parts.len(),
    ensures
        grammar::p_items(l, parts.take(k), lo, hi, context, kind) is Err ==> grammar::p_items(l, parts, lo, hi, context, kind)
            == grammar::p_items(l, parts.take(k), lo, hi, context, kind),
    decreases parts.len(),
{
    if k < parts.len() {
        items_fail(l, parts.drop_last(), k, lo, hi, context, kind);
        assert(parts.drop_last().take(k) =~= parts.take(k));
    } else {
        assert(parts.take(k) =~= parts);
    }
}

/// The expressions of a list.
pub fn parse_exprs(items: &Vec<TokenView<'_>>, outer: TokenView<'_>, context: ExpressionContext) -> (result:
    Result<Vec<SyntaxExpr>, Vec<Diagnostic>>)
    requires
        outer.wf(),
        input::all_within(items@, outer),
    ensures
        result matches Err(errors) ==> errors.len() > 0,
        notation::said_exprs(result) == grammar::p_items(
            outer.l(),
            input::ranges(items@),
            outer.lo(),
            outer.hi(),
            context,
            ItemKind::Expr,
        ),
    decreases outer.hi() - outer.lo(), 61nat, 0nat,
{
    let ghost all = input::ranges(items@);
    let ghost l = outer.l();
    assert(all.len() == items.len());
    let mut done: Vec<SyntaxExpr> = Vec::new();
    let mut k: usize = 0;
    assert(term::exprs_terms(done@) =~= Seq::empty());
    while k < items.len()
        invariant
            outer.wf(),
            l == outer.l(),
            k <= items.len(),
            all == input::ranges(items@),
            all.len() == items.len(),
            input::all_within(items@, outer),
            grammar::p_items(l, all.take(k as int), outer.lo(), outer.hi(), context, ItemKind::Expr)
                == Ok::<Seq<term::Term>, Seq<diagnostic::DiagnosticView>>(term::exprs_terms(done@)),
        decreases items.len() - k,
    {
        proof {
            assert(all.take(k + 1).drop_last() =~= all.take(k as int));
            assert(all.take(k + 1).last() == (items@[k as int].lo(), items@[k as int].hi()));
            items_fail(l, all, k + 1, outer.lo(), outer.hi(), context, ItemKind::Expr);
            assert(grammar::p_item(
                l,
                items@[k as int].lo(),
                items@[k as int].hi(),
                context,
                ItemKind::Expr,
            ) == grammar::p_expr(l, items@[k as int].lo(), items@[k as int].hi(), context));
        }
        if items[k].is_layout_empty() {
            return Err(fail_view(outer, "list contains an empty item between commas"));
        }
        let item = match parse_expression(items[k], context) {
            Ok(item) => item,
            Err(errors) => {
                return Err(errors);
            },
        };
        proof {
            term::exprs_terms_push(done@, item);
        }
        done.push(item);
        k = k + 1;
    }
    assert(all.take(items.len() as int) =~= all);
    Ok(done)
}

/// The keys of a path list.
pub fn parse_keys(items: &Vec<TokenView<'_>>, outer: TokenView<'_>, context: ExpressionContext) -> (result:
    Result<Vec<SyntaxKeyExpr>, Vec<Diagnostic>>)
    requires
        outer.wf(),
        input::all_within(items@, outer),
    ensures
        result matches Err(errors) ==> errors.len() > 0,
        notation::said_keys(result) == grammar::p_items(
            outer.l(),
            input::ranges(items@),
            outer.lo(),
            outer.hi(),
            context,
            ItemKind::Key,
        ),
    decreases outer.hi() - outer.lo(), 61nat, 0nat,
{
    let ghost all = input::ranges(items@);
    let ghost l = outer.l();
    assert(all.len() == items.len());
    let mut done: Vec<SyntaxKeyExpr> = Vec::new();
    let mut k: usize = 0;
    assert(term::keys_terms(done@) =~= Seq::empty());
    while k < items.len()
        invariant
            outer.wf(),
            l == outer.l(),
            k <= items.len(),
            all == input::ranges(items@),
            all.len() == items.len(),
            input::all_within(items@, outer),
            grammar::p_items(l, all.take(k as int), outer.lo(), outer.hi(), context, ItemKind::Key)
                == Ok::<Seq<term::Term>, Seq<diagnostic::DiagnosticView>>(term::keys_terms(done@)),
        decreases items.len() - k,
    {
        proof {
            assert(all.take(k + 1).drop_last() =~= all.take(k as int));
            assert(all.take(k + 1).last() == (items@[k as int].lo(), items@[k as int].hi()));
            items_fail(l, all, k + 1, outer.lo(), outer.hi(), context, ItemKind::Key);
            assert(grammar::p_item(
                l,
                items@[k as int].lo(),
                items@[k as int].hi(),
                context,
                ItemKind::Key,
            ) == (match grammar::p_expr(l, items@[k as int].lo(), items@[k as int].hi(), context) { Ok(expr) => Ok::<term::Term, Seq<diagnostic::DiagnosticView>>(grammar::key_of(expr)), Err(errors) => Err(errors) }));
        }
        if items[k].is_layout_empty() {
            return Err(fail_view(outer, "path contains an empty key between commas"));
        }
        let item = match parse_expression(items[k], context) {
            Ok(item) => item,
            Err(errors) => {
                return Err(errors);
            },
        };
        let item = key_of(item);
        proof {
            term::keys_terms_push(done@, item);
        }
        done.push(item);
        k = k + 1;
    }
    assert(all.take(items.len() as int) =~= all);
    Ok(done)
}

/// The items of a dictionary.
pub fn parse_entries(items: &Vec<TokenView<'_>>, outer: TokenView<'_>, context: ExpressionContext) -> (result:
    Result<Vec<SyntaxExpr>, Vec<Diagnostic>>)
    requires
        outer.wf(),
        input::all_within(items@, outer),
    ensures
        result matches Err(errors) ==> errors.len() > 0,
        notation::said_exprs(result) == grammar::p_items(
            outer.l(),
            input::ranges(items@),
            outer.lo(),
            outer.hi(),
            context,
            ItemKind::Entry,
        ),
    decreases outer.hi() - outer.lo(), 61nat, 0nat,
{
    let ghost all = input::ranges(items@);
    let ghost l = outer.l();
    assert(all.len() == items.len());
    let mut done: Vec<SyntaxExpr> = Vec::new();
    let mut k: usize = 0;
    assert(term::exprs_terms(done@) =~= Seq::empty());
    while k < items.len()
        invariant
            outer.wf(),
            l == outer.l(),
            k <= items.len(),
            all == input::ranges(items@),
            all.len() == items.len(),
            input::all_within(items@, outer),
            grammar::p_items(l, all.take(k as int), outer.lo(), outer.hi(), context, ItemKind::Entry)
                == Ok::<Seq<term::Term>, Seq<diagnostic::DiagnosticView>>(term::exprs_terms(done@)),
        decreases items.len() - k,
    {
        proof {
            assert(all.take(k + 1).drop_last() =~= all.take(k as int));
            assert(all.take(k + 1).last() == (items@[k as int].lo(), items@[k as int].hi()));
            items_fail(l, all, k + 1, outer.lo(), outer.hi(), context, ItemKind::Entry);
            assert(grammar::p_item(
                l,
                items@[k as int].lo(),
                items@[k as int].hi(),
                context,
                ItemKind::Entry,
            ) == grammar::p_entry(l, items@[k as int].lo(), items@[k as int].hi(), context));
        }
        if items[k].is_layout_empty() {
            return Err(fail_view(outer, "list contains an empty item between commas"));
        }
        let item = match parse_entry(items[k], context) {
            Ok(item) => item,
            Err(errors) => {
                return Err(errors);
            },
        };
        proof {
            term::exprs_terms_push(done@, item);
        }
        done.push(item);
        k = k + 1;
    }
    assert(all.take(items.len() as int) =~= all);
    Ok(done)
}

/// One item of a dictionary.
pub fn parse_entry(view: TokenView<'_>, context: ExpressionContext) -> (result: Result<
    SyntaxExpr,
    Vec<Diagnostic>,
>)
    requires
        view.wf(),
        !input::empty(view.l(), view.lo(), view.hi()),
    ensures
        result matches Err(errors) ==> errors.len() > 0,
        notation::said(result) == grammar::p_entry(view.l(), view.lo(), view.hi(), context),
    decreases view.hi() - view.lo(), 55nat, 0nat,
{
    let inner = view.trim_layout();
    proof {
        input::trim_bounds(view.l(), view.lo(), view.hi());
    }
    let start = inner.range.start;
    if !path_starts(inner, start) {
        return parse_expression(view, context);
    }
    let (path, end) = match parse_path(inner, start, context) {
        Ok(found) => found,
        Err(errors) => {
            return Err(errors);
        },
    };
    let colon = inner.skip(end);
    if colon < inner.range.end && inner.is_symbol(colon, ":") {
        let value = match parse_expression(inner.between(colon + 1, inner.range.end), context) {
            Ok(value) => value,
            Err(errors) => {
                return Err(errors);
            },
        };
        Ok(formed(SyntaxExpr::PathDict(path, Box::new(value))))
    } else {
        parse_expression(view, context)
    }
}

/// The steps of a path that follow a position.
pub fn parse_suffixes(
    view: TokenView<'_>,
    from: usize,
    context: ExpressionContext,
    keys: Vec<SyntaxKeyExpr>,
) -> (result: Result<(Vec<SyntaxKeyExpr>, usize), Vec<Diagnostic>>)
    requires
        view.wf(),
        view.lo() <= from <= view.hi(),
    ensures
        result matches Err(errors) ==> errors.len() > 0,
        notation::said_path(result) == grammar::p_suffixes(
            view.l(),
            from as int,
            view.hi(),
            context,
            term::keys_terms(keys@),
        ),
        result matches Ok((_, end)) ==> from <= end <= view.hi(),
    decreases view.hi() - from, 40nat, 0nat,
{
    let mut done = keys;
    let mut index = from;
    while index < view.range.end && view.is_symbol(index, ".") && view.is_joint(index)
        invariant
            view.wf(),
            view.lo() <= from <= index <= view.hi(),
            grammar::p_suffixes(
                view.l(),
                from as int,
                view.hi(),
                context,
                term::keys_terms(keys@),
            ) == grammar::p_suffixes(
                view.l(),
                index as int,
                view.hi(),
                context,
                term::keys_terms(done@),
            ),
        decreases view.hi() - index,
    {
        if !(view.range.end - index > 1 && view.is_joint(index + 1)) {
            return Err(fail_at(view, index, "path suffix key must immediately follow `.`"));
        }
        match kind_at(view, index + 1) {
            TokenKind::Name(word) => {
                if !is_lettered(word.as_str()) {
                    return Err(expected(view, index + 1, "a name beginning with a letter"));
                }
                let key = formed_key(SyntaxKeyExpr::Atom(word.clone()));
                proof {
                    term::keys_terms_push(done@, key);
                }
                done.push(key);
                index = index + 2;
            },
            TokenKind::Open { group: _, delimiter: _ } => {
                let (step, end) = match parse_step(view, index + 1, context) {
                    Ok(found) => found,
                    Err(errors) => {
                        return Err(errors);
                    },
                };
                proof {
                    term::keys_terms_add(done@, step@);
                }
                let mut step = step;
                done.append(&mut step);
                index = end;
            },
            _ => {
                return Err(expected(view, index + 1, "a name, list, or parenthesized path"));
            },
        }
    }
    Ok((done, index))
}

/// The keys of a bracketed list, or of a parenthesized path.
pub fn parse_step(view: TokenView<'_>, index: usize, context: ExpressionContext) -> (result: Result<
    (Vec<SyntaxKeyExpr>, usize),
    Vec<Diagnostic>,
>)
    requires
        view.wf(),
        view.lo() <= index < view.hi(),
    ensures
        result matches Err(errors) ==> errors.len() > 0,
        notation::said_path(result) == grammar::p_step(
            view.l(),
            index as int,
            view.hi(),
            context,
        ),
        result matches Ok((_, end)) ==> index + 1 < end <= view.hi(),
    decreases view.hi() - index, 10nat, 0nat,
{
    match view.opens(index, Delimiter::Bracket) {
        Some(close) => {
            let inner = view.between(index + 1, close);
            let views = inner.split_top_level(",");
            let items = list_parts(&views, Ghost(inner));
            return match parse_keys(&items, inner, context) {
                Ok(keys) => Ok((keys, close + 1)),
                Err(errors) => Err(errors),
            };
        },
        None => {},
    }
    match view.opens(index, Delimiter::Parenthesis) {
        Some(close) => {
            let inner = view.between(index + 1, close);
            if inner.is_layout_empty() {
                return Err(fail_at(view, index, "path splice requires an expression"));
            }
            match parse_expression(inner, context) {
                Ok(expr) => {
                    let mut keys: Vec<SyntaxKeyExpr> = Vec::new();
                    let key = formed_key(SyntaxKeyExpr::PathIndex(Box::new(expr)));
                    proof {
                        term::keys_terms_push(keys@, key);
                        assert(term::keys_terms(keys@.push(key)) =~= seq![term::key_term(key)]);
                    }
                    keys.push(key);
                    Ok((keys, close + 1))
                },
                Err(errors) => Err(errors),
            }
        },
        None => Err(expected(view, index, "a name, list, or parenthesized path")),
    }
}

/// The path of tagged data or of a dictionary.
pub fn parse_path(view: TokenView<'_>, index: usize, context: ExpressionContext) -> (result: Result<
    (Vec<SyntaxKeyExpr>, usize),
    Vec<Diagnostic>,
>)
    requires
        view.wf(),
        view.lo() <= index <= view.hi(),
    ensures
        result matches Err(errors) ==> errors.len() > 0,
        notation::said_path(result) == grammar::p_path(
            view.l(),
            index as int,
            view.hi(),
            context,
        ),
        result matches Ok((_, end)) ==> index < end <= view.hi(),
    decreases view.hi() - index, 42nat, 0nat,
{
    if index >= view.range.end {
        return Err(expected(view, index, "a path"));
    }
    match kind_at(view, index) {
        TokenKind::Name(word) => if is_lettered(word.as_str()) {
            let keys = single_key(word.as_str());
            parse_suffixes(view, index + 1, context, keys)
        } else {
            Err(expected(view, index, "a path"))
        },
        TokenKind::Open { group: _, delimiter: _ } => match parse_step(view, index, context) {
            Ok((keys, end)) => {
                proof {
                    term::keys_terms_at(keys@);
                }
                if keys.len() == 0 {
                    Err(fail_at(view, index, "path requires at least one path component"))
                } else {
                    Ok((keys, end))
                }
            },
            Err(errors) => Err(errors),
        },
        _ => Err(expected(view, index, "a path")),
    }
}

/// A path of one name.
fn single_key(word: &str) -> (keys: Vec<SyntaxKeyExpr>)
    ensures
        term::keys_terms(keys@) == seq![grammar::key_atom(word@)],
{
    let mut keys: Vec<SyntaxKeyExpr> = Vec::new();
    let key = formed_key(SyntaxKeyExpr::Atom(word.to_owned()));
    proof {
        term::keys_terms_push(keys@, key);
        assert(term::keys_terms(keys@.push(key)) =~= seq![grammar::key_atom(word@)]);
    }
    keys.push(key);
    keys
}

/// An expression without clauses.
pub fn syntax_expr_parser(view: TokenView<'_>, context: ExpressionContext) -> (result: Result<
    SyntaxExpr,
    Vec<Diagnostic>,
>)
    requires
        view.wf(),
    ensures
        result matches Err(errors) ==> errors.len() > 0,
        notation::said(result) == grammar::p_ordinary(view.l(), view.lo(), view.hi(), context),
    decreases view.hi() - view.lo(), 44nat, 0nat,
{
    let (first, end) = match parse_application(view, view.range.start, context) {
        Ok(found) => found,
        Err(errors) => {
            return Err(errors);
        },
    };
    match parse_links(view, end, context, Ghost(first)) {
        Ok(rest) => match resolve_infix_chain(first, rest) {
            Ok(expr) => Ok(expr),
            Err(message) => Err(fail_view(view, message.as_str())),
        },
        Err(errors) => Err(errors),
    }
}

/// The operators and operands that follow a position.
fn parse_links(
    view: TokenView<'_>,
    from: usize,
    context: ExpressionContext,
    Ghost(first): Ghost<SyntaxExpr>,
) -> (result: Result<Vec<(SyntaxOperator, SyntaxExpr)>, Vec<Diagnostic>>)
    requires
        view.wf(),
        view.lo() <= from <= view.hi(),
    ensures
        result matches Err(errors) ==> errors.len() > 0,
        ({
            let told = grammar::p_links(
                view.l(),
                from as int,
                view.hi(),
                context,
                Seq::empty(),
                seq![term::expr_term(first)],
            );
            match result {
                Ok(rest) => told matches Ok((ops, operands)) && ops == infix::link_ops(rest@)
                    && operands == infix::operand_terms(first, rest@),
                Err(errors) => told matches Err(told) && told == diagnostic::reports(errors@),
            }
        }),
    decreases view.hi() - from, 43nat, 0nat,
{
    let mut rest: Vec<(SyntaxOperator, SyntaxExpr)> = Vec::new();
    let mut index = from;
    proof {
        assert(infix::link_ops(rest@) =~= Seq::empty());
        assert(infix::operand_terms(first, rest@) =~= seq![term::expr_term(first)]);
    }
    loop
        invariant
            view.wf(),
            view.lo() <= from <= index <= view.hi(),
            grammar::p_links(
                view.l(),
                from as int,
                view.hi(),
                context,
                Seq::empty(),
                seq![term::expr_term(first)],
            ) == grammar::p_links(
                view.l(),
                index as int,
                view.hi(),
                context,
                infix::link_ops(rest@),
                infix::operand_terms(first, rest@),
            ),
        decreases view.hi() - index,
    {
        let ghost had = rest@;
        let at = view.skip(index);
        if at >= view.range.end {
            return Ok(rest);
        }
        let op = match infix_operator(view, at) {
            Some(op) => op,
            None => {
                return Err(expected(view, at, "an operator or a separated argument"));
            },
        };
        let next = view.skip(at + 1);
        if next >= view.range.end {
            return Err(expected(view, next, "an operand"));
        }
        match parse_application(view, next, context) {
            Ok((operand, end)) => {
                rest.push((op, operand));
                proof {
                    assert(infix::link_ops(rest@) =~= infix::link_ops(had).push(op));
                    assert(infix::operand_terms(first, rest@) =~= infix::operand_terms(
                        first,
                        had,
                    ).push(term::expr_term(operand)));
                }
                index = end;
            },
            Err(errors) => {
                return Err(errors);
            },
        }
    }
}

/// A function and its arguments.
fn parse_application(view: TokenView<'_>, index: usize, context: ExpressionContext) -> (result: Result<
    (SyntaxExpr, usize),
    Vec<Diagnostic>,
>)
    requires
        view.wf(),
        view.lo() <= index <= view.hi(),
    ensures
        result matches Err(errors) ==> errors.len() > 0,
        notation::said_at(result) == grammar::p_application(
            view.l(),
            index as int,
            view.hi(),
            context,
        ),
        result matches Ok((_, end)) ==> index < end <= view.hi(),
    decreases view.hi() - index, 40nat, 0nat,
{
    match parse_head(view, index, context) {
        Ok((head, end)) => parse_arguments(view, end, context, head),
        Err(errors) => Err(errors),
    }
}

/// The arguments that follow a position.
fn parse_arguments(
    view: TokenView<'_>,
    from: usize,
    context: ExpressionContext,
    head: SyntaxExpr,
) -> (result: Result<(SyntaxExpr, usize), Vec<Diagnostic>>)
    requires
        view.wf(),
        view.lo() <= from <= view.hi(),
    ensures
        result matches Err(errors) ==> errors.len() > 0,
        notation::said_at(result) == grammar::p_arguments(
            view.l(),
            from as int,
            view.hi(),
            context,
            term::expr_term(head),
        ),
        result matches Ok((_, end)) ==> from <= end <= view.hi(),
    decreases view.hi() - from, 39nat, 0nat,
{
    let mut function = head;
    let mut index = from;
    loop
        invariant
            view.wf(),
            view.lo() <= from <= index <= view.hi(),
            grammar::p_arguments(
                view.l(),
                from as int,
                view.hi(),
                context,
                term::expr_term(head),
            ) == grammar::p_arguments(
                view.l(),
                index as int,
                view.hi(),
                context,
                term::expr_term(function),
            ),
        decreases view.hi() - index,
    {
        let at = view.skip(index);
        if at >= view.range.end || infix_operator(view, at).is_some() {
            return Ok((function, index));
        }
        if at == index && view.is_joint(at) {
            return Err(expected(view, at, "an operator or a separated argument"));
        }
        if view.is_symbol(at, ".") {
            return Err(
                fail_at(
                    view,
                    at,
                    "dot-leading application arguments must be parenthesized, as in `f (.bar)`, or passed with `<|`",
                ),
            );
        }
        match parse_head(view, at, context) {
            Ok((argument, end)) => {
                function = formed(SyntaxExpr::Apply(Box::new(function), Box::new(argument)));
                index = end;
            },
            Err(errors) => {
                return Err(errors);
            },
        }
    }
}

/// A function, an argument, or an expression that owns the rest of the view.
fn parse_head(view: TokenView<'_>, index: usize, context: ExpressionContext) -> (result: Result<
    (SyntaxExpr, usize),
    Vec<Diagnostic>,
>)
    requires
        view.wf(),
        view.lo() <= index <= view.hi(),
    ensures
        result matches Err(errors) ==> errors.len() > 0,
        notation::said_at(result) == grammar::p_head(
            view.l(),
            index as int,
            view.hi(),
            context,
        ),
        result matches Ok((_, end)) ==> index < end <= view.hi(),
    decreases view.hi() - index, 36nat, 0nat,
{
    if index >= view.range.end {
        return Err(expected(view, index, "expression"));
    }
    if view.is_symbol(index, "\\") {
        return match parse_lambda(view, index, context) {
            Ok(lambda) => Ok((lambda, view.range.end)),
            Err(errors) => Err(errors),
        };
    }
    let conditional = stands(view, index, "if");
    if conditional || stands(view, index, "try") {
        return match parse_if_expression(view, index, context, !conditional) {
            Ok(parsed) => Ok((parsed.expression, parsed.end)),
            Err(errors) => Err(errors),
        };
    }
    let choice = stands(view, index, "match");
    if choice || stands(view, index, "try_match") {
        return match parse_match_expression(view, index, context, !choice) {
            Ok(parsed) => Ok((parsed.expression, parsed.end)),
            Err(errors) => Err(errors),
        };
    }
    if stands(view, index, "using") {
        return match parse_using_expression(view, index, context) {
            Ok(scoped) => Ok((scoped, view.range.end)),
            Err(errors) => Err(errors),
        };
    }
    parse_atom(view, index, context)
}

/// A lambda, which owns the rest of the view.
fn parse_lambda(view: TokenView<'_>, index: usize, context: ExpressionContext) -> (result: Result<
    SyntaxExpr,
    Vec<Diagnostic>,
>)
    requires
        view.wf(),
        view.lo() <= index < view.hi(),
    ensures
        result matches Err(errors) ==> errors.len() > 0,
        notation::said(result) == grammar::p_lambda(view.l(), index as int, view.hi(), context),
    decreases view.hi() - index, 34nat, 0nat,
{
    let (params, from) = match lambda_params(view, index + 1) {
        Ok(found) => found,
        Err(errors) => {
            return Err(errors);
        },
    };
    let rest = view.between(from, view.range.end);
    if rest.is_layout_empty() {
        return Err(expected(view, view.range.end, "expression"));
    }
    match parse_expression(rest, context) {
        Ok(body) => {
            assert(term::words(params@) =~= term::spelled(text::texts(params@)));
            Ok(formed(SyntaxExpr::Lambda(params, Box::new(body))))
        },
        Err(errors) => Err(errors),
    }
}

/// An expression followed by a path.
fn parse_accessed(
    view: TokenView<'_>,
    base: SyntaxExpr,
    from: usize,
    context: ExpressionContext,
) -> (result: Result<(SyntaxExpr, usize), Vec<Diagnostic>>)
    requires
        view.wf(),
        view.lo() <= from <= view.hi(),
    ensures
        result matches Err(errors) ==> errors.len() > 0,
        notation::said_at(result) == grammar::p_accessed(
            view.l(),
            term::expr_term(base),
            from as int,
            view.hi(),
            context,
        ),
        result matches Ok((_, end)) ==> from <= end <= view.hi(),
    decreases view.hi() - from, 41nat, 0nat,
{
    let none: Vec<SyntaxKeyExpr> = Vec::new();
    assert(term::keys_terms(none@) =~= Seq::empty());
    match parse_suffixes(view, from, context, none) {
        Ok((keys, end)) => Ok((access_if_path(base, keys), end)),
        Err(errors) => Err(errors),
    }
}

/// The payload of tagged data.
fn parse_payload(
    view: TokenView<'_>,
    path: Vec<SyntaxKeyExpr>,
    colon: usize,
    context: ExpressionContext,
) -> (result: Result<(SyntaxExpr, usize), Vec<Diagnostic>>)
    requires
        view.wf(),
        view.lo() <= colon < view.hi(),
    ensures
        result matches Err(errors) ==> errors.len() > 0,
        notation::said_at(result) == grammar::p_payload(
            view.l(),
            term::keys_terms(path@),
            colon as int,
            view.hi(),
            context,
        ),
        result matches Ok((_, end)) ==> colon < end <= view.hi(),
    decreases view.hi() - colon, 37nat, 0nat,
{
    if !(view.range.end - colon > 1 && view.is_joint(colon + 1)) {
        return Err(fail_at(view, colon, "tagged data must immediately follow `:`"));
    }
    match parse_atom(view, colon + 1, context) {
        Ok((payload, end)) => Ok((formed(SyntaxExpr::PathDict(path, Box::new(payload))), end)),
        Err(errors) => Err(errors),
    }
}

/// The smallest expressions.
fn parse_atom(view: TokenView<'_>, index: usize, context: ExpressionContext) -> (result: Result<
    (SyntaxExpr, usize),
    Vec<Diagnostic>,
>)
    requires
        view.wf(),
        view.lo() <= index < view.hi(),
    ensures
        result matches Err(errors) ==> errors.len() > 0,
        notation::said_at(result) == grammar::p_atom(
            view.l(),
            index as int,
            view.hi(),
            context,
        ),
        result matches Ok((_, end)) ==> index < end <= view.hi(),
    decreases view.hi() - index, 30nat, 0nat,
{
    match kind_at(view, index) {
        TokenKind::Text(id) => {
            let value = text_value(view, index, *id).to_owned();
            parse_accessed(view, formed(SyntaxExpr::Text(value)), index + 1, context)
        },
        TokenKind::Number(literal) => match Number::parse(literal.as_str()) {
            Some(number) => parse_accessed(view, formed(SyntaxExpr::Number(number)), index + 1, context),
            None => Err(
                fail_at(view, index, number_refusal(literal.as_str()).as_str()),
            ),
        },
        TokenKind::Symbol(symbol) => if same_text(symbol.as_str(), "'") {
            parse_quoted(view, index, context)
        } else if same_text(symbol.as_str(), "^") {
            parse_escape(view, index, context)
        } else if same_text(symbol.as_str(), ".") {
            parse_effect(view, index)
        } else if same_text(symbol.as_str(), ":") {
            if view.range.end - index > 1 && view.is_joint(index + 1) {
                match parse_path(view, index + 1, context) {
                    Ok((path, end)) => Ok((formed(SyntaxExpr::TaggedConstructor(path)), end)),
                    Err(errors) => Err(errors),
                }
            } else {
                Err(fail_at(view, index, "tagged constructor path must immediately follow `:`"))
            }
        } else {
            Err(expected(view, index, "expression"))
        },
        TokenKind::Open { group: _, delimiter } => match view.close_of(index) {
            None => Err(expected(view, index, "expression")),
            Some(close) => if *delimiter != Delimiter::Brace && is_tag(view, close + 1) {
                match parse_step(view, index, context) {
                    Ok((path, _)) => {
                        proof {
                            term::keys_terms_at(path@);
                        }
                        if path.len() == 0 {
                            Err(fail_at(view, index, "path requires at least one path component"))
                        } else {
                            parse_payload(view, path, close + 1, context)
                        }
                    },
                    Err(errors) => Err(errors),
                }
            } else {
                match parse_group(view, index, close, context) {
                    Ok(group) => parse_accessed(view, group, close + 1, context),
                    Err(errors) => Err(errors),
                }
            },
        },
        TokenKind::Embedded(id) => if *id < view.source.embedded.len() {
            let data = view.source.embedded[*id].copy();
            parse_accessed(view, formed(SyntaxExpr::Embedded(data)), index + 1, context)
        } else {
            Err(expected(view, index, "expression"))
        },
        TokenKind::Name(word) => parse_named(view, index, word.as_str(), context),
        _ => Err(expected(view, index, "expression")),
    }
}

/// What a name begins.
fn parse_named(
    view: TokenView<'_>,
    index: usize,
    word: &str,
    context: ExpressionContext,
) -> (result: Result<(SyntaxExpr, usize), Vec<Diagnostic>>)
    requires
        view.wf(),
        view.lo() <= index < view.hi(),
    ensures
        result matches Err(errors) ==> errors.len() > 0,
        notation::said_at(result) == grammar::p_named(
            view.l(),
            index as int,
            view.hi(),
            word@,
            context,
        ),
        result matches Ok((_, end)) ==> index < end <= view.hi(),
    decreases view.hi() - index, 29nat, 0nat,
{
    proof {
        reveal(grammar::free_name);
    }
    let tag = path_end(view, index + 1);
    if is_lettered(word) && is_tag(view, tag) {
        return match parse_suffixes(view, index + 1, context, single_key(word)) {
            Ok((path, end)) => if end != tag {
                Err(expected(view, end, "`:`"))
            } else {
                parse_payload(view, path, tag, context)
            },
            Err(errors) => Err(errors),
        };
    }
    if same_text(word, "do") && is_word_free(view, index) {
        return match parse_do(view, index, context) {
            Ok((block, end)) => parse_accessed(view, block, end, context),
            Err(errors) => Err(errors),
        };
    }
    let chars = chars_of(word);
    if chars.len() > 0 && chars[0] == '_' {
        let rest = string_of(&chars, 1, chars.len());
        assert(rest@ =~= word@.skip(1));
        if !is_lettered(rest.as_str()) {
            Err(fail_at(view, index, "expected name after `_`"))
        } else if !is_free_name(rest.as_str()) {
            Err(fail_at(view, index, reserved_text(rest.as_str()).as_str()))
        } else {
            parse_accessed(view, formed(SyntaxExpr::PriorName(rest)), index + 1, context)
        }
    } else if !is_free_name(word) {
        Err(fail_at(view, index, reserved_text(word).as_str()))
    } else {
        parse_accessed(view, formed(SyntaxExpr::Name(word.to_owned())), index + 1, context)
    }
}

/// A quoted atom or path.
fn parse_quoted(view: TokenView<'_>, index: usize, context: ExpressionContext) -> (result: Result<
    (SyntaxExpr, usize),
    Vec<Diagnostic>,
>)
    requires
        view.wf(),
        view.lo() <= index < view.hi(),
    ensures
        result matches Err(errors) ==> errors.len() > 0,
        notation::said_at(result) == grammar::p_quoted(
            view.l(),
            index as int,
            view.hi(),
            context,
        ),
        result matches Ok((_, end)) ==> index < end <= view.hi(),
    decreases view.hi() - index, 29nat, 0nat,
{
    if !(view.range.end - index > 1 && view.is_joint(index + 1)) {
        return Err(fail_at(view, index, "quoted name must immediately follow `'`"));
    }
    if view.is_symbol(index + 1, ".") {
        let none: Vec<SyntaxKeyExpr> = Vec::new();
        assert(term::keys_terms(none@) =~= Seq::empty());
        return match parse_suffixes(view, index + 1, context, none) {
            Ok((keys, end)) => Ok((quoted_path(keys), end)),
            Err(errors) => Err(errors),
        };
    }
    match kind_at(view, index + 1) {
        TokenKind::Name(word) => if is_lettered(word.as_str()) {
            parse_accessed(view, formed(SyntaxExpr::Atom(word.clone())), index + 2, context)
        } else {
            Err(expected(view, index + 1, "a name beginning with a letter"))
        },
        _ => Err(expected(view, index + 1, "a name or path")),
    }
}

/// A reference to an outer scope.
fn parse_escape(view: TokenView<'_>, index: usize, context: ExpressionContext) -> (result: Result<
    (SyntaxExpr, usize),
    Vec<Diagnostic>,
>)
    requires
        view.wf(),
        view.lo() <= index < view.hi(),
    ensures
        result matches Err(errors) ==> errors.len() > 0,
        notation::said_at(result) == grammar::p_escape(
            view.l(),
            index as int,
            view.hi(),
            context,
        ),
        result matches Ok((_, end)) ==> index < end <= view.hi(),
    decreases view.hi() - index, 29nat, 0nat,
{
    proof {
        reveal(grammar::free_name);
    }
    let at = caret_end(view, index + 1);
    let depth = at - index;
    if !(at < view.range.end && view.is_joint(at)) {
        return Err(expected(view, at, "an escaped name or expression"));
    }
    match kind_at(view, at) {
        TokenKind::Open { group: _, delimiter: Delimiter::Parenthesis } => match view.close_of(
            at,
        ) {
            None => Err(expected(view, at, "an escaped name or expression")),
            Some(close) => match parse_expression(view.between(at + 1, close), context) {
                Ok(inner) => parse_accessed(
                    view,
                    formed(SyntaxExpr::Escape(depth, Box::new(inner))),
                    close + 1,
                    context,
                ),
                Err(errors) => Err(errors),
            },
        },
        TokenKind::Name(word) => if !is_lettered(word.as_str()) {
            Err(expected(view, at, "an escaped name or expression"))
        } else if !is_free_name(word.as_str()) {
            Err(fail_at(view, at, reserved_text(word.as_str()).as_str()))
        } else {
            match parse_accessed(view, formed(SyntaxExpr::Name(word.clone())), at + 1, context) {
                Ok((inner, end)) => Ok((formed(SyntaxExpr::Escape(depth, Box::new(inner))), end)),
                Err(errors) => Err(errors),
            }
        },
        _ => Err(expected(view, at, "an escaped name or expression")),
    }
}

/// An effect.
fn parse_effect(view: TokenView<'_>, index: usize) -> (result: Result<
    (SyntaxExpr, usize),
    Vec<Diagnostic>,
>)
    requires
        view.wf(),
        view.lo() <= index < view.hi(),
    ensures
        result matches Err(errors) ==> errors.len() > 0,
        notation::said_at(result) == grammar::p_effect(view.l(), index as int, view.hi()),
        result matches Ok((_, end)) ==> index < end <= view.hi(),
{
    let (names, end) = effect_names(view, index);
    assert(text::texts(names@).len() == names.len());
    if names.len() == 0 {
        Err(expected(view, index + 1, "an effect name"))
    } else {
        assert(term::words(names@) =~= term::spelled(text::texts(names@)));
        Ok((formed(SyntaxExpr::Effect(names)), end))
    }
}

/// The group between two tokens.
fn parse_group(
    view: TokenView<'_>,
    open: usize,
    close: usize,
    context: ExpressionContext,
) -> (result: Result<SyntaxExpr, Vec<Diagnostic>>)
    requires
        view.wf(),
        view.lo() <= open < close < view.hi(),
        input::lexeme(view.l(), open as int) is Open,
    ensures
        result matches Err(errors) ==> errors.len() > 0,
        notation::said(result) == grammar::p_group(view.l(), open as int, close as int, context),
    decreases close - open, 28nat, 0nat,
{
    let inner = view.between(open + 1, close);
    match kind_at(view, open) {
        TokenKind::Open { group: _, delimiter: Delimiter::Parenthesis } => parse_paren(
            view,
            open,
            close,
            context,
        ),
        TokenKind::Open { group: _, delimiter: Delimiter::Bracket } => {
            let views = inner.split_top_level(",");
            let items = list_parts(&views, Ghost(inner));
            match parse_exprs(&items, inner, context) {
                Ok(items) => Ok(formed(SyntaxExpr::List(items))),
                Err(errors) => Err(errors),
            }
        },
        _ => {
            let views = inner.split_top_level(",");
            let items = list_parts(&views, Ghost(inner));
            match parse_entries(&items, inner, context) {
                Ok(items) => Ok(formed(SyntaxExpr::DictUnion(items))),
                Err(errors) => Err(errors),
            }
        },
    }
}

/// What stands in parentheses.
fn parse_paren(
    view: TokenView<'_>,
    open: usize,
    close: usize,
    context: ExpressionContext,
) -> (result: Result<SyntaxExpr, Vec<Diagnostic>>)
    requires
        view.wf(),
        view.lo() <= open < close < view.hi(),
    ensures
        result matches Err(errors) ==> errors.len() > 0,
        notation::said(result) == grammar::p_paren(view.l(), open as int, close as int, context),
    decreases close - open, 27nat, 0nat,
{
    let group = view.between(open + 1, close);
    let inner = group.trim_layout();
    let start = inner.range.start;
    let end = inner.range.end;
    let views = group.split_top_level(",");
    assert(input::ranges(views@).len() == views.len());
    if start >= end {
        if open + 1 == close && view.is_joint(close) {
            return Ok(formed(SyntaxExpr::Unit));
        }
        return Err(expected(view.between(open, close + 1), close, "expression"));
    }
    if views.len() > 1 {
        let items = tuple_parts(&views, Ghost(group));
        return match parse_exprs(&items, group, context) {
            Ok(items) => Ok(formed(SyntaxExpr::Tuple(items))),
            Err(errors) => Err(errors),
        };
    }
    parse_section(inner, context)
}

/// The term of an operand that may be left out.
pub open spec fn maybe_operand(operand: Option<SyntaxExpr>) -> Option<term::Term> {
    match operand {
        Some(operand) => Some(term::expr_term(operand)),
        None => None,
    }
}

/// An operator without one operand, or both.
fn operator_section(
    operator: SyntaxOperator,
    left: Option<SyntaxExpr>,
    right: Option<SyntaxExpr>,
) -> (expr: SyntaxExpr)
    ensures
        term::expr_term(expr) == grammar::section(
            operator,
            maybe_operand(left),
            maybe_operand(right),
        ),
{
    let left = match left {
        Some(left) => Some(Box::new(left)),
        None => None,
    };
    let right = match right {
        Some(right) => Some(Box::new(right)),
        None => None,
    };
    formed(SyntaxExpr::OperatorSection { operator, left, right })
}

/// An operator section, or an expression.
fn parse_section(inner: TokenView<'_>, context: ExpressionContext) -> (result: Result<
    SyntaxExpr,
    Vec<Diagnostic>,
>)
    requires
        inner.wf(),
        inner.lo() < inner.hi(),
    ensures
        result matches Err(errors) ==> errors.len() > 0,
        notation::said(result) == grammar::p_section(inner.l(), inner.lo(), inner.hi(), context),
    decreases inner.hi() - inner.lo(), 53nat, 0nat,
{
    let start = inner.range.start;
    let end = inner.range.end;
    if is_word_free(inner, start) {
        match infix_operator(inner, start) {
            Some(operator) => {
                if start + 1 == end {
                    return Ok(operator_section(operator, None, None));
                }
                return match parse_expression(inner.between(start + 1, end), context) {
                    Ok(right) => Ok(operator_section(operator, None, Some(right))),
                    Err(errors) => Err(errors),
                };
            },
            None => {},
        }
    }
    let is_name = match kind_at(inner, end - 1) {
        TokenKind::Name(_) => true,
        _ => false,
    };
    if !(is_name && inner.is_joint(end - 1)) {
        match infix_operator(inner, end - 1) {
            Some(operator) => {
                return match parse_expression(inner.between(start, end - 1), context) {
                    Ok(left) => Ok(operator_section(operator, Some(left), None)),
                    Err(errors) => Err(errors),
                };
            },
            None => {},
        }
    }
    parse_expression(inner, context)
}

} // verus!
