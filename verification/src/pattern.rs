//! Patterns and guards.

use vstd::prelude::*;
use vstd::string::StringExecFns;
use crate::ast::{
    SyntaxDictPatternEntry, SyntaxExpr, SyntaxGuardClause, SyntaxKeyExpr, SyntaxPattern,
    SyntaxPatternKind, SyntaxPatternLiteral,
};
use crate::diagnostic;
use crate::diagnostic::{Diagnostic, DiagnosticView};
use crate::do_expr::{parse_clause, Clause};
use crate::expression;
use crate::expression::{parse_path, parse_suffixes};
use crate::expression_context::ExpressionContext;
use crate::grammar;
use crate::grammar::ItemKind;
use crate::input;
use crate::input::{MarkText, TokenRange, TokenView};
use crate::lexical::{Delimiter, Lexed, TokenKind};
use crate::notation;
use crate::notation::{
    expected, fail_at, fail_view, first_mark, is_lettered, is_plain, kind_at, last_item,
    list_parts, local_of, not_a_name, phrase, repeats, text_value, tuple_parts,
};
use crate::number::{number_refusal, Number};
use crate::structural::parse_expression;
use crate::term;
use crate::term::{formed_key, Tag, Term};
use crate::text::same_text;

verus! {

pub open spec fn said_patterns(result: Result<Vec<SyntaxPattern>, Vec<Diagnostic>>) -> grammar::Outs {
    match result {
        Ok(items) => Ok(term::patterns_terms(items@)),
        Err(errors) => Err(diagnostic::reports(errors@)),
    }
}

pub open spec fn said_guards(
    result: Result<Vec<SyntaxGuardClause>, Vec<Diagnostic>>,
) -> grammar::Outs {
    match result {
        Ok(items) => Ok(term::guards_terms(items@)),
        Err(errors) => Err(diagnostic::reports(errors@)),
    }
}

pub open spec fn maybe_pattern(pattern: Option<SyntaxPattern>) -> Option<Term> {
    match pattern {
        Some(pattern) => Some(term::pattern_term(pattern)),
        None => None,
    }
}

/// The segments of a list pattern.
pub struct Segments {
    pub prefix: Vec<SyntaxPattern>,
    pub middle: Option<SyntaxPattern>,
    pub suffix: Vec<SyntaxPattern>,
}

pub open spec fn said_segments(result: Result<Segments, Vec<Diagnostic>>) -> Result<
    (Seq<Term>, Option<Term>, Seq<Term>),
    Seq<DiagnosticView>,
> {
    match result {
        Ok(segments) => Ok(
            (
                term::patterns_terms(segments.prefix@),
                maybe_pattern(segments.middle),
                term::patterns_terms(segments.suffix@),
            ),
        ),
        Err(errors) => Err(diagnostic::reports(errors@)),
    }
}

/// The entries of a dictionary pattern, and what remains.
pub struct Entries {
    pub entries: Vec<SyntaxDictPatternEntry>,
    pub remainder: Option<SyntaxPattern>,
    pub paths: Vec<TokenRange>,
}

pub open spec fn said_entries(result: Result<Entries, Vec<Diagnostic>>) -> Result<
    (Seq<Term>, Option<Term>, Seq<(int, int)>),
    Seq<DiagnosticView>,
> {
    match result {
        Ok(found) => Ok(
            (
                term::entries_terms(found.entries@),
                maybe_pattern(found.remainder),
                notation::pairs(found.paths@),
            ),
        ),
        Err(errors) => Err(diagnostic::reports(errors@)),
    }
}

/// What is wrong with the first segments is what is wrong with all of them.
pub proof fn segments_fail(l: Lexed, parts: Seq<(int, int)>, k: int, lo: int, hi: int, context: ExpressionContext)
    requires
        0 <= k <= parts.len(),
    ensures
        grammar::p_segments(l, parts.take(k), lo, hi, context) is Err ==> grammar::p_segments(l, parts, lo, hi, context)
            == grammar::p_segments(l, parts.take(k), lo, hi, context),
    decreases parts.len(),
{
    if k < parts.len() {
        segments_fail(l, parts.drop_last(), k, lo, hi, context);
        assert(parts.drop_last().take(k) =~= parts.take(k));
    } else {
        assert(parts.take(k) =~= parts);
    }
}

/// What is wrong with the first entries is what is wrong with all of them.
pub proof fn entries_fail(l: Lexed, parts: Seq<(int, int)>, k: int, lo: int, hi: int, context: ExpressionContext)
    requires
        0 <= k <= parts.len(),
    ensures
        grammar::p_entries(l, parts.take(k), lo, hi, context) is Err ==> grammar::p_entries(l, parts, lo, hi, context)
            == grammar::p_entries(l, parts.take(k), lo, hi, context),
    decreases parts.len(),
{
    if k < parts.len() {
        entries_fail(l, parts.drop_last(), k, lo, hi, context);
        assert(parts.drop_last().take(k) =~= parts.take(k));
    } else {
        assert(parts.take(k) =~= parts);
    }
}

/// What is wrong with the first clauses is what is wrong with all of them.
pub proof fn guards_fail(l: Lexed, parts: Seq<(int, int)>, k: int, lo: int, hi: int, context: ExpressionContext, label: Seq<char>)
    requires
        0 <= k <= parts.len(),
    ensures
        grammar::p_guard_list(l, parts.take(k), lo, hi, context, label) is Err ==> grammar::p_guard_list(l, parts, lo, hi, context, label)
            == grammar::p_guard_list(l, parts.take(k), lo, hi, context, label),
    decreases parts.len(),
{
    if k < parts.len() {
        guards_fail(l, parts.drop_last(), k, lo, hi, context, label);
        assert(parts.drop_last().take(k) =~= parts.take(k));
    } else {
        assert(parts.take(k) =~= parts);
    }
}

/// A pattern of one kind.
fn pattern(kind: SyntaxPatternKind) -> (pattern: SyntaxPattern)
    ensures
        pattern.kind == kind,
        term::pattern_term(pattern) == term::pattern_shape(pattern),
{
    let pattern = SyntaxPattern { kind };
    proof {
        term::pattern_def(pattern);
    }
    pattern
}

/// A pattern of list items alone.
fn list_pattern(items: Vec<SyntaxPattern>) -> (pattern: SyntaxPattern)
    ensures
        term::pattern_term(pattern) == grammar::list_pattern(
            term::patterns_terms(items@),
            None,
            Seq::empty(),
        ),
{
    let none: Vec<SyntaxPattern> = Vec::new();
    assert(term::patterns_terms(none@) =~= Seq::empty());
    pattern(SyntaxPatternKind::List { prefix: items, middle: None, suffix: none })
}

/// A pattern of one dictionary entry.
fn entry_pattern(path: Vec<SyntaxKeyExpr>, payload: SyntaxPattern) -> (pattern: SyntaxPattern)
    ensures
        term::pattern_term(pattern) == grammar::dict_pattern(
            seq![grammar::entry(term::keys_terms(path@), false, term::pattern_term(payload))],
            None,
        ),
{
    let entry = SyntaxDictPatternEntry { path, optional: false, pattern: payload };
    let mut entries: Vec<SyntaxDictPatternEntry> = Vec::new();
    proof {
        term::entries_terms_push(entries@, entry);
        term::entry_def(entry);
        assert(term::entries_terms(entries@.push(entry)) =~= seq![term::entry_term(entry)]);
    }
    entries.push(entry);
    pattern(SyntaxPatternKind::Dict { entries, remainder: None })
}

/// The patterns of a list.
fn parse_patterns(items: &Vec<TokenView<'_>>, outer: TokenView<'_>, context: ExpressionContext) -> (result:
    Result<Vec<SyntaxPattern>, Vec<Diagnostic>>)
    requires
        outer.wf(),
        input::all_within(items@, outer),
    ensures
        result matches Err(errors) ==> errors.len() > 0,
        said_patterns(result) == grammar::p_items(
            outer.l(),
            input::ranges(items@),
            outer.lo(),
            outer.hi(),
            context,
            ItemKind::Pattern,
        ),
    decreases outer.hi() - outer.lo(), 61nat, 0nat,
{
    let ghost all = input::ranges(items@);
    let ghost l = outer.l();
    assert(all.len() == items.len());
    let mut done: Vec<SyntaxPattern> = Vec::new();
    let mut k: usize = 0;
    assert(term::patterns_terms(done@) =~= Seq::empty());
    while k < items.len()
        invariant
            outer.wf(),
            l == outer.l(),
            k <= items.len(),
            all == input::ranges(items@),
            all.len() == items.len(),
            input::all_within(items@, outer),
            grammar::p_items(
                l,
                all.take(k as int),
                outer.lo(),
                outer.hi(),
                context,
                ItemKind::Pattern,
            ) == Ok::<Seq<Term>, Seq<DiagnosticView>>(term::patterns_terms(done@)),
        decreases items.len() - k,
    {
        proof {
            assert(all.take(k + 1).drop_last() =~= all.take(k as int));
            assert(all.take(k + 1).last() == (items@[k as int].lo(), items@[k as int].hi()));
            expression::items_fail(
                l,
                all,
                k + 1,
                outer.lo(),
                outer.hi(),
                context,
                ItemKind::Pattern,
            );
            assert(grammar::p_item(
                l,
                items@[k as int].lo(),
                items@[k as int].hi(),
                context,
                ItemKind::Pattern,
            ) == grammar::p_pattern(l, items@[k as int].lo(), items@[k as int].hi(), context));
        }
        if items[k].is_layout_empty() {
            return Err(fail_view(outer, "list contains an empty item between commas"));
        }
        match parse_pattern(items[k], context) {
            Ok(item) => {
                proof {
                    term::patterns_terms_push(done@, item);
                }
                done.push(item);
            },
            Err(errors) => {
                return Err(errors);
            },
        }
        k = k + 1;
    }
    assert(all.take(items.len() as int) =~= all);
    Ok(done)
}

/// A pattern that binds or inspects a value.
pub fn parse_pattern(view: TokenView<'_>, context: ExpressionContext) -> (result: Result<
    SyntaxPattern,
    Vec<Diagnostic>,
>)
    requires
        view.wf(),
    ensures
        result matches Err(errors) ==> errors.len() > 0,
        notation::said_pattern(result) == grammar::p_pattern(
            view.l(),
            view.lo(),
            view.hi(),
            context,
        ),
    decreases view.hi() - view.lo(), 56nat, 0nat,
{
    let inner = view.trim_layout();
    let start = inner.range.start;
    let end = inner.range.end;
    if inner.is_empty() {
        return Err(
            fail_view(
                view,
                "expected a capture, literal, list pattern, dictionary pattern, or parenthesized pattern",
            ),
        );
    }
    match first_mark(inner, MarkText::Word("as")) {
        Some(at) => {
            let left = inner.between(start, at);
            let right = inner.between(at + 1, end);
            if left.is_layout_empty() || right.is_layout_empty() {
                return Err(fail_view(inner, "pattern `as` requires a pattern on both sides"));
            }
            let left = match parse_pattern(left, context) {
                Ok(left) => left,
                Err(errors) => {
                    return Err(errors);
                },
            };
            return match parse_pattern(right, context) {
                Ok(right) => Ok(pattern(SyntaxPatternKind::As(Box::new(left), Box::new(right)))),
                Err(errors) => Err(errors),
            };
        },
        None => {},
    }
    if first_mark(inner, MarkText::Symbol("++")).is_some() {
        let views = inner.split_top_level("++");
        return match parse_segments(&views, inner, context) {
            Ok(segments) => {
                let middle = match segments.middle {
                    Some(middle) => Some(Box::new(middle)),
                    None => None,
                };
                Ok(
                    pattern(
                        SyntaxPatternKind::List {
                            prefix: segments.prefix,
                            middle,
                            suffix: segments.suffix,
                        },
                    ),
                )
            },
            Err(errors) => Err(errors),
        };
    }
    match first_mark(inner, MarkText::Symbol(":")) {
        Some(colon) => {
            if colon == start {
                return Err(fail_view(inner, "dictionary shorthand is valid only inside braces"));
            }
            let rest = inner.between(colon + 1, end);
            if rest.is_layout_empty() {
                return Err(fail_view(inner, "tagged pattern requires a payload after `:`"));
            }
            let (path, after) = match parse_path(inner.between(start, colon), start, context) {
                Ok(found) => found,
                Err(errors) => {
                    return Err(errors);
                },
            };
            if after != colon {
                return Err(expected(inner, after, "`:`"));
            }
            return match parse_pattern(rest, context) {
                Ok(payload) => Ok(entry_pattern(path, payload)),
                Err(errors) => Err(errors),
            };
        },
        None => {},
    }
    parse_simple_pattern(inner, context)
}

/// The segments of a list pattern.
fn parse_segments(views: &Vec<TokenView<'_>>, outer: TokenView<'_>, context: ExpressionContext) -> (result:
    Result<Segments, Vec<Diagnostic>>)
    requires
        outer.wf(),
        input::all_within(views@, outer),
    ensures
        result matches Err(errors) ==> errors.len() > 0,
        said_segments(result) == grammar::p_segments(
            outer.l(),
            input::ranges(views@),
            outer.lo(),
            outer.hi(),
            context,
        ),
    decreases outer.hi() - outer.lo(), 55nat, 0nat,
{
    let ghost all = input::ranges(views@);
    let ghost l = outer.l();
    assert(all.len() == views.len());
    let mut prefix: Vec<SyntaxPattern> = Vec::new();
    let mut middle: Option<SyntaxPattern> = None;
    let mut suffix: Vec<SyntaxPattern> = Vec::new();
    let mut k: usize = 0;
    assert(term::patterns_terms(prefix@) =~= Seq::empty());
    while k < views.len()
        invariant
            outer.wf(),
            l == outer.l(),
            k <= views.len(),
            all == input::ranges(views@),
            all.len() == views.len(),
            input::all_within(views@, outer),
            grammar::p_segments(l, all.take(k as int), outer.lo(), outer.hi(), context) == Ok::<
                (Seq<Term>, Option<Term>, Seq<Term>),
                Seq<DiagnosticView>,
            >(
                (
                    term::patterns_terms(prefix@),
                    maybe_pattern(middle),
                    term::patterns_terms(suffix@),
                ),
            ),
        decreases views.len() - k,
    {
        proof {
            assert(all.take(k + 1).drop_last() =~= all.take(k as int));
            assert(all.take(k + 1).last() == (views@[k as int].lo(), views@[k as int].hi()));
            segments_fail(l, all, k + 1, outer.lo(), outer.hi(), context);
        }
        let part = views[k].trim_layout();
        if part.is_empty() {
            return Err(fail_view(outer, "list pattern contains an empty segment"));
        }
        let start = part.range.start;
        let last = part.range.end - 1;
        let is_list = match part.opens(start, Delimiter::Bracket) {
            Some(close) => close == last,
            None => false,
        };
        if is_list {
            let inner = part.between(start + 1, last);
            let items = inner.split_top_level(",");
            let items = list_parts(&items, Ghost(inner));
            let items = match parse_patterns(&items, inner, context) {
                Ok(items) => items,
                Err(errors) => {
                    return Err(errors);
                },
            };
            let mut more = items;
            if middle.is_none() {
                proof {
                    term::patterns_terms_add(prefix@, items@);
                }
                prefix.append(&mut more);
            } else {
                proof {
                    term::patterns_terms_add(suffix@, items@);
                }
                suffix.append(&mut more);
            }
        } else {
            if middle.is_some() {
                return Err(
                    fail_view(part, "list pattern permits only one variable-length segment"),
                );
            }
            match parse_simple_pattern(part, context) {
                Ok(found) => {
                    middle = Some(found);
                },
                Err(errors) => {
                    return Err(errors);
                },
            }
        }
        k = k + 1;
    }
    assert(all.take(views.len() as int) =~= all);
    Ok(Segments { prefix, middle, suffix })
}

/// A key that is written out.
fn is_static_key(key: &SyntaxKeyExpr) -> (b: bool)
    ensures
        b == grammar::static_key(term::key_term(*key)),
{
    proof {
        term::key_def(*key);
        term::expr_def(*key->Index_0);
    }
    match key {
        SyntaxKeyExpr::Atom(_) => true,
        SyntaxKeyExpr::Index(inner) => match &**inner {
            SyntaxExpr::Number(_) => true,
            SyntaxExpr::Text(_) => true,
            SyntaxExpr::Unit => true,
            _ => false,
        },
        SyntaxKeyExpr::PathIndex(_) => false,
    }
}

/// The literal pattern of a key that is written out.
fn key_pattern(key: SyntaxKeyExpr) -> (found: SyntaxPattern)
    requires
        grammar::static_key(term::key_term(key)),
    ensures
        term::pattern_term(found) == grammar::key_pattern(term::key_term(key)),
{
    proof {
        term::key_def(key);
        term::expr_def(*key->Index_0);
    }
    let literal = match key {
        SyntaxKeyExpr::Atom(name) => SyntaxPatternLiteral::Atom(name),
        SyntaxKeyExpr::Index(inner) => match *inner {
            SyntaxExpr::Number(number) => SyntaxPatternLiteral::Number(number),
            SyntaxExpr::Text(text) => SyntaxPatternLiteral::Text(text),
            _ => SyntaxPatternLiteral::Unit,
        },
        SyntaxKeyExpr::PathIndex(_) => SyntaxPatternLiteral::Unit,
    };
    pattern(SyntaxPatternKind::Literal(literal))
}

/// The pattern of a quoted path.
fn quoted_pattern(keys: Vec<SyntaxKeyExpr>) -> (found: SyntaxPattern)
    ensures
        term::pattern_term(found) == grammar::quoted_pattern(term::keys_terms(keys@)),
{
    proof {
        reveal(grammar::quoted_pattern);
    }
    let ghost all = keys@;
    let ghost terms = term::keys_terms(all);
    proof {
        term::keys_terms_at(all);
    }
    let mut k: usize = 0;
    while k < keys.len()
        invariant
            k <= keys.len(),
            all == keys@,
            terms == term::keys_terms(all),
            terms.len() == all.len(),
            forall|j: int|
                0 <= j < all.len() ==> #[trigger] terms[j] == term::key_term(all[j]),
            forall|j: int| 0 <= j < k ==> grammar::static_key(#[trigger] terms[j]),
        decreases keys.len() - k,
    {
        proof {
            reveal(grammar::quoted_pattern);
        }
        assert(terms[k as int] == term::key_term(all[k as int]));
        if !is_static_key(&keys[k]) {
            return pattern(SyntaxPatternKind::QuotedPath(keys));
        }
        k = k + 1;
    }
    let mut rest = keys;
    let mut items: Vec<SyntaxPattern> = Vec::new();
    let ghost told = terms.map_values(|t: Term| grammar::key_pattern(t));
    proof {
        assert(term::patterns_terms(items@) =~= Seq::empty());
        assert(told.take(0) =~= Seq::empty());
        assert(all.skip(0) =~= all);
    }
    while rest.len() > 0
        invariant
            items.len() + rest.len() == all.len(),
            rest@ == all.skip(items.len() as int),
            terms.len() == all.len(),
            told == terms.map_values(|t: Term| grammar::key_pattern(t)),
            forall|j: int|
                0 <= j < all.len() ==> #[trigger] terms[j] == term::key_term(all[j]),
            forall|j: int| 0 <= j < all.len() ==> grammar::static_key(#[trigger] terms[j]),
            term::patterns_terms(items@) == told.take(items.len() as int),
        decreases rest.len(),
    {
        proof {
            reveal(grammar::quoted_pattern);
        }
        let ghost n = items.len() as int;
        assert(rest@[0] == all[n]);
        assert(terms[n] == term::key_term(all[n]));
        let key = rest.remove(0);
        assert(rest@ =~= all.skip(n + 1));
        let item = key_pattern(key);
        proof {
            term::patterns_terms_push(items@, item);
            assert(told.take(n + 1) =~= told.take(n).push(told[n]));
        }
        items.push(item);
    }
    assert(told.take(all.len() as int) =~= told);
    list_pattern(items)
}

/// What no pattern is.
fn no_pattern(view: TokenView<'_>) -> (errors: Vec<Diagnostic>)
    requires
        view.wf(),
    ensures
        errors.len() > 0,
        diagnostic::reports(errors@) == grammar::fail_view(
            view.l(),
            view.lo(),
            view.hi(),
            grammar::pattern_message(),
        ),
{
    proof {
        reveal(grammar::fail_view);
    }
    fail_view(
        view,
        "expected a capture, literal, list pattern, dictionary pattern, or parenthesized pattern",
    )
}

/// A pattern of one name, literal or group.
fn parse_simple_pattern(view: TokenView<'_>, context: ExpressionContext) -> (result: Result<
    SyntaxPattern,
    Vec<Diagnostic>,
>)
    requires
        view.wf(),
        view.lo() < view.hi(),
    ensures
        result matches Err(errors) ==> errors.len() > 0,
        notation::said_pattern(result) == grammar::p_simple(
            view.l(),
            view.lo(),
            view.hi(),
            context,
        ),
    decreases view.hi() - view.lo(), 52nat, 0nat,
{
    let start = view.range.start;
    let end = view.range.end;
    match kind_at(view, start) {
        TokenKind::Name(word) => if end != start + 1 {
            Err(no_pattern(view))
        } else if same_text(word.as_str(), "_") {
            Ok(pattern(SyntaxPatternKind::Wildcard))
        } else {
            match local_of(view) {
                Some(name) => Ok(pattern(SyntaxPatternKind::Capture(name))),
                None => Err(
                    not_a_name(
                        view,
                        "expected a capture, literal, list pattern, dictionary pattern, or parenthesized pattern",
                    ),
                ),
            }
        },
        TokenKind::Number(literal) => if end != start + 1 {
            Err(no_pattern(view))
        } else {
            match Number::parse(literal.as_str()) {
                Some(number) => Ok(
                    pattern(SyntaxPatternKind::Literal(SyntaxPatternLiteral::Number(number))),
                ),
                None => Err(
                    fail_at(view, start, number_refusal(literal.as_str()).as_str()),
                ),
            }
        },
        TokenKind::Text(id) => if end != start + 1 {
            Err(no_pattern(view))
        } else {
            let value = text_value(view, start, *id).to_owned();
            Ok(pattern(SyntaxPatternKind::Literal(SyntaxPatternLiteral::Text(value))))
        },
        TokenKind::Symbol(symbol) => if !same_text(symbol.as_str(), "'") || !(end - start > 1
            && view.is_joint(start + 1)) {
            Err(no_pattern(view))
        } else if view.is_symbol(start + 1, ".") {
            let none: Vec<SyntaxKeyExpr> = Vec::new();
            assert(term::keys_terms(none@) =~= Seq::empty());
            match parse_suffixes(view, start + 1, context, none) {
                Ok((keys, after)) => if after != end {
                    Err(no_pattern(view))
                } else {
                    Ok(quoted_pattern(keys))
                },
                Err(errors) => Err(errors),
            }
        } else {
            match kind_at(view, start + 1) {
                TokenKind::Name(word) => if is_lettered(word.as_str()) && end == start + 2 {
                    Ok(
                        pattern(
                            SyntaxPatternKind::Literal(SyntaxPatternLiteral::Atom(word.clone())),
                        ),
                    )
                } else {
                    Err(no_pattern(view))
                },
                _ => Err(no_pattern(view)),
            }
        },
        TokenKind::Open { group: _, delimiter } => {
            let closes = match view.close_of(start) {
                Some(close) => close == end - 1,
                None => false,
            };
            if !closes {
                return Err(no_pattern(view));
            }
            let inner = view.between(start + 1, end - 1);
            match delimiter {
                Delimiter::Parenthesis => parse_group_pattern(inner, context),
                Delimiter::Bracket => {
                    let views = inner.split_top_level(",");
                    let items = list_parts(&views, Ghost(inner));
                    match parse_patterns(&items, inner, context) {
                        Ok(items) => Ok(list_pattern(items)),
                        Err(errors) => Err(errors),
                    }
                },
                Delimiter::Brace => {
                    let views = inner.split_top_level(",");
                    let items = list_parts(&views, Ghost(inner));
                    match parse_dict_entries(&items, inner, context) {
                        Ok(found) => {
                            let remainder = match found.remainder {
                                Some(remainder) => Some(Box::new(remainder)),
                                None => None,
                            };
                            Ok(
                                pattern(
                                    SyntaxPatternKind::Dict { entries: found.entries, remainder },
                                ),
                            )
                        },
                        Err(errors) => Err(errors),
                    }
                },
            }
        },
        _ => Err(no_pattern(view)),
    }
}

/// What stands in the parentheses of a pattern.
fn parse_group_pattern(view: TokenView<'_>, context: ExpressionContext) -> (result: Result<
    SyntaxPattern,
    Vec<Diagnostic>,
>)
    requires
        view.wf(),
        view.lo() > 0,
    ensures
        result matches Err(errors) ==> errors.len() > 0,
        notation::said_pattern(result) == grammar::p_group_pattern(
            view.l(),
            view.lo() - 1,
            view.hi(),
            context,
        ),
    decreases view.hi() - view.lo() + 1, 51nat, 0nat,
{
    let inner = view.trim_layout();
    let start = inner.range.start;
    let end = inner.range.end;
    let views = view.split_top_level(",");
    assert(input::ranges(views@).len() == views.len());
    if inner.is_empty() {
        return Ok(pattern(SyntaxPatternKind::Literal(SyntaxPatternLiteral::Unit)));
    }
    if views.len() > 1 {
        let items = tuple_parts(&views, Ghost(view));
        return match parse_patterns(&items, view, context) {
            Ok(items) => {
                let mut path: Vec<SyntaxKeyExpr> = Vec::new();
                let key = formed_key(SyntaxKeyExpr::Atom("tuple".to_owned()));
                proof {
                    term::keys_terms_push(path@, key);
                    assert(term::keys_terms(path@.push(key)) =~= seq![grammar::key_atom("tuple"@)]);
                }
                path.push(key);
                Ok(entry_pattern(path, list_pattern(items)))
            },
            Err(errors) => Err(errors),
        };
    }
    match first_mark(inner, MarkText::Word("when")) {
        Some(at) => {
            let left = inner.between(start, at);
            let right = inner.between(at + 1, end);
            if left.is_layout_empty() {
                return Err(
                    fail_view(inner, "local pattern guard requires a pattern before `when`"),
                );
            }
            if right.is_layout_empty() {
                return Err(fail_view(inner, "local pattern guard requires a guard after `when`"));
            }
            let guarded = match parse_complete_pattern(left, context) {
                Ok(guarded) => guarded,
                Err(errors) => {
                    return Err(errors);
                },
            };
            match parse_guards(right, context, "local pattern guard") {
                Ok(guards) => Ok(
                    pattern(SyntaxPatternKind::Guarded { pattern: Box::new(guarded), guards }),
                ),
                Err(errors) => Err(errors),
            }
        },
        None => match parse_complete_pattern(inner, context) {
            Ok(found) => {
                proof {
                    term::pattern_def(found);
                }
                let stays = match &found.kind {
                    SyntaxPatternKind::View { view: _, pattern: _ } => true,
                    SyntaxPatternKind::Predicate { predicate: _, pattern: _ } => true,
                    _ => false,
                };
                if stays {
                    Ok(found)
                } else {
                    Ok(pattern(SyntaxPatternKind::Group(Box::new(found))))
                }
            },
            Err(errors) => Err(errors),
        },
    }
}

/// A pattern that may view its value or test it.
pub fn parse_complete_pattern(view: TokenView<'_>, context: ExpressionContext) -> (result: Result<
    SyntaxPattern,
    Vec<Diagnostic>,
>)
    requires
        view.wf(),
    ensures
        result matches Err(errors) ==> errors.len() > 0,
        notation::said_pattern(result) == grammar::p_complete(
            view.l(),
            view.lo(),
            view.hi(),
            context,
        ),
    decreases view.hi() - view.lo(), 58nat, 0nat,
{
    let inner = view.trim_layout();
    let start = inner.range.start;
    let end = inner.range.end;
    if inner.is_empty() {
        return Err(no_pattern(view));
    }
    match first_mark(inner, MarkText::Symbol("->")) {
        Some(at) => {
            return parse_view(
                inner,
                inner.between(start, at),
                inner.between(at + 1, end),
                context,
            );
        },
        None => {},
    }
    match first_mark(inner, MarkText::Symbol("<-")) {
        Some(at) => {
            return parse_view(
                inner,
                inner.between(at + 1, end),
                inner.between(start, at),
                context,
            );
        },
        None => {},
    }
    let last = last_item(inner);
    if is_plain(inner) && start < last && !inner.is_joint(last) {
        let predicate = match parse_expression(inner.between(start, last), context) {
            Ok(predicate) => predicate,
            Err(errors) => {
                return Err(errors);
            },
        };
        return match parse_pattern(inner.between(last, end), context) {
            Ok(tested) => Ok(
                pattern(
                    SyntaxPatternKind::Predicate {
                        predicate: Box::new(predicate),
                        pattern: Box::new(tested),
                    },
                ),
            ),
            Err(errors) => Err(errors),
        };
    }
    parse_pattern(inner, context)
}

/// A view pattern.
fn parse_view(
    outer: TokenView<'_>,
    through: TokenView<'_>,
    seen: TokenView<'_>,
    context: ExpressionContext,
) -> (result: Result<SyntaxPattern, Vec<Diagnostic>>)
    requires
        outer.wf(),
        through.wf(),
        seen.wf(),
        through.source == outer.source,
        seen.source == outer.source,
        outer.lo() <= through.lo() <= through.hi() <= outer.hi(),
        outer.lo() <= seen.lo() <= seen.hi() <= outer.hi(),
        through.hi() - through.lo() < outer.hi() - outer.lo(),
        seen.hi() - seen.lo() < outer.hi() - outer.lo(),
    ensures
        result matches Err(errors) ==> errors.len() > 0,
        notation::said_pattern(result) == grammar::p_view(
            outer.l(),
            outer.lo(),
            outer.hi(),
            through.lo(),
            through.hi(),
            seen.lo(),
            seen.hi(),
            context,
        ),
    decreases outer.hi() - outer.lo(), 57nat, 0nat,
{
    if through.is_layout_empty() || seen.is_layout_empty() {
        return Err(
            fail_view(
                outer,
                "view pattern requires a view before `->` and a pattern after it",
            ),
        );
    }
    let view = match parse_expression(through, context) {
        Ok(view) => view,
        Err(errors) => {
            return Err(errors);
        },
    };
    match parse_complete_pattern(seen, context) {
        Ok(found) => Ok(
            pattern(SyntaxPatternKind::View { view: Box::new(view), pattern: Box::new(found) }),
        ),
        Err(errors) => Err(errors),
    }
}

/// The entries of a dictionary pattern.
fn parse_dict_entries(views: &Vec<TokenView<'_>>, outer: TokenView<'_>, context: ExpressionContext) -> (result:
    Result<Entries, Vec<Diagnostic>>)
    requires
        outer.wf(),
        input::all_within(views@, outer),
    ensures
        result matches Err(errors) ==> errors.len() > 0,
        said_entries(result) == grammar::p_entries(
            outer.l(),
            input::ranges(views@),
            outer.lo(),
            outer.hi(),
            context,
        ),
    decreases outer.hi() - outer.lo(), 57nat, 0nat,
{
    let ghost all = input::ranges(views@);
    let ghost l = outer.l();
    assert(all.len() == views.len());
    let mut entries: Vec<SyntaxDictPatternEntry> = Vec::new();
    let mut remainder: Option<SyntaxPattern> = None;
    let mut paths: Vec<TokenRange> = Vec::new();
    let mut k: usize = 0;
    assert(term::entries_terms(entries@) =~= Seq::empty());
    assert(notation::pairs(paths@) =~= Seq::empty());
    while k < views.len()
        invariant
            outer.wf(),
            l == outer.l(),
            k <= views.len(),
            all == input::ranges(views@),
            all.len() == views.len(),
            input::all_within(views@, outer),
            forall|j: int|
                0 <= j < paths.len() ==> (#[trigger] paths@[j]).start <= paths@[j].end
                    && paths@[j].end <= l.tokens.len(),
            grammar::p_entries(l, all.take(k as int), outer.lo(), outer.hi(), context) == Ok::<
                (Seq<Term>, Option<Term>, Seq<(int, int)>),
                Seq<DiagnosticView>,
            >(
                (
                    term::entries_terms(entries@),
                    maybe_pattern(remainder),
                    notation::pairs(paths@),
                ),
            ),
        decreases views.len() - k,
    {
        let ghost had = notation::pairs(paths@);
        proof {
            assert(all.take(k + 1).drop_last() =~= all.take(k as int));
            assert(all.take(k + 1).last() == (views@[k as int].lo(), views@[k as int].hi()));
            entries_fail(l, all, k + 1, outer.lo(), outer.hi(), context);
        }
        let part = views[k].trim_layout();
        if part.is_empty() {
            return Err(
                fail_view(outer, "dictionary pattern contains an empty item between commas"),
            );
        }
        if remainder.is_some() {
            return Err(fail_view(part, "dictionary remainder must be the final pattern item"));
        }
        match first_mark(part, MarkText::Symbol(":")) {
            None => match parse_pattern(part, context) {
                Ok(rest) => {
                    remainder = Some(rest);
                },
                Err(errors) => {
                    return Err(errors);
                },
            },
            Some(colon) => match parse_dict_entry(part, colon, context) {
                Ok((entry, range)) => {
                    if repeats(outer, &paths, range) {
                        return Err(
                            fail_view(part, "dictionary pattern repeats the same path expression"),
                        );
                    }
                    proof {
                        term::entries_terms_push(entries@, entry);
                    }
                    entries.push(entry);
                    paths.push(range);
                    assert(notation::pairs(paths@) =~= had.push(
                        (range.start as int, range.end as int),
                    ));
                },
                Err(errors) => {
                    return Err(errors);
                },
            },
        }
        k = k + 1;
    }
    assert(all.take(views.len() as int) =~= all);
    Ok(Entries { entries, remainder, paths })
}

/// One entry of a dictionary pattern, and the range of its path.
fn parse_dict_entry(view: TokenView<'_>, colon: usize, context: ExpressionContext) -> (result: Result<
    (SyntaxDictPatternEntry, TokenRange),
    Vec<Diagnostic>,
>)
    requires
        view.wf(),
        view.lo() <= colon < view.hi(),
    ensures
        result matches Err(errors) ==> errors.len() > 0,
        ({
            let told = grammar::p_pattern_entry(
                view.l(),
                view.lo(),
                view.hi(),
                colon as int,
                context,
            );
            match result {
                Ok((entry, range)) => told == Ok::<(Term, (int, int)), Seq<DiagnosticView>>(
                    (term::entry_term(entry), (range.start as int, range.end as int)),
                ) && range.start <= range.end <= view.l().tokens.len(),
                Err(errors) => told == Err::<(Term, (int, int)), Seq<DiagnosticView>>(
                    diagnostic::reports(errors@),
                ),
            }
        }),
    decreases view.hi() - view.lo(), 56nat, 0nat,
{
    let start = view.range.start;
    let end = view.range.end;
    if colon == start {
        if !(end - start == 2 && view.is_joint(start + 1)) {
            return Err(fail_view(view, "dictionary shorthand requires a name"));
        }
        let part = view.between(start + 1, end);
        return match local_of(part) {
            Some(name) => if same_text(name.as_str(), "_") || !is_lettered(name.as_str()) {
                Err(fail_view(view, "dictionary shorthand requires a name"))
            } else {
                let mut path: Vec<SyntaxKeyExpr> = Vec::new();
                let key = formed_key(SyntaxKeyExpr::Atom(name.clone()));
                proof {
                    term::keys_terms_push(path@, key);
                    assert(term::keys_terms(path@.push(key)) =~= seq![grammar::key_atom(name@)]);
                }
                path.push(key);
                let captured = pattern(SyntaxPatternKind::Capture(name));
                assert(term::pattern_term(captured) == grammar::capture(name@));
                let entry = SyntaxDictPatternEntry { path, optional: false, pattern: captured };
                proof {
                    term::entry_def(entry);
                }
                Ok((entry, TokenRange { start: start + 1, end }))
            },
            None => Err(not_a_name(part, "dictionary shorthand requires a name")),
        };
    }
    let optional = match kind_at(view, colon - 1) {
        TokenKind::Unknown(c) => *c == '?',
        _ => false,
    };
    let stop = if optional {
        colon - 1
    } else {
        colon
    };
    if optional {
        if stop == start {
            return Err(
                fail_view(view, "optional dictionary entry requires a path before `?:`"),
            );
        }
        if !view.is_joint(stop) {
            return Err(fail_view(view, "optional marker `?` must be joint with its path"));
        }
        if !view.is_joint(colon) {
            return Err(fail_view(view, "optional marker must be written as joint `?:`"));
        }
    }
    let rest = view.between(colon + 1, end);
    if rest.is_layout_empty() {
        return Err(
            fail_view(
                view,
                if optional {
                    "optional dictionary entry requires a payload after `?:`"
                } else {
                    "dictionary entry requires a payload after `:`"
                },
            ),
        );
    }
    let (path, after) = match parse_path(view.between(start, stop), start, context) {
        Ok(found) => found,
        Err(errors) => {
            return Err(errors);
        },
    };
    if after != stop {
        return Err(expected(view, after, "`:`"));
    }
    match parse_pattern(rest, context) {
        Ok(found) => {
            let entry = SyntaxDictPatternEntry { path, optional, pattern: found };
            proof {
                term::entry_def(entry);
            }
            Ok((entry, TokenRange { start, end: stop }))
        },
        Err(errors) => Err(errors),
    }
}

/// The clauses of a guard, separated by `and`.
pub fn parse_guards(view: TokenView<'_>, context: ExpressionContext, label: &str) -> (result: Result<
    Vec<SyntaxGuardClause>,
    Vec<Diagnostic>,
>)
    requires
        view.wf(),
    ensures
        result matches Err(errors) ==> errors.len() > 0,
        said_guards(result) == grammar::p_guards(
            view.l(),
            view.lo(),
            view.hi(),
            context,
            label@,
        ),
    decreases view.hi() - view.lo(), 66nat, 0nat,
{
    let views = view.split(MarkText::Word("and"));
    let ghost all = input::ranges(views@);
    let ghost l = view.l();
    assert(all.len() == views.len());
    let mut done: Vec<SyntaxGuardClause> = Vec::new();
    let mut k: usize = 0;
    assert(term::guards_terms(done@) =~= Seq::empty());
    while k < views.len()
        invariant
            view.wf(),
            l == view.l(),
            k <= views.len(),
            all == input::ranges(views@),
            all.len() == views.len(),
            input::all_within(views@, view),
            grammar::p_guards(l, view.lo(), view.hi(), context, label@) == grammar::p_guard_list(
                l,
                all,
                view.lo(),
                view.hi(),
                context,
                label@,
            ),
            grammar::p_guard_list(l, all.take(k as int), view.lo(), view.hi(), context, label@)
                == Ok::<Seq<Term>, Seq<DiagnosticView>>(term::guards_terms(done@)),
        decreases views.len() - k,
    {
        proof {
            assert(all.take(k + 1).drop_last() =~= all.take(k as int));
            assert(all.take(k + 1).last() == (views@[k as int].lo(), views@[k as int].hi()));
            guards_fail(l, all, k + 1, view.lo(), view.hi(), context, label@);
        }
        let part = views[k].trim_layout();
        if part.is_empty() {
            return Err(fail_view(view, phrase(label, " contains an empty clause").as_str()));
        }
        let guard = if part.len() == 1 && part.is_word(part.range.start, "_") {
            SyntaxGuardClause::Pass
        } else {
            match parse_clause(
                part,
                context,
                label,
                label,
                label,
                Ghost(Tag::EffectBindClause),
                Ghost(Tag::ValueBindClause),
                Ghost(Tag::EffectClause),
            ) {
                Ok(Clause::Bind(pattern, operation)) => SyntaxGuardClause::EffectBind {
                    pattern,
                    operation,
                },
                Ok(Clause::Value(pattern, value)) => SyntaxGuardClause::ValueBind { pattern, value },
                Ok(Clause::Effect(expr)) => SyntaxGuardClause::Effect(expr),
                Err(errors) => {
                    return Err(errors);
                },
            }
        };
        proof {
            term::guards_terms_push(done@, guard);
            term::guard_def(guard);
        }
        done.push(guard);
        k = k + 1;
    }
    assert(all.take(views.len() as int) =~= all);
    Ok(done)
}

} // verus!
