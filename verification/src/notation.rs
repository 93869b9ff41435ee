//! The small questions of the grammar: names, operators, the parts of lists
//! and of headers, and how failures are reported.

use vstd::prelude::*;
use vstd::string::StringExecFns;
use crate::ast::{SyntaxExpr, SyntaxKeyExpr, SyntaxOperator, SyntaxPattern};
use crate::diagnostic;
use crate::diagnostic::Diagnostic;
use crate::grammar;
use crate::grammar::{Out, Outs, Part, Parts};
use crate::input;
use crate::input::{MarkText, TokenRange, TokenView};
use crate::keywords;
use crate::keywords::{canonical_keyword, g0_keyword, reserved_keyword_message};
use crate::layout;
use crate::expression_context::{ExpressionContext, ParsedExpression};
use crate::layout::{LayoutBase, LayoutError, LayoutStatement, LayoutView, Member};
use crate::lexical;
use crate::lexical::{Delimiter, Lexed, Lexeme, TokenKind};
use crate::term;
use crate::term::{formed, formed_key};
use crate::text;
use crate::text::{chars_of, is_ascii_letter, same_text};
use crate::values::Builtin;

verus! {

/// What the reading of an expression says.
pub open spec fn said(result: Result<SyntaxExpr, Vec<Diagnostic>>) -> Out {
    match result {
        Ok(expr) => Ok(term::expr_term(expr)),
        Err(errors) => Err(diagnostic::reports(errors@)),
    }
}

/// What the reading of an expression and of the position after it says.
pub open spec fn said_at(result: Result<(SyntaxExpr, usize), Vec<Diagnostic>>) -> Part {
    match result {
        Ok((expr, end)) => Ok((term::expr_term(expr), end as int)),
        Err(errors) => Err(diagnostic::reports(errors@)),
    }
}

/// What the reading of an expression with its end says.
pub open spec fn said_extent(result: Result<ParsedExpression, Vec<Diagnostic>>) -> Part {
    match result {
        Ok(parsed) => Ok((term::expr_term(parsed.expression), parsed.end as int)),
        Err(errors) => Err(diagnostic::reports(errors@)),
    }
}

pub open spec fn said_exprs(result: Result<Vec<SyntaxExpr>, Vec<Diagnostic>>) -> Outs {
    match result {
        Ok(items) => Ok(term::exprs_terms(items@)),
        Err(errors) => Err(diagnostic::reports(errors@)),
    }
}

pub open spec fn said_keys(result: Result<Vec<SyntaxKeyExpr>, Vec<Diagnostic>>) -> Outs {
    match result {
        Ok(items) => Ok(term::keys_terms(items@)),
        Err(errors) => Err(diagnostic::reports(errors@)),
    }
}

pub open spec fn said_path(result: Result<(Vec<SyntaxKeyExpr>, usize), Vec<Diagnostic>>) -> Parts {
    match result {
        Ok((items, end)) => Ok((term::keys_terms(items@), end as int)),
        Err(errors) => Err(diagnostic::reports(errors@)),
    }
}

pub open spec fn said_pattern(result: Result<SyntaxPattern, Vec<Diagnostic>>) -> Out {
    match result {
        Ok(pattern) => Ok(term::pattern_term(pattern)),
        Err(errors) => Err(diagnostic::reports(errors@)),
    }
}

/// One error on a line.
pub fn fail(line: usize, message: &str) -> (errors: Vec<Diagnostic>)
    ensures
        errors.len() > 0,
        diagnostic::reports(errors@) == grammar::fail(line as nat, message@),
{
    proof {
        reveal(grammar::fail);
    }
    let mut errors: Vec<Diagnostic> = Vec::new();
    errors.push(Diagnostic::error(line, message));
    assert(diagnostic::reports(errors@) =~= grammar::fail(line as nat, message@));
    errors
}

/// One error at a token, or at the end of a view.
pub fn fail_at(view: TokenView<'_>, index: usize, message: &str) -> (errors: Vec<Diagnostic>)
    requires
        view.wf(),
    ensures
        errors.len() > 0,
        diagnostic::reports(errors@) == grammar::fail_at(
            view.l(),
            index as int,
            view.hi(),
            message@,
        ),
{
    proof {
        reveal(grammar::fail_at);
    }
    let line = if index < view.range.end {
        view.line(index)
    } else if view.range.end > 0 {
        view.line(view.range.end - 1)
    } else {
        1
    };
    fail(line, message)
}

/// One error at the first token of a view.
pub fn fail_view(view: TokenView<'_>, message: &str) -> (errors: Vec<Diagnostic>)
    requires
        view.wf(),
    ensures
        errors.len() > 0,
        diagnostic::reports(errors@) == grammar::fail_view(
            view.l(),
            view.lo(),
            view.hi(),
            message@,
        ),
{
    proof {
        reveal(grammar::fail_view);
    }
    fail(view_line(view), message)
}

/// The line of the first token of a view.
pub fn view_line(view: TokenView<'_>) -> (line: usize)
    requires
        view.wf(),
    ensures
        line == input::view_line(view.l(), view.lo(), view.hi()),
{
    let start = view.skip(view.range.start);
    if start < view.range.end {
        view.line(start)
    } else {
        1
    }
}

/// Three texts in a row.
pub fn joined(first: &str, second: &str, third: &str) -> (text: String)
    ensures
        text@ == first@ + second@ + third@,
{
    let mut text = first.to_owned();
    text.append(second);
    text.append(third);
    text
}

/// Two texts in a row.
pub fn phrase(first: &str, second: &str) -> (text: String)
    ensures
        text@ == first@ + second@,
{
    let mut text = first.to_owned();
    text.append(second);
    text
}

/// What was found where something else was expected.
pub fn expected(view: TokenView<'_>, index: usize, what: &str) -> (errors: Vec<Diagnostic>)
    requires
        view.wf(),
        index <= view.hi(),
    ensures
        errors.len() > 0,
        diagnostic::reports(errors@) == grammar::expected(
            view.l(),
            index as int,
            view.hi(),
            what@,
        ),
{
    proof {
        reveal(grammar::expected);
    }
    let mut message = joined("expected ", what, ", found ");
    message.append(view.display(index).as_str());
    fail_at(view, index, message.as_str())
}

/// The error of a block whose lines do not align.
pub fn layout_failure(error: LayoutError) -> (errors: Vec<Diagnostic>)
    ensures
        errors.len() > 0,
        diagnostic::reports(errors@) == grammar::fail(
            layout::error_of(error).0,
            layout::error_of(error).1,
        ),
{
    proof {
        reveal(grammar::fail);
    }
    fail(error.line, error.message.as_str())
}

pub fn is_lettered(word: &str) -> (b: bool)
    ensures
        b == grammar::lettered(word@),
{
    proof {
        reveal(grammar::lettered);
    }
    let chars = chars_of(word);
    chars.len() > 0 && is_ascii_letter(chars[0])
}

pub fn is_local_spelling(word: &str) -> (b: bool)
    ensures
        b == grammar::local_spelling(word@),
{
    proof {
        reveal(grammar::local_spelling);
        reveal(grammar::lettered);
    }
    if same_text(word, "_") || is_lettered(word) {
        return true;
    }
    let chars = chars_of(word);
    assert(word@.len() > 1 ==> word@.skip(1)[0] == word@[1]);
    chars.len() > 1 && chars[0] == '_' && is_ascii_letter(chars[1])
}

pub fn is_reserved(word: &str) -> (b: bool)
    ensures
        b == keywords::reserved(word@),
{
    g0_keyword(word).is_some()
}

/// Why a keyword cannot be a name.
pub fn reserved_text(word: &str) -> (message: String)
    requires
        keywords::reserved(word@),
    ensures
        message@ == keywords::reserved_message(word@),
{
    match g0_keyword(word) {
        Some(keyword) => reserved_keyword_message(&keyword),
        None => String::new(),
    }
}

/// Some names are reserved only where they would be declared.
pub fn is_free_name(word: &str) -> (b: bool)
    ensures
        b == grammar::free_name(word@),
{
    proof {
        reveal(grammar::free_name);
    }
    !is_reserved(word) || same_text(word, "module") || same_text(word, "self")
}

/// The infix operator that a symbol writes.
pub fn operator_of(symbol: &str) -> (op: Option<SyntaxOperator>)
    ensures
        op == grammar::operator_of(symbol@),
{
    proof {
        reveal(grammar::operator_of);
    }
    if same_text(symbol, ">>=") {
        Some(SyntaxOperator::EffectBind)
    } else if same_text(symbol, ">=>") {
        Some(SyntaxOperator::KleisliCompose)
    } else if same_text(symbol, "=>>") {
        Some(SyntaxOperator::EffectThen)
    } else if same_text(symbol, "!>") {
        Some(SyntaxOperator::ApplicativeForward)
    } else if same_text(symbol, "<!") {
        Some(SyntaxOperator::ApplicativeBackward)
    } else if same_text(symbol, ">=") {
        Some(SyntaxOperator::Builtin(Builtin::GreaterEqual))
    } else if same_text(symbol, "==") {
        Some(SyntaxOperator::Builtin(Builtin::Equal))
    } else if same_text(symbol, "<>") {
        Some(SyntaxOperator::Builtin(Builtin::NotEqual))
    } else if same_text(symbol, "=<") {
        Some(SyntaxOperator::Builtin(Builtin::LessEqual))
    } else if same_text(symbol, ">>") {
        Some(SyntaxOperator::ComposeForward)
    } else if same_text(symbol, "<<") {
        Some(SyntaxOperator::ComposeBackward)
    } else if same_text(symbol, "|>") {
        Some(SyntaxOperator::PipeForward)
    } else if same_text(symbol, "<|") {
        Some(SyntaxOperator::PipeBackward)
    } else if same_text(symbol, ">") {
        Some(SyntaxOperator::Builtin(Builtin::Greater))
    } else if same_text(symbol, "<") {
        Some(SyntaxOperator::Builtin(Builtin::Less))
    } else if same_text(symbol, "++") {
        Some(SyntaxOperator::Builtin(Builtin::Append))
    } else if same_text(symbol, "*") {
        Some(SyntaxOperator::Builtin(Builtin::Multiply))
    } else if same_text(symbol, "/") {
        Some(SyntaxOperator::Builtin(Builtin::Divide))
    } else if same_text(symbol, "+") {
        Some(SyntaxOperator::Builtin(Builtin::Add))
    } else if same_text(symbol, "-") {
        Some(SyntaxOperator::Builtin(Builtin::Subtract))
    } else {
        None
    }
}

/// The kind of a token.
pub fn kind_at<'lex>(view: TokenView<'lex>, index: usize) -> (kind: &'lex TokenKind)
    requires
        view.wf(),
        index < view.l().tokens.len(),
    ensures
        kind@ == input::lexeme(view.l(), index as int),
        *kind == view.source.tokens@[index as int].kind,
{
    let source = view.source;
    assert(view.l().tokens[index as int] == source.tokens@[index as int]@);
    &source.tokens[index].kind
}

/// The infix operator at a token.
pub fn infix_operator(view: TokenView<'_>, index: usize) -> (op: Option<SyntaxOperator>)
    requires
        view.wf(),
        index < view.l().tokens.len(),
    ensures
        op == grammar::operator_at(view.l(), index as int),
{
    proof {
        reveal(grammar::operator_at);
    }
    match kind_at(view, index) {
        TokenKind::Name(word) => if same_text(word.as_str(), "and") {
            Some(SyntaxOperator::BoolAnd)
        } else if same_text(word.as_str(), "or") {
            Some(SyntaxOperator::BoolOr)
        } else {
            None
        },
        TokenKind::Symbol(symbol) => operator_of(symbol.as_str()),
        _ => None,
    }
}

pub fn is_word_free(view: TokenView<'_>, index: usize) -> (b: bool)
    requires
        view.wf(),
        index < view.hi(),
    ensures
        b == grammar::word_free(view.l(), index as int, view.hi()),
{
    proof {
        reveal(grammar::word_free);
    }
    !(index + 1 < view.range.end && view.is_joint(index + 1) && (view.is_symbol(index + 1, ":")
        || view.is_symbol(index + 1, ".")))
}

/// A word stands by itself.
pub fn stands(view: TokenView<'_>, index: usize, word: &str) -> (b: bool)
    requires
        view.wf(),
        index <= view.hi(),
    ensures
        b == grammar::stands(view.l(), index as int, view.hi(), word@),
{
    proof {
        reveal(grammar::stands);
    }
    index < view.range.end && view.is_word(index, word) && is_word_free(view, index)
}

pub fn is_braced_do(view: TokenView<'_>, index: usize) -> (b: bool)
    requires
        view.wf(),
        view.lo() <= index < view.hi(),
    ensures
        b == grammar::braced_do(view.l(), index as int, view.hi()),
{
    proof {
        reveal(grammar::braced_do);
    }
    let start = view.skip(index + 1);
    start < view.range.end && view.opens(start, Delimiter::Brace).is_some()
}

/// An expression at a token owns the rest of the view.
pub fn owns_tail(view: TokenView<'_>, index: usize) -> (b: bool)
    requires
        view.wf(),
        view.lo() <= index < view.hi(),
    ensures
        b == grammar::owns_tail(view.l(), index as int, view.hi()),
{
    proof {
        reveal(grammar::owns_tail);
    }
    view.is_symbol(index, "\\") || stands(view, index, "if") || stands(view, index, "try") || stands(
        view,
        index,
        "match",
    ) || stands(view, index, "try_match") || stands(view, index, "using") || (stands(
        view,
        index,
        "do",
    ) && !is_braced_do(view, index))
}

/// The first `with` or `where` of an expression, and whether it is `where`.
pub fn find_clause(view: TokenView<'_>) -> (found: Option<(usize, bool)>)
    requires
        view.wf(),
    ensures
        match found {
            Some((index, is_where)) => grammar::clause(view.l(), view.lo(), view.hi(), view.lo())
                == Some((index as int, is_where)) && view.lo() <= index < view.hi(),
            None => grammar::clause(view.l(), view.lo(), view.hi(), view.lo()) is None,
        },
{
    proof {
        reveal(grammar::clause);
    }
    let mut index = view.range.start;
    while index < view.range.end
        invariant
            view.wf(),
            view.lo() <= index <= view.hi(),
            grammar::clause(view.l(), view.lo(), view.hi(), view.lo()) == grammar::clause(
                view.l(),
                view.lo(),
                view.hi(),
                index as int,
            ),
        decreases view.hi() - index,
    {
        proof {
            reveal(grammar::clause);
        }
        if owns_tail(view, index) {
            return None;
        }
        if stands(view, index, "where") && view.is_contextual_keyword(index) {
            return Some((index, true));
        }
        if stands(view, index, "with") && view.is_contextual_keyword(index) {
            return Some((index, false));
        }
        index = view.next_top(index);
    }
    None
}

/// The local name that a view spells.
pub fn local_of(view: TokenView<'_>) -> (name: Option<String>)
    requires
        view.wf(),
    ensures
        match name {
            Some(name) => grammar::local_of(view.l(), view.lo(), view.hi()) == Some(name@),
            None => grammar::local_of(view.l(), view.lo(), view.hi()) is None,
        },
{
    proof {
        reveal(grammar::local_of);
    }
    let inner = view.trim_layout();
    if inner.len() != 1 {
        return None;
    }
    match kind_at(inner, inner.range.start) {
        TokenKind::Name(word) => if is_local_spelling(word.as_str()) && canonical_keyword(
            word.as_str(),
        ).is_none() {
            Some(word.clone())
        } else {
            None
        },
        _ => None,
    }
}

/// The keyword that a view spells.
pub fn keyword_of(view: TokenView<'_>) -> (message: Option<String>)
    requires
        view.wf(),
    ensures
        match message {
            Some(message) => grammar::keyword_of(view.l(), view.lo(), view.hi()) matches Some(word)
                && message@ == keywords::reserved_message(word),
            None => grammar::keyword_of(view.l(), view.lo(), view.hi()) is None,
        },
{
    proof {
        reveal(grammar::keyword_of);
    }
    let inner = view.trim_layout();
    if inner.len() != 1 {
        return None;
    }
    match kind_at(inner, inner.range.start) {
        TokenKind::Name(word) => match canonical_keyword(word.as_str()) {
            Some(keyword) => Some(reserved_keyword_message(&keyword)),
            None => None,
        },
        _ => None,
    }
}

/// The object name that a view spells.
pub fn alias_of(view: TokenView<'_>) -> (name: Option<String>)
    requires
        view.wf(),
    ensures
        match name {
            Some(name) => grammar::alias_of(view.l(), view.lo(), view.hi()) == Some(name@),
            None => grammar::alias_of(view.l(), view.lo(), view.hi()) is None,
        },
{
    proof {
        reveal(grammar::alias_of);
    }
    let inner = view.trim_layout();
    if inner.len() == 1 && inner.is_word(inner.range.start, "self") {
        return Some("self".to_owned());
    }
    local_of(view)
}

/// What is wrong with a view that should spell a name.
pub fn not_a_name(view: TokenView<'_>, message: &str) -> (errors: Vec<Diagnostic>)
    requires
        view.wf(),
    ensures
        errors.len() > 0,
        diagnostic::reports(errors@) == grammar::not_a_name(
            view.l(),
            view.lo(),
            view.hi(),
            message@,
        ),
{
    proof {
        reveal(grammar::not_a_name);
    }
    match keyword_of(view) {
        Some(reserved) => fail_view(view, reserved.as_str()),
        None => fail_view(view, message),
    }
}

/// The first position that bears a mark.
pub fn first_mark(view: TokenView<'_>, mark: MarkText<'_>) -> (found: Option<usize>)
    requires
        view.wf(),
    ensures
        ({
            let all = input::all_marks(view.l(), view.lo(), view.hi(), mark@);
            match found {
                Some(index) => all.len() > 0 && all[0] == index && view.lo() <= index < view.hi(),
                None => all.len() == 0,
            }
        }),
{
    let all = view.find(mark);
    assert(input::indices(all@).len() == all.len());
    if all.len() > 0 {
        assert(input::indices(all@)[0] == all@[0]);
        Some(all[0])
    } else {
        None
    }
}

/// The last position that bears a mark.
pub fn last_mark(view: TokenView<'_>, mark: MarkText<'_>) -> (found: Option<usize>)
    requires
        view.wf(),
    ensures
        ({
            let all = input::all_marks(view.l(), view.lo(), view.hi(), mark@);
            match found {
                Some(index) => all.len() > 0 && all.last() == index && view.lo() <= index
                    < view.hi(),
                None => all.len() == 0,
            }
        }),
{
    let all = view.find(mark);
    assert(input::indices(all@).len() == all.len());
    let count = all.len();
    if count > 0 {
        assert(input::indices(all@).last() == all@[count - 1]);
        Some(all[count - 1])
    } else {
        None
    }
}

/// Whether no position bears a mark.
pub fn bears_none(view: TokenView<'_>, mark: MarkText<'_>) -> (b: bool)
    requires
        view.wf(),
    ensures
        b == (input::all_marks(view.l(), view.lo(), view.hi(), mark@).len() == 0),
{
    first_mark(view, mark).is_none()
}

/// Some of a list of views.
pub fn some_views<'lex>(
    views: &Vec<TokenView<'lex>>,
    from: usize,
    to: usize,
    Ghost(outer): Ghost<TokenView<'lex>>,
) -> (chosen: Vec<TokenView<'lex>>)
    requires
        from <= to <= views.len(),
        input::all_within(views@, outer),
    ensures
        input::ranges(chosen@) == input::ranges(views@).subrange(from as int, to as int),
        input::all_within(chosen@, outer),
{
    let mut chosen: Vec<TokenView<'lex>> = Vec::new();
    let mut k: usize = from;
    while k < to
        invariant
            from <= k <= to <= views.len(),
            chosen@ == views@.subrange(from as int, k as int),
        decreases to - k,
    {
        chosen.push(views[k]);
        assert(chosen@ =~= views@.subrange(from as int, k + 1));
        k = k + 1;
    }
    assert(input::ranges(chosen@) =~= input::ranges(views@).subrange(from as int, to as int));
    chosen
}

/// The items of a list whose separators may lead and trail.
pub fn list_parts<'lex>(
    views: &Vec<TokenView<'lex>>,
    Ghost(outer): Ghost<TokenView<'lex>>,
) -> (items: Vec<TokenView<'lex>>)
    requires
        input::all_within(views@, outer),
    ensures
        input::ranges(items@) == grammar::list_parts(outer.l(), input::ranges(views@)),
        input::all_within(items@, outer),
{
    proof {
        reveal(grammar::list_parts);
    }
    let mut from: usize = 0;
    let mut to: usize = views.len();
    let ghost all = input::ranges(views@);
    assert(all.len() == views.len());
    if views.len() > 1 && views[0].is_layout_empty() {
        from = 1;
    }
    proof {
        if views.len() > 0 {
            assert(all[0] == (views@[0].lo(), views@[0].hi()));
            assert(all.last() == (views@.last().lo(), views@.last().hi()));
        }
    }
    if from < to && views[to - 1].is_layout_empty() {
        to = to - 1;
    }
    let items = some_views(views, from, to, Ghost(outer));
    proof {
        assert(all.skip(0) =~= all);
        assert(all.subrange(0, all.len() as int) =~= all);
        assert(all.subrange(0, all.len() - 1) =~= all.drop_last());
        if all.len() > 1 {
            assert(all.skip(1).last() == all.last());
            assert(all.subrange(1, all.len() as int) =~= all.skip(1));
            assert(all.subrange(1, all.len() - 1) =~= all.skip(1).drop_last());
        }
    }
    items
}

/// The items of a tuple.
pub fn tuple_parts<'lex>(
    views: &Vec<TokenView<'lex>>,
    Ghost(outer): Ghost<TokenView<'lex>>,
) -> (items: Vec<TokenView<'lex>>)
    requires
        input::all_within(views@, outer),
        views.len() > 1,
    ensures
        input::ranges(items@) == grammar::tuple_parts(outer.l(), input::ranges(views@)),
        input::all_within(items@, outer),
{
    proof {
        reveal(grammar::tuple_parts);
    }
    let ghost all = input::ranges(views@);
    let mut from: usize = 0;
    let mut to: usize = views.len();
    assert(all.len() == views.len());
    assert(all[0] == (views@[0].lo(), views@[0].hi()));
    assert(all.last() == (views@.last().lo(), views@.last().hi()));
    if views[0].is_layout_empty() {
        from = 1;
    }
    if views[to - 1].is_layout_empty() {
        to = to - 1;
    }
    let items = some_views(views, from, to, Ghost(outer));
    proof {
        let rest = all.skip(1);
        assert(rest.last() == all.last());
        assert(all.subrange(1, all.len() as int) =~= rest);
        assert(all.subrange(1, all.len() - 1) =~= rest.drop_last());
        assert(all.subrange(0, all.len() as int) =~= seq![all[0]] + rest);
        assert(all.subrange(0, all.len() - 1) =~= seq![all[0]] + rest.drop_last());
    }
    items
}

/// The views that hold a token.
pub fn nonempty_parts<'lex>(
    views: &Vec<TokenView<'lex>>,
    Ghost(outer): Ghost<TokenView<'lex>>,
) -> (items: Vec<TokenView<'lex>>)
    requires
        input::all_within(views@, outer),
    ensures
        input::ranges(items@) == grammar::nonempty_parts(outer.l(), input::ranges(views@)),
        input::all_within(items@, outer),
{
    proof {
        reveal(grammar::nonempty_parts);
    }
    let ghost all = input::ranges(views@);
    let mut items: Vec<TokenView<'lex>> = Vec::new();
    let mut k: usize = 0;
    assert(input::ranges(items@) =~= Seq::empty());
    while k < views.len()
        invariant
            k <= views.len(),
            all == input::ranges(views@),
            input::all_within(views@, outer),
            input::all_within(items@, outer),
            input::ranges(items@) == grammar::nonempty_parts(outer.l(), all.take(k as int)),
        decreases views.len() - k,
    {
        proof {
            reveal(grammar::nonempty_parts);
        }
        let ghost had = input::ranges(items@);
        assert(all.take(k + 1).drop_last() =~= all.take(k as int));
        assert(all.take(k + 1).last() == (views@[k as int].lo(), views@[k as int].hi()));
        if !views[k].is_layout_empty() {
            items.push(views[k]);
            assert(input::ranges(items@) =~= had.push(all[k as int]));
        }
        k = k + 1;
    }
    assert(all.take(views.len() as int) =~= all);
    items
}

/// Members lie in a range.
pub open spec fn fits(members: Seq<LayoutStatement>, lo: int, hi: int) -> bool {
    forall|k: int|
        0 <= k < members.len() ==> lo <= (#[trigger] members[k]).tokens.start
            <= members[k].tokens.end && members[k].tokens.end <= hi
}

/// Members of a block lie in its range.
pub proof fn block_fits(members: Seq<LayoutStatement>, lo: int, hi: int)
    requires
        layout::members_within(layout::members_of(members), lo, hi),
    ensures
        fits(members, lo, hi),
{
    assert forall|k: int| 0 <= k < members.len() implies lo <= (
    #[trigger] members[k]).tokens.start <= members[k].tokens.end && members[k].tokens.end <= hi by {
        assert(layout::members_of(members)[k] == members[k]@);
    }
}

/// Views as members, each with its line.
pub fn part_members<'lex>(
    views: &Vec<TokenView<'lex>>,
    Ghost(outer): Ghost<TokenView<'lex>>,
) -> (members: Vec<LayoutStatement>)
    requires
        input::all_within(views@, outer),
    ensures
        layout::members_of(members@) == grammar::part_members(
            outer.l(),
            input::ranges(views@),
        ),
        fits(members@, outer.lo(), outer.hi()),
        members.len() == views.len(),
{
    proof {
        reveal(grammar::part_members);
    }
    let mut members: Vec<LayoutStatement> = Vec::new();
    let mut k: usize = 0;
    while k < views.len()
        invariant
            k <= views.len(),
            input::all_within(views@, outer),
            members.len() == k,
            forall|j: int|
                0 <= j < k ==> {
                    &&& (#[trigger] members@[j])@.line == input::view_line(
                        outer.l(),
                        views@[j].lo(),
                        views@[j].hi(),
                    )
                    &&& members@[j].tokens == views@[j].range
                },
        decreases views.len() - k,
    {
        proof {
            reveal(grammar::part_members);
        }
        members.push(LayoutStatement { line: view_line(views[k]), tokens: views[k].range });
        k = k + 1;
    }
    assert(layout::members_of(members@) =~= grammar::part_members(
        outer.l(),
        input::ranges(views@),
    ));
    members
}

/// One of the views holds no token.
pub fn has_gap<'lex>(
    views: &Vec<TokenView<'lex>>,
    Ghost(outer): Ghost<TokenView<'lex>>,
) -> (b: bool)
    requires
        input::all_within(views@, outer),
    ensures
        b == grammar::has_gap(outer.l(), input::ranges(views@)),
{
    proof {
        reveal(grammar::has_gap);
    }
    let ghost all = input::ranges(views@);
    let mut k: usize = 0;
    while k < views.len()
        invariant
            k <= views.len(),
            all == input::ranges(views@),
            input::all_within(views@, outer),
            forall|j: int|
                0 <= j < k ==> !input::empty(outer.l(), (#[trigger] all[j]).0, all[j].1),
        decreases views.len() - k,
    {
        proof {
            reveal(grammar::has_gap);
        }
        assert(all[k as int] == (views@[k as int].lo(), views@[k as int].hi()));
        if views[k].is_layout_empty() {
            return true;
        }
        k = k + 1;
    }
    false
}

/// The members of a group in braces.
pub fn braced_members(view: TokenView<'_>, label: &str) -> (result: Result<
    Vec<LayoutStatement>,
    Vec<Diagnostic>,
>)
    requires
        view.wf(),
    ensures
        result matches Err(errors) ==> errors.len() > 0,
        match result {
            Ok(members) => grammar::braced_members(view.l(), view.lo(), view.hi(), label@)
                == Ok::<Seq<Member>, Seq<diagnostic::DiagnosticView>>(
                layout::members_of(members@),
            ) && fits(members@, view.lo(), view.hi()),
            Err(errors) => grammar::braced_members(view.l(), view.lo(), view.hi(), label@) == Err::<
                Seq<Member>,
                Seq<diagnostic::DiagnosticView>,
            >(diagnostic::reports(errors@)),
        },
{
    proof {
        reveal(grammar::braced_members);
    }
    let views = view.split_top_level(";");
    let items = list_parts(&views, Ghost(view));
    if has_gap(&items, Ghost(view)) {
        let mut message = label.to_owned();
        message.append(" contains an empty member between semicolons");
        return Err(fail_view(view, message.as_str()));
    }
    Ok(part_members(&items, Ghost(view)))
}

/// The column at which a token begins.
pub fn column(view: TokenView<'_>, index: usize) -> (n: usize)
    requires
        view.wf(),
        index < view.l().tokens.len(),
    ensures
        n == grammar::column(view.l(), index as int),
{
    proof {
        reveal(grammar::column);
    }
    let source = view.source;
    assert(view.l().tokens[index as int] == source.tokens@[index as int]@);
    let byte = source.tokens[index].span.start;
    let line = view.line(index);
    let start = if 1 <= line && line <= source.line_starts.len() {
        source.line_starts[line - 1]
    } else {
        0
    };
    if byte >= start {
        byte - start
    } else {
        0
    }
}

/// The key that an expression in a path list computes.
pub fn key_of(expr: SyntaxExpr) -> (key: SyntaxKeyExpr)
    ensures
        term::key_term(key) == grammar::key_of(term::expr_term(expr)),
{
    proof {
        term::expr_def(expr);
    }
    match expr {
        SyntaxExpr::Atom(name) => formed_key(SyntaxKeyExpr::Atom(name)),
        other => formed_key(SyntaxKeyExpr::Index(Box::new(other))),
    }
}

/// An expression followed by a path.
pub fn access_if_path(base: SyntaxExpr, path: Vec<SyntaxKeyExpr>) -> (expr: SyntaxExpr)
    ensures
        term::expr_term(expr) == grammar::access(
            term::expr_term(base),
            term::keys_terms(path@),
        ),
{
    proof {
        term::keys_terms_at(path@);
    }
    if path.len() == 0 {
        base
    } else {
        formed(SyntaxExpr::Access(Box::new(base), path))
    }
}

/// Flushes the static keys of a quoted path into a list.
fn flush(chunks: Vec<SyntaxExpr>, literal: Vec<SyntaxExpr>) -> (result: Vec<SyntaxExpr>)
    ensures
        term::exprs_terms(result@) == grammar::flush(
            term::exprs_terms(chunks@),
            term::exprs_terms(literal@),
        ),
{
    let mut result = chunks;
    proof {
        term::exprs_terms_push(literal@, SyntaxExpr::Unit);
    }
    if literal.len() > 0 {
        let list = formed(SyntaxExpr::List(literal));
        proof {
            term::exprs_terms_push(result@, list);
        }
        result.push(list);
    }
    result
}

/// Chunks joined by `++`, from the left.
fn appended(chunks: Vec<SyntaxExpr>) -> (expr: SyntaxExpr)
    ensures
        term::expr_term(expr) == grammar::appended(term::exprs_terms(chunks@)),
    decreases chunks.len(),
{
    proof {
        term::exprs_terms_push(chunks@, SyntaxExpr::Unit);
    }
    let ghost terms = term::exprs_terms(chunks@);
    let mut front = chunks;
    match front.pop() {
        None => {
            let none: Vec<SyntaxExpr> = Vec::new();
            assert(term::exprs_terms(none@) =~= Seq::empty());
            formed(SyntaxExpr::List(none))
        },
        Some(last) => {
            assert(front@ =~= chunks@.drop_last());
            proof {
                term::exprs_terms_push(front@, last);
                assert(terms.drop_last() =~= term::exprs_terms(front@));
                assert(terms.last() == term::expr_term(last));
            }
            if front.len() == 0 {
                last
            } else {
                formed(SyntaxExpr::Append(Box::new(appended(front)), Box::new(last)))
            }
        },
    }
}

/// The list that a quoted path denotes.
pub fn quoted_path(path: Vec<SyntaxKeyExpr>) -> (expr: SyntaxExpr)
    ensures
        term::expr_term(expr) == grammar::quoted(term::keys_terms(path@)),
{
    proof {
        reveal(grammar::quoted);
        reveal(grammar::chunks);
    }
    let mut rest = path;
    let mut done: Vec<SyntaxExpr> = Vec::new();
    let mut literal: Vec<SyntaxExpr> = Vec::new();
    while rest.len() > 0
        invariant
            grammar::chunks(term::keys_terms(path@), Seq::empty(), Seq::empty())
                == grammar::chunks(
                term::keys_terms(rest@),
                term::exprs_terms(done@),
                term::exprs_terms(literal@),
            ),
        decreases rest.len(),
    {
        proof {
            reveal(grammar::quoted);
            reveal(grammar::chunks);
        }
        let ghost before = rest@;
        let key = rest.remove(0);
        proof {
            term::keys_terms_at(before);
            term::keys_terms_at(rest@);
            assert(rest@ =~= before.skip(1));
            assert(term::keys_terms(before).skip(1) =~= term::keys_terms(rest@));
            term::key_def(key);
        }
        match key {
            SyntaxKeyExpr::Atom(name) => {
                let item = formed(SyntaxExpr::Atom(name));
                proof {
                    term::exprs_terms_push(literal@, item);
                }
                literal.push(item);
            },
            SyntaxKeyExpr::Index(inner) => {
                let item = *inner;
                proof {
                    term::exprs_terms_push(literal@, item);
                }
                literal.push(item);
            },
            SyntaxKeyExpr::PathIndex(inner) => {
                let item = *inner;
                done = flush(done, literal);
                literal = Vec::new();
                proof {
                    term::exprs_terms_push(done@, item);
                }
                done.push(item);
            },
        }
    }
    proof {
        term::keys_terms_at(rest@);
    }
    appended(flush(done, literal))
}

/// The end of the path that begins at a token.
pub fn path_end(view: TokenView<'_>, from: usize) -> (end: usize)
    requires
        view.wf(),
        from <= view.hi(),
    ensures
        end == grammar::path_end(view.l(), from as int, view.hi()),
        from <= end <= view.hi(),
{
    proof {
        reveal(grammar::path_end);
    }
    let mut index = from;
    while index < view.range.end && view.range.end - index > 1
        invariant
            view.wf(),
            from <= index <= view.hi(),
            grammar::path_end(view.l(), from as int, view.hi()) == grammar::path_end(
                view.l(),
                index as int,
                view.hi(),
            ),
        decreases view.hi() - index,
    {
        proof {
            reveal(grammar::path_end);
        }
        if !(view.is_symbol(index, ".") && view.is_joint(index) && view.is_joint(index + 1)) {
            return index;
        }
        match kind_at(view, index + 1) {
            TokenKind::Name(_) => {
                index = index + 2;
            },
            TokenKind::Open { group: _, delimiter: _ } => match view.close_of(index + 1) {
                Some(close) => {
                    index = close + 1;
                },
                None => {
                    return index;
                },
            },
            _ => {
                return index;
            },
        }
    }
    index
}

/// A path followed by `:` begins at a token.
pub fn path_starts(view: TokenView<'_>, index: usize) -> (b: bool)
    requires
        view.wf(),
        view.lo() <= index < view.hi(),
    ensures
        b == grammar::path_starts(view.l(), index as int, view.hi()),
{
    proof {
        reveal(grammar::path_starts);
    }
    let end = match kind_at(view, index) {
        TokenKind::Name(word) => if is_lettered(word.as_str()) {
            path_end(view, index + 1)
        } else {
            view.range.end
        },
        TokenKind::Open { group: _, delimiter } => match delimiter {
            Delimiter::Brace => view.range.end,
            _ => match view.close_of(index) {
                Some(close) => close + 1,
                None => view.range.end,
            },
        },
        _ => view.range.end,
    };
    let next = view.skip(end);
    next < view.range.end && view.is_symbol(next, ":")
}

/// Joint `:` stands at a position.
pub fn is_tag(view: TokenView<'_>, index: usize) -> (b: bool)
    requires
        view.wf(),
    ensures
        b == grammar::tags(view.l(), index as int, view.hi()),
{
    index < view.range.end && view.is_symbol(index, ":") && view.is_joint(index)
}

/// The end of a run of joint carets.
pub fn caret_end(view: TokenView<'_>, from: usize) -> (end: usize)
    requires
        view.wf(),
        from <= view.hi(),
    ensures
        end == grammar::carets(view.l(), from as int, view.hi()),
        from <= end <= view.hi(),
{
    proof {
        reveal(grammar::carets);
    }
    let mut index = from;
    while index < view.range.end && view.is_symbol(index, "^") && view.is_joint(index)
        invariant
            view.wf(),
            from <= index <= view.hi(),
            grammar::carets(view.l(), from as int, view.hi()) == grammar::carets(
                view.l(),
                index as int,
                view.hi(),
            ),
        decreases view.hi() - index,
    {
        proof {
            reveal(grammar::carets);
        }
        index = index + 1;
    }
    index
}

/// The names of an effect path, and the position after them.
pub fn effect_names(view: TokenView<'_>, from: usize) -> (found: (Vec<String>, usize))
    requires
        view.wf(),
        from <= view.hi(),
    ensures
        (text::texts(found.0@), found.1 as int) == grammar::effect_names(
            view.l(),
            from as int,
            view.hi(),
            Seq::empty(),
        ),
        from <= found.1 <= view.hi(),
        found.0.len() > 0 ==> from < found.1,
{
    proof {
        reveal(grammar::effect_names);
    }
    let mut names: Vec<String> = Vec::new();
    let mut index = from;
    assert(text::texts(names@) =~= Seq::empty());
    loop
        invariant
            view.wf(),
            from <= index <= view.hi(),
            names.len() > 0 ==> from < index,
            grammar::effect_names(view.l(), from as int, view.hi(), Seq::empty())
                == grammar::effect_names(
                view.l(),
                index as int,
                view.hi(),
                text::texts(names@),
            ),
        ensures
            (text::texts(names@), index as int) == grammar::effect_names(
                view.l(),
                from as int,
                view.hi(),
                Seq::empty(),
            ),
        decreases view.hi() - index,
    {
        proof {
            reveal(grammar::effect_names);
        }
        let ghost had = text::texts(names@);
        assert(had.len() == names.len());
        if !(view.range.end - index > 1 && view.is_symbol(index, ".") && view.is_joint(index + 1)
            && (names.len() == 0 || view.is_joint(index))) {
            break;
        }
        match kind_at(view, index + 1) {
            TokenKind::Name(word) => {
                if !is_lettered(word.as_str()) {
                    break;
                }
                names.push(word.clone());
                assert(text::texts(names@) =~= had.push(word@));
                index = index + 2;
            },
            _ => {
                break;
            },
        }
    }
    (names, index)
}

/// The parameters of a lambda, and the position after their `->`.
pub fn lambda_params(view: TokenView<'_>, from: usize) -> (result: Result<
    (Vec<String>, usize),
    Vec<Diagnostic>,
>)
    requires
        view.wf(),
        view.lo() <= from <= view.hi(),
    ensures
        result matches Err(errors) ==> errors.len() > 0,
        match result {
            Ok((params, end)) => grammar::p_params(
                view.l(),
                from as int,
                view.hi(),
                Seq::empty(),
            ) == Ok::<(Seq<Seq<char>>, int), Seq<diagnostic::DiagnosticView>>(
                (text::texts(params@), end as int),
            ) && from < end <= view.hi(),
            Err(errors) => grammar::p_params(view.l(), from as int, view.hi(), Seq::empty())
                == Err::<(Seq<Seq<char>>, int), Seq<diagnostic::DiagnosticView>>(
                diagnostic::reports(errors@),
            ),
        },
{
    proof {
        reveal(grammar::p_params);
    }
    let mut params: Vec<String> = Vec::new();
    let mut index = from;
    assert(text::texts(params@) =~= Seq::empty());
    loop
        invariant
            view.wf(),
            view.lo() <= from <= index <= view.hi(),
            grammar::p_params(view.l(), from as int, view.hi(), Seq::empty()) == grammar::p_params(
                view.l(),
                index as int,
                view.hi(),
                text::texts(params@),
            ),
        decreases view.hi() - index,
    {
        proof {
            reveal(grammar::p_params);
        }
        let ghost had = text::texts(params@);
        assert(had.len() == params.len());
        let next = view.skip(index);
        if next >= view.range.end {
            return Err(expected(view, next, "`->`"));
        }
        if view.is_symbol(next, "->") {
            if params.len() == 0 {
                return Err(expected(view, next, "local name"));
            }
            return Ok((params, next + 1));
        }
        let single = view.between(next, next + 1);
        match local_of(single) {
            Some(name) => {
                params.push(name);
                assert(text::texts(params@) =~= had.push(name@));
                index = next + 1;
            },
            None => {
                return match keyword_of(single) {
                    Some(message) => Err(fail_at(view, next, message.as_str())),
                    None => Err(expected(view, next, "local name")),
                };
            },
        }
    }
}

/// The positions of `as` and of `extends` in a header, and the end of what
/// they follow.
pub fn header_marks(view: TokenView<'_>) -> (found: (Option<usize>, Option<usize>, usize))
    requires
        view.wf(),
    ensures
        ({
            let (a, x, stop) = grammar::header_marks(view.l(), view.lo(), view.hi());
            &&& found.2 == stop
            &&& view.lo() <= stop <= view.hi()
            &&& match found.0 {
                Some(i) => a == Some(i as int) && view.lo() <= i < view.hi(),
                None => a is None,
            }
            &&& match found.1 {
                Some(j) => x == Some(j as int) && view.lo() <= j < view.hi(),
                None => x is None,
            }
        }),
{
    proof {
        reveal(grammar::header_marks);
    }
    let a = first_mark(view, MarkText::Word("as"));
    let x = first_mark(view, MarkText::Word("extends"));
    let stop = match (a, x) {
        (Some(i), Some(j)) => if i < j {
            i
        } else {
            j
        },
        (Some(i), None) => i,
        (None, Some(j)) => j,
        (None, None) => view.range.end,
    };
    (a, x, stop)
}

pub open spec fn maybe_text(text: Option<String>) -> Option<Seq<char>> {
    match text {
        Some(text) => Some(text@),
        None => None,
    }
}

pub open spec fn position(index: Option<usize>) -> Option<int> {
    match index {
        Some(index) => Some(index as int),
        None => None,
    }
}

/// The alias that an object header gives.
pub fn header_alias(view: TokenView<'_>, a: Option<usize>, x: Option<usize>) -> (result: Result<
    Option<String>,
    Vec<Diagnostic>,
>)
    requires
        view.wf(),
        a matches Some(i) ==> view.lo() <= i < view.hi() && (x matches Some(j) ==> i < j
            <= view.hi()),
    ensures
        result matches Err(errors) ==> errors.len() > 0,
        match result {
            Ok(alias) => grammar::header_alias(view.l(), position(a), position(x), view.hi())
                == Ok::<Option<Seq<char>>, Seq<diagnostic::DiagnosticView>>(maybe_text(alias)),
            Err(errors) => grammar::header_alias(view.l(), position(a), position(x), view.hi())
                == Err::<Option<Seq<char>>, Seq<diagnostic::DiagnosticView>>(
                diagnostic::reports(errors@),
            ),
        },
{
    proof {
        reveal(grammar::header_alias);
    }
    match a {
        None => Ok(None),
        Some(i) => {
            let stop = match x {
                Some(j) => j,
                None => view.range.end,
            };
            let part = view.between(i + 1, stop);
            match alias_of(part) {
                Some(name) => Ok(Some(name)),
                None => Err(not_a_name(part, "`as` requires a valid object alias name")),
            }
        },
    }
}

/// The alias that the header of a declaration gives.
pub fn declared_alias(
    view: TokenView<'_>,
    a: Option<usize>,
    x: Option<usize>,
    line: usize,
) -> (result: Result<Option<String>, Vec<Diagnostic>>)
    requires
        view.wf(),
        a matches Some(i) ==> view.lo() <= i < view.hi() && (x matches Some(j) ==> i < j
            <= view.hi()),
    ensures
        result matches Err(errors) ==> errors.len() > 0,
        match result {
            Ok(alias) => grammar::declared_alias(
                view.l(),
                position(a),
                position(x),
                view.hi(),
                line as nat,
            ) == Ok::<Option<Seq<char>>, Seq<diagnostic::DiagnosticView>>(maybe_text(alias)),
            Err(errors) => grammar::declared_alias(
                view.l(),
                position(a),
                position(x),
                view.hi(),
                line as nat,
            ) == Err::<Option<Seq<char>>, Seq<diagnostic::DiagnosticView>>(
                diagnostic::reports(errors@),
            ),
        },
{
    proof {
        reveal(grammar::declared_alias);
    }
    match a {
        None => Ok(None),
        Some(i) => {
            let stop = match x {
                Some(j) => j,
                None => view.range.end,
            };
            let part = view.between(i + 1, stop);
            match alias_of(part) {
                Some(name) => Ok(Some(name)),
                None => match keyword_of(part) {
                    Some(message) => Err(fail(line, message.as_str())),
                    None => Err(fail(line, "`as` requires a valid object alias name")),
                },
            }
        },
    }
}

/// The base of a `with` expression, and its alias.
pub fn with_head(view: TokenView<'_>) -> (result: Result<
    (usize, Option<String>),
    Vec<Diagnostic>,
>)
    requires
        view.wf(),
    ensures
        result matches Err(errors) ==> errors.len() > 0,
        match result {
            Ok((end, alias)) => grammar::with_head(view.l(), view.lo(), view.hi()) == Ok::<
                (int, Option<Seq<char>>),
                Seq<diagnostic::DiagnosticView>,
            >((end as int, maybe_text(alias))) && view.lo() <= end <= view.hi(),
            Err(errors) => grammar::with_head(view.l(), view.lo(), view.hi()) == Err::<
                (int, Option<Seq<char>>),
                Seq<diagnostic::DiagnosticView>,
            >(diagnostic::reports(errors@)),
        },
{
    proof {
        reveal(grammar::with_head);
    }
    match last_mark(view, MarkText::Word("as")) {
        None => Ok((view.range.end, None)),
        Some(a) => {
            let part = view.between(a + 1, view.range.end);
            match alias_of(part) {
                Some(name) => Ok(
                    (
                        a,
                        if same_text(name.as_str(), "_") {
                            None
                        } else {
                            Some(name)
                        },
                    ),
                ),
                None => Err(not_a_name(part, "`as` requires a valid alias name")),
            }
        },
    }
}

/// What the members of a range are said to be.
pub open spec fn said_members(
    result: Result<Vec<LayoutStatement>, Vec<Diagnostic>>,
) -> Result<Seq<Member>, Seq<diagnostic::DiagnosticView>> {
    match result {
        Ok(members) => Ok(layout::members_of(members@)),
        Err(errors) => Err(diagnostic::reports(errors@)),
    }
}

/// The bindings that follow the word at `at`.
pub fn binding_members(view: TokenView<'_>, at: usize) -> (result: Result<
    Vec<LayoutStatement>,
    Vec<Diagnostic>,
>)
    requires
        view.wf(),
        view.lo() <= at < view.hi(),
        input::skip(view.l(), at + 1, view.hi()) < view.hi(),
    ensures
        result matches Err(errors) ==> errors.len() > 0,
        said_members(result) == grammar::binding_members(view.l(), at as int, view.hi()),
        result matches Ok(members) ==> fits(members@, at + 1, view.hi()),
{
    proof {
        reveal(grammar::binding_members);
    }
    let rest = view.between(at + 1, view.range.end);
    let start = view.skip(at + 1);
    match view.opens(start, Delimiter::Brace) {
        Some(close) => if view.between(close + 1, view.range.end).is_layout_empty() {
            return match braced_members(view.between(start + 1, close), "binding group") {
                Ok(members) => Ok(members),
                Err(errors) => Err(errors),
            };
        },
        None => {},
    }
    if start > at + 1 {
        proof {
            layout::block_bounds(view.l(), at + 1, view.hi(), LayoutBase::FirstLine);
        }
        return match LayoutView::new(rest).statements(LayoutBase::FirstLine) {
            Ok(members) => {
                proof {
                    block_fits(members@, at + 1, view.hi());
                }
                Ok(members)
            },
            Err(error) => Err(layout_failure(error)),
        };
    }
    let views = rest.split_top_level(";");
    let items = nonempty_parts(&views, Ghost(rest));
    Ok(part_members(&items, Ghost(rest)))
}

/// What the bindings of a `let`, and where its body begins, are said to be.
pub open spec fn said_let(
    result: Result<(Vec<LayoutStatement>, usize), Vec<Diagnostic>>,
) -> Result<(Seq<Member>, int), Seq<diagnostic::DiagnosticView>> {
    match result {
        Ok((members, body)) => Ok((layout::members_of(members@), body as int)),
        Err(errors) => Err(diagnostic::reports(errors@)),
    }
}

/// Members lie before a position.
pub open spec fn end_by(members: Seq<LayoutStatement>, at: int) -> bool {
    forall|k: int| 0 <= k < members.len() ==> (#[trigger] members[k]).tokens.end <= at
}

/// The bindings of the `let` at the beginning of a view, and where its body
/// begins.
pub fn let_parts(view: TokenView<'_>) -> (result: Result<
    (Vec<LayoutStatement>, usize),
    Vec<Diagnostic>,
>)
    requires
        view.wf(),
        view.lo() < view.hi(),
        !input::empty(view.l(), view.lo() + 1, view.hi()),
    ensures
        result matches Err(errors) ==> errors.len() > 0,
        said_let(result) == grammar::let_parts(view.l(), view.lo(), view.hi()),
        result matches Ok((members, body)) ==> fits(members@, view.lo() + 1, view.hi())
            && view.lo() < body <= view.hi(),
{
    proof {
        reveal(grammar::let_parts);
        reveal(grammar::let_rows);
    }
    let at = view.range.start;
    let rest = view.between(at + 1, view.range.end);
    match first_mark(rest, MarkText::Word("in")) {
        Some(q) => {
            let bound = rest.between(at + 1, q);
            if !bears_none(bound, MarkText::LineStart) {
                return Err(fail_at(view, at, "multi-line let expression must not use `in`"));
            }
            let views = bound.split_top_level(";");
            let items = nonempty_parts(&views, Ghost(bound));
            return Ok((part_members(&items, Ghost(bound)), q + 1));
        },
        None => {},
    }
    let lines = LayoutView::new(rest).lines();
    let ghost rows = layout::rows_of(lines@);
    assert(rows.len() == lines.len());
    if lines.len() < 2 {
        return Err(fail_at(view, at, "multi-line let expression requires a body or `in`"));
    }
    let first_column = column(view, view.skip(at + 1));
    proof {
        layout::rows_bounds(view.l(), at + 1, view.hi());
        assert(rows[0] == lines@[0]@);
    }
    let mut members: Vec<LayoutStatement> = Vec::new();
    members.push(LayoutStatement { line: lines[0].line, tokens: lines[0].tokens });
    let mut k: usize = 1;
    proof {
        assert(layout::members_of(members@) =~= seq![
            Member { line: rows[0].line, lo: rows[0].lo, hi: rows[0].hi },
        ]);
    }
    while k < lines.len()
        invariant
            view.wf(),
            at == view.lo(),
            rows == layout::rows_of(lines@),
            rows.len() == lines.len(),
            layout::rows_within(rows, at + 1, view.hi()),
            1 <= k <= lines.len(),
            members.len() > 0,
            fits(members@, at + 1, view.hi()),
            end_by(members@, rows[k - 1].hi),
            grammar::let_parts(view.l(), view.lo(), view.hi()) == grammar::let_rows(
                view.l(),
                rows.skip(k as int),
                first_column as nat,
                layout::members_of(members@),
            ),
        decreases lines.len() - k,
    {
        proof {
            reveal(grammar::let_parts);
            reveal(grammar::let_rows);
        }
        let ghost had = layout::members_of(members@);
        let ghost old_members = members@;
        proof {
            assert(rows[k as int] == lines@[k as int]@);
            assert(rows.skip(k as int)[0] == rows[k as int]);
            assert(rows.skip(k as int).skip(1) =~= rows.skip(k + 1));
            assert(had.last() == members@.last()@);
            assert(rows[k - 1].hi <= rows[k as int].start);
        }
        let line = &lines[k];
        if line.indentation > first_column {
            match members.pop() {
                Some(last) => {
                    members.push(
                        LayoutStatement {
                            line: last.line,
                            tokens: TokenRange { start: last.tokens.start, end: line.tokens.end },
                        },
                    );
                    proof {
                        assert(last == old_members.last());
                        assert(layout::members_of(members@) =~= had.drop_last().push(
                            Member { hi: rows[k as int].hi, ..had.last() },
                        ));
                        assert forall|j: int| 0 <= j < members.len() implies (
                        #[trigger] members@[j]).tokens.end <= rows[k as int].hi by {
                            if j < members.len() - 1 {
                                assert(members@[j] == old_members[j]);
                            }
                        }
                        assert forall|j: int| 0 <= j < members.len() implies at + 1 <= (
                        #[trigger] members@[j]).tokens.start <= members@[j].tokens.end
                            && members@[j].tokens.end <= view.hi() by {
                            if j < members.len() - 1 {
                                assert(members@[j] == old_members[j]);
                            }
                        }
                    }
                },
                None => {},
            }
        } else if line.indentation == first_column {
            members.push(LayoutStatement { line: line.line, tokens: line.tokens });
            proof {
                assert(layout::members_of(members@) =~= had.push(
                    Member {
                        line: rows[k as int].line,
                        lo: rows[k as int].lo,
                        hi: rows[k as int].hi,
                    },
                ));
            }
        } else {
            let part = view.between(line.tokens.start, line.tokens.end);
            if !bears_none(part, MarkText::Symbol("=")) {
                return Err(
                    fail(
                        line.line,
                        "multi-line let binding names must align under the first binding",
                    ),
                );
            }
            return Ok((members, line.tokens.start));
        }
        k = k + 1;
    }
    proof {
        assert(rows.skip(k as int).len() == 0);
        assert(layout::members_of(members@).last() == members@.last()@);
    }
    let count = members.len();
    Err(fail(members[count - 1].line, "multi-line let expression requires a body"))
}

/// The `object` of an object expression, and whether it is abstract.
pub fn object_head(view: TokenView<'_>) -> (found: Option<(usize, bool)>)
    requires
        view.wf(),
    ensures
        match found {
            Some((head, is_abstract)) => grammar::object_head(view.l(), view.lo(), view.hi())
                == Some((head as int, is_abstract)) && view.lo() <= head < view.hi(),
            None => grammar::object_head(view.l(), view.lo(), view.hi()) is None,
        },
{
    proof {
        reveal(grammar::object_head);
        reveal(grammar::stands);
    }
    let start = view.range.start;
    if stands(view, start, "object") {
        Some((start, false))
    } else if stands(view, start, "abstract") {
        let next = view.skip(start + 1);
        if stands(view, next, "object") {
            Some((next, true))
        } else {
            None
        }
    } else {
        None
    }
}

/// The end of an object header.
pub fn header_end(view: TokenView<'_>) -> (end: usize)
    requires
        view.wf(),
    ensures
        end == grammar::header_end(view.l(), view.lo(), view.hi()),
        view.lo() <= end <= view.hi(),
{
    proof {
        reveal(grammar::header_end);
    }
    match first_mark(view, MarkText::Word("with")) {
        Some(end) => end,
        None => view.range.end,
    }
}

/// The last token or group of a view.
pub fn last_item(view: TokenView<'_>) -> (index: usize)
    requires
        view.wf(),
        view.lo() < view.hi(),
    ensures
        index == grammar::last_item(view.l(), view.lo(), view.hi()),
        view.lo() <= index < view.hi(),
{
    proof {
        reveal(grammar::last_item);
    }
    let mut index = view.range.start;
    loop
        invariant
            view.wf(),
            view.lo() <= index < view.hi(),
            grammar::last_item(view.l(), view.lo(), view.hi()) == grammar::last_item(
                view.l(),
                index as int,
                view.hi(),
            ),
        ensures
            index == grammar::last_item(view.l(), view.lo(), view.hi()),
        decreases view.hi() - index,
    {
        proof {
            reveal(grammar::last_item);
        }
        let next = view.next_top(index);
        if next >= view.range.end {
            break;
        }
        index = next;
    }
    index
}

/// A view with no `as`, `++` or `:` outside its groups.
pub fn is_plain(view: TokenView<'_>) -> (b: bool)
    requires
        view.wf(),
    ensures
        b == grammar::plain_range(view.l(), view.lo(), view.hi()),
{
    proof {
        reveal(grammar::plain_range);
    }
    bears_none(view, MarkText::Word("as")) && bears_none(view, MarkText::Symbol("++"))
        && bears_none(view, MarkText::Symbol(":"))
}

/// Two tokens are spelled alike.
fn same_token(view: TokenView<'_>, left: usize, right: usize) -> (b: bool)
    requires
        view.wf(),
        left < view.l().tokens.len(),
        right < view.l().tokens.len(),
    ensures
        b == grammar::same_lexeme(
            view.l(),
            input::lexeme(view.l(), left as int),
            input::lexeme(view.l(), right as int),
        ),
{
    proof {
        reveal(grammar::same_lexeme);
    }
    match (kind_at(view, left), kind_at(view, right)) {
        (TokenKind::Name(a), TokenKind::Name(b)) => same_text(a.as_str(), b.as_str()),
        (TokenKind::Number(a), TokenKind::Number(b)) => same_text(a.as_str(), b.as_str()),
        (TokenKind::Symbol(a), TokenKind::Symbol(b)) => same_text(a.as_str(), b.as_str()),
        (TokenKind::Text(a), TokenKind::Text(b)) => same_text(
            text_value(view, left, *a),
            text_value(view, right, *b),
        ),
        (
            TokenKind::Open { group: _, delimiter: a },
            TokenKind::Open { group: _, delimiter: b },
        ) => *a == *b,
        (
            TokenKind::Close { group: _, delimiter: a },
            TokenKind::Close { group: _, delimiter: b },
        ) => *a == *b,
        (TokenKind::LineStart { indentation: a }, TokenKind::LineStart { indentation: b }) => *a
            == *b,
        (TokenKind::Unknown(a), TokenKind::Unknown(b)) => *a == *b,
        (TokenKind::Embedded(a), TokenKind::Embedded(b)) => *a == *b,
        _ => false,
    }
}

/// The value of the text literal at a token.
pub fn text_value<'lex>(view: TokenView<'lex>, index: usize, id: usize) -> (value: &'lex str)
    requires
        view.wf(),
        index < view.l().tokens.len(),
        input::lexeme(view.l(), index as int) == Lexeme::Text(id as nat),
    ensures
        value@ == view.l().texts[id as int].value,
{
    let source = view.source;
    proof {
        assert(view.l().tokens[index as int] == source.tokens@[index as int]@);
        assert(lexical::token_pairs(
            view.l().tokens[index as int],
            view.l().groups,
            index as int,
            view.l().texts.len() as int,
        ));
        assert(view.l().texts[id as int] == source.texts@[id as int]@);
    }
    source.texts[id].value.as_str()
}

/// The same tokens are spelled in two ranges.
fn same_tokens(view: TokenView<'_>, left: usize, right: usize, count: usize) -> (b: bool)
    requires
        view.wf(),
        left + count <= view.l().tokens.len(),
        right + count <= view.l().tokens.len(),
    ensures
        b == grammar::same_spelling(view.l(), left as int, right as int, count as int),
{
    proof {
        reveal(grammar::same_spelling);
    }
    let mut k: usize = count;
    let tokens = view.source.tokens.len();
    while k > 0
        invariant
            view.wf(),
            k <= count,
            tokens == view.l().tokens.len(),
            left + count <= view.l().tokens.len(),
            right + count <= view.l().tokens.len(),
            grammar::same_spelling(view.l(), left as int, right as int, count as int)
                == grammar::same_spelling(view.l(), left as int, right as int, k as int),
        decreases k,
    {
        proof {
            reveal(grammar::same_spelling);
        }
        if !same_token(view, left + (k - 1), right + (k - 1)) {
            return false;
        }
        k = k - 1;
    }
    true
}

/// Ranges as pairs of positions.
pub open spec fn pairs(ranges: Seq<TokenRange>) -> Seq<(int, int)> {
    ranges.map_values(|r: TokenRange| (r.start as int, r.end as int))
}

/// A path is spelled like one of the given paths.
pub fn repeats(view: TokenView<'_>, paths: &Vec<TokenRange>, range: TokenRange) -> (b: bool)
    requires
        view.wf(),
        range.start <= range.end <= view.l().tokens.len(),
        forall|k: int|
            0 <= k < paths.len() ==> (#[trigger] paths@[k]).start <= paths@[k].end
                && paths@[k].end <= view.l().tokens.len(),
    ensures
        b == grammar::repeats(view.l(), pairs(paths@), range.start as int, range.end as int),
{
    proof {
        reveal(grammar::repeats);
    }
    let ghost all = pairs(paths@);
    let mut k: usize = 0;
    while k < paths.len()
        invariant
            view.wf(),
            k <= paths.len(),
            all == pairs(paths@),
            range.start <= range.end <= view.l().tokens.len(),
            forall|j: int|
                0 <= j < paths.len() ==> (#[trigger] paths@[j]).start <= paths@[j].end
                    && paths@[j].end <= view.l().tokens.len(),
            forall|j: int|
                0 <= j < k ==> !((#[trigger] all[j]).1 - all[j].0 == range.end - range.start
                    && grammar::same_spelling(
                    view.l(),
                    all[j].0,
                    range.start as int,
                    range.end - range.start,
                )),
        decreases paths.len() - k,
    {
        proof {
            reveal(grammar::repeats);
        }
        let path = paths[k];
        assert(all[k as int] == (path.start as int, path.end as int));
        if path.end - path.start == range.end - range.start && same_tokens(
            view,
            path.start,
            range.start,
            range.end - range.start,
        ) {
            return true;
        }
        k = k + 1;
    }
    false
}

/// The names of an abstract declaration in a `do` block.
pub fn abstract_names(view: TokenView<'_>) -> (result: Result<Vec<String>, Vec<Diagnostic>>)
    requires
        view.wf(),
        view.lo() < view.hi(),
    ensures
        result matches Err(errors) ==> errors.len() > 0,
        match result {
            Ok(names) => grammar::abstract_names(
                view.l(),
                grammar::comma_parts(view.l(), view.lo() + 1, view.hi()),
                view.lo(),
                view.hi(),
            ) == Ok::<Seq<Seq<char>>, Seq<diagnostic::DiagnosticView>>(text::texts(names@)),
            Err(errors) => grammar::abstract_names(
                view.l(),
                grammar::comma_parts(view.l(), view.lo() + 1, view.hi()),
                view.lo(),
                view.hi(),
            ) == Err::<Seq<Seq<char>>, Seq<diagnostic::DiagnosticView>>(
                diagnostic::reports(errors@),
            ),
        },
{
    proof {
        reveal(grammar::abstract_names);
    }
    let at = view.range.start;
    let rest = view.between(at + 1, view.range.end);
    let views = rest.split_top_level(",");
    let ghost all = input::ranges(views@);
    assert(all.len() == views.len());
    let mut names: Vec<String> = Vec::new();
    let mut k: usize = 0;
    assert(text::texts(names@) =~= Seq::empty());
    while k < views.len()
        invariant
            view.wf(),
            at == view.lo(),
            k <= views.len(),
            all == input::ranges(views@),
            all.len() == views.len(),
            input::all_within(views@, rest),
            rest.source == view.source,
            grammar::comma_parts(view.l(), view.lo() + 1, view.hi()) == all,
            grammar::abstract_names(view.l(), all.take(k as int), view.lo(), view.hi()) == Ok::<
                Seq<Seq<char>>,
                Seq<diagnostic::DiagnosticView>,
            >(text::texts(names@)),
        decreases views.len() - k,
    {
        proof {
            reveal(grammar::abstract_names);
        }
        let ghost had = text::texts(names@);
        proof {
            assert(all.take(k + 1).drop_last() =~= all.take(k as int));
            assert(all.take(k + 1).last() == (views@[k as int].lo(), views@[k as int].hi()));
            abstract_names_fail(view.l(), all, k + 1, view.lo(), view.hi());
        }
        match local_of(views[k]) {
            Some(name) => {
                if same_text(name.as_str(), "_") {
                    return Err(
                        fail_view(
                            views[k],
                            "do abstract declaration cannot use the inaccessible `_` name",
                        ),
                    );
                }
                names.push(name);
                assert(text::texts(names@) =~= had.push(name@));
            },
            None => {
                return match keyword_of(views[k]) {
                    Some(message) => Err(fail_view(views[k], message.as_str())),
                    None => Err(
                        fail_at(
                            view,
                            at,
                            "do abstract declaration requires one or more comma-separated local names",
                        ),
                    ),
                };
            },
        }
        k = k + 1;
    }
    assert(all.take(views.len() as int) =~= all);
    Ok(names)
}

/// What is wrong with the first names of a declaration is what is wrong with
/// all of them.
proof fn abstract_names_fail(l: Lexed, parts: Seq<(int, int)>, k: int, at: int, hi: int)
    requires
        0 <= k <= parts.len(),
    ensures
        grammar::abstract_names(l, parts.take(k), at, hi) is Err ==> grammar::abstract_names(
            l,
            parts,
            at,
            hi,
        ) == grammar::abstract_names(l, parts.take(k), at, hi),
    decreases parts.len(),
{
    reveal(grammar::abstract_names);
    if k < parts.len() {
        abstract_names_fail(l, parts.drop_last(), k, at, hi);
        assert(parts.drop_last().take(k) =~= parts.take(k));
    } else {
        assert(parts.take(k) =~= parts);
    }
}

/// What the members of a choice, and the position after them, are said to be.
pub open spec fn said_choice(
    result: Result<(Vec<LayoutStatement>, usize), Vec<Diagnostic>>,
) -> Result<(Seq<Member>, int), Seq<diagnostic::DiagnosticView>> {
    said_let(result)
}

/// The members of a choice whose body is the view, and the position after
/// them. The word before the body stands right before the view.
pub fn choice_member_views(
    view: TokenView<'_>,
    context: ExpressionContext,
    label: &str,
    missing: &str,
    brace_can_start: bool,
) -> (result: Result<(Vec<LayoutStatement>, usize), Vec<Diagnostic>>)
    requires
        view.wf(),
        view.lo() > 0,
    ensures
        result matches Err(errors) ==> errors.len() > 0,
        said_choice(result) == grammar::choice_members(
            view.l(),
            view.lo(),
            view.hi(),
            context,
            label@,
            missing@,
            brace_can_start,
        ),
        result matches Ok((members, end)) ==> fits(members@, view.lo(), view.hi()) && view.lo()
            <= end <= view.hi() && !input::empty(view.l(), view.lo(), view.hi()),
{
    proof {
        reveal(grammar::choice_members);
    }
    let start = view.skip(view.range.start);
    if start >= view.range.end {
        return Err(fail_at(view, view.range.start - 1, missing));
    }
    match view.opens(start, Delimiter::Brace) {
        Some(close) => {
            let next = view.skip(close + 1);
            if !(brace_can_start && next < view.range.end && (view.is_symbol(next, "=>")
                || view.is_word(next, "when"))) {
                return match braced_members(view.between(start + 1, close), label) {
                    Ok(members) => Ok((members, close + 1)),
                    Err(errors) => Err(errors),
                };
            }
        },
        None => {},
    }
    proof {
        layout::block_bounds(view.l(), view.lo(), view.hi(), LayoutBase::FirstLine);
    }
    match LayoutView::new(view).block(LayoutBase::FirstLine) {
        Err(error) => Err(layout_failure(error)),
        Ok(block) => {
            let ghost members = layout::members_of(block.statements@);
            assert(members.len() == block.statements.len());
            if block.statements.len() == 0 {
                return Err(fail_at(view, view.range.start - 1, missing));
            }
            if !context.accepts_layout_anchor(block.anchor) {
                let mut message = phrase(label, " begins at indentation ");
                text::push_decimal(&mut message, block.anchor);
                message.append("; expected more than continuation floor ");
                text::push_decimal(&mut message, context.continuation_floor);
                assert(members[0] == block.statements@[0]@);
                assert(message@ =~= grammar::floor_message(
                    label@,
                    block.anchor as nat,
                    context.continuation_floor as nat,
                ));
                return Err(fail(block.statements[0].line, message.as_str()));
            }
            proof {
                block_fits(block.statements@, view.lo(), view.hi());
            }
            Ok((block.statements, block.end))
        },
    }
}

/// Where a choice ends whose arms end at `end`.
pub fn choice_end(view: TokenView<'_>, end: usize) -> (result: Result<usize, Vec<Diagnostic>>)
    requires
        view.wf(),
        view.lo() <= end <= view.hi(),
        !input::empty(view.l(), view.lo(), view.hi()),
    ensures
        result matches Err(errors) ==> errors.len() > 0,
        match result {
            Ok(found) => grammar::choice_ends(view.l(), view.lo(), end as int, view.hi()) == Ok::<
                int,
                Seq<diagnostic::DiagnosticView>,
            >(found as int) && view.lo() < found <= view.hi(),
            Err(errors) => grammar::choice_ends(view.l(), view.lo(), end as int, view.hi())
                == Err::<int, Seq<diagnostic::DiagnosticView>>(diagnostic::reports(errors@)),
        },
{
    proof {
        reveal(grammar::choice_ends);
    }
    let start = view.skip(view.range.start);
    let next = view.skip(end);
    match view.opens(start, Delimiter::Brace) {
        Some(close) => if close + 1 == end {
            return Ok(end);
        },
        None => {},
    }
    if next >= view.range.end {
        Ok(view.range.end)
    } else {
        Err(fail_at(view, next, "expression continues after its match arms"))
    }
}

/// The word of a conditional.
pub fn conditional_word(host: bool) -> (word: &'static str)
    ensures
        word@ == grammar::conditional_word(host),
{
    if host {
        "try"
    } else {
        "if"
    }
}

/// The word of a match.
pub fn match_word(host: bool) -> (word: &'static str)
    ensures
        word@ == grammar::match_word(host),
{
    if host {
        "try_match"
    } else {
        "match"
    }
}

/// The position after a conditional.
pub fn hard_end(view: TokenView<'_>, index: usize) -> (end: usize)
    requires
        view.wf(),
        view.lo() <= index < view.hi(),
    ensures
        end == grammar::hard_end(view.l(), index as int, view.hi()),
        index < end <= view.hi(),
{
    proof {
        reveal(grammar::hard_end);
    }
    let rest = view.between(index + 1, view.range.end);
    let comma = match first_mark(rest, MarkText::Symbol(",")) {
        Some(found) => found,
        None => view.range.end,
    };
    let semicolon = match first_mark(rest, MarkText::Symbol(";")) {
        Some(found) => found,
        None => view.range.end,
    };
    if comma < semicolon {
        comma
    } else {
        semicolon
    }
}

/// The `then` and `else` of the conditional at the beginning of a view.
pub fn conditional_boundaries(view: TokenView<'_>, host: bool) -> (result: Result<
    (usize, usize),
    Vec<Diagnostic>,
>)
    requires
        view.wf(),
        view.lo() < view.hi(),
    ensures
        result matches Err(errors) ==> errors.len() > 0,
        match result {
            Ok((t, f)) => grammar::boundaries(
                view.l(),
                view.lo(),
                view.hi(),
                view.lo() + 1,
                seq![false],
                None,
                host,
            ) == Ok::<(int, int), Seq<diagnostic::DiagnosticView>>((t as int, f as int))
                && view.lo() < t < f && f < view.hi(),
            Err(errors) => grammar::boundaries(
                view.l(),
                view.lo(),
                view.hi(),
                view.lo() + 1,
                seq![false],
                None,
                host,
            ) == Err::<(int, int), Seq<diagnostic::DiagnosticView>>(
                diagnostic::reports(errors@),
            ),
        },
{
    proof {
        reveal(grammar::boundaries);
    }
    let word = conditional_word(host);
    let mut open: Vec<bool> = Vec::new();
    open.push(false);
    let mut outer: Option<usize> = None;
    let mut index = view.range.start + 1;
    assert(open@ =~= seq![false]);
    while index < view.range.end
        invariant
            view.wf(),
            word@ == grammar::conditional_word(host),
            view.lo() < index <= view.hi(),
            open.len() > 0,
            open@[0] ==> outer is Some,
            outer matches Some(t) ==> view.lo() < t < index,
            grammar::boundaries(
                view.l(),
                view.lo(),
                view.hi(),
                view.lo() + 1,
                seq![false],
                None,
                host,
            ) == grammar::boundaries(
                view.l(),
                view.lo(),
                view.hi(),
                index as int,
                open@,
                position(outer),
                host,
            ),
        decreases view.hi() - index,
    {
        proof {
            reveal(grammar::boundaries);
        }
        let next = view.next_top(index);
        let count = open.len();
        let ghost had = open@;
        if view.is_contextual_keyword(index) {
            if stands(view, index, "if") || stands(view, index, "try") {
                open.push(false);
            } else if stands(view, index, "then") {
                if open[count - 1] {
                    let message = if host {
                        "unexpected `then`; a try branch is already active"
                    } else {
                        "unexpected `then`; an if branch is already active"
                    };
                    return Err(fail_at(view, index, message));
                }
                open.pop();
                open.push(true);
                assert(open@ =~= had.drop_last().push(true));
                if count == 1 {
                    outer = Some(index);
                }
            } else if stands(view, index, "else") {
                if !open[count - 1] {
                    return Err(
                        fail_at(
                            view,
                            index,
                            phrase(word, " expression requires `then` before `else`").as_str(),
                        ),
                    );
                }
                if count == 1 {
                    return match outer {
                        Some(t) => Ok((t, index)),
                        None => {
                            let none: Vec<Diagnostic> = Vec::new();
                            Err(none)
                        },
                    };
                }
                open.pop();
                assert(open@ =~= had.drop_last());
            }
        }
        index = next;
    }
    Err(
        fail_view(
            view,
            phrase(
                word,
                if outer.is_some() {
                    " expression requires `else` and a fallback result"
                } else {
                    " expression requires `then` and `else`"
                },
            ).as_str(),
        ),
    )
}

/// The first operator of a definition, and what it does.
pub fn definition_operator(view: TokenView<'_>) -> (found: Option<(usize, usize)>)
    requires
        view.wf(),
    ensures
        match found {
            Some((index, kind)) => grammar::definition_operator(view.l(), view.lo(), view.hi())
                == Some((index as int, kind as nat)) && view.lo() <= index < view.hi() && kind <= 2,
            None => grammar::definition_operator(view.l(), view.lo(), view.hi()) is None,
        },
{
    proof {
        reveal(grammar::definition_operator);
    }
    let mut index = view.range.start;
    while index < view.range.end
        invariant
            view.wf(),
            view.lo() <= index <= view.hi(),
            grammar::definition_operator(view.l(), view.lo(), view.hi())
                == grammar::definition_operator(view.l(), index as int, view.hi()),
        decreases view.hi() - index,
    {
        proof {
            reveal(grammar::definition_operator);
        }
        if view.is_symbol(index, "::=") {
            return Some((index, 2));
        }
        if view.is_symbol(index, ":=") {
            return Some((index, 1));
        }
        if view.is_symbol(index, "=") {
            return Some((index, 0));
        }
        index = view.next_top(index);
    }
    None
}

/// The end of the target of a definition.
pub fn target_end(view: TokenView<'_>, from: usize, line: usize, leads: bool) -> (result: Result<
    usize,
    Vec<Diagnostic>,
>)
    requires
        view.wf(),
        from <= view.hi(),
    ensures
        result matches Err(errors) ==> errors.len() > 0,
        match result {
            Ok(end) => grammar::target_end(view.l(), from as int, view.hi(), line as nat, leads)
                == Ok::<int, Seq<diagnostic::DiagnosticView>>(end as int) && from <= end
                <= view.hi(),
            Err(errors) => grammar::target_end(
                view.l(),
                from as int,
                view.hi(),
                line as nat,
                leads,
            ) == Err::<int, Seq<diagnostic::DiagnosticView>>(diagnostic::reports(errors@)),
        },
{
    proof {
        reveal(grammar::target_end);
    }
    let mut index = from;
    let mut first = leads;
    while index < view.range.end && view.is_symbol(index, ".") && (first || view.is_joint(index))
        invariant
            view.wf(),
            from <= index <= view.hi(),
            grammar::target_end(view.l(), from as int, view.hi(), line as nat, leads)
                == grammar::target_end(view.l(), index as int, view.hi(), line as nat, first),
        decreases view.hi() - index,
    {
        proof {
            reveal(grammar::target_end);
        }
        if view.range.end - index <= 1 {
            return Err(fail(line, "path suffix requires a key"));
        }
        if !view.is_joint(index + 1) {
            return Err(fail(line, "path suffix key must immediately follow `.`"));
        }
        match kind_at(view, index + 1) {
            TokenKind::Name(_) => {
                index = index + 2;
            },
            TokenKind::Open { group: _, delimiter } => {
                if *delimiter == Delimiter::Brace {
                    return Err(
                        fail(
                            line,
                            "definition path suffix requires a name, list, or parenthesized path",
                        ),
                    );
                }
                match view.close_of(index + 1) {
                    Some(close) => {
                        index = close + 1;
                    },
                    None => {
                        return Err(fail(line, "unclosed definition target path"));
                    },
                }
            },
            _ => {
                return Err(
                    fail(
                        line,
                        "definition path suffix requires a name, list, or parenthesized path",
                    ),
                );
            },
        }
        first = false;
    }
    Ok(index)
}

/// The parameters of a definition.
pub fn definition_params(view: TokenView<'_>, from: usize, line: usize) -> (result: Result<
    Vec<String>,
    Vec<Diagnostic>,
>)
    requires
        view.wf(),
        view.lo() <= from <= view.hi(),
    ensures
        result matches Err(errors) ==> errors.len() > 0,
        match result {
            Ok(params) => grammar::params_of(
                view.l(),
                from as int,
                view.hi(),
                line as nat,
                Seq::empty(),
            ) == Ok::<Seq<Seq<char>>, Seq<diagnostic::DiagnosticView>>(text::texts(params@)),
            Err(errors) => grammar::params_of(
                view.l(),
                from as int,
                view.hi(),
                line as nat,
                Seq::empty(),
            ) == Err::<Seq<Seq<char>>, Seq<diagnostic::DiagnosticView>>(
                diagnostic::reports(errors@),
            ),
        },
{
    proof {
        reveal(grammar::params_of);
    }
    let mut params: Vec<String> = Vec::new();
    let mut index = from;
    assert(text::texts(params@) =~= Seq::empty());
    loop
        invariant
            view.wf(),
            view.lo() <= from <= index <= view.hi(),
            grammar::params_of(view.l(), from as int, view.hi(), line as nat, Seq::empty())
                == grammar::params_of(
                view.l(),
                index as int,
                view.hi(),
                line as nat,
                text::texts(params@),
            ),
        decreases view.hi() - index,
    {
        proof {
            reveal(grammar::params_of);
        }
        let ghost had = text::texts(params@);
        let next = view.skip(index);
        if next >= view.range.end {
            return Ok(params);
        }
        let single = view.between(next, next + 1);
        match local_of(single) {
            None => {
                return match keyword_of(single) {
                    Some(message) => Err(fail(line, message.as_str())),
                    None => Err(fail(line, "definition parameters must be local names")),
                };
            },
            Some(name) => {
                if next == index && view.is_joint(next) {
                    return Err(
                        fail(line, "definition parameters must be separated from the target"),
                    );
                }
                params.push(name);
                assert(text::texts(params@) =~= had.push(name@));
                index = next + 1;
            },
        }
    }
}

/// A path of joint names, as it is spelled.
pub fn static_path(view: TokenView<'_>) -> (path: Option<String>)
    requires
        view.wf(),
    ensures
        match path {
            Some(path) => grammar::static_path(view.l(), view.lo(), view.hi()) == Some(path@),
            None => grammar::static_path(view.l(), view.lo(), view.hi()) is None,
        },
{
    proof {
        reveal(grammar::static_path);
    }
    let start = view.range.start;
    let end = view.range.end;
    if end - start < 1 {
        return None;
    }
    let mut path = match kind_at(view, start) {
        TokenKind::Name(word) => word.clone(),
        _ => {
            proof {
                static_path_needs(view.l(), start as int, start + 1, end as int);
            }
            return None;
        },
    };
    let mut index = start + 1;
    while index < end
        invariant
            view.wf(),
            start == view.lo(),
            end == view.hi(),
            start < index <= end,
            grammar::static_path(view.l(), start as int, index as int) == Some(path@),
        decreases end - index,
    {
        proof {
            reveal(grammar::static_path);
        }
        if end - index < 2 || !view.is_symbol(index, ".") || !view.is_joint(index)
            || !view.is_joint(index + 1) {
            proof {
                if end - index < 2 {
                    static_path_odd(view.l(), start as int, index as int, path@);
                } else {
                    static_path_next(view.l(), start as int, index as int, end as int, path@);
                }
            }
            return None;
        }
        match kind_at(view, index + 1) {
            TokenKind::Name(word) => {
                let ghost had = path@;
                path.append(".");
                path.append(word.as_str());
                proof {
                    reveal_strlit(".");
                    assert(had + "."@ =~= had.push('.'));
                }
                index = index + 2;
            },
            _ => {
                proof {
                    static_path_next(view.l(), start as int, index as int, end as int, path@);
                }
                return None;
            },
        }
    }
    Some(path)
}

/// A path has an odd number of tokens.
proof fn static_path_length(l: Lexed, s: int, e: int)
    ensures
        grammar::static_path(l, s, e) is Some ==> e > s && (e - s) % 2 == 1,
    decreases e - s,
{
    reveal(grammar::static_path);
    if e > s + 1 {
        static_path_length(l, s, e - 2);
    }
}

proof fn static_path_odd(l: Lexed, s: int, e: int, path: Seq<char>)
    requires
        grammar::static_path(l, s, e) == Some(path),
    ensures
        grammar::static_path(l, s, e + 1) is None,
{
    reveal(grammar::static_path);
    static_path_length(l, s, e);
    static_path_length(l, s, e + 1);
}

/// What spells a path has no part that does not.
proof fn static_path_needs(l: Lexed, s: int, k: int, e: int)
    requires
        s < k <= e,
        grammar::static_path(l, s, k) is None,
        (k - s) % 2 == 1,
    ensures
        grammar::static_path(l, s, e) is None,
    decreases e - k,
{
    reveal(grammar::static_path);
    static_path_length(l, s, e);
    if k < e {
        if k + 1 < e {
            static_path_needs(l, s, k + 2, e);
        }
    }
}

proof fn static_path_next(l: Lexed, s: int, k: int, e: int, path: Seq<char>)
    requires
        s < k,
        k + 2 <= e,
        grammar::static_path(l, s, k) == Some(path),
        !(input::is_symbol(l, k, "."@) && input::is_joint(l, k) && input::is_joint(l, k + 1)
            && input::lexeme(l, k + 1) is Name),
    ensures
        grammar::static_path(l, s, e) is None,
{
    reveal(grammar::static_path);
    static_path_length(l, s, k);
    assert(grammar::static_path(l, s, k + 2) is None);
    static_path_needs(l, s, k + 2, e);
}

/// Where the body of a declaration begins.
pub fn split_header(view: TokenView<'_>) -> (end: usize)
    requires
        view.wf(),
    ensures
        end == grammar::split_header(view.l(), view.lo(), view.hi()),
        view.lo() <= end <= view.hi(),
{
    proof {
        reveal(grammar::split_header);
    }
    match first_mark(view, MarkText::Word("with")) {
        Some(index) => index + 1,
        None => match first_mark(view, MarkText::LineStart) {
            Some(index) => index,
            None => view.range.end,
        },
    }
}

/// The `object` of an object declaration, and whether it is abstract.
pub fn object_declaration_head(view: TokenView<'_>) -> (found: Option<(usize, bool)>)
    requires
        view.wf(),
    ensures
        match found {
            Some((head, is_abstract)) => grammar::decl_head(view.l(), view.lo(), view.hi()) == Some(
                (head as int, is_abstract),
            ) && view.lo() <= head < view.hi(),
            None => grammar::decl_head(view.l(), view.lo(), view.hi()) is None,
        },
{
    proof {
        reveal(grammar::decl_head);
    }
    let start = view.skip(view.range.start);
    if start >= view.range.end {
        None
    } else if view.is_word(start, "object") {
        Some((start, false))
    } else if view.is_word(start, "abstract") {
        let next = view.skip(start + 1);
        if next < view.range.end && view.is_word(next, "object") {
            Some((next, true))
        } else {
            None
        }
    } else {
        None
    }
}

/// The end of the head of an extension, and whether it is abstract.
pub fn extend_head(view: TokenView<'_>) -> (found: (usize, bool))
    requires
        view.wf(),
        !input::empty(view.l(), view.lo(), view.hi()),
    ensures
        (found.0 as int, found.1) == grammar::extend_head(view.l(), view.lo(), view.hi()),
        view.lo() < found.0 <= view.hi(),
{
    proof {
        reveal(grammar::extend_head);
    }
    let start = view.skip(view.range.start);
    let next = view.skip(start + 1);
    if next < view.range.end && view.is_word(next, "abstract") {
        (next + 1, true)
    } else {
        (start + 1, false)
    }
}

/// A body in braces fills the view.
pub fn is_explicit_body(view: TokenView<'_>) -> (b: bool)
    requires
        view.wf(),
    ensures
        b == grammar::explicit_body(view.l(), view.lo(), view.hi()),
{
    proof {
        reveal(grammar::explicit_body);
    }
    let start = view.skip(view.range.start);
    if start >= view.range.end {
        return false;
    }
    match view.opens(start, Delimiter::Brace) {
        Some(close) => view.between(close + 1, view.range.end).is_layout_empty(),
        None => false,
    }
}

/// The messages of a list of errors as one error.
pub fn combine_parse_errors(line: usize, errors: &Vec<Diagnostic>) -> (combined: Vec<Diagnostic>)
    ensures
        combined.len() > 0,
        diagnostic::reports(combined@) == grammar::combined(
            line as nat,
            diagnostic::reports(errors@),
        ),
{
    proof {
        reveal(grammar::combined);
        reveal(grammar::joined_messages);
    }
    let ghost all = diagnostic::reports(errors@);
    let mut message = String::new();
    let mut k: usize = 0;
    while k < errors.len()
        invariant
            k <= errors.len(),
            all == diagnostic::reports(errors@),
            message@ == grammar::joined_messages(all.take(k as int)),
        decreases errors.len() - k,
    {
        proof {
            reveal(grammar::combined);
            reveal(grammar::joined_messages);
        }
        proof {
            assert(all.take(k + 1).drop_last() =~= all.take(k as int));
            assert(all.take(k + 1).last() == errors@[k as int]@);
            assert(all.take(k + 1)[0] == all[0]);
        }
        if k == 0 {
            message = errors[k].message.clone();
        } else {
            message.append("; ");
            message.append(errors[k].message.as_str());
        }
        k = k + 1;
    }
    assert(all.take(errors.len() as int) =~= all);
    fail(line, message.as_str())
}

} // verus!
