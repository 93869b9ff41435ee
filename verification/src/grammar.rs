//! The grammar of `g0`: what a range of tokens says, as a term, or what is
//! wrong with it.
//!
//! A range is parsed as a whole. Groups, separators and layout bound the
//! ranges of its parts, so that every part is a smaller range.

use vstd::prelude::*;
use crate::ast::SyntaxOperator;
use crate::diagnostic;
use crate::diagnostic::DiagnosticView;
use crate::expression_context;
use crate::expression_context::{ExpressionContext, ExpressionExtent};
use crate::infix;
use crate::input;
use crate::input::Mark;
use crate::keywords;
use crate::layout;
use crate::layout::{LayoutBase, Member, Row};
use crate::lexical;
use crate::lexical::{Delimiter, Lexed, Lexeme};
use crate::number;
use crate::term;
use crate::term::{Tag, Term};
use crate::text;
use crate::values::Builtin;

verus! {

/// The term of a whole range, or what is wrong with it.
pub type Out = Result<Term, Seq<DiagnosticView>>;

/// The terms of the parts of a range.
pub type Outs = Result<Seq<Term>, Seq<DiagnosticView>>;

/// The term at the beginning of a range, and the position after it.
pub type Part = Result<(Term, int), Seq<DiagnosticView>>;

/// The terms at the beginning of a range, and the position after them.
pub type Parts = Result<(Seq<Term>, int), Seq<DiagnosticView>>;

#[verifier::opaque]
pub open spec fn fail(line: nat, message: Seq<char>) -> Seq<DiagnosticView> {
    seq![diagnostic::error_at(line, message)]
}

/// The message reported at the token `i`, or at the end of a range.
#[verifier::opaque]
pub open spec fn fail_at(l: Lexed, i: int, hi: int, message: Seq<char>) -> Seq<DiagnosticView> {
    fail(
        if i < hi {
            input::line(l, i)
        } else if hi > 0 {
            input::line(l, hi - 1)
        } else {
            1
        },
        message,
    )
}

#[verifier::opaque]
pub open spec fn fail_view(l: Lexed, lo: int, hi: int, message: Seq<char>) -> Seq<DiagnosticView> {
    fail(input::view_line(l, lo, hi), message)
}

#[verifier::opaque]
pub open spec fn expected(l: Lexed, i: int, hi: int, what: Seq<char>) -> Seq<DiagnosticView> {
    fail_at(l, i, hi, "expected "@ + what + ", found "@ + input::shown(l, i, hi))
}

/// What no range gives.
pub open spec fn stuck() -> Seq<DiagnosticView> {
    Seq::empty()
}

pub open spec fn inside(a: int, b: int, lo: int, hi: int) -> bool {
    lo <= a <= b <= hi
}

/// A word begins with a letter.
#[verifier::opaque]
pub open spec fn lettered(word: Seq<char>) -> bool {
    word.len() > 0 && text::ascii_letter(word[0])
}

/// A word that may name a local.
#[verifier::opaque]
pub open spec fn local_spelling(word: Seq<char>) -> bool {
    word == "_"@ || lettered(word) || (word.len() > 0 && word[0] == '_' && lettered(word.skip(1)))
}

/// A word that an expression may use as a name.
#[verifier::opaque]
pub open spec fn free_name(word: Seq<char>) -> bool {
    !keywords::reserved(word) || word == "module"@ || word == "self"@
}

/// The infix operator at `i`.
#[verifier::opaque]
pub open spec fn operator_at(l: Lexed, i: int) -> Option<SyntaxOperator> {
    match input::lexeme(l, i) {
        Lexeme::Name(word) => if word == "and"@ {
            Some(SyntaxOperator::BoolAnd)
        } else if word == "or"@ {
            Some(SyntaxOperator::BoolOr)
        } else {
            None
        },
        Lexeme::Symbol(symbol) => operator_of(symbol),
        _ => None,
    }
}

/// The infix operator that a symbol writes.
#[verifier::opaque]
pub open spec fn operator_of(symbol: Seq<char>) -> Option<SyntaxOperator> {
    if symbol == ">>="@ {
        Some(SyntaxOperator::EffectBind)
    } else if symbol == ">=>"@ {
        Some(SyntaxOperator::KleisliCompose)
    } else if symbol == "=>>"@ {
        Some(SyntaxOperator::EffectThen)
    } else if symbol == "!>"@ {
        Some(SyntaxOperator::ApplicativeForward)
    } else if symbol == "<!"@ {
        Some(SyntaxOperator::ApplicativeBackward)
    } else if symbol == ">="@ {
        Some(SyntaxOperator::Builtin(Builtin::GreaterEqual))
    } else if symbol == "=="@ {
        Some(SyntaxOperator::Builtin(Builtin::Equal))
    } else if symbol == "<>"@ {
        Some(SyntaxOperator::Builtin(Builtin::NotEqual))
    } else if symbol == "=<"@ {
        Some(SyntaxOperator::Builtin(Builtin::LessEqual))
    } else if symbol == ">>"@ {
        Some(SyntaxOperator::ComposeForward)
    } else if symbol == "<<"@ {
        Some(SyntaxOperator::ComposeBackward)
    } else if symbol == "|>"@ {
        Some(SyntaxOperator::PipeForward)
    } else if symbol == "<|"@ {
        Some(SyntaxOperator::PipeBackward)
    } else if symbol == ">"@ {
        Some(SyntaxOperator::Builtin(Builtin::Greater))
    } else if symbol == "<"@ {
        Some(SyntaxOperator::Builtin(Builtin::Less))
    } else if symbol == "++"@ {
        Some(SyntaxOperator::Builtin(Builtin::Append))
    } else if symbol == "*"@ {
        Some(SyntaxOperator::Builtin(Builtin::Multiply))
    } else if symbol == "/"@ {
        Some(SyntaxOperator::Builtin(Builtin::Divide))
    } else if symbol == "+"@ {
        Some(SyntaxOperator::Builtin(Builtin::Add))
    } else if symbol == "-"@ {
        Some(SyntaxOperator::Builtin(Builtin::Subtract))
    } else {
        None
    }
}

/// The word at `i` is not the head of a path or of tagged data.
#[verifier::opaque]
pub open spec fn word_free(l: Lexed, i: int, hi: int) -> bool {
    !(i + 1 < hi && input::is_joint(l, i + 1) && (input::is_symbol(l, i + 1, ":"@)
        || input::is_symbol(l, i + 1, "."@)))
}

/// A word that stands by itself.
#[verifier::opaque]
pub open spec fn stands(l: Lexed, i: int, hi: int, word: Seq<char>) -> bool {
    i < hi && input::is_word(l, i, word) && word_free(l, i, hi)
}

/// The body of the `do` at `i` is in braces.
#[verifier::opaque]
pub open spec fn braced_do(l: Lexed, i: int, hi: int) -> bool {
    let s = input::skip(l, i + 1, hi);
    s < hi && input::opens(l, s, hi, Delimiter::Brace) is Some
}

/// An expression that owns the rest of its range begins at `i`.
#[verifier::opaque]
pub open spec fn owns_tail(l: Lexed, i: int, hi: int) -> bool {
    ||| input::is_symbol(l, i, "\\"@)
    ||| stands(l, i, hi, "if"@)
    ||| stands(l, i, hi, "try"@)
    ||| stands(l, i, hi, "match"@)
    ||| stands(l, i, hi, "try_match"@)
    ||| stands(l, i, hi, "using"@)
    ||| (stands(l, i, hi, "do"@) && !braced_do(l, i, hi))
}

/// The first top-level `with` or `where` before an expression that owns the
/// rest of the range, and whether it is `where`.
#[verifier::opaque]
pub open spec fn clause(l: Lexed, lo: int, hi: int, i: int) -> Option<(int, bool)>
    decreases hi - i,
{
    if i >= hi || owns_tail(l, i, hi) {
        None
    } else if stands(l, i, hi, "where"@) && input::contextual(l, lo, i) {
        Some((i, true))
    } else if stands(l, i, hi, "with"@) && input::contextual(l, lo, i) {
        Some((i, false))
    } else {
        clause(l, lo, hi, input::after(l, i, hi))
    }
}

/// The local name that a range spells.
#[verifier::opaque]
pub open spec fn local_of(l: Lexed, lo: int, hi: int) -> Option<Seq<char>> {
    let (s, e) = input::trim(l, lo, hi);
    if e == s + 1 {
        match input::lexeme(l, s) {
            Lexeme::Name(word) => if local_spelling(word) && !keywords::reserved(
                keywords::unsuppressed(word),
            ) {
                Some(word)
            } else {
                None
            },
            _ => None,
        }
    } else {
        None
    }
}

/// The keyword that a range spells.
#[verifier::opaque]
pub open spec fn keyword_of(l: Lexed, lo: int, hi: int) -> Option<Seq<char>> {
    let (s, e) = input::trim(l, lo, hi);
    if e == s + 1 {
        match input::lexeme(l, s) {
            Lexeme::Name(word) => if keywords::reserved(keywords::unsuppressed(word)) {
                Some(keywords::unsuppressed(word))
            } else {
                None
            },
            _ => None,
        }
    } else {
        None
    }
}

/// The name of an object that a range spells, which may be `self`.
#[verifier::opaque]
pub open spec fn alias_of(l: Lexed, lo: int, hi: int) -> Option<Seq<char>> {
    let (s, e) = input::trim(l, lo, hi);
    if e == s + 1 && input::is_word(l, s, "self"@) {
        Some("self"@)
    } else {
        local_of(l, lo, hi)
    }
}

/// What is wrong with a range that should spell a name.
#[verifier::opaque]
pub open spec fn not_a_name(l: Lexed, lo: int, hi: int, message: Seq<char>) -> Seq<DiagnosticView> {
    match keyword_of(l, lo, hi) {
        Some(word) => fail_view(l, lo, hi, keywords::reserved_message(word)),
        None => fail_view(l, lo, hi, message),
    }
}

/// The items of a list whose separators may lead and trail.
#[verifier::opaque]
pub open spec fn list_parts(l: Lexed, parts: Seq<(int, int)>) -> Seq<(int, int)> {
    let a = if parts.len() > 1 && input::empty(l, parts[0].0, parts[0].1) {
        parts.skip(1)
    } else {
        parts
    };
    if a.len() > 0 && input::empty(l, a.last().0, a.last().1) {
        a.drop_last()
    } else {
        a
    }
}

/// The parts of a range between commas.
pub open spec fn comma_parts(l: Lexed, lo: int, hi: int) -> Seq<(int, int)> {
    input::parts(lo, hi, input::all_marks(l, lo, hi, Mark::Symbol(","@)))
}

pub open spec fn semicolon_parts(l: Lexed, lo: int, hi: int) -> Seq<(int, int)> {
    input::parts(lo, hi, input::all_marks(l, lo, hi, Mark::Symbol(";"@)))
}

/// The parts that hold a token.
#[verifier::opaque]
pub open spec fn nonempty_parts(l: Lexed, parts: Seq<(int, int)>) -> Seq<(int, int)>
    decreases parts.len(),
{
    if parts.len() == 0 {
        Seq::empty()
    } else {
        let rest = nonempty_parts(l, parts.drop_last());
        if input::empty(l, parts.last().0, parts.last().1) {
            rest
        } else {
            rest.push(parts.last())
        }
    }
}

/// The parts of a range as members.
#[verifier::opaque]
pub open spec fn part_members(l: Lexed, parts: Seq<(int, int)>) -> Seq<Member> {
    parts.map_values(
        |p: (int, int)| Member { line: input::view_line(l, p.0, p.1), lo: p.0, hi: p.1 },
    )
}

/// One of the parts holds no token.
#[verifier::opaque]
pub open spec fn has_gap(l: Lexed, parts: Seq<(int, int)>) -> bool {
    exists|k: int|
        0 <= k < parts.len() && input::empty(l, (#[trigger] parts[k]).0, parts[k].1)
}

/// The members of a group in braces, separated by semicolons.
#[verifier::opaque]
pub open spec fn braced_members(l: Lexed, lo: int, hi: int, label: Seq<char>) -> Result<
    Seq<Member>,
    Seq<DiagnosticView>,
> {
    let parts = list_parts(l, semicolon_parts(l, lo, hi));
    if has_gap(l, parts) {
        Err(fail_view(l, lo, hi, label + " contains an empty member between semicolons"@))
    } else {
        Ok(part_members(l, parts))
    }
}

/// The column at which a token begins.
#[verifier::opaque]
pub open spec fn column(l: Lexed, i: int) -> nat {
    let n = input::line(l, i);
    let start = if 1 <= n <= l.line_starts.len() {
        l.line_starts[n - 1]
    } else {
        0
    };
    if l.tokens[i].start >= start {
        (l.tokens[i].start - start) as nat
    } else {
        0
    }
}

/// The term of an alias that may be left out.
pub open spec fn alias_term(alias: Option<Seq<char>>) -> Term {
    match alias {
        Some(name) => term::maybe(Some(Term::Text(name))),
        None => term::maybe(None),
    }
}

pub open spec fn name_term(name: Seq<char>) -> Term {
    term::node(Tag::Name, seq![Term::Text(name)])
}

pub open spec fn key_atom(name: Seq<char>) -> Term {
    term::node(Tag::KeyAtom, seq![Term::Text(name)])
}

/// The key that an expression in a path list computes.
pub open spec fn key_of(expr: Term) -> Term {
    match expr {
        Term::Node(Tag::Atom, parts) => term::node(Tag::KeyAtom, parts),
        _ => term::node(Tag::KeyIndex, seq![expr]),
    }
}

/// An expression followed by a path.
pub open spec fn access(base: Term, keys: Seq<Term>) -> Term {
    if keys.len() == 0 {
        base
    } else {
        term::node(Tag::Access, seq![base, term::many(keys)])
    }
}

/// The chunks of a quoted path: lists of static keys, between spliced paths.
#[verifier::opaque]
pub open spec fn chunks(keys: Seq<Term>, done: Seq<Term>, literal: Seq<Term>) -> Seq<Term>
    decreases keys.len(),
{
    if keys.len() == 0 {
        flush(done, literal)
    } else {
        match keys[0] {
            Term::Node(Tag::KeyAtom, parts) => chunks(
                keys.skip(1),
                done,
                literal.push(term::node(Tag::Atom, parts)),
            ),
            Term::Node(Tag::KeyIndex, parts) => chunks(keys.skip(1), done, literal.push(parts[0])),
            Term::Node(Tag::KeyPathIndex, parts) => chunks(
                keys.skip(1),
                flush(done, literal).push(parts[0]),
                Seq::empty(),
            ),
            _ => done,
        }
    }
}

pub open spec fn flush(done: Seq<Term>, literal: Seq<Term>) -> Seq<Term> {
    if literal.len() == 0 {
        done
    } else {
        done.push(term::node(Tag::List, literal))
    }
}

/// Chunks joined by `++`, from the left.
pub open spec fn appended(chunks: Seq<Term>) -> Term
    decreases chunks.len(),
{
    if chunks.len() == 0 {
        term::node(Tag::List, Seq::empty())
    } else if chunks.len() == 1 {
        chunks[0]
    } else {
        term::node(Tag::Append, seq![appended(chunks.drop_last()), chunks.last()])
    }
}

/// The list that a quoted path denotes.
#[verifier::opaque]
pub open spec fn quoted(keys: Seq<Term>) -> Term {
    appended(chunks(keys, Seq::empty(), Seq::empty()))
}

/// A complete expression. Its continuation lines must clear the floor.
pub open spec fn p_expr(l: Lexed, lo: int, hi: int, context: ExpressionContext) -> Out
    decreases hi - lo, 50nat, 0nat,
{
    let errors = expression_context::floor_errors(l, lo, hi, context);
    let (s, e) = input::trim(l, lo, hi);
    if errors.len() > 0 {
        Err(errors)
    } else if !(inside(s, e, lo, hi) && s < e) {
        Err(expected(l, hi, hi, "expression"@))
    } else {
        p_structural(l, s, e, expression_context::validated(context))
    }
}

/// An expression with its clauses. A word that stands alone begins no clause.
pub open spec fn p_structural(l: Lexed, lo: int, hi: int, context: ExpressionContext) -> Out
    decreases hi - lo, 48nat, 0nat,
{
    if hi == lo + 1 {
        p_ordinary(l, lo, hi, context)
    } else if stands(l, lo, hi, "let"@) {
        p_let(l, lo, hi, context)
    } else if object_head(l, lo, hi) is Some {
        p_object(l, lo, hi, context)
    } else {
        match clause(l, lo, hi, lo) {
            None => p_ordinary(l, lo, hi, context),
            Some((w, true)) => if !(lo <= w < hi) {
                Err(stuck())
            } else if input::empty(l, lo, w) {
                Err(fail_at(l, w, hi, "where expression requires a body"@))
            } else {
                match p_expr(l, lo, w, context) {
                    Err(errors) => Err(errors),
                    Ok(body) => match p_bindings(l, w, hi, context) {
                        Err(errors) => Err(errors),
                        Ok(bindings) => Ok(term::node(Tag::Let, seq![term::many(bindings), body])),
                    },
                }
            },
            Some((w, false)) => if !(lo <= w < hi) {
                Err(stuck())
            } else {
                p_with(l, lo, hi, w, context)
            },
        }
    }
}

/// The base of a `with` expression, and its alias.
#[verifier::opaque]
pub open spec fn with_head(l: Lexed, lo: int, w: int) -> Result<
    (int, Option<Seq<char>>),
    Seq<DiagnosticView>,
> {
    let marks = input::all_marks(l, lo, w, Mark::Word("as"@));
    if marks.len() == 0 {
        Ok((w, None))
    } else {
        let a = marks.last();
        match alias_of(l, a + 1, w) {
            Some(name) => Ok(
                (
                    a,
                    if name == "_"@ {
                        None
                    } else {
                        Some(name)
                    },
                ),
            ),
            None => Err(not_a_name(l, a + 1, w, "`as` requires a valid alias name"@)),
        }
    }
}

/// An expression with the `with` clause at `w`, and what follows it.
pub open spec fn p_with(l: Lexed, lo: int, hi: int, w: int, context: ExpressionContext) -> Out
    decreases hi - lo, 46nat, 0nat,
{
    match p_with_part(l, lo, hi, w, context) {
        Err(errors) => Err(errors),
        Ok((body, after)) => p_rest(l, lo, after, hi, body, context),
    }
}

/// An expression with the `with` clause at `w`, and the position after it.
pub open spec fn p_with_part(
    l: Lexed,
    lo: int,
    hi: int,
    w: int,
    context: ExpressionContext,
) -> Part
    decreases hi - lo, 45nat, 0nat,
{
    match with_head(l, lo, w) {
        Err(errors) => Err(errors),
        Ok((end, alias)) => if !(lo <= end <= w < hi) {
            Err(stuck())
        } else if input::empty(l, lo, end) {
            Err(fail_at(l, w, hi, "with expression requires a base expression"@))
        } else {
            match p_expr(l, lo, end, context) {
                Err(errors) => Err(errors),
                Ok(base) => match p_with_body(l, w, hi, context) {
                    Err(errors) => Err(errors),
                    Ok((items, after)) => Ok(
                        (
                            term::node(
                                Tag::With,
                                seq![base, alias_term(alias), term::many(items)],
                            ),
                            after,
                        ),
                    ),
                },
            }
        },
    }
}

/// The members of the body of the `with` at `w`, and the position after them.
pub open spec fn p_with_body(l: Lexed, w: int, hi: int, context: ExpressionContext) -> Parts
    decreases hi - w, 44nat, 0nat,
{
    let s = input::skip(l, w + 1, hi);
    if s >= hi {
        Err(
            fail_at(
                l,
                w,
                hi,
                "`with` requires a body; use `with {}` for an explicit empty body"@,
            ),
        )
    } else {
        match input::opens(l, s, hi, Delimiter::Brace) {
            Some(c) => match braced_members(l, s + 1, c, "`with` body"@) {
                Err(errors) => Err(errors),
                Ok(members) => {
                    let (items, errors) = p_members(l, members, w + 1, hi, context);
                    if errors.len() > 0 {
                        Err(errors)
                    } else {
                        Ok((items, c + 1))
                    }
                },
            },
            None => match layout::block(l, w + 1, hi, LayoutBase::FirstLine) {
                Err((line, message)) => Err(fail(line, message)),
                Ok(block) => {
                    let (items, errors) = p_members(l, block.members, w + 1, hi, context);
                    if errors.len() > 0 {
                        Err(errors)
                    } else {
                        Ok((items, block.end))
                    }
                },
            },
        }
    }
}

/// What follows a layout body: nothing, or a `where` clause.
pub open spec fn p_rest(
    l: Lexed,
    lo: int,
    from: int,
    hi: int,
    body: Term,
    context: ExpressionContext,
) -> Out
    decreases hi - lo, 43nat, 0nat,
{
    let k = input::skip(l, from, hi);
    if k >= hi {
        Ok(body)
    } else if !(lo < k) {
        Err(stuck())
    } else if stands(l, k, hi, "where"@) {
        match p_bindings(l, k, hi, context) {
            Err(errors) => Err(errors),
            Ok(bindings) => Ok(term::node(Tag::Let, seq![term::many(bindings), body])),
        }
    } else {
        Err(fail_at(l, k, hi, "expression continues after its layout body"@))
    }
}

/// An expression and the position after it. In a context that permits it, an
/// expression with a layout body leaves what follows the body, unless that is
/// a `where` clause.
pub open spec fn p_extent(l: Lexed, lo: int, hi: int, context: ExpressionContext) -> Part {
    let errors = expression_context::floor_errors(l, lo, hi, context);
    let (s, e) = input::trim(l, lo, hi);
    let own = expression_context::validated(context);
    if context.extent == ExpressionExtent::MayYield && errors.len() == 0 && lo <= s && s + 1 < e
        && e <= hi && !stands(l, s, e, "let"@) {
        if object_head(l, s, e) is Some {
            p_yielded(l, s, e, hi, p_object_part(l, s, e, own), own)
        } else {
            match clause(l, s, e, s) {
                Some((w, false)) => p_yielded(l, s, e, hi, p_with_part(l, s, e, w, own), own),
                _ => p_whole(l, lo, hi, context),
            }
        }
    } else {
        p_whole(l, lo, hi, context)
    }
}

/// An expression that is all of its range.
pub open spec fn p_whole(l: Lexed, lo: int, hi: int, context: ExpressionContext) -> Part {
    match p_expr(l, lo, hi, context) {
        Err(errors) => Err(errors),
        Ok(expr) => Ok((expr, hi)),
    }
}

/// An expression with a layout body, which leaves what follows the body.
pub open spec fn p_yielded(
    l: Lexed,
    s: int,
    e: int,
    hi: int,
    part: Part,
    context: ExpressionContext,
) -> Part {
    match part {
        Err(errors) => Err(errors),
        Ok((body, after)) => {
            let k = input::skip(l, after, e);
            if k < e && !stands(l, k, e, "where"@) {
                Ok((body, after))
            } else {
                match p_rest(l, s, after, e, body, context) {
                    Err(errors) => Err(errors),
                    Ok(expr) => Ok((expr, hi)),
                }
            }
        },
    }
}

/// The bindings of the clause whose word stands at `at`.
pub open spec fn p_bindings(l: Lexed, at: int, hi: int, context: ExpressionContext) -> Outs
    decreases hi - at, 42nat, 0nat,
{
    let s = input::skip(l, at + 1, hi);
    if s >= hi {
        Err(fail_at(l, at, hi, "let expression requires at least one binding"@))
    } else {
        match binding_members(l, at, hi) {
            Err(errors) => Err(errors),
            Ok(members) => if members.len() == 0 {
                Err(fail_at(l, at, hi, "let expression requires at least one binding"@))
            } else {
                p_binding_list(l, members, at + 1, hi, context)
            },
        }
    }
}

/// The bindings of a clause: in braces, in a layout block, or separated by
/// semicolons.
#[verifier::opaque]
pub open spec fn binding_members(l: Lexed, at: int, hi: int) -> Result<
    Seq<Member>,
    Seq<DiagnosticView>,
> {
    let s = input::skip(l, at + 1, hi);
    let braces = input::opens(l, s, hi, Delimiter::Brace);
    if braces matches Some(c) && input::empty(l, c + 1, hi) {
        braced_members(l, s + 1, braces->0, "binding group"@)
    } else if s > at + 1 {
        match layout::statements(l, at + 1, hi, LayoutBase::FirstLine) {
            Err((line, message)) => Err(fail(line, message)),
            Ok(members) => Ok(members),
        }
    } else {
        Ok(part_members(l, nonempty_parts(l, semicolon_parts(l, at + 1, hi))))
    }
}

pub open spec fn p_binding_list(
    l: Lexed,
    members: Seq<Member>,
    lo: int,
    hi: int,
    context: ExpressionContext,
) -> Outs
    decreases hi - lo, 60nat, members.len(),
{
    if members.len() == 0 {
        Ok(Seq::empty())
    } else {
        let m = members.last();
        match p_binding_list(l, members.drop_last(), lo, hi, context) {
            Err(errors) => Err(errors),
            Ok(done) => if !inside(m.lo, m.hi, lo, hi) {
                Err(stuck())
            } else {
                match p_binding(l, m.lo, m.hi, context) {
                    Err(errors) => Err(errors),
                    Ok(binding) => Ok(done.push(binding)),
                }
            },
        }
    }
}

/// One binding: a local name, `=`, and a value.
pub open spec fn p_binding(l: Lexed, lo: int, hi: int, context: ExpressionContext) -> Out
    decreases hi - lo, 58nat, 0nat,
{
    let marks = input::all_marks(l, lo, hi, Mark::Symbol("="@));
    if marks.len() == 0 {
        Err(fail_view(l, lo, hi, "local binding must use `=`"@))
    } else {
        let eq = marks[0];
        match local_of(l, lo, eq) {
            None => Err(not_a_name(l, lo, eq, "invalid local binding name"@)),
            Some(name) => if !(lo <= eq < hi) {
                Err(stuck())
            } else if input::empty(l, eq + 1, hi) {
                Err(
                    fail_view(l, lo, hi, "local binding `"@ + name + "` requires a value"@),
                )
            } else {
                match p_expr(
                    l,
                    eq + 1,
                    hi,
                    expression_context::child(context, l, eq + 1, hi),
                ) {
                    Err(errors) => Err(errors),
                    Ok(value) => Ok(term::node(Tag::Binding, seq![Term::Text(name), value])),
                }
            },
        }
    }
}

/// The rows of a multiline `let`: the bindings before the body, and the body.
#[verifier::opaque]
pub open spec fn let_rows(
    l: Lexed,
    rows: Seq<Row>,
    column: nat,
    members: Seq<Member>,
) -> Result<(Seq<Member>, int), Seq<DiagnosticView>>
    decreases rows.len(),
{
    if rows.len() == 0 {
        Err(fail(members.last().line, "multi-line let expression requires a body"@))
    } else {
        let row = rows[0];
        if row.indentation > column {
            let_rows(
                l,
                rows.skip(1),
                column,
                members.drop_last().push(Member { hi: row.hi, ..members.last() }),
            )
        } else if row.indentation == column {
            let_rows(
                l,
                rows.skip(1),
                column,
                members.push(Member { line: row.line, lo: row.lo, hi: row.hi }),
            )
        } else if input::all_marks(l, row.lo, row.hi, Mark::Symbol("="@)).len() > 0 {
            Err(
                fail(
                    row.line,
                    "multi-line let binding names must align under the first binding"@,
                ),
            )
        } else {
            Ok((members, row.lo))
        }
    }
}

/// The bindings of the `let` at `lo`, and where its body begins.
#[verifier::opaque]
pub open spec fn let_parts(l: Lexed, lo: int, hi: int) -> Result<
    (Seq<Member>, int),
    Seq<DiagnosticView>,
> {
    let marks = input::all_marks(l, lo + 1, hi, Mark::Word("in"@));
    let rows = layout::rows(l, lo + 1, hi);
    if marks.len() > 0 {
        let q = marks[0];
        if input::all_marks(l, lo + 1, q, Mark::LineStart).len() > 0 {
            Err(fail_at(l, lo, hi, "multi-line let expression must not use `in`"@))
        } else {
            Ok((part_members(l, nonempty_parts(l, semicolon_parts(l, lo + 1, q))), q + 1))
        }
    } else if rows.len() < 2 {
        Err(fail_at(l, lo, hi, "multi-line let expression requires a body or `in`"@))
    } else {
        let first = rows[0];
        let_rows(
            l,
            rows.skip(1),
            column(l, input::skip(l, lo + 1, hi)),
            seq![Member { line: first.line, lo: first.lo, hi: first.hi }],
        )
    }
}

/// A `let` expression.
pub open spec fn p_let(l: Lexed, lo: int, hi: int, context: ExpressionContext) -> Out
    decreases hi - lo, 46nat, 0nat,
{
    if input::empty(l, lo + 1, hi) {
        Err(fail_at(l, lo, hi, "let expression requires bindings and a body"@))
    } else {
        match let_parts(l, lo, hi) {
            Err(errors) => Err(errors),
            Ok((members, body)) => if !(lo < body <= hi) {
                Err(stuck())
            } else if members.len() == 0 {
                Err(fail_at(l, lo, hi, "let expression requires at least one binding"@))
            } else if input::empty(l, body, hi) {
                Err(fail_at(l, lo, hi, "let expression requires a body"@))
            } else {
                match p_binding_list(l, members, lo + 1, hi, context) {
                    Err(errors) => Err(errors),
                    Ok(bindings) => match p_expr(l, body, hi, context) {
                        Err(errors) => Err(errors),
                        Ok(body) => Ok(term::node(Tag::Let, seq![term::many(bindings), body])),
                    },
                }
            },
        }
    }
}

/// The `object` of an object expression, and whether it is abstract.
#[verifier::opaque]
pub open spec fn object_head(l: Lexed, lo: int, hi: int) -> Option<(int, bool)> {
    if stands(l, lo, hi, "object"@) {
        Some((lo, false))
    } else if stands(l, lo, hi, "abstract"@) {
        let k = input::skip(l, lo + 1, hi);
        if stands(l, k, hi, "object"@) {
            Some((k, true))
        } else {
            None
        }
    } else {
        None
    }
}

/// The positions of `as`, of `extends`, and the end of what they follow.
#[verifier::opaque]
pub open spec fn header_marks(l: Lexed, lo: int, hi: int) -> (Option<int>, Option<int>, int) {
    let ases = input::all_marks(l, lo, hi, Mark::Word("as"@));
    let extends = input::all_marks(l, lo, hi, Mark::Word("extends"@));
    let a = if ases.len() > 0 {
        Some(ases[0])
    } else {
        None
    };
    let x = if extends.len() > 0 {
        Some(extends[0])
    } else {
        None
    };
    (
        a,
        x,
        match (a, x) {
            (Some(i), Some(j)) => if i < j {
                i
            } else {
                j
            },
            (Some(i), None) => i,
            (None, Some(j)) => j,
            (None, None) => hi,
        },
    )
}

/// The end of an object header: its `with`, or the end of the range.
#[verifier::opaque]
pub open spec fn header_end(l: Lexed, lo: int, hi: int) -> int {
    let marks = input::all_marks(l, lo, hi, Mark::Word("with"@));
    if marks.len() > 0 {
        marks[0]
    } else {
        hi
    }
}

/// The alias that a header gives after `as`.
#[verifier::opaque]
pub open spec fn header_alias(
    l: Lexed,
    a: Option<int>,
    x: Option<int>,
    end: int,
) -> Result<Option<Seq<char>>, Seq<DiagnosticView>> {
    match a {
        None => Ok(None),
        Some(i) => {
            let stop = match x {
                Some(j) => j,
                None => end,
            };
            match alias_of(l, i + 1, stop) {
                Some(name) => Ok(Some(name)),
                None => Err(not_a_name(l, i + 1, stop, "`as` requires a valid object alias name"@)),
            }
        },
    }
}

/// The parents that a header gives after `extends`.
pub open spec fn p_parents(
    l: Lexed,
    x: Option<int>,
    lo: int,
    end: int,
    context: ExpressionContext,
) -> Outs
    decreases end - lo, 53nat, 0nat,
{
    match x {
        None => Ok(Seq::empty()),
        Some(j) => if !(lo <= j < end) {
            Err(stuck())
        } else {
            let parts = nonempty_parts(l, comma_parts(l, j + 1, end));
            if parts.len() == 0 {
                Err(fail_at(l, j, end, "object `extends` requires at least one dependency"@))
            } else {
                p_items(l, parts, j + 1, end, context, ItemKind::Expr)
            }
        },
    }
}

/// An object expression, and what follows it.
pub open spec fn p_object(l: Lexed, lo: int, hi: int, context: ExpressionContext) -> Out
    decreases hi - lo, 46nat, 0nat,
{
    match p_object_part(l, lo, hi, context) {
        Err(errors) => Err(errors),
        Ok((body, after)) => p_rest(l, lo, after, hi, body, context),
    }
}

/// An object expression, and the position after it.
pub open spec fn p_object_part(l: Lexed, lo: int, hi: int, context: ExpressionContext) -> Part
    decreases hi - lo, 45nat, 0nat,
{
    match object_head(l, lo, hi) {
        None => Err(stuck()),
        Some((head, is_abstract)) => {
            let h = head + 1;
            let end = header_end(l, h, hi);
            let (a, x, stop) = header_marks(l, h, end);
            if !(lo <= head < h && h <= stop <= end && end <= hi) {
                Err(stuck())
            } else if input::empty(l, h, stop) {
                Err(
                    fail_at(l, head, hi, "object expression requires a name expression or `_`"@),
                )
            } else if a matches Some(i) && x matches Some(j) && i >= j {
                Err(fail_at(l, head, hi, "object expression `as` must precede `extends`"@))
            } else {
                let (s, e) = input::trim(l, h, stop);
                let anonymous = e == s + 1 && input::is_word(l, s, "_"@);
                let name = if anonymous {
                    Ok(term::maybe(None))
                } else {
                    match p_expr(l, h, stop, context) {
                        Ok(name) => Ok(term::maybe(Some(name))),
                        Err(errors) => Err(errors),
                    }
                };
                match name {
                    Err(errors) => Err(errors),
                    Ok(name) => match header_alias(l, a, x, end) {
                        Err(errors) => Err(errors),
                        Ok(alias) => match p_parents(l, x, h, end, context) {
                            Err(errors) => Err(errors),
                            Ok(deps) => {
                                let body: Parts = if end < hi {
                                    p_with_body(l, end, hi, context)
                                } else {
                                    Ok((Seq::empty(), hi))
                                };
                                match body {
                                    Err(errors) => Err(errors),
                                    Ok((items, after)) => Ok(
                                        (
                                            term::node(
                                                Tag::Object,
                                                seq![
                                                    Term::Flag(is_abstract),
                                                    name,
                                                    alias_term(alias),
                                                    term::many(deps),
                                                    term::many(items),
                                                ],
                                            ),
                                            after,
                                        ),
                                    ),
                                }
                            },
                        },
                    },
                }
            }
        },
    }
}

/// What the parts of a list are.
pub enum ItemKind {
    Expr,
    Key,
    Entry,
    Pattern,
}

/// What is said of a part that holds nothing.
pub open spec fn gap_message(kind: ItemKind) -> Seq<char> {
    match kind {
        ItemKind::Key => "path contains an empty key between commas"@,
        _ => "list contains an empty item between commas"@,
    }
}

/// The terms of the parts of a list.
pub open spec fn p_items(
    l: Lexed,
    parts: Seq<(int, int)>,
    lo: int,
    hi: int,
    context: ExpressionContext,
    kind: ItemKind,
) -> Outs
    decreases hi - lo, 61nat, parts.len(),
{
    if parts.len() == 0 {
        Ok(Seq::empty())
    } else {
        let (s, e) = parts.last();
        match p_items(l, parts.drop_last(), lo, hi, context, kind) {
            Err(errors) => Err(errors),
            Ok(done) => if !inside(s, e, lo, hi) {
                Err(stuck())
            } else if input::empty(l, s, e) {
                Err(fail_view(l, lo, hi, gap_message(kind)))
            } else {
                match p_item(l, s, e, context, kind) {
                    Err(errors) => Err(errors),
                    Ok(item) => Ok(done.push(item)),
                }
            },
        }
    }
}

pub open spec fn p_item(
    l: Lexed,
    lo: int,
    hi: int,
    context: ExpressionContext,
    kind: ItemKind,
) -> Out
    decreases hi - lo, 59nat, 0nat,
{
    match kind {
        ItemKind::Expr => p_expr(l, lo, hi, context),
        ItemKind::Key => match p_expr(l, lo, hi, context) {
            Ok(expr) => Ok(key_of(expr)),
            Err(errors) => Err(errors),
        },
        ItemKind::Entry => p_entry(l, lo, hi, context),
        ItemKind::Pattern => p_pattern(l, lo, hi, context),
    }
}

/// An item of a dictionary: a path with a value, or a dictionary.
pub open spec fn p_entry(l: Lexed, lo: int, hi: int, context: ExpressionContext) -> Out
    decreases hi - lo, 55nat, 0nat,
{
    let (s, e) = input::trim(l, lo, hi);
    if !(inside(s, e, lo, hi) && s < e) {
        Err(stuck())
    } else if !path_starts(l, s, e) {
        p_expr(l, lo, hi, context)
    } else {
        match p_path(l, s, e, context) {
            Err(errors) => Err(errors),
            Ok((path, j)) => {
                let k = input::skip(l, j, e);
                if s < j <= k && k < e && input::is_symbol(l, k, ":"@) {
                    match p_expr(l, k + 1, e, context) {
                        Err(errors) => Err(errors),
                        Ok(value) => Ok(
                            term::node(Tag::PathDict, seq![term::many(path), value]),
                        ),
                    }
                } else {
                    p_expr(l, lo, hi, context)
                }
            },
        }
    }
}

/// The end of the path that begins at `i`, read without its contents.
#[verifier::opaque]
pub open spec fn path_end(l: Lexed, i: int, hi: int) -> int
    decreases hi - i,
{
    if i + 1 < hi && input::is_symbol(l, i, "."@) && input::is_joint(l, i) && input::is_joint(
        l,
        i + 1,
    ) {
        match input::lexeme(l, i + 1) {
            Lexeme::Name(_) => path_end(l, i + 2, hi),
            Lexeme::Open(_, _) => match input::close_of(l, i + 1, hi) {
                Some(c) => path_end(l, c + 1, hi),
                None => i,
            },
            _ => i,
        }
    } else {
        i
    }
}

/// A path followed by `:` begins at `i`.
#[verifier::opaque]
pub open spec fn path_starts(l: Lexed, i: int, hi: int) -> bool {
    let j = match input::lexeme(l, i) {
        Lexeme::Name(word) => if lettered(word) {
            path_end(l, i + 1, hi)
        } else {
            hi
        },
        Lexeme::Open(_, Delimiter::Bracket) => match input::close_of(l, i, hi) {
            Some(c) => c + 1,
            None => hi,
        },
        Lexeme::Open(_, Delimiter::Parenthesis) => match input::close_of(l, i, hi) {
            Some(c) => c + 1,
            None => hi,
        },
        _ => hi,
    };
    let k = input::skip(l, j, hi);
    k < hi && input::is_symbol(l, k, ":"@)
}

/// The steps of a path that follow `i`.
pub open spec fn p_suffixes(
    l: Lexed,
    i: int,
    hi: int,
    context: ExpressionContext,
    done: Seq<Term>,
) -> Parts
    decreases hi - i, 40nat, 0nat,
{
    if !(i < hi && input::is_symbol(l, i, "."@) && input::is_joint(l, i)) {
        Ok((done, i))
    } else if !(i + 1 < hi && input::is_joint(l, i + 1)) {
        Err(fail_at(l, i, hi, "path suffix key must immediately follow `.`"@))
    } else {
        match input::lexeme(l, i + 1) {
            Lexeme::Name(word) => if lettered(word) {
                p_suffixes(l, i + 2, hi, context, done.push(key_atom(word)))
            } else {
                Err(expected(l, i + 1, hi, "a name beginning with a letter"@))
            },
            Lexeme::Open(_, _) => match p_step(l, i + 1, hi, context) {
                Err(errors) => Err(errors),
                Ok((keys, j)) => if !(i + 1 < j <= hi) {
                    Err(stuck())
                } else {
                    p_suffixes(l, j, hi, context, done + keys)
                },
            },
            _ => Err(expected(l, i + 1, hi, "a name, list, or parenthesized path"@)),
        }
    }
}

/// The keys of a bracketed list, or of a parenthesized path, at `i`.
pub open spec fn p_step(l: Lexed, i: int, hi: int, context: ExpressionContext) -> Parts
    decreases hi - i, 10nat, 0nat,
{
    match input::opens(l, i, hi, Delimiter::Bracket) {
        Some(c) => match p_items(
            l,
            list_parts(l, comma_parts(l, i + 1, c)),
            i + 1,
            c,
            context,
            ItemKind::Key,
        ) {
            Err(errors) => Err(errors),
            Ok(keys) => Ok((keys, c + 1)),
        },
        None => match input::opens(l, i, hi, Delimiter::Parenthesis) {
            Some(c) => if input::empty(l, i + 1, c) {
                Err(fail_at(l, i, hi, "path splice requires an expression"@))
            } else {
                match p_expr(l, i + 1, c, context) {
                    Err(errors) => Err(errors),
                    Ok(expr) => Ok((seq![term::node(Tag::KeyPathIndex, seq![expr])], c + 1)),
                }
            },
            None => Err(expected(l, i, hi, "a name, list, or parenthesized path"@)),
        },
    }
}

/// The path of tagged data or of a dictionary at `i`.
pub open spec fn p_path(l: Lexed, i: int, hi: int, context: ExpressionContext) -> Parts
    decreases hi - i, 42nat, 0nat,
{
    if !(i < hi) {
        Err(expected(l, i, hi, "a path"@))
    } else {
        match input::lexeme(l, i) {
            Lexeme::Name(word) => if lettered(word) {
                p_suffixes(l, i + 1, hi, context, seq![key_atom(word)])
            } else {
                Err(expected(l, i, hi, "a path"@))
            },
            Lexeme::Open(_, _) => match p_step(l, i, hi, context) {
                Err(errors) => Err(errors),
                Ok((keys, j)) => if keys.len() == 0 {
                    Err(fail_at(l, i, hi, "path requires at least one path component"@))
                } else {
                    Ok((keys, j))
                },
            },
            _ => Err(expected(l, i, hi, "a path"@)),
        }
    }
}

/// An expression without clauses: operands between infix operators.
pub open spec fn p_ordinary(l: Lexed, lo: int, hi: int, context: ExpressionContext) -> Out
    decreases hi - lo, 44nat, 0nat,
{
    match p_application(l, lo, hi, context) {
        Err(errors) => Err(errors),
        Ok((first, j)) => if !(lo < j <= hi) {
            Err(stuck())
        } else {
            match p_links(l, j, hi, context, Seq::empty(), seq![first]) {
                Err(errors) => Err(errors),
                Ok((ops, operands)) => match infix::resolved(ops) {
                    Ok(tree) => Ok(infix::tree_term(tree, operands)),
                    Err(message) => Err(fail_view(l, lo, hi, message)),
                },
            }
        },
    }
}

/// The operators and operands that follow `j`.
pub open spec fn p_links(
    l: Lexed,
    j: int,
    hi: int,
    context: ExpressionContext,
    ops: Seq<SyntaxOperator>,
    operands: Seq<Term>,
) -> Result<(Seq<SyntaxOperator>, Seq<Term>), Seq<DiagnosticView>>
    decreases hi - j, 43nat, 0nat,
{
    let k = input::skip(l, j, hi);
    if k >= hi {
        Ok((ops, operands))
    } else {
        match operator_at(l, k) {
            None => Err(expected(l, k, hi, "an operator or a separated argument"@)),
            Some(op) => {
                let n = input::skip(l, k + 1, hi);
                if n >= hi {
                    Err(expected(l, n, hi, "an operand"@))
                } else if !(j <= k < n) {
                    Err(stuck())
                } else {
                    match p_application(l, n, hi, context) {
                        Err(errors) => Err(errors),
                        Ok((operand, e)) => if !(n < e <= hi) {
                            Err(stuck())
                        } else {
                            p_links(l, e, hi, context, ops.push(op), operands.push(operand))
                        },
                    }
                }
            },
        }
    }
}

/// An operand: a function and its arguments.
pub open spec fn p_application(l: Lexed, i: int, hi: int, context: ExpressionContext) -> Part
    decreases hi - i, 40nat, 0nat,
{
    match p_head(l, i, hi, context) {
        Err(errors) => Err(errors),
        Ok((head, j)) => if !(i < j <= hi) {
            Err(stuck())
        } else {
            p_arguments(l, j, hi, context, head)
        },
    }
}

pub open spec fn dot_message() -> Seq<char> {
    "dot-leading application arguments must be parenthesized, as in `f (.bar)`, or passed with `<|`"@
}

/// The arguments that follow `j`. Each is separated from what precedes it.
pub open spec fn p_arguments(
    l: Lexed,
    j: int,
    hi: int,
    context: ExpressionContext,
    function: Term,
) -> Part
    decreases hi - j, 39nat, 0nat,
{
    let k = input::skip(l, j, hi);
    if k >= hi || operator_at(l, k) is Some {
        Ok((function, j))
    } else if k == j && input::is_joint(l, k) {
        Err(expected(l, k, hi, "an operator or a separated argument"@))
    } else if input::is_symbol(l, k, "."@) {
        Err(fail_at(l, k, hi, dot_message()))
    } else if !(j <= k) {
        Err(stuck())
    } else {
        match p_head(l, k, hi, context) {
            Err(errors) => Err(errors),
            Ok((argument, e)) => if !(k < e <= hi) {
                Err(stuck())
            } else {
                p_arguments(
                    l,
                    e,
                    hi,
                    context,
                    term::node(Tag::Apply, seq![function, argument]),
                )
            },
        }
    }
}

/// A function, an argument, or an expression that owns the rest of its range.
pub open spec fn p_head(l: Lexed, i: int, hi: int, context: ExpressionContext) -> Part
    decreases hi - i, 36nat, 0nat,
{
    if !(i < hi) {
        Err(expected(l, i, hi, "expression"@))
    } else if input::is_symbol(l, i, "\\"@) {
        match p_lambda(l, i, hi, context) {
            Err(errors) => Err(errors),
            Ok(lambda) => Ok((lambda, hi)),
        }
    } else if stands(l, i, hi, "if"@) {
        p_if(l, i, hi, context, false)
    } else if stands(l, i, hi, "try"@) {
        p_if(l, i, hi, context, true)
    } else if stands(l, i, hi, "match"@) {
        p_match(l, i, hi, context, false)
    } else if stands(l, i, hi, "try_match"@) {
        p_match(l, i, hi, context, true)
    } else if stands(l, i, hi, "using"@) {
        match p_using(l, i, hi, context) {
            Err(errors) => Err(errors),
            Ok(scoped) => Ok((scoped, hi)),
        }
    } else {
        p_atom(l, i, hi, context)
    }
}

/// The parameters that follow `j`, and the position after their `->`.
#[verifier::opaque]
pub open spec fn p_params(l: Lexed, j: int, hi: int, done: Seq<Seq<char>>) -> Result<
    (Seq<Seq<char>>, int),
    Seq<DiagnosticView>,
>
    decreases hi - j,
{
    let k = input::skip(l, j, hi);
    if k >= hi {
        Err(expected(l, k, hi, "`->`"@))
    } else if input::is_symbol(l, k, "->"@) {
        if done.len() == 0 {
            Err(expected(l, k, hi, "local name"@))
        } else {
            Ok((done, k + 1))
        }
    } else {
        match local_of(l, k, k + 1) {
            Some(name) => if j <= k {
                p_params(l, k + 1, hi, done.push(name))
            } else {
                Err(stuck())
            },
            None => match keyword_of(l, k, k + 1) {
                Some(word) => Err(fail_at(l, k, hi, keywords::reserved_message(word))),
                None => Err(expected(l, k, hi, "local name"@)),
            },
        }
    }
}

/// A lambda, which owns the rest of its range.
pub open spec fn p_lambda(l: Lexed, i: int, hi: int, context: ExpressionContext) -> Out
    decreases hi - i, 34nat, 0nat,
{
    match p_params(l, i + 1, hi, Seq::empty()) {
        Err(errors) => Err(errors),
        Ok((params, b)) => if !(i < b <= hi) {
            Err(stuck())
        } else if input::empty(l, b, hi) {
            Err(expected(l, hi, hi, "expression"@))
        } else {
            match p_expr(l, b, hi, context) {
                Err(errors) => Err(errors),
                Ok(body) => Ok(
                    term::node(
                        Tag::Lambda,
                        seq![term::many(term::spelled(params)), body],
                    ),
                ),
            }
        },
    }
}

/// An atom followed by a path.
pub open spec fn p_accessed(
    l: Lexed,
    base: Term,
    j: int,
    hi: int,
    context: ExpressionContext,
) -> Part
    decreases hi - j, 41nat, 0nat,
{
    match p_suffixes(l, j, hi, context, Seq::empty()) {
        Err(errors) => Err(errors),
        Ok((keys, e)) => Ok((access(base, keys), e)),
    }
}

/// The payload of tagged data, joint with the `:` at `k`.
pub open spec fn p_payload(
    l: Lexed,
    path: Seq<Term>,
    k: int,
    hi: int,
    context: ExpressionContext,
) -> Part
    decreases hi - k, 37nat, 0nat,
{
    if !(k + 1 < hi && input::is_joint(l, k + 1)) {
        Err(fail_at(l, k, hi, "tagged data must immediately follow `:`"@))
    } else {
        match p_atom(l, k + 1, hi, context) {
            Err(errors) => Err(errors),
            Ok((payload, e)) => Ok(
                (term::node(Tag::PathDict, seq![term::many(path), payload]), e),
            ),
        }
    }
}

/// Joint `:` stands at `k`.
pub open spec fn tags(l: Lexed, k: int, hi: int) -> bool {
    k < hi && input::is_symbol(l, k, ":"@) && input::is_joint(l, k)
}

/// The smallest expressions.
pub open spec fn p_atom(l: Lexed, i: int, hi: int, context: ExpressionContext) -> Part
    decreases hi - i, 30nat, 0nat,
{
    if !(0 <= i < hi) {
        Err(expected(l, i, hi, "expression"@))
    } else {
        match input::lexeme(l, i) {
            Lexeme::Text(id) => p_accessed(
                l,
                term::node(Tag::Literal, seq![Term::Text(l.texts[id as int].value)]),
                i + 1,
                hi,
                context,
            ),
            Lexeme::Number(literal) => if number::number_literal(literal) {
                p_accessed(
                    l,
                    term::node(Tag::Number, seq![Term::Text(literal)]),
                    i + 1,
                    hi,
                    context,
                )
            } else {
                Err(fail_at(l, i, hi, number_message(literal)))
            },
            Lexeme::Symbol(symbol) => if symbol == "'"@ {
                p_quoted(l, i, hi, context)
            } else if symbol == "^"@ {
                p_escape(l, i, hi, context)
            } else if symbol == "."@ {
                p_effect(l, i, hi)
            } else if symbol == ":"@ {
                if i + 1 < hi && input::is_joint(l, i + 1) {
                    match p_path(l, i + 1, hi, context) {
                        Err(errors) => Err(errors),
                        Ok((path, e)) => Ok((term::node(Tag::TaggedConstructor, path), e)),
                    }
                } else {
                    Err(fail_at(l, i, hi, "tagged constructor path must immediately follow `:`"@))
                }
            } else {
                Err(expected(l, i, hi, "expression"@))
            },
            Lexeme::Open(_, delimiter) => match input::close_of(l, i, hi) {
                None => Err(expected(l, i, hi, "expression"@)),
                Some(c) => if delimiter != Delimiter::Brace && tags(l, c + 1, hi) {
                    match p_step(l, i, hi, context) {
                        Err(errors) => Err(errors),
                        Ok((path, _)) => if path.len() == 0 {
                            Err(fail_at(l, i, hi, "path requires at least one path component"@))
                        } else {
                            p_payload(l, path, c + 1, hi, context)
                        },
                    }
                } else {
                    match p_group(l, i, c, context) {
                        Err(errors) => Err(errors),
                        Ok(group) => p_accessed(l, group, c + 1, hi, context),
                    }
                },
            },
            Lexeme::Embedded(id) => if id < l.embedded.len() {
                p_accessed(l, Term::Data(l.embedded[id as int]), i + 1, hi, context)
            } else {
                Err(expected(l, i, hi, "expression"@))
            },
            Lexeme::Name(word) => p_named(l, i, hi, word, context),
            _ => Err(expected(l, i, hi, "expression"@)),
        }
    }
}

pub open spec fn number_message(literal: Seq<char>) -> Seq<char> {
    number::refusal(literal)
}

/// What a name begins: tagged data, `do`, a reference, or a prior reference.
pub open spec fn p_named(
    l: Lexed,
    i: int,
    hi: int,
    word: Seq<char>,
    context: ExpressionContext,
) -> Part
    decreases hi - i, 29nat, 0nat,
{
    let k = path_end(l, i + 1, hi);
    if !(i < hi) {
        Err(stuck())
    } else if lettered(word) && i < k && tags(l, k, hi) {
        match p_suffixes(l, i + 1, hi, context, seq![key_atom(word)]) {
            Err(errors) => Err(errors),
            Ok((path, e)) => if e != k {
                Err(expected(l, e, hi, "`:`"@))
            } else {
                p_payload(l, path, k, hi, context)
            },
        }
    } else if word == "do"@ && word_free(l, i, hi) {
        match p_do(l, i, hi, context) {
            Err(errors) => Err(errors),
            Ok((block, e)) => if !(i < e <= hi) {
                Err(stuck())
            } else {
                p_accessed(l, block, e, hi, context)
            },
        }
    } else if word.len() > 0 && word[0] == '_' {
        let rest = word.skip(1);
        if !lettered(rest) {
            Err(fail_at(l, i, hi, "expected name after `_`"@))
        } else if !free_name(rest) {
            Err(fail_at(l, i, hi, keywords::reserved_message(rest)))
        } else {
            p_accessed(
                l,
                term::node(Tag::PriorName, seq![Term::Text(rest)]),
                i + 1,
                hi,
                context,
            )
        }
    } else if !free_name(word) {
        Err(fail_at(l, i, hi, keywords::reserved_message(word)))
    } else {
        p_accessed(l, name_term(word), i + 1, hi, context)
    }
}

/// A quoted atom or path.
pub open spec fn p_quoted(l: Lexed, i: int, hi: int, context: ExpressionContext) -> Part
    decreases hi - i, 29nat, 0nat,
{
    if !(i + 1 < hi && input::is_joint(l, i + 1)) {
        Err(fail_at(l, i, hi, "quoted name must immediately follow `'`"@))
    } else if input::is_symbol(l, i + 1, "."@) {
        match p_suffixes(l, i + 1, hi, context, Seq::empty()) {
            Err(errors) => Err(errors),
            Ok((keys, e)) => Ok((quoted(keys), e)),
        }
    } else {
        match input::lexeme(l, i + 1) {
            Lexeme::Name(word) => if lettered(word) {
                p_accessed(
                    l,
                    term::node(Tag::Atom, seq![Term::Text(word)]),
                    i + 2,
                    hi,
                    context,
                )
            } else {
                Err(expected(l, i + 1, hi, "a name beginning with a letter"@))
            },
            _ => Err(expected(l, i + 1, hi, "a name or path"@)),
        }
    }
}

/// The end of a run of joint carets.
#[verifier::opaque]
pub open spec fn carets(l: Lexed, i: int, hi: int) -> int
    decreases hi - i,
{
    if i < hi && input::is_symbol(l, i, "^"@) && input::is_joint(l, i) {
        carets(l, i + 1, hi)
    } else {
        i
    }
}

/// A reference to an outer scope.
pub open spec fn p_escape(l: Lexed, i: int, hi: int, context: ExpressionContext) -> Part
    decreases hi - i, 29nat, 0nat,
{
    let t = carets(l, i + 1, hi);
    let depth = Term::Size((t - i) as nat);
    if !(i < t) {
        Err(stuck())
    } else if !(t < hi && input::is_joint(l, t)) {
        Err(expected(l, t, hi, "an escaped name or expression"@))
    } else {
        match input::lexeme(l, t) {
            Lexeme::Open(_, Delimiter::Parenthesis) => match input::close_of(l, t, hi) {
                None => Err(expected(l, t, hi, "an escaped name or expression"@)),
                Some(c) => match p_expr(l, t + 1, c, context) {
                    Err(errors) => Err(errors),
                    Ok(inner) => p_accessed(
                        l,
                        term::node(Tag::Escape, seq![depth, inner]),
                        c + 1,
                        hi,
                        context,
                    ),
                },
            },
            Lexeme::Name(word) => if !lettered(word) {
                Err(expected(l, t, hi, "an escaped name or expression"@))
            } else if !free_name(word) {
                Err(fail_at(l, t, hi, keywords::reserved_message(word)))
            } else {
                match p_accessed(l, name_term(word), t + 1, hi, context) {
                    Err(errors) => Err(errors),
                    Ok((inner, e)) => Ok((term::node(Tag::Escape, seq![depth, inner]), e)),
                }
            },
            _ => Err(expected(l, t, hi, "an escaped name or expression"@)),
        }
    }
}

/// The names of an effect path that follow `j`.
#[verifier::opaque]
pub open spec fn effect_names(l: Lexed, j: int, hi: int, done: Seq<Seq<char>>) -> (
    Seq<Seq<char>>,
    int,
)
    decreases hi - j,
{
    if j + 1 < hi && input::is_symbol(l, j, "."@) && input::is_joint(l, j + 1) && (done.len() == 0
        || input::is_joint(l, j)) {
        match input::lexeme(l, j + 1) {
            Lexeme::Name(word) => if lettered(word) {
                effect_names(l, j + 2, hi, done.push(word))
            } else {
                (done, j)
            },
            _ => (done, j),
        }
    } else {
        (done, j)
    }
}

/// An effect.
pub open spec fn p_effect(l: Lexed, i: int, hi: int) -> Part {
    let (names, e) = effect_names(l, i, hi, Seq::empty());
    if names.len() == 0 {
        Err(expected(l, i + 1, hi, "an effect name"@))
    } else {
        Ok((term::node(Tag::Effect, term::spelled(names)), e))
    }
}

/// The group between `i` and `c`.
pub open spec fn p_group(l: Lexed, i: int, c: int, context: ExpressionContext) -> Out
    decreases c - i, 28nat, 0nat,
{
    match input::lexeme(l, i) {
        Lexeme::Open(_, Delimiter::Parenthesis) => p_paren(l, i, c, context),
        Lexeme::Open(_, Delimiter::Bracket) => if !(i < c) {
            Err(stuck())
        } else {
            match p_items(
                l,
                list_parts(l, comma_parts(l, i + 1, c)),
                i + 1,
                c,
                context,
                ItemKind::Expr,
            ) {
                Err(errors) => Err(errors),
                Ok(items) => Ok(term::node(Tag::List, items)),
            }
        },
        _ => if !(i < c) {
            Err(stuck())
        } else {
            match p_items(
                l,
                list_parts(l, comma_parts(l, i + 1, c)),
                i + 1,
                c,
                context,
                ItemKind::Entry,
            ) {
                Err(errors) => Err(errors),
                Ok(items) => Ok(term::node(Tag::DictUnion, items)),
            }
        },
    }
}

/// The items of a tuple: what stands before its first comma, if anything, and
/// the parts after it.
#[verifier::opaque]
pub open spec fn tuple_parts(l: Lexed, parts: Seq<(int, int)>) -> Seq<(int, int)> {
    let rest = parts.skip(1);
    let tail = if rest.len() > 0 && input::empty(l, rest.last().0, rest.last().1) {
        rest.drop_last()
    } else {
        rest
    };
    if input::empty(l, parts[0].0, parts[0].1) {
        tail
    } else {
        seq![parts[0]] + tail
    }
}

pub open spec fn section(op: SyntaxOperator, left: Option<Term>, right: Option<Term>) -> Term {
    term::node(
        Tag::OperatorSection,
        seq![Term::Operator(op), term::maybe(left), term::maybe(right)],
    )
}

/// What stands in parentheses: nothing, a tuple, an operator section, or an
/// expression.
pub open spec fn p_paren(l: Lexed, i: int, c: int, context: ExpressionContext) -> Out
    decreases c - i, 27nat, 0nat,
{
    let (s, e) = input::trim(l, i + 1, c);
    let parts = comma_parts(l, i + 1, c);
    if !(i < c && inside(s, e, i + 1, c)) {
        Err(stuck())
    } else if s >= e {
        if i + 1 == c && input::is_joint(l, c) {
            Ok(term::node(Tag::Unit, Seq::empty()))
        } else {
            Err(expected(l, c, c + 1, "expression"@))
        }
    } else if parts.len() > 1 {
        match p_items(l, tuple_parts(l, parts), i + 1, c, context, ItemKind::Expr) {
            Err(errors) => Err(errors),
            Ok(items) => Ok(term::node(Tag::Tuple, items)),
        }
    } else {
        p_section(l, s, e, context)
    }
}

/// An operator section, or an expression.
pub open spec fn p_section(l: Lexed, s: int, e: int, context: ExpressionContext) -> Out
    decreases e - s, 53nat, 0nat,
{
    if !(s < e) {
        Err(stuck())
    } else if operator_at(l, s) is Some && word_free(l, s, e) {
        let op = operator_at(l, s)->0;
        if s + 1 == e {
            Ok(section(op, None, None))
        } else {
            match p_expr(l, s + 1, e, context) {
                Err(errors) => Err(errors),
                Ok(right) => Ok(section(op, None, Some(right))),
            }
        }
    } else if operator_at(l, e - 1) is Some && !(input::lexeme(l, e - 1) is Name && input::is_joint(
        l,
        e - 1,
    )) {
        let op = operator_at(l, e - 1)->0;
        match p_expr(l, s, e - 1, context) {
            Err(errors) => Err(errors),
            Ok(left) => Ok(section(op, Some(left), None)),
        }
    } else {
        p_expr(l, s, e, context)
    }
}

/// The layout of the body of the `do` at `i`, which begins at `s`.
pub open spec fn do_base(l: Lexed, i: int, s: int) -> LayoutBase {
    if s > i + 1 {
        LayoutBase::FirstLine
    } else {
        LayoutBase::Hanging(column(l, s) as usize)
    }
}

pub open spec fn shallow_message(line: nat) -> Seq<char> {
    "layout line "@ + text::decimal(line) + " is indented less than the first statement"@
}

pub open spec fn sibling_message(actual: nat, anchor: nat) -> Seq<char> {
    "layout line is indented "@ + text::decimal(actual)
        + " spaces; expected sibling indentation "@ + text::decimal(anchor)
}

/// What is said of a line that leaves the body of a `do` at `i`.
pub open spec fn strayed(i: int, s: int, row: layout::Row, anchor: nat) -> Seq<char> {
    if s > i + 1 {
        shallow_message(row.line)
    } else {
        sibling_message(row.indentation, anchor)
    }
}

/// A line binds what an operation gives.
pub open spec fn binds(l: Lexed, row: layout::Row) -> bool {
    input::all_marks(l, row.lo, row.hi, Mark::Symbol("<-"@)).len() > 0
}

/// A line ends with a word that begins a layout.
pub open spec fn introduces(l: Lexed, row: layout::Row) -> bool {
    match input::lexeme(l, row.hi - 1) {
        Lexeme::Name(word) => crate::keywords::introduces_layout(word),
        _ => false,
    }
}

/// A line was meant as a statement of its own: it binds, and so does the
/// statement that it continues.
pub open spec fn misplaced(l: Lexed, rows: Seq<layout::Row>, k: int, anchor: nat) -> bool {
    &&& 0 < k < rows.len()
    &&& rows[k].indentation > anchor
    &&& binds(l, rows[k])
    &&& k == 1 || rows[k - 1].indentation == anchor
    &&& binds(l, rows[k - 1])
    &&& !introduces(l, rows[k - 1])
}

/// The first such line from `k` on.
pub open spec fn first_misplaced(
    l: Lexed,
    rows: Seq<layout::Row>,
    k: int,
    anchor: nat,
) -> Option<layout::Row>
    decreases rows.len() - k,
{
    if k >= rows.len() {
        None
    } else if misplaced(l, rows, k, anchor) {
        Some(rows[k])
    } else {
        first_misplaced(l, rows, k + 1, anchor)
    }
}

/// What is wrong with the statements of the `do` at `i`. Where they begin on
/// its line, a deeper line that binds is told where it belongs.
#[verifier::opaque]
pub open spec fn statement_errors(
    l: Lexed,
    i: int,
    s: int,
    hi: int,
    errors: Seq<DiagnosticView>,
) -> Seq<DiagnosticView> {
    if s > i + 1 {
        errors
    } else {
        match first_misplaced(l, layout::rows(l, i + 1, hi), 0, column(l, s)) {
            Some(row) => fail(row.line, sibling_message(row.indentation, column(l, s))),
            None => errors,
        }
    }
}

/// A `do` block and the position after it.
pub open spec fn p_do(l: Lexed, i: int, hi: int, context: ExpressionContext) -> Part
    decreases hi - i, 26nat, 0nat,
{
    let s = input::skip(l, i + 1, hi);
    if s >= hi {
        Err(fail_at(l, i, hi, "layout do expression requires a newline-delimited block"@))
    } else if !(i < s) {
        Err(stuck())
    } else if s == i + 1 && input::is_joint(l, s) {
        Err(fail_at(l, i, hi, "`do` must be separated from its body"@))
    } else {
        match input::opens(l, s, hi, Delimiter::Brace) {
            Some(c) => if input::empty(l, s + 1, c) {
                Ok((empty_do(input::line(l, i)), c + 1))
            } else {
                let parts = list_parts(l, semicolon_parts(l, s + 1, c));
                if parts.len() == 0 {
                    Err(
                        fail_at(
                            l,
                            i,
                            hi,
                            "`do {;}` is invalid; a semicolon is not an empty computation"@,
                        ),
                    )
                } else if has_gap(l, parts) {
                    Err(
                        fail_at(
                            l,
                            i,
                            hi,
                            "braced do block contains an empty statement between semicolons"@,
                        ),
                    )
                } else {
                    match p_statements(l, part_members(l, parts), i + 1, hi, context) {
                        Err(errors) => Err(errors),
                        Ok(steps) => match finished_do(steps) {
                            Err(message) => Err(fail_at(l, i, hi, message)),
                            Ok(block) => Ok((block, c + 1)),
                        },
                    }
                }
            },
            None => match layout::block(l, i + 1, hi, do_base(l, i, s)) {
                Err((line, message)) => Err(fail(line, message)),
                Ok(block) => match block.boundary {
                    Some(row) => Err(fail(row.line, strayed(i, s, row, block.anchor))),
                    None => if block.members.len() == 0 {
                        Err(
                            fail_at(
                                l,
                                i,
                                hi,
                                "layout do expression requires at least one statement"@,
                            ),
                        )
                    } else {
                        match p_statements(l, block.members, i + 1, hi, context) {
                            Err(errors) => Err(statement_errors(l, i, s, hi, errors)),
                            Ok(steps) => match finished_do(steps) {
                                Err(message) => Err(fail_at(l, i, hi, message)),
                                Ok(block) => Ok((block, hi)),
                            },
                        }
                    },
                },
            },
        }
    }
}

/// The block `do {}`.
#[verifier::opaque]
pub open spec fn empty_do(line: nat) -> Term {
    term::node(
        Tag::Do,
        seq![
            term::many(Seq::empty()),
            Term::Size(line),
            term::node(
                Tag::Apply,
                seq![
                    term::node(Tag::Effect, term::spelled(seq!["r"@])),
                    term::node(Tag::Unit, Seq::empty()),
                ],
            ),
        ],
    )
}

/// The block that statements form: the last one is its result.
#[verifier::opaque]
pub open spec fn finished_do(steps: Seq<Term>) -> Result<Term, Seq<char>> {
    match steps.last() {
        Term::Node(Tag::Step, parts) => match parts[1] {
            Term::Node(Tag::ThenStep, result) => Ok(
                term::node(
                    Tag::Do,
                    seq![term::many(steps.drop_last()), parts[0], result[0]],
                ),
            ),
            Term::Node(Tag::AbstractStep, _) => Err(
                "do block cannot end with an abstract declaration; add its fulfillment and a final expression"@,
            ),
            _ => Err("do block cannot end with a binding; add a final expression"@),
        },
        _ => Err("do block cannot end with a binding; add a final expression"@),
    }
}

pub open spec fn p_statements(
    l: Lexed,
    members: Seq<Member>,
    lo: int,
    hi: int,
    context: ExpressionContext,
) -> Outs
    decreases hi - lo, 65nat, members.len(),
{
    if members.len() == 0 {
        Ok(Seq::empty())
    } else {
        let m = members.last();
        match p_statements(l, members.drop_last(), lo, hi, context) {
            Err(errors) => Err(errors),
            Ok(done) => if !inside(m.lo, m.hi, lo, hi) {
                Err(stuck())
            } else {
                match p_statement(l, m.lo, m.hi, context) {
                    Err(errors) => Err(errors),
                    Ok(statement) => Ok(
                        done.push(term::node(Tag::Step, seq![Term::Size(m.line), statement])),
                    ),
                }
            },
        }
    }
}

/// A statement of a `do` block, which owns its continuation lines.
pub open spec fn p_statement(l: Lexed, lo: int, hi: int, context: ExpressionContext) -> Out
    decreases hi - lo, 63nat, 0nat,
{
    let (s, e) = input::trim(l, lo, hi);
    let own = expression_context::child(context, l, s, e);
    let errors = expression_context::floor_errors(l, s, e, own);
    if errors.len() > 0 {
        Err(errors)
    } else if !(inside(s, e, lo, hi) && s < e) {
        Err(expected(l, hi, hi, "a statement"@))
    } else if stands(l, s, e, "abstract"@) {
        p_abstract(l, s, e)
    } else {
        p_clause(
            l,
            s,
            e,
            expression_context::validated(own),
            ClauseLabels {
                bind: Tag::BindStep,
                value: Tag::ValueBindStep,
                effect: Tag::ThenStep,
                name: "do binding"@,
                value_name: "do value binding"@,
                forward_name: "a do forward binding"@,
            },
        )
    }
}

/// How the parts of a statement or guard are named.
pub struct ClauseLabels {
    pub bind: Tag,
    pub value: Tag,
    pub effect: Tag,
    pub name: Seq<char>,
    pub value_name: Seq<char>,
    pub forward_name: Seq<char>,
}

/// A kind of binding, with the local that it binds where its pattern is one.
#[verifier::opaque]
pub open spec fn binding_name(label: Seq<char>, l: Lexed, s: int, e: int) -> Seq<char> {
    match local_of(l, s, e) {
        Some(name) => label + " `"@ + name + "`"@,
        None => label,
    }
}

/// A binding of either direction, a value binding, or an expression.
pub open spec fn p_clause(
    l: Lexed,
    s: int,
    e: int,
    context: ExpressionContext,
    labels: ClauseLabels,
) -> Out
    decreases e - s, 62nat, 0nat,
{
    let backward = input::all_marks(l, s, e, Mark::Symbol("<-"@));
    let equal = input::all_marks(l, s, e, Mark::Symbol("="@));
    let forward = input::all_marks(l, s, e, Mark::Symbol("->"@));
    if backward.len() > 0 {
        let a = backward[0];
        if !(s <= a < e) {
            Err(stuck())
        } else if input::empty(l, s, a) {
            Err(fail_view(l, s, e, labels.name + " requires a pattern before `<-`"@))
        } else {
            match p_pattern(l, s, a, context) {
                Err(errors) => Err(errors),
                Ok(pattern) => if input::empty(l, a + 1, e) {
                    Err(
                        fail_view(
                            l,
                            s,
                            e,
                            binding_name(labels.name, l, s, a)
                                + " requires an operation after `<-`"@,
                        ),
                    )
                } else {
                    match p_expr(l, a + 1, e, context) {
                        Err(errors) => Err(errors),
                        Ok(operation) => Ok(term::node(labels.bind, seq![pattern, operation])),
                    }
                },
            }
        }
    } else if equal.len() > 0 {
        let a = equal[0];
        if !(s <= a < e) {
            Err(stuck())
        } else if input::empty(l, s, a) {
            Err(fail_view(l, s, e, labels.value_name + " requires a pattern before `=`"@))
        } else {
            match p_pattern(l, s, a, context) {
                Err(errors) => Err(errors),
                Ok(pattern) => if input::empty(l, a + 1, e) {
                    Err(
                        fail_view(
                            l,
                            s,
                            e,
                            binding_name(labels.value_name, l, s, a)
                                + " requires a value after `=`"@,
                        ),
                    )
                } else {
                    match p_expr(l, a + 1, e, context) {
                        Err(errors) => Err(errors),
                        Ok(value) => Ok(term::node(labels.value, seq![pattern, value])),
                    }
                },
            }
        }
    } else {
        match p_expr(l, s, e, context) {
            Ok(expr) => Ok(term::node(labels.effect, seq![expr])),
            Err(errors) => if forward.len() == 0 {
                Err(errors)
            } else if input::empty(l, s, forward[0]) {
                Err(fail_view(l, s, e, labels.forward_name + " requires an operation before `->`"@))
            } else {
                p_forward(l, s, e, context, forward, labels, errors)
            },
        }
    }
}

/// A forward binding: the last `->` before which an operation stands.
pub open spec fn p_forward(
    l: Lexed,
    s: int,
    e: int,
    context: ExpressionContext,
    arrows: Seq<int>,
    labels: ClauseLabels,
    errors: Seq<DiagnosticView>,
) -> Out
    decreases e - s, 61nat, arrows.len(),
{
    if arrows.len() == 0 {
        Err(errors)
    } else {
        let a = arrows.last();
        if !(s <= a < e) {
            Err(stuck())
        } else {
            match p_expr(l, s, a, context) {
                Err(_) => p_forward(l, s, e, context, arrows.drop_last(), labels, errors),
                Ok(operation) => if input::empty(l, a + 1, e) {
                    Err(fail_view(l, s, e, labels.forward_name + " requires a pattern after `->`"@))
                } else {
                    match p_pattern(l, a + 1, e, context) {
                        Err(errors) => Err(errors),
                        Ok(pattern) => Ok(term::node(labels.bind, seq![pattern, operation])),
                    }
                },
            }
        }
    }
}

/// The names of an abstract declaration.
#[verifier::opaque]
pub open spec fn abstract_names(
    l: Lexed,
    parts: Seq<(int, int)>,
    at: int,
    hi: int,
) -> Result<Seq<Seq<char>>, Seq<DiagnosticView>>
    decreases parts.len(),
{
    if parts.len() == 0 {
        Ok(Seq::empty())
    } else {
        let (s, e) = parts.last();
        match abstract_names(l, parts.drop_last(), at, hi) {
            Err(errors) => Err(errors),
            Ok(done) => match local_of(l, s, e) {
                Some(name) => if name == "_"@ {
                    Err(
                        fail_view(
                            l,
                            s,
                            e,
                            "do abstract declaration cannot use the inaccessible `_` name"@,
                        ),
                    )
                } else {
                    Ok(done.push(name))
                },
                None => match keyword_of(l, s, e) {
                    Some(word) => Err(fail_view(l, s, e, keywords::reserved_message(word))),
                    None => Err(
                        fail_at(
                            l,
                            at,
                            hi,
                            "do abstract declaration requires one or more comma-separated local names"@,
                        ),
                    ),
                },
            },
        }
    }
}

pub open spec fn p_abstract(l: Lexed, s: int, e: int) -> Out {
    match abstract_names(l, comma_parts(l, s + 1, e), s, e) {
        Err(errors) => Err(errors),
        Ok(names) => Ok(term::node(Tag::AbstractStep, term::spelled(names))),
    }
}

pub open spec fn pattern_message() -> Seq<char> {
    "expected a capture, literal, list pattern, dictionary pattern, or parenthesized pattern"@
}

pub open spec fn capture(name: Seq<char>) -> Term {
    term::node(Tag::Capture, seq![Term::Text(name)])
}

pub open spec fn literal_pattern(literal: Term) -> Term {
    term::node(Tag::LiteralPattern, seq![literal])
}

pub open spec fn list_pattern(prefix: Seq<Term>, middle: Option<Term>, suffix: Seq<Term>) -> Term {
    term::node(
        Tag::ListPattern,
        seq![term::many(prefix), term::maybe(middle), term::many(suffix)],
    )
}

pub open spec fn dict_pattern(entries: Seq<Term>, remainder: Option<Term>) -> Term {
    term::node(Tag::DictPattern, seq![term::many(entries), term::maybe(remainder)])
}

pub open spec fn entry(path: Seq<Term>, optional: bool, pattern: Term) -> Term {
    term::node(Tag::Entry, seq![term::many(path), Term::Flag(optional), pattern])
}

/// A pattern that binds or inspects a value.
pub open spec fn p_pattern(l: Lexed, lo: int, hi: int, context: ExpressionContext) -> Out
    decreases hi - lo, 56nat, 0nat,
{
    let (s, e) = input::trim(l, lo, hi);
    let ases = input::all_marks(l, s, e, Mark::Word("as"@));
    let joins = input::all_marks(l, s, e, Mark::Symbol("++"@));
    let colons = input::all_marks(l, s, e, Mark::Symbol(":"@));
    if !(inside(s, e, lo, hi) && s < e) {
        Err(fail_view(l, lo, hi, pattern_message()))
    } else if ases.len() > 0 {
        let a = ases[0];
        if !(s <= a < e) {
            Err(stuck())
        } else if input::empty(l, s, a) || input::empty(l, a + 1, e) {
            Err(fail_view(l, s, e, "pattern `as` requires a pattern on both sides"@))
        } else {
            match p_pattern(l, s, a, context) {
                Err(errors) => Err(errors),
                Ok(left) => match p_pattern(l, a + 1, e, context) {
                    Err(errors) => Err(errors),
                    Ok(right) => Ok(term::node(Tag::As, seq![left, right])),
                },
            }
        }
    } else if joins.len() > 0 {
        match p_segments(l, input::parts(s, e, joins), s, e, context) {
            Err(errors) => Err(errors),
            Ok((prefix, middle, suffix)) => Ok(list_pattern(prefix, middle, suffix)),
        }
    } else if colons.len() > 0 {
        let c = colons[0];
        if !(s <= c < e) {
            Err(stuck())
        } else if c == s {
            Err(fail_view(l, s, e, "dictionary shorthand is valid only inside braces"@))
        } else if input::empty(l, c + 1, e) {
            Err(fail_view(l, s, e, "tagged pattern requires a payload after `:`"@))
        } else {
            match p_path(l, s, c, context) {
                Err(errors) => Err(errors),
                Ok((path, j)) => if j != c {
                    Err(expected(l, j, e, "`:`"@))
                } else {
                    match p_pattern(l, c + 1, e, context) {
                        Err(errors) => Err(errors),
                        Ok(payload) => Ok(dict_pattern(seq![entry(path, false, payload)], None)),
                    }
                },
            }
        }
    } else {
        p_simple(l, s, e, context)
    }
}

/// The segments of a list pattern. One of them may have any length.
pub open spec fn p_segments(
    l: Lexed,
    parts: Seq<(int, int)>,
    lo: int,
    hi: int,
    context: ExpressionContext,
) -> Result<(Seq<Term>, Option<Term>, Seq<Term>), Seq<DiagnosticView>>
    decreases hi - lo, 55nat, parts.len(),
{
    if parts.len() == 0 {
        Ok((Seq::empty(), None, Seq::empty()))
    } else {
        let (a, b) = parts.last();
        let (s, e) = input::trim(l, a, b);
        match p_segments(l, parts.drop_last(), lo, hi, context) {
            Err(errors) => Err(errors),
            Ok((prefix, middle, suffix)) => if !(inside(s, e, lo, hi)) {
                Err(stuck())
            } else if s >= e {
                Err(fail_view(l, lo, hi, "list pattern contains an empty segment"@))
            } else if input::opens(l, s, e, Delimiter::Bracket) == Some(e - 1) {
                match p_items(
                    l,
                    list_parts(l, comma_parts(l, s + 1, e - 1)),
                    s + 1,
                    e - 1,
                    context,
                    ItemKind::Pattern,
                ) {
                    Err(errors) => Err(errors),
                    Ok(items) => if middle is None {
                        Ok((prefix + items, middle, suffix))
                    } else {
                        Ok((prefix, middle, suffix + items))
                    },
                }
            } else if middle is Some {
                Err(
                    fail_view(l, s, e, "list pattern permits only one variable-length segment"@),
                )
            } else {
                match p_simple(l, s, e, context) {
                    Err(errors) => Err(errors),
                    Ok(pattern) => Ok((prefix, Some(pattern), suffix)),
                }
            },
        }
    }
}

/// Every key of a path is written out.
pub open spec fn static_keys(keys: Seq<Term>) -> bool {
    forall|k: int| 0 <= k < keys.len() ==> static_key(#[trigger] keys[k])
}

/// A key that is an atom, or a literal.
pub open spec fn static_key(key: Term) -> bool {
    match key {
        Term::Node(Tag::KeyAtom, _) => true,
        Term::Node(Tag::KeyIndex, parts) => match parts[0] {
            Term::Node(Tag::Number, _) => true,
            Term::Node(Tag::Literal, _) => true,
            Term::Node(Tag::Unit, _) => true,
            _ => false,
        },
        _ => false,
    }
}

/// The literal pattern of a static key.
pub open spec fn key_pattern(key: Term) -> Term {
    match key {
        Term::Node(Tag::KeyAtom, parts) => literal_pattern(term::node(Tag::Atom, parts)),
        Term::Node(Tag::KeyIndex, parts) => literal_pattern(parts[0]),
        _ => literal_pattern(key),
    }
}

/// The pattern of a quoted path: a list of literals where every key is
/// written out.
#[verifier::opaque]
pub open spec fn quoted_pattern(keys: Seq<Term>) -> Term {
    if static_keys(keys) {
        list_pattern(keys.map_values(|k: Term| key_pattern(k)), None, Seq::empty())
    } else {
        term::node(Tag::QuotedPath, keys)
    }
}

/// A pattern of one name, literal or group.
pub open spec fn p_simple(l: Lexed, s: int, e: int, context: ExpressionContext) -> Out
    decreases e - s, 52nat, 0nat,
{
    if !(0 <= s < e) {
        Err(stuck())
    } else {
        match input::lexeme(l, s) {
            Lexeme::Name(word) => if e != s + 1 {
                Err(fail_view(l, s, e, pattern_message()))
            } else if word == "_"@ {
                Ok(term::node(Tag::Wildcard, Seq::empty()))
            } else {
                match local_of(l, s, e) {
                    Some(name) => Ok(capture(name)),
                    None => Err(not_a_name(l, s, e, pattern_message())),
                }
            },
            Lexeme::Number(literal) => if e != s + 1 {
                Err(fail_view(l, s, e, pattern_message()))
            } else if number::number_literal(literal) {
                Ok(literal_pattern(term::node(Tag::Number, seq![Term::Text(literal)])))
            } else {
                Err(fail_at(l, s, e, number_message(literal)))
            },
            Lexeme::Text(id) => if e != s + 1 {
                Err(fail_view(l, s, e, pattern_message()))
            } else {
                Ok(
                    literal_pattern(
                        term::node(Tag::Literal, seq![Term::Text(l.texts[id as int].value)]),
                    ),
                )
            },
            Lexeme::Symbol(symbol) => if symbol != "'"@ || !(s + 1 < e && input::is_joint(
                l,
                s + 1,
            )) {
                Err(fail_view(l, s, e, pattern_message()))
            } else if input::is_symbol(l, s + 1, "."@) {
                match p_suffixes(l, s + 1, e, context, Seq::empty()) {
                    Err(errors) => Err(errors),
                    Ok((keys, j)) => if j != e {
                        Err(fail_view(l, s, e, pattern_message()))
                    } else {
                        Ok(quoted_pattern(keys))
                    },
                }
            } else {
                match input::lexeme(l, s + 1) {
                    Lexeme::Name(word) => if lettered(word) && e == s + 2 {
                        Ok(literal_pattern(term::node(Tag::Atom, seq![Term::Text(word)])))
                    } else {
                        Err(fail_view(l, s, e, pattern_message()))
                    },
                    _ => Err(fail_view(l, s, e, pattern_message())),
                }
            },
            Lexeme::Open(_, delimiter) => if input::close_of(l, s, e) != Some(e - 1) {
                Err(fail_view(l, s, e, pattern_message()))
            } else {
                match delimiter {
                    Delimiter::Parenthesis => p_group_pattern(l, s, e - 1, context),
                    Delimiter::Bracket => match p_items(
                        l,
                        list_parts(l, comma_parts(l, s + 1, e - 1)),
                        s + 1,
                        e - 1,
                        context,
                        ItemKind::Pattern,
                    ) {
                        Err(errors) => Err(errors),
                        Ok(items) => Ok(list_pattern(items, None, Seq::empty())),
                    },
                    Delimiter::Brace => match p_entries(
                        l,
                        list_parts(l, comma_parts(l, s + 1, e - 1)),
                        s + 1,
                        e - 1,
                        context,
                    ) {
                        Err(errors) => Err(errors),
                        Ok((entries, remainder, _)) => Ok(dict_pattern(entries, remainder)),
                    },
                }
            },
            _ => Err(fail_view(l, s, e, pattern_message())),
        }
    }
}

/// What stands in the parentheses of a pattern.
pub open spec fn p_group_pattern(l: Lexed, i: int, c: int, context: ExpressionContext) -> Out
    decreases c - i, 51nat, 0nat,
{
    let (s, e) = input::trim(l, i + 1, c);
    let parts = comma_parts(l, i + 1, c);
    let whens = input::all_marks(l, s, e, Mark::Word("when"@));
    if !(i < c && inside(s, e, i + 1, c)) {
        Err(stuck())
    } else if s >= e {
        Ok(literal_pattern(term::node(Tag::Unit, Seq::empty())))
    } else if parts.len() > 1 {
        match p_items(l, tuple_parts(l, parts), i + 1, c, context, ItemKind::Pattern) {
            Err(errors) => Err(errors),
            Ok(items) => Ok(
                dict_pattern(
                    seq![
                        entry(
                            seq![key_atom("tuple"@)],
                            false,
                            list_pattern(items, None, Seq::empty()),
                        ),
                    ],
                    None,
                ),
            ),
        }
    } else if whens.len() > 0 {
        let w = whens[0];
        if !(s <= w < e) {
            Err(stuck())
        } else if input::empty(l, s, w) {
            Err(fail_view(l, s, e, "local pattern guard requires a pattern before `when`"@))
        } else if input::empty(l, w + 1, e) {
            Err(fail_view(l, s, e, "local pattern guard requires a guard after `when`"@))
        } else {
            match p_complete(l, s, w, context) {
                Err(errors) => Err(errors),
                Ok(pattern) => match p_guards(l, w + 1, e, context, "local pattern guard"@) {
                    Err(errors) => Err(errors),
                    Ok(guards) => Ok(
                        term::node(Tag::Guarded, seq![pattern, term::many(guards)]),
                    ),
                },
            }
        }
    } else {
        match p_complete(l, s, e, context) {
            Err(errors) => Err(errors),
            Ok(pattern) => Ok(grouped(pattern)),
        }
    }
}

/// A view or predicate in parentheses stands for itself.
pub open spec fn grouped(pattern: Term) -> Term {
    match pattern {
        Term::Node(Tag::View, _) => pattern,
        Term::Node(Tag::Predicate, _) => pattern,
        _ => term::node(Tag::Group, seq![pattern]),
    }
}

/// A pattern that may view its value or test it.
pub open spec fn p_complete(l: Lexed, lo: int, hi: int, context: ExpressionContext) -> Out
    decreases hi - lo, 58nat, 0nat,
{
    let (s, e) = input::trim(l, lo, hi);
    let forward = input::all_marks(l, s, e, Mark::Symbol("->"@));
    let backward = input::all_marks(l, s, e, Mark::Symbol("<-"@));
    let t = last_item(l, s, e);
    if !(inside(s, e, lo, hi) && s < e) {
        Err(fail_view(l, lo, hi, pattern_message()))
    } else if forward.len() > 0 {
        p_view(l, s, e, s, forward[0], forward[0] + 1, e, context)
    } else if backward.len() > 0 {
        p_view(l, s, e, backward[0] + 1, e, s, backward[0], context)
    } else if plain_range(l, s, e) && s < t && t < e && !input::is_joint(l, t) {
        match p_expr(l, s, t, context) {
            Err(errors) => Err(errors),
            Ok(predicate) => match p_pattern(l, t, e, context) {
                Err(errors) => Err(errors),
                Ok(pattern) => Ok(term::node(Tag::Predicate, seq![predicate, pattern])),
            },
        }
    } else {
        p_pattern(l, s, e, context)
    }
}

/// A range with no `as`, `++` or `:` outside its groups.
#[verifier::opaque]
pub open spec fn plain_range(l: Lexed, s: int, e: int) -> bool {
    &&& input::all_marks(l, s, e, Mark::Word("as"@)).len() == 0
    &&& input::all_marks(l, s, e, Mark::Symbol("++"@)).len() == 0
    &&& input::all_marks(l, s, e, Mark::Symbol(":"@)).len() == 0
}

/// The last token or group of a range, outside its groups.
#[verifier::opaque]
pub open spec fn last_item(l: Lexed, i: int, hi: int) -> int
    decreases hi - i,
{
    let next = input::after(l, i, hi);
    if i < next < hi {
        last_item(l, next, hi)
    } else {
        i
    }
}

/// A view pattern: the value passes through an expression first.
pub open spec fn p_view(
    l: Lexed,
    lo: int,
    hi: int,
    vlo: int,
    vhi: int,
    plo: int,
    phi: int,
    context: ExpressionContext,
) -> Out
    decreases hi - lo, 57nat, 0nat,
{
    if !(inside(vlo, vhi, lo, hi) && inside(plo, phi, lo, hi) && vhi - vlo < hi - lo && phi - plo
        < hi - lo) {
        Err(stuck())
    } else if input::empty(l, vlo, vhi) || input::empty(l, plo, phi) {
        Err(
            fail_view(
                l,
                lo,
                hi,
                "view pattern requires a view before `->` and a pattern after it"@,
            ),
        )
    } else {
        match p_expr(l, vlo, vhi, context) {
            Err(errors) => Err(errors),
            Ok(view) => match p_complete(l, plo, phi, context) {
                Err(errors) => Err(errors),
                Ok(pattern) => Ok(term::node(Tag::View, seq![view, pattern])),
            },
        }
    }
}

/// The same tokens are spelled in two ranges.
#[verifier::opaque]
pub open spec fn same_spelling(l: Lexed, a: int, b: int, n: int) -> bool
    decreases n,
{
    n <= 0 || (same_lexeme(l, input::lexeme(l, a + n - 1), input::lexeme(l, b + n - 1))
        && same_spelling(l, a, b, n - 1))
}

/// Two tokens are spelled alike.
#[verifier::opaque]
pub open spec fn same_lexeme(l: Lexed, a: Lexeme, b: Lexeme) -> bool {
    match (a, b) {
        (Lexeme::Open(_, x), Lexeme::Open(_, y)) => x == y,
        (Lexeme::Close(_, x), Lexeme::Close(_, y)) => x == y,
        (Lexeme::Text(x), Lexeme::Text(y)) => l.texts[x as int].value == l.texts[y as int].value,
        _ => a == b,
    }
}

/// A path is spelled like one of the given paths.
#[verifier::opaque]
pub open spec fn repeats(l: Lexed, paths: Seq<(int, int)>, a: int, b: int) -> bool {
    exists|k: int|
        0 <= k < paths.len() && (#[trigger] paths[k]).1 - paths[k].0 == b - a && same_spelling(
            l,
            paths[k].0,
            a,
            b - a,
        )
}

/// The entries of a dictionary pattern, what remains, and the paths.
pub open spec fn p_entries(
    l: Lexed,
    parts: Seq<(int, int)>,
    lo: int,
    hi: int,
    context: ExpressionContext,
) -> Result<(Seq<Term>, Option<Term>, Seq<(int, int)>), Seq<DiagnosticView>>
    decreases hi - lo, 57nat, parts.len(),
{
    if parts.len() == 0 {
        Ok((Seq::empty(), None, Seq::empty()))
    } else {
        let (a, b) = parts.last();
        let (s, e) = input::trim(l, a, b);
        match p_entries(l, parts.drop_last(), lo, hi, context) {
            Err(errors) => Err(errors),
            Ok((entries, remainder, paths)) => if !(inside(s, e, lo, hi)) {
                Err(stuck())
            } else if s >= e {
                Err(fail_view(l, lo, hi, "dictionary pattern contains an empty item between commas"@))
            } else if remainder is Some {
                Err(
                    fail_view(l, s, e, "dictionary remainder must be the final pattern item"@),
                )
            } else {
                let colons = input::all_marks(l, s, e, Mark::Symbol(":"@));
                if colons.len() == 0 {
                    match p_pattern(l, s, e, context) {
                        Err(errors) => Err(errors),
                        Ok(rest) => Ok((entries, Some(rest), paths)),
                    }
                } else {
                    match p_pattern_entry(l, s, e, colons[0], context) {
                        Err(errors) => Err(errors),
                        Ok((item, range)) => if repeats(l, paths, range.0, range.1) {
                            Err(
                                fail_view(
                                    l,
                                    s,
                                    e,
                                    "dictionary pattern repeats the same path expression"@,
                                ),
                            )
                        } else {
                            Ok((entries.push(item), remainder, paths.push(range)))
                        },
                    }
                }
            },
        }
    }
}

/// One entry of a dictionary pattern, with the `:` at `c`, and its path.
pub open spec fn p_pattern_entry(
    l: Lexed,
    s: int,
    e: int,
    c: int,
    context: ExpressionContext,
) -> Result<(Term, (int, int)), Seq<DiagnosticView>>
    decreases e - s, 56nat, 0nat,
{
    if !(s <= c < e) {
        Err(stuck())
    } else if c == s {
        if e == s + 2 && input::is_joint(l, s + 1) {
            match local_of(l, s + 1, e) {
                Some(name) => if name == "_"@ || !lettered(name) {
                    Err(fail_view(l, s, e, "dictionary shorthand requires a name"@))
                } else {
                    Ok((entry(seq![key_atom(name)], false, capture(name)), (s + 1, e)))
                },
                None => Err(not_a_name(l, s + 1, e, "dictionary shorthand requires a name"@)),
            }
        } else {
            Err(fail_view(l, s, e, "dictionary shorthand requires a name"@))
        }
    } else {
        let optional = input::lexeme(l, c - 1) == Lexeme::Unknown('?');
        let end = if optional {
            c - 1
        } else {
            c
        };
        if optional && end == s {
            Err(fail_view(l, s, e, "optional dictionary entry requires a path before `?:`"@))
        } else if optional && !input::is_joint(l, end) {
            Err(fail_view(l, s, e, "optional marker `?` must be joint with its path"@))
        } else if optional && !input::is_joint(l, c) {
            Err(fail_view(l, s, e, "optional marker must be written as joint `?:`"@))
        } else if input::empty(l, c + 1, e) {
            Err(
                fail_view(
                    l,
                    s,
                    e,
                    if optional {
                        "optional dictionary entry requires a payload after `?:`"@
                    } else {
                        "dictionary entry requires a payload after `:`"@
                    },
                ),
            )
        } else {
            match p_path(l, s, end, context) {
                Err(errors) => Err(errors),
                Ok((path, j)) => if j != end {
                    Err(expected(l, j, e, "`:`"@))
                } else {
                    match p_pattern(l, c + 1, e, context) {
                        Err(errors) => Err(errors),
                        Ok(pattern) => Ok((entry(path, optional, pattern), (s, end))),
                    }
                },
            }
        }
    }
}

/// The clauses of a guard, separated by `and`.
pub open spec fn p_guards(
    l: Lexed,
    lo: int,
    hi: int,
    context: ExpressionContext,
    label: Seq<char>,
) -> Outs
    decreases hi - lo, 66nat, 0nat,
{
    p_guard_list(
        l,
        input::parts(lo, hi, input::all_marks(l, lo, hi, Mark::Word("and"@))),
        lo,
        hi,
        context,
        label,
    )
}

pub open spec fn p_guard_list(
    l: Lexed,
    parts: Seq<(int, int)>,
    lo: int,
    hi: int,
    context: ExpressionContext,
    label: Seq<char>,
) -> Outs
    decreases hi - lo, 65nat, parts.len(),
{
    if parts.len() == 0 {
        Ok(Seq::empty())
    } else {
        let (a, b) = parts.last();
        let (s, e) = input::trim(l, a, b);
        match p_guard_list(l, parts.drop_last(), lo, hi, context, label) {
            Err(errors) => Err(errors),
            Ok(done) => if !inside(s, e, lo, hi) {
                Err(stuck())
            } else if s >= e {
                Err(fail_view(l, lo, hi, label + " contains an empty clause"@))
            } else if e == s + 1 && input::is_word(l, s, "_"@) {
                Ok(done.push(term::node(Tag::Pass, Seq::empty())))
            } else {
                match p_clause(
                    l,
                    s,
                    e,
                    context,
                    ClauseLabels {
                        bind: Tag::EffectBindClause,
                        value: Tag::ValueBindClause,
                        effect: Tag::EffectClause,
                        name: label,
                        value_name: label,
                        forward_name: label,
                    },
                ) {
                    Err(errors) => Err(errors),
                    Ok(clause) => Ok(done.push(clause)),
                }
            },
        }
    }
}

/// The word of a conditional. One with `try` runs its guards in the effects of
/// its host.
pub open spec fn conditional_word(host: bool) -> Seq<char> {
    if host {
        "try"@
    } else {
        "if"@
    }
}

/// The word of a match. One with `try_match` runs its guards in the effects of
/// its host, and leaves its choice open.
pub open spec fn match_word(host: bool) -> Seq<char> {
    if host {
        "try_match"@
    } else {
        "match"@
    }
}

pub open spec fn active_message(host: bool) -> Seq<char> {
    if host {
        "unexpected `then`; a try branch is already active"@
    } else {
        "unexpected `then`; an if branch is already active"@
    }
}

/// The `then` and `else` of the conditional whose word comes before `i`. Each
/// nested conditional takes its own; `open` tells for each of them whether
/// its `then` was met.
#[verifier::opaque]
pub open spec fn boundaries(
    l: Lexed,
    lo: int,
    hi: int,
    i: int,
    open: Seq<bool>,
    outer: Option<int>,
    host: bool,
) -> Result<(int, int), Seq<DiagnosticView>>
    decreases hi - i,
{
    if i >= hi {
        Err(
            fail_view(
                l,
                lo,
                hi,
                if outer is Some {
                    conditional_word(host) + " expression requires `else` and a fallback result"@
                } else {
                    conditional_word(host) + " expression requires `then` and `else`"@
                },
            ),
        )
    } else {
        let next = input::after(l, i, hi);
        if !input::contextual(l, lo, i) || open.len() == 0 {
            boundaries(l, lo, hi, next, open, outer, host)
        } else if stands(l, i, hi, "if"@) || stands(l, i, hi, "try"@) {
            boundaries(l, lo, hi, next, open.push(false), outer, host)
        } else if stands(l, i, hi, "then"@) {
            if open.last() {
                Err(fail_at(l, i, hi, active_message(host)))
            } else {
                boundaries(
                    l,
                    lo,
                    hi,
                    next,
                    open.drop_last().push(true),
                    if open.len() == 1 {
                        Some(i)
                    } else {
                        outer
                    },
                    host,
                )
            }
        } else if stands(l, i, hi, "else"@) {
            if !open.last() {
                Err(
                    fail_at(
                        l,
                        i,
                        hi,
                        conditional_word(host) + " expression requires `then` before `else`"@,
                    ),
                )
            } else if open.len() == 1 {
                match outer {
                    Some(t) => Ok((t, i)),
                    None => Err(stuck()),
                }
            } else {
                boundaries(l, lo, hi, next, open.drop_last(), outer, host)
            }
        } else {
            boundaries(l, lo, hi, next, open, outer, host)
        }
    }
}

/// A conditional goes on to the next top-level `,` or `;`.
#[verifier::opaque]
pub open spec fn hard_end(l: Lexed, i: int, hi: int) -> int {
    let commas = input::all_marks(l, i + 1, hi, Mark::Symbol(","@));
    let semicolons = input::all_marks(l, i + 1, hi, Mark::Symbol(";"@));
    let c = if commas.len() > 0 {
        commas[0]
    } else {
        hi
    };
    let d = if semicolons.len() > 0 {
        semicolons[0]
    } else {
        hi
    };
    if c < d {
        c
    } else {
        d
    }
}

/// A conditional, and the position after it.
pub open spec fn p_if(l: Lexed, i: int, hi: int, context: ExpressionContext, host: bool) -> Part
    decreases hi - i, 34nat, 1nat,
{
    let end = hard_end(l, i, hi);
    if !(i < end <= hi) {
        Err(stuck())
    } else {
        match p_if_within(l, i, end, context, host) {
            Err(errors) => Err(errors),
            Ok(choice) => Ok((choice, end)),
        }
    }
}

/// A conditional, which owns the rest of its range.
pub open spec fn p_if_within(
    l: Lexed,
    i: int,
    hi: int,
    context: ExpressionContext,
    host: bool,
) -> Out
    decreases hi - i, 34nat, 0nat,
{
    match boundaries(l, i, hi, i + 1, seq![false], None, host) {
        Err(errors) => Err(errors),
        Ok((t, f)) => if !(i < t && t < f && f < hi) {
            Err(stuck())
        } else if input::empty(l, i + 1, t) {
            Err(
                fail_at(
                    l,
                    i,
                    hi,
                    conditional_word(host) + " expression requires a guard before `then`"@,
                ),
            )
        } else if input::empty(l, t + 1, f) {
            Err(
                fail_at(
                    l,
                    t,
                    hi,
                    conditional_word(host) + " expression requires a result after `then`"@,
                ),
            )
        } else if input::empty(l, f + 1, hi) {
            Err(
                fail_at(
                    l,
                    f,
                    hi,
                    conditional_word(host) + " expression requires a fallback after `else`"@,
                ),
            )
        } else {
            match p_guards(l, i + 1, t, context, conditional_word(host) + " guard"@) {
                Err(errors) => Err(errors),
                Ok(guards) => match p_expr(
                    l,
                    t + 1,
                    f,
                    expression_context::child(context, l, t + 1, f),
                ) {
                    Err(errors) => Err(errors),
                    Ok(yes) => match p_expr(
                        l,
                        f + 1,
                        hi,
                        expression_context::child(context, l, f + 1, hi),
                    ) {
                        Err(errors) => Err(errors),
                        Ok(no) => Ok(
                            term::node(
                                Tag::If,
                                seq![
                                    Term::Flag(host),
                                    term::many(guards),
                                    Term::Flag(false),
                                    yes,
                                    no,
                                ],
                            ),
                        ),
                    },
                },
            }
        },
    }
}

/// An expression whose names are also those of a namespace. It owns the rest
/// of its range.
pub open spec fn p_using(l: Lexed, i: int, hi: int, context: ExpressionContext) -> Out
    decreases hi - i, 34nat, 0nat,
{
    let marks = input::all_marks(l, i + 1, hi, Mark::Word("in"@));
    let w = if marks.len() > 0 {
        marks[0]
    } else {
        hi
    };
    if !(i < w <= hi) {
        Err(stuck())
    } else if input::empty(l, i + 1, w) {
        Err(fail_at(l, i, hi, "using expression requires a namespace"@))
    } else if w == hi {
        Err(fail_at(l, i, hi, "using expression requires `in` and a body"@))
    } else if input::empty(l, w + 1, hi) {
        Err(fail_at(l, w, hi, "using expression requires a body after `in`"@))
    } else {
        match p_expr(l, i + 1, w, expression_context::child(context, l, i + 1, w)) {
            Err(errors) => Err(errors),
            Ok(namespace) => match p_expr(
                l,
                w + 1,
                hi,
                expression_context::child(context, l, w + 1, hi),
            ) {
                Err(errors) => Err(errors),
                Ok(body) => Ok(term::node(Tag::Using, seq![namespace, body])),
            },
        }
    }
}

pub open spec fn floor_message(label: Seq<char>, anchor: nat, floor: nat) -> Seq<char> {
    label + " begins at indentation "@ + text::decimal(anchor)
        + "; expected more than continuation floor "@ + text::decimal(floor)
}

/// The members of a choice whose body begins at `lo`, and the position after
/// them. A group in braces at its start may also be the pattern of the first
/// member.
#[verifier::opaque]
pub open spec fn choice_members(
    l: Lexed,
    lo: int,
    hi: int,
    context: ExpressionContext,
    label: Seq<char>,
    missing: Seq<char>,
    brace_can_start: bool,
) -> Result<(Seq<Member>, int), Seq<DiagnosticView>> {
    let s = input::skip(l, lo, hi);
    let braces = input::opens(l, s, hi, Delimiter::Brace);
    if s >= hi {
        Err(fail_at(l, lo - 1, hi, missing))
    } else if braces matches Some(c) && !(brace_can_start && {
        let k = input::skip(l, c + 1, hi);
        k < hi && (input::is_symbol(l, k, "=>"@) || input::is_word(l, k, "when"@))
    }) {
        match braced_members(l, s + 1, braces->0, label) {
            Err(errors) => Err(errors),
            Ok(members) => Ok((members, braces->0 + 1)),
        }
    } else {
        match layout::block(l, lo, hi, LayoutBase::FirstLine) {
            Err((line, message)) => Err(fail(line, message)),
            Ok(block) => if block.members.len() == 0 {
                Err(fail_at(l, lo - 1, hi, missing))
            } else if !expression_context::accepts(context, block.anchor) {
                Err(
                    fail(
                        block.members[0].line,
                        floor_message(
                            label,
                            block.anchor,
                            context.continuation_floor as nat,
                        ),
                    ),
                )
            } else {
                Ok((block.members, block.end))
            },
        }
    }
}

/// The arms of a choice end where its range ends, unless they are in braces.
#[verifier::opaque]
pub open spec fn choice_ends(l: Lexed, lo: int, end: int, hi: int) -> Result<
    int,
    Seq<DiagnosticView>,
> {
    let s = input::skip(l, lo, hi);
    let k = input::skip(l, end, hi);
    if input::opens(l, s, hi, Delimiter::Brace) matches Some(c) && c + 1 == end {
        Ok(end)
    } else if k >= hi {
        Ok(hi)
    } else {
        Err(fail_at(l, k, hi, "expression continues after its match arms"@))
    }
}

/// A match, by its subject or by guards alone.
pub open spec fn p_match(l: Lexed, i: int, hi: int, context: ExpressionContext, host: bool) -> Part
    decreases hi - i, 34nat, 0nat,
{
    let k = input::skip(l, i + 1, hi);
    if k < hi && i < k && input::is_word(l, k, "when"@) {
        p_match_when(l, i, k, hi, context, host)
    } else {
        p_match_with(l, i, hi, context, host)
    }
}

/// A match by guards alone, whose `when` stands at `k`.
pub open spec fn p_match_when(
    l: Lexed,
    i: int,
    k: int,
    hi: int,
    context: ExpressionContext,
    host: bool,
) -> Part
    decreases hi - i, 33nat, 0nat,
{
    if !(i < k && k < hi) {
        Err(stuck())
    } else {
        match choice_members(
            l,
            k + 1,
            hi,
            context,
            match_word(host) + "-when body"@,
            "layout `"@ + match_word(host) + " when` requires at least one arm"@,
            true,
        ) {
            Err(errors) => Err(errors),
            Ok((members, end)) => match p_when_arms(l, members, k + 1, hi, context) {
                Err(errors) => Err(errors),
                Ok(arms) => match choice_ends(l, k + 1, end, hi) {
                    Err(errors) => Err(errors),
                    Ok(end) => Ok(
                        (
                            term::node(
                                Tag::MatchWhen,
                                seq![
                                    Term::Size(input::line(l, i)),
                                    Term::Flag(host),
                                    Term::Flag(host),
                                    term::many(arms),
                                ],
                            ),
                            end,
                        ),
                    ),
                },
            },
        }
    }
}

/// A match by its subject.
pub open spec fn p_match_with(
    l: Lexed,
    i: int,
    hi: int,
    context: ExpressionContext,
    host: bool,
) -> Part
    decreases hi - i, 33nat, 0nat,
{
        let marks = input::all_marks(l, i + 1, hi, Mark::Word("with"@));
        if marks.len() == 0 {
            Err(
                fail_at(
                    l,
                    i,
                    hi,
                    match_word(host)
                        + " expression requires `with` and at least one layout arm or an explicit `{}` body"@,
                ),
            )
        } else {
            let w = marks[0];
            if !(i < w && w < hi) {
                Err(stuck())
            } else if input::empty(l, i + 1, w) {
                Err(
                    fail_at(
                        l,
                        i,
                        hi,
                        match_word(host) + " expression requires a subject before `with`"@,
                    ),
                )
            } else {
                match p_expr(l, i + 1, w, expression_context::child(context, l, i + 1, w)) {
                    Err(errors) => Err(errors),
                    Ok(subject) => match choice_members(
                        l,
                        w + 1,
                        hi,
                        context,
                        match_word(host) + " body"@,
                        "layout "@ + match_word(host) + " expression requires at least one arm"@,
                        true,
                    ) {
                        Err(errors) => Err(errors),
                        Ok((members, end)) => match p_arms(l, members, w + 1, hi, context) {
                            Err(errors) => Err(errors),
                            Ok(arms) => match choice_ends(l, w + 1, end, hi) {
                                Err(errors) => Err(errors),
                                Ok(end) => Ok(
                                    (
                                        term::node(
                                            Tag::Match,
                                            seq![
                                                Term::Size(input::line(l, i)),
                                                Term::Flag(host),
                                                Term::Flag(host),
                                                subject,
                                                term::many(arms),
                                            ],
                                        ),
                                        end,
                                    ),
                                ),
                            },
                        },
                    },
                }
            }
        }
}

pub open spec fn p_arms(
    l: Lexed,
    members: Seq<Member>,
    lo: int,
    hi: int,
    context: ExpressionContext,
) -> Outs
    decreases hi - lo, 72nat, members.len(),
{
    if members.len() == 0 {
        Ok(Seq::empty())
    } else {
        let m = members.last();
        match p_arms(l, members.drop_last(), lo, hi, context) {
            Err(errors) => Err(errors),
            Ok(done) => if !inside(m.lo, m.hi, lo, hi) {
                Err(stuck())
            } else {
                match p_arm(l, m.lo, m.hi, context) {
                    Err(errors) => Err(errors),
                    Ok(arm) => Ok(done.push(arm)),
                }
            },
        }
    }
}

pub open spec fn p_when_arms(
    l: Lexed,
    members: Seq<Member>,
    lo: int,
    hi: int,
    context: ExpressionContext,
) -> Outs
    decreases hi - lo, 72nat, members.len(),
{
    if members.len() == 0 {
        Ok(Seq::empty())
    } else {
        let m = members.last();
        match p_when_arms(l, members.drop_last(), lo, hi, context) {
            Err(errors) => Err(errors),
            Ok(done) => if !inside(m.lo, m.hi, lo, hi) {
                Err(stuck())
            } else {
                match p_when_arm(l, m.lo, m.hi, context) {
                    Err(errors) => Err(errors),
                    Ok(arm) => Ok(done.push(arm)),
                }
            },
        }
    }
}

/// An arm: its head ends at `head`, and its outcome follows.
pub open spec fn p_choice(
    l: Lexed,
    s: int,
    e: int,
    context: ExpressionContext,
    label: Seq<char>,
    required: Seq<char>,
) -> Part
    decreases e - s, 69nat, 0nat,
{
    let rows = layout::rows(l, s, e);
    if rows.len() == 0 {
        Err(fail_view(l, s, e, label + " cannot be empty"@))
    } else {
        let first = rows[0];
        let arrows = input::all_marks(l, first.lo, first.hi, Mark::Symbol("=>"@));
        let whens = input::all_marks(l, first.lo, first.hi, Mark::Word("when"@));
        if arrows.len() > 1 {
            Err(fail_view(l, s, e, label + " permits exactly one top-level `=>`"@))
        } else if arrows.len() == 1 {
            let a = arrows[0];
            if !(s <= a < e) {
                Err(stuck())
            } else if input::empty(l, s, a) {
                Err(
                    fail_view(l, s, e, label + " requires "@ + required + " before `=>`"@),
                )
            } else if input::empty(l, a + 1, e) {
                Err(fail_view(l, s, e, label + " requires a result after `=>`"@))
            } else {
                match p_expr(l, a + 1, e, expression_context::child(context, l, a + 1, e)) {
                    Err(errors) => Err(errors),
                    Ok(result) => Ok(
                        (
                            term::node(
                                Tag::Outcome,
                                seq![
                                    Term::Size(input::view_line(l, a + 1, e)),
                                    Term::Flag(false),
                                    result,
                                ],
                            ),
                            a,
                        ),
                    ),
                }
            }
        } else if whens.len() == 0 {
            Err(
                fail_view(l, s, e, label + " requires `=>` or a trailing `when` child block"@),
            )
        } else {
            let w = whens.last();
            if !(s <= w < e) {
                Err(stuck())
            } else if input::empty(l, s, w) {
                Err(
                    fail_view(
                        l,
                        s,
                        e,
                        label + " requires "@ + required + " before nested `when`"@,
                    ),
                )
            } else {
                let nested = ExpressionContext {
                    continuation_floor: first.indentation as usize,
                    ..context
                };
                match choice_members(
                    l,
                    w + 1,
                    e,
                    nested,
                    "nested match-when body"@,
                    "nested `when` requires at least one child arm"@,
                    false,
                ) {
                    Err(errors) => Err(errors),
                    Ok((members, _)) => match p_when_arms(l, members, w + 1, e, nested) {
                        Err(errors) => Err(errors),
                        Ok(arms) => Ok((term::node(Tag::Nested, arms), w)),
                    },
                }
            }
        }
    }
}

/// An arm of a match: a pattern, guards, and an outcome.
pub open spec fn p_arm(l: Lexed, lo: int, hi: int, context: ExpressionContext) -> Out
    decreases hi - lo, 70nat, 0nat,
{
    let (s, e) = input::trim(l, lo, hi);
    if !(inside(s, e, lo, hi)) {
        Err(stuck())
    } else {
        match p_choice(l, s, e, context, "match arm"@, "a pattern"@) {
            Err(errors) => Err(errors),
            Ok((outcome, head)) => if !(s <= head < e) {
                Err(stuck())
            } else {
                let whens = input::all_marks(l, s, head, Mark::Word("when"@));
                if whens.len() > 1 {
                    Err(
                        fail_view(
                            l,
                            s,
                            e,
                            "match arm permits one top-level `when` guard boundary"@,
                        ),
                    )
                } else if whens.len() == 1 {
                    let w = whens[0];
                    if !(s <= w < head) {
                        Err(stuck())
                    } else if input::empty(l, s, w) {
                        Err(fail_view(l, s, e, "match arm requires a pattern before `when`"@))
                    } else if input::empty(l, w + 1, head) {
                        Err(fail_view(l, s, e, "match arm requires guards after `when`"@))
                    } else {
                        match p_complete(l, s, w, context) {
                            Err(errors) => Err(errors),
                            Ok(pattern) => match p_guards(
                                l,
                                w + 1,
                                head,
                                context,
                                "match arm guard"@,
                            ) {
                                Err(errors) => Err(errors),
                                Ok(guards) => Ok(
                                    term::node(
                                        Tag::Arm,
                                        seq![
                                            Term::Size(input::view_line(l, s, e)),
                                            pattern,
                                            term::many(guards),
                                            outcome,
                                        ],
                                    ),
                                ),
                            },
                        }
                    }
                } else {
                    match p_complete(l, s, head, context) {
                        Err(errors) => Err(errors),
                        Ok(pattern) => Ok(
                            term::node(
                                Tag::Arm,
                                seq![
                                    Term::Size(input::view_line(l, s, e)),
                                    pattern,
                                    term::many(Seq::empty()),
                                    outcome,
                                ],
                            ),
                        ),
                    }
                }
            },
        }
    }
}

/// An arm of a match by guards.
pub open spec fn p_when_arm(l: Lexed, lo: int, hi: int, context: ExpressionContext) -> Out
    decreases hi - lo, 70nat, 0nat,
{
    let (s, e) = input::trim(l, lo, hi);
    if !(inside(s, e, lo, hi)) {
        Err(stuck())
    } else {
        match p_choice(l, s, e, context, "match-when arm"@, "guards"@) {
            Err(errors) => Err(errors),
            Ok((outcome, head)) => if !(s <= head < e) {
                Err(stuck())
            } else {
                match p_guards(l, s, head, context, "match-when arm guard"@) {
                    Err(errors) => Err(errors),
                    Ok(guards) => Ok(
                        term::node(
                            Tag::WhenArm,
                            seq![
                                Term::Size(input::view_line(l, s, e)),
                                term::many(guards),
                                outcome,
                            ],
                        ),
                    ),
                }
            },
        }
    }
}

/// What a declaration gives: its term, if it has one, and what is wrong.
pub struct Declared {
    pub term: Option<Term>,
    pub errors: Seq<DiagnosticView>,
}

pub open spec fn undeclared(errors: Seq<DiagnosticView>) -> Declared {
    Declared { term: None, errors }
}

/// The declarations of the members of an object body.
pub open spec fn p_members(
    l: Lexed,
    members: Seq<Member>,
    lo: int,
    hi: int,
    context: ExpressionContext,
) -> (Seq<Term>, Seq<DiagnosticView>)
    decreases hi - lo, 82nat, members.len(),
{
    if members.len() == 0 {
        (Seq::empty(), Seq::empty())
    } else {
        let m = members.last();
        let (s, e) = input::trim(l, m.lo, m.hi);
        let (items, errors) = p_members(l, members.drop_last(), lo, hi, context);
        if !inside(s, e, lo, hi) {
            (items, errors)
        } else {
            let d = p_declaration(
                l,
                s,
                e,
                m.line,
                expression_context::child(context, l, s, e),
            );
            (
                match d.term {
                    Some(t) => items.push(term::node(Tag::Item, seq![Term::Size(m.line), t])),
                    None => items,
                },
                errors + d.errors,
            )
        }
    }
}

/// An object, an extension of one, or a definition.
pub open spec fn p_declaration(
    l: Lexed,
    lo: int,
    hi: int,
    line: nat,
    context: ExpressionContext,
) -> Declared
    decreases hi - lo, 80nat, 0nat,
{
    let floor = expression_context::floor_errors(l, lo, hi, context);
    let own = expression_context::validated(context);
    let s = input::skip(l, lo, hi);
    if s >= hi {
        undeclared(floor)
    } else {
        let d = if decl_head(l, lo, hi) is Some {
            p_object_declaration(l, lo, hi, line, own)
        } else if input::is_word(l, s, "extend"@) {
            p_extend(l, lo, hi, line, own)
        } else {
            p_definition(l, lo, hi, line, own)
        };
        Declared { term: d.term, errors: floor + d.errors }
    }
}

/// The `object` of an object declaration, and whether it is abstract.
#[verifier::opaque]
pub open spec fn decl_head(l: Lexed, lo: int, hi: int) -> Option<(int, bool)> {
    let s = input::skip(l, lo, hi);
    if s >= hi {
        None
    } else if input::is_word(l, s, "object"@) {
        Some((s, false))
    } else if input::is_word(l, s, "abstract"@) {
        let k = input::skip(l, s + 1, hi);
        if k < hi && input::is_word(l, k, "object"@) {
            Some((k, true))
        } else {
            None
        }
    } else {
        None
    }
}

/// The first operator of a definition, and what it does.
#[verifier::opaque]
pub open spec fn definition_operator(l: Lexed, i: int, hi: int) -> Option<(int, nat)>
    decreases hi - i,
{
    if i >= hi {
        None
    } else if input::is_symbol(l, i, "::="@) {
        Some((i, 2))
    } else if input::is_symbol(l, i, ":="@) {
        Some((i, 1))
    } else if input::is_symbol(l, i, "="@) {
        Some((i, 0))
    } else {
        definition_operator(l, input::after(l, i, hi), hi)
    }
}

/// A definition: a target with parameters, an operator, and a body.
pub open spec fn p_definition(
    l: Lexed,
    lo: int,
    hi: int,
    line: nat,
    context: ExpressionContext,
) -> Declared
    decreases hi - lo, 78nat, 0nat,
{
    match definition_operator(l, lo, hi) {
        None => undeclared(fail(line, "expected a declaration"@)),
        Some((o, kind)) => if !(lo <= o < hi) {
            undeclared(stuck())
        } else if input::empty(l, o + 1, hi) {
            undeclared(fail(line, "definition body cannot be empty"@))
        } else {
            let (s, e) = input::trim(l, lo, o);
            if !inside(s, e, lo, o) {
                undeclared(stuck())
            } else {
                match p_left(l, s, e, line, context) {
                    Err(errors) => undeclared(errors),
                    Ok((target, params)) => match p_expr(l, o + 1, hi, context) {
                        Err(errors) => Declared {
                            term: Some(definition(target, params, kind, None)),
                            errors,
                        },
                        Ok(body) => Declared {
                            term: Some(
                                definition(
                                    target,
                                    params,
                                    kind,
                                    Some(
                                        if params.len() == 0 {
                                            body
                                        } else {
                                            term::node(
                                                Tag::Lambda,
                                                seq![
                                                    term::many(term::spelled(params)),
                                                    body,
                                                ],
                                            )
                                        },
                                    ),
                                ),
                            ),
                            errors: Seq::empty(),
                        },
                    },
                }
            }
        },
    }
}

pub open spec fn definition(
    target: Seq<Term>,
    params: Seq<Seq<char>>,
    kind: nat,
    body: Option<Term>,
) -> Term {
    term::node(
        Tag::Definition,
        seq![
            term::many(target),
            term::many(term::spelled(params)),
            Term::Size(kind),
            term::maybe(body),
        ],
    )
}

/// The end of the target of a definition: a name or `.`, and path steps.
#[verifier::opaque]
pub open spec fn target_end(l: Lexed, i: int, hi: int, line: nat, first: bool) -> Result<
    int,
    Seq<DiagnosticView>,
>
    decreases hi - i,
{
    if !(i < hi && input::is_symbol(l, i, "."@) && (first || input::is_joint(l, i))) {
        Ok(i)
    } else if i + 1 >= hi {
        Err(fail(line, "path suffix requires a key"@))
    } else if !input::is_joint(l, i + 1) {
        Err(fail(line, "path suffix key must immediately follow `.`"@))
    } else {
        match input::lexeme(l, i + 1) {
            Lexeme::Name(_) => target_end(l, i + 2, hi, line, false),
            Lexeme::Open(_, delimiter) => if delimiter == Delimiter::Brace {
                Err(
                    fail(
                        line,
                        "definition path suffix requires a name, list, or parenthesized path"@,
                    ),
                )
            } else {
                match input::close_of(l, i + 1, hi) {
                    Some(c) => target_end(l, c + 1, hi, line, false),
                    None => Err(fail(line, "unclosed definition target path"@)),
                }
            },
            _ => Err(
                fail(line, "definition path suffix requires a name, list, or parenthesized path"@),
            ),
        }
    }
}

/// The parameters of a definition.
#[verifier::opaque]
pub open spec fn params_of(l: Lexed, i: int, hi: int, line: nat, done: Seq<Seq<char>>) -> Result<
    Seq<Seq<char>>,
    Seq<DiagnosticView>,
>
    decreases hi - i,
{
    let k = input::skip(l, i, hi);
    if k >= hi || k < i {
        Ok(done)
    } else {
        match local_of(l, k, k + 1) {
            None => match keyword_of(l, k, k + 1) {
                Some(word) => Err(fail(line, keywords::reserved_message(word))),
                None => Err(fail(line, "definition parameters must be local names"@)),
            },
            Some(name) => if k == i && input::is_joint(l, k) {
                Err(fail(line, "definition parameters must be separated from the target"@))
            } else {
                params_of(l, k + 1, hi, line, done.push(name))
            },
        }
    }
}

/// The left side of a definition: its target and its parameters.
pub open spec fn p_left(
    l: Lexed,
    s: int,
    e: int,
    line: nat,
    context: ExpressionContext,
) -> Result<(Seq<Term>, Seq<Seq<char>>), Seq<DiagnosticView>>
    decreases e - s, 76nat, 0nat,
{
    if s >= e {
        Err(fail(line, "definition requires a target"@))
    } else {
        let named = input::lexeme(l, s) is Name;
        if !(named || input::is_symbol(l, s, "."@)) {
            Err(fail(line, "definition target must be a name or path"@))
        } else {
            let from = if named {
                s + 1
            } else {
                s
            };
            match target_end(l, from, e, line, !named) {
                Err(errors) => Err(errors),
                Ok(end) => if !(s < end <= e) {
                    Err(fail(line, "definition target path cannot be empty"@))
                } else {
                    match p_target(l, s, end, line, context) {
                        Err(errors) => Err(errors),
                        Ok(target) => match params_of(l, end, e, line, Seq::empty()) {
                            Err(errors) => Err(errors),
                            Ok(params) => Ok((target, params)),
                        },
                    }
                },
            }
        }
    }
}

/// The messages of a list of diagnostics as one.
#[verifier::opaque]
pub open spec fn combined(line: nat, errors: Seq<DiagnosticView>) -> Seq<DiagnosticView> {
    fail(line, joined_messages(errors))
}

#[verifier::opaque]
pub open spec fn joined_messages(errors: Seq<DiagnosticView>) -> Seq<char>
    decreases errors.len(),
{
    if errors.len() == 0 {
        Seq::empty()
    } else if errors.len() == 1 {
        errors[0].message
    } else {
        joined_messages(errors.drop_last()) + "; "@ + errors.last().message
    }
}

/// The target of a definition.
pub open spec fn p_target(l: Lexed, s: int, end: int, line: nat, context: ExpressionContext) -> Outs
    decreases end - s, 75nat, 0nat,
{
    match input::lexeme(l, s) {
        Lexeme::Name(word) => if !(s < end) {
            Err(stuck())
        } else if keywords::reserved(word) {
            Err(fail(line, keywords::reserved_message(word)))
        } else {
            p_target_steps(l, s + 1, end, line, context, seq![key_atom(word)])
        },
        _ => match p_target_steps(l, s, end, line, context, Seq::empty()) {
            Err(errors) => Err(errors),
            Ok(keys) => if keys.len() == 0 {
                Err(fail(line, "definition target path cannot be empty"@))
            } else {
                Ok(keys)
            },
        },
    }
}

/// The path steps of a target.
pub open spec fn p_target_steps(
    l: Lexed,
    i: int,
    end: int,
    line: nat,
    context: ExpressionContext,
    done: Seq<Term>,
) -> Outs
    decreases end - i, 74nat, 0nat,
{
    if i >= end {
        Ok(done)
    } else if !input::is_symbol(l, i, "."@) {
        Err(fail(line, "invalid definition target path"@))
    } else if i + 1 >= end {
        Err(fail(line, "path suffix requires a key"@))
    } else {
        match input::lexeme(l, i + 1) {
            Lexeme::Name(word) => if done.len() == 0 && keywords::reserved(word) {
                Err(fail(line, keywords::reserved_message(word)))
            } else {
                p_target_steps(l, i + 2, end, line, context, done.push(key_atom(word)))
            },
            Lexeme::Open(_, delimiter) => match input::close_of(l, i + 1, end) {
                None => Err(fail(line, "invalid path list"@)),
                Some(c) => if delimiter == Delimiter::Bracket {
                    match p_items(
                        l,
                        nonempty_parts(l, comma_parts(l, i + 2, c)),
                        i + 2,
                        c,
                        context,
                        ItemKind::Key,
                    ) {
                        Err(errors) => Err(combined(line, errors)),
                        Ok(keys) => p_target_steps(l, c + 1, end, line, context, done + keys),
                    }
                } else if delimiter == Delimiter::Parenthesis {
                    match p_expr(l, i + 2, c, context) {
                        Err(errors) => Err(combined(line, errors)),
                        Ok(expr) => p_target_steps(
                            l,
                            c + 1,
                            end,
                            line,
                            context,
                            done.push(term::node(Tag::KeyPathIndex, seq![expr])),
                        ),
                    }
                } else {
                    Err(fail(line, "invalid definition target path"@))
                },
            },
            _ => Err(fail(line, "invalid definition target path"@)),
        }
    }
}

/// A path of joint names, as it is spelled.
#[verifier::opaque]
pub open spec fn static_path(l: Lexed, s: int, e: int) -> Option<Seq<char>>
    decreases e - s,
{
    if e == s + 1 {
        match input::lexeme(l, s) {
            Lexeme::Name(word) => Some(word),
            _ => None,
        }
    } else if e >= s + 3 && input::is_symbol(l, e - 2, "."@) && input::is_joint(l, e - 2)
        && input::is_joint(l, e - 1) {
        match (static_path(l, s, e - 2), input::lexeme(l, e - 1)) {
            (Some(path), Lexeme::Name(word)) => Some(path.push('.') + word),
            _ => None,
        }
    } else {
        None
    }
}

/// The header of an object declaration or extension.
pub struct Header {
    pub target: Seq<char>,
    pub alias: Option<Seq<char>>,
    pub deps: Seq<Term>,
    pub with: Option<int>,
}

/// The end of a header: where its body begins. A `with` in it is followed by
/// the body; without one, the header ends at the first line end.
#[verifier::opaque]
pub open spec fn split_header(l: Lexed, lo: int, hi: int) -> int {
    let marks = input::all_marks(l, lo, hi, Mark::Word("with"@));
    let lines = input::all_marks(l, lo, hi, Mark::LineStart);
    if marks.len() > 0 {
        marks[0] + 1
    } else if lines.len() > 0 {
        lines[0]
    } else {
        hi
    }
}

pub open spec fn p_header(
    l: Lexed,
    lo: int,
    end: int,
    line: nat,
    extend: bool,
    context: ExpressionContext,
) -> Result<Header, Seq<DiagnosticView>>
    decreases end - lo, 76nat, 0nat,
{
    let marks = input::all_marks(l, lo, end, Mark::Word("with"@));
    let with = if marks.len() > 0 {
        Some(marks[0])
    } else {
        None
    };
    let stop = if marks.len() > 0 {
        marks[0]
    } else {
        end
    };
    let (a, x, target_stop) = header_marks(l, lo, stop);
    let (s, e) = input::trim(l, lo, target_stop);
    if extend && x is Some {
        Err(fail(line, "extend declaration does not accept `extends` dependencies"@))
    } else if a matches Some(i) && x matches Some(j) && i >= j {
        Err(fail(line, "object declaration `as` must precede `extends`"@))
    } else if !(inside(s, e, lo, target_stop) && lo <= target_stop <= stop && stop <= end) {
        Err(stuck())
    } else if s < e && leading_keyword(l, s) is Some {
        Err(fail(line, keywords::reserved_message(leading_keyword(l, s)->0)))
    } else {
        match static_path(l, s, e) {
            None => Err(
                fail(
                    line,
                    if extend {
                        "extend declaration requires a path name"@
                    } else {
                        "object declaration requires a path name"@
                    },
                ),
            ),
            Some(target) => if target == "_"@ {
                Err(
                    fail(
                        line,
                        "object declarations require a named target; use an object expression for an anonymous object"@,
                    ),
                )
            } else {
                match declared_alias(l, a, x, stop, line) {
                    Err(errors) => Err(errors),
                    Ok(alias) => match p_parents(l, x, lo, stop, context) {
                        Err(errors) => Err(errors),
                        Ok(deps) => Ok(Header { target, alias, deps, with }),
                    },
                }
            },
        }
    }
}

/// The keyword at `s`.
pub open spec fn leading_keyword(l: Lexed, s: int) -> Option<Seq<char>> {
    match input::lexeme(l, s) {
        Lexeme::Name(word) => if keywords::reserved(word) {
            Some(word)
        } else {
            None
        },
        _ => None,
    }
}

/// The alias that a declaration gives after `as`.
#[verifier::opaque]
pub open spec fn declared_alias(
    l: Lexed,
    a: Option<int>,
    x: Option<int>,
    end: int,
    line: nat,
) -> Result<Option<Seq<char>>, Seq<DiagnosticView>> {
    match a {
        None => Ok(None),
        Some(i) => {
            let stop = match x {
                Some(j) => j,
                None => end,
            };
            match alias_of(l, i + 1, stop) {
                Some(name) => Ok(Some(name)),
                None => match keyword_of(l, i + 1, stop) {
                    Some(word) => Err(fail(line, keywords::reserved_message(word))),
                    None => Err(fail(line, "`as` requires a valid object alias name"@)),
                },
            }
        },
    }
}

/// The body of a declaration: its members, and what is wrong with them.
pub open spec fn p_body(l: Lexed, lo: int, hi: int, context: ExpressionContext) -> (
    Seq<Term>,
    Seq<DiagnosticView>,
)
    decreases hi - lo, 84nat, 0nat,
{
    let s = input::skip(l, lo, hi);
    if s >= hi {
        (Seq::empty(), Seq::empty())
    } else {
        match input::opens(l, s, hi, Delimiter::Brace) {
            Some(c) => if input::empty(l, c + 1, hi) {
                match braced_members(l, s + 1, c, "`with` body"@) {
                    Err(errors) => (Seq::empty(), errors),
                    Ok(members) => p_members(l, members, lo, hi, context),
                }
            } else {
                p_layout_body(l, lo, hi, context)
            },
            None => p_layout_body(l, lo, hi, context),
        }
    }
}

pub open spec fn p_layout_body(l: Lexed, lo: int, hi: int, context: ExpressionContext) -> (
    Seq<Term>,
    Seq<DiagnosticView>,
)
    decreases hi - lo, 83nat, 0nat,
{
    match layout::statements(l, lo, hi, LayoutBase::FirstLine) {
        Err((line, message)) => (Seq::empty(), fail(line, message)),
        Ok(members) => p_members(l, members, lo, hi, context),
    }
}

/// A body in braces may be empty.
#[verifier::opaque]
pub open spec fn explicit_body(l: Lexed, lo: int, hi: int) -> bool {
    let s = input::skip(l, lo, hi);
    s < hi && (input::opens(l, s, hi, Delimiter::Brace) matches Some(c) && input::empty(
        l,
        c + 1,
        hi,
    ))
}

/// A body that declares something, or is explicitly empty.
pub open spec fn p_required_body(
    l: Lexed,
    lo: int,
    hi: int,
    line: nat,
    missing: Seq<char>,
    context: ExpressionContext,
) -> (Option<Seq<Term>>, Seq<DiagnosticView>)
    decreases hi - lo, 85nat, 0nat,
{
    let (items, errors) = p_body(l, lo, hi, context);
    if explicit_body(l, lo, hi) || items.len() > 0 {
        (Some(items), errors)
    } else if lexical::any_error(errors) {
        (None, errors)
    } else {
        (None, errors + fail(line, missing))
    }
}

/// An object declaration.
pub open spec fn p_object_declaration(
    l: Lexed,
    lo: int,
    hi: int,
    line: nat,
    context: ExpressionContext,
) -> Declared
    decreases hi - lo, 78nat, 0nat,
{
    match decl_head(l, lo, hi) {
        None => undeclared(stuck()),
        Some((head, is_abstract)) => {
            let end = split_header(l, head + 1, hi);
            if !(lo <= head && head + 1 <= end && end <= hi) {
                undeclared(stuck())
            } else {
                match p_header(l, head + 1, end, line, false, context) {
                    Err(errors) => undeclared(errors),
                    Ok(header) => match header.with {
                        None => if !input::empty(l, end, hi) {
                            undeclared(
                                fail(
                                    line,
                                    "object body requires `with` in the declaration header"@,
                                ),
                            )
                        } else if header.alias is Some {
                            undeclared(
                                fail(line, "object declaration `as` requires a `with` body"@),
                            )
                        } else {
                            Declared {
                                term: Some(object_declaration(is_abstract, header, Seq::empty())),
                                errors: Seq::empty(),
                            }
                        },
                        Some(_) => if input::empty(l, end, hi) {
                            undeclared(
                                fail(
                                    line,
                                    "object `with` requires a body; use `with {}` for an explicit empty body"@,
                                ),
                            )
                        } else {
                            let (items, errors) = p_required_body(
                                l,
                                end,
                                hi,
                                line,
                                "object `with` body cannot be empty; use `with {}` for an explicit empty body"@,
                                context,
                            );
                            match items {
                                None => undeclared(errors),
                                Some(items) => Declared {
                                    term: Some(object_declaration(is_abstract, header, items)),
                                    errors,
                                },
                            }
                        },
                    },
                }
            }
        },
    }
}

pub open spec fn object_declaration(is_abstract: bool, header: Header, items: Seq<Term>) -> Term {
    term::node(
        Tag::ObjectDeclaration,
        seq![
            Term::Flag(is_abstract),
            Term::Text(header.target),
            alias_term(header.alias),
            term::many(header.deps),
            term::many(items),
        ],
    )
}

/// The end of the head of an extension, and whether it is abstract.
#[verifier::opaque]
pub open spec fn extend_head(l: Lexed, lo: int, hi: int) -> (int, bool) {
    let s = input::skip(l, lo, hi);
    let k = input::skip(l, s + 1, hi);
    if k < hi && input::is_word(l, k, "abstract"@) {
        (k + 1, true)
    } else {
        (s + 1, false)
    }
}

/// An extension of an object.
pub open spec fn p_extend(
    l: Lexed,
    lo: int,
    hi: int,
    line: nat,
    context: ExpressionContext,
) -> Declared
    decreases hi - lo, 78nat, 0nat,
{
    let (h, is_abstract) = extend_head(l, lo, hi);
    let end = split_header(l, h, hi);
    if !(lo < h && h <= end && end <= hi) {
        undeclared(stuck())
    } else {
        match p_header(l, h, end, line, true, context) {
            Err(errors) => undeclared(errors),
            Ok(header) => if header.with is None {
                undeclared(
                    fail(
                        line,
                        "extend declarations currently require `extend name (as alias)? with`"@,
                    ),
                )
            } else if input::empty(l, end, hi) {
                undeclared(fail(line, "extend declaration requires a body"@))
            } else {
                let (items, errors) = p_required_body(
                    l,
                    end,
                    hi,
                    line,
                    "extend declaration body cannot be empty; use `with {}` for an explicit empty body"@,
                    context,
                );
                match items {
                    None => undeclared(errors),
                    Some(items) => Declared {
                        term: Some(
                            term::node(
                                Tag::Extension,
                                seq![
                                    Term::Flag(is_abstract),
                                    Term::Text(header.target),
                                    alias_term(header.alias),
                                    term::many(items),
                                ],
                            ),
                        ),
                        errors,
                    },
                }
            },
        }
    }
}

proof fn words_differ()
    ensures
        "try"@ != "if"@,
        "try_match"@ != "if"@,
        "try_match"@ != "try"@,
        "try_match"@ != "match"@,
        "using"@ != "if"@,
        "using"@ != "try"@,
        "using"@ != "match"@,
        "using"@ != "try_match"@,
{
    reveal_strlit("if");
    reveal_strlit("try");
    reveal_strlit("match");
    reveal_strlit("try_match");
    reveal_strlit("using");
    assert("if"@.len() == 2 && "try"@.len() == 3 && "try_match"@.len() == 9);
    assert("using"@[0] == 'u');
    assert("match"@[0] == 'm');
}

/// A `try` that stands alone lacks its `then` and `else`.
pub proof fn bare_try_is_incomplete(l: Lexed, i: int, context: ExpressionContext)
    requires
        input::is_word(l, i, "try"@),
    ensures
        p_head(l, i, i + 1, context) == Err::<(Term, int), Seq<DiagnosticView>>(
            fail_view(l, i, i + 1, "try expression requires `then` and `else`"@),
        ),
{
    words_differ();
    reveal(stands);
    reveal(word_free);
    reveal(hard_end);
    reveal(boundaries);
    reveal_strlit("try");
    reveal_strlit(" expression requires `then` and `else`");
    reveal_strlit("try expression requires `then` and `else`");
    assert("try"@ + " expression requires `then` and `else`"@
        =~= "try expression requires `then` and `else`"@);
}

/// A `try_match` that stands alone lacks its `with` and its arms.
pub proof fn bare_try_match_is_incomplete(l: Lexed, i: int, context: ExpressionContext)
    requires
        input::is_word(l, i, "try_match"@),
    ensures
        p_head(l, i, i + 1, context) == Err::<(Term, int), Seq<DiagnosticView>>(
            fail_at(
                l,
                i,
                i + 1,
                "try_match expression requires `with` and at least one layout arm or an explicit `{}` body"@,
            ),
        ),
{
    words_differ();
    reveal(stands);
    reveal(word_free);
    reveal_strlit("try_match");
    reveal_strlit(
        " expression requires `with` and at least one layout arm or an explicit `{}` body",
    );
    reveal_strlit(
        "try_match expression requires `with` and at least one layout arm or an explicit `{}` body",
    );
    assert("try_match"@
        + " expression requires `with` and at least one layout arm or an explicit `{}` body"@
        =~= "try_match expression requires `with` and at least one layout arm or an explicit `{}` body"@);
}

/// A `using` that stands alone lacks its namespace.
pub proof fn bare_using_is_incomplete(l: Lexed, i: int, context: ExpressionContext)
    requires
        input::is_word(l, i, "using"@),
    ensures
        p_head(l, i, i + 1, context) == Err::<(Term, int), Seq<DiagnosticView>>(
            fail_at(l, i, i + 1, "using expression requires a namespace"@),
        ),
{
    words_differ();
    reveal(stands);
    reveal(word_free);
}

} // verus!
