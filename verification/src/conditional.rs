//! Conditionals, matches, and expressions in the scope of a namespace.

use vstd::prelude::*;
use vstd::string::StringExecFns;
use crate::ast::{
    ConditionalMode, ConditionalResultMode, IfExpr, MatchArm, MatchCommitment, MatchExpr,
    MatchOutcome, MatchWhenExpr, SyntaxExpr, SyntaxGuardClause, SyntaxPattern, WhenArm,
};
use crate::diagnostic;
use crate::diagnostic::{Diagnostic, DiagnosticView};
use crate::expression_context::{ExpressionContext, ParsedExpression};
use crate::grammar;
use crate::input;
use crate::input::{MarkText, TokenView};
use crate::layout;
use crate::layout::{LayoutStatement, LayoutView, Member};
use crate::lexical::Lexed;
use crate::notation;
use crate::notation::{
    choice_end, choice_member_views, conditional_boundaries, conditional_word, fail_at, fail_view,
    first_mark, hard_end, joined, last_mark, match_word, phrase, view_line,
};
use crate::pattern::{parse_complete_pattern, parse_guards};
use crate::structural::parse_expression;
use crate::term;
use crate::term::{formed, Tag, Term};

verus! {

pub open spec fn said_arms(result: Result<Vec<MatchArm>, Vec<Diagnostic>>) -> grammar::Outs {
    match result {
        Ok(items) => Ok(term::arms_terms(items@)),
        Err(errors) => Err(diagnostic::reports(errors@)),
    }
}

pub open spec fn said_when_arms(result: Result<Vec<WhenArm>, Vec<Diagnostic>>) -> grammar::Outs {
    match result {
        Ok(items) => Ok(term::when_arms_terms(items@)),
        Err(errors) => Err(diagnostic::reports(errors@)),
    }
}

/// What the reading of an outcome, and of the end of its head, says.
pub open spec fn said_outcome(
    result: Result<(MatchOutcome, usize), Vec<Diagnostic>>,
) -> grammar::Part {
    match result {
        Ok((outcome, head)) => Ok((term::outcome_term(outcome), head as int)),
        Err(errors) => Err(diagnostic::reports(errors@)),
    }
}

/// What is wrong with the first arms is what is wrong with all of them.
pub proof fn arms_fail(l: Lexed, members: Seq<Member>, k: int, lo: int, hi: int, context: ExpressionContext)
    requires
        0 <= k <= members.len(),
    ensures
        grammar::p_arms(l, members.take(k), lo, hi, context) is Err ==> grammar::p_arms(l, members, lo, hi, context)
            == grammar::p_arms(l, members.take(k), lo, hi, context),
    decreases members.len(),
{
    if k < members.len() {
        arms_fail(l, members.drop_last(), k, lo, hi, context);
        assert(members.drop_last().take(k) =~= members.take(k));
    } else {
        assert(members.take(k) =~= members);
    }
}

/// What is wrong with the first arms is what is wrong with all of them.
pub proof fn when_arms_fail(l: Lexed, members: Seq<Member>, k: int, lo: int, hi: int, context: ExpressionContext)
    requires
        0 <= k <= members.len(),
    ensures
        grammar::p_when_arms(l, members.take(k), lo, hi, context) is Err ==> grammar::p_when_arms(l, members, lo, hi, context)
            == grammar::p_when_arms(l, members.take(k), lo, hi, context),
    decreases members.len(),
{
    if k < members.len() {
        when_arms_fail(l, members.drop_last(), k, lo, hi, context);
        assert(members.drop_last().take(k) =~= members.take(k));
    } else {
        assert(members.take(k) =~= members);
    }
}

/// A conditional, and the position after it.
pub fn parse_if_expression(
    view: TokenView<'_>,
    index: usize,
    context: ExpressionContext,
    host: bool,
) -> (result: Result<ParsedExpression, Vec<Diagnostic>>)
    requires
        view.wf(),
        view.lo() <= index < view.hi(),
    ensures
        result matches Err(errors) ==> errors.len() > 0,
        notation::said_extent(result) == grammar::p_if(
            view.l(),
            index as int,
            view.hi(),
            context,
            host,
        ),
        result matches Ok(parsed) ==> index < parsed.end <= view.hi(),
    decreases view.hi() - index, 34nat, 1nat,
{
    let end = hard_end(view, index);
    match parse_owned_if(view.between(view.range.start, end), index, context, host) {
        Ok(choice) => Ok(ParsedExpression::new(choice, end)),
        Err(errors) => Err(errors),
    }
}

/// A conditional, which owns the rest of the view.
#[verifier::spinoff_prover]
fn parse_owned_if(
    view: TokenView<'_>,
    index: usize,
    context: ExpressionContext,
    host: bool,
) -> (result: Result<SyntaxExpr, Vec<Diagnostic>>)
    requires
        view.wf(),
        view.lo() <= index < view.hi(),
    ensures
        result matches Err(errors) ==> errors.len() > 0,
        notation::said(result) == grammar::p_if_within(
            view.l(),
            index as int,
            view.hi(),
            context,
            host,
        ),
    decreases view.hi() - index, 34nat, 0nat,
{
    let word = conditional_word(host);
    let rest = view.between(index, view.range.end);
    let (yes, no) = match conditional_boundaries(rest, host) {
        Ok(found) => found,
        Err(errors) => {
            return Err(errors);
        },
    };
    let guard = view.between(index + 1, yes);
    let then_part = view.between(yes + 1, no);
    let else_part = view.between(no + 1, view.range.end);
    if guard.is_layout_empty() {
        return Err(
            fail_at(
                view,
                index,
                phrase(word, " expression requires a guard before `then`").as_str(),
            ),
        );
    }
    if then_part.is_layout_empty() {
        return Err(
            fail_at(
                view,
                yes,
                phrase(word, " expression requires a result after `then`").as_str(),
            ),
        );
    }
    if else_part.is_layout_empty() {
        return Err(
            fail_at(
                view,
                no,
                phrase(word, " expression requires a fallback after `else`").as_str(),
            ),
        );
    }
    let guards = match parse_guards(guard, context, phrase(word, " guard").as_str()) {
        Ok(guards) => guards,
        Err(errors) => {
            return Err(errors);
        },
    };
    let then_result = match parse_expression(then_part, context.child_owner(then_part)) {
        Ok(then_result) => then_result,
        Err(errors) => {
            return Err(errors);
        },
    };
    match parse_expression(else_part, context.child_owner(else_part)) {
        Ok(else_result) => Ok(if_expr(host, guards, then_result, else_result)),
        Err(errors) => Err(errors),
    }
}

fn mode_of(host: bool) -> (mode: ConditionalMode)
    ensures
        term::mode_term(mode) == Term::Flag(host),
{
    if host {
        ConditionalMode::Host
    } else {
        ConditionalMode::Pure
    }
}

fn commitment_of(host: bool) -> (commitment: MatchCommitment)
    ensures
        term::commitment_term(commitment) == Term::Flag(host),
{
    if host {
        MatchCommitment::Open
    } else {
        MatchCommitment::Cut
    }
}

/// The expression of a conditional.
fn if_expr(
    host: bool,
    guards: Vec<SyntaxGuardClause>,
    then_result: SyntaxExpr,
    else_result: SyntaxExpr,
) -> (expr: SyntaxExpr)
    ensures
        term::expr_term(expr) == term::node(
            Tag::If,
            seq![
                Term::Flag(host),
                term::many(term::guards_terms(guards@)),
                Term::Flag(false),
                term::expr_term(then_result),
                term::expr_term(else_result),
            ],
        ),
{
    formed(
        SyntaxExpr::If(
            IfExpr {
                mode: mode_of(host),
                guards,
                then_mode: ConditionalResultMode::Ordinary,
                then_result: Box::new(then_result),
                else_result: Box::new(else_result),
            },
        ),
    )
}

/// An expression whose names are also those of a namespace.
pub fn parse_using_expression(
    view: TokenView<'_>,
    index: usize,
    context: ExpressionContext,
) -> (result: Result<SyntaxExpr, Vec<Diagnostic>>)
    requires
        view.wf(),
        view.lo() <= index < view.hi(),
    ensures
        result matches Err(errors) ==> errors.len() > 0,
        notation::said(result) == grammar::p_using(view.l(), index as int, view.hi(), context),
    decreases view.hi() - index, 34nat, 0nat,
{
    let rest = view.between(index + 1, view.range.end);
    let found = first_mark(rest, MarkText::Word("in"));
    let word = match found {
        Some(word) => word,
        None => view.range.end,
    };
    let before = view.between(index + 1, word);
    if before.is_layout_empty() {
        return Err(fail_at(view, index, "using expression requires a namespace"));
    }
    if found.is_none() {
        return Err(fail_at(view, index, "using expression requires `in` and a body"));
    }
    let after = view.between(word + 1, view.range.end);
    if after.is_layout_empty() {
        return Err(fail_at(view, word, "using expression requires a body after `in`"));
    }
    let namespace = match parse_expression(before, context.child_owner(before)) {
        Ok(namespace) => namespace,
        Err(errors) => {
            return Err(errors);
        },
    };
    match parse_expression(after, context.child_owner(after)) {
        Ok(body) => Ok(
            formed(
                SyntaxExpr::Using { namespace: Box::new(namespace), body: Box::new(body) },
            ),
        ),
        Err(errors) => Err(errors),
    }
}

/// A match, by its subject or by guards alone, and the position after it.
pub fn parse_match_expression(
    view: TokenView<'_>,
    index: usize,
    context: ExpressionContext,
    host: bool,
) -> (result: Result<ParsedExpression, Vec<Diagnostic>>)
    requires
        view.wf(),
        view.lo() <= index < view.hi(),
    ensures
        result matches Err(errors) ==> errors.len() > 0,
        notation::said_extent(result) == grammar::p_match(
            view.l(),
            index as int,
            view.hi(),
            context,
            host,
        ),
        result matches Ok(parsed) ==> index < parsed.end <= view.hi(),
    decreases view.hi() - index, 34nat, 0nat,
{
    let next = view.skip(index + 1);
    if next < view.range.end && view.is_word(next, "when") {
        parse_match_when(view, index, next, context, host)
    } else {
        parse_match_with(view, index, context, host)
    }
}

/// The expression of a match by guards alone.
fn match_when_expr(host: bool, line: usize, arms: Vec<WhenArm>) -> (expr: SyntaxExpr)
    ensures
        term::expr_term(expr) == term::node(
            Tag::MatchWhen,
            seq![
                Term::Size(line as nat),
                Term::Flag(host),
                Term::Flag(host),
                term::many(term::when_arms_terms(arms@)),
            ],
        ),
{
    formed(
        SyntaxExpr::MatchWhen(
            MatchWhenExpr { line, mode: mode_of(host), commitment: commitment_of(host), arms },
        ),
    )
}

/// A match by guards alone.
fn parse_match_when(
    view: TokenView<'_>,
    index: usize,
    next: usize,
    context: ExpressionContext,
    host: bool,
) -> (result: Result<ParsedExpression, Vec<Diagnostic>>)
    requires
        view.wf(),
        view.lo() <= index < view.hi(),
        index < next < view.hi(),
    ensures
        result matches Err(errors) ==> errors.len() > 0,
        notation::said_extent(result) == grammar::p_match_when(
            view.l(),
            index as int,
            next as int,
            view.hi(),
            context,
            host,
        ),
        result matches Ok(parsed) ==> index < parsed.end <= view.hi(),
    decreases view.hi() - index, 33nat, 0nat,
{
    let line = view.line(index);
    let word = match_word(host);
    let body = view.between(next + 1, view.range.end);
    let (members, end) = match choice_member_views(
        body,
        context,
        phrase(word, "-when body").as_str(),
        joined("layout `", word, " when` requires at least one arm").as_str(),
        true,
    ) {
        Ok(found) => found,
        Err(errors) => {
            return Err(errors);
        },
    };
    let arms = match parse_when_arms(body, &members, context) {
        Ok(arms) => arms,
        Err(errors) => {
            return Err(errors);
        },
    };
    match choice_end(body, end) {
        Ok(end) => Ok(ParsedExpression::new(match_when_expr(host, line, arms), end)),
        Err(errors) => Err(errors),
    }
}

/// The expression of a match by its subject.
fn match_expr(host: bool, line: usize, subject: SyntaxExpr, arms: Vec<MatchArm>) -> (expr:
    SyntaxExpr)
    ensures
        term::expr_term(expr) == term::node(
            Tag::Match,
            seq![
                Term::Size(line as nat),
                Term::Flag(host),
                Term::Flag(host),
                term::expr_term(subject),
                term::many(term::arms_terms(arms@)),
            ],
        ),
{
    formed(
        SyntaxExpr::Match(
            MatchExpr {
                line,
                mode: mode_of(host),
                commitment: commitment_of(host),
                subject: Box::new(subject),
                arms,
            },
        ),
    )
}

/// A match by its subject.
#[verifier::spinoff_prover]
fn parse_match_with(
    view: TokenView<'_>,
    index: usize,
    context: ExpressionContext,
    host: bool,
) -> (result: Result<ParsedExpression, Vec<Diagnostic>>)
    requires
        view.wf(),
        view.lo() <= index < view.hi(),
    ensures
        result matches Err(errors) ==> errors.len() > 0,
        notation::said_extent(result) == grammar::p_match_with(
            view.l(),
            index as int,
            view.hi(),
            context,
            host,
        ),
        result matches Ok(parsed) ==> index < parsed.end <= view.hi(),
    decreases view.hi() - index, 33nat, 0nat,
{
    let line = view.line(index);
    let word = match_word(host);
    let rest = view.between(index + 1, view.range.end);
    let with = match first_mark(rest, MarkText::Word("with")) {
        Some(with) => with,
        None => {
            return Err(
                fail_at(
                    view,
                    index,
                    phrase(
                        word,
                        " expression requires `with` and at least one layout arm or an explicit `{}` body",
                    ).as_str(),
                ),
            );
        },
    };
    let before = view.between(index + 1, with);
    if before.is_layout_empty() {
        return Err(
            fail_at(
                view,
                index,
                phrase(word, " expression requires a subject before `with`").as_str(),
            ),
        );
    }
    let subject = match parse_expression(before, context.child_owner(before)) {
        Ok(subject) => subject,
        Err(errors) => {
            return Err(errors);
        },
    };
    let body = view.between(with + 1, view.range.end);
    let (members, end) = match choice_member_views(
        body,
        context,
        phrase(word, " body").as_str(),
        joined("layout ", word, " expression requires at least one arm").as_str(),
        true,
    ) {
        Ok(found) => found,
        Err(errors) => {
            return Err(errors);
        },
    };
    let arms = match parse_arms(body, &members, context) {
        Ok(arms) => arms,
        Err(errors) => {
            return Err(errors);
        },
    };
    match choice_end(body, end) {
        Ok(end) => Ok(ParsedExpression::new(match_expr(host, line, subject, arms), end)),
        Err(errors) => Err(errors),
    }
}

/// The arms of a match.
fn parse_arms(
    view: TokenView<'_>,
    members: &Vec<LayoutStatement>,
    context: ExpressionContext,
) -> (result: Result<Vec<MatchArm>, Vec<Diagnostic>>)
    requires
        view.wf(),
        notation::fits(members@, view.lo(), view.hi()),
    ensures
        result matches Err(errors) ==> errors.len() > 0,
        said_arms(result) == grammar::p_arms(
            view.l(),
            layout::members_of(members@),
            view.lo(),
            view.hi(),
            context,
        ),
    decreases view.hi() - view.lo(), 72nat, 0nat,
{
    let ghost all = layout::members_of(members@);
    let ghost l = view.l();
    assert(all.len() == members.len());
    let mut done: Vec<MatchArm> = Vec::new();
    let mut k: usize = 0;
    assert(term::arms_terms(done@) =~= Seq::empty());
    while k < members.len()
        invariant
            view.wf(),
            l == view.l(),
            k <= members.len(),
            all == layout::members_of(members@),
            all.len() == members.len(),
            notation::fits(members@, view.lo(), view.hi()),
            grammar::p_arms(l, all.take(k as int), view.lo(), view.hi(), context) == Ok::<
                Seq<Term>,
                Seq<DiagnosticView>,
            >(term::arms_terms(done@)),
        decreases members.len() - k,
    {
        proof {
            assert(all.take(k + 1).drop_last() =~= all.take(k as int));
            assert(all.take(k + 1).last() == members@[k as int]@);
            arms_fail(l, all, k + 1, view.lo(), view.hi(), context);
        }
        let range = members[k].tokens;
        match parse_match_arm(view.between(range.start, range.end), context) {
            Ok(arm) => {
                proof {
                    term::arms_terms_push(done@, arm);
                }
                done.push(arm);
            },
            Err(errors) => {
                return Err(errors);
            },
        }
        k = k + 1;
    }
    assert(all.take(members.len() as int) =~= all);
    Ok(done)
}

/// The arms of a match by guards.
fn parse_when_arms(
    view: TokenView<'_>,
    members: &Vec<LayoutStatement>,
    context: ExpressionContext,
) -> (result: Result<Vec<WhenArm>, Vec<Diagnostic>>)
    requires
        view.wf(),
        notation::fits(members@, view.lo(), view.hi()),
    ensures
        result matches Err(errors) ==> errors.len() > 0,
        said_when_arms(result) == grammar::p_when_arms(
            view.l(),
            layout::members_of(members@),
            view.lo(),
            view.hi(),
            context,
        ),
    decreases view.hi() - view.lo(), 72nat, 0nat,
{
    let ghost all = layout::members_of(members@);
    let ghost l = view.l();
    assert(all.len() == members.len());
    let mut done: Vec<WhenArm> = Vec::new();
    let mut k: usize = 0;
    assert(term::when_arms_terms(done@) =~= Seq::empty());
    while k < members.len()
        invariant
            view.wf(),
            l == view.l(),
            k <= members.len(),
            all == layout::members_of(members@),
            all.len() == members.len(),
            notation::fits(members@, view.lo(), view.hi()),
            grammar::p_when_arms(l, all.take(k as int), view.lo(), view.hi(), context) == Ok::<
                Seq<Term>,
                Seq<DiagnosticView>,
            >(term::when_arms_terms(done@)),
        decreases members.len() - k,
    {
        proof {
            assert(all.take(k + 1).drop_last() =~= all.take(k as int));
            assert(all.take(k + 1).last() == members@[k as int]@);
            when_arms_fail(l, all, k + 1, view.lo(), view.hi(), context);
        }
        let range = members[k].tokens;
        match parse_when_arm(view.between(range.start, range.end), context) {
            Ok(arm) => {
                proof {
                    term::when_arms_terms_push(done@, arm);
                }
                done.push(arm);
            },
            Err(errors) => {
                return Err(errors);
            },
        }
        k = k + 1;
    }
    assert(all.take(members.len() as int) =~= all);
    Ok(done)
}

/// The outcome of an arm, and the end of its head.
fn split_choice_arm(
    view: TokenView<'_>,
    context: ExpressionContext,
    label: &str,
    required: &str,
) -> (result: Result<(MatchOutcome, usize), Vec<Diagnostic>>)
    requires
        view.wf(),
    ensures
        result matches Err(errors) ==> errors.len() > 0,
        said_outcome(result) == grammar::p_choice(
            view.l(),
            view.lo(),
            view.hi(),
            context,
            label@,
            required@,
        ),
        result matches Ok((_, head)) ==> view.lo() <= head < view.hi(),
    decreases view.hi() - view.lo(), 69nat, 0nat,
{
    let end = view.range.end;
    let lines = LayoutView::new(view).lines();
    let ghost rows = layout::rows_of(lines@);
    assert(rows.len() == lines.len());
    if lines.len() == 0 {
        return Err(fail_view(view, phrase(label, " cannot be empty").as_str()));
    }
    proof {
        layout::rows_bounds(view.l(), view.lo(), view.hi());
        assert(rows[0] == lines@[0]@);
    }
    let first = view.between(lines[0].tokens.start, lines[0].tokens.end);
    let arrows = first.top_level_symbols("=>");
    assert(input::indices(arrows@).len() == arrows.len());
    if arrows.len() > 1 {
        return Err(
            fail_view(view, phrase(label, " permits exactly one top-level `=>`").as_str()),
        );
    }
    if arrows.len() == 1 {
        let arrow = arrows[0];
        assert(input::indices(arrows@)[0] == arrow);
        let rest = view.between(arrow + 1, end);
        if view.between(view.range.start, arrow).is_layout_empty() {
            let mut message = joined(label, " requires ", required);
            message.append(" before `=>`");
            return Err(fail_view(view, message.as_str()));
        }
        if rest.is_layout_empty() {
            return Err(fail_view(view, phrase(label, " requires a result after `=>`").as_str()));
        }
        return match parse_expression(rest, context.child_owner(rest)) {
            Ok(expression) => {
                let outcome = MatchOutcome::Result {
                    line: view_line(rest),
                    mode: ConditionalResultMode::Ordinary,
                    expression,
                };
                proof {
                    term::outcome_def(outcome);
                }
                Ok((outcome, arrow))
            },
            Err(errors) => Err(errors),
        };
    }
    let when = match last_mark(first, MarkText::Word("when")) {
        Some(when) => when,
        None => {
            return Err(
                fail_view(
                    view,
                    phrase(label, " requires `=>` or a trailing `when` child block").as_str(),
                ),
            );
        },
    };
    if view.between(view.range.start, when).is_layout_empty() {
        let mut message = joined(label, " requires ", required);
        message.append(" before nested `when`");
        return Err(fail_view(view, message.as_str()));
    }
    let nested = context.with_continuation_floor(lines[0].indentation);
    let body = view.between(when + 1, end);
    let (members, _) = match choice_member_views(
        body,
        nested,
        "nested match-when body",
        "nested `when` requires at least one child arm",
        false,
    ) {
        Ok(found) => found,
        Err(errors) => {
            return Err(errors);
        },
    };
    match parse_when_arms(body, &members, nested) {
        Ok(arms) => {
            let outcome = MatchOutcome::Nested(arms);
            proof {
                term::outcome_def(outcome);
            }
            Ok((outcome, when))
        },
        Err(errors) => Err(errors),
    }
}

/// An arm, with what its term is made of.
fn match_arm(
    line: usize,
    pattern: SyntaxPattern,
    guards: Vec<SyntaxGuardClause>,
    outcome: MatchOutcome,
) -> (arm: MatchArm)
    ensures
        arm == (MatchArm { line, pattern, guards, outcome }),
        term::arm_term(arm) == term::arm_shape(arm),
{
    let arm = MatchArm { line, pattern, guards, outcome };
    proof {
        term::arm_def(arm);
    }
    arm
}

/// An arm of a match: a pattern, guards, and an outcome.
fn parse_match_arm(view: TokenView<'_>, context: ExpressionContext) -> (result: Result<
    MatchArm,
    Vec<Diagnostic>,
>)
    requires
        view.wf(),
    ensures
        result matches Err(errors) ==> errors.len() > 0,
        match result {
            Ok(arm) => grammar::p_arm(view.l(), view.lo(), view.hi(), context) == Ok::<
                Term,
                Seq<DiagnosticView>,
            >(term::arm_term(arm)),
            Err(errors) => grammar::p_arm(view.l(), view.lo(), view.hi(), context) == Err::<
                Term,
                Seq<DiagnosticView>,
            >(diagnostic::reports(errors@)),
        },
    decreases view.hi() - view.lo(), 70nat, 0nat,
{
    let inner = view.trim_layout();
    let (outcome, head) = match split_choice_arm(inner, context, "match arm", "a pattern") {
        Ok(found) => found,
        Err(errors) => {
            return Err(errors);
        },
    };
    let line = view_line(inner);
    let start = inner.range.start;
    let before = inner.between(start, head);
    let whens = before.contextual_keywords("when");
    assert(input::indices(whens@).len() == whens.len());
    if whens.len() > 1 {
        return Err(fail_view(inner, "match arm permits one top-level `when` guard boundary"));
    }
    if whens.len() == 1 {
        let when = whens[0];
        assert(input::indices(whens@)[0] == when);
        let left = inner.between(start, when);
        let right = inner.between(when + 1, head);
        if left.is_layout_empty() {
            return Err(fail_view(inner, "match arm requires a pattern before `when`"));
        }
        if right.is_layout_empty() {
            return Err(fail_view(inner, "match arm requires guards after `when`"));
        }
        let pattern = match parse_complete_pattern(left, context) {
            Ok(pattern) => pattern,
            Err(errors) => {
                return Err(errors);
            },
        };
        return match parse_guards(right, context, "match arm guard") {
            Ok(guards) => Ok(match_arm(line, pattern, guards, outcome)),
            Err(errors) => Err(errors),
        };
    }
    match parse_complete_pattern(before, context) {
        Ok(pattern) => {
            let guards = Vec::new();
            assert(term::guards_terms(guards@) =~= Seq::empty());
            Ok(match_arm(line, pattern, guards, outcome))
        },
        Err(errors) => Err(errors),
    }
}

/// An arm of a match by guards.
fn parse_when_arm(view: TokenView<'_>, context: ExpressionContext) -> (result: Result<
    WhenArm,
    Vec<Diagnostic>,
>)
    requires
        view.wf(),
    ensures
        result matches Err(errors) ==> errors.len() > 0,
        match result {
            Ok(arm) => grammar::p_when_arm(view.l(), view.lo(), view.hi(), context) == Ok::<
                Term,
                Seq<DiagnosticView>,
            >(term::when_arm_term(arm)),
            Err(errors) => grammar::p_when_arm(view.l(), view.lo(), view.hi(), context) == Err::<
                Term,
                Seq<DiagnosticView>,
            >(diagnostic::reports(errors@)),
        },
    decreases view.hi() - view.lo(), 70nat, 0nat,
{
    let inner = view.trim_layout();
    let (outcome, head) = match split_choice_arm(inner, context, "match-when arm", "guards") {
        Ok(found) => found,
        Err(errors) => {
            return Err(errors);
        },
    };
    let line = view_line(inner);
    match parse_guards(
        inner.between(inner.range.start, head),
        context,
        "match-when arm guard",
    ) {
        Ok(guards) => {
            let arm = WhenArm { line, guards, outcome };
            proof {
                term::when_arm_def(arm);
            }
            Ok(arm)
        },
        Err(errors) => Err(errors),
    }
}

} // verus!
