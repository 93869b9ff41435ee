//! `do` blocks and their statements.

use vstd::prelude::*;
use vstd::string::StringExecFns;
use crate::ast::{DoExpr, DoStep, DoStepKind, SyntaxExpr, SyntaxPattern};
use crate::diagnostic;
use crate::diagnostic::Diagnostic;
use crate::expression_context::{validate_expression_floor, ExpressionContext};
use crate::grammar;
use crate::grammar::ClauseLabels;
use crate::input;
use crate::input::{MarkText, TokenView};
use crate::layout;
use crate::keywords::g0_layout_introducer;
use crate::layout::{LayoutBase, LayoutLine, LayoutStatement, LayoutView, Member};
use crate::lexical::{Delimiter, Lexed, TokenKind};
use crate::notation;
use crate::notation::{
    abstract_names, column, expected, fail, fail_at, fail_view, first_mark, has_gap, kind_at,
    layout_failure, list_parts, local_of, part_members, phrase, stands,
};
use crate::pattern::parse_pattern;
use crate::structural::parse_expression;
use crate::term;
use crate::term::{formed, Tag, Term};
use crate::text;

verus! {

/// A statement or a clause of a guard, before it is known which of them.
pub enum Clause {
    Bind(SyntaxPattern, SyntaxExpr),
    Value(SyntaxPattern, SyntaxExpr),
    Effect(SyntaxExpr),
}

pub open spec fn clause_term(clause: Clause, labels: ClauseLabels) -> Term {
    match clause {
        Clause::Bind(pattern, operation) => term::node(
            labels.bind,
            seq![term::pattern_term(pattern), term::expr_term(operation)],
        ),
        Clause::Value(pattern, value) => term::node(
            labels.value,
            seq![term::pattern_term(pattern), term::expr_term(value)],
        ),
        Clause::Effect(expr) => term::node(labels.effect, seq![term::expr_term(expr)]),
    }
}

pub open spec fn said_clause(
    result: Result<Clause, Vec<Diagnostic>>,
    labels: ClauseLabels,
) -> grammar::Out {
    match result {
        Ok(clause) => Ok(clause_term(clause, labels)),
        Err(errors) => Err(diagnostic::reports(errors@)),
    }
}

pub open spec fn said_steps(result: Result<Vec<DoStep>, Vec<Diagnostic>>) -> grammar::Outs {
    match result {
        Ok(items) => Ok(term::steps_terms(items@)),
        Err(errors) => Err(diagnostic::reports(errors@)),
    }
}

/// What the reading of a statement says.
pub open spec fn said_kind(result: Result<DoStepKind, Vec<Diagnostic>>) -> grammar::Out {
    match result {
        Ok(kind) => Ok(term::step_kind_term(kind)),
        Err(errors) => Err(diagnostic::reports(errors@)),
    }
}

/// What is wrong with the first statements is what is wrong with all of them.
pub proof fn statements_fail(l: Lexed, members: Seq<Member>, k: int, lo: int, hi: int, context: ExpressionContext)
    requires
        0 <= k <= members.len(),
    ensures
        grammar::p_statements(l, members.take(k), lo, hi, context) is Err ==> grammar::p_statements(l, members, lo, hi, context)
            == grammar::p_statements(l, members.take(k), lo, hi, context),
    decreases members.len(),
{
    if k < members.len() {
        statements_fail(l, members.drop_last(), k, lo, hi, context);
        assert(members.drop_last().take(k) =~= members.take(k));
    } else {
        assert(members.take(k) =~= members);
    }
}

/// A `do` block and the position after it.
pub fn parse_do(view: TokenView<'_>, index: usize, context: ExpressionContext) -> (result: Result<
    (SyntaxExpr, usize),
    Vec<Diagnostic>,
>)
    requires
        view.wf(),
        view.lo() <= index < view.hi(),
    ensures
        result matches Err(errors) ==> errors.len() > 0,
        notation::said_at(result) == grammar::p_do(view.l(), index as int, view.hi(), context),
        result matches Ok((_, end)) ==> index < end <= view.hi(),
    decreases view.hi() - index, 26nat, 0nat,
{
    let start = view.skip(index + 1);
    if start >= view.range.end {
        return Err(
            fail_at(view, index, "layout do expression requires a newline-delimited block"),
        );
    }
    if start == index + 1 && view.is_joint(start) {
        return Err(fail_at(view, index, "`do` must be separated from its body"));
    }
    match view.opens(start, Delimiter::Brace) {
        Some(close) => parse_braced_body(view, index, start, close, context),
        None => parse_layout_body(view, index, start, context),
    }
}

/// The block `do {}`.
fn empty_do_expr(line: usize) -> (expr: SyntaxExpr)
    ensures
        term::expr_term(expr) == grammar::empty_do(line as nat),
{
    proof {
        reveal(grammar::empty_do);
    }
    let mut path: Vec<String> = Vec::new();
    path.push("r".to_owned());
    let none: Vec<DoStep> = Vec::new();
    proof {
        assert(term::words(path@) =~= term::spelled(seq!["r"@]));
        assert(term::steps_terms(none@) =~= Seq::empty());
    }
    let effect = formed(SyntaxExpr::Effect(path));
    let result = formed(SyntaxExpr::Apply(Box::new(effect), Box::new(formed(SyntaxExpr::Unit))));
    assert(term::expr_term(effect) == term::node(Tag::Effect, term::spelled(seq!["r"@])));
    formed(SyntaxExpr::Do(DoExpr { steps: none, result_line: line, result: Box::new(result) }))
}

/// A block in braces.
fn parse_braced_body(
    view: TokenView<'_>,
    index: usize,
    open: usize,
    close: usize,
    context: ExpressionContext,
) -> (result: Result<(SyntaxExpr, usize), Vec<Diagnostic>>)
    requires
        view.wf(),
        view.lo() <= index < open < close < view.hi(),
        open == input::skip(view.l(), index + 1, view.hi()),
        !(open == index + 1 && input::is_joint(view.l(), open as int)),
        input::opens(view.l(), open as int, view.hi(), Delimiter::Brace) == Some(close as int),
    ensures
        result matches Err(errors) ==> errors.len() > 0,
        notation::said_at(result) == grammar::p_do(view.l(), index as int, view.hi(), context),
        result matches Ok((_, end)) ==> index < end <= view.hi(),
    decreases view.hi() - index, 25nat, 0nat,
{
    let inner = view.between(open + 1, close);
    if inner.is_layout_empty() {
        return Ok((empty_do_expr(view.line(index)), close + 1));
    }
    let views = inner.split_top_level(";");
    let items = list_parts(&views, Ghost(inner));
    assert(input::ranges(items@).len() == items.len());
    if items.len() == 0 {
        return Err(
            fail_at(
                view,
                index,
                "`do {;}` is invalid; a semicolon is not an empty computation",
            ),
        );
    }
    if has_gap(&items, Ghost(inner)) {
        return Err(
            fail_at(
                view,
                index,
                "braced do block contains an empty statement between semicolons",
            ),
        );
    }
    let members = part_members(&items, Ghost(inner));
    let rest = view.between(index + 1, view.range.end);
    match parse_statements(rest, &members, context) {
        Ok(steps) => match finish_do_statements(steps) {
            Ok(block) => Ok((block, close + 1)),
            Err(message) => Err(fail_at(view, index, message)),
        },
        Err(errors) => Err(errors),
    }
}

fn sibling_text(actual: usize, anchor: usize) -> (message: String)
    ensures
        message@ == grammar::sibling_message(actual as nat, anchor as nat),
{
    let mut message = "layout line is indented ".to_owned();
    text::push_decimal(&mut message, actual);
    message.append(" spaces; expected sibling indentation ");
    text::push_decimal(&mut message, anchor);
    assert(message@ =~= grammar::sibling_message(actual as nat, anchor as nat));
    message
}

/// Whether a line binds, and whether it ends with a word that begins a layout.
fn line_traits(view: TokenView<'_>, line: LayoutLine) -> (found: (bool, bool))
    requires
        view.wf(),
        view.lo() <= line@.lo < line@.hi <= view.hi(),
    ensures
        found.0 == grammar::binds(view.l(), line@),
        found.1 == grammar::introduces(view.l(), line@),
{
    let row = view.between(line.tokens.start, line.tokens.end);
    let marks = row.find(MarkText::Symbol("<-"));
    assert(input::indices(marks@).len() == marks.len());
    let word = match kind_at(view, line.tokens.end - 1) {
        TokenKind::Name(word) => g0_layout_introducer(word.as_str()),
        _ => false,
    };
    (marks.len() > 0, word)
}

/// What is wrong with the statements of a block.
fn statement_failure(
    view: TokenView<'_>,
    index: usize,
    start: usize,
    errors: Vec<Diagnostic>,
) -> (found: Vec<Diagnostic>)
    requires
        view.wf(),
        view.lo() <= index < start < view.hi(),
    ensures
        errors.len() > 0 ==> found.len() > 0,
        diagnostic::reports(found@) == grammar::statement_errors(
            view.l(),
            index as int,
            start as int,
            view.hi(),
            diagnostic::reports(errors@),
        ),
{
    proof {
        reveal(grammar::statement_errors);
    }
    if start > index + 1 {
        return errors;
    }
    let anchor = column(view, start);
    let rest = view.between(index + 1, view.range.end);
    let lines = LayoutView::new(rest).lines();
    let ghost l = view.l();
    let ghost rows = layout::rows(l, index + 1, view.hi());
    proof {
        layout::rows_bounds(l, index + 1, view.hi());
        assert(layout::rows_of(lines@).len() == lines.len());
    }
    let mut k: usize = 0;
    let mut bound = false;
    let mut opened = false;
    while k < lines.len()
        invariant
            view.wf(),
            l == view.l(),
            rows == layout::rows(l, index + 1, view.hi()),
            layout::rows_of(lines@) == rows,
            rows.len() == lines.len(),
            layout::rows_within(rows, index + 1, view.hi()),
            view.lo() <= index < start < view.hi(),
            start == index + 1,
            anchor == grammar::column(l, start as int),
            k <= lines.len(),
            k > 0 ==> bound == grammar::binds(l, rows[k - 1]),
            k > 0 ==> opened == grammar::introduces(l, rows[k - 1]),
            grammar::first_misplaced(l, rows, 0, anchor as nat) == grammar::first_misplaced(
                l,
                rows,
                k as int,
                anchor as nat,
            ),
        decreases lines.len() - k,
    {
        let line = lines[k];
        assert(rows[k as int] == line@);
        let (binds, introduces) = line_traits(view, line);
        if k > 0 {
            let prior = lines[k - 1];
            assert(rows[k - 1] == prior@);
            if line.indentation > anchor && binds && bound && !opened && (k == 1
                || prior.indentation == anchor) {
                assert(grammar::misplaced(l, rows, k as int, anchor as nat));
                proof {
                    reveal(grammar::statement_errors);
                }
                let message = sibling_text(line.indentation, anchor);
                return fail(line.line, message.as_str());
            }
        }
        bound = binds;
        opened = introduces;
        k = k + 1;
    }
    errors
}

/// A block of lines.
fn parse_layout_body(
    view: TokenView<'_>,
    index: usize,
    start: usize,
    context: ExpressionContext,
) -> (result: Result<(SyntaxExpr, usize), Vec<Diagnostic>>)
    requires
        view.wf(),
        view.lo() <= index < start < view.hi(),
        start == input::skip(view.l(), index + 1, view.hi()),
        !(start == index + 1 && input::is_joint(view.l(), start as int)),
        input::opens(view.l(), start as int, view.hi(), Delimiter::Brace) is None,
    ensures
        result matches Err(errors) ==> errors.len() > 0,
        notation::said_at(result) == grammar::p_do(view.l(), index as int, view.hi(), context),
        result matches Ok((_, end)) ==> end == view.hi(),
    decreases view.hi() - index, 25nat, 0nat,
{
    let base = if start > index + 1 {
        LayoutBase::FirstLine
    } else {
        LayoutBase::Hanging(column(view, start))
    };
    let rest = view.between(index + 1, view.range.end);
    proof {
        layout::block_bounds(view.l(), index + 1, view.hi(), base);
    }
    match LayoutView::new(rest).block(base) {
        Err(error) => Err(layout_failure(error)),
        Ok(block) => {
            assert(layout::members_of(block.statements@).len() == block.statements.len());
            match block.boundary {
                Some(row) => {
                    if start == index + 1 {
                        let message = sibling_text(row.indentation, block.anchor);
                        return Err(fail(row.line, message.as_str()));
                    }
                    let mut message = "layout line ".to_owned();
                    text::push_decimal(&mut message, row.line);
                    message.append(" is indented less than the first statement");
                    assert(message@ =~= grammar::shallow_message(row.line as nat));
                    Err(fail(row.line, message.as_str()))
                },
                None => {
                    if block.statements.len() == 0 {
                        return Err(
                            fail_at(
                                view,
                                index,
                                "layout do expression requires at least one statement",
                            ),
                        );
                    }
                    proof {
                        notation::block_fits(block.statements@, index + 1, view.hi());
                    }
                    match parse_statements(rest, &block.statements, context) {
                        Ok(steps) => match finish_do_statements(steps) {
                            Ok(block) => Ok((block, view.range.end)),
                            Err(message) => Err(fail_at(view, index, message)),
                        },
                        Err(errors) => Err(statement_failure(view, index, start, errors)),
                    }
                },
            }
        },
    }
}

/// The block that statements form.
fn finish_do_statements(steps: Vec<DoStep>) -> (result: Result<SyntaxExpr, &'static str>)
    requires
        steps.len() > 0,
    ensures
        match result {
            Ok(block) => grammar::finished_do(term::steps_terms(steps@)) == Ok::<Term, Seq<char>>(
                term::expr_term(block),
            ),
            Err(message) => grammar::finished_do(term::steps_terms(steps@)) == Err::<
                Term,
                Seq<char>,
            >(message@),
        },
{
    proof {
        reveal(grammar::finished_do);
    }
    let ghost all = steps@;
    let ghost terms = term::steps_terms(all);
    let mut rest = steps;
    match rest.pop() {
        Some(last) => {
            proof {
                assert(rest@ =~= all.drop_last());
                assert(all =~= rest@.push(last));
                term::steps_terms_push(rest@, last);
                assert(terms.drop_last() =~= term::steps_terms(rest@));
                assert(terms.last() == term::step_term(last));
                term::step_def(last);
                term::step_kind_def(last.kind);
            }
            match last.kind {
                DoStepKind::Then(result) => Ok(
                    formed(SyntaxExpr::Do(
                        DoExpr { steps: rest, result_line: last.line, result: Box::new(result) },
                    )),
                ),
                DoStepKind::Abstract(_) => Err(
                    "do block cannot end with an abstract declaration; add its fulfillment and a final expression",
                ),
                _ => Err("do block cannot end with a binding; add a final expression"),
            }
        },
        None => Err("do block cannot end with a binding; add a final expression"),
    }
}

/// The statements of a block. There is a statement for each member.
fn parse_statements(
    view: TokenView<'_>,
    members: &Vec<LayoutStatement>,
    context: ExpressionContext,
) -> (result: Result<Vec<DoStep>, Vec<Diagnostic>>)
    requires
        view.wf(),
        notation::fits(members@, view.lo(), view.hi()),
    ensures
        result matches Err(errors) ==> errors.len() > 0,
        said_steps(result) == grammar::p_statements(
            view.l(),
            layout::members_of(members@),
            view.lo(),
            view.hi(),
            context,
        ),
        result matches Ok(steps) ==> steps.len() == members.len(),
    decreases view.hi() - view.lo(), 65nat, 0nat,
{
    let ghost all = layout::members_of(members@);
    let ghost l = view.l();
    assert(all.len() == members.len());
    let mut done: Vec<DoStep> = Vec::new();
    let mut k: usize = 0;
    assert(term::steps_terms(done@) =~= Seq::empty());
    while k < members.len()
        invariant
            view.wf(),
            l == view.l(),
            k <= members.len(),
            done.len() == k,
            all == layout::members_of(members@),
            all.len() == members.len(),
            notation::fits(members@, view.lo(), view.hi()),
            grammar::p_statements(l, all.take(k as int), view.lo(), view.hi(), context) == Ok::<
                Seq<Term>,
                Seq<diagnostic::DiagnosticView>,
            >(term::steps_terms(done@)),
        decreases members.len() - k,
    {
        proof {
            assert(all.take(k + 1).drop_last() =~= all.take(k as int));
            assert(all.take(k + 1).last() == members@[k as int]@);
            statements_fail(l, all, k + 1, view.lo(), view.hi(), context);
        }
        let range = members[k].tokens;
        match parse_statement(view.between(range.start, range.end), context) {
            Ok(kind) => {
                let step = DoStep { line: members[k].line, kind };
                proof {
                    term::steps_terms_push(done@, step);
                    term::step_def(step);
                }
                done.push(step);
            },
            Err(errors) => {
                return Err(errors);
            },
        }
        k = k + 1;
    }
    assert(all.take(members.len() as int) =~= all);
    Ok(done)
}

/// A statement, with what its term is made of.
fn statement(kind: DoStepKind) -> (same: DoStepKind)
    ensures
        same == kind,
        term::step_kind_term(same) == term::step_kind_shape(same),
{
    proof {
        term::step_kind_def(kind);
    }
    kind
}

/// How the clauses of a block are named.
pub open spec fn step_labels() -> ClauseLabels {
    ClauseLabels {
        bind: Tag::BindStep,
        value: Tag::ValueBindStep,
        effect: Tag::ThenStep,
        name: "do binding"@,
        value_name: "do value binding"@,
        forward_name: "a do forward binding"@,
    }
}

/// The statement that a clause is.
fn step_of(clause: Result<Clause, Vec<Diagnostic>>) -> (result: Result<DoStepKind, Vec<Diagnostic>>)
    requires
        clause matches Err(errors) ==> errors.len() > 0,
    ensures
        result matches Err(errors) ==> errors.len() > 0,
        said_kind(result) == said_clause(clause, step_labels()),
{
    match clause {
        Ok(Clause::Bind(pattern, operation)) => Ok(
            statement(DoStepKind::Bind { pattern, operation }),
        ),
        Ok(Clause::Value(pattern, value)) => Ok(
            statement(DoStepKind::ValueBind { pattern, value }),
        ),
        Ok(Clause::Effect(expr)) => Ok(statement(DoStepKind::Then(expr))),
        Err(errors) => Err(errors),
    }
}

/// A statement of a block.
#[verifier::spinoff_prover]
pub fn parse_statement(view: TokenView<'_>, context: ExpressionContext) -> (result: Result<
    DoStepKind,
    Vec<Diagnostic>,
>)
    requires
        view.wf(),
    ensures
        result matches Err(errors) ==> errors.len() > 0,
        said_kind(result) == grammar::p_statement(view.l(), view.lo(), view.hi(), context),
    decreases view.hi() - view.lo(), 63nat, 0nat,
{
    let inner = view.trim_layout();
    let child = context.child_owner(inner);
    let (own, errors) = validate_expression_floor(inner, child);
    assert(diagnostic::reports(errors@).len() == errors.len());
    if errors.len() > 0 {
        return Err(errors);
    }
    if inner.is_empty() {
        return Err(expected(view, view.range.end, "a statement"));
    }
    if stands(inner, inner.range.start, "abstract") {
        return match abstract_names(inner) {
            Ok(names) => {
                assert(term::words(names@) =~= term::spelled(text::texts(names@)));
                Ok(statement(DoStepKind::Abstract(names)))
            },
            Err(errors) => Err(errors),
        };
    }
    step_of(
        parse_clause(
            inner,
            own,
            "do binding",
            "do value binding",
            "a do forward binding",
            Ghost(Tag::BindStep),
            Ghost(Tag::ValueBindStep),
            Ghost(Tag::ThenStep),
        ),
    )
}

/// A kind of binding, with the local that it binds where its pattern is one.
fn binding_name(label: &str, pattern: TokenView<'_>) -> (text: String)
    requires
        pattern.wf(),
    ensures
        text@ == grammar::binding_name(label@, pattern.l(), pattern.lo(), pattern.hi()),
{
    proof {
        reveal(grammar::binding_name);
    }
    match local_of(pattern) {
        Some(name) => {
            let mut text = label.to_owned();
            text.append(" `");
            text.append(name.as_str());
            text.append("`");
            text
        },
        None => label.to_owned(),
    }
}

/// A binding of either direction, a value binding, or an expression.
pub fn parse_clause(
    view: TokenView<'_>,
    context: ExpressionContext,
    name: &str,
    value_name: &str,
    forward_name: &str,
    Ghost(bind): Ghost<Tag>,
    Ghost(value): Ghost<Tag>,
    Ghost(effect): Ghost<Tag>,
) -> (result: Result<Clause, Vec<Diagnostic>>)
    requires
        view.wf(),
    ensures
        result matches Err(errors) ==> errors.len() > 0,
        ({
            let labels = ClauseLabels {
                bind,
                value,
                effect,
                name: name@,
                value_name: value_name@,
                forward_name: forward_name@,
            };
            said_clause(result, labels) == grammar::p_clause(
                view.l(),
                view.lo(),
                view.hi(),
                context,
                labels,
            )
        }),
    decreases view.hi() - view.lo(), 62nat, 0nat,
{
    let start = view.range.start;
    let end = view.range.end;
    match first_mark(view, MarkText::Symbol("<-")) {
        Some(arrow) => {
            let left = view.between(start, arrow);
            let right = view.between(arrow + 1, end);
            if left.is_layout_empty() {
                return Err(
                    fail_view(view, phrase(name, " requires a pattern before `<-`").as_str()),
                );
            }
            let pattern = match parse_pattern(left, context) {
                Ok(pattern) => pattern,
                Err(errors) => {
                    return Err(errors);
                },
            };
            if right.is_layout_empty() {
                let named = binding_name(name, left);
                return Err(
                    fail_view(
                        view,
                        phrase(named.as_str(), " requires an operation after `<-`").as_str(),
                    ),
                );
            }
            return match parse_expression(right, context) {
                Ok(operation) => Ok(Clause::Bind(pattern, operation)),
                Err(errors) => Err(errors),
            };
        },
        None => {},
    }
    match first_mark(view, MarkText::Symbol("=")) {
        Some(equal) => {
            let left = view.between(start, equal);
            let right = view.between(equal + 1, end);
            if left.is_layout_empty() {
                return Err(
                    fail_view(
                        view,
                        phrase(value_name, " requires a pattern before `=`").as_str(),
                    ),
                );
            }
            let pattern = match parse_pattern(left, context) {
                Ok(pattern) => pattern,
                Err(errors) => {
                    return Err(errors);
                },
            };
            if right.is_layout_empty() {
                let named = binding_name(value_name, left);
                return Err(
                    fail_view(
                        view,
                        phrase(named.as_str(), " requires a value after `=`").as_str(),
                    ),
                );
            }
            return match parse_expression(right, context) {
                Ok(value) => Ok(Clause::Value(pattern, value)),
                Err(errors) => Err(errors),
            };
        },
        None => {},
    }
    let errors = match parse_expression(view, context) {
        Ok(expr) => {
            return Ok(Clause::Effect(expr));
        },
        Err(errors) => errors,
    };
    let arrows = view.top_level_symbols("->");
    assert(input::indices(arrows@).len() == arrows.len());
    if arrows.len() == 0 {
        return Err(errors);
    }
    assert(input::indices(arrows@)[0] == arrows@[0]);
    if view.between(start, arrows[0]).is_layout_empty() {
        return Err(
            fail_view(view, phrase(forward_name, " requires an operation before `->`").as_str()),
        );
    }
    parse_forward(
        view,
        context,
        &arrows,
        errors,
        forward_name,
        Ghost(
            ClauseLabels {
                bind,
                value,
                effect,
                name: name@,
                value_name: value_name@,
                forward_name: forward_name@,
            },
        ),
    )
}

/// A forward binding: the last `->` before which an operation stands.
fn parse_forward(
    view: TokenView<'_>,
    context: ExpressionContext,
    arrows: &Vec<usize>,
    errors: Vec<Diagnostic>,
    forward_name: &str,
    Ghost(labels): Ghost<ClauseLabels>,
) -> (result: Result<Clause, Vec<Diagnostic>>)
    requires
        view.wf(),
        errors.len() > 0,
        labels.forward_name == forward_name@,
        forall|k: int|
            0 <= k < arrows.len() ==> view.lo() <= #[trigger] arrows@[k] && arrows@[k] < view.hi(),
    ensures
        result matches Err(errors) ==> errors.len() > 0,
        said_clause(result, labels) == grammar::p_forward(
            view.l(),
            view.lo(),
            view.hi(),
            context,
            input::indices(arrows@),
            labels,
            diagnostic::reports(errors@),
        ),
    decreases view.hi() - view.lo(), 61nat, 0nat,
{
    let ghost all = input::indices(arrows@);
    let ghost told = diagnostic::reports(errors@);
    let mut k: usize = arrows.len();
    assert(all.take(arrows.len() as int) =~= all);
    while k > 0
        invariant
            errors.len() > 0,
            view.wf(),
            labels.forward_name == forward_name@,
            told == diagnostic::reports(errors@),
            k <= arrows.len(),
            all == input::indices(arrows@),
            forall|j: int|
                0 <= j < arrows.len() ==> view.lo() <= #[trigger] arrows@[j] && arrows@[j]
                    < view.hi(),
            grammar::p_forward(view.l(), view.lo(), view.hi(), context, all, labels, told)
                == grammar::p_forward(
                view.l(),
                view.lo(),
                view.hi(),
                context,
                all.take(k as int),
                labels,
                told,
            ),
        decreases k,
    {
        let arrow = arrows[k - 1];
        proof {
            assert(all.take(k as int).drop_last() =~= all.take(k - 1));
            assert(all.take(k as int).last() == arrow);
        }
        match parse_expression(view.between(view.range.start, arrow), context) {
            Ok(operation) => {
                let right = view.between(arrow + 1, view.range.end);
                if right.is_layout_empty() {
                    return Err(
                        fail_view(
                            view,
                            phrase(forward_name, " requires a pattern after `->`").as_str(),
                        ),
                    );
                }
                return match parse_pattern(right, context) {
                    Ok(pattern) => Ok(Clause::Bind(pattern, operation)),
                    Err(errors) => Err(errors),
                };
            },
            Err(_) => {},
        }
        k = k - 1;
    }
    Err(errors)
}

} // verus!
