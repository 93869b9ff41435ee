//! Context carried while recovering the token extent of one expression.

use vstd::prelude::*;
use vstd::string::StringExecFns;
use crate::ast::SyntaxExpr;
use crate::diagnostic;
use crate::diagnostic::{report, Diagnostic, DiagnosticView};
use crate::input;
use crate::input::TokenView;
use crate::lexical::{Lexed, Lexeme, TokenKind};
use crate::text;
use crate::text::push_decimal;

verus! {

#[derive(Debug, Clone, Copy, PartialEq, Eq, Structural)]
pub enum ExpressionExtent {
    CompleteHardRange,
    MayYield,
}

/// The floor that the continuation lines of an expression must clear.
#[derive(Debug, Clone, Copy, PartialEq, Eq)]
pub struct ExpressionContext {
    pub continuation_floor: usize,
    pub validated_through: Option<usize>,
    pub floor_enforced: bool,
    pub extent: ExpressionExtent,
}

/// The indentation of the line on which a range begins.
pub open spec fn owner_indent(l: Lexed, lo: int, hi: int) -> Option<nat> {
    if input::empty(l, lo, hi) {
        None
    } else {
        Some(
            match input::indentation_of(l, input::skip(l, lo, hi)) {
                Some(indentation) => indentation,
                None => 0,
            },
        )
    }
}

pub open spec fn indent_or(l: Lexed, lo: int, hi: int, other: nat) -> nat {
    match owner_indent(l, lo, hi) {
        Some(indentation) => indentation,
        None => other,
    }
}

/// The larger of a floor and the one already validated.
pub open spec fn through(context: ExpressionContext) -> usize {
    match context.validated_through {
        Some(validated) => if validated > context.continuation_floor {
            validated
        } else {
            context.continuation_floor
        },
        None => context.continuation_floor,
    }
}

/// The context of an expression that owns a range.
pub open spec fn owner(l: Lexed, lo: int, hi: int) -> ExpressionContext {
    ExpressionContext {
        continuation_floor: indent_or(l, lo, hi, 0) as usize,
        validated_through: None,
        floor_enforced: true,
        extent: ExpressionExtent::CompleteHardRange,
    }
}

/// The context of an isolated fragment, which has no floor.
pub open spec fn fragment(l: Lexed, lo: int, hi: int) -> ExpressionContext {
    ExpressionContext {
        continuation_floor: indent_or(l, lo, hi, 0) as usize,
        validated_through: Some(usize::MAX),
        floor_enforced: false,
        extent: ExpressionExtent::CompleteHardRange,
    }
}

/// The context of an expression that owns a range within another.
pub open spec fn child(context: ExpressionContext, l: Lexed, lo: int, hi: int) -> ExpressionContext {
    ExpressionContext {
        continuation_floor: indent_or(l, lo, hi, context.continuation_floor as nat) as usize,
        validated_through: Some(through(context)),
        floor_enforced: true,
        extent: ExpressionExtent::CompleteHardRange,
    }
}

/// The context after its floor is validated.
pub open spec fn validated(context: ExpressionContext) -> ExpressionContext {
    ExpressionContext { validated_through: Some(through(context)), ..context }
}

/// An indentation violates the floor and was not validated before.
pub open spec fn needs(context: ExpressionContext, indentation: nat) -> bool {
    indentation <= context.continuation_floor && (context.validated_through matches Some(done)
        ==> indentation > done)
}

/// A layout body may begin at an indentation.
pub open spec fn accepts(context: ExpressionContext, anchor: nat) -> bool {
    !context.floor_enforced || anchor > context.continuation_floor
}

impl ExpressionContext {
    pub fn for_owner(view: TokenView<'_>) -> (context: Self)
        requires
            view.wf(),
        ensures
            context == owner(view.l(), view.lo(), view.hi()),
    {
        let continuation_floor = match owner_indentation(view) {
            Some(indentation) => indentation,
            None => 0,
        };
        ExpressionContext {
            continuation_floor,
            validated_through: None,
            floor_enforced: true,
            extent: ExpressionExtent::CompleteHardRange,
        }
    }

    pub fn for_fragment(view: TokenView<'_>) -> (context: Self)
        requires
            view.wf(),
        ensures
            context == fragment(view.l(), view.lo(), view.hi()),
    {
        let continuation_floor = match owner_indentation(view) {
            Some(indentation) => indentation,
            None => 0,
        };
        ExpressionContext {
            continuation_floor,
            validated_through: Some(usize::MAX),
            floor_enforced: false,
            extent: ExpressionExtent::CompleteHardRange,
        }
    }

    fn through(self) -> (n: usize)
        ensures
            n == through(self),
    {
        match self.validated_through {
            Some(validated) => if validated > self.continuation_floor {
                validated
            } else {
                self.continuation_floor
            },
            None => self.continuation_floor,
        }
    }

    pub fn child_owner(self, view: TokenView<'_>) -> (context: Self)
        requires
            view.wf(),
        ensures
            context == child(self, view.l(), view.lo(), view.hi()),
    {
        let continuation_floor = match owner_indentation(view) {
            Some(indentation) => indentation,
            None => self.continuation_floor,
        };
        ExpressionContext {
            continuation_floor,
            validated_through: Some(self.through()),
            floor_enforced: true,
            extent: ExpressionExtent::CompleteHardRange,
        }
    }

    /// The context with another floor.
    pub fn with_continuation_floor(self, continuation_floor: usize) -> (context: Self)
        ensures
            context == (ExpressionContext { continuation_floor, ..self }),
    {
        ExpressionContext { continuation_floor, ..self }
    }

    pub fn complete(self) -> (context: Self)
        ensures
            context == (ExpressionContext { extent: ExpressionExtent::CompleteHardRange, ..self }),
    {
        ExpressionContext { extent: ExpressionExtent::CompleteHardRange, ..self }
    }

    pub fn may_yield(self) -> (context: Self)
        ensures
            context == (ExpressionContext { extent: ExpressionExtent::MayYield, ..self }),
    {
        ExpressionContext { extent: ExpressionExtent::MayYield, ..self }
    }

    pub fn continuation_floor(self) -> (n: usize)
        ensures
            n == self.continuation_floor,
    {
        self.continuation_floor
    }

    pub fn accepts_layout_anchor(self, anchor: usize) -> (b: bool)
        ensures
            b == accepts(self, anchor as nat),
    {
        !self.floor_enforced || anchor > self.continuation_floor
    }

    pub fn needs_validation(self, indentation: usize) -> (b: bool)
        ensures
            b == needs(self, indentation as nat),
    {
        indentation <= self.continuation_floor && match self.validated_through {
            Some(validated) => indentation > validated,
            None => true,
        }
    }

    pub fn validated(self) -> (context: Self)
        ensures
            context == validated(self),
    {
        ExpressionContext { validated_through: Some(self.through()), ..self }
    }

    pub fn permits_yield(self) -> (b: bool)
        ensures
            b == (self.extent == ExpressionExtent::MayYield),
    {
        self.extent == ExpressionExtent::MayYield
    }
}

/// An expression and the position after it.
#[derive(Debug, PartialEq, Eq)]
pub struct ParsedExpression {
    pub expression: SyntaxExpr,
    pub end: usize,
}

impl ParsedExpression {
    pub fn new(expression: SyntaxExpr, end: usize) -> (parsed: Self)
        ensures
            parsed.expression == expression,
            parsed.end == end,
    {
        ParsedExpression { expression, end }
    }

    pub fn end(&self) -> (end: usize)
        ensures
            end == self.end,
    {
        self.end
    }

    pub fn expression(&self) -> (expression: &SyntaxExpr)
        ensures
            *expression == self.expression,
    {
        &self.expression
    }

    pub fn into_expression(self) -> (expression: SyntaxExpr)
        ensures
            expression == self.expression,
    {
        self.expression
    }
}

pub fn owner_indentation(view: TokenView<'_>) -> (indentation: Option<usize>)
    requires
        view.wf(),
    ensures
        match indentation {
            Some(n) => owner_indent(view.l(), view.lo(), view.hi()) == Some(n as nat),
            None => owner_indent(view.l(), view.lo(), view.hi()) is None,
        },
{
    match view.first_significant() {
        Some((index, _)) => match view.line_indentation_at(index) {
            Some(indentation) => Some(indentation),
            None => Some(0),
        },
        None => None,
    }
}

/// The line starts of a range, at any depth, on a line after `first`.
pub open spec fn later_lines(l: Lexed, i: int, hi: int, first: nat) -> Seq<int>
    decreases hi - i,
{
    if i >= hi {
        Seq::empty()
    } else {
        let rest = later_lines(l, i + 1, hi, first);
        if input::blank(l, i) && input::line(l, i) > first {
            seq![i] + rest
        } else {
            rest
        }
    }
}

/// Every token of a range is blank or a closing delimiter.
pub open spec fn closers(l: Lexed, i: int, hi: int) -> bool
    decreases hi - i,
{
    i >= hi || ((input::blank(l, i) || input::lexeme(l, i) is Close) && closers(l, i + 1, hi))
}

/// The least indentation that clears a floor.
pub open spec fn above(floor: usize) -> nat {
    if floor < usize::MAX {
        floor as nat + 1
    } else {
        floor as nat
    }
}

pub open spec fn under_indented(actual: nat, expected: nat) -> Seq<char> {
    "expression continuation is indented "@ + text::decimal(actual) + " spaces; expected at least "@
        + text::decimal(expected)
}

pub open spec fn closer_continues() -> Seq<char> {
    "expression continues after a boundary-aligned closing delimiter; indent this line or end the enclosing expression after the delimiter"@
}

pub open spec fn aligned_closer() -> Seq<char> {
    "expression continues after a boundary-aligned closing delimiter; indent the closing delimiter to continue the expression"@
}

/// What is wrong with the line that starts at `start` and ends at `end`, if
/// anything is. A line of closing delimiters at the floor ends the expression.
pub open spec fn violation(
    l: Lexed,
    context: ExpressionContext,
    start: int,
    end: int,
    last: bool,
) -> Seq<DiagnosticView> {
    let indentation = match input::lexeme(l, start) {
        Lexeme::LineStart(indentation) => indentation,
        _ => 0,
    };
    let first = input::skip(l, start + 1, end);
    if !needs(context, indentation) || first >= end {
        Seq::empty()
    } else {
        let floor = context.continuation_floor as nat;
        let line = input::line(l, start);
        let begins = input::lexeme(l, first) is Close;
        if indentation == floor && begins && closers(l, start + 1, end) {
            if last {
                Seq::empty()
            } else {
                seq![diagnostic::error_at(line, aligned_closer())]
            }
        } else if begins {
            seq![diagnostic::error_at(line, closer_continues())]
        } else {
            seq![diagnostic::error_at(line, under_indented(indentation, above(context.continuation_floor)))]
        }
    }
}

/// The violations of the first `k` of the given lines.
pub open spec fn violations(
    l: Lexed,
    context: ExpressionContext,
    starts: Seq<int>,
    hi: int,
    k: int,
) -> Seq<DiagnosticView>
    decreases k,
{
    if k <= 0 {
        Seq::empty()
    } else {
        violations(l, context, starts, hi, k - 1) + violation(
            l,
            context,
            starts[k - 1],
            if k < starts.len() {
                starts[k]
            } else {
                hi
            },
            k == starts.len(),
        )
    }
}

/// The continuation lines of a range that do not clear the floor.
pub open spec fn floor_errors(
    l: Lexed,
    lo: int,
    hi: int,
    context: ExpressionContext,
) -> Seq<DiagnosticView> {
    if input::empty(l, lo, hi) {
        Seq::empty()
    } else {
        let starts = later_lines(l, lo, hi, input::line(l, input::skip(l, lo, hi)));
        violations(l, context, starts, hi, starts.len() as int)
    }
}

#[derive(Debug, Clone, Copy, PartialEq, Eq, Structural)]
pub enum FloorViolationKind {
    UnderIndented { actual: usize, expected_at_least: usize },
    CloserContinues,
    NonterminalAlignedCloser,
}

#[derive(Debug, Clone, Copy, PartialEq, Eq, Structural)]
pub struct FloorViolation {
    pub line: usize,
    pub kind: FloorViolationKind,
}

impl FloorViolation {
    pub fn into_diagnostic(self) -> (diagnostic: Diagnostic)
        ensures
            diagnostic@ == diagnostic::error_at(
                self.line as nat,
                match self.kind {
                    FloorViolationKind::UnderIndented { actual, expected_at_least } => {
                        "expression continuation is indented "@ + text::decimal(actual as nat)
                            + " spaces; expected at least "@ + text::decimal(
                            expected_at_least as nat,
                        )
                    },
                    FloorViolationKind::CloserContinues => closer_continues(),
                    FloorViolationKind::NonterminalAlignedCloser => aligned_closer(),
                },
            ),
    {
        match self.kind {
            FloorViolationKind::UnderIndented { actual, expected_at_least } => {
                let mut message = "expression continuation is indented ".to_owned();
                push_decimal(&mut message, actual);
                message.append(" spaces; expected at least ");
                push_decimal(&mut message, expected_at_least);
                Diagnostic::error(self.line, message.as_str())
            },
            FloorViolationKind::CloserContinues => Diagnostic::error(
                self.line,
                "expression continues after a boundary-aligned closing delimiter; indent this line or end the enclosing expression after the delimiter",
            ),
            FloorViolationKind::NonterminalAlignedCloser => Diagnostic::error(
                self.line,
                "expression continues after a boundary-aligned closing delimiter; indent the closing delimiter to continue the expression",
            ),
        }
    }
}

proof fn later_lines_bounds(l: Lexed, i: int, hi: int, first: nat)
    ensures
        forall|k: int|
            0 <= k < later_lines(l, i, hi, first).len() ==> i <= #[trigger] later_lines(
                l,
                i,
                hi,
                first,
            )[k] < hi && input::blank(l, later_lines(l, i, hi, first)[k]),
        forall|a: int, b: int|
            0 <= a < b < later_lines(l, i, hi, first).len() ==> later_lines(l, i, hi, first)[a]
                < later_lines(l, i, hi, first)[b],
    decreases hi - i,
{
    if i < hi {
        later_lines_bounds(l, i + 1, hi, first);
        let rest = later_lines(l, i + 1, hi, first);
        let all = later_lines(l, i, hi, first);
        let shift: int = if input::blank(l, i) && input::line(l, i) > first {
            1
        } else {
            0
        };
        assert(all == if shift == 1 {
            seq![i] + rest
        } else {
            rest
        });
        assert forall|a: int| 0 <= a < all.len() implies i <= #[trigger] all[a] < hi
            && input::blank(l, all[a]) by {
            if a >= shift {
                assert(all[a] == rest[a - shift]);
            }
        }
        assert forall|a: int, b: int| 0 <= a < b < all.len() implies all[a] < all[b] by {
            assert(all[b] == rest[b - shift]);
            if a >= shift {
                assert(all[a] == rest[a - shift]);
            }
        }
    }
}

fn find_later_lines(view: TokenView<'_>, first: usize) -> (found: Vec<usize>)
    requires
        view.wf(),
    ensures
        input::indices(found@) == later_lines(view.l(), view.lo(), view.hi(), first as nat),
{
    let mut found: Vec<usize> = Vec::new();
    let mut i: usize = view.range.start;
    assert(input::indices(found@) =~= Seq::<int>::empty());
    while i < view.range.end
        invariant
            view.wf(),
            view.lo() <= i <= view.hi(),
            input::indices(found@) + later_lines(view.l(), i as int, view.hi(), first as nat)
                == later_lines(view.l(), view.lo(), view.hi(), first as nat),
        decreases view.hi() - i,
    {
        let ghost had = input::indices(found@);
        let ghost rest = later_lines(view.l(), i + 1, view.hi(), first as nat);
        if view.is_blank(i) && view.line(i) > first {
            found.push(i);
            assert(input::indices(found@) =~= had.push(i as int));
            assert(had.push(i as int) + rest =~= had + (seq![i as int] + rest));
        }
        i = i + 1;
    }
    assert(input::indices(found@) + Seq::<int>::empty() =~= input::indices(found@));
    found
}

fn all_closers(view: TokenView<'_>, from: usize, end: usize) -> (b: bool)
    requires
        view.wf(),
        view.lo() <= from <= end <= view.hi(),
    ensures
        b == closers(view.l(), from as int, end as int),
{
    let mut i: usize = from;
    while i < end
        invariant
            view.wf(),
            view.lo() <= from <= i <= end <= view.hi(),
            closers(view.l(), from as int, end as int) == closers(view.l(), i as int, end as int),
        decreases end - i,
    {
        assert(view.l().tokens[i as int] == view.source.tokens@[i as int]@);
        let fits = match &view.source.tokens[i].kind {
            TokenKind::LineStart { indentation: _ } => true,
            TokenKind::Close { group: _, delimiter: _ } => true,
            _ => false,
        };
        if !fits {
            return false;
        }
        i = i + 1;
    }
    true
}

/// Validates the part of a view not already covered by an enclosing floor.
///
/// The returned context lets nested owners validate only the stricter interval
/// between the enclosing floor and their own.
pub fn validate_expression_floor(view: TokenView<'_>, context: ExpressionContext) -> (result: (
    ExpressionContext,
    Vec<Diagnostic>,
))
    requires
        view.wf(),
    ensures
        result.0 == validated(context),
        diagnostic::reports(result.1@) == floor_errors(view.l(), view.lo(), view.hi(), context),
{
    let mut found: Vec<Diagnostic> = Vec::new();
    assert(diagnostic::reports(found@) =~= Seq::<DiagnosticView>::empty());
    let checked = context.validated();
    let first = match view.first_significant() {
        Some((index, _)) => index,
        None => {
            return (checked, found);
        },
    };
    let ghost l = view.l();
    let ghost hi = view.hi();
    let first_line = view.line(first);
    let starts = find_later_lines(view, first_line);
    let ghost all = input::indices(starts@);
    proof {
        later_lines_bounds(l, view.lo(), hi, first_line as nat);
    }
    let mut k: usize = 0;
    while k < starts.len()
        invariant
            view.wf(),
            l == view.l(),
            hi == view.hi(),
            k <= starts.len(),
            all == input::indices(starts@),
            forall|j: int|
                0 <= j < all.len() ==> view.lo() <= #[trigger] all[j] < hi && input::blank(
                    l,
                    all[j],
                ),
            forall|a: int, b: int| 0 <= a < b < all.len() ==> all[a] < all[b],
            diagnostic::reports(found@) == violations(l, context, all, hi, k as int),
        decreases starts.len() - k,
    {
        let start = starts[k];
        assert(all[k as int] == start);
        let end = if k + 1 < starts.len() {
            assert(all[k + 1] == starts@[k + 1]);
            starts[k + 1]
        } else {
            view.range.end
        };
        let last = k + 1 == starts.len();
        let ghost had = diagnostic::reports(found@);
        assert(l.tokens[start as int] == view.source.tokens@[start as int]@);
        let indentation: usize = match &view.source.tokens[start].kind {
            TokenKind::LineStart { indentation } => *indentation,
            _ => 0,
        };
        let line_view = view.between(start + 1, end);
        let ghost told = violation(l, context, start as int, end as int, last);
        if context.needs_validation(indentation) {
            if let Some((head, token)) = line_view.first_significant() {
                let begins = match &token.kind {
                    TokenKind::Close { group: _, delimiter: _ } => true,
                    _ => false,
                };
                let kind = if indentation == context.continuation_floor && begins && all_closers(
                    view,
                    start + 1,
                    end,
                ) {
                    if last {
                        None
                    } else {
                        Some(FloorViolationKind::NonterminalAlignedCloser)
                    }
                } else if begins {
                    Some(FloorViolationKind::CloserContinues)
                } else {
                    let expected_at_least: usize = if context.continuation_floor < usize::MAX {
                        context.continuation_floor + 1
                    } else {
                        context.continuation_floor
                    };
                    Some(
                        FloorViolationKind::UnderIndented { actual: indentation, expected_at_least },
                    )
                };
                if let Some(kind) = kind {
                    let violation = FloorViolation { line: view.line(start), kind };
                    report(&mut found, violation.into_diagnostic());
                    assert(diagnostic::reports(found@) =~= had + told);
                }
            }
        }
        assert(diagnostic::reports(found@) =~= had + told);
        k = k + 1;
    }
    (checked, found)
}

/// A fragment has no floor to clear.
pub proof fn fragments_are_unchecked(l: Lexed, lo: int, hi: int, a: int, b: int)
    ensures
        floor_errors(l, a, b, fragment(l, lo, hi)) == Seq::<DiagnosticView>::empty(),
{
    let context = fragment(l, lo, hi);
    if !input::empty(l, a, b) {
        let starts = later_lines(l, a, b, input::line(l, input::skip(l, a, b)));
        no_violations(l, context, starts, b, starts.len() as int);
    }
}

proof fn no_violations(l: Lexed, context: ExpressionContext, starts: Seq<int>, hi: int, k: int)
    requires
        context.validated_through == Some(usize::MAX),
    ensures
        violations(l, context, starts, hi, k) == Seq::<DiagnosticView>::empty(),
    decreases k,
{
    if k > 0 {
        no_violations(l, context, starts, hi, k - 1);
        assert(violations(l, context, starts, hi, k) =~= Seq::<DiagnosticView>::empty());
    }
}

/// An expression that an owner has validated is not validated again: nested
/// owners check only indentations above the enclosing floor.
pub proof fn nested_owners_check_the_stricter_interval(
    l: Lexed,
    lo: int,
    hi: int,
    context: ExpressionContext,
    indentation: nat,
)
    ensures
        needs(child(context, l, lo, hi), indentation) ==> indentation > context.continuation_floor,
        !needs(validated(context), indentation),
{
}

} // verus!
