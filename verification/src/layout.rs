//! Layout: the lines of a range of tokens, and the blocks that they form.

use vstd::prelude::*;
use vstd::string::StringExecFns;
use crate::input;
use crate::input::{Mark, MarkText, TokenRange, TokenView};
use crate::lexical::{Lexed, Lexeme, TokenKind};
use crate::text;
use crate::text::push_decimal;

verus! {

/// What sets the indentation of a block.
#[derive(Debug, Clone, Copy, PartialEq, Eq, Structural)]
pub enum LayoutBase {
    FirstLine,
    Indentation(usize),
    /// The first line is a member whatever its indentation; the others are
    /// members at the given one.
    Hanging(usize),
}

#[derive(Debug, Clone, Copy, PartialEq, Eq, Structural)]
pub struct LayoutLine {
    pub line: usize,
    pub indentation: usize,
    pub start: usize,
    pub tokens: TokenRange,
}

#[derive(Debug, Clone, Copy, PartialEq, Eq, Structural)]
pub struct LayoutStatement {
    pub line: usize,
    pub tokens: TokenRange,
}

#[derive(Debug, PartialEq, Eq)]
pub struct LayoutBlock {
    pub anchor: usize,
    pub statements: Vec<LayoutStatement>,
    pub end: usize,
    pub boundary: Option<LayoutLine>,
}

#[derive(Debug, PartialEq, Eq)]
pub struct LayoutError {
    pub line: usize,
    pub message: String,
}

/// A nonempty line of a range: its tokens, and where it starts.
pub struct Row {
    pub line: nat,
    pub indentation: nat,
    pub start: int,
    pub lo: int,
    pub hi: int,
}

/// A member of a block.
pub struct Member {
    pub line: nat,
    pub lo: int,
    pub hi: int,
}

/// The members of a block, and where it ends.
pub struct Block {
    pub anchor: nat,
    pub members: Seq<Member>,
    pub end: int,
    pub boundary: Option<Row>,
}

impl View for LayoutLine {
    type V = Row;

    open spec fn view(&self) -> Row {
        Row {
            line: self.line as nat,
            indentation: self.indentation as nat,
            start: self.start as int,
            lo: self.tokens.start as int,
            hi: self.tokens.end as int,
        }
    }
}

impl View for LayoutStatement {
    type V = Member;

    open spec fn view(&self) -> Member {
        Member {
            line: self.line as nat,
            lo: self.tokens.start as int,
            hi: self.tokens.end as int,
        }
    }
}

pub open spec fn rows_of(lines: Seq<LayoutLine>) -> Seq<Row> {
    lines.map_values(|line: LayoutLine| line@)
}

pub open spec fn members_of(statements: Seq<LayoutStatement>) -> Seq<Member> {
    statements.map_values(|s: LayoutStatement| s@)
}

impl View for LayoutBlock {
    type V = Block;

    open spec fn view(&self) -> Block {
        Block {
            anchor: self.anchor as nat,
            members: members_of(self.statements@),
            end: self.end as int,
            boundary: match self.boundary {
                Some(line) => Some(line@),
                None => None,
            },
        }
    }
}

/// The lines that start at the given line starts, the last ending at `hi`.
pub open spec fn started(l: Lexed, starts: Seq<int>, hi: int) -> Seq<Row>
    decreases starts.len(),
{
    if starts.len() == 0 {
        Seq::empty()
    } else {
        let start = starts[0];
        let end = if starts.len() > 1 {
            starts[1]
        } else {
            hi
        };
        let rest = started(l, starts.skip(1), hi);
        if start + 1 < end {
            seq![
                Row {
                    line: input::line(l, start),
                    indentation: match input::lexeme(l, start) {
                        Lexeme::LineStart(indentation) => indentation,
                        _ => 0,
                    },
                    start,
                    lo: start + 1,
                    hi: end,
                },
            ] + rest
        } else {
            rest
        }
    }
}

/// The nonempty lines of a range outside its groups.
pub open spec fn rows(l: Lexed, lo: int, hi: int) -> Seq<Row> {
    let starts = input::all_marks(l, lo, hi, Mark::LineStart);
    let end = if starts.len() == 0 {
        hi
    } else {
        starts[0]
    };
    (if lo < end {
        seq![
            Row {
                line: input::line(l, lo),
                indentation: match input::indentation_of(l, lo) {
                    Some(indentation) => indentation,
                    None => 0,
                },
                start: lo,
                lo,
                hi: end,
            },
        ]
    } else {
        Seq::empty()
    }) + started(l, starts, hi)
}

/// Outside its groups, a range holds closing delimiters only.
pub open spec fn all_closers(l: Lexed, i: int, hi: int) -> bool
    decreases hi - i,
{
    i >= hi || ((input::blank(l, i) || input::lexeme(l, i) is Close) && all_closers(
        l,
        input::after(l, i, hi),
        hi,
    ))
}

/// A line of closing delimiters.
pub open spec fn closer_only(l: Lexed, lo: int, hi: int) -> bool {
    !input::empty(l, lo, hi) && all_closers(l, lo, hi)
}

/// The block that lines form: a line at the base begins a member, a deeper
/// one or one of closing delimiters continues it, and a shallower one ends
/// the block.
pub open spec fn gathered(
    l: Lexed,
    rows: Seq<Row>,
    base: nat,
    members: Seq<Member>,
    hi: int,
) -> Result<Block, (nat, Seq<char>)>
    decreases rows.len(),
{
    if rows.len() == 0 {
        Ok(Block { anchor: base, members, end: hi, boundary: None })
    } else {
        let row = rows[0];
        let closers = closer_only(l, row.lo, row.hi);
        if row.indentation < base && !closers {
            Ok(Block { anchor: base, members, end: row.start, boundary: Some(row) })
        } else if row.indentation == base && !closers {
            gathered(
                l,
                rows.skip(1),
                base,
                members.push(Member { line: row.line, lo: row.lo, hi: row.hi }),
                hi,
            )
        } else if members.len() > 0 {
            gathered(
                l,
                rows.skip(1),
                base,
                members.drop_last().push(Member { hi: row.hi, ..members.last() }),
                hi,
            )
        } else {
            Err((row.line, "layout block begins with a continuation line"@))
        }
    }
}

/// The block at the beginning of a range.
pub open spec fn block(l: Lexed, lo: int, hi: int, base: LayoutBase) -> Result<
    Block,
    (nat, Seq<char>),
> {
    let all = rows(l, lo, hi);
    if all.len() == 0 {
        Ok(Block { anchor: 0, members: Seq::empty(), end: hi, boundary: None })
    } else {
        match base {
            LayoutBase::FirstLine => gathered(l, all, all[0].indentation, Seq::empty(), hi),
            LayoutBase::Indentation(n) => gathered(l, all, n as nat, Seq::empty(), hi),
            LayoutBase::Hanging(n) => gathered(
                l,
                all.skip(1),
                n as nat,
                seq![Member { line: all[0].line, lo: all[0].lo, hi: all[0].hi }],
                hi,
            ),
        }
    }
}

pub open spec fn dedent_message(indentation: nat, anchor: nat) -> Seq<char> {
    "layout line is indented "@ + text::decimal(indentation) + " spaces; expected at least "@
        + text::decimal(anchor)
}

/// The members of a range that is one complete block.
pub open spec fn statements(l: Lexed, lo: int, hi: int, base: LayoutBase) -> Result<
    Seq<Member>,
    (nat, Seq<char>),
> {
    match block(l, lo, hi, base) {
        Ok(block) => match block.boundary {
            Some(row) => Err((row.line, dedent_message(row.indentation, block.anchor))),
            None => Ok(block.members),
        },
        Err(error) => Err(error),
    }
}

/// Lines lie in their range, in order.
pub open spec fn rows_within(rows: Seq<Row>, lo: int, hi: int) -> bool {
    &&& forall|k: int|
        0 <= k < rows.len() ==> lo <= (#[trigger] rows[k]).start <= rows[k].lo && rows[k].lo
            < rows[k].hi <= hi
    &&& forall|a: int, b: int|
        0 <= a < b < rows.len() ==> (#[trigger] rows[a]).hi <= (#[trigger] rows[b]).start
}

/// Members lie in their range, in order.
pub open spec fn members_within(members: Seq<Member>, lo: int, hi: int) -> bool {
    &&& forall|k: int|
        0 <= k < members.len() ==> lo <= (#[trigger] members[k]).lo < members[k].hi <= hi
    &&& forall|a: int, b: int|
        0 <= a < b < members.len() ==> (#[trigger] members[a]).hi <= (#[trigger] members[b]).lo
}

pub proof fn started_within(l: Lexed, starts: Seq<int>, lo: int, hi: int)
    requires
        forall|k: int| 0 <= k < starts.len() ==> lo <= #[trigger] starts[k] < hi,
        forall|a: int, b: int| 0 <= a < b < starts.len() ==> starts[a] < starts[b],
    ensures
        rows_within(started(l, starts, hi), lo, hi),
        forall|k: int|
            0 <= k < started(l, starts, hi).len() ==> starts.len() > 0 && starts[0] <= (
            #[trigger] started(l, starts, hi)[k]).start,
    decreases starts.len(),
{
    if starts.len() > 0 {
        let rest = starts.skip(1);
        assert forall|k: int| 0 <= k < rest.len() implies lo <= #[trigger] rest[k] < hi by {
            assert(rest[k] == starts[k + 1]);
        }
        assert forall|a: int, b: int| 0 <= a < b < rest.len() implies rest[a] < rest[b] by {
            assert(rest[a] == starts[a + 1]);
            assert(rest[b] == starts[b + 1]);
        }
        started_within(l, rest, lo, hi);
        let tail = started(l, rest, hi);
        let all = started(l, starts, hi);
        if rest.len() > 0 {
            assert(rest[0] == starts[1]);
        }
        if all.len() > tail.len() {
            assert forall|k: int| 0 <= k < all.len() implies lo <= (#[trigger] all[k]).start
                <= all[k].lo && all[k].lo < all[k].hi <= hi by {
                if k > 0 {
                    assert(all[k] == tail[k - 1]);
                }
            }
            assert forall|a: int, b: int| 0 <= a < b < all.len() implies (#[trigger] all[a]).hi
                <= (#[trigger] all[b]).start by {
                assert(all[b] == tail[b - 1]);
                if a > 0 {
                    assert(all[a] == tail[a - 1]);
                }
            }
            assert forall|k: int| 0 <= k < all.len() implies starts[0] <= (
            #[trigger] all[k]).start by {
                if k > 0 {
                    assert(all[k] == tail[k - 1]);
                }
            }
        } else {
            assert(all == tail);
        }
    }
}

/// The lines of a range lie in it, in order.
pub proof fn rows_bounds(l: Lexed, lo: int, hi: int)
    requires
        lo <= hi,
    ensures
        rows_within(rows(l, lo, hi), lo, hi),
{
    let starts = input::all_marks(l, lo, hi, Mark::LineStart);
    input::marks_ordered(l, lo, hi, lo, Mark::LineStart);
    started_within(l, starts, lo, hi);
    let tail = started(l, starts, hi);
    let all = rows(l, lo, hi);
    if all.len() > tail.len() {
        assert forall|k: int| 0 <= k < all.len() implies lo <= (#[trigger] all[k]).start
            <= all[k].lo && all[k].lo < all[k].hi <= hi by {
            if k > 0 {
                assert(all[k] == tail[k - 1]);
            }
        }
        assert forall|a: int, b: int| 0 <= a < b < all.len() implies (#[trigger] all[a]).hi <= (
        #[trigger] all[b]).start by {
            assert(all[b] == tail[b - 1]);
            if a > 0 {
                assert(all[a] == tail[a - 1]);
            }
        }
    } else {
        assert(all =~= tail);
    }
}

pub proof fn gathered_bounds(
    l: Lexed,
    rows: Seq<Row>,
    base: nat,
    members: Seq<Member>,
    lo: int,
    hi: int,
)
    requires
        rows_within(rows, lo, hi),
        members_within(members, lo, hi),
        lo <= hi,
        forall|k: int, m: int|
            0 <= k < rows.len() && 0 <= m < members.len() ==> (#[trigger] members[m]).hi <= (
            #[trigger] rows[k]).start,
    ensures
        gathered(l, rows, base, members, hi) matches Ok(block) ==> {
            &&& members_within(block.members, lo, hi)
            &&& lo <= block.end <= hi
            &&& forall|m: int|
                0 <= m < block.members.len() ==> (#[trigger] block.members[m]).hi <= block.end
            &&& block.boundary matches Some(row) ==> block.end == row.start && row.lo < row.hi
                && row.hi <= hi && row.start <= row.lo
            &&& block.boundary is None ==> block.end == hi
        },
    decreases rows.len(),
{
    if rows.len() > 0 {
        let row = rows[0];
        let rest = rows.skip(1);
        assert forall|k: int| 0 <= k < rest.len() implies lo <= (#[trigger] rest[k]).start
            <= rest[k].lo && rest[k].lo < rest[k].hi <= hi by {
            assert(rest[k] == rows[k + 1]);
        }
        assert forall|a: int, b: int| 0 <= a < b < rest.len() implies (#[trigger] rest[a]).hi <= (
        #[trigger] rest[b]).start by {
            assert(rest[a] == rows[a + 1]);
            assert(rest[b] == rows[b + 1]);
        }
        let closers = closer_only(l, row.lo, row.hi);
        if row.indentation < base && !closers {
            assert(forall|m: int| 0 <= m < members.len() ==> (#[trigger] members[m]).hi
                <= rows[0].start);
        } else if row.indentation == base && !closers {
            let more = members.push(Member { line: row.line, lo: row.lo, hi: row.hi });
            assert forall|k: int, m: int|
                0 <= k < rest.len() && 0 <= m < more.len() implies (#[trigger] more[m]).hi <= (
            #[trigger] rest[k]).start by {
                assert(rest[k] == rows[k + 1]);
                if m < members.len() {
                    assert(members[m].hi <= rows[0].start);
                }
            }
            assert forall|a: int, b: int| 0 <= a < b < more.len() implies (#[trigger] more[a]).hi
                <= (#[trigger] more[b]).lo by {
                if b == members.len() {
                    assert(members[a].hi <= rows[0].start);
                }
            }
            gathered_bounds(l, rest, base, more, lo, hi);
        } else if members.len() > 0 {
            let more = members.drop_last().push(Member { hi: row.hi, ..members.last() });
            assert(members[members.len() - 1].hi <= rows[0].start);
            assert forall|k: int, m: int|
                0 <= k < rest.len() && 0 <= m < more.len() implies (#[trigger] more[m]).hi <= (
            #[trigger] rest[k]).start by {
                assert(rest[k] == rows[k + 1]);
                if m < members.len() - 1 {
                    assert(members[m].hi <= rows[0].start);
                }
            }
            assert forall|a: int, b: int| 0 <= a < b < more.len() implies (#[trigger] more[a]).hi
                <= (#[trigger] more[b]).lo by {
                assert(members[a].hi <= members[b].lo);
            }
            gathered_bounds(l, rest, base, more, lo, hi);
        }
    }
}

/// The members of a block lie in its range, in order, before its end.
pub proof fn block_bounds(l: Lexed, lo: int, hi: int, base: LayoutBase)
    requires
        lo <= hi,
    ensures
        block(l, lo, hi, base) matches Ok(block) ==> {
            &&& members_within(block.members, lo, hi)
            &&& lo <= block.end <= hi
            &&& forall|m: int|
                0 <= m < block.members.len() ==> (#[trigger] block.members[m]).hi <= block.end
            &&& block.boundary matches Some(row) ==> block.end == row.start && row.lo < row.hi
                && row.hi <= hi && row.start <= row.lo
            &&& block.boundary is None ==> block.end == hi
        },
{
    rows_bounds(l, lo, hi);
    let all = rows(l, lo, hi);
    if all.len() > 0 {
        match base {
            LayoutBase::FirstLine => {
                gathered_bounds(l, all, all[0].indentation, Seq::empty(), lo, hi);
            },
            LayoutBase::Indentation(n) => {
                gathered_bounds(l, all, n as nat, Seq::empty(), lo, hi);
            },
            LayoutBase::Hanging(n) => {
                let rest = all.skip(1);
                assert forall|k: int| 0 <= k < rest.len() implies lo <= (#[trigger] rest[k]).start
                    <= rest[k].lo && rest[k].lo < rest[k].hi <= hi by {
                    assert(rest[k] == all[k + 1]);
                }
                assert forall|a: int, b: int| 0 <= a < b < rest.len() implies (
                #[trigger] rest[a]).hi <= (#[trigger] rest[b]).start by {
                    assert(rest[a] == all[a + 1]);
                    assert(rest[b] == all[b + 1]);
                }
                let first = seq![Member { line: all[0].line, lo: all[0].lo, hi: all[0].hi }];
                assert forall|k: int, m: int|
                    0 <= k < rest.len() && 0 <= m < first.len() implies (#[trigger] first[m]).hi
                    <= (#[trigger] rest[k]).start by {
                    assert(rest[k] == all[k + 1]);
                }
                gathered_bounds(l, rest, n as nat, first, lo, hi);
            },
        }
    }
}

/// The layout of a view.
#[derive(Debug, Clone, Copy)]
pub struct LayoutView<'lex> {
    pub tokens: TokenView<'lex>,
}

impl LayoutLine {
    pub fn line(self) -> (n: usize)
        ensures
            n == self.line,
    {
        self.line
    }

    pub fn indentation(self) -> (n: usize)
        ensures
            n == self.indentation,
    {
        self.indentation
    }

    pub fn start(self) -> (n: usize)
        ensures
            n == self.start,
    {
        self.start
    }

    pub fn tokens(self) -> (range: TokenRange)
        ensures
            range == self.tokens,
    {
        self.tokens
    }
}

impl LayoutStatement {
    pub fn line(self) -> (n: usize)
        ensures
            n == self.line,
    {
        self.line
    }

    pub fn tokens(self) -> (range: TokenRange)
        ensures
            range == self.tokens,
    {
        self.tokens
    }
}

impl LayoutBlock {
    pub fn anchor(&self) -> (n: usize)
        ensures
            n == self.anchor,
    {
        self.anchor
    }

    pub fn statements(&self) -> (statements: &Vec<LayoutStatement>)
        ensures
            statements == self.statements,
    {
        &self.statements
    }

    pub fn into_statements(self) -> (statements: Vec<LayoutStatement>)
        ensures
            statements == self.statements,
    {
        self.statements
    }

    pub fn end(&self) -> (n: usize)
        ensures
            n == self.end,
    {
        self.end
    }

    pub fn boundary(&self) -> (line: Option<LayoutLine>)
        ensures
            line == self.boundary,
    {
        self.boundary
    }
}

impl LayoutError {
    pub fn line(&self) -> (n: usize)
        ensures
            n == self.line,
    {
        self.line
    }

    pub fn message(&self) -> (message: &str)
        ensures
            message@ == self.message@,
    {
        self.message.as_str()
    }
}

/// A layout error as the pair that it reports.
pub open spec fn error_of(error: LayoutError) -> (nat, Seq<char>) {
    (error.line as nat, error.message@)
}

impl<'lex> LayoutView<'lex> {
    pub fn new(tokens: TokenView<'lex>) -> (view: Self)
        ensures
            view.tokens == tokens,
    {
        LayoutView { tokens }
    }

    pub fn tokens(self) -> (tokens: TokenView<'lex>)
        ensures
            tokens == self.tokens,
    {
        self.tokens
    }

    /// The nonempty lines at the delimiter depth of the view.
    pub fn lines(self) -> (lines: Vec<LayoutLine>)
        requires
            self.tokens.wf(),
        ensures
            rows_of(lines@) == rows(self.tokens.l(), self.tokens.lo(), self.tokens.hi()),
    {
        let view = self.tokens;
        let ghost l = view.l();
        let ghost hi = view.hi();
        let found = view.find(MarkText::LineStart);
        let ghost starts = input::indices(found@);
        let mut lines: Vec<LayoutLine> = Vec::new();
        let end = if found.len() == 0 {
            view.range.end
        } else {
            found[0]
        };
        assert(rows_of(lines@) =~= Seq::<Row>::empty());
        if view.range.start < end {
            let indentation = match view.line_indentation_at(view.range.start) {
                Some(indentation) => indentation,
                None => 0,
            };
            let first = LayoutLine {
                line: view.line(view.range.start),
                indentation,
                start: view.range.start,
                tokens: TokenRange { start: view.range.start, end },
            };
            lines.push(first);
            assert(rows_of(lines@) =~= seq![first@]);
        }
        let ghost head = rows_of(lines@);
        let mut k: usize = 0;
        assert(starts.skip(0) =~= starts);
        assert(head + Seq::<Row>::empty() =~= head);
        let ghost mut done = Seq::<Row>::empty();
        assert(rows_of(lines@) =~= head + done);
        assert(done + started(l, starts, hi) =~= started(l, starts, hi));
        while k < found.len()
            invariant
                view.wf(),
                l == view.l(),
                hi == view.hi(),
                k <= found.len(),
                starts == input::indices(found@),
                forall|j: int|
                    0 <= j < found.len() ==> view.lo() <= #[trigger] found@[j] < view.hi()
                        && input::marked(l, view.lo(), found@[j] as int, Mark::LineStart),
                forall|a: int, b: int| 0 <= a < b < found.len() ==> found@[a] < found@[b],
                rows_of(lines@) == head + done,
                done + started(l, starts.skip(k as int), hi) == started(l, starts, hi),
            decreases found.len() - k,
        {
            let start = found[k];
            let end = if k + 1 < found.len() {
                found[k + 1]
            } else {
                view.range.end
            };
            let ghost rest = starts.skip(k as int);
            proof {
                assert(rest[0] == start);
                assert(rest.skip(1) =~= starts.skip(k + 1));
                if k + 1 < found.len() {
                    assert(rest[1] == found@[k + 1]);
                }
            }
            if start + 1 < end {
                assert(l.tokens[start as int] == view.source.tokens@[start as int]@);
                let indentation: usize = match &view.source.tokens[start].kind {
                    TokenKind::LineStart { indentation } => *indentation,
                    _ => 0,
                };
                let line = LayoutLine {
                    line: view.line(start),
                    indentation,
                    start,
                    tokens: TokenRange { start: start + 1, end },
                };
                let ghost had = rows_of(lines@);
                lines.push(line);
                proof {
                    assert(rows_of(lines@) =~= had.push(line@));
                    assert(had.push(line@) =~= head + done.push(line@));
                    assert(done.push(line@) + started(l, rest.skip(1), hi) =~= done + (seq![line@]
                        + started(l, rest.skip(1), hi)));
                    done = done.push(line@);
                }
            }
            k = k + 1;
        }
        assert(done + Seq::<Row>::empty() =~= done);
        assert(started(l, starts.skip(k as int), hi) =~= Seq::<Row>::empty());
        assert(rows_of(lines@) =~= rows(l, view.lo(), hi));
        lines
    }

    fn line_is_closer_only(self, lo: usize, hi: usize) -> (b: bool)
        requires
            self.tokens.wf(),
            self.tokens.lo() <= lo <= hi <= self.tokens.hi(),
        ensures
            b == closer_only(self.tokens.l(), lo as int, hi as int),
    {
        let view = self.tokens.between(lo, hi);
        if view.is_layout_empty() {
            return false;
        }
        let mut i: usize = lo;
        while i < hi
            invariant
                view.wf(),
                view.lo() == lo,
                view.hi() == hi,
                lo <= i <= hi,
                view.l() == self.tokens.l(),
                !input::empty(view.l(), lo as int, hi as int),
                all_closers(view.l(), lo as int, hi as int) == all_closers(
                    view.l(),
                    i as int,
                    hi as int,
                ),
            decreases hi - i,
        {
            assert(view.l().tokens[i as int] == view.source.tokens@[i as int]@);
            let fits = match &view.source.tokens[i].kind {
                TokenKind::LineStart { indentation: _ } => true,
                TokenKind::Close { group: _, delimiter: _ } => true,
                _ => false,
            };
            if !fits {
                return false;
            }
            i = view.next_top(i);
        }
        true
    }

    /// Selects one layout body and leaves its first dedented line unconsumed.
    ///
    /// A line at the base begins a statement and a deeper line continues it.
    /// A line below the base ends the body, except that a closer-only line
    /// stays with the preceding statement. The enclosing grammar decides
    /// whether it can consume the returned boundary.
    pub fn block(self, base: LayoutBase) -> (result: Result<LayoutBlock, LayoutError>)
        requires
            self.tokens.wf(),
        ensures
            match result {
                Ok(found) => block(
                    self.tokens.l(),
                    self.tokens.lo(),
                    self.tokens.hi(),
                    base,
                ) == Ok::<Block, (nat, Seq<char>)>(found@),
                Err(error) => block(self.tokens.l(), self.tokens.lo(), self.tokens.hi(), base)
                    == Err::<Block, (nat, Seq<char>)>(error_of(error)),
            },
    {
        let view = self.tokens;
        let ghost l = view.l();
        let ghost hi = view.hi();
        let lines = self.lines();
        let ghost all = rows_of(lines@);
        proof {
            rows_bounds(l, view.lo(), hi);
        }
        let mut members: Vec<LayoutStatement> = Vec::new();
        assert(members_of(members@) =~= Seq::<Member>::empty());
        if lines.len() == 0 {
            return Ok(
                LayoutBlock {
                    anchor: 0,
                    statements: members,
                    end: view.range.end,
                    boundary: None,
                },
            );
        }
        assert(all[0] == lines@[0]@);
        let mut k: usize = 0;
        let anchor: usize = match base {
            LayoutBase::FirstLine => lines[0].indentation,
            LayoutBase::Indentation(n) => n,
            LayoutBase::Hanging(n) => {
                let first = LayoutStatement { line: lines[0].line, tokens: lines[0].tokens };
                members.push(first);
                assert(members_of(members@) =~= seq![first@]);
                k = 1;
                n
            },
        };
        assert(all.skip(0) =~= all);
        while k < lines.len()
            invariant
                view.wf(),
                view == self.tokens,
                l == view.l(),
                hi == view.hi(),
                all == rows_of(lines@),
                rows_within(all, view.lo(), hi),
                k <= lines.len(),
                block(l, view.lo(), hi, base) == gathered(
                    l,
                    all.skip(k as int),
                    anchor as nat,
                    members_of(members@),
                    hi,
                ),
            decreases lines.len() - k,
        {
            let line = lines[k];
            let ghost rest = all.skip(k as int);
            let ghost had = members_of(members@);
            proof {
                assert(rest[0] == line@);
                assert(all[k as int] == line@);
                assert(rest.skip(1) =~= all.skip(k + 1));
            }
            let closers = self.line_is_closer_only(line.tokens.start, line.tokens.end);
            if line.indentation < anchor && !closers {
                return Ok(
                    LayoutBlock {
                        anchor,
                        statements: members,
                        end: line.start,
                        boundary: Some(line),
                    },
                );
            }
            if line.indentation == anchor && !closers {
                let member = LayoutStatement { line: line.line, tokens: line.tokens };
                members.push(member);
                assert(members_of(members@) =~= had.push(member@));
            } else if members.len() > 0 {
                let last = members.len() - 1;
                let mut member = members[last];
                member.tokens = TokenRange { start: member.tokens.start, end: line.tokens.end };
                let ghost before = members@;
                members.set(last, member);
                proof {
                    assert(had.last() == before[last as int]@);
                    assert(members_of(members@) =~= had.drop_last().push(member@));
                }
            } else {
                return Err(
                    LayoutError {
                        line: line.line,
                        message: "layout block begins with a continuation line".to_owned(),
                    },
                );
            }
            k = k + 1;
        }
        assert(all.skip(k as int).len() == 0);
        Ok(LayoutBlock { anchor, statements: members, end: view.range.end, boundary: None })
    }

    /// Groups a view that must contain exactly one complete layout body.
    pub fn statements(self, base: LayoutBase) -> (result: Result<
        Vec<LayoutStatement>,
        LayoutError,
    >)
        requires
            self.tokens.wf(),
        ensures
            match result {
                Ok(found) => statements(
                    self.tokens.l(),
                    self.tokens.lo(),
                    self.tokens.hi(),
                    base,
                ) == Ok::<Seq<Member>, (nat, Seq<char>)>(members_of(found@)),
                Err(error) => statements(
                    self.tokens.l(),
                    self.tokens.lo(),
                    self.tokens.hi(),
                    base,
                ) == Err::<Seq<Member>, (nat, Seq<char>)>(error_of(error)),
            },
    {
        let block = self.block(base)?;
        if let Some(boundary) = block.boundary {
            return Err(
                LayoutError {
                    line: boundary.line,
                    message: dedent_text(boundary.indentation, block.anchor),
                },
            );
        }
        Ok(block.statements)
    }
}

pub fn dedent_text(indentation: usize, anchor: usize) -> (message: String)
    ensures
        message@ == dedent_message(indentation as nat, anchor as nat),
{
    let mut message = "layout line is indented ".to_owned();
    push_decimal(&mut message, indentation);
    message.append(" spaces; expected at least ");
    push_decimal(&mut message, anchor);
    message
}

} // verus!
