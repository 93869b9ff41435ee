//! Ranges of the tokens of one lexed source, and the questions that the
//! grammar asks of them.

use vstd::prelude::*;
use vstd::string::StringExecFns;
use crate::lexical;
use crate::lexical::{
    line_at, ByteSpan, Delimiter, DelimiterGroup, GroupId, LeadingTrivia, Lexed, LexedSource,
    LexedText, Lexeme, SpannedToken, TextId, TokenKind,
};
use crate::text;
use crate::text::same_text;

verus! {

/// An ordered range of token positions.
#[derive(Debug, Clone, Copy, PartialEq, Eq, Structural)]
pub struct TokenRange {
    pub start: usize,
    pub end: usize,
}

impl TokenRange {
    pub fn new(start: usize, end: usize) -> (range: Option<Self>)
        ensures
            match range {
                Some(range) => start <= end && range.start == start && range.end == end,
                None => start > end,
            },
    {
        if start <= end {
            Some(TokenRange { start, end })
        } else {
            None
        }
    }

    pub fn start(self) -> (start: usize)
        ensures
            start == self.start,
    {
        self.start
    }

    pub fn end(self) -> (end: usize)
        ensures
            end == self.end,
    {
        self.end
    }

    pub fn len(self) -> (n: usize)
        requires
            self.start <= self.end,
        ensures
            n == self.end - self.start,
    {
        self.end - self.start
    }

    pub fn is_empty(self) -> (b: bool)
        ensures
            b == (self.start == self.end),
    {
        self.start == self.end
    }

    pub fn contains(self, index: usize) -> (b: bool)
        ensures
            b == (self.start <= index < self.end),
    {
        self.start <= index && index < self.end
    }
}

/// A range of the tokens of a source.
#[derive(Debug, Clone, Copy)]
pub struct TokenView<'lex> {
    pub source: &'lex LexedSource,
    pub range: TokenRange,
}

/// A top-level token of a view, by its position.
#[derive(Debug, Clone, Copy)]
pub struct IndexedToken<'lex> {
    pub index: usize,
    pub token: &'lex SpannedToken,
}

impl<'lex> IndexedToken<'lex> {
    pub fn index(self) -> (index: usize)
        ensures
            index == self.index,
    {
        self.index
    }

    pub fn token(self) -> (token: &'lex SpannedToken)
        ensures
            token == self.token,
    {
        self.token
    }
}

pub open spec fn lexeme(l: Lexed, i: int) -> Lexeme {
    l.tokens[i].lexeme
}

/// The token at `i` only starts a line.
pub open spec fn blank(l: Lexed, i: int) -> bool {
    lexeme(l, i) is LineStart
}

pub open spec fn is_symbol(l: Lexed, i: int, symbol: Seq<char>) -> bool {
    lexeme(l, i) == Lexeme::Symbol(symbol)
}

pub open spec fn is_word(l: Lexed, i: int, word: Seq<char>) -> bool {
    lexeme(l, i) == Lexeme::Name(word)
}

/// Nothing stands between the token at `i` and the one before it.
pub open spec fn is_joint(l: Lexed, i: int) -> bool {
    l.tokens[i].leading == LeadingTrivia::Joint
}

/// The token that closes the group opened at `i`, where it comes before `hi`.
pub open spec fn close_of(l: Lexed, i: int, hi: int) -> Option<int> {
    match lexeme(l, i) {
        Lexeme::Open(group, _) => match l.groups[group as int].close {
            Some(close) => if i < close < hi {
                Some(close as int)
            } else {
                None
            },
            None => None,
        },
        _ => None,
    }
}

/// The delimiter that opens at `i`, where its group closes before `hi`.
pub open spec fn opens(l: Lexed, i: int, hi: int, delimiter: Delimiter) -> Option<int> {
    match lexeme(l, i) {
        Lexeme::Open(_, actual) => if actual == delimiter {
            close_of(l, i, hi)
        } else {
            None
        },
        _ => None,
    }
}

/// The next position outside every group that begins at `i`.
pub open spec fn after(l: Lexed, i: int, hi: int) -> int {
    match close_of(l, i, hi) {
        Some(close) => close + 1,
        None => i + 1,
    }
}

/// The first position from `i` on that is not blank.
pub open spec fn skip(l: Lexed, i: int, hi: int) -> int
    decreases hi - i,
{
    if i < hi && blank(l, i) {
        skip(l, i + 1, hi)
    } else {
        i
    }
}

/// The end of a range without its last blank tokens.
pub open spec fn trim_end(l: Lexed, lo: int, hi: int) -> int
    decreases hi - lo,
{
    if lo < hi && blank(l, hi - 1) {
        trim_end(l, lo, hi - 1)
    } else {
        hi
    }
}

/// A range without the blank tokens at its ends.
pub open spec fn trim(l: Lexed, lo: int, hi: int) -> (int, int) {
    let start = skip(l, lo, hi);
    (start, trim_end(l, start, hi))
}

/// A range of blank tokens.
pub open spec fn empty(l: Lexed, lo: int, hi: int) -> bool {
    skip(l, lo, hi) >= hi
}

/// The line of the token at `i`.
pub open spec fn line(l: Lexed, i: int) -> nat {
    lexical::line_of(l.line_starts, l.tokens[i].start)
}

/// The line of the first token of a range.
pub open spec fn view_line(l: Lexed, lo: int, hi: int) -> nat {
    if empty(l, lo, hi) {
        1
    } else {
        line(l, skip(l, lo, hi))
    }
}

/// A token at which a range can be split.
pub enum Mark {
    Symbol(Seq<char>),
    /// A word that is separated from what precedes it.
    Word(Seq<char>),
    LineStart,
}

/// The word at `i` is separated from what precedes it in its range.
pub open spec fn contextual(l: Lexed, lo: int, i: int) -> bool {
    !is_joint(l, i) || i == lo || blank(l, i - 1)
}

pub open spec fn marked(l: Lexed, lo: int, i: int, mark: Mark) -> bool {
    match mark {
        Mark::Symbol(symbol) => is_symbol(l, i, symbol),
        Mark::Word(word) => is_word(l, i, word) && contextual(l, lo, i),
        Mark::LineStart => blank(l, i),
    }
}

/// The positions from `i` on, outside every group, that bear a mark.
pub open spec fn marks(l: Lexed, lo: int, hi: int, i: int, mark: Mark) -> Seq<int>
    decreases hi - i,
{
    if i >= hi {
        Seq::empty()
    } else {
        let rest = marks(l, lo, hi, after(l, i, hi), mark);
        if marked(l, lo, i, mark) {
            seq![i] + rest
        } else {
            rest
        }
    }
}

/// The positions of a range, outside every group, that bear a mark.
pub open spec fn all_marks(l: Lexed, lo: int, hi: int, mark: Mark) -> Seq<int> {
    marks(l, lo, hi, lo, mark)
}

/// The parts of a range between the given positions.
pub open spec fn parts(lo: int, hi: int, cuts: Seq<int>) -> Seq<(int, int)>
    decreases cuts.len(),
{
    if cuts.len() == 0 {
        seq![(lo, hi)]
    } else {
        seq![(lo, cuts[0])] + parts(cuts[0] + 1, hi, cuts.skip(1))
    }
}

/// Marks lie in their range, in order, and bear the mark.
pub proof fn marks_ordered(l: Lexed, lo: int, hi: int, i: int, mark: Mark)
    requires
        lo <= i,
    ensures
        forall|a: int|
            0 <= a < marks(l, lo, hi, i, mark).len() ==> i <= #[trigger] marks(
                l,
                lo,
                hi,
                i,
                mark,
            )[a] < hi && marked(l, lo, marks(l, lo, hi, i, mark)[a], mark),
        forall|a: int, b: int|
            0 <= a < b < marks(l, lo, hi, i, mark).len() ==> marks(l, lo, hi, i, mark)[a] < marks(
                l,
                lo,
                hi,
                i,
                mark,
            )[b],
    decreases hi - i,
{
    if i < hi {
        let next = after(l, i, hi);
        marks_ordered(l, lo, hi, next, mark);
        let rest = marks(l, lo, hi, next, mark);
        let all = marks(l, lo, hi, i, mark);
        let shift: int = if marked(l, lo, i, mark) {
            1
        } else {
            0
        };
        assert(all == if shift == 1 {
            seq![i] + rest
        } else {
            rest
        });
        assert forall|a: int| 0 <= a < all.len() implies i <= #[trigger] all[a] < hi && marked(
            l,
            lo,
            all[a],
            mark,
        ) by {
            if a >= shift {
                assert(all[a] == rest[a - shift]);
            }
        }
        assert forall|a: int, b: int| 0 <= a < b < all.len() implies all[a] < all[b] by {
            assert(all[b] == rest[b - shift]);
            if a >= shift {
                assert(all[a] == rest[a - shift]);
            }
        }
    }
}

/// Skipping blanks stays in the range.
pub proof fn skip_bounds(l: Lexed, i: int, hi: int)
    ensures
        i <= skip(l, i, hi),
        i <= hi ==> skip(l, i, hi) <= hi,
        skip(l, i, hi) < hi ==> !blank(l, skip(l, i, hi)),
        forall|k: int| i <= k < skip(l, i, hi) ==> blank(l, k),
    decreases hi - i,
{
    if i < hi && blank(l, i) {
        skip_bounds(l, i + 1, hi);
    }
}

pub proof fn trim_end_bounds(l: Lexed, lo: int, hi: int)
    requires
        lo <= hi,
    ensures
        lo <= trim_end(l, lo, hi) <= hi,
        lo < trim_end(l, lo, hi) ==> !blank(l, trim_end(l, lo, hi) - 1),
    decreases hi - lo,
{
    if lo < hi && blank(l, hi - 1) {
        trim_end_bounds(l, lo, hi - 1);
    }
}

/// A trimmed range lies in the range, and is not smaller than what is in it.
pub proof fn trim_bounds(l: Lexed, lo: int, hi: int)
    requires
        lo <= hi,
    ensures
        lo <= trim(l, lo, hi).0 <= trim(l, lo, hi).1 <= hi,
        empty(l, lo, hi) <==> trim(l, lo, hi).0 == trim(l, lo, hi).1,
{
    skip_bounds(l, lo, hi);
    let start = skip(l, lo, hi);
    trim_end_bounds(l, start, hi);
    if start < hi {
        trim_end_keeps(l, start, hi);
    }
}

proof fn trim_end_keeps(l: Lexed, lo: int, hi: int)
    requires
        lo < hi,
        !blank(l, lo),
    ensures
        lo < trim_end(l, lo, hi),
    decreases hi - lo,
{
    if blank(l, hi - 1) {
        trim_end_keeps(l, lo, hi - 1);
    }
}

/// The name of a text, of a word or of a symbol as it is shown.
pub open spec fn shown(l: Lexed, i: int, hi: int) -> Seq<char> {
    if i >= hi {
        "end of input"@
    } else if blank(l, i) {
        "start of line"@
    } else {
        match lexical::slice(l.chars, l.tokens[i].start, l.tokens[i].end) {
            Some(text) => "`"@ + text + "`"@,
            None => "token"@,
        }
    }
}

impl<'lex> TokenView<'lex> {
    /// The model of the source that the view belongs to.
    pub open spec fn l(&self) -> Lexed {
        self.source@
    }

    pub open spec fn lo(&self) -> int {
        self.range.start as int
    }

    pub open spec fn hi(&self) -> int {
        self.range.end as int
    }

    /// The view is an ordered range of its source.
    pub open spec fn wf(&self) -> bool {
        &&& self.source.wf()
        &&& self.range.start <= self.range.end
        &&& self.range.end <= self.source@.tokens.len()
    }

    pub fn whole(source: &'lex LexedSource) -> (view: Self)
        requires
            source.wf(),
        ensures
            view.wf(),
            view.source == source,
            view.range.start == 0,
            view.range.end == source@.tokens.len(),
    {
        TokenView { source, range: TokenRange { start: 0, end: source.tokens.len() } }
    }

    pub fn new(source: &'lex LexedSource, range: TokenRange) -> (view: Option<Self>)
        ensures
            match view {
                Some(view) => range.end <= source@.tokens.len() && view.source == source
                    && view.range == range,
                None => range.end > source@.tokens.len(),
            },
    {
        if range.end <= source.tokens.len() {
            Some(TokenView { source, range })
        } else {
            None
        }
    }

    /// The tokens of a declaration.
    pub fn declaration(source: &'lex LexedSource, index: usize) -> (view: Self)
        requires
            source.wf(),
            index < source@.declarations.len(),
        ensures
            view.wf(),
            view.source == source,
            view.lo() == source@.declarations[index as int].first,
            view.hi() == source@.declarations[index as int].last,
    {
        assert(source@.declarations[index as int] == source.declarations@[index as int]@);
        let section = &source.declarations[index];
        TokenView {
            source,
            range: TokenRange { start: section.token_start, end: section.token_end },
        }
    }

    /// The declarations of a source, each with its line.
    pub fn declarations(source: &'lex LexedSource) -> (views: Vec<(usize, Self)>)
        requires
            source.wf(),
        ensures
            views.len() == source@.declarations.len(),
            forall|i: int|
                0 <= i < views.len() ==> {
                    &&& (#[trigger] views@[i]).0 == source@.declarations[i].line
                    &&& views@[i].1.wf()
                    &&& views@[i].1.source == source
                    &&& views@[i].1.lo() == source@.declarations[i].first
                    &&& views@[i].1.hi() == source@.declarations[i].last
                },
    {
        let mut views: Vec<(usize, Self)> = Vec::new();
        let mut i: usize = 0;
        while i < source.declarations.len()
            invariant
                source.wf(),
                i <= source.declarations.len(),
                views.len() == i,
                forall|j: int|
                    0 <= j < i ==> {
                        &&& (#[trigger] views@[j]).0 == source@.declarations[j].line
                        &&& views@[j].1.wf()
                        &&& views@[j].1.source == source
                        &&& views@[j].1.lo() == source@.declarations[j].first
                        &&& views@[j].1.hi() == source@.declarations[j].last
                    },
            decreases source.declarations.len() - i,
        {
            assert(source@.declarations[i as int] == source.declarations@[i as int]@);
            let view = TokenView::declaration(source, i);
            views.push((source.declarations[i].line, view));
            i = i + 1;
        }
        views
    }

    pub fn range(self) -> (range: TokenRange)
        ensures
            range == self.range,
    {
        self.range
    }

    pub fn len(self) -> (n: usize)
        requires
            self.wf(),
        ensures
            n == self.hi() - self.lo(),
    {
        self.range.end - self.range.start
    }

    pub fn is_empty(self) -> (b: bool)
        ensures
            b == (self.lo() == self.hi()),
    {
        self.range.start == self.range.end
    }

    pub fn source(self) -> (source: &'lex LexedSource)
        ensures
            source == self.source,
    {
        self.source
    }

    pub fn get(self, relative: usize) -> (token: Option<&'lex SpannedToken>)
        requires
            self.wf(),
        ensures
            match token {
                Some(token) => relative < self.hi() - self.lo() && token@ == self.l().tokens[self.lo()
                    + relative],
                None => relative >= self.hi() - self.lo(),
            },
    {
        if relative < self.range.end - self.range.start {
            let source = self.source;
            assert(self.l().tokens[self.lo() + relative] == source.tokens@[self.lo() + relative]@);
            Some(&source.tokens[self.range.start + relative])
        } else {
            None
        }
    }

    pub fn token_at(self, index: usize) -> (token: Option<&'lex SpannedToken>)
        requires
            self.wf(),
        ensures
            match token {
                Some(token) => self.lo() <= index < self.hi() && token@
                    == self.l().tokens[index as int],
                None => !(self.lo() <= index < self.hi()),
            },
    {
        if self.range.contains(index) {
            let source = self.source;
            assert(self.l().tokens[index as int] == source.tokens@[index as int]@);
            Some(&source.tokens[index])
        } else {
            None
        }
    }

    pub fn absolute_index(self, relative: usize) -> (index: Option<usize>)
        requires
            self.wf(),
        ensures
            match index {
                Some(index) => relative < self.hi() - self.lo() && index == self.lo() + relative,
                None => relative >= self.hi() - self.lo(),
            },
    {
        if relative < self.range.end - self.range.start {
            Some(self.range.start + relative)
        } else {
            None
        }
    }

    pub fn subview(self, range: TokenRange) -> (view: Option<Self>)
        requires
            self.wf(),
            range.start <= range.end,
        ensures
            match view {
                Some(view) => {
                    &&& self.lo() <= range.start
                    &&& range.end <= self.hi()
                    &&& view.source == self.source
                    &&& view.range == range
                    &&& view.wf()
                },
                None => !(self.lo() <= range.start && range.end <= self.hi()),
            },
    {
        if self.range.start <= range.start && range.end <= self.range.end {
            Some(TokenView { source: self.source, range })
        } else {
            None
        }
    }

    pub fn slice(self, start: usize, end: usize) -> (view: Option<Self>)
        requires
            self.wf(),
        ensures
            match view {
                Some(view) => {
                    &&& start <= end <= self.hi() - self.lo()
                    &&& view.source == self.source
                    &&& view.lo() == self.lo() + start
                    &&& view.hi() == self.lo() + end
                    &&& view.wf()
                },
                None => !(start <= end <= self.hi() - self.lo()),
            },
    {
        if start > end || end > self.range.end - self.range.start {
            None
        } else {
            Some(self.between(self.range.start + start, self.range.start + end))
        }
    }

    pub fn before(self, relative: usize) -> (view: Option<Self>)
        requires
            self.wf(),
        ensures
            match view {
                Some(view) => relative <= self.hi() - self.lo() && view.lo() == self.lo()
                    && view.hi() == self.lo() + relative && view.wf() && view.source == self.source,
                None => relative > self.hi() - self.lo(),
            },
    {
        self.slice(0, relative)
    }

    pub fn after(self, relative: usize) -> (view: Option<Self>)
        requires
            self.wf(),
        ensures
            match view {
                Some(view) => relative < self.hi() - self.lo() && view.lo() == self.lo() + relative
                    + 1 && view.hi() == self.hi() && view.wf() && view.source == self.source,
                None => relative >= self.hi() - self.lo(),
            },
    {
        let n = self.len();
        if relative < n {
            self.slice(relative + 1, n)
        } else {
            None
        }
    }

    /// A part of the view.
    pub fn between(self, start: usize, end: usize) -> (view: Self)
        requires
            self.wf(),
            self.lo() <= start <= end <= self.hi(),
        ensures
            view.wf(),
            view.source == self.source,
            view.lo() == start,
            view.hi() == end,
    {
        TokenView { source: self.source, range: TokenRange { start, end } }
    }

    fn end_byte(self) -> (byte: usize)
        requires
            self.wf(),
        ensures
            byte == end_of(self.l(), self.hi()),
    {
        match self.source.token(self.range.end) {
            Some(token) => token.span.start,
            None => self.source.byte_len,
        }
    }

    /// The bytes from the first token to the last.
    pub fn byte_span(self) -> (span: ByteSpan)
        requires
            self.wf(),
        ensures
            (span.start as nat, span.end as nat) == bytes_of(self.l(), self.lo(), self.hi()),
    {
        if self.range.start == self.range.end {
            let end = self.end_byte();
            ByteSpan { start: end, end }
        } else {
            let first = self.range.start;
            let last = self.range.end - 1;
            assert(self.l().tokens[first as int] == self.source.tokens@[first as int]@);
            assert(self.l().tokens[last as int] == self.source.tokens@[last as int]@);
            ByteSpan {
                start: self.source.tokens[first].span.start,
                end: self.source.tokens[last].span.end,
            }
        }
    }

    /// The text of the view.
    pub fn source_text(self) -> (text: Option<String>)
        requires
            self.wf(),
        ensures
            ({
                let bytes = bytes_of(self.l(), self.lo(), self.hi());
                match text {
                    Some(text) => lexical::slice(self.l().chars, bytes.0, bytes.1) == Some(text@),
                    None => lexical::slice(self.l().chars, bytes.0, bytes.1) is None,
                }
            }),
    {
        self.source.source_slice(self.byte_span())
    }

    pub fn line_at_byte(self, byte: usize) -> (line: Option<usize>)
        requires
            self.wf(),
        ensures
            match line {
                Some(line) => byte <= text::utf8_size(self.l().chars) && line == lexical::line_of(
                    self.l().line_starts,
                    byte as nat,
                ),
                None => byte > text::utf8_size(self.l().chars),
            },
    {
        self.source.line_at_byte(byte)
    }

    pub fn line_at_span(self, span: ByteSpan) -> (line: Option<usize>)
        requires
            self.wf(),
        ensures
            match line {
                Some(line) => span.start <= text::utf8_size(self.l().chars) && line
                    == lexical::line_of(self.l().line_starts, span.start as nat),
                None => span.start > text::utf8_size(self.l().chars),
            },
    {
        self.line_at_byte(span.start)
    }

    /// The line of a token.
    pub fn line(self, index: usize) -> (n: usize)
        requires
            self.wf(),
            index < self.l().tokens.len(),
        ensures
            n == line(self.l(), index as int),
    {
        assert(self.l().tokens[index as int] == self.source.tokens@[index as int]@);
        line_at(&self.source.line_starts, self.source.tokens[index].span.start)
    }

    pub fn column_at_span(self, span: ByteSpan) -> (column: Option<usize>)
        requires
            self.wf(),
        ensures
            match column {
                Some(column) => {
                    &&& span.start <= text::utf8_size(self.l().chars)
                    &&& lexical::line_bytes(
                        self.l(),
                        lexical::line_of(self.l().line_starts, span.start as nat) as int,
                    ) matches Some(bytes) && column == if span.start >= bytes.0 {
                        span.start - bytes.0
                    } else {
                        0
                    }
                },
                None => span.start > text::utf8_size(self.l().chars) || lexical::line_bytes(
                    self.l(),
                    lexical::line_of(self.l().line_starts, span.start as nat) as int,
                ) is None,
            },
    {
        match self.line_at_span(span) {
            Some(line) => match self.line_span(line) {
                Some(bytes) => Some(
                    if span.start >= bytes.start {
                        span.start - bytes.start
                    } else {
                        0
                    },
                ),
                None => None,
            },
            None => None,
        }
    }

    pub fn source_line(self, line: usize) -> (text: Option<String>)
        requires
            self.wf(),
        ensures
            match text {
                Some(text) => lexical::line_bytes(self.l(), line as int) matches Some(bytes)
                    && lexical::slice(self.l().chars, bytes.0, bytes.1) == Some(text@),
                None => lexical::line_bytes(self.l(), line as int) matches Some(bytes)
                    ==> lexical::slice(self.l().chars, bytes.0, bytes.1) is None,
            },
    {
        self.source.source_line(line)
    }

    pub fn line_span(self, line: usize) -> (span: Option<ByteSpan>)
        requires
            self.wf(),
        ensures
            match span {
                Some(span) => lexical::line_bytes(self.l(), line as int) == Some(
                    (span.start as nat, span.end as nat),
                ),
                None => lexical::line_bytes(self.l(), line as int) is None,
            },
    {
        self.source.line_span(line)
    }

    /// The indentation of the line on which a token stands.
    pub fn line_indentation_at(self, index: usize) -> (indentation: Option<usize>)
        requires
            self.wf(),
        ensures
            match indentation {
                Some(n) => index < self.l().tokens.len() && indentation_of(
                    self.l(),
                    index as int,
                ) == Some(n as nat),
                None => index >= self.l().tokens.len() || indentation_of(
                    self.l(),
                    index as int,
                ) is None,
            },
    {
        if index >= self.source.tokens.len() {
            return None;
        }
        let mut i: usize = index + 1;
        while i > 0
            invariant
                self.wf(),
                i <= index + 1 <= self.l().tokens.len(),
                indentation_of(self.l(), index as int) == indentation_of(self.l(), i - 1),
            decreases i,
        {
            i = i - 1;
            assert(self.l().tokens[i as int] == self.source.tokens@[i as int]@);
            if let TokenKind::LineStart { indentation } = &self.source.tokens[i].kind {
                return Some(*indentation);
            }
        }
        None
    }

    pub fn text(self, id: TextId) -> (text: Option<&'lex LexedText>)
        ensures
            match text {
                Some(text) => id < self.l().texts.len() && text@ == self.l().texts[id as int],
                None => id >= self.l().texts.len(),
            },
    {
        self.source.text(id)
    }

    pub fn group(self, id: GroupId) -> (group: Option<&'lex DelimiterGroup>)
        ensures
            match group {
                Some(group) => id < self.l().groups.len() && group@ == self.l().groups[id as int],
                None => id >= self.l().groups.len(),
            },
    {
        self.source.group(id)
    }

    /// The contents of a group, where they lie in the view.
    pub fn group_contents(self, id: GroupId) -> (view: Option<Self>)
        requires
            self.wf(),
        ensures
            match view {
                Some(view) => view.wf() && view.source == self.source && lexical::contents(
                    self.l(),
                    id as int,
                ) == Some((view.lo(), view.hi())) && self.lo() <= view.lo() && view.hi()
                    <= self.hi(),
                None => lexical::contents(self.l(), id as int) matches Some(range) ==> !(self.lo()
                    <= range.0 && range.1 <= self.hi()),
            },
    {
        match self.source.group_contents(id) {
            Some(range) => {
                proof {
                    assert(lexical::group_pairs(
                        self.l().tokens,
                        self.l().groups[id as int],
                        id as int,
                    ));
                }
                match TokenRange::new(range.start, range.end) {
                    Some(range) => self.subview(range),
                    None => None,
                }
            },
            None => None,
        }
    }

    /// The group of the given delimiter that opens at a position of the view.
    pub fn group_at(self, relative: usize, delimiter: Delimiter) -> (found: Option<(GroupId, Self)>)
        requires
            self.wf(),
        ensures
            match found {
                Some((id, view)) => {
                    &&& relative < self.hi() - self.lo()
                    &&& lexeme(self.l(), self.lo() + relative) == Lexeme::Open(
                        id as nat,
                        delimiter,
                    )
                    &&& lexical::contents(self.l(), id as int) == Some((view.lo(), view.hi()))
                    &&& view.wf()
                    &&& view.source == self.source
                },
                None => relative >= self.hi() - self.lo() || match lexeme(
                    self.l(),
                    self.lo() + relative,
                ) {
                    Lexeme::Open(id, actual) => actual == delimiter ==> (lexical::contents(
                        self.l(),
                        id as int,
                    ) matches Some(range) ==> !(self.lo() <= range.0 && range.1 <= self.hi())),
                    _ => true,
                },
            },
    {
        match self.get(relative) {
            Some(token) => match &token.kind {
                TokenKind::Open { group, delimiter: actual } => if *actual == delimiter {
                    match self.group_contents(*group) {
                        Some(view) => Some((*group, view)),
                        None => None,
                    }
                } else {
                    None
                },
                _ => None,
            },
            None => None,
        }
    }

    /// The first position that is not blank.
    pub fn skip(self, from: usize) -> (index: usize)
        requires
            self.wf(),
            self.lo() <= from <= self.hi(),
        ensures
            index == skip(self.l(), from as int, self.hi()),
            from <= index <= self.hi(),
    {
        let mut i: usize = from;
        while i < self.range.end && self.is_blank(i)
            invariant
                self.wf(),
                self.lo() <= from <= i <= self.hi(),
                skip(self.l(), from as int, self.hi()) == skip(self.l(), i as int, self.hi()),
            decreases self.hi() - i,
        {
            i = i + 1;
        }
        i
    }

    pub fn first_significant(self) -> (found: Option<(usize, &'lex SpannedToken)>)
        requires
            self.wf(),
        ensures
            match found {
                Some((index, token)) => index == skip(self.l(), self.lo(), self.hi()) && index
                    < self.hi() && token@ == self.l().tokens[index as int],
                None => empty(self.l(), self.lo(), self.hi()),
            },
    {
        let index = self.skip(self.range.start);
        if index < self.range.end {
            let source = self.source;
            assert(self.l().tokens[index as int] == source.tokens@[index as int]@);
            Some((index, &source.tokens[index]))
        } else {
            None
        }
    }

    pub fn last_significant(self) -> (found: Option<(usize, &'lex SpannedToken)>)
        requires
            self.wf(),
        ensures
            match found {
                Some((index, token)) => index + 1 == trim_end(self.l(), self.lo(), self.hi())
                    && self.lo() <= index < self.hi() && token@ == self.l().tokens[index as int],
                None => trim_end(self.l(), self.lo(), self.hi()) <= self.lo(),
            },
    {
        let end = self.trimmed_end(self.range.start);
        if end > self.range.start {
            let source = self.source;
            assert(self.l().tokens[end - 1] == source.tokens@[end - 1]@);
            Some((end - 1, &source.tokens[end - 1]))
        } else {
            None
        }
    }

    fn trimmed_end(self, from: usize) -> (end: usize)
        requires
            self.wf(),
            self.lo() <= from <= self.hi(),
        ensures
            end == trim_end(self.l(), from as int, self.hi()),
            from <= end <= self.hi(),
    {
        let mut i: usize = self.range.end;
        while i > from && self.is_blank(i - 1)
            invariant
                self.wf(),
                self.lo() <= from <= i <= self.hi(),
                trim_end(self.l(), from as int, self.hi()) == trim_end(
                    self.l(),
                    from as int,
                    i as int,
                ),
            decreases i,
        {
            i = i - 1;
        }
        i
    }

    /// The view without the blank tokens at its ends.
    pub fn trim_layout(self) -> (view: Self)
        requires
            self.wf(),
        ensures
            view.wf(),
            view.source == self.source,
            (view.lo(), view.hi()) == trim(self.l(), self.lo(), self.hi()),
            self.lo() <= view.lo() <= view.hi() <= self.hi(),
    {
        let start = self.skip(self.range.start);
        let end = self.trimmed_end(start);
        self.between(start, end)
    }

    pub fn is_layout_empty(self) -> (b: bool)
        requires
            self.wf(),
        ensures
            b == empty(self.l(), self.lo(), self.hi()),
    {
        self.skip(self.range.start) >= self.range.end
    }

    pub fn is_blank(self, index: usize) -> (b: bool)
        requires
            self.wf(),
            index < self.l().tokens.len(),
        ensures
            b == blank(self.l(), index as int),
    {
        assert(self.l().tokens[index as int] == self.source.tokens@[index as int]@);
        match &self.source.tokens[index].kind {
            TokenKind::LineStart { indentation: _ } => true,
            _ => false,
        }
    }

    pub fn is_symbol(self, index: usize, symbol: &str) -> (b: bool)
        requires
            self.wf(),
            index < self.l().tokens.len(),
        ensures
            b == is_symbol(self.l(), index as int, symbol@),
    {
        assert(self.l().tokens[index as int] == self.source.tokens@[index as int]@);
        match &self.source.tokens[index].kind {
            TokenKind::Symbol(actual) => same_text(actual.as_str(), symbol),
            _ => false,
        }
    }

    pub fn is_word(self, index: usize, word: &str) -> (b: bool)
        requires
            self.wf(),
            index < self.l().tokens.len(),
        ensures
            b == is_word(self.l(), index as int, word@),
    {
        assert(self.l().tokens[index as int] == self.source.tokens@[index as int]@);
        match &self.source.tokens[index].kind {
            TokenKind::Name(actual) => same_text(actual.as_str(), word),
            _ => false,
        }
    }

    pub fn is_joint(self, index: usize) -> (b: bool)
        requires
            self.wf(),
            index < self.l().tokens.len(),
        ensures
            b == is_joint(self.l(), index as int),
    {
        assert(self.l().tokens[index as int] == self.source.tokens@[index as int]@);
        self.source.tokens[index].leading == LeadingTrivia::Joint
    }

    /// The token that closes the group opened at a position of the view.
    pub fn close_of(self, index: usize) -> (close: Option<usize>)
        requires
            self.wf(),
            index < self.hi(),
        ensures
            match close {
                Some(close) => close_of(self.l(), index as int, self.hi()) == Some(close as int)
                    && index < close < self.hi(),
                None => close_of(self.l(), index as int, self.hi()) is None,
            },
    {
        let source = self.source;
        assert(self.l().tokens[index as int] == source.tokens@[index as int]@);
        match &source.tokens[index].kind {
            TokenKind::Open { group, delimiter: _ } => {
                proof {
                    assert(lexical::token_pairs(
                        self.l().tokens[index as int],
                        self.l().groups,
                        index as int,
                        self.l().texts.len() as int,
                    ));
                    assert(self.l().groups[*group as int] == source.groups@[*group as int]@);
                }
                match source.groups[*group].close_token {
                    Some(close) => if index < close && close < self.range.end {
                        Some(close)
                    } else {
                        None
                    },
                    None => None,
                }
            },
            _ => None,
        }
    }

    /// The token that closes the group of a delimiter opened at a position.
    pub fn opens(self, index: usize, delimiter: Delimiter) -> (close: Option<usize>)
        requires
            self.wf(),
            index < self.hi(),
        ensures
            match close {
                Some(close) => opens(self.l(), index as int, self.hi(), delimiter) == Some(
                    close as int,
                ) && index < close < self.hi(),
                None => opens(self.l(), index as int, self.hi(), delimiter) is None,
            },
    {
        assert(self.l().tokens[index as int] == self.source.tokens@[index as int]@);
        match &self.source.tokens[index].kind {
            TokenKind::Open { group: _, delimiter: actual } => if *actual == delimiter {
                self.close_of(index)
            } else {
                None
            },
            _ => None,
        }
    }

    /// The next position outside every group that begins at a position.
    pub fn next_top(self, index: usize) -> (next: usize)
        requires
            self.wf(),
            index < self.hi(),
        ensures
            next == after(self.l(), index as int, self.hi()),
            index < next <= self.hi(),
    {
        match self.close_of(index) {
            Some(close) => close + 1,
            None => index + 1,
        }
    }

    pub fn is_contextual_keyword(self, index: usize) -> (b: bool)
        requires
            self.wf(),
            self.lo() <= index < self.hi(),
        ensures
            b == contextual(self.l(), self.lo(), index as int),
    {
        !self.is_joint(index) || index == self.range.start || self.is_blank(index - 1)
    }

    /// The top-level tokens of the view.
    pub fn top_level(self) -> (tokens: Vec<IndexedToken<'lex>>)
        requires
            self.wf(),
        ensures
            positions(tokens@) == tops(self.l(), self.lo(), self.hi()),
            forall|k: int|
                0 <= k < tokens.len() ==> self.lo() <= (#[trigger] tokens@[k]).index < self.hi()
                    && tokens@[k].token@ == self.l().tokens[tokens@[k].index as int],
    {
        let source = self.source;
        let mut tokens: Vec<IndexedToken<'lex>> = Vec::new();
        let mut i: usize = self.range.start;
        assert(positions(tokens@) =~= Seq::<int>::empty());
        while i < self.range.end
            invariant
                self.wf(),
                source == self.source,
                self.lo() <= i <= self.hi(),
                positions(tokens@) + tops(self.l(), i as int, self.hi()) == tops(
                    self.l(),
                    self.lo(),
                    self.hi(),
                ),
                forall|k: int|
                    0 <= k < tokens.len() ==> self.lo() <= (#[trigger] tokens@[k]).index
                        < self.hi() && tokens@[k].token@ == self.l().tokens[tokens@[k].index as int],
            decreases self.hi() - i,
        {
            assert(self.l().tokens[i as int] == source.tokens@[i as int]@);
            let ghost had = positions(tokens@);
            tokens.push(IndexedToken { index: i, token: &source.tokens[i] });
            let next = self.next_top(i);
            proof {
                assert(positions(tokens@) =~= had.push(i as int));
                assert(had.push(i as int) + tops(self.l(), next as int, self.hi()) =~= had + tops(
                    self.l(),
                    i as int,
                    self.hi(),
                ));
            }
            i = next;
        }
        assert(positions(tokens@) =~= positions(tokens@) + Seq::<int>::empty());
        tokens
    }

    fn bears(self, index: usize, mark: &MarkText<'_>) -> (b: bool)
        requires
            self.wf(),
            self.lo() <= index < self.hi(),
        ensures
            b == marked(self.l(), self.lo(), index as int, mark@),
    {
        match mark {
            MarkText::Symbol(symbol) => self.is_symbol(index, symbol),
            MarkText::Word(word) => self.is_word(index, word) && self.is_contextual_keyword(index),
            MarkText::LineStart => self.is_blank(index),
        }
    }

    /// The positions, outside every group, that bear a mark.
    pub fn find(self, mark: MarkText<'_>) -> (found: Vec<usize>)
        requires
            self.wf(),
        ensures
            indices(found@) == all_marks(self.l(), self.lo(), self.hi(), mark@),
            forall|k: int|
                0 <= k < found.len() ==> self.lo() <= #[trigger] found@[k] < self.hi() && marked(
                    self.l(),
                    self.lo(),
                    found@[k] as int,
                    mark@,
                ),
            forall|a: int, b: int| 0 <= a < b < found.len() ==> found@[a] < found@[b],
    {
        let mut found: Vec<usize> = Vec::new();
        let mut i: usize = self.range.start;
        assert(indices(found@) =~= Seq::<int>::empty());
        while i < self.range.end
            invariant
                self.wf(),
                self.lo() <= i <= self.hi(),
                indices(found@) + marks(self.l(), self.lo(), self.hi(), i as int, mark@)
                    == all_marks(self.l(), self.lo(), self.hi(), mark@),
            decreases self.hi() - i,
        {
            let ghost had = indices(found@);
            let ghost rest = marks(
                self.l(),
                self.lo(),
                self.hi(),
                after(self.l(), i as int, self.hi()),
                mark@,
            );
            if self.bears(i, &mark) {
                found.push(i);
                proof {
                    assert(indices(found@) =~= had.push(i as int));
                    assert(had.push(i as int) + rest =~= had + (seq![i as int] + rest));
                }
            }
            i = self.next_top(i);
        }
        proof {
            assert(indices(found@) + Seq::<int>::empty() =~= indices(found@));
            marks_ordered(self.l(), self.lo(), self.hi(), self.lo(), mark@);
            let all = all_marks(self.l(), self.lo(), self.hi(), mark@);
            assert forall|k: int| 0 <= k < found.len() implies self.lo() <= #[trigger] found@[k]
                < self.hi() && marked(self.l(), self.lo(), found@[k] as int, mark@) by {
                assert(all[k] == found@[k]);
            }
            assert forall|a: int, b: int| 0 <= a < b < found.len() implies found@[a] < found@[b] by {
                assert(all[a] == found@[a]);
                assert(all[b] == found@[b]);
            }
        }
        found
    }

    pub fn top_level_symbols(self, symbol: &str) -> (found: Vec<usize>)
        requires
            self.wf(),
        ensures
            indices(found@) == all_marks(self.l(), self.lo(), self.hi(), Mark::Symbol(symbol@)),
            forall|k: int|
                0 <= k < found.len() ==> self.lo() <= #[trigger] found@[k] < self.hi() && marked(
                    self.l(),
                    self.lo(),
                    found@[k] as int,
                    Mark::Symbol(symbol@),
                ),
            forall|a: int, b: int| 0 <= a < b < found.len() ==> found@[a] < found@[b],
    {
        self.find(MarkText::Symbol(symbol))
    }

    pub fn contextual_keywords(self, word: &str) -> (found: Vec<usize>)
        requires
            self.wf(),
        ensures
            indices(found@) == all_marks(self.l(), self.lo(), self.hi(), Mark::Word(word@)),
            forall|k: int|
                0 <= k < found.len() ==> self.lo() <= #[trigger] found@[k] < self.hi() && marked(
                    self.l(),
                    self.lo(),
                    found@[k] as int,
                    Mark::Word(word@),
                ),
            forall|a: int, b: int| 0 <= a < b < found.len() ==> found@[a] < found@[b],
    {
        self.find(MarkText::Word(word))
    }

    /// The parts of the view between top-level separators.
    pub fn split_top_level(self, separator: &str) -> (views: Vec<Self>)
        requires
            self.wf(),
        ensures
            ranges(views@) == parts(
                self.lo(),
                self.hi(),
                all_marks(self.l(), self.lo(), self.hi(), Mark::Symbol(separator@)),
            ),
            views.len() >= 1,
            all_within(views@, self),
    {
        self.split(MarkText::Symbol(separator))
    }

    /// The parts of the view between the positions that bear a mark.
    pub fn split(self, mark: MarkText<'_>) -> (views: Vec<Self>)
        requires
            self.wf(),
        ensures
            ranges(views@) == parts(
                self.lo(),
                self.hi(),
                all_marks(self.l(), self.lo(), self.hi(), mark@),
            ),
            views.len() >= 1,
            all_within(views@, self),
    {
        let cuts = self.find(mark);
        let ghost all = indices(cuts@);
        let mut views: Vec<Self> = Vec::new();
        let mut start: usize = self.range.start;
        let mut k: usize = 0;
        proof {
            assert(ranges(views@) =~= Seq::<(int, int)>::empty());
            assert(all.skip(0) =~= all);
            assert(Seq::<(int, int)>::empty() + parts(self.lo(), self.hi(), all) =~= parts(
                self.lo(),
                self.hi(),
                all,
            ));
        }
        while k < cuts.len()
            invariant
                self.wf(),
                k <= cuts.len(),
                all == indices(cuts@),
                self.lo() <= start <= self.hi(),
                k < cuts.len() ==> start <= cuts@[k as int],
                forall|j: int| 0 <= j < cuts.len() ==> self.lo() <= #[trigger] cuts@[j] < self.hi(),
                forall|a: int, b: int| 0 <= a < b < cuts.len() ==> cuts@[a] < cuts@[b],
                views.len() == k,
                all_within(views@, self),
                ranges(views@) + parts(start as int, self.hi(), all.skip(k as int)) == parts(
                    self.lo(),
                    self.hi(),
                    all,
                ),
            decreases cuts.len() - k,
        {
            let ghost had = ranges(views@);
            let view = self.between(start, cuts[k]);
            views.push(view);
            proof {
                let rest = all.skip(k as int);
                assert(rest[0] == cuts@[k as int]);
                assert(rest.skip(1) =~= all.skip(k + 1));
                assert(ranges(views@) =~= had.push((start as int, cuts@[k as int] as int)));
                assert(had.push((start as int, rest[0])) + parts(
                    rest[0] + 1,
                    self.hi(),
                    rest.skip(1),
                ) =~= had + (seq![(start as int, rest[0])] + parts(
                    rest[0] + 1,
                    self.hi(),
                    rest.skip(1),
                )));
            }
            start = cuts[k] + 1;
            k = k + 1;
        }
        let ghost had = ranges(views@);
        views.push(self.between(start, self.range.end));
        proof {
            assert(all.skip(k as int).len() == 0);
            assert(ranges(views@) =~= had + seq![(start as int, self.hi())]);
        }
        views
    }

    /// How a token is shown in a diagnostic.
    pub fn display(self, index: usize) -> (text: String)
        requires
            self.wf(),
            index <= self.hi(),
        ensures
            text@ == shown(self.l(), index as int, self.hi()),
    {
        if index >= self.range.end {
            return "end of input".to_owned();
        }
        if self.is_blank(index) {
            return "start of line".to_owned();
        }
        assert(self.l().tokens[index as int] == self.source.tokens@[index as int]@);
        match self.source.source_slice(self.source.tokens[index].span) {
            Some(source) => {
                let mut text = "`".to_owned();
                text.append(source.as_str());
                text.append("`");
                text
            },
            None => "token".to_owned(),
        }
    }
}

/// The end of a view's bytes when it holds no token.
pub open spec fn end_of(l: Lexed, hi: int) -> nat {
    if hi < l.tokens.len() {
        l.tokens[hi].start
    } else {
        text::utf8_size(l.chars)
    }
}

/// The bytes from the first token of a range to its last.
pub open spec fn bytes_of(l: Lexed, lo: int, hi: int) -> (nat, nat) {
    if lo == hi {
        (end_of(l, hi), end_of(l, hi))
    } else {
        (l.tokens[lo].start, l.tokens[hi - 1].end)
    }
}

/// The indentation of the line on which a token stands.
pub open spec fn indentation_of(l: Lexed, i: int) -> Option<nat>
    decreases i + 1,
{
    if i < 0 {
        None
    } else {
        match lexeme(l, i) {
            Lexeme::LineStart(indentation) => Some(indentation),
            _ => indentation_of(l, i - 1),
        }
    }
}

/// The top-level positions of a range.
pub open spec fn tops(l: Lexed, i: int, hi: int) -> Seq<int>
    decreases hi - i,
{
    if i >= hi {
        Seq::empty()
    } else {
        seq![i] + tops(l, after(l, i, hi), hi)
    }
}

pub open spec fn positions(tokens: Seq<IndexedToken>) -> Seq<int> {
    tokens.map_values(|t: IndexedToken| t.index as int)
}

pub open spec fn indices(found: Seq<usize>) -> Seq<int> {
    found.map_values(|i: usize| i as int)
}

pub open spec fn ranges(views: Seq<TokenView>) -> Seq<(int, int)> {
    views.map_values(|v: TokenView| (v.lo(), v.hi()))
}

/// Every view is a part of another.
pub open spec fn all_within(views: Seq<TokenView>, outer: TokenView) -> bool {
    forall|k: int|
        0 <= k < views.len() ==> {
            &&& (#[trigger] views[k]).wf()
            &&& views[k].source == outer.source
            &&& outer.lo() <= views[k].lo()
            &&& views[k].hi() <= outer.hi()
        }
}

/// The text of a mark.
pub enum MarkText<'a> {
    Symbol(&'a str),
    Word(&'a str),
    LineStart,
}

impl<'a> View for MarkText<'a> {
    type V = Mark;

    open spec fn view(&self) -> Mark {
        match self {
            MarkText::Symbol(symbol) => Mark::Symbol(symbol@),
            MarkText::Word(word) => Mark::Word(word@),
            MarkText::LineStart => Mark::LineStart,
        }
    }
}

} // verus!
