//! Lexical structure of `g0` source: tokens, delimiter groups, text literals,
//! source lines and declaration sections, from one pass over the scalars.

use vstd::prelude::*;
use vstd::string::StringExecFns;
use crate::diagnostic;
use crate::diagnostic::{report, report_all, Diagnostic, DiagnosticView, Severity};
use crate::text;
use crate::text::{
    chars_of, is_ascii_digit, is_ascii_letter, is_white_space, push_hexadecimal, string_of, utf8_len,
};
use crate::values::Value;

verus! {

/// A range of bytes of a source.
#[derive(Debug, Clone, Copy, PartialEq, Eq, Structural)]
pub struct ByteSpan {
    pub start: usize,
    pub end: usize,
}

/// What stands between a token and the one before it.
#[derive(Debug, Clone, Copy, PartialEq, Eq, Structural)]
pub enum LeadingTrivia {
    Joint,
    Space,
    LineBreak,
}

#[derive(Debug, Clone, Copy, PartialEq, Eq, Structural)]
pub enum Delimiter {
    Parenthesis,
    Bracket,
    Brace,
}

pub type GroupId = usize;

pub type TextId = usize;

pub type DataId = usize;

#[derive(Debug, PartialEq, Eq)]
pub enum TokenKind {
    Name(String),
    Number(String),
    Text(TextId),
    Symbol(String),
    Open { group: GroupId, delimiter: Delimiter },
    Close { group: GroupId, delimiter: Delimiter },
    LineStart { indentation: usize },
    Unknown(char),
    /// Closed data placed in a token sequence by a source transformation.
    Embedded(DataId),
}

#[derive(Debug, PartialEq, Eq)]
pub struct SpannedToken {
    pub kind: TokenKind,
    pub span: ByteSpan,
    pub leading: LeadingTrivia,
}

#[derive(Debug, PartialEq, Eq)]
pub struct LexedText {
    pub value: String,
    pub span: ByteSpan,
    pub multiline: bool,
}

#[derive(Debug, Clone, Copy, PartialEq, Eq)]
pub struct DelimiterGroup {
    pub delimiter: Delimiter,
    pub open_token: usize,
    pub close_token: Option<usize>,
    pub parent: Option<GroupId>,
}

#[derive(Debug, Clone, Copy, PartialEq, Eq)]
pub struct DeclarationSection {
    pub token_start: usize,
    pub token_end: usize,
    pub span: ByteSpan,
    pub line: usize,
}

/// The lexical structure of one source.
#[derive(Debug)]
pub struct LexedSource {
    pub chars: Vec<char>,
    pub byte_len: usize,
    pub tokens: Vec<SpannedToken>,
    pub texts: Vec<LexedText>,
    pub groups: Vec<DelimiterGroup>,
    pub declarations: Vec<DeclarationSection>,
    pub line_starts: Vec<usize>,
    pub validation_diagnostics: Vec<Diagnostic>,
    pub structural_diagnostics: Vec<Diagnostic>,
    pub has_invalid_whitespace: bool,
    /// The data of the tokens that stand for data.
    pub embedded: Vec<Value>,
}

/// What a token spells.
pub enum Lexeme {
    Name(Seq<char>),
    Number(Seq<char>),
    Text(nat),
    Symbol(Seq<char>),
    Open(nat, Delimiter),
    Close(nat, Delimiter),
    LineStart(nat),
    Unknown(char),
    Embedded(nat),
}

/// A token, the bytes it covers, and what stands before it.
pub struct Token {
    pub lexeme: Lexeme,
    pub start: nat,
    pub end: nat,
    pub leading: LeadingTrivia,
}

/// The value of a text literal, and the bytes it covers.
pub struct Literal {
    pub value: Seq<char>,
    pub start: nat,
    pub end: nat,
    pub multiline: bool,
}

/// A pair of delimiters, by the positions of their tokens.
pub struct Group {
    pub delimiter: Delimiter,
    pub open: nat,
    pub close: Option<nat>,
    pub parent: Option<nat>,
}

/// One declaration: its tokens, its bytes, and its first line.
pub struct Section {
    pub first: nat,
    pub last: nat,
    pub start: nat,
    pub end: nat,
    pub line: nat,
}

/// The model of a lexed source.
pub struct Lexed {
    pub chars: Seq<char>,
    pub tokens: Seq<Token>,
    pub texts: Seq<Literal>,
    pub groups: Seq<Group>,
    pub declarations: Seq<Section>,
    pub line_starts: Seq<nat>,
    pub validation: Seq<DiagnosticView>,
    pub structural: Seq<DiagnosticView>,
    pub invalid_whitespace: bool,
    pub embedded: Seq<Value>,
}

impl View for TokenKind {
    type V = Lexeme;

    open spec fn view(&self) -> Lexeme {
        match self {
            TokenKind::Name(name) => Lexeme::Name(name@),
            TokenKind::Number(number) => Lexeme::Number(number@),
            TokenKind::Text(id) => Lexeme::Text(*id as nat),
            TokenKind::Symbol(symbol) => Lexeme::Symbol(symbol@),
            TokenKind::Open { group, delimiter } => Lexeme::Open(*group as nat, *delimiter),
            TokenKind::Close { group, delimiter } => Lexeme::Close(*group as nat, *delimiter),
            TokenKind::LineStart { indentation } => Lexeme::LineStart(*indentation as nat),
            TokenKind::Unknown(c) => Lexeme::Unknown(*c),
            TokenKind::Embedded(id) => Lexeme::Embedded(*id as nat),
        }
    }
}

impl View for SpannedToken {
    type V = Token;

    open spec fn view(&self) -> Token {
        Token {
            lexeme: self.kind@,
            start: self.span.start as nat,
            end: self.span.end as nat,
            leading: self.leading,
        }
    }
}

impl View for LexedText {
    type V = Literal;

    open spec fn view(&self) -> Literal {
        Literal {
            value: self.value@,
            start: self.span.start as nat,
            end: self.span.end as nat,
            multiline: self.multiline,
        }
    }
}

/// An optional identifier as a number.
pub open spec fn maybe(id: Option<usize>) -> Option<nat> {
    match id {
        Some(id) => Some(id as nat),
        None => None,
    }
}

impl View for DelimiterGroup {
    type V = Group;

    open spec fn view(&self) -> Group {
        Group {
            delimiter: self.delimiter,
            open: self.open_token as nat,
            close: maybe(self.close_token),
            parent: maybe(self.parent),
        }
    }
}

impl View for DeclarationSection {
    type V = Section;

    open spec fn view(&self) -> Section {
        Section {
            first: self.token_start as nat,
            last: self.token_end as nat,
            start: self.span.start as nat,
            end: self.span.end as nat,
            line: self.line as nat,
        }
    }
}

pub open spec fn tokens_of(tokens: Seq<SpannedToken>) -> Seq<Token> {
    tokens.map_values(|t: SpannedToken| t@)
}

pub open spec fn literals_of(texts: Seq<LexedText>) -> Seq<Literal> {
    texts.map_values(|t: LexedText| t@)
}

pub open spec fn groups_of(groups: Seq<DelimiterGroup>) -> Seq<Group> {
    groups.map_values(|g: DelimiterGroup| g@)
}

pub open spec fn sections_of(sections: Seq<DeclarationSection>) -> Seq<Section> {
    sections.map_values(|s: DeclarationSection| s@)
}

pub open spec fn numbers_of(numbers: Seq<usize>) -> Seq<nat> {
    numbers.map_values(|n: usize| n as nat)
}

impl View for LexedSource {
    type V = Lexed;

    open spec fn view(&self) -> Lexed {
        Lexed {
            chars: self.chars@,
            tokens: tokens_of(self.tokens@),
            texts: literals_of(self.texts@),
            groups: groups_of(self.groups@),
            declarations: sections_of(self.declarations@),
            line_starts: numbers_of(self.line_starts@),
            validation: diagnostic::reports(self.validation_diagnostics@),
            structural: diagnostic::reports(self.structural_diagnostics@),
            invalid_whitespace: self.has_invalid_whitespace,
            embedded: self.embedded@,
        }
    }
}

pub open spec fn opens(c: char) -> Option<Delimiter> {
    match c {
        '(' => Some(Delimiter::Parenthesis),
        '[' => Some(Delimiter::Bracket),
        '{' => Some(Delimiter::Brace),
        _ => None,
    }
}

pub open spec fn closes(c: char) -> Option<Delimiter> {
    match c {
        ')' => Some(Delimiter::Parenthesis),
        ']' => Some(Delimiter::Bracket),
        '}' => Some(Delimiter::Brace),
        _ => None,
    }
}

/// The scalar that closes a delimiter.
pub open spec fn closer(delimiter: Delimiter) -> char {
    match delimiter {
        Delimiter::Parenthesis => ')',
        Delimiter::Bracket => ']',
        Delimiter::Brace => '}',
    }
}

impl Delimiter {
    pub fn from_open(c: char) -> (delimiter: Option<Self>)
        ensures
            delimiter == opens(c),
    {
        match c {
            '(' => Some(Delimiter::Parenthesis),
            '[' => Some(Delimiter::Bracket),
            '{' => Some(Delimiter::Brace),
            _ => None,
        }
    }

    pub fn from_close(c: char) -> (delimiter: Option<Self>)
        ensures
            delimiter == closes(c),
    {
        match c {
            ')' => Some(Delimiter::Parenthesis),
            ']' => Some(Delimiter::Bracket),
            '}' => Some(Delimiter::Brace),
            _ => None,
        }
    }

    pub fn close(self) -> (c: char)
        ensures
            c == closer(self),
    {
        match self {
            Delimiter::Parenthesis => ')',
            Delimiter::Bracket => ']',
            Delimiter::Brace => '}',
        }
    }
}

/// A scalar that may stand in a name.
pub open spec fn name_char(c: char) -> bool {
    text::ascii_letter(c) || text::ascii_digit(c) || c == '_'
}

/// A scalar that may stand in a number.
pub open spec fn number_char(c: char) -> bool {
    ||| text::ascii_digit(c)
    ||| c == '_'
    ||| c == '.'
    ||| c == 'x'
    ||| c == 'X'
    ||| 'a' <= c <= 'f'
    ||| 'A' <= c <= 'F'
}

/// A number begins with a digit, or with an underscore before a digit.
pub open spec fn number_start(s: Seq<char>, i: int) -> bool {
    text::ascii_digit(s[i]) || (s[i] == '_' && i + 1 < s.len() && text::ascii_digit(s[i + 1]))
}

/// A name begins with a letter, or with an underscore not before a digit.
pub open spec fn name_start(s: Seq<char>, i: int) -> bool {
    text::ascii_letter(s[i]) || (s[i] == '_' && !(i + 1 < s.len() && text::ascii_digit(s[i + 1])))
}

pub open spec fn symbol_char(c: char) -> bool {
    ||| c == '.'
    ||| c == ','
    ||| c == ';'
    ||| c == ':'
    ||| c == '\''
    ||| c == '\\'
    ||| c == '^'
    ||| c == '='
    ||| c == '<'
    ||| c == '>'
    ||| c == '!'
    ||| c == '|'
    ||| c == '+'
    ||| c == '-'
    ||| c == '*'
    ||| c == '/'
    ||| c == '@'
}

/// The symbols of three scalars: `::=`, `>>=`, `>=>` and `=>>`.
pub open spec fn long_symbol(a: char, b: char, c: char) -> bool {
    ||| a == ':' && b == ':' && c == '='
    ||| a == '>' && b == '>' && c == '='
    ||| a == '>' && b == '=' && c == '>'
    ||| a == '=' && b == '>' && c == '>'
}

/// The symbols of two scalars.
pub open spec fn double_symbol(a: char, b: char) -> bool {
    ||| a == ':' && b == '='
    ||| a == '<' && b == '-'
    ||| a == '-' && b == '>'
    ||| a == '!' && b == '>'
    ||| a == '<' && b == '!'
    ||| a == '>' && b == '='
    ||| a == '=' && b == '='
    ||| a == '=' && b == '>'
    ||| a == '<' && b == '>'
    ||| a == '=' && b == '<'
    ||| a == '>' && b == '>'
    ||| a == '<' && b == '<'
    ||| a == '|' && b == '>'
    ||| a == '<' && b == '|'
    ||| a == '+' && b == '+'
}

/// The length of the longest symbol at `i`.
pub open spec fn symbol_len(s: Seq<char>, i: int) -> int {
    if i + 2 < s.len() && long_symbol(s[i], s[i + 1], s[i + 2]) {
        3
    } else if i + 1 < s.len() && double_symbol(s[i], s[i + 1]) {
        2
    } else {
        1
    }
}

pub open spec fn line_end(c: char) -> bool {
    c == '\r' || c == '\n'
}

/// A kind of run of scalars.
pub enum Run {
    Name,
    Number,
    Line,
    Spaces,
}

pub open spec fn runs(run: Run, c: char) -> bool {
    match run {
        Run::Name => name_char(c),
        Run::Number => number_char(c),
        Run::Line => !line_end(c),
        Run::Spaces => c == ' ',
    }
}

/// The end of the run that starts at `i`.
pub open spec fn run_end(s: Seq<char>, i: int, run: Run) -> int
    decreases s.len() - i,
{
    if 0 <= i < s.len() && runs(run, s[i]) {
        run_end(s, i + 1, run)
    } else {
        i
    }
}

/// Three quotes stand at `i`.
pub open spec fn quotes(s: Seq<char>, i: int) -> bool {
    i + 2 < s.len() && s[i] == '"' && s[i + 1] == '"' && s[i + 2] == '"'
}

/// The line of a byte, given where the lines start.
pub open spec fn line_of(starts: Seq<nat>, byte: nat) -> nat
    decreases starts.len(),
{
    if starts.len() == 0 {
        0
    } else if starts.last() <= byte {
        starts.len()
    } else {
        line_of(starts.drop_last(), byte)
    }
}

/// A declaration that has begun.
pub struct Begun {
    pub first: nat,
    pub start: nat,
    pub line: nat,
}

/// The state of a scan.
pub struct Scan {
    pub index: int,
    pub byte: nat,
    pub line_start: nat,
    pub indentation: nat,
    pub at_line_start: bool,
    pub emitted: bool,
    pub leading: LeadingTrivia,
    pub lf: bool,
    pub crlf: bool,
    pub cr: bool,
    pub last_bad: Option<nat>,
    pub tokens: Seq<Token>,
    pub texts: Seq<Literal>,
    pub groups: Seq<Group>,
    pub stack: Seq<nat>,
    pub declarations: Seq<Section>,
    pub begun: Option<Begun>,
    pub line_starts: Seq<nat>,
    pub bad: Seq<DiagnosticView>,
    pub structural: Seq<DiagnosticView>,
}

/// The scan before the first scalar.
pub open spec fn beginning() -> Scan {
    Scan {
        index: 0,
        byte: 0,
        line_start: 0,
        indentation: 0,
        at_line_start: true,
        emitted: false,
        leading: LeadingTrivia::Joint,
        lf: false,
        crlf: false,
        cr: false,
        last_bad: None,
        tokens: Seq::empty(),
        texts: Seq::empty(),
        groups: Seq::empty(),
        stack: Seq::empty(),
        declarations: Seq::empty(),
        begun: None,
        line_starts: seq![0nat],
        bad: Seq::empty(),
        structural: Seq::empty(),
    }
}

/// The scan moved to scalar `j`.
pub open spec fn moved(s: Seq<char>, z: Scan, j: int) -> Scan {
    Scan { index: j, byte: text::utf8_size(s.take(j)), ..z }
}

/// The current line.
pub open spec fn line(z: Scan) -> nat {
    z.line_starts.len()
}

/// A line ending stands at the scan.
pub open spec fn newline_at(s: Seq<char>, i: int) -> bool {
    0 <= i < s.len() && line_end(s[i])
}

/// The scan after the line ending at which it stands. A line ending inside a
/// text literal has no part in layout.
pub open spec fn newline(s: Seq<char>, z: Scan, layout: bool) -> Scan {
    let i = z.index;
    let both = s[i] == '\r' && i + 1 < s.len() && s[i + 1] == '\n';
    let next = moved(
        s,
        z,
        if both {
            i + 2
        } else {
            i + 1
        },
    );
    let ended = Scan {
        lf: z.lf || s[i] == '\n',
        crlf: z.crlf || both,
        cr: z.cr || (s[i] == '\r' && !both),
        line_start: next.byte,
        line_starts: z.line_starts.push(next.byte),
        ..next
    };
    if layout {
        Scan {
            indentation: 0,
            at_line_start: true,
            emitted: false,
            leading: LeadingTrivia::LineBreak,
            ..ended
        }
    } else {
        ended
    }
}

/// White space other than SP, CR and LF.
pub open spec fn unsupported(c: char) -> bool {
    text::white_space(c) && c != ' ' && !line_end(c)
}

pub open spec fn whitespace_message(c: char) -> Seq<char> {
    "unsupported whitespace U+"@ + text::hexadecimal(c as nat, 4)
        + "; .g source permits only SP, CR, and LF"@
}

/// The scan after meeting unsupported white space, which is reported once a
/// line.
pub open spec fn noted(z: Scan, c: char) -> Scan {
    if z.last_bad == Some(line(z)) {
        z
    } else {
        Scan {
            last_bad: Some(line(z)),
            bad: z.bad.push(diagnostic::error_at(line(z), whitespace_message(c))),
            ..z
        }
    }
}

/// The scan after checking the scalars `lo..hi` for white space.
pub open spec fn noted_range(s: Seq<char>, z: Scan, lo: int, hi: int) -> Scan
    decreases hi - lo,
{
    if lo >= hi {
        z
    } else {
        let before = noted_range(s, z, lo, hi - 1);
        if unsupported(s[hi - 1]) {
            noted(before, s[hi - 1])
        } else {
            before
        }
    }
}

/// The scan after the declaration that has begun is finished, if one has.
pub open spec fn concluded(z: Scan) -> Scan {
    match z.begun {
        Some(begun) => Scan {
            begun: None,
            declarations: z.declarations.push(
                Section {
                    first: begun.first,
                    last: z.tokens.len(),
                    start: begun.start,
                    end: z.tokens.last().end,
                    line: begun.line,
                },
            ),
            ..z
        },
        None => z,
    }
}

/// The scan after the first token of a line is announced. An unindented line
/// outside every group begins a declaration.
pub open spec fn announced(z: Scan) -> Scan {
    if z.emitted {
        z
    } else {
        let opened = if z.stack.len() == 0 && z.indentation == 0 {
            Scan {
                begun: Some(Begun { first: z.tokens.len(), start: z.line_start, line: line(z) }),
                ..concluded(z)
            }
        } else {
            z
        };
        Scan {
            tokens: z.tokens.push(
                Token {
                    lexeme: Lexeme::LineStart(z.indentation),
                    start: z.byte,
                    end: z.byte,
                    leading: z.leading,
                },
            ),
            leading: if z.indentation == 0 {
                LeadingTrivia::Joint
            } else {
                LeadingTrivia::Space
            },
            at_line_start: false,
            emitted: true,
            ..opened
        }
    }
}

/// The scan after a token that started at `start` and ends where the scan
/// stands.
pub open spec fn emitted(z: Scan, lexeme: Lexeme, start: nat) -> Scan {
    Scan {
        tokens: z.tokens.push(Token { lexeme, start, end: z.byte, leading: z.leading }),
        leading: LeadingTrivia::Joint,
        ..z
    }
}

/// The scan after a token that spells the scalars up to `j`.
pub open spec fn spelled(s: Seq<char>, z: Scan, lexeme: Lexeme, j: int) -> Scan {
    emitted(moved(s, z, j), lexeme, z.byte)
}

pub open spec fn text_emitted(z: Scan, value: Seq<char>, start: nat, multiline: bool) -> Scan {
    let after = emitted(z, Lexeme::Text(z.texts.len()), start);
    Scan {
        texts: z.texts.push(Literal { value, start, end: z.byte, multiline }),
        at_line_start: false,
        emitted: true,
        ..after
    }
}

pub open spec fn faulted(z: Scan, line: nat, message: Seq<char>) -> Scan {
    Scan { structural: z.structural.push(diagnostic::error_at(line, message)), ..z }
}

/// The rest of an inline text: the scan after it, its value, and whether a
/// quote closes it.
pub open spec fn inline_rest(s: Seq<char>, z: Scan, value: Seq<char>) -> (Scan, Seq<char>, bool)
    decreases s.len() - z.index,
{
    let i = z.index;
    if !(0 <= i < s.len()) {
        (z, value, false)
    } else if line_end(s[i]) {
        inline_rest(s, newline(s, z, false), value.push('\n'))
    } else if s[i] == '"' {
        (moved(s, z, i + 1), value, true)
    } else {
        let checked = if unsupported(s[i]) {
            noted(z, s[i])
        } else {
            z
        };
        inline_rest(s, moved(s, checked, i + 1), value.push(s[i]))
    }
}

/// The scan after an inline text. A line ending in it stands for LF.
pub open spec fn inline_text(s: Seq<char>, z: Scan) -> Scan {
    let (after, value, closed) = inline_rest(s, moved(s, z, z.index + 1), Seq::empty());
    let told = if closed {
        after
    } else {
        faulted(after, line_of(after.line_starts, z.byte), "unterminated text literal"@)
    };
    text_emitted(told, value, z.byte, false)
}

/// What a line of a multiline text contributes: what follows its quote, less
/// one space.
pub open spec fn content(s: Seq<char>, quote: int, end: int) -> Seq<char> {
    if quote + 1 < end && s[quote + 1] == ' ' {
        s.subrange(quote + 2, end)
    } else {
        s.subrange(quote + 1, end)
    }
}

/// The rest of a multiline text, line by line. Lines that do not begin with a
/// quote are source only.
pub open spec fn multiline_rest(
    s: Seq<char>,
    z: Scan,
    lines: Seq<Seq<char>>,
) -> (Scan, Seq<Seq<char>>, bool)
    decreases s.len() - z.index,
    when 0 <= z.index
    via multiline_decreases
{
    if z.index >= s.len() {
        (z, lines, false)
    } else {
        let end = run_end(s, z.index, Run::Line);
        let checked = noted_range(s, z, z.index, end);
        let first = run_end(s, z.index, Run::Spaces);
        if first + 2 < end && quotes(s, first) {
            (moved(s, checked, first + 3), lines, true)
        } else {
            let more = if first < end && s[first] == '"' {
                lines.push(content(s, first, end))
            } else {
                lines
            };
            let after = moved(s, checked, end);
            if newline_at(s, end) {
                multiline_rest(s, newline(s, after, false), more)
            } else {
                (after, more, false)
            }
        }
    }
}

#[via_fn]
proof fn multiline_decreases(s: Seq<char>, z: Scan, lines: Seq<Seq<char>>) {
    if z.index < s.len() {
        run_end_bounds(s, z.index, Run::Line);
    }
}

/// A run is a range of scalars that all belong to it, and stops at one that
/// does not.
pub proof fn run_end_bounds(s: Seq<char>, i: int, run: Run)
    requires
        0 <= i <= s.len(),
    ensures
        i <= run_end(s, i, run) <= s.len(),
        forall|k: int| i <= k < run_end(s, i, run) ==> runs(run, #[trigger] s[k]),
        run_end(s, i, run) < s.len() ==> !runs(run, s[run_end(s, i, run)]),
    decreases s.len() - i,
{
    if i < s.len() && runs(run, s[i]) {
        run_end_bounds(s, i + 1, run);
    }
}

/// Lines joined by LF.
pub open spec fn joined(lines: Seq<Seq<char>>) -> Seq<char>
    decreases lines.len(),
{
    if lines.len() == 0 {
        Seq::empty()
    } else if lines.len() == 1 {
        lines[0]
    } else {
        joined(lines.drop_last()).push('\n') + lines.last()
    }
}

/// The scan after what follows the opening quotes of a multiline text.
pub open spec fn opened_multiline(s: Seq<char>, z: Scan) -> Scan {
    let after = moved(s, z, run_end(s, z.index, Run::Spaces));
    if after.index >= s.len() {
        after
    } else if newline_at(s, after.index) {
        newline(s, after, false)
    } else {
        faulted(
            after,
            line(after),
            "multiline text opening delimiter must end its source line"@,
        )
    }
}

pub open spec fn multiline_text(s: Seq<char>, z: Scan) -> Scan {
    let (after, lines, closed) = multiline_rest(
        s,
        opened_multiline(s, moved(s, z, z.index + 3)),
        Seq::empty(),
    );
    let told = if closed {
        after
    } else {
        faulted(after, line_of(after.line_starts, z.byte), "unterminated multiline text literal"@)
    };
    text_emitted(told, joined(lines), z.byte, true)
}

/// The scan after an opening delimiter.
pub open spec fn opened(s: Seq<char>, z: Scan, delimiter: Delimiter) -> Scan {
    let id = z.groups.len();
    let after = spelled(s, z, Lexeme::Open(id, delimiter), z.index + 1);
    Scan {
        groups: z.groups.push(
            Group {
                delimiter,
                open: z.tokens.len(),
                close: None,
                parent: if z.stack.len() == 0 {
                    None
                } else {
                    Some(z.stack.last())
                },
            },
        ),
        stack: z.stack.push(id),
        ..after
    }
}

pub open spec fn unmatched_message(c: char) -> Seq<char> {
    "unmatched closing delimiter `"@ + seq![c] + "`"@
}

pub open spec fn mismatched_message(c: char, expected: Delimiter) -> Seq<char> {
    "mismatched closing delimiter `"@ + seq![c] + "`; expected `"@ + seq![closer(expected)]
        + "`"@
}

pub open spec fn unclosed_message(expected: Delimiter) -> Seq<char> {
    "unclosed delimiter; expected `"@ + seq![closer(expected)] + "`"@
}

/// The scan after a closing delimiter. One that does not close the innermost
/// group is reported and stays a symbol.
pub open spec fn closed(s: Seq<char>, z: Scan, delimiter: Delimiter) -> Scan {
    let c = s[z.index];
    let symbol = Lexeme::Symbol(seq![c]);
    if z.stack.len() == 0 {
        spelled(s, faulted(z, line(z), unmatched_message(c)), symbol, z.index + 1)
    } else {
        let id = z.stack.last();
        let group = z.groups[id as int];
        if group.delimiter != delimiter {
            spelled(
                s,
                faulted(z, line(z), mismatched_message(c, group.delimiter)),
                symbol,
                z.index + 1,
            )
        } else {
            let after = spelled(s, z, Lexeme::Close(id, delimiter), z.index + 1);
            Scan {
                groups: z.groups.update(
                    id as int,
                    Group { close: Some(z.tokens.len()), ..group },
                ),
                stack: z.stack.drop_last(),
                ..after
            }
        }
    }
}

/// The scan after one token, blank, comment or line ending.
pub open spec fn stepped(s: Seq<char>, z: Scan) -> Scan {
    let i = z.index;
    let c = s[i];
    if line_end(c) {
        newline(s, z, true)
    } else if c == ' ' {
        let after = moved(s, z, i + 1);
        if z.at_line_start {
            Scan { indentation: z.indentation + 1, ..after }
        } else {
            Scan { leading: LeadingTrivia::Space, ..after }
        }
    } else if text::white_space(c) {
        Scan { leading: LeadingTrivia::Space, ..moved(s, noted(z, c), i + 1) }
    } else if c == '#' {
        let end = run_end(s, i, Run::Line);
        moved(s, noted_range(s, z, i, end), end)
    } else {
        token(s, announced(z))
    }
}

/// The scan after the token that begins where it stands.
pub open spec fn token(s: Seq<char>, z: Scan) -> Scan {
    let i = z.index;
    let c = s[i];
    if quotes(s, i) {
        multiline_text(s, z)
    } else if c == '"' {
        inline_text(s, z)
    } else if let Some(delimiter) = opens(c) {
        opened(s, z, delimiter)
    } else if let Some(delimiter) = closes(c) {
        closed(s, z, delimiter)
    } else if number_start(s, i) {
        let end = run_end(s, i, Run::Number);
        spelled(s, z, Lexeme::Number(s.subrange(i, end)), end)
    } else if name_start(s, i) {
        let end = run_end(s, i, Run::Name);
        spelled(s, z, Lexeme::Name(s.subrange(i, end)), end)
    } else if symbol_char(c) {
        let end = i + symbol_len(s, i);
        spelled(s, z, Lexeme::Symbol(s.subrange(i, end)), end)
    } else {
        spelled(s, z, Lexeme::Unknown(c), i + 1)
    }
}

/// The scan at the end of the source.
pub open spec fn scanned(s: Seq<char>, z: Scan) -> Scan
    decreases s.len() - z.index,
{
    if !(0 <= z.index < s.len()) {
        z
    } else {
        let next = stepped(s, z);
        if next.index <= z.index || next.index > s.len() {
            next
        } else {
            scanned(s, next)
        }
    }
}

/// The groups that are still open, the innermost first.
pub open spec fn unclosed(z: Scan, stack: Seq<nat>) -> Seq<DiagnosticView>
    decreases stack.len(),
{
    if stack.len() == 0 {
        Seq::empty()
    } else {
        let group = z.groups[stack.last() as int];
        seq![
            diagnostic::error_at(
                line_of(z.line_starts, z.tokens[group.open as int].start),
                unclosed_message(group.delimiter),
            ),
        ] + unclosed(z, stack.drop_last())
    }
}

/// The number of kinds of line ending that a source uses.
pub open spec fn newline_kinds(z: Scan) -> int {
    (if z.lf {
        1int
    } else {
        0
    }) + (if z.crlf {
        1int
    } else {
        0
    }) + (if z.cr {
        1int
    } else {
        0
    })
}

/// The lexical structure of a source.
pub open spec fn lexed(s: Seq<char>) -> Lexed {
    let z = concluded(scanned(s, beginning()));
    Lexed {
        chars: s,
        tokens: z.tokens,
        texts: z.texts,
        groups: z.groups,
        declarations: z.declarations,
        line_starts: z.line_starts,
        validation: (if newline_kinds(z) > 1 {
            seq![diagnostic::warning_at(1, "source uses inconsistent line endings"@)]
        } else {
            Seq::empty()
        }) + z.bad,
        structural: z.structural + unclosed(z, z.stack),
        invalid_whitespace: z.bad.len() > 0,
        embedded: Seq::empty(),
    }
}

/// The lines and the place of a scan agree with the source.
pub open spec fn placed(s: Seq<char>, z: Scan) -> bool {
    &&& 0 <= z.index <= s.len()
    &&& z.byte == text::utf8_size(s.take(z.index))
    &&& z.line_start <= z.byte
    &&& z.indentation <= z.index
    &&& lines_ascend(z.line_starts)
    &&& z.line_starts.last() <= z.byte
}

/// Lines start at the first byte, and each later than the one before.
pub open spec fn lines_ascend(starts: Seq<nat>) -> bool {
    &&& starts.len() > 0
    &&& starts[0] == 0
    &&& forall|i: int, j: int| 0 <= i < j < starts.len() ==> starts[i] < starts[j]
}

/// Every token, text and declaration lies within the first `byte` bytes.
pub open spec fn spans_hold(
    tokens: Seq<Token>,
    texts: Seq<Literal>,
    declarations: Seq<Section>,
    byte: nat,
) -> bool {
    &&& forall|i: int|
        0 <= i < tokens.len() ==> (#[trigger] tokens[i]).start <= tokens[i].end && tokens[i].end
            <= byte
    &&& forall|i: int|
        0 <= i < texts.len() ==> (#[trigger] texts[i]).start <= texts[i].end && texts[i].end
            <= byte
    &&& forall|i: int|
        0 <= i < declarations.len() ==> {
            &&& (#[trigger] declarations[i]).first < declarations[i].last
            &&& declarations[i].last <= tokens.len()
            &&& declarations[i].start <= declarations[i].end
            &&& declarations[i].end <= byte
            &&& declarations[i].line > 0
        }
}

/// Groups and the tokens of delimiters refer to each other, a closed group
/// contains only closed groups, and texts exist.
pub open spec fn groups_pair(tokens: Seq<Token>, groups: Seq<Group>, texts: int) -> bool {
    &&& forall|g: int| 0 <= g < groups.len() ==> group_pairs(tokens, #[trigger] groups[g], g)
    &&& forall|i: int| 0 <= i < tokens.len() ==> token_pairs(#[trigger] tokens[i], groups, i, texts)
    &&& forall|g: int, h: int|
        0 <= g < h < groups.len() ==> (#[trigger] groups[g]).open < (#[trigger] groups[h]).open
    &&& forall|g: int, h: int|
        0 <= g < groups.len() && 0 <= h < groups.len() ==> nests(
            #[trigger] groups[g],
            #[trigger] groups[h],
        )
}

/// A group's tokens are its own delimiters, in order.
pub open spec fn group_pairs(tokens: Seq<Token>, group: Group, g: int) -> bool {
    &&& group.open < tokens.len()
    &&& tokens[group.open as int].lexeme == Lexeme::Open(g as nat, group.delimiter)
    &&& group.close matches Some(close) ==> {
        &&& group.open < close < tokens.len()
        &&& tokens[close as int].lexeme == Lexeme::Close(g as nat, group.delimiter)
    }
    &&& group.parent matches Some(parent) ==> parent < g
}

/// A delimiter token is one end of its group.
pub open spec fn token_pairs(token: Token, groups: Seq<Group>, i: int, texts: int) -> bool {
    match token.lexeme {
        Lexeme::Open(g, delimiter) => {
            &&& g < groups.len()
            &&& groups[g as int].open == i
            &&& groups[g as int].delimiter == delimiter
        },
        Lexeme::Close(g, delimiter) => {
            &&& g < groups.len()
            &&& groups[g as int].close == Some(i as nat)
            &&& groups[g as int].delimiter == delimiter
        },
        Lexeme::Text(id) => id < texts,
        _ => true,
    }
}

/// A group opened inside a closed group is closed inside it.
pub open spec fn nests(outer: Group, inner: Group) -> bool {
    outer.close matches Some(end) ==> outer.open < inner.open < end ==> {
        inner.close matches Some(close) && close < end
    }
}

/// The stack holds the groups that are not closed, the innermost last.
pub open spec fn stacked(z: Scan) -> bool {
    &&& forall|i: int, j: int| 0 <= i < j < z.stack.len() ==> z.stack[i] < z.stack[j]
    &&& forall|i: int|
        0 <= i < z.stack.len() ==> (#[trigger] z.stack[i]) < z.groups.len()
            && z.groups[z.stack[i] as int].close is None
    &&& forall|g: int|
        0 <= g < z.groups.len() && (#[trigger] z.groups[g]).close is None ==> z.stack.contains(
            g as nat,
        )
}

/// A declaration that has begun has a token, after its start.
pub open spec fn begun_holds(z: Scan) -> bool {
    match z.begun {
        Some(begun) => {
            &&& begun.first < z.tokens.len()
            &&& begun.start <= z.tokens.last().end
            &&& begun.line > 0
        },
        None => true,
    }
}

pub open spec fn lines_positive(diagnostics: Seq<DiagnosticView>) -> bool {
    forall|i: int| 0 <= i < diagnostics.len() ==> (#[trigger] diagnostics[i]).line > 0
}

/// What every scan keeps.
#[verifier::opaque]
pub open spec fn sane(s: Seq<char>, z: Scan) -> bool {
    &&& placed(s, z)
    &&& spans_hold(z.tokens, z.texts, z.declarations, z.byte)
    &&& groups_pair(z.tokens, z.groups, z.texts.len() as int)
    &&& stacked(z)
    &&& begun_holds(z)
    &&& lines_positive(z.structural)
}

/// Where a scan that is sane stands.
proof fn sane_place(s: Seq<char>, z: Scan)
    requires
        sane(s, z),
    ensures
        placed(s, z),
{
    reveal(sane);
}

/// The groups on the stack of a scan that is sane exist.
proof fn sane_stack(s: Seq<char>, z: Scan, i: int)
    requires
        sane(s, z),
        0 <= i < z.stack.len(),
    ensures
        z.stack[i] < z.groups.len(),
        group_pairs(z.tokens, z.groups[z.stack[i] as int], z.stack[i] as int),
{
    reveal(sane);
}

proof fn moved_sane(s: Seq<char>, z: Scan, j: int)
    requires
        sane(s, z),
        z.index <= j <= s.len(),
    ensures
        sane(s, moved(s, z, j)),
        z.byte <= moved(s, z, j).byte,
{
    reveal(sane);
    text::utf8_size_grows(s, z.index, j);
}

proof fn newline_sane(s: Seq<char>, z: Scan, layout: bool)
    requires
        sane(s, z),
        newline_at(s, z.index),
    ensures
        sane(s, newline(s, z, layout)),
        z.index < newline(s, z, layout).index,
        newline(s, z, layout).byte >= z.byte,
{
    reveal(sane);
    let i = z.index;
    let both = s[i] == '\r' && i + 1 < s.len() && s[i + 1] == '\n';
    let j = if both {
        i + 2
    } else {
        i + 1
    };
    moved_sane(s, z, j);
    text::utf8_size_grows(s, i, j);
    let after = newline(s, z, layout);
    assert forall|a: int, b: int| 0 <= a < b < after.line_starts.len() implies after.line_starts[a]
        < after.line_starts[b] by {
        if b == z.line_starts.len() {
            assert(z.line_starts[a] <= z.line_starts.last());
        }
    }
}

proof fn noted_range_sane(s: Seq<char>, z: Scan, lo: int, hi: int)
    requires
        sane(s, z),
    ensures
        sane(s, noted_range(s, z, lo, hi)),
        noted_range(s, z, lo, hi).index == z.index,
        noted_range(s, z, lo, hi).byte == z.byte,
        noted_range(s, z, lo, hi).line_starts == z.line_starts,
    decreases hi - lo,
{
    reveal(sane);
    if lo < hi {
        noted_range_sane(s, z, lo, hi - 1);
    }
}

/// A lexeme that refers to no group and no text.
pub open spec fn plain(lexeme: Lexeme) -> bool {
    !(lexeme is Open || lexeme is Close || lexeme is Text)
}

proof fn emitted_sane(s: Seq<char>, z: Scan, lexeme: Lexeme, start: nat)
    requires
        sane(s, z),
        plain(lexeme),
        start <= z.byte,
    ensures
        sane(s, emitted(z, lexeme, start)),
{
    reveal(sane);
    let after = emitted(z, lexeme, start);
    pushed_pairs(z, after);
}

/// Groups still pair after a token is added.
proof fn pushed_pairs(z: Scan, after: Scan)
    requires
        groups_pair(z.tokens, z.groups, z.texts.len() as int),
        after.groups == z.groups,
        after.tokens.len() == z.tokens.len() + 1,
        after.texts.len() >= z.texts.len(),
        forall|i: int| 0 <= i < z.tokens.len() ==> #[trigger] after.tokens[i] == z.tokens[i],
        token_pairs(
            after.tokens[z.tokens.len() as int],
            z.groups,
            z.tokens.len() as int,
            after.texts.len() as int,
        ),
    ensures
        groups_pair(after.tokens, after.groups, after.texts.len() as int),
{
    assert forall|g: int| 0 <= g < after.groups.len() implies group_pairs(
        after.tokens,
        #[trigger] after.groups[g],
        g,
    ) by {
        assert(group_pairs(z.tokens, z.groups[g], g));
        assert(after.tokens[z.groups[g].open as int] == z.tokens[z.groups[g].open as int]);
        if let Some(close) = z.groups[g].close {
            assert(after.tokens[close as int] == z.tokens[close as int]);
        }
    }
    assert forall|i: int| 0 <= i < after.tokens.len() implies token_pairs(
        #[trigger] after.tokens[i],
        after.groups,
        i,
        after.texts.len() as int,
    ) by {
        if i < z.tokens.len() {
            assert(token_pairs(z.tokens[i], z.groups, i, z.texts.len() as int));
        }
    }
    assert forall|g: int, h: int|
        0 <= g < after.groups.len() && 0 <= h < after.groups.len() implies nests(
        #[trigger] after.groups[g],
        #[trigger] after.groups[h],
    ) by {
        assert(nests(z.groups[g], z.groups[h]));
    }
}

proof fn concluded_sane(s: Seq<char>, z: Scan)
    requires
        sane(s, z),
    ensures
        sane(s, concluded(z)),
{
    reveal(sane);
    let after = concluded(z);
    if let Some(begun) = z.begun {
        assert(z.tokens[z.tokens.len() - 1].end <= z.byte);
        assert forall|i: int| 0 <= i < after.declarations.len() implies {
            &&& (#[trigger] after.declarations[i]).first < after.declarations[i].last
            &&& after.declarations[i].last <= after.tokens.len()
            &&& after.declarations[i].start <= after.declarations[i].end
            &&& after.declarations[i].end <= after.byte
            &&& after.declarations[i].line > 0
        } by {
            if i < z.declarations.len() {
                assert(after.declarations[i] == z.declarations[i]);
            }
        }
    }
}

proof fn announced_sane(s: Seq<char>, z: Scan)
    requires
        sane(s, z),
    ensures
        sane(s, announced(z)),
        announced(z).index == z.index,
        announced(z).byte == z.byte,
{
    reveal(sane);
    if !z.emitted {
        concluded_sane(s, z);
        let after = announced(z);
        let base = if z.stack.len() == 0 && z.indentation == 0 {
            concluded(z)
        } else {
            z
        };
        pushed_pairs(base, after);
        assert forall|i: int| 0 <= i < after.declarations.len() implies {
            &&& (#[trigger] after.declarations[i]).first < after.declarations[i].last
            &&& after.declarations[i].last <= after.tokens.len()
        } by {
            assert(base.declarations[i] == after.declarations[i]);
        }
    }
}

proof fn spelled_sane(s: Seq<char>, z: Scan, lexeme: Lexeme, j: int)
    requires
        sane(s, z),
        plain(lexeme),
        z.index <= j <= s.len(),
    ensures
        sane(s, spelled(s, z, lexeme, j)),
{
    reveal(sane);
    moved_sane(s, z, j);
    emitted_sane(s, moved(s, z, j), lexeme, z.byte);
}

proof fn text_emitted_sane(s: Seq<char>, z: Scan, value: Seq<char>, start: nat, multiline: bool)
    requires
        sane(s, z),
        start <= z.byte,
    ensures
        sane(s, text_emitted(z, value, start, multiline)),
{
    reveal(sane);
    pushed_pairs(z, text_emitted(z, value, start, multiline));
}

proof fn line_of_positive(starts: Seq<nat>, byte: nat)
    requires
        starts.len() > 0,
        starts[0] == 0,
    ensures
        0 < line_of(starts, byte) <= starts.len(),
    decreases starts.len(),
{
    if starts.last() > byte {
        line_of_positive(starts.drop_last(), byte);
    }
}

proof fn inline_rest_sane(s: Seq<char>, z: Scan, value: Seq<char>)
    requires
        sane(s, z),
    ensures
        sane(s, inline_rest(s, z, value).0),
        inline_rest(s, z, value).0.index >= z.index,
        inline_rest(s, z, value).0.byte >= z.byte,
    decreases s.len() - z.index,
{
    reveal(sane);
    let i = z.index;
    if !(0 <= i < s.len()) {
    } else if line_end(s[i]) {
        newline_sane(s, z, false);
        inline_rest_sane(s, newline(s, z, false), value.push('\n'));
    } else if s[i] == '"' {
        moved_sane(s, z, i + 1);
    } else {
        let checked = if unsupported(s[i]) {
            noted(z, s[i])
        } else {
            z
        };
        moved_sane(s, checked, i + 1);
        inline_rest_sane(s, moved(s, checked, i + 1), value.push(s[i]));
    }
}

proof fn inline_text_sane(s: Seq<char>, z: Scan)
    requires
        sane(s, z),
        z.index < s.len(),
    ensures
        sane(s, inline_text(s, z)),
        inline_text(s, z).index > z.index,
{
    reveal(sane);
    let begin = moved(s, z, z.index + 1);
    moved_sane(s, z, z.index + 1);
    inline_rest_sane(s, begin, Seq::empty());
    let (after, value, closed) = inline_rest(s, begin, Seq::empty());
    line_of_positive(after.line_starts, z.byte);
    let told = if closed {
        after
    } else {
        faulted(after, line_of(after.line_starts, z.byte), "unterminated text literal"@)
    };
    text_emitted_sane(s, told, value, z.byte, false);
}

proof fn multiline_rest_sane(s: Seq<char>, z: Scan, lines: Seq<Seq<char>>)
    requires
        sane(s, z),
    ensures
        sane(s, multiline_rest(s, z, lines).0),
        multiline_rest(s, z, lines).0.index >= z.index,
        multiline_rest(s, z, lines).0.byte >= z.byte,
    decreases s.len() - z.index,
{
    reveal(sane);
    if z.index < s.len() {
        run_end_bounds(s, z.index, Run::Line);
        run_end_bounds(s, z.index, Run::Spaces);
        let end = run_end(s, z.index, Run::Line);
        let checked = noted_range(s, z, z.index, end);
        noted_range_sane(s, z, z.index, end);
        let first = run_end(s, z.index, Run::Spaces);
        if first + 2 < end && quotes(s, first) {
            moved_sane(s, checked, first + 3);
        } else {
            let more = if first < end && s[first] == '"' {
                lines.push(content(s, first, end))
            } else {
                lines
            };
            let after = moved(s, checked, end);
            moved_sane(s, checked, end);
            if newline_at(s, end) {
                newline_sane(s, after, false);
                multiline_rest_sane(s, newline(s, after, false), more);
            }
        }
    }
}

proof fn opened_multiline_sane(s: Seq<char>, z: Scan)
    requires
        sane(s, z),
    ensures
        sane(s, opened_multiline(s, z)),
        opened_multiline(s, z).index >= z.index,
        opened_multiline(s, z).byte >= z.byte,
{
    reveal(sane);
    run_end_bounds(s, z.index, Run::Spaces);
    let after = moved(s, z, run_end(s, z.index, Run::Spaces));
    moved_sane(s, z, run_end(s, z.index, Run::Spaces));
    if after.index < s.len() && newline_at(s, after.index) {
        newline_sane(s, after, false);
    }
}

proof fn multiline_text_sane(s: Seq<char>, z: Scan)
    requires
        sane(s, z),
        z.index + 3 <= s.len(),
    ensures
        sane(s, multiline_text(s, z)),
        multiline_text(s, z).index > z.index,
{
    reveal(sane);
    moved_sane(s, z, z.index + 3);
    let begin = opened_multiline(s, moved(s, z, z.index + 3));
    opened_multiline_sane(s, moved(s, z, z.index + 3));
    multiline_rest_sane(s, begin, Seq::empty());
    let (after, lines, closed) = multiline_rest(s, begin, Seq::empty());
    line_of_positive(after.line_starts, z.byte);
    let told = if closed {
        after
    } else {
        faulted(after, line_of(after.line_starts, z.byte), "unterminated multiline text literal"@)
    };
    text_emitted_sane(s, told, joined(lines), z.byte, true);
}

proof fn opened_sane(s: Seq<char>, z: Scan, delimiter: Delimiter)
    requires
        sane(s, z),
        z.index < s.len(),
    ensures
        sane(s, opened(s, z, delimiter)),
{
    reveal(sane);
    moved_sane(s, z, z.index + 1);
    let after = opened(s, z, delimiter);
    let id = z.groups.len();
    assert forall|g: int| 0 <= g < after.groups.len() implies group_pairs(
        after.tokens,
        #[trigger] after.groups[g],
        g,
    ) by {
        if g < id {
            assert(group_pairs(z.tokens, z.groups[g], g));
            assert(after.groups[g] == z.groups[g]);
        } else if z.stack.len() > 0 {
            assert(z.stack[z.stack.len() - 1] < z.groups.len());
        }
    }
    assert forall|i: int| 0 <= i < after.tokens.len() implies token_pairs(
        #[trigger] after.tokens[i],
        after.groups,
        i,
        after.texts.len() as int,
    ) by {
        if i < z.tokens.len() {
            assert(token_pairs(z.tokens[i], z.groups, i, z.texts.len() as int));
        }
    }
    assert forall|g: int, h: int| 0 <= g < h < after.groups.len() implies (
    #[trigger] after.groups[g]).open < (#[trigger] after.groups[h]).open by {
        assert(group_pairs(z.tokens, z.groups[g], g));
        if h < id {
            assert(z.groups[g].open < z.groups[h].open);
        }
    }
    assert forall|g: int, h: int|
        0 <= g < after.groups.len() && 0 <= h < after.groups.len() implies nests(
        #[trigger] after.groups[g],
        #[trigger] after.groups[h],
    ) by {
        if g < id {
            assert(group_pairs(z.tokens, z.groups[g], g));
            if h < id {
                assert(nests(z.groups[g], z.groups[h]));
            }
        }
    }
    assert forall|i: int| 0 <= i < after.stack.len() implies (#[trigger] after.stack[i])
        < after.groups.len() && after.groups[after.stack[i] as int].close is None by {
        if i < z.stack.len() {
            assert(z.stack[i] < z.groups.len());
        }
    }
    assert forall|g: int|
        0 <= g < after.groups.len() && (
        #[trigger] after.groups[g]).close is None implies after.stack.contains(g as nat) by {
        if g < id {
            assert(z.groups[g].close is None);
            let i = choose|i: int| 0 <= i < z.stack.len() && z.stack[i] == g as nat;
            assert(after.stack[i] == g as nat);
        } else {
            assert(after.stack[z.stack.len() as int] == g as nat);
        }
    }
}

#[verifier::rlimit(60)]
#[verifier::spinoff_prover]
proof fn closed_sane(s: Seq<char>, z: Scan, delimiter: Delimiter)
    requires
        sane(s, z),
        z.index < s.len(),
    ensures
        sane(s, closed(s, z, delimiter)),
{
    reveal(sane);
    let c = s[z.index];
    if z.stack.len() == 0 {
        spelled_sane(
            s,
            faulted(z, line(z), unmatched_message(c)),
            Lexeme::Symbol(seq![c]),
            z.index + 1,
        );
    } else {
        let id = z.stack.last();
        assert(z.stack[z.stack.len() - 1] == id);
        let group = z.groups[id as int];
        if group.delimiter != delimiter {
            spelled_sane(
                s,
                faulted(z, line(z), mismatched_message(c, group.delimiter)),
                Lexeme::Symbol(seq![c]),
                z.index + 1,
            );
        } else {
            moved_sane(s, z, z.index + 1);
            let after = closed(s, z, delimiter);
            let n = z.tokens.len();
            assert(group_pairs(z.tokens, group, id as int));
            assert forall|g: int| 0 <= g < after.groups.len() implies group_pairs(
                after.tokens,
                #[trigger] after.groups[g],
                g,
            ) by {
                assert(group_pairs(z.tokens, z.groups[g], g));
            }
            assert forall|i: int| 0 <= i < after.tokens.len() implies token_pairs(
                #[trigger] after.tokens[i],
                after.groups,
                i,
                after.texts.len() as int,
            ) by {
                if i < z.tokens.len() {
                    assert(token_pairs(z.tokens[i], z.groups, i, z.texts.len() as int));
                }
            }
            assert forall|g: int, h: int| 0 <= g < h < after.groups.len() implies (
            #[trigger] after.groups[g]).open < (#[trigger] after.groups[h]).open by {
                assert(z.groups[g].open < z.groups[h].open);
            }
            assert forall|g: int, h: int|
                0 <= g < after.groups.len() && 0 <= h < after.groups.len() implies nests(
                #[trigger] after.groups[g],
                #[trigger] after.groups[h],
            ) by {
                assert(group_pairs(z.tokens, z.groups[g], g));
                assert(group_pairs(z.tokens, z.groups[h], h));
                assert(nests(z.groups[g], z.groups[h]));
                if g == id {
                    if h > id {
                        if z.groups[h].close is None {
                            let i = choose|i: int| 0 <= i < z.stack.len() && z.stack[i] == h as nat;
                            assert(z.stack[i] <= z.stack.last());
                        }
                    } else if h < id {
                        assert(z.groups[h].open < z.groups[id as int].open);
                    }
                }
            }
            assert forall|i: int| 0 <= i < after.stack.len() implies (#[trigger] after.stack[i])
                < after.groups.len() && after.groups[after.stack[i] as int].close is None by {
                assert(z.stack[i] < z.stack[z.stack.len() - 1]);
            }
            assert forall|g: int|
                0 <= g < after.groups.len() && (
                #[trigger] after.groups[g]).close is None implies after.stack.contains(
                g as nat,
            ) by {
                assert(g != id);
                assert(z.groups[g].close is None);
                let i = choose|i: int| 0 <= i < z.stack.len() && z.stack[i] == g as nat;
                assert(after.stack[i] == g as nat);
            }
        }
    }
}

proof fn token_sane(s: Seq<char>, z: Scan)
    requires
        sane(s, z),
        z.index < s.len(),
    ensures
        sane(s, token(s, z)),
        token(s, z).index > z.index,
{
    reveal(sane);
    let i = z.index;
    let c = s[i];
    if quotes(s, i) {
        multiline_text_sane(s, z);
    } else if c == '"' {
        inline_text_sane(s, z);
    } else if let Some(delimiter) = opens(c) {
        opened_sane(s, z, delimiter);
    } else if let Some(delimiter) = closes(c) {
        closed_sane(s, z, delimiter);
    } else if number_start(s, i) {
        run_end_bounds(s, i + 1, Run::Number);
        let end = run_end(s, i, Run::Number);
        spelled_sane(s, z, Lexeme::Number(s.subrange(i, end)), end);
    } else if name_start(s, i) {
        run_end_bounds(s, i + 1, Run::Name);
        let end = run_end(s, i, Run::Name);
        spelled_sane(s, z, Lexeme::Name(s.subrange(i, end)), end);
    } else if symbol_char(c) {
        let end = i + symbol_len(s, i);
        spelled_sane(s, z, Lexeme::Symbol(s.subrange(i, end)), end);
    } else {
        spelled_sane(s, z, Lexeme::Unknown(c), i + 1);
    }
}

proof fn stepped_sane(s: Seq<char>, z: Scan)
    requires
        sane(s, z),
        z.index < s.len(),
    ensures
        sane(s, stepped(s, z)),
        stepped(s, z).index > z.index,
{
    reveal(sane);
    let i = z.index;
    let c = s[i];
    if line_end(c) {
        newline_sane(s, z, true);
    } else if c == ' ' {
        moved_sane(s, z, i + 1);
    } else if text::white_space(c) {
        moved_sane(s, noted(z, c), i + 1);
    } else if c == '#' {
        run_end_bounds(s, i + 1, Run::Line);
        let end = run_end(s, i, Run::Line);
        noted_range_sane(s, z, i, end);
        moved_sane(s, noted_range(s, z, i, end), end);
    } else {
        announced_sane(s, z);
        token_sane(s, announced(z));
    }
}

proof fn scanned_sane(s: Seq<char>, z: Scan)
    requires
        sane(s, z),
    ensures
        sane(s, scanned(s, z)),
        scanned(s, z).index == s.len(),
    decreases s.len() - z.index,
{
    reveal(sane);
    if z.index < s.len() {
        stepped_sane(s, z);
        scanned_sane(s, stepped(s, z));
    }
}

proof fn beginning_sane(s: Seq<char>)
    ensures
        sane(s, beginning()),
{
    reveal(sane);
    assert(s.take(0) =~= Seq::<char>::empty());
}

proof fn unclosed_lines(s: Seq<char>, z: Scan, stack: Seq<nat>)
    requires
        sane(s, z),
    ensures
        lines_positive(unclosed(z, stack)),
    decreases stack.len(),
{
    reveal(sane);
    if stack.len() > 0 {
        unclosed_lines(s, z, stack.drop_last());
        let group = z.groups[stack.last() as int];
        line_of_positive(z.line_starts, z.tokens[group.open as int].start);
    }
}

/// The lexical structure of a source stays within the source: lines ascend,
/// spans are ordered and in range, every delimiter token is one end of its
/// group, and a closed group contains only closed groups.
pub open spec fn sound(l: Lexed) -> bool {
    &&& lines_ascend(l.line_starts)
    &&& forall|i: int|
        0 <= i < l.line_starts.len() ==> (#[trigger] l.line_starts[i]) <= text::utf8_size(l.chars)
    &&& spans_hold(l.tokens, l.texts, l.declarations, text::utf8_size(l.chars))
    &&& groups_pair(l.tokens, l.groups, l.texts.len() as int)
    &&& lines_positive(l.structural)
}

/// Every source has a sound lexical structure.
pub proof fn lexed_is_sound(s: Seq<char>)
    ensures
        sound(lexed(s)),
{
    reveal(sane);
    let z0 = scanned(s, beginning());
    beginning_sane(s);
    scanned_sane(s, beginning());
    concluded_sane(s, z0);
    let z = concluded(z0);
    assert(s.take(s.len() as int) =~= s);
    unclosed_lines(s, z, z.stack);
    let l = lexed(s);
    assert forall|i: int| 0 <= i < l.line_starts.len() implies (#[trigger] l.line_starts[i])
        <= text::utf8_size(l.chars) by {
        if i < z.line_starts.len() - 1 {
            assert(z.line_starts[i] < z.line_starts[z.line_starts.len() - 1]);
        }
    }
}

struct OpenDeclaration {
    token_start: usize,
    byte_start: usize,
    line: usize,
}

struct Lexer {
    chars: Vec<char>,
    total: usize,
    index: usize,
    byte: usize,
    line_start: usize,
    indentation: usize,
    at_line_start: bool,
    emitted_line_start: bool,
    leading: LeadingTrivia,
    lf: bool,
    crlf: bool,
    cr: bool,
    last_invalid_whitespace_line: Option<usize>,
    tokens: Vec<SpannedToken>,
    texts: Vec<LexedText>,
    groups: Vec<DelimiterGroup>,
    group_stack: Vec<GroupId>,
    declarations: Vec<DeclarationSection>,
    open_declaration: Option<OpenDeclaration>,
    line_starts: Vec<usize>,
    invalid_whitespace_diagnostics: Vec<Diagnostic>,
    structural_diagnostics: Vec<Diagnostic>,
}

impl Lexer {
    closed spec fn state(&self) -> Scan {
        Scan {
            index: self.index as int,
            byte: self.byte as nat,
            line_start: self.line_start as nat,
            indentation: self.indentation as nat,
            at_line_start: self.at_line_start,
            emitted: self.emitted_line_start,
            leading: self.leading,
            lf: self.lf,
            crlf: self.crlf,
            cr: self.cr,
            last_bad: maybe(self.last_invalid_whitespace_line),
            tokens: tokens_of(self.tokens@),
            texts: literals_of(self.texts@),
            groups: groups_of(self.groups@),
            stack: numbers_of(self.group_stack@),
            declarations: sections_of(self.declarations@),
            begun: match self.open_declaration {
                Some(open) => Some(
                    Begun {
                        first: open.token_start as nat,
                        start: open.byte_start as nat,
                        line: open.line as nat,
                    },
                ),
                None => None,
            },
            line_starts: numbers_of(self.line_starts@),
            bad: diagnostic::reports(self.invalid_whitespace_diagnostics@),
            structural: diagnostic::reports(self.structural_diagnostics@),
        }
    }

    closed spec fn source(&self) -> Seq<char> {
        self.chars@
    }

    closed spec fn wf(&self) -> bool {
        &&& sane(self.chars@, self.state())
        &&& self.total == text::utf8_size(self.chars@)
        &&& self.chars@.len() <= usize::MAX
    }

    fn new(source: &str) -> (lexer: Self)
        ensures
            lexer.wf(),
            lexer.source() == source@,
            lexer.state() == beginning(),
    {
        proof {
            reveal(sane);
        }
        let total = text::byte_len(source);
        let chars = chars_of(source);
        let count = chars.len();
        let mut line_starts: Vec<usize> = Vec::new();
        line_starts.push(0);
        let lexer = Lexer {
            chars,
            total,
            index: 0,
            byte: 0,
            line_start: 0,
            indentation: 0,
            at_line_start: true,
            emitted_line_start: false,
            leading: LeadingTrivia::Joint,
            lf: false,
            crlf: false,
            cr: false,
            last_invalid_whitespace_line: None,
            tokens: Vec::new(),
            texts: Vec::new(),
            groups: Vec::new(),
            group_stack: Vec::new(),
            declarations: Vec::new(),
            open_declaration: None,
            line_starts,
            invalid_whitespace_diagnostics: Vec::new(),
            structural_diagnostics: Vec::new(),
        };
        proof {
            let z = lexer.state();
            let b = beginning();
            assert(z.tokens =~= b.tokens);
            assert(z.texts =~= b.texts);
            assert(z.groups =~= b.groups);
            assert(z.stack =~= b.stack);
            assert(z.declarations =~= b.declarations);
            assert(z.line_starts =~= b.line_starts);
            assert(z.bad =~= b.bad);
            assert(z.structural =~= b.structural);
            beginning_sane(source@);
        }
        lexer
    }

    /// Moves to a later scalar.
    fn move_to(&mut self, end: usize)
        requires
            old(self).wf(),
            old(self).state().index <= end <= old(self).source().len(),
        ensures
            final(self).wf(),
            final(self).source() == old(self).source(),
            final(self).state() == moved(old(self).source(), old(self).state(), end as int),
    {
        proof {
            sane_place(self.chars@, self.state());
        }
        let ghost s = self.chars@;
        let ghost z = self.state();
        let mut i: usize = self.index;
        let mut byte: usize = self.byte;
        while i < end
            invariant
                self.index <= i <= end <= self.chars.len(),
                s == self.chars@,
                self.total == text::utf8_size(s),
                byte == text::utf8_size(s.take(i as int)),
            decreases end - i,
        {
            proof {
                text::utf8_size_step(s, i as int);
                text::utf8_size_grows(s, i + 1, s.len() as int);
                assert(s.take(s.len() as int) =~= s);
            }
            byte = byte + utf8_len(self.chars[i]);
            i = i + 1;
        }
        self.index = end;
        self.byte = byte;
        proof {
            moved_sane(s, z, end as int);
        }
    }

    fn run_end(&self, from: usize, run: Run) -> (end: usize)
        requires
            from <= self.source().len(),
        ensures
            end == run_end(self.source(), from as int, run),
            from <= end <= self.source().len(),
    {
        let ghost s = self.chars@;
        let mut i: usize = from;
        while i < self.chars.len() && in_run(&run, self.chars[i])
            invariant
                from <= i <= self.chars.len(),
                s == self.chars@,
                run_end(s, from as int, run) == run_end(s, i as int, run),
            decreases self.chars.len() - i,
        {
            i = i + 1;
        }
        i
    }

    fn at_newline(&self) -> (b: bool)
        ensures
            b == newline_at(self.source(), self.state().index),
    {
        self.index < self.chars.len() && (self.chars[self.index] == '\r'
            || self.chars[self.index] == '\n')
    }

    /// Consumes a line ending, if one stands here.
    fn consume_newline(&mut self, layout: bool) -> (consumed: bool)
        requires
            old(self).wf(),
        ensures
            final(self).wf(),
            final(self).source() == old(self).source(),
            consumed == newline_at(old(self).source(), old(self).state().index),
            final(self).state() == if consumed {
                newline(old(self).source(), old(self).state(), layout)
            } else {
                old(self).state()
            },
            consumed ==> final(self).state().index > old(self).state().index,
    {
        proof {
            sane_place(self.chars@, self.state());
        }
        if !self.at_newline() {
            return false;
        }
        let ghost s = self.chars@;
        let ghost z = self.state();
        let c = self.chars[self.index];
        let both = c == '\r' && self.index + 1 < self.chars.len() && self.chars[self.index + 1]
            == '\n';
        let end: usize = if both {
            self.index + 2
        } else {
            self.index + 1
        };
        self.move_to(end);
        if both {
            self.crlf = true;
        } else if c == '\r' {
            self.cr = true;
        } else {
            self.lf = true;
        }
        self.line_start = self.byte;
        let ghost starts = self.line_starts@;
        self.line_starts.push(self.byte);
        assert(numbers_of(self.line_starts@) =~= numbers_of(starts).push(self.byte as nat));
        if layout {
            self.indentation = 0;
            self.at_line_start = true;
            self.emitted_line_start = false;
            self.leading = LeadingTrivia::LineBreak;
        }
        proof {
            newline_sane(s, z, layout);
        }
        true
    }

    fn record_invalid_whitespace(&mut self, c: char)
        requires
            old(self).wf(),
        ensures
            final(self).wf(),
            final(self).source() == old(self).source(),
            final(self).state() == noted(old(self).state(), c),
    {
        proof {
            reveal(sane);
        }
        let line = self.line_starts.len();
        if let Some(last) = self.last_invalid_whitespace_line {
            if last == line {
                return ;
            }
        }
        self.last_invalid_whitespace_line = Some(line);
        let mut message = "unsupported whitespace U+".to_owned();
        push_hexadecimal(&mut message, c as u32, 4);
        message.append("; .g source permits only SP, CR, and LF");
        report(
            &mut self.invalid_whitespace_diagnostics,
            Diagnostic::error(line, message.as_str()),
        );
    }

    /// Checks a range of scalars for unsupported white space.
    fn check_whitespace(&mut self, lo: usize, hi: usize)
        requires
            old(self).wf(),
            lo <= hi <= old(self).source().len(),
        ensures
            final(self).wf(),
            final(self).source() == old(self).source(),
            final(self).state() == noted_range(
                old(self).source(),
                old(self).state(),
                lo as int,
                hi as int,
            ),
    {
        proof {
            sane_place(self.chars@, self.state());
        }
        let ghost s = self.chars@;
        let ghost z = self.state();
        let mut i: usize = lo;
        while i < hi
            invariant
                lo <= i <= hi <= self.chars.len(),
                self.wf(),
                s == self.chars@,
                self.state() == noted_range(s, z, lo as int, i as int),
            decreases hi - i,
        {
            let c = self.chars[i];
            if is_white_space(c) && c != ' ' && c != '\r' && c != '\n' {
                self.record_invalid_whitespace(c);
            }
            i = i + 1;
        }
    }

    fn finish_declaration(&mut self)
        requires
            old(self).wf(),
        ensures
            final(self).wf(),
            final(self).source() == old(self).source(),
            final(self).state() == concluded(old(self).state()),
    {
        proof {
            reveal(sane);
        }
        let ghost z = self.state();
        proof {
            concluded_sane(self.chars@, z);
        }
        if let Some(open) = &self.open_declaration {
            let count = self.tokens.len();
            assert(z.tokens.last() == self.tokens@[count - 1]@);
            let section = DeclarationSection {
                token_start: open.token_start,
                token_end: count,
                span: ByteSpan {
                    start: open.byte_start,
                    end: self.tokens[count - 1].span.end,
                },
                line: open.line,
            };
            let ghost before = self.declarations@;
            self.declarations.push(section);
            self.open_declaration = None;
            assert(sections_of(self.declarations@) =~= sections_of(before).push(section@));
        }
    }

    fn push_token(&mut self, token: SpannedToken)
        ensures
            final(self).chars == old(self).chars,
            final(self).total == old(self).total,
            final(self).state() == (Scan {
                tokens: old(self).state().tokens.push(token@),
                ..old(self).state()
            }),
    {
        self.tokens.push(token);
        assert(tokens_of(self.tokens@) =~= tokens_of(old(self).tokens@).push(token@));
    }

    fn ensure_line_start(&mut self)
        requires
            old(self).wf(),
        ensures
            final(self).wf(),
            final(self).source() == old(self).source(),
            final(self).state() == announced(old(self).state()),
    {
        proof {
            sane_place(self.chars@, self.state());
        }
        proof {
            announced_sane(self.chars@, self.state());
        }
        if self.emitted_line_start {
            return ;
        }
        if self.group_stack.len() == 0 && self.indentation == 0 {
            self.finish_declaration();
            self.open_declaration = Some(
                OpenDeclaration {
                    token_start: self.tokens.len(),
                    byte_start: self.line_start,
                    line: self.line_starts.len(),
                },
            );
        }
        self.push_token(
            SpannedToken {
                kind: TokenKind::LineStart { indentation: self.indentation },
                span: ByteSpan { start: self.byte, end: self.byte },
                leading: self.leading,
            },
        );
        self.leading = if self.indentation == 0 {
            LeadingTrivia::Joint
        } else {
            LeadingTrivia::Space
        };
        self.at_line_start = false;
        self.emitted_line_start = true;
    }

    /// Emits a token that ends here.
    fn emit(&mut self, kind: TokenKind, start: usize)
        ensures
            final(self).chars == old(self).chars,
            final(self).total == old(self).total,
            final(self).state() == emitted(old(self).state(), kind@, start as nat),
    {
        self.push_token(
            SpannedToken {
                kind,
                span: ByteSpan { start, end: self.byte },
                leading: self.leading,
            },
        );
        self.leading = LeadingTrivia::Joint;
    }

    /// Emits a token that spells the scalars up to `end`.
    fn emit_to(&mut self, kind: TokenKind, end: usize)
        requires
            old(self).wf(),
            plain(kind@),
            old(self).state().index <= end <= old(self).source().len(),
        ensures
            final(self).wf(),
            final(self).source() == old(self).source(),
            final(self).state() == spelled(
                old(self).source(),
                old(self).state(),
                kind@,
                end as int,
            ),
    {
        proof {
            sane_place(self.chars@, self.state());
        }
        let start = self.byte;
        proof {
            spelled_sane(self.chars@, self.state(), kind@, end as int);
        }
        self.move_to(end);
        self.emit(kind, start);
    }

    fn report_structure(&mut self, line: usize, message: &str)
        requires
            old(self).wf(),
            line > 0,
        ensures
            final(self).wf(),
            final(self).source() == old(self).source(),
            final(self).state() == faulted(old(self).state(), line as nat, message@),
    {
        proof {
            reveal(sane);
        }
        report(&mut self.structural_diagnostics, Diagnostic::error(line, message));
    }

    fn emit_text(&mut self, value: String, start: usize, multiline: bool)
        requires
            old(self).wf(),
            start <= old(self).state().byte,
        ensures
            final(self).wf(),
            final(self).source() == old(self).source(),
            final(self).state() == text_emitted(
                old(self).state(),
                value@,
                start as nat,
                multiline,
            ),
    {
        proof {
            sane_place(self.chars@, self.state());
        }
        proof {
            text_emitted_sane(self.chars@, self.state(), value@, start as nat, multiline);
        }
        let id = self.texts.len();
        let ghost before = self.texts@;
        let literal = LexedText { value, span: ByteSpan { start, end: self.byte }, multiline };
        self.texts.push(literal);
        assert(literals_of(self.texts@) =~= literals_of(before).push(literal@));
        self.emit(TokenKind::Text(id), start);
        self.at_line_start = false;
        self.emitted_line_start = true;
    }

    fn consume_inline_text(&mut self)
        requires
            old(self).wf(),
            old(self).state().index < old(self).source().len(),
        ensures
            final(self).wf(),
            final(self).source() == old(self).source(),
            final(self).state() == inline_text(old(self).source(), old(self).state()),
    {
        proof {
            sane_place(self.chars@, self.state());
        }
        let ghost s = self.chars@;
        let ghost z = self.state();
        let start = self.byte;
        proof {
            moved_sane(s, z, z.index + 1);
        }
        self.move_to(self.index + 1);
        let ghost begin = self.state();
        let mut value = String::new();
        let mut closed = false;
        assert(value@ =~= Seq::<char>::empty());
        while self.index < self.chars.len()
            invariant_except_break
                !closed,
                inline_rest(s, self.state(), value@) == inline_rest(s, begin, Seq::empty()),
            invariant
                self.wf(),
                s == self.chars@,
                start <= self.byte,
            ensures
                inline_rest(s, begin, Seq::empty()) == (self.state(), value@, closed),
            decreases self.chars.len() - self.index,
        {
            let ghost before = self.state();
            let ghost had = value@;
            if self.consume_newline(false) {
                value.push('\n');
                proof {
                    newline_sane(s, before, false);
                }
                continue ;
            }
            let c = self.chars[self.index];
            if c == '"' {
                proof {
                    moved_sane(s, self.state(), self.index + 1);
                }
                self.move_to(self.index + 1);
                closed = true;
                break ;
            }
            if is_white_space(c) && c != ' ' {
                self.record_invalid_whitespace(c);
            }
            value.push(c);
            proof {
                moved_sane(s, self.state(), self.index + 1);
            }
            self.move_to(self.index + 1);
        }
        if !closed {
            let line = line_at(&self.line_starts, start);
            proof {
                sane_place(s, self.state());
                line_of_positive(self.state().line_starts, start as nat);
            }
            self.report_structure(line, "unterminated text literal");
        }
        self.emit_text(value, start, false);
    }

    fn consume_opening_multiline_tail(&mut self)
        requires
            old(self).wf(),
        ensures
            final(self).wf(),
            final(self).source() == old(self).source(),
            final(self).state() == opened_multiline(old(self).source(), old(self).state()),
    {
        proof {
            sane_place(self.chars@, self.state());
        }
        let end = self.run_end(self.index, Run::Spaces);
        self.move_to(end);
        if self.index < self.chars.len() && !self.consume_newline(false) {
            let line = self.line_starts.len();
            self.report_structure(
                line,
                "multiline text opening delimiter must end its source line",
            );
        }
    }

    fn consume_multiline_text(&mut self)
        requires
            old(self).wf(),
            old(self).state().index + 3 <= old(self).source().len(),
        ensures
            final(self).wf(),
            final(self).source() == old(self).source(),
            final(self).state() == multiline_text(old(self).source(), old(self).state()),
    {
        proof {
            sane_place(self.chars@, self.state());
        }
        let ghost s = self.chars@;
        let ghost z = self.state();
        let start = self.byte;
        proof {
            moved_sane(s, z, z.index + 3);
        }
        self.move_to(self.index + 3);
        proof {
            opened_multiline_sane(s, self.state());
        }
        self.consume_opening_multiline_tail();
        let ghost begin = self.state();
        let mut lines: Vec<String> = Vec::new();
        let mut closed = false;
        assert(text::texts(lines@) =~= Seq::<Seq<char>>::empty());
        while self.index < self.chars.len()
            invariant_except_break
                !closed,
                multiline_rest(s, self.state(), text::texts(lines@)) == multiline_rest(
                    s,
                    begin,
                    Seq::empty(),
                ),
            invariant
                self.wf(),
                s == self.chars@,
                start <= self.byte,
            ensures
                multiline_rest(s, begin, Seq::empty()) == (
                    self.state(),
                    text::texts(lines@),
                    closed,
                ),
            decreases self.chars.len() - self.index,
        {
            let ghost before = self.state();
            let ghost had = text::texts(lines@);
            let end = self.run_end(self.index, Run::Line);
            let first = self.run_end(self.index, Run::Spaces);
            self.check_whitespace(self.index, end);
            proof {
                noted_range_sane(s, before, before.index, end as int);
            }
            if first < end && end - first >= 3 && self.quotes_at(first) {
                proof {
                    moved_sane(s, self.state(), first + 3);
                }
                self.move_to(first + 3);
                closed = true;
                break ;
            }
            if first < end && self.chars[first] == '"' {
                let from: usize = if first + 1 < end && self.chars[first + 1] == ' ' {
                    first + 2
                } else {
                    first + 1
                };
                let line = string_of(&self.chars, from, end);
                let ghost added = line@;
                lines.push(line);
                assert(text::texts(lines@) =~= had.push(added));
                assert(added == content(s, first as int, end as int));
            }
            proof {
                moved_sane(s, self.state(), end as int);
            }
            self.move_to(end);
            let ghost after = self.state();
            if !self.consume_newline(false) {
                break ;
            }
            proof {
                newline_sane(s, after, false);
            }
        }
        if !closed {
            let line = line_at(&self.line_starts, start);
            proof {
                sane_place(s, self.state());
                line_of_positive(self.state().line_starts, start as nat);
            }
            self.report_structure(line, "unterminated multiline text literal");
        }
        let value = join_lines(&lines);
        self.emit_text(value, start, true);
    }

    fn quotes_at(&self, i: usize) -> (b: bool)
        ensures
            b == quotes(self.source(), i as int),
    {
        i < self.chars.len() && self.chars.len() - i > 2 && self.chars[i] == '"' && self.chars[i + 1]
            == '"' && self.chars[i + 2] == '"'
    }

    fn consume_open(&mut self, delimiter: Delimiter)
        requires
            old(self).wf(),
            old(self).state().index < old(self).source().len(),
        ensures
            final(self).wf(),
            final(self).source() == old(self).source(),
            final(self).state() == opened(old(self).source(), old(self).state(), delimiter),
    {
        proof {
            sane_place(self.chars@, self.state());
        }
        proof {
            opened_sane(self.chars@, self.state(), delimiter);
        }
        let start = self.byte;
        let group = self.groups.len();
        let open_token = self.tokens.len();
        let parent = if self.group_stack.len() == 0 {
            None
        } else {
            assert(self.state().stack.last() == self.group_stack@[self.group_stack.len() - 1]);
            Some(self.group_stack[self.group_stack.len() - 1])
        };
        self.move_to(self.index + 1);
        self.emit(TokenKind::Open { group, delimiter }, start);
        let added = DelimiterGroup { delimiter, open_token, close_token: None, parent };
        let ghost groups = self.groups@;
        self.groups.push(added);
        assert(groups_of(self.groups@) =~= groups_of(groups).push(added@));
        let ghost stack = self.group_stack@;
        self.group_stack.push(group);
        assert(numbers_of(self.group_stack@) =~= numbers_of(stack).push(group as nat));
    }

    fn consume_close(&mut self, delimiter: Delimiter)
        requires
            old(self).wf(),
            old(self).state().index < old(self).source().len(),
        ensures
            final(self).wf(),
            final(self).source() == old(self).source(),
            final(self).state() == closed(old(self).source(), old(self).state(), delimiter),
    {
        let ghost z = self.state();
        proof {
            sane_place(self.chars@, z);
            closed_sane(self.chars@, z, delimiter);
            if z.stack.len() > 0 {
                sane_stack(self.chars@, z, z.stack.len() - 1);
            }
        }
        let c = self.chars[self.index];
        let next = self.index + 1;
        if self.group_stack.len() == 0 {
            let mut message = "unmatched closing delimiter `".to_owned();
            message.push(c);
            message.append("`");
            assert(message@ =~= unmatched_message(c));
            self.report_structure(self.line_starts.len(), message.as_str());
            let symbol = string_of(&self.chars, self.index, next);
            assert(symbol@ =~= seq![c]);
            self.emit_to(TokenKind::Symbol(symbol), next);
            return ;
        }
        let last = self.group_stack.len() - 1;
        let group = self.group_stack[last];
        proof {
            assert(z.stack.last() == group);
            assert(z.stack[last as int] < z.groups.len());
            assert(z.groups[group as int] == self.groups@[group as int]@);
        }
        let expected = self.groups[group].delimiter;
        if expected != delimiter {
            let mut message = "mismatched closing delimiter `".to_owned();
            message.push(c);
            message.append("`; expected `");
            message.push(expected.close());
            message.append("`");
            assert(message@ =~= mismatched_message(c, expected));
            self.report_structure(self.line_starts.len(), message.as_str());
            let symbol = string_of(&self.chars, self.index, next);
            assert(symbol@ =~= seq![c]);
            self.emit_to(TokenKind::Symbol(symbol), next);
            return ;
        }
        let start = self.byte;
        let close_token = self.tokens.len();
        self.move_to(next);
        self.emit(TokenKind::Close { group, delimiter }, start);
        let ghost groups = self.groups@;
        let mut closing = self.groups[group];
        closing.close_token = Some(close_token);
        self.groups.set(group, closing);
        assert(groups_of(self.groups@) =~= groups_of(groups).update(group as int, closing@));
        let ghost stack = self.group_stack@;
        self.group_stack.pop();
        assert(numbers_of(self.group_stack@) =~= numbers_of(stack).drop_last());
    }

    fn consume_number(&mut self)
        requires
            old(self).wf(),
            old(self).state().index < old(self).source().len(),
        ensures
            final(self).wf(),
            final(self).source() == old(self).source(),
            ({
                let s = old(self).source();
                let i = old(self).state().index;
                let end = run_end(s, i, Run::Number);
                final(self).state() == spelled(
                    s,
                    old(self).state(),
                    Lexeme::Number(s.subrange(i, end)),
                    end,
                )
            }),
    {
        proof {
            sane_place(self.chars@, self.state());
        }
        let end = self.run_end(self.index, Run::Number);
        let number = string_of(&self.chars, self.index, end);
        self.emit_to(TokenKind::Number(number), end);
    }

    fn consume_name(&mut self)
        requires
            old(self).wf(),
            old(self).state().index < old(self).source().len(),
        ensures
            final(self).wf(),
            final(self).source() == old(self).source(),
            ({
                let s = old(self).source();
                let i = old(self).state().index;
                let end = run_end(s, i, Run::Name);
                final(self).state() == spelled(
                    s,
                    old(self).state(),
                    Lexeme::Name(s.subrange(i, end)),
                    end,
                )
            }),
    {
        proof {
            sane_place(self.chars@, self.state());
        }
        let end = self.run_end(self.index, Run::Name);
        let name = string_of(&self.chars, self.index, end);
        self.emit_to(TokenKind::Name(name), end);
    }

    fn consume_symbol(&mut self)
        requires
            old(self).wf(),
            old(self).state().index < old(self).source().len(),
        ensures
            final(self).wf(),
            final(self).source() == old(self).source(),
            ({
                let s = old(self).source();
                let i = old(self).state().index;
                let end = i + symbol_len(s, i);
                final(self).state() == spelled(
                    s,
                    old(self).state(),
                    Lexeme::Symbol(s.subrange(i, end)),
                    end,
                )
            }),
    {
        proof {
            sane_place(self.chars@, self.state());
        }
        let i = self.index;
        let left = self.chars.len() - i;
        let width: usize = if left > 2 && is_long_symbol(
            self.chars[i],
            self.chars[i + 1],
            self.chars[i + 2],
        ) {
            3
        } else if left > 1 && is_double_symbol(self.chars[i], self.chars[i + 1]) {
            2
        } else {
            1
        };
        let symbol = string_of(&self.chars, i, i + width);
        self.emit_to(TokenKind::Symbol(symbol), i + width);
    }

    fn consume_comment(&mut self)
        requires
            old(self).wf(),
            old(self).state().index < old(self).source().len(),
        ensures
            final(self).wf(),
            final(self).source() == old(self).source(),
            ({
                let s = old(self).source();
                let z = old(self).state();
                let end = run_end(s, z.index, Run::Line);
                final(self).state() == moved(s, noted_range(s, z, z.index, end), end)
            }),
    {
        proof {
            sane_place(self.chars@, self.state());
        }
        let end = self.run_end(self.index, Run::Line);
        proof {
            noted_range_sane(self.chars@, self.state(), self.index as int, end as int);
        }
        self.check_whitespace(self.index, end);
        self.move_to(end);
    }

    fn consume_token(&mut self)
        requires
            old(self).wf(),
            old(self).state().index < old(self).source().len(),
        ensures
            final(self).wf(),
            final(self).source() == old(self).source(),
            final(self).state() == token(old(self).source(), old(self).state()),
    {
        proof {
            sane_place(self.chars@, self.state());
        }
        let c = self.chars[self.index];
        if self.quotes_at(self.index) {
            self.consume_multiline_text();
        } else if c == '"' {
            self.consume_inline_text();
        } else if let Some(delimiter) = Delimiter::from_open(c) {
            self.consume_open(delimiter);
        } else if let Some(delimiter) = Delimiter::from_close(c) {
            self.consume_close(delimiter);
        } else if is_number_start(&self.chars, self.index) {
            self.consume_number();
        } else if is_name_start(&self.chars, self.index) {
            self.consume_name();
        } else if is_symbol(c) {
            self.consume_symbol();
        } else {
            self.emit_to(TokenKind::Unknown(c), self.index + 1);
        }
    }

    fn step(&mut self)
        requires
            old(self).wf(),
            old(self).state().index < old(self).source().len(),
        ensures
            final(self).wf(),
            final(self).source() == old(self).source(),
            final(self).state() == stepped(old(self).source(), old(self).state()),
    {
        proof {
            sane_place(self.chars@, self.state());
            stepped_sane(self.chars@, self.state());
        }
        if self.consume_newline(true) {
            return ;
        }
        let c = self.chars[self.index];
        if c == ' ' {
            self.move_to(self.index + 1);
            if self.at_line_start {
                self.indentation = self.indentation + 1;
            } else {
                self.leading = LeadingTrivia::Space;
            }
        } else if is_white_space(c) {
            self.record_invalid_whitespace(c);
            self.move_to(self.index + 1);
            self.leading = LeadingTrivia::Space;
        } else if c == '#' {
            self.consume_comment();
        } else {
            proof {
                announced_sane(self.chars@, self.state());
            }
            self.ensure_line_start();
            self.consume_token();
        }
    }

    fn run(self) -> (source: LexedSource)
        requires
            self.wf(),
            self.state() == beginning(),
        ensures
            source@ == lexed(self.source()),
            source.wf(),
    {
        let mut lexer = self;
        let ghost s = lexer.chars@;
        while lexer.index < lexer.chars.len()
            invariant
                lexer.wf(),
                s == lexer.chars@,
                scanned(s, lexer.state()) == scanned(s, beginning()),
            decreases lexer.chars.len() - lexer.index,
        {
            proof {
                stepped_sane(s, lexer.state());
            }
            lexer.step();
            proof {
                sane_place(s, lexer.state());
            }
        }
        lexer.finish_declaration();
        let ghost z = lexer.state();
        let ghost had = z.structural;
        let mut structural = lexer.structural_diagnostics;
        let mut open = lexer.group_stack.len();
        let ghost all = numbers_of(lexer.group_stack@);
        assert(all.take(open as int) =~= all);
        assert(had + Seq::<DiagnosticView>::empty() =~= had);
        let ghost mut told = Seq::<DiagnosticView>::empty();
        assert(diagnostic::reports(structural@) =~= had + told);
        assert(told + unclosed(z, all) =~= unclosed(z, all));
        while open > 0
            invariant
                open <= lexer.group_stack.len(),
                sane(s, z),
                all == numbers_of(lexer.group_stack@),
                z.stack == all,
                z.groups == groups_of(lexer.groups@),
                z.tokens == tokens_of(lexer.tokens@),
                z.line_starts == numbers_of(lexer.line_starts@),
                diagnostic::reports(structural@) == had + told,
                told + unclosed(z, all.take(open as int)) == unclosed(z, all),
            decreases open,
        {
            open = open - 1;
            let id = lexer.group_stack[open];
            proof {
                assert(all.take(open + 1).drop_last() =~= all.take(open as int));
                assert(all.take(open + 1).last() == id as nat);
                sane_stack(s, z, open as int);
                assert(z.groups[id as int] == lexer.groups@[id as int]@);
            }
            let group = lexer.groups[id];
            assert(z.tokens[group.open_token as int] == lexer.tokens@[group.open_token as int]@);
            let line = line_at(&lexer.line_starts, lexer.tokens[group.open_token].span.start);
            let mut message = "unclosed delimiter; expected `".to_owned();
            message.push(group.delimiter.close());
            message.append("`");
            assert(message@ =~= unclosed_message(group.delimiter));
            let ghost entry = diagnostic::error_at(line as nat, message@);
            let ghost before = diagnostic::reports(structural@);
            report(&mut structural, Diagnostic::error(line, message.as_str()));
            proof {
                let old_told = told;
                told = told.push(entry);
                assert(before.push(entry) =~= had + told);
                assert(told + unclosed(z, all.take(open as int)) =~= old_told + (seq![entry]
                    + unclosed(z, all.take(open as int))));
            }
        }
        assert(all.take(0) =~= Seq::<nat>::empty());
        assert(told + Seq::<DiagnosticView>::empty() =~= told);
        let mut validation: Vec<Diagnostic> = Vec::new();
        assert(diagnostic::reports(validation@) =~= Seq::<DiagnosticView>::empty());
        if (lexer.lf && lexer.crlf) || (lexer.lf && lexer.cr) || (lexer.crlf && lexer.cr) {
            report(
                &mut validation,
                Diagnostic::warn(1, "source uses inconsistent line endings"),
            );
        }
        let has_invalid_whitespace = lexer.invalid_whitespace_diagnostics.len() > 0;
        let ghost bad = lexer.invalid_whitespace_diagnostics@;
        report_all(&mut validation, lexer.invalid_whitespace_diagnostics);
        proof {
            let l = lexed(s);
            assert(diagnostic::reports(validation@) =~= l.validation);
            assert(diagnostic::reports(structural@) =~= l.structural);
            lexed_is_sound(s);
        }
        LexedSource {
            chars: lexer.chars,
            byte_len: lexer.total,
            tokens: lexer.tokens,
            texts: lexer.texts,
            groups: lexer.groups,
            declarations: lexer.declarations,
            line_starts: lexer.line_starts,
            validation_diagnostics: validation,
            structural_diagnostics: structural,
            has_invalid_whitespace,
            embedded: Vec::new(),
        }
    }
}

/// The lines of a text joined by LF.
fn join_lines(lines: &Vec<String>) -> (value: String)
    ensures
        value@ == joined(text::texts(lines@)),
{
    let ghost all = text::texts(lines@);
    let mut value = String::new();
    let mut i: usize = 0;
    assert(value@ =~= Seq::<char>::empty());
    assert(all.take(0) =~= Seq::empty());
    while i < lines.len()
        invariant
            i <= lines.len(),
            all == text::texts(lines@),
            value@ == joined(all.take(i as int)),
        decreases lines.len() - i,
    {
        proof {
            assert(all.take(i + 1).drop_last() =~= all.take(i as int));
            assert(all.take(i + 1).last() == lines@[i as int]@);
        }
        let ghost had = value@;
        if i > 0 {
            value.push('\n');
        }
        value.append(lines[i].as_str());
        assert(value@ =~= joined(all.take(i + 1)));
        i = i + 1;
    }
    assert(all.take(lines.len() as int) =~= all);
    value
}

fn in_run(run: &Run, c: char) -> (b: bool)
    ensures
        b == runs(*run, c),
{
    match run {
        Run::Name => is_ascii_letter(c) || is_ascii_digit(c) || c == '_',
        Run::Number => is_ascii_digit(c) || c == '_' || c == '.' || c == 'x' || c == 'X' || ('a'
            <= c && c <= 'f') || ('A' <= c && c <= 'F'),
        Run::Line => c != '\r' && c != '\n',
        Run::Spaces => c == ' ',
    }
}

fn is_long_symbol(a: char, b: char, c: char) -> (r: bool)
    ensures
        r == long_symbol(a, b, c),
{
    (a == ':' && b == ':' && c == '=') || (a == '>' && b == '>' && c == '=') || (a == '>' && b
        == '=' && c == '>') || (a == '=' && b == '>' && c == '>')
}

fn is_double_symbol(a: char, b: char) -> (r: bool)
    ensures
        r == double_symbol(a, b),
{
    (a == ':' && b == '=') || (a == '<' && b == '-') || (a == '-' && b == '>') || (a == '!' && b
        == '>') || (a == '<' && b == '!') || (a == '>' && b == '=') || (a == '=' && b == '=') || (a == '=' && b == '>') || (a
        == '<' && b == '>') || (a == '=' && b == '<') || (a == '>' && b == '>') || (a == '<' && b
        == '<') || (a == '|' && b == '>') || (a == '<' && b == '|') || (a == '+' && b == '+')
}

pub fn is_name_start(chars: &Vec<char>, index: usize) -> (b: bool)
    requires
        index < chars.len(),
    ensures
        b == name_start(chars@, index as int),
{
    let c = chars[index];
    is_ascii_letter(c) || (c == '_' && !(chars.len() - index > 1 && is_ascii_digit(
        chars[index + 1],
    )))
}

pub fn is_number_start(chars: &Vec<char>, index: usize) -> (b: bool)
    requires
        index < chars.len(),
    ensures
        b == number_start(chars@, index as int),
{
    let c = chars[index];
    is_ascii_digit(c) || (c == '_' && chars.len() - index > 1 && is_ascii_digit(chars[index + 1]))
}

pub fn is_symbol(c: char) -> (b: bool)
    ensures
        b == symbol_char(c),
{
    c == '.' || c == ',' || c == ';' || c == ':' || c == '\'' || c == '\\' || c == '^' || c == '='
        || c == '<' || c == '>' || c == '!' || c == '|' || c == '+' || c == '-' || c == '*' || c
        == '/' || c == '@'
}

/// The line of a byte.
pub fn line_at(line_starts: &Vec<usize>, byte: usize) -> (line: usize)
    ensures
        line == line_of(numbers_of(line_starts@), byte as nat),
{
    let ghost all = numbers_of(line_starts@);
    let mut i: usize = line_starts.len();
    assert(all.take(i as int) =~= all);
    while i > 0
        invariant
            i <= line_starts.len(),
            all == numbers_of(line_starts@),
            line_of(all, byte as nat) == line_of(all.take(i as int), byte as nat),
        decreases i,
    {
        proof {
            assert(all.take(i as int).drop_last() =~= all.take(i - 1));
            assert(all.take(i as int).last() == line_starts@[i - 1] as nat);
        }
        if line_starts[i - 1] <= byte {
            return i;
        }
        i = i - 1;
    }
    0
}

/// Scans a source.
pub fn lex_source(source: &str) -> (lexed_source: LexedSource)
    ensures
        lexed_source@ == lexed(source@),
        lexed_source.wf(),
{
    Lexer::new(source).run()
}

impl LexedSource {
    /// The lexical structure is sound, and the rest agrees with it.
    pub open spec fn wf(&self) -> bool {
        &&& sound(self@)
        &&& self.byte_len == text::utf8_size(self.chars@)
    }
}

/// The scalar that begins at a byte of a text, or its end.
pub open spec fn scalar_at(s: Seq<char>, byte: nat) -> Option<int> {
    scalar_from(s, 0, byte)
}

/// The first scalar from `i` on that begins at a byte.
pub open spec fn scalar_from(s: Seq<char>, i: int, byte: nat) -> Option<int>
    decreases s.len() - i,
{
    if !(0 <= i <= s.len()) {
        None
    } else if text::utf8_size(s.take(i)) == byte {
        Some(i)
    } else if i == s.len() {
        None
    } else {
        scalar_from(s, i + 1, byte)
    }
}

/// The text of a range of bytes, where both ends lie between scalars.
pub open spec fn slice(s: Seq<char>, start: nat, end: nat) -> Option<Seq<char>> {
    match (scalar_at(s, start), scalar_at(s, end)) {
        (Some(i), Some(j)) => if i <= j {
            Some(s.subrange(i, j))
        } else {
            None
        },
        _ => None,
    }
}

/// The bytes of a line, without its ending.
pub open spec fn line_bytes(l: Lexed, line: int) -> Option<(nat, nat)> {
    if 1 <= line <= l.line_starts.len() {
        let start = l.line_starts[line - 1];
        match scalar_at(l.chars, start) {
            Some(i) => Some(
                (start, text::utf8_size(l.chars.take(run_end(l.chars, i, Run::Line)))),
            ),
            None => None,
        }
    } else {
        None
    }
}

/// The tokens strictly between the delimiters of a group.
pub open spec fn contents(l: Lexed, group: int) -> Option<(int, int)> {
    if 0 <= group < l.groups.len() {
        match l.groups[group].close {
            Some(close) => Some((l.groups[group].open as int + 1, close as int)),
            None => None,
        }
    } else {
        None
    }
}

impl ByteSpan {
    pub fn new(start: usize, end: usize) -> (span: Self)
        ensures
            span.start == start,
            span.end == end,
    {
        ByteSpan { start, end }
    }

    pub fn range(self) -> (range: std::ops::Range<usize>)
        ensures
            range.start == self.start,
            range.end == self.end,
    {
        self.start..self.end
    }
}

impl SpannedToken {
    pub fn kind(&self) -> (kind: &TokenKind)
        ensures
            *kind == self.kind,
    {
        &self.kind
    }

    pub fn span(&self) -> (span: ByteSpan)
        ensures
            span == self.span,
    {
        self.span
    }

    pub fn leading(&self) -> (leading: LeadingTrivia)
        ensures
            leading == self.leading,
    {
        self.leading
    }
}

impl LexedText {
    pub fn value(&self) -> (value: &str)
        ensures
            value@ == self.value@,
    {
        self.value.as_str()
    }

    pub fn is_multiline(&self) -> (b: bool)
        ensures
            b == self.multiline,
    {
        self.multiline
    }
}

impl DelimiterGroup {
    pub fn delimiter(&self) -> (delimiter: Delimiter)
        ensures
            delimiter == self.delimiter,
    {
        self.delimiter
    }

    pub fn open_token(&self) -> (index: usize)
        ensures
            index == self.open_token,
    {
        self.open_token
    }

    pub fn close_token(&self) -> (index: Option<usize>)
        ensures
            index == self.close_token,
    {
        self.close_token
    }

    pub fn parent(&self) -> (group: Option<GroupId>)
        ensures
            group == self.parent,
    {
        self.parent
    }
}

impl DeclarationSection {
    pub fn line(&self) -> (line: usize)
        ensures
            line == self.line,
    {
        self.line
    }

    pub fn span(&self) -> (span: ByteSpan)
        ensures
            span == self.span,
    {
        self.span
    }

    pub fn tokens(&self) -> (range: std::ops::Range<usize>)
        ensures
            range.start == self.token_start,
            range.end == self.token_end,
    {
        self.token_start..self.token_end
    }
}

impl LexedSource {
    pub fn tokens(&self) -> (tokens: &Vec<SpannedToken>)
        ensures
            tokens == self.tokens,
    {
        &self.tokens
    }

    pub fn texts(&self) -> (texts: &Vec<LexedText>)
        ensures
            texts == self.texts,
    {
        &self.texts
    }

    pub fn groups(&self) -> (groups: &Vec<DelimiterGroup>)
        ensures
            groups == self.groups,
    {
        &self.groups
    }

    pub fn declarations(&self) -> (declarations: &Vec<DeclarationSection>)
        ensures
            declarations == self.declarations,
    {
        &self.declarations
    }

    /// The source as it was given.
    pub fn source(&self) -> (source: String)
        ensures
            source@ == self@.chars,
    {
        let source = string_of(&self.chars, 0, self.chars.len());
        assert(source@ =~= self@.chars);
        source
    }

    /// Every diagnostic, those of validation first.
    pub fn diagnostics(&self) -> (diagnostics: Vec<Diagnostic>)
        ensures
            diagnostic::reports(diagnostics@) == self@.validation + self@.structural,
    {
        let mut all = copy_diagnostics(&self.validation_diagnostics);
        report_all(&mut all, copy_diagnostics(&self.structural_diagnostics));
        all
    }

    /// `true` when a diagnostic is an error.
    pub fn has_errors(&self) -> (b: bool)
        ensures
            b == any_error(self@.validation + self@.structural),
    {
        let a = has_error(&self.validation_diagnostics);
        let b = has_error(&self.structural_diagnostics);
        proof {
            any_error_concat(self@.validation, self@.structural);
        }
        a || b
    }

    pub fn text(&self, id: TextId) -> (text: Option<&LexedText>)
        ensures
            match text {
                Some(text) => id < self@.texts.len() && text@ == self@.texts[id as int],
                None => id >= self@.texts.len(),
            },
    {
        if id < self.texts.len() {
            assert(self@.texts[id as int] == self.texts@[id as int]@);
            Some(&self.texts[id])
        } else {
            None
        }
    }

    pub fn group(&self, id: GroupId) -> (group: Option<&DelimiterGroup>)
        ensures
            match group {
                Some(group) => id < self@.groups.len() && group@ == self@.groups[id as int],
                None => id >= self@.groups.len(),
            },
    {
        if id < self.groups.len() {
            assert(self@.groups[id as int] == self.groups@[id as int]@);
            Some(&self.groups[id])
        } else {
            None
        }
    }

    pub fn token(&self, index: usize) -> (token: Option<&SpannedToken>)
        ensures
            match token {
                Some(token) => index < self@.tokens.len() && token@ == self@.tokens[index as int],
                None => index >= self@.tokens.len(),
            },
    {
        if index < self.tokens.len() {
            assert(self@.tokens[index as int] == self.tokens@[index as int]@);
            Some(&self.tokens[index])
        } else {
            None
        }
    }

    /// The tokens strictly between the delimiters of a closed group.
    pub fn group_contents(&self, id: GroupId) -> (range: Option<std::ops::Range<usize>>)
        requires
            self.wf(),
        ensures
            match range {
                Some(range) => contents(self@, id as int) == Some(
                    (range.start as int, range.end as int),
                ),
                None => contents(self@, id as int) is None,
            },
    {
        if id >= self.groups.len() {
            return None;
        }
        let group = &self.groups[id];
        assert(self@.groups[id as int] == group@);
        match group.close_token {
            Some(close) => {
                assert(group_pairs(self@.tokens, self@.groups[id as int], id as int));
                Some(group.open_token + 1..close)
            },
            None => None,
        }
    }

    /// The line of a byte of the source, or of its end.
    pub fn line_at_byte(&self, byte: usize) -> (line: Option<usize>)
        requires
            self.wf(),
        ensures
            match line {
                Some(line) => byte <= text::utf8_size(self@.chars) && line == line_of(
                    self@.line_starts,
                    byte as nat,
                ),
                None => byte > text::utf8_size(self@.chars),
            },
    {
        if byte <= self.byte_len {
            Some(line_at(&self.line_starts, byte))
        } else {
            None
        }
    }

    fn scalar_at(&self, byte: usize) -> (index: Option<usize>)
        requires
            self.wf(),
        ensures
            match index {
                Some(index) => scalar_at(self@.chars, byte as nat) == Some(index as int) && index
                    <= self.chars.len(),
                None => scalar_at(self@.chars, byte as nat) is None,
            },
    {
        let ghost s = self.chars@;
        let mut i: usize = 0;
        let mut at: usize = 0;
        assert(s.take(0) =~= Seq::<char>::empty());
        loop
            invariant
                self.wf(),
                s == self.chars@,
                i <= self.chars.len(),
                at == text::utf8_size(s.take(i as int)),
                scalar_at(s, byte as nat) == scalar_from(s, i as int, byte as nat),
            decreases self.chars.len() - i,
        {
            if at == byte {
                return Some(i);
            }
            if i == self.chars.len() {
                return None;
            }
            proof {
                text::utf8_size_step(s, i as int);
                text::utf8_size_grows(s, i + 1, s.len() as int);
                assert(s.take(s.len() as int) =~= s);
            }
            at = at + utf8_len(self.chars[i]);
            i = i + 1;
        }
    }

    /// The text of a span, where both of its ends lie between scalars.
    pub fn source_slice(&self, span: ByteSpan) -> (text: Option<String>)
        requires
            self.wf(),
        ensures
            match text {
                Some(text) => slice(self@.chars, span.start as nat, span.end as nat) == Some(text@),
                None => slice(self@.chars, span.start as nat, span.end as nat) is None,
            },
    {
        match (self.scalar_at(span.start), self.scalar_at(span.end)) {
            (Some(i), Some(j)) => if i <= j {
                Some(string_of(&self.chars, i, j))
            } else {
                None
            },
            _ => None,
        }
    }

    /// The bytes of a line, without its ending.
    pub fn line_span(&self, line: usize) -> (span: Option<ByteSpan>)
        requires
            self.wf(),
        ensures
            match span {
                Some(span) => line_bytes(self@, line as int) == Some(
                    (span.start as nat, span.end as nat),
                ),
                None => line_bytes(self@, line as int) is None,
            },
    {
        if line == 0 || line > self.line_starts.len() {
            return None;
        }
        let start = self.line_starts[line - 1];
        assert(self@.line_starts[line - 1] == start);
        let ghost s = self.chars@;
        match self.scalar_at(start) {
            Some(first) => {
                let mut i: usize = first;
                let mut end: usize = start;
                proof {
                    scalar_found(s, 0, start as nat);
                }
                while i < self.chars.len() && self.chars[i] != '\r' && self.chars[i] != '\n'
                    invariant
                        self.wf(),
                        s == self.chars@,
                        first <= i <= self.chars.len(),
                        end == text::utf8_size(s.take(i as int)),
                        run_end(s, first as int, Run::Line) == run_end(s, i as int, Run::Line),
                    decreases self.chars.len() - i,
                {
                    proof {
                        text::utf8_size_step(s, i as int);
                        text::utf8_size_grows(s, i + 1, s.len() as int);
                        assert(s.take(s.len() as int) =~= s);
                    }
                    end = end + utf8_len(self.chars[i]);
                    i = i + 1;
                }
                Some(ByteSpan { start, end })
            },
            None => None,
        }
    }

    /// The text of a line, without its ending.
    pub fn source_line(&self, line: usize) -> (text: Option<String>)
        requires
            self.wf(),
        ensures
            match text {
                Some(text) => line_bytes(self@, line as int) matches Some(bytes) && slice(
                    self@.chars,
                    bytes.0,
                    bytes.1,
                ) == Some(text@),
                None => line_bytes(self@, line as int) matches Some(bytes) ==> slice(
                    self@.chars,
                    bytes.0,
                    bytes.1,
                ) is None,
            },
    {
        match self.line_span(line) {
            Some(span) => self.source_slice(span),
            None => None,
        }
    }

    /// Checks at run time what every lexed source satisfies.
    pub fn invariants_hold(&self) -> (b: bool)
        requires
            self.wf(),
        ensures
            b,
    {
        let mut i: usize = 1;
        let first = self.line_starts.len() > 0 && self.line_starts[0] == 0;
        assert(self@.line_starts[0] == self.line_starts@[0]);
        while i < self.line_starts.len()
            invariant
                self.wf(),
                1 <= i,
                first,
            decreases self.line_starts.len() - i,
        {
            assert(self@.line_starts[i as int] == self.line_starts@[i as int]);
            assert(self@.line_starts[i - 1] == self.line_starts@[i - 1]);
            if self.line_starts[i - 1] >= self.line_starts[i] || self.line_starts[i]
                > self.byte_len {
                return false;
            }
            i = i + 1;
        }
        let mut t: usize = 0;
        while t < self.tokens.len()
            invariant
                self.wf(),
            decreases self.tokens.len() - t,
        {
            assert(self@.tokens[t as int] == self.tokens@[t as int]@);
            let span = self.tokens[t].span;
            if span.start > span.end || span.end > self.byte_len {
                return false;
            }
            t = t + 1;
        }
        let mut g: usize = 0;
        while g < self.groups.len()
            invariant
                self.wf(),
            decreases self.groups.len() - g,
        {
            assert(group_pairs(self@.tokens, self@.groups[g as int], g as int));
            let group = &self.groups[g];
            assert(self@.groups[g as int] == group@);
            if group.open_token >= self.tokens.len() {
                return false;
            }
            if let Some(close) = group.close_token {
                if close >= self.tokens.len() || close <= group.open_token {
                    return false;
                }
            }
            g = g + 1;
        }
        let mut d: usize = 0;
        while d < self.declarations.len()
            invariant
                self.wf(),
            decreases self.declarations.len() - d,
        {
            assert(self@.declarations[d as int] == self.declarations@[d as int]@);
            let section = &self.declarations[d];
            if section.token_start > section.token_end || section.token_end > self.tokens.len()
                || section.span.start > section.span.end || section.span.end > self.byte_len {
                return false;
            }
            d = d + 1;
        }
        first
    }
}

proof fn scalar_found(s: Seq<char>, i: int, byte: nat)
    requires
        0 <= i <= s.len(),
    ensures
        scalar_from(s, i, byte) matches Some(j) ==> i <= j <= s.len() && text::utf8_size(s.take(j))
            == byte,
    decreases s.len() - i,
{
    if text::utf8_size(s.take(i)) != byte && i < s.len() {
        scalar_found(s, i + 1, byte);
    }
}

/// `true` when one of the diagnostics is an error.
pub open spec fn any_error(diagnostics: Seq<DiagnosticView>) -> bool {
    exists|i: int|
        0 <= i < diagnostics.len() && (#[trigger] diagnostics[i]).severity == Severity::Error
}

proof fn any_error_concat(a: Seq<DiagnosticView>, b: Seq<DiagnosticView>)
    ensures
        any_error(a + b) == (any_error(a) || any_error(b)),
{
    if any_error(a) {
        let i = choose|i: int|
            0 <= i < a.len() && (#[trigger] a[i]).severity == Severity::Error;
        assert((a + b)[i].severity == Severity::Error);
    }
    if any_error(b) {
        let i = choose|i: int|
            0 <= i < b.len() && (#[trigger] b[i]).severity == Severity::Error;
        assert((a + b)[a.len() + i].severity == Severity::Error);
    }
    if any_error(a + b) {
        let i = choose|i: int|
            0 <= i < (a + b).len() && (#[trigger] (a + b)[i]).severity == Severity::Error;
        if i < a.len() {
            assert(a[i].severity == Severity::Error);
        } else {
            assert(b[i - a.len()].severity == Severity::Error);
        }
    }
}

/// `true` when a list of diagnostics holds an error.
pub fn has_error(diagnostics: &Vec<Diagnostic>) -> (b: bool)
    ensures
        b == any_error(diagnostic::reports(diagnostics@)),
{
    let mut i: usize = 0;
    while i < diagnostics.len()
        invariant
            i <= diagnostics.len(),
            forall|j: int|
                0 <= j < i ==> (#[trigger] diagnostic::reports(diagnostics@)[j]).severity
                    != Severity::Error,
        decreases diagnostics.len() - i,
    {
        assert(diagnostic::reports(diagnostics@)[i as int] == diagnostics@[i as int]@);
        if diagnostics[i].severity == Severity::Error {
            return true;
        }
        i = i + 1;
    }
    false
}

/// Copies a list of diagnostics.
pub fn copy_diagnostics(diagnostics: &Vec<Diagnostic>) -> (copy: Vec<Diagnostic>)
    ensures
        diagnostic::reports(copy@) == diagnostic::reports(diagnostics@),
{
    let mut copy: Vec<Diagnostic> = Vec::new();
    let mut i: usize = 0;
    while i < diagnostics.len()
        invariant
            i <= diagnostics.len(),
            copy.len() == i,
            forall|j: int| 0 <= j < i ==> copy@[j]@ == diagnostics@[j]@,
        decreases diagnostics.len() - i,
    {
        let d = &diagnostics[i];
        copy.push(
            Diagnostic { severity: d.severity, line: d.line, message: d.message.clone() },
        );
        i = i + 1;
    }
    assert(diagnostic::reports(copy@) =~= diagnostic::reports(diagnostics@));
    copy
}

} // verus!
