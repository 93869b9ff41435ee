//! Tokens spell the source that they stand for.

use vstd::prelude::*;
use crate::lexical;
use crate::lexical::{Lexeme, Run, Scan, Token};
use crate::text;

verus! {

/// A range of the source is a text, and a token spans it.
pub open spec fn spans(s: Seq<char>, token: Token, i: int, j: int, spelling: Seq<char>) -> bool {
    &&& 0 <= i <= j <= s.len()
    &&& token.start == text::utf8_size(s.take(i))
    &&& token.end == text::utf8_size(s.take(j))
    &&& s.subrange(i, j) == spelling
}

pub open spec fn stands_in(s: Seq<char>, token: Token, spelling: Seq<char>) -> bool {
    exists|i: int, j: int| #[trigger] spans(s, token, i, j, spelling)
}

/// A token with a spelling of its own stands for that text of the source.
pub open spec fn spells(s: Seq<char>, token: Token) -> bool {
    match token.lexeme {
        Lexeme::Name(spelling) => stands_in(s, token, spelling),
        Lexeme::Number(spelling) => stands_in(s, token, spelling),
        Lexeme::Symbol(spelling) => stands_in(s, token, spelling),
        Lexeme::Unknown(c) => stands_in(s, token, seq![c]),
        _ => true,
    }
}

#[verifier::opaque]
pub open spec fn all_spell(s: Seq<char>, tokens: Seq<Token>) -> bool {
    forall|k: int| 0 <= k < tokens.len() ==> spells(s, #[trigger] tokens[k])
}

/// A scan stands where it says.
spec fn stands(s: Seq<char>, z: Scan) -> bool {
    z.index >= 0 && z.byte == text::utf8_size(s.take(z.index))
}

/// A scan has the tokens of another, and is not behind it.
spec fn same(s: Seq<char>, z: Scan, next: Scan) -> bool {
    next.tokens == z.tokens && next.index >= z.index && stands(s, next)
}

proof fn one_more_spells(s: Seq<char>, tokens: Seq<Token>, token: Token)
    requires
        all_spell(s, tokens),
        spells(s, token),
    ensures
        all_spell(s, tokens.push(token)),
{
    reveal(all_spell);
    let more = tokens.push(token);
    assert forall|k: int| 0 <= k < more.len() implies spells(s, #[trigger] more[k]) by {
        if k < tokens.len() {
            assert(more[k] == tokens[k]);
        }
    }
}

proof fn noting_range(s: Seq<char>, z: Scan, lo: int, hi: int)
    ensures
        lexical::noted_range(s, z, lo, hi).tokens == z.tokens,
        lexical::noted_range(s, z, lo, hi).index == z.index,
        lexical::noted_range(s, z, lo, hi).byte == z.byte,
    decreases hi - lo,
{
    if lo < hi {
        noting_range(s, z, lo, hi - 1);
    }
}

proof fn inline_rest_keeps(s: Seq<char>, z: Scan, value: Seq<char>)
    requires
        stands(s, z),
    ensures
        same(s, z, lexical::inline_rest(s, z, value).0),
    decreases s.len() - z.index,
{
    let i = z.index;
    if i < s.len() {
        if lexical::line_end(s[i]) {
            inline_rest_keeps(s, lexical::newline(s, z, false), value.push('\n'));
        } else if s[i] != '"' {
            let checked = if lexical::unsupported(s[i]) {
                lexical::noted(z, s[i])
            } else {
                z
            };
            inline_rest_keeps(s, lexical::moved(s, checked, i + 1), value.push(s[i]));
        }
    }
}

proof fn multiline_rest_keeps(s: Seq<char>, z: Scan, lines: Seq<Seq<char>>)
    requires
        stands(s, z),
    ensures
        same(s, z, lexical::multiline_rest(s, z, lines).0),
    decreases s.len() - z.index,
{
    if z.index < s.len() {
        let end = lexical::run_end(s, z.index, Run::Line);
        let first = lexical::run_end(s, z.index, Run::Spaces);
        lexical::run_end_bounds(s, z.index, Run::Line);
        lexical::run_end_bounds(s, z.index, Run::Spaces);
        noting_range(s, z, z.index, end);
        let checked = lexical::noted_range(s, z, z.index, end);
        if !(first + 2 < end && lexical::quotes(s, first)) {
            let more = if first < end && s[first] == '"' {
                lines.push(lexical::content(s, first, end))
            } else {
                lines
            };
            let after = lexical::moved(s, checked, end);
            if lexical::newline_at(s, end) {
                multiline_rest_keeps(s, lexical::newline(s, after, false), more);
            }
        }
    }
}

proof fn text_spells(s: Seq<char>, z: Scan, value: Seq<char>, start: nat, multiline: bool)
    requires
        all_spell(s, z.tokens),
        stands(s, z),
    ensures
        all_spell(s, lexical::text_emitted(z, value, start, multiline).tokens),
        stands(s, lexical::text_emitted(z, value, start, multiline)),
{
    one_more_spells(
        s,
        z.tokens,
        Token {
            lexeme: Lexeme::Text(z.texts.len()),
            start,
            end: z.byte,
            leading: z.leading,
        },
    );
}

proof fn spelling_spells(s: Seq<char>, z: Scan, lexeme: Lexeme, j: int)
    requires
        all_spell(s, z.tokens),
        stands(s, z),
        z.index <= j <= s.len(),
        match lexeme {
            Lexeme::Name(spelling) => spelling == s.subrange(z.index, j),
            Lexeme::Number(spelling) => spelling == s.subrange(z.index, j),
            Lexeme::Symbol(spelling) => spelling == s.subrange(z.index, j),
            Lexeme::Unknown(c) => seq![c] == s.subrange(z.index, j),
            _ => true,
        },
    ensures
        all_spell(s, lexical::spelled(s, z, lexeme, j).tokens),
        stands(s, lexical::spelled(s, z, lexeme, j)),
{
    let token = Token {
        lexeme,
        start: z.byte,
        end: text::utf8_size(s.take(j)),
        leading: z.leading,
    };
    assert(spans(s, token, z.index, j, s.subrange(z.index, j)));
    one_more_spells(s, z.tokens, token);
}

proof fn token_spells(s: Seq<char>, z: Scan)
    requires
        all_spell(s, z.tokens),
        stands(s, z),
        z.index < s.len(),
    ensures
        all_spell(s, lexical::token(s, z).tokens),
        stands(s, lexical::token(s, z)),
{
    let i = z.index;
    let c = s[i];
    if lexical::quotes(s, i) {
        let begun = lexical::moved(s, z, i + 3);
        let open = lexical::opened_multiline(s, begun);
        if i + 3 <= s.len() {
            lexical::run_end_bounds(s, i + 3, Run::Spaces);
        }
        multiline_rest_keeps(s, open, Seq::empty());
        let (after, lines, done) = lexical::multiline_rest(s, open, Seq::empty());
        let told = if done {
            after
        } else {
            lexical::faulted(
                after,
                lexical::line_of(after.line_starts, z.byte),
                "unterminated multiline text literal"@,
            )
        };
        text_spells(s, told, lexical::joined(lines), z.byte, true);
    } else if c == '"' {
        let begun = lexical::moved(s, z, i + 1);
        inline_rest_keeps(s, begun, Seq::empty());
        let (after, value, done) = lexical::inline_rest(s, begun, Seq::empty());
        let told = if done {
            after
        } else {
            lexical::faulted(
                after,
                lexical::line_of(after.line_starts, z.byte),
                "unterminated text literal"@,
            )
        };
        text_spells(s, told, value, z.byte, false);
    } else if let Some(delimiter) = lexical::opens(c) {
        spelling_spells(s, z, Lexeme::Open(z.groups.len(), delimiter), i + 1);
    } else if let Some(delimiter) = lexical::closes(c) {
        let symbol = Lexeme::Symbol(seq![c]);
        assert(s.subrange(i, i + 1) =~= seq![c]);
        if z.stack.len() == 0 {
            let told = lexical::faulted(z, lexical::line(z), lexical::unmatched_message(c));
            spelling_spells(s, told, symbol, i + 1);
        } else {
            let id = z.stack.last();
            let group = z.groups[id as int];
            let told = lexical::faulted(
                z,
                lexical::line(z),
                lexical::mismatched_message(c, group.delimiter),
            );
            spelling_spells(s, told, symbol, i + 1);
            spelling_spells(s, z, Lexeme::Close(id, delimiter), i + 1);
        }
    } else if lexical::number_start(s, i) {
        lexical::run_end_bounds(s, i, Run::Number);
        let end = lexical::run_end(s, i, Run::Number);
        spelling_spells(s, z, Lexeme::Number(s.subrange(i, end)), end);
    } else if lexical::name_start(s, i) {
        lexical::run_end_bounds(s, i, Run::Name);
        let end = lexical::run_end(s, i, Run::Name);
        spelling_spells(s, z, Lexeme::Name(s.subrange(i, end)), end);
    } else if lexical::symbol_char(c) {
        let end = i + lexical::symbol_len(s, i);
        spelling_spells(s, z, Lexeme::Symbol(s.subrange(i, end)), end);
    } else {
        assert(s.subrange(i, i + 1) =~= seq![c]);
        spelling_spells(s, z, Lexeme::Unknown(c), i + 1);
    }
}

proof fn scan_spells(s: Seq<char>, z: Scan)
    requires
        all_spell(s, z.tokens),
        stands(s, z),
    ensures
        all_spell(s, lexical::scanned(s, z).tokens),
    decreases s.len() - z.index,
{
    if z.index < s.len() {
        let i = z.index;
        let c = s[i];
        let next = lexical::stepped(s, z);
        if c == '#' {
            lexical::run_end_bounds(s, i, Run::Line);
            noting_range(s, z, i, lexical::run_end(s, i, Run::Line));
        } else if !lexical::line_end(c) && c != ' ' && !text::white_space(c) {
            let told = lexical::announced(z);
            if !z.emitted {
                one_more_spells(
                    s,
                    z.tokens,
                    Token {
                        lexeme: Lexeme::LineStart(z.indentation),
                        start: z.byte,
                        end: z.byte,
                        leading: z.leading,
                    },
                );
            }
            token_spells(s, told);
        }
        if z.index < next.index <= s.len() {
            scan_spells(s, next);
        }
    }
}

/// Every name, number and symbol of a source is spelled there, where its token
/// stands.
pub proof fn tokens_spell_the_source(s: Seq<char>)
    ensures
        all_spell(s, lexical::lexed(s).tokens),
{
    let z = lexical::beginning();
    assert(all_spell(s, z.tokens)) by {
        reveal(all_spell);
    }
    assert(s.take(0) =~= Seq::empty());
    scan_spells(s, z);
}

/// A text on one line holds what stands between its quotes.
pub proof fn texts_hold_what_their_quotes_enclose(s: Seq<char>, z: Scan, end: int, value: Seq<char>)
    requires
        0 <= z.index <= end < s.len(),
        s[end] == '"',
        forall|k: int|
            z.index <= k < end ==> #[trigger] s[k] != '"' && !lexical::line_end(s[k]),
    ensures
        lexical::inline_rest(s, z, value).1 == value + s.subrange(z.index, end),
        lexical::inline_rest(s, z, value).2,
        lexical::inline_rest(s, z, value).0.index == end + 1,
    decreases end - z.index,
{
    let i = z.index;
    if i == end {
        assert(s.subrange(i, end) =~= Seq::empty());
        assert(value + s.subrange(i, end) =~= value);
    } else {
        assert(s[i] != '"');
        let checked = if lexical::unsupported(s[i]) {
            lexical::noted(z, s[i])
        } else {
            z
        };
        texts_hold_what_their_quotes_enclose(
            s,
            lexical::moved(s, checked, i + 1),
            end,
            value.push(s[i]),
        );
        assert(value.push(s[i]) + s.subrange(i + 1, end) =~= value + s.subrange(i, end));
    }
}

} // verus!
