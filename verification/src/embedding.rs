//! Data in place of the marks that a source transformation left for it.

use vstd::prelude::*;
use crate::lexical;
use crate::lexical::{Lexed, LexedSource, Lexeme, SpannedToken, Token, TokenKind};
use crate::values::Value;

verus! {

/// A token is a mark.
pub open spec fn is_mark(token: Token, mark: char) -> bool {
    token.lexeme == Lexeme::Unknown(mark)
}

/// The number of marks among tokens.
pub open spec fn mark_count(tokens: Seq<Token>, mark: char) -> nat
    decreases tokens.len(),
{
    if tokens.len() == 0 {
        0
    } else {
        mark_count(tokens.drop_last(), mark) + if is_mark(tokens.last(), mark) {
            1nat
        } else {
            0
        }
    }
}

/// Tokens with data for marks, in order.
pub open spec fn filled(tokens: Seq<Token>, mark: char) -> Seq<Token>
    decreases tokens.len(),
{
    if tokens.len() == 0 {
        Seq::empty()
    } else {
        let before = filled(tokens.drop_last(), mark);
        if is_mark(tokens.last(), mark) {
            before.push(
                Token {
                    lexeme: Lexeme::Embedded(mark_count(tokens.drop_last(), mark)),
                    ..tokens.last()
                },
            )
        } else {
            before.push(tokens.last())
        }
    }
}

/// A source with data for its marks.
pub open spec fn with_data(l: Lexed, mark: char, data: Seq<Value>) -> Lexed {
    Lexed { tokens: filled(l.tokens, mark), embedded: data, ..l }
}

pub open spec fn mismatch_message() -> Seq<char> {
    "embedded data does not match its marks"@
}

/// Every token stays where it is, and only marks change.
pub proof fn filling_keeps_tokens(tokens: Seq<Token>, mark: char)
    ensures
        filled(tokens, mark).len() == tokens.len(),
        forall|i: int|
            0 <= i < tokens.len() ==> {
                let new = #[trigger] filled(tokens, mark)[i];
                &&& new.start == tokens[i].start
                &&& new.end == tokens[i].end
                &&& new.leading == tokens[i].leading
                &&& if is_mark(tokens[i], mark) {
                    new.lexeme == Lexeme::Embedded(mark_count(tokens.take(i), mark))
                } else {
                    new == tokens[i]
                }
            },
    decreases tokens.len(),
{
    if tokens.len() > 0 {
        let front = tokens.drop_last();
        filling_keeps_tokens(front, mark);
        assert forall|i: int| 0 <= i < tokens.len() implies {
            let new = #[trigger] filled(tokens, mark)[i];
            &&& new.start == tokens[i].start
            &&& new.end == tokens[i].end
            &&& new.leading == tokens[i].leading
            &&& if is_mark(tokens[i], mark) {
                new.lexeme == Lexeme::Embedded(mark_count(tokens.take(i), mark))
            } else {
                new == tokens[i]
            }
        } by {
            if i < front.len() {
                assert(filled(tokens, mark)[i] == filled(front, mark)[i]);
                assert(front[i] == tokens[i]);
                assert(front.take(i) =~= tokens.take(i));
            } else {
                assert(tokens.take(i) =~= front);
            }
        }
    }
}

/// Data for marks keeps the lexical structure sound.
pub proof fn data_stays_sound(l: Lexed, mark: char, data: Seq<Value>)
    requires
        lexical::sound(l),
    ensures
        lexical::sound(with_data(l, mark, data)),
{
    filling_keeps_tokens(l.tokens, mark);
    let m = with_data(l, mark, data);
    assert forall|i: int| 0 <= i < m.tokens.len() implies (#[trigger] m.tokens[i]).start
        <= m.tokens[i].end && m.tokens[i].end <= crate::text::utf8_size(l.chars) by {
        assert(l.tokens[i].start <= l.tokens[i].end);
    }
    assert forall|g: int| 0 <= g < m.groups.len() implies lexical::group_pairs(
        m.tokens,
        #[trigger] m.groups[g],
        g,
    ) by {
        let group = l.groups[g];
        assert(lexical::group_pairs(l.tokens, group, g));
        assert(m.tokens[group.open as int] == l.tokens[group.open as int]);
        if let Some(close) = group.close {
            assert(m.tokens[close as int] == l.tokens[close as int]);
        }
    }
    assert forall|i: int| 0 <= i < m.tokens.len() implies lexical::token_pairs(
        #[trigger] m.tokens[i],
        m.groups,
        i,
        m.texts.len() as int,
    ) by {
        assert(lexical::token_pairs(l.tokens[i], l.groups, i, l.texts.len() as int));
    }
}

impl LexedSource {
    /// Puts data in place of the marks of a source.
    pub fn replace_unknowns_with_embedded(self, mark: char, data: Vec<Value>) -> (result: Result<
        LexedSource,
        String,
    >)
        requires
            self.wf(),
        ensures
            match result {
                Ok(found) => mark_count(self@.tokens, mark) == data@.len() && found@ == with_data(
                    self@,
                    mark,
                    data@,
                ) && found.wf(),
                Err(message) => mark_count(self@.tokens, mark) != data@.len() && message@
                    == mismatch_message(),
            },
    {
        let ghost l = self@;
        let ghost all = self@.tokens;
        let mut source = self;
        let ghost given = source.tokens@;
        let mut seen: usize = 0;
        let mut k: usize = 0;
        proof {
            filling_keeps_tokens(all, mark);
            assert(all.take(0) =~= Seq::empty());
        }
        while k < source.tokens.len()
            invariant
                given.len() == all.len(),
                all == lexical::tokens_of(given),
                all == l.tokens,
                source.tokens@.len() == given.len(),
                k <= given.len(),
                seen <= k,
                seen == mark_count(all.take(k as int), mark),
                forall|i: int| k <= i < given.len() ==> source.tokens@[i] == given[i],
                forall|i: int|
                    0 <= i < k ==> (#[trigger] source.tokens@[i])@ == filled(all, mark)[i],
                filled(all, mark).len() == all.len(),
                forall|i: int|
                    0 <= i < all.len() ==> {
                        let new = #[trigger] filled(all, mark)[i];
                        &&& new.start == all[i].start
                        &&& new.end == all[i].end
                        &&& new.leading == all[i].leading
                        &&& if is_mark(all[i], mark) {
                            new.lexeme == Lexeme::Embedded(mark_count(all.take(i), mark))
                        } else {
                            new == all[i]
                        }
                    },
                source@ == (Lexed { tokens: lexical::tokens_of(source.tokens@), ..l }),
                source.byte_len == self.byte_len,
            decreases source.tokens@.len() - k,
        {
            proof {
                assert(all.take(k + 1).drop_last() =~= all.take(k as int));
                assert(all.take(k + 1).last() == given[k as int]@);
                assert(source.tokens@[k as int] == given[k as int]);
                assert(all[k as int] == given[k as int]@);
            }
            let marked = match &source.tokens[k].kind {
                TokenKind::Unknown(c) => *c == mark,
                _ => false,
            };
            if marked {
                let token = SpannedToken {
                    kind: TokenKind::Embedded(seen),
                    span: source.tokens[k].span,
                    leading: source.tokens[k].leading,
                };
                assert(token@ == filled(all, mark)[k as int]);
                source.tokens.set(k, token);
                seen = seen + 1;
            }
            k = k + 1;
        }
        assert(all.take(k as int) =~= all);
        if seen != data.len() {
            return Err("embedded data does not match its marks".to_owned());
        }
        proof {
            assert(lexical::tokens_of(source.tokens@) =~= filled(all, mark));
            data_stays_sound(l, mark, data@);
        }
        source.embedded = data;
        Ok(source)
    }
}

} // verus!
