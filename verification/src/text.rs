//! Character-level helpers shared by the front end.

use vstd::prelude::*;


verus! {

/// Appends one scalar to a string, as `String::push` documents.
pub assume_specification[ String::push ](s: &mut String, c: char)
    ensures
        final(s)@ == old(s)@.push(c),
;

/// `true` exactly when both strings hold the same scalars.
pub(crate) fn same_text(left: &str, right: &str) -> (same: bool)
    ensures
        same == (left@ == right@),
{
    let a = chars_of(left);
    let b = chars_of(right);
    if a.len() != b.len() {
        return false;
    }
    let mut k: usize = 0;
    while k < a.len()
        invariant
            a@ == left@,
            b@ == right@,
            a.len() == b.len(),
            k <= a.len(),
            forall|j: int| 0 <= j < k ==> left@[j] == right@[j],
        decreases a.len() - k,
    {
        if a[k] != b[k] {
            assert(left@[k as int] != right@[k as int]);
            return false;
        }
        k = k + 1;
    }
    assert(left@ =~= right@);
    true
}

/// The decimal spelling of a natural number, without leading zeros.
pub open spec fn decimal(n: nat) -> Seq<char>
    decreases n,
{
    if n < 10 {
        seq![digit_char(n)]
    } else {
        decimal(n / 10).push(digit_char(n % 10))
    }
}

/// The scalar that spells one digit of a base up to sixteen, in upper case.
pub open spec fn digit_char(d: nat) -> char {
    if d < 10 {
        ('0' as nat + d) as char
    } else {
        ('A' as nat + (d - 10)) as char
    }
}

/// The upper-case hexadecimal spelling of `n` in `width` digits.
pub open spec fn hexadecimal(n: nat, width: nat) -> Seq<char>
    decreases width,
{
    if width == 0 {
        Seq::empty()
    } else {
        hexadecimal(n / 16, (width - 1) as nat).push(digit_char(n % 16))
    }
}

/// Spells one digit of a base up to sixteen.
pub fn digit(d: u32) -> (c: char)
    requires
        d < 16,
    ensures
        c == digit_char(d as nat),
{
    match d {
        0 => '0',
        1 => '1',
        2 => '2',
        3 => '3',
        4 => '4',
        5 => '5',
        6 => '6',
        7 => '7',
        8 => '8',
        9 => '9',
        10 => 'A',
        11 => 'B',
        12 => 'C',
        13 => 'D',
        14 => 'E',
        _ => 'F',
    }
}

/// Appends the decimal spelling of `n`.
pub fn push_decimal(out: &mut String, n: usize)
    ensures
        final(out)@ == old(out)@ + decimal(n as nat),
    decreases n,
{
    if n < 10 {
        out.push(digit(n as u32));
        assert(out@ =~= old(out)@ + seq![digit_char(n as nat)]);
    } else {
        push_decimal(out, n / 10);
        let ghost before = out@;
        out.push(digit((n % 10) as u32));
        assert(out@ =~= old(out)@ + decimal(n as nat / 10).push(digit_char(n as nat % 10)));
    }
}

/// Appends the hexadecimal spelling of `n` in `width` digits.
pub fn push_hexadecimal(out: &mut String, n: u32, width: u32)
    ensures
        final(out)@ == old(out)@ + hexadecimal(n as nat, width as nat),
    decreases width,
{
    if width == 0 {
        assert(out@ =~= old(out)@ + Seq::<char>::empty());
    } else {
        push_hexadecimal(out, n / 16, width - 1);
        out.push(digit(n % 16));
        assert(out@ =~= old(out)@ + hexadecimal(n as nat / 16, (width - 1) as nat).push(
            digit_char(n as nat % 16),
        ));
    }
}

/// The scalars of a string as a vector.
pub fn chars_of(text: &str) -> (chars: Vec<char>)
    ensures
        chars@ == text@,
{
    let mut chars: Vec<char> = Vec::new();
    for c in iter: text.chars()
        invariant
            chars@ == iter.seq().take(iter.index()),
            iter.seq() == text@,
    {
        chars.push(c);
        assert(iter.seq().take(iter.index() + 1) =~= iter.seq().take(iter.index()).push(c));
    }
    assert(chars@ =~= text@);
    chars
}

/// The string spelled by the scalars `lo..hi`.
pub fn string_of(chars: &Vec<char>, lo: usize, hi: usize) -> (text: String)
    requires
        lo <= hi <= chars.len(),
    ensures
        text@ == chars@.subrange(lo as int, hi as int),
{
    let mut text = String::new();
    let mut i: usize = lo;
    assert(text@ =~= chars@.subrange(lo as int, lo as int));
    while i < hi
        invariant
            lo <= i <= hi <= chars.len(),
            text@ == chars@.subrange(lo as int, i as int),
        decreases hi - i,
    {
        text.push(chars[i]);
        i = i + 1;
        assert(text@ =~= chars@.subrange(lo as int, i as int));
    }
    text
}

/// The dot-separated components of a path spelling, in order.
pub open spec fn dotted(text: Seq<char>) -> Seq<Seq<char>> {
    dotted_from(text, Seq::empty(), Seq::empty())
}

/// The components of `done`, then those of `current` continued by `text`.
pub open spec fn dotted_from(
    text: Seq<char>,
    done: Seq<Seq<char>>,
    current: Seq<char>,
) -> Seq<Seq<char>>
    decreases text.len(),
{
    if text.len() == 0 {
        done.push(current)
    } else if text[0] == '.' {
        dotted_from(text.skip(1), done.push(current), Seq::empty())
    } else {
        dotted_from(text.skip(1), done, current.push(text[0]))
    }
}

/// The views of a vector of strings.
pub open spec fn texts(items: Seq<String>) -> Seq<Seq<char>> {
    items.map_values(|s: String| s@)
}

/// Splits a path spelling at its dots.
pub fn split_dots(path: &str) -> (parts: Vec<String>)
    ensures
        texts(parts@) == dotted(path@),
        parts.len() >= 1,
{
    let chars = chars_of(path);
    let mut parts: Vec<String> = Vec::new();
    let mut current = String::new();
    let mut i: usize = 0;
    assert(path@.skip(0) =~= path@);
    assert(texts(parts@) =~= Seq::<Seq<char>>::empty());
    while i < chars.len()
        invariant
            i <= chars.len(),
            chars@ == path@,
            dotted_from(path@.skip(i as int), texts(parts@), current@) == dotted(path@),
        decreases chars.len() - i,
    {
        let c = chars[i];
        assert(path@.skip(i as int).skip(1) =~= path@.skip(i + 1));
        let ghost before = parts@;
        if c == '.' {
            let done = current;
            current = String::new();
            parts.push(done);
            assert(texts(parts@) =~= texts(before).push(done@));
        } else {
            current.push(c);
        }
        i = i + 1;
    }
    let ghost before = parts@;
    let ghost last = current@;
    parts.push(current);
    assert(texts(parts@) =~= texts(before).push(last));
    parts
}

/// `true` when a scalar has the Unicode `White_Space` property.
pub open spec fn white_space(c: char) -> bool {
    ||| '\u{9}' <= c <= '\u{d}'
    ||| c == ' '
    ||| c == '\u{85}'
    ||| c == '\u{a0}'
    ||| c == '\u{1680}'
    ||| '\u{2000}' <= c <= '\u{200a}'
    ||| c == '\u{2028}'
    ||| c == '\u{2029}'
    ||| c == '\u{202f}'
    ||| c == '\u{205f}'
    ||| c == '\u{3000}'
}

/// Decides the Unicode `White_Space` property.
pub fn is_white_space(c: char) -> (b: bool)
    ensures
        b == white_space(c),
{
    ('\u{9}' <= c && c <= '\u{d}') || c == ' ' || c == '\u{85}' || c == '\u{a0}' || c == '\u{1680}'
        || ('\u{2000}' <= c && c <= '\u{200a}') || c == '\u{2028}' || c == '\u{2029}' || c
        == '\u{202f}' || c == '\u{205f}' || c == '\u{3000}'
}

pub open spec fn ascii_digit(c: char) -> bool {
    '0' <= c <= '9'
}

pub open spec fn ascii_letter(c: char) -> bool {
    ||| 'a' <= c <= 'z'
    ||| 'A' <= c <= 'Z'
}

pub fn is_ascii_digit(c: char) -> (b: bool)
    ensures
        b == ascii_digit(c),
{
    '0' <= c && c <= '9'
}

pub fn is_ascii_letter(c: char) -> (b: bool)
    ensures
        b == ascii_letter(c),
{
    ('a' <= c && c <= 'z') || ('A' <= c && c <= 'Z')
}

/// The number of bytes that spell a scalar in UTF-8.
pub open spec fn utf8_width(c: char) -> nat {
    if (c as nat) < 0x80 {
        1
    } else if (c as nat) < 0x800 {
        2
    } else if (c as nat) < 0x10000 {
        3
    } else {
        4
    }
}

pub fn utf8_len(c: char) -> (n: usize)
    ensures
        n == utf8_width(c),
        1 <= n <= 4,
{
    let code: u32 = c as u32;
    if code < 0x80 {
        1
    } else if code < 0x800 {
        2
    } else if code < 0x10000 {
        3
    } else {
        4
    }
}

/// The number of bytes that spell a sequence of scalars in UTF-8.
pub open spec fn utf8_size(chars: Seq<char>) -> nat
    decreases chars.len(),
{
    if chars.len() == 0 {
        0
    } else {
        utf8_size(chars.drop_last()) + utf8_width(chars.last())
    }
}

/// The first scalar contributes its width.
proof fn utf8_size_front(chars: Seq<char>)
    requires
        chars.len() > 0,
    ensures
        utf8_size(chars) == utf8_width(chars[0]) + utf8_size(chars.drop_first()),
    decreases chars.len(),
{
    if chars.len() > 1 {
        utf8_size_front(chars.drop_last());
        assert(chars.drop_last().drop_first() =~= chars.drop_first().drop_last());
    } else {
        assert(chars.drop_last() =~= Seq::<char>::empty());
        assert(chars.drop_first() =~= Seq::<char>::empty());
    }
}

proof fn scalar_size(c: char)
    ensures
        vstd::utf8::encode_scalar(c as u32).len() == utf8_width(c),
{
    vstd::utf8::char_is_scalar(c);
}

/// The size of a text is the length of its UTF-8 encoding.
pub proof fn utf8_size_is_encoded_length(chars: Seq<char>)
    ensures
        utf8_size(chars) == vstd::utf8::encode_utf8(chars).len(),
    decreases chars.len(),
{
    if chars.len() > 0 {
        utf8_size_front(chars);
        utf8_size_is_encoded_length(chars.drop_first());
        scalar_size(chars[0]);
    }
}

/// A longer beginning of a text is a larger one.
pub proof fn utf8_size_grows(chars: Seq<char>, i: int, j: int)
    requires
        0 <= i <= j <= chars.len(),
    ensures
        utf8_size(chars.take(i)) + (j - i) <= utf8_size(chars.take(j)),
    decreases j - i,
{
    if i < j {
        utf8_size_grows(chars, i, j - 1);
        assert(chars.take(j).drop_last() =~= chars.take(j - 1));
    }
}

/// One more scalar adds its width.
pub proof fn utf8_size_step(chars: Seq<char>, i: int)
    requires
        0 <= i < chars.len(),
    ensures
        utf8_size(chars.take(i + 1)) == utf8_size(chars.take(i)) + utf8_width(chars[i]),
{
    assert(chars.take(i + 1).drop_last() =~= chars.take(i));
}

/// The number of bytes that spell a text.
pub fn byte_len(text: &str) -> (n: usize)
    ensures
        n == utf8_size(text@),
{
    proof {
        utf8_size_is_encoded_length(text@);
    }
    text.as_bytes().len()
}

/// Appends a text.
pub fn push_text(out: &mut String, more: &str)
    ensures
        final(out)@ == old(out)@ + more@,
{
    out.append(more);
}

/// What `std::str::Utf8Error` says of bytes that are not UTF-8.
pub uninterp spec fn utf8_error(bytes: Seq<u8>) -> Seq<char>;

/// The text that bytes spell, by `std::str::from_utf8`. It is `Ok` exactly
/// when the bytes are valid UTF-8, and then the text is the one that they
/// encode. Otherwise it is what the error displays, which depends on the bytes
/// alone.
#[verifier::external_body]
pub(crate) fn utf8_text(bytes: &[u8]) -> (found: Result<String, String>)
    ensures
        match found {
            Ok(text) => vstd::utf8::encode_utf8(text@) == bytes@,
            Err(message) => !vstd::utf8::valid_utf8(bytes@) && message@ == utf8_error(bytes@),
        },
{
    match std::str::from_utf8(bytes) {
        Ok(text) => Ok(text.to_owned()),
        Err(error) => Err(error.to_string()),
    }
}

} // verus!
