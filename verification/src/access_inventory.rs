//! Counts of the boundaries between compiler and runtime in a source text.

use vstd::prelude::*;
use crate::text::chars_of;

verus! {

/// How often a source crosses each kind of boundary.
#[derive(Debug, Clone, Copy, PartialEq, Eq, Structural)]
pub struct BoundaryCounts {
    pub runtime_roots: usize,
    pub public_roots: usize,
    pub access_regions: usize,
    pub projections: usize,
}

/// A word stands at a position of a text.
pub open spec fn stands_at(text: Seq<char>, word: Seq<char>, at: int) -> bool {
    &&& 0 <= at
    &&& at + word.len() <= text.len()
    &&& text.subrange(at, at + word.len()) == word
}

/// The number of times a word occurs from a position on, from left to right
/// and without overlap.
pub open spec fn occurrences(text: Seq<char>, word: Seq<char>, at: int) -> nat
    decreases text.len() - at,
{
    if at >= text.len() || word.len() == 0 {
        0
    } else if stands_at(text, word, at) {
        1 + occurrences(text, word, at + word.len())
    } else {
        occurrences(text, word, at + 1)
    }
}

/// A word occurs at most once for each scalar that is left.
pub proof fn occurrences_fit(text: Seq<char>, word: Seq<char>, at: int)
    requires
        0 <= at <= text.len(),
    ensures
        occurrences(text, word, at) <= text.len() - at,
        word.len() >= 2 ==> 2 * occurrences(text, word, at) <= text.len() - at,
    decreases text.len() - at,
{
    if at < text.len() && word.len() > 0 {
        if stands_at(text, word, at) {
            occurrences_fit(text, word, at + word.len());
        } else {
            occurrences_fit(text, word, at + 1);
        }
    }
}

fn matches_at(text: &Vec<char>, word: &Vec<char>, at: usize) -> (b: bool)
    requires
        at <= text.len(),
    ensures
        b == stands_at(text@, word@, at as int),
{
    if word.len() > text.len() - at {
        return false;
    }
    let mut k: usize = 0;
    while k < word.len()
        invariant
            k <= word.len(),
            at + word.len() <= text.len(),
            forall|i: int| 0 <= i < k ==> text@[at + i] == word@[i],
        decreases word.len() - k,
    {
        if text[at + k] != word[k] {
            assert(text@.subrange(at as int, at + word@.len())[k as int] != word@[k as int]);
            return false;
        }
        k = k + 1;
    }
    assert(text@.subrange(at as int, at + word@.len()) =~= word@);
    true
}

fn count(text: &Vec<char>, word: &str) -> (n: usize)
    ensures
        n == occurrences(text@, word@, 0),
{
    let word_chars = chars_of(word);
    let mut n: usize = 0;
    let mut at: usize = 0;
    if word_chars.len() == 0 {
        return 0;
    }
    while at < text.len()
        invariant
            word_chars@ == word@,
            word_chars.len() > 0,
            at <= text.len(),
            n <= at,
            n + occurrences(text@, word@, at as int) == occurrences(text@, word@, 0),
        decreases text.len() - at,
    {
        if matches_at(text, &word_chars, at) {
            at = at + word_chars.len();
            n = n + 1;
        } else {
            at = at + 1;
        }
    }
    n
}

impl BoundaryCounts {
    pub fn new(counts: [usize; 4]) -> (found: Self)
        ensures
            found.runtime_roots == counts@[0],
            found.public_roots == counts@[1],
            found.access_regions == counts@[2],
            found.projections == counts@[3],
    {
        BoundaryCounts {
            runtime_roots: counts[0],
            public_roots: counts[1],
            access_regions: counts[2],
            projections: counts[3],
        }
    }

    pub fn in_source(source: &str) -> (found: Self)
        ensures
            found.runtime_roots == occurrences(source@, "RuntimeValueRoot"@, 0),
            found.public_roots == occurrences(source@, "PublicValue"@, 0),
            found.access_regions == occurrences(source@, "with_runtime_value_access"@, 0),
            found.projections == occurrences(source@, ".as_core()"@, 0) + occurrences(
                source@,
                ".into_core()"@,
                0,
            ),
    {
        let text = chars_of(source);
        proof {
            reveal_strlit(".as_core()");
            reveal_strlit(".into_core()");
            occurrences_fit(source@, ".as_core()"@, 0);
            occurrences_fit(source@, ".into_core()"@, 0);
            assert(".as_core()"@.len() >= 2);
            assert(".into_core()"@.len() >= 2);
            assert(source@.len() <= usize::MAX) by {
                assert(text@.len() == text.len());
            }
        }
        BoundaryCounts {
            runtime_roots: count(&text, "RuntimeValueRoot"),
            public_roots: count(&text, "PublicValue"),
            access_regions: count(&text, "with_runtime_value_access"),
            projections: count(&text, ".as_core()") + count(&text, ".into_core()"),
        }
    }
}

} // verus!
