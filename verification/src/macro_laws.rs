//! What macros read, what their searches report, and what their output is.

use vstd::prelude::*;
use crate::embedding;
use crate::lexical::{Lexeme, Token};
use crate::macro_host;
use crate::macro_io;
use crate::macro_io::{Cursor, MacroDelimiter, MacroInput, MacroInputElement, MacroOutput};
use crate::macro_runner;
use crate::macro_runner::Branch;
use crate::rewrite;
use crate::rewrite::Generated;
use crate::values::Value;

verus! {

/// The byte up to which an alternative read.
pub open spec fn stopped_at(branch: Branch, input: MacroInput) -> int {
    macro_io::consumed(branch.journal@.cursor, input)
}

/// The frontier of a search is where an alternative stopped, and none read
/// further.
pub proof fn the_frontier_is_the_furthest(branches: Seq<Branch>, input: MacroInput)
    requires
        branches.len() > 0,
    ensures
        exists|k: int|
            0 <= k < branches.len() && #[trigger] stopped_at(branches[k], input)
                == macro_runner::furthest(branches, input),
        forall|k: int|
            0 <= k < branches.len() ==> #[trigger] stopped_at(branches[k], input)
                <= macro_runner::furthest(branches, input),
    decreases branches.len(),
{
    let n = branches.len() - 1;
    let front = branches.drop_last();
    let all = macro_runner::furthest(branches, input);
    let last = stopped_at(branches[n], input);
    if front.len() > 0 {
        the_frontier_is_the_furthest(front, input);
        let some = macro_runner::furthest(front, input);
        let k = choose|k: int|
            0 <= k < front.len() && #[trigger] stopped_at(front[k], input) == some;
        assert(front[k] == branches[k]);
        assert forall|k: int| 0 <= k < branches.len() implies #[trigger] stopped_at(
            branches[k],
            input,
        ) <= all by {
            if k < n {
                assert(front[k] == branches[k]);
                assert(stopped_at(front[k], input) <= some);
            }
        }
        if all == some {
            assert(stopped_at(branches[k], input) == all);
        } else {
            assert(last == all);
        }
    } else {
        assert(last == all);
    }
}

/// The explanations of a failed search are those of the alternatives that
/// stopped at the frontier, and no others.
pub proof fn cases_are_those_of_the_frontier(branches: Seq<Branch>, input: MacroInput, frontier: int)
    ensures
        forall|case: Value|
            #[trigger] macro_runner::cases_at(branches, input, frontier).contains(case) <==> exists|
                k: int,
            |
                0 <= k < branches.len() && stopped_at(branches[k], input) == frontier
                    && #[trigger] branches[k].journal@.active.contains(case),
    decreases branches.len(),
{
    let all = macro_runner::cases_at(branches, input, frontier);
    if branches.len() > 0 {
        let front = branches.drop_last();
        let n = branches.len() - 1;
        let some = macro_runner::cases_at(front, input, frontier);
        let own = branches[n].journal@.active;
        cases_are_those_of_the_frontier(front, input, frontier);
        assert forall|case: Value| #[trigger] all.contains(case) <==> exists|k: int|
            0 <= k < branches.len() && stopped_at(branches[k], input) == frontier
                && #[trigger] branches[k].journal@.active.contains(case) by {
            if all.contains(case) {
                let i = choose|i: int| 0 <= i < all.len() && all[i] == case;
                if i < some.len() {
                    assert(some[i] == case);
                    assert(some.contains(case));
                    let k = choose|k: int|
                        0 <= k < front.len() && stopped_at(front[k], input) == frontier
                            && #[trigger] front[k].journal@.active.contains(case);
                    assert(branches[k].journal@.active.contains(case));
                } else {
                    assert(own[i - some.len()] == case);
                    assert(branches[n].journal@.active.contains(case));
                }
            }
            if exists|k: int|
                0 <= k < branches.len() && stopped_at(branches[k], input) == frontier
                    && #[trigger] branches[k].journal@.active.contains(case) {
                let k = choose|k: int|
                    0 <= k < branches.len() && stopped_at(branches[k], input) == frontier
                        && #[trigger] branches[k].journal@.active.contains(case);
                if k < n {
                    assert(front[k] == branches[k]);
                    assert(front[k].journal@.active.contains(case));
                    assert(some.contains(case));
                    let i = choose|i: int| 0 <= i < some.len() && some[i] == case;
                    assert(all[i] == case);
                } else {
                    let i = choose|i: int| 0 <= i < own.len() && own[i] == case;
                    assert(all[some.len() + i] == case);
                }
            }
        }
    } else {
        assert(all =~= Seq::empty());
    }
}

proof fn successes_are_found(branches: Seq<Branch>)
    ensures
        forall|k: int|
            0 <= k < branches.len() && branches[k].value is Some ==> #[trigger] macro_runner::successes(
                branches,
            ).contains(k),
        forall|i: int, j: int|
            0 <= i < j < macro_runner::successes(branches).len()
                ==> #[trigger] macro_runner::successes(branches)[i]
                < #[trigger] macro_runner::successes(branches)[j],
    decreases branches.len(),
{
    macro_runner::successes_hold_values(branches);
    if branches.len() > 0 {
        let front = branches.drop_last();
        let some = macro_runner::successes(front);
        let all = macro_runner::successes(branches);
        successes_are_found(front);
        macro_runner::successes_hold_values(front);
        assert forall|k: int| 0 <= k < branches.len() && branches[k].value is Some implies #[trigger]
            all.contains(k) by {
            if k < front.len() {
                assert(front[k] == branches[k]);
                assert(some.contains(k));
                let i = choose|i: int| 0 <= i < some.len() && some[i] == k;
                assert(all[i] == k);
            } else {
                assert(all[all.len() - 1] == k);
            }
        }
    }
}

/// A search selects the alternative that succeeded where there is only one.
pub proof fn the_only_success_is_selected(branches: Seq<Branch>)
    ensures
        forall|k: int|
            macro_runner::selected(branches) == Some(k) <==> 0 <= k < branches.len()
                && #[trigger] branches[k].value is Some && forall|j: int|
                0 <= j < branches.len() && j != k ==> #[trigger] branches[j].value is None,
{
    let all = macro_runner::successes(branches);
    macro_runner::successes_hold_values(branches);
    successes_are_found(branches);
    assert forall|k: int|
        macro_runner::selected(branches) == Some(k) <==> 0 <= k < branches.len()
            && #[trigger] branches[k].value is Some && forall|j: int|
            0 <= j < branches.len() && j != k ==> #[trigger] branches[j].value is None by {
        if macro_runner::selected(branches) == Some(k) {
            assert(all[0] == k);
            assert forall|j: int| 0 <= j < branches.len() && j != k implies #[trigger] branches[j].value is None by {
                if branches[j].value is Some {
                    assert(all.contains(j));
                }
            }
        }
        if 0 <= k < branches.len() && branches[k].value is Some && (forall|j: int|
            0 <= j < branches.len() && j != k ==> #[trigger] branches[j].value is None) {
            assert(all.contains(k));
            assert forall|i: int| 0 <= i < all.len() implies all[i] == k by {
                assert(branches[all[i]].value is Some);
            }
            if all.len() > 1 {
                assert(all[0] < all[1]);
            }
        }
    }
}

/// The text of an element, none for data.
pub open spec fn plain(element: MacroInputElement) -> Seq<char> {
    match macro_io::text_of(element) {
        Some(text) => text,
        None => Seq::empty(),
    }
}

/// The text of elements in a row.
pub open spec fn joined(elements: Seq<MacroInputElement>) -> Seq<char>
    decreases elements.len(),
{
    if elements.len() == 0 {
        Seq::empty()
    } else {
        joined(elements.drop_last()) + plain(elements.last())
    }
}

/// The text of an input before a cursor.
pub open spec fn text_before(c: Cursor, input: MacroInput) -> Seq<char> {
    joined(input.elements@.take(c.element)) + if c.offset > 0 {
        plain(input.elements@[c.element]).take(c.offset)
    } else {
        Seq::empty()
    }
}

/// The groups that elements open and do not close, where they nest.
pub open spec fn groups(elements: Seq<MacroInputElement>) -> Option<Seq<MacroDelimiter>>
    decreases elements.len(),
{
    if elements.len() == 0 {
        Some(Seq::empty())
    } else {
        match groups(elements.drop_last()) {
            None => None,
            Some(open) => match macro_io::delimiter_of(elements.last()) {
                None => Some(open),
                Some((delimiter, true)) => Some(open.push(delimiter)),
                Some((delimiter, false)) => if open.len() > 0 && open.last() == delimiter {
                    Some(open.drop_last())
                } else {
                    None
                },
            },
        }
    }
}

/// A cursor that stands in an input, with the groups open that it has read.
pub open spec fn stands(c: Cursor, input: MacroInput) -> bool {
    &&& 0 <= c.element <= input.elements@.len()
    &&& c.offset >= 0
    &&& c.offset > 0 ==> c.element < input.elements@.len() && c.offset < plain(
        input.elements@[c.element],
    ).len()
    &&& groups(input.elements@.take(c.element)) == Some(c.delimiters)
}

/// Reading a text consumes that text of the input, and opens and closes the
/// groups in it.
pub proof fn reading_consumes_what_was_expected(
    c: Cursor,
    input: MacroInput,
    expected: Seq<char>,
    next: Cursor,
)
    requires
        stands(c, input),
        macro_io::read(c, input, expected) == Some(next),
    ensures
        stands(next, input),
        text_before(next, input) == text_before(c, input) + expected,
        next.layouts == c.layouts,
    decreases expected.len(),
{
    if expected.len() == 0 {
        assert(text_before(c, input) + expected =~= text_before(c, input));
    } else {
        let elements = input.elements@;
        let element = elements[c.element];
        let text = plain(element);
        let step = macro_io::moved(c, input, c.offset + 1)->0;
        assert(text[c.offset] == expected[0]);
        let done = joined(elements.take(c.element));
        assert(text.take(c.offset + 1) =~= text.take(c.offset).push(expected[0]));
        if c.offset + 1 == text.len() {
            assert(text.take(c.offset + 1) =~= text);
            let more = elements.take(c.element + 1);
            assert(more.drop_last() =~= elements.take(c.element));
            assert(more.last() == element);
        }
        assert(text.take(0) =~= Seq::empty());
        assert(text_before(step, input) =~= text_before(c, input).push(expected[0]));
        assert(stands(step, input));
        reading_consumes_what_was_expected(step, input, expected.skip(1), next);
        assert(text_before(c, input).push(expected[0]) + expected.skip(1) =~= text_before(c, input)
            + expected);
    }
}

/// Layouts nest in an output.
pub open spec fn nests(outputs: Seq<MacroOutput>) -> bool {
    forall|k: int| 0 <= k <= outputs.len() ==> macro_host::depth(#[trigger] outputs.take(k)) >= 0
}

/// Every layout of an output is indented by two more than the one around it,
/// and the root as the macro was.
pub proof fn layouts_are_indented_by_two(outputs: Seq<MacroOutput>, indentation: nat)
    requires
        nests(outputs),
    ensures
        ({
            let g = rewrite::generated_all(outputs, indentation);
            &&& g.indentation.len() == macro_host::depth(outputs) + 1
            &&& forall|k: int|
                0 <= k < g.indentation.len() ==> #[trigger] g.indentation[k] == indentation + 2 * k
        }),
    decreases outputs.len(),
{
    if outputs.len() > 0 {
        let front = outputs.drop_last();
        assert(outputs.take(outputs.len() as int) =~= outputs);
        assert(nests(front)) by {
            assert forall|k: int| 0 <= k <= front.len() implies macro_host::depth(
                #[trigger] front.take(k),
            ) >= 0 by {
                assert(front.take(k) =~= outputs.take(k));
            }
        }
        layouts_are_indented_by_two(front, indentation);
        assert(macro_host::depth(outputs.take(outputs.len() as int)) >= 0);
    }
}

/// Text without spaces and line ends.
pub open spec fn solid(text: Seq<char>) -> Seq<char>
    decreases text.len(),
{
    if text.len() == 0 {
        Seq::empty()
    } else {
        let before = solid(text.drop_last());
        if text.last() == ' ' || text.last() == '\n' {
            before
        } else {
            before.push(text.last())
        }
    }
}

proof fn solid_add(a: Seq<char>, b: Seq<char>)
    ensures
        solid(a + b) == solid(a) + solid(b),
    decreases b.len(),
{
    if b.len() == 0 {
        assert(a + b =~= a);
        assert(solid(a) + solid(b) =~= solid(a));
    } else {
        assert((a + b).drop_last() =~= a + b.drop_last());
        solid_add(a, b.drop_last());
        assert(solid(a + b) =~= solid(a) + solid(b));
    }
}

proof fn spaces_are_not_solid(n: nat)
    ensures
        solid(rewrite::spaces(n)) == Seq::<char>::empty(),
    decreases n,
{
    if n > 0 {
        assert(rewrite::spaces(n).drop_last() =~= rewrite::spaces((n - 1) as nat));
        spaces_are_not_solid((n - 1) as nat);
    }
}

/// What outputs write besides layout: text, and a marker for each value.
pub open spec fn contents(outputs: Seq<MacroOutput>) -> Seq<char>
    decreases outputs.len(),
{
    if outputs.len() == 0 {
        Seq::empty()
    } else {
        contents(outputs.drop_last()) + match outputs.last() {
            MacroOutput::Text(text) => text@,
            MacroOutput::Data(_) => seq!['\u{1a}'],
            _ => Seq::empty(),
        }
    }
}

/// The values that outputs write.
pub open spec fn data(outputs: Seq<MacroOutput>) -> Seq<Value>
    decreases outputs.len(),
{
    if outputs.len() == 0 {
        Seq::empty()
    } else {
        let before = data(outputs.drop_last());
        match outputs.last() {
            MacroOutput::Data(value) => before.push(value),
            _ => before,
        }
    }
}

proof fn lines_are_not_solid(g: Generated)
    ensures
        solid(rewrite::on_new_line(g)) == solid(g.text),
        solid(rewrite::resumed(g).text) == solid(g.text),
{
    let broken = g.text.push('\n');
    assert(broken.drop_last() =~= g.text);
    spaces_are_not_solid(rewrite::innermost(g));
    solid_add(broken, rewrite::spaces(rewrite::innermost(g)));
    assert(solid(broken) + Seq::<char>::empty() =~= solid(broken));
}

/// Generated text is what the outputs write, in order, with nothing but spaces
/// and line ends added, and so are its values.
pub proof fn outputs_are_generated_in_order(outputs: Seq<MacroOutput>, indentation: nat)
    ensures
        solid(rewrite::generated_all(outputs, indentation).text) == solid(contents(outputs)),
        rewrite::generated_all(outputs, indentation).embedded == data(outputs),
    decreases outputs.len(),
{
    if outputs.len() > 0 {
        let front = outputs.drop_last();
        outputs_are_generated_in_order(front, indentation);
        let g = rewrite::generated_all(front, indentation);
        lines_are_not_solid(g);
        let r = rewrite::resumed(g);
        let before = contents(front);
        match outputs.last() {
            MacroOutput::Text(text) => {
                solid_add(r.text, text@);
                solid_add(before, text@);
            },
            MacroOutput::Data(_) => {
                assert(r.text.push('\u{1a}') =~= r.text + seq!['\u{1a}']);
                solid_add(r.text, seq!['\u{1a}']);
                solid_add(before, seq!['\u{1a}']);
            },
            MacroOutput::Separator => {
                assert(r.text.push(' ').drop_last() =~= r.text);
                assert(before + Seq::<char>::empty() =~= before);
            },
            _ => {
                assert(before + Seq::<char>::empty() =~= before);
            },
        }
    }
}

/// The value that the marker at a place of a text stands for.
pub open spec fn stands_for(text: Seq<char>, embedded: Seq<Value>, at: int) -> Value {
    embedded[rewrite::markers(text.take(at)) as int]
}

/// A splice replaces a range of a text by what was generated. The markers
/// before the range, in what was generated and after the range stand for the
/// values that they stood for.
pub proof fn splicing_keeps_the_rest(
    text: Seq<char>,
    embedded: Seq<Value>,
    start: nat,
    end: nat,
    new: Generated,
    after: (Seq<char>, Seq<Value>),
)
    requires
        rewrite::markers(text) == embedded.len(),
        rewrite::markers(new.text) == new.embedded.len(),
        rewrite::spliced(text, embedded, start, end, new) == Ok::<(Seq<char>, Seq<Value>), Seq<char>>(
            after,
        ),
    ensures
        ({
            let i = macro_io::boundary(text, 0, start)->0;
            let j = macro_io::boundary(text, 0, end)->0;
            let n = new.text.len();
            &&& 0 <= i <= j <= text.len()
            &&& after.0 == text.take(i) + new.text + text.skip(j)
            &&& rewrite::markers(after.0) == after.1.len()
            &&& forall|p: int|
                0 <= p < i && text[p] == '\u{1a}' ==> #[trigger] stands_for(after.0, after.1, p)
                    == stands_for(text, embedded, p)
            &&& forall|p: int|
                0 <= p < n && new.text[p] == '\u{1a}' ==> stands_for(after.0, after.1, i + p)
                    == #[trigger] stands_for(new.text, new.embedded, p)
            &&& forall|p: int|
                j <= p < text.len() && text[p] == '\u{1a}' ==> stands_for(
                    after.0,
                    after.1,
                    i + n + (p - j),
                ) == #[trigger] stands_for(text, embedded, p)
        }),
{
    let i = macro_io::boundary(text, 0, start)->0;
    let j = macro_io::boundary(text, 0, end)->0;
    let n = new.text.len() as int;
    rewrite::boundaries_ascend(text, start, end);
    macro_io::boundary_bounds(text, 0, start);
    macro_io::boundary_bounds(text, 0, end);
    let a = rewrite::markers(text.take(i)) as int;
    let b = rewrite::markers(text.take(j)) as int;
    let whole = after.0;
    let found = after.1;
    let head = text.take(i);
    let tail = text.skip(j);
    assert(text =~= text.take(j) + tail);
    rewrite::markers_add(text.take(j), tail);
    assert(text.take(j) =~= head + text.subrange(i, j));
    rewrite::markers_add(head, text.subrange(i, j));
    rewrite::markers_add(head, new.text);
    rewrite::markers_add(head + new.text, tail);
    assert(a <= b <= embedded.len());
    let c = rewrite::markers(new.text) as int;
    assert forall|p: int| 0 <= p < i && text[p] == '\u{1a}' implies #[trigger] stands_for(
        whole,
        found,
        p,
    ) == stands_for(text, embedded, p) by {
        assert(whole.take(p) =~= text.take(p));
        marker_counts(head, p);
        assert(head.take(p) =~= text.take(p));
    }
    assert forall|p: int| 0 <= p < n && new.text[p] == '\u{1a}' implies stands_for(
        whole,
        found,
        i + p,
    ) == #[trigger] stands_for(new.text, new.embedded, p) by {
        assert(whole.take(i + p) =~= head + new.text.take(p));
        rewrite::markers_add(head, new.text.take(p));
        marker_counts(new.text, p);
    }
    assert forall|p: int| j <= p < text.len() && text[p] == '\u{1a}' implies stands_for(
        whole,
        found,
        i + n + (p - j),
    ) == #[trigger] stands_for(text, embedded, p) by {
        let q = p - j;
        assert(whole.take(i + n + q) =~= head + new.text + tail.take(q));
        rewrite::markers_add(head + new.text, tail.take(q));
        assert(text.take(p) =~= text.take(j) + tail.take(q));
        rewrite::markers_add(text.take(j), tail.take(q));
        marker_counts(tail, q);
    }
}

/// A marker counts after those before it.
proof fn marker_counts(text: Seq<char>, p: int)
    requires
        0 <= p < text.len(),
        text[p] == '\u{1a}',
    ensures
        rewrite::markers(text.take(p)) < rewrite::markers(text),
{
    assert(text =~= text.take(p + 1) + text.skip(p + 1));
    rewrite::markers_add(text.take(p + 1), text.skip(p + 1));
    assert(text.take(p + 1).drop_last() =~= text.take(p));
    assert(text.take(p + 1).last() == text[p]);
}

/// The number of the datum that a token stands for.
pub open spec fn datum(token: Token) -> Option<nat> {
    match token.lexeme {
        Lexeme::Embedded(k) => Some(k),
        _ => None,
    }
}

proof fn marks_before_are_fewer(tokens: Seq<Token>, mark: char, p: int, q: int)
    requires
        0 <= p <= q <= tokens.len(),
    ensures
        embedding::mark_count(tokens.take(p), mark) <= embedding::mark_count(tokens.take(q), mark),
        p < q && embedding::is_mark(tokens[p], mark) ==> embedding::mark_count(
            tokens.take(p),
            mark,
        ) < embedding::mark_count(tokens.take(q), mark),
    decreases q - p,
{
    if p < q {
        marks_before_are_fewer(tokens, mark, p, q - 1);
        assert(tokens.take(q).drop_last() =~= tokens.take(q - 1));
        assert(tokens.take(q).last() == tokens[q - 1]);
    }
}

proof fn marks_are_numbered(tokens: Seq<Token>, mark: char, p: int)
    requires
        0 <= p < tokens.len(),
        embedding::is_mark(tokens[p], mark),
    ensures
        embedding::filled(tokens, mark).len() == tokens.len(),
        datum(embedding::filled(tokens, mark)[p]) == Some(
            embedding::mark_count(tokens.take(p), mark),
        ),
    decreases tokens.len(),
{
    let front = tokens.drop_last();
    filled_as_long(front, mark);
    if p < front.len() {
        assert(front[p] == tokens[p]);
        marks_are_numbered(front, mark, p);
        assert(front.take(p) =~= tokens.take(p));
    } else {
        assert(tokens.take(p) =~= front);
    }
}

proof fn filled_as_long(tokens: Seq<Token>, mark: char)
    ensures
        embedding::filled(tokens, mark).len() == tokens.len(),
    decreases tokens.len(),
{
    if tokens.len() > 0 {
        filled_as_long(tokens.drop_last(), mark);
    }
}

/// Marks take their data in order: an earlier mark takes an earlier datum, and
/// each takes one of as many as there are marks.
pub proof fn marks_take_their_data_in_order(tokens: Seq<Token>, mark: char, p: int, q: int)
    requires
        0 <= p < q < tokens.len(),
        embedding::is_mark(tokens[p], mark),
        embedding::is_mark(tokens[q], mark),
    ensures
        ({
            let first = datum(embedding::filled(tokens, mark)[p]);
            let second = datum(embedding::filled(tokens, mark)[q]);
            &&& first is Some
            &&& second is Some
            &&& first->0 < second->0 < embedding::mark_count(tokens, mark)
        }),
{
    marks_are_numbered(tokens, mark, p);
    marks_are_numbered(tokens, mark, q);
    marks_before_are_fewer(tokens, mark, p, q);
    marks_before_are_fewer(tokens, mark, q, tokens.len() as int);
    assert(tokens.take(tokens.len() as int) =~= tokens);
}

} // verus!
