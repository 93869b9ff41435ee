//! How paths, numbers, ranges and lines are taken apart.

use vstd::prelude::*;
use crate::ast::Declaration;
use crate::input;
use crate::layout;
use crate::layout::{Block, Member, Row};
use crate::lexical::Lexed;
use crate::number;
use crate::number_laws;
use crate::rewrite;
use crate::source;
use crate::text;

verus! {

/// Names with a dot between each two.
pub open spec fn with_dots(names: Seq<Seq<char>>) -> Seq<char>
    decreases names.len(),
{
    if names.len() == 0 {
        Seq::empty()
    } else if names.len() == 1 {
        names[0]
    } else {
        with_dots(names.drop_last()).push('.') + names.last()
    }
}

pub open spec fn without_dots(names: Seq<Seq<char>>) -> bool {
    forall|k: int| 0 <= k < names.len() ==> !(#[trigger] names[k]).contains('.')
}

/// The names of a path hold no dots, and with dots between them they are the
/// path.
pub proof fn paths_are_split_at_their_dots(path: Seq<char>)
    ensures
        with_dots(text::dotted(path)) == path,
        without_dots(text::dotted(path)),
{
    splitting(path, Seq::empty(), Seq::empty());
    let one = Seq::<Seq<char>>::empty().push(Seq::<char>::empty());
    assert(one[0] == Seq::<char>::empty());
    assert(with_dots(one) + path =~= path);
}

proof fn splitting(rest: Seq<char>, done: Seq<Seq<char>>, current: Seq<char>)
    requires
        without_dots(done),
        !current.contains('.'),
    ensures
        with_dots(text::dotted_from(rest, done, current)) == with_dots(done.push(current)) + rest,
        without_dots(text::dotted_from(rest, done, current)),
    decreases rest.len(),
{
    let all = done.push(current);
    assert(all.drop_last() =~= done);
    assert(without_dots(all)) by {
        assert forall|k: int| 0 <= k < all.len() implies !(#[trigger] all[k]).contains('.') by {
            if k < done.len() {
                assert(all[k] == done[k]);
            }
        }
    }
    if rest.len() == 0 {
        assert(with_dots(all) + rest =~= with_dots(all));
    } else if rest[0] == '.' {
        splitting(rest.skip(1), all, Seq::empty());
        let more = all.push(Seq::<char>::empty());
        assert(more.drop_last() =~= all);
        assert(with_dots(more) =~= with_dots(all).push('.'));
        assert(with_dots(all).push('.') + rest.skip(1) =~= with_dots(all) + rest);
    } else {
        let longer = current.push(rest[0]);
        assert(!longer.contains('.')) by {
            if longer.contains('.') {
                let k = choose|k: int| 0 <= k < longer.len() && longer[k] == '.';
                if k < current.len() {
                    assert(current[k] == '.');
                }
            }
        }
        splitting(rest.skip(1), done, longer);
        let next = done.push(longer);
        assert(next.drop_last() =~= done);
        assert(next.last() == longer);
        assert(all.last() == current);
        assert(with_dots(next) =~= with_dots(all).push(rest[0]));
        assert(with_dots(all).push(rest[0]) + rest.skip(1) =~= with_dots(all) + rest);
    }
}

/// The decimal spelling of a number spells that number.
pub proof fn decimal_spellings_are_read_back(n: nat)
    ensures
        number::spelled(text::decimal(n), 10) == n,
    decreases n,
{
    if n < 10 {
        number_laws::one_more_digit(Seq::empty(), text::digit_char(n), 10);
        assert(Seq::<char>::empty().push(text::digit_char(n)) =~= seq![text::digit_char(n)]);
        assert(Seq::<char>::empty().map_values(|c: char| number::digit_value(c)) =~= Seq::<
            nat,
        >::empty());
        assert(number::spelled(Seq::<char>::empty(), 10) == 0);
    } else {
        decimal_spellings_are_read_back(n / 10);
        number_laws::one_more_digit(text::decimal(n / 10), text::digit_char(n % 10), 10);
    }
}

/// The parts of a range lie between the cuts, in order, and cover everything
/// else.
pub proof fn parts_lie_between_the_cuts(lo: int, hi: int, cuts: Seq<int>)
    ensures
        ({
            let found = input::parts(lo, hi, cuts);
            &&& found.len() == cuts.len() + 1
            &&& forall|k: int|
                0 <= k < found.len() ==> (#[trigger] found[k]).0 == (if k == 0 {
                    lo
                } else {
                    cuts[k - 1] + 1
                }) && found[k].1 == (if k == cuts.len() {
                    hi
                } else {
                    cuts[k]
                })
        }),
    decreases cuts.len(),
{
    if cuts.len() > 0 {
        parts_lie_between_the_cuts(cuts[0] + 1, hi, cuts.skip(1));
        let found = input::parts(lo, hi, cuts);
        let rest = input::parts(cuts[0] + 1, hi, cuts.skip(1));
        assert forall|k: int| 0 <= k < found.len() implies (#[trigger] found[k]).0 == (if k == 0 {
            lo
        } else {
            cuts[k - 1] + 1
        }) && found[k].1 == (if k == cuts.len() {
            hi
        } else {
            cuts[k]
        }) by {
            if k > 0 {
                assert(found[k] == rest[k - 1]);
            }
        }
    }
}

/// Nothing is wrong with the language of a module exactly where its first
/// declaration names the language and no other one does.
pub proof fn the_language_comes_first(declarations: Seq<Declaration>)
    ensures
        source::language_errors(declarations).len() == 0 <==> declarations.len() > 0
            && declarations[0].kind is Language && forall|k: int|
            0 < k < declarations.len() ==> !((#[trigger] declarations[k]).kind is Language),
{
    late_languages_are_told(declarations);
}

proof fn late_languages_are_told(declarations: Seq<Declaration>)
    ensures
        source::late_languages(declarations).len() == 0 <==> forall|k: int|
            0 < k < declarations.len() ==> !((#[trigger] declarations[k]).kind is Language),
    decreases declarations.len(),
{
    if declarations.len() > 1 {
        let front = declarations.drop_last();
        late_languages_are_told(front);
        let last = declarations.len() - 1;
        assert(declarations[last] == declarations.last());
        assert forall|k: int| 0 < k < front.len() implies #[trigger] front[k] == declarations[k] by {}
        if forall|k: int| 0 < k < declarations.len() ==> !((#[trigger] declarations[k]).kind is Language) {
            assert forall|k: int| 0 < k < front.len() implies !((#[trigger] front[k]).kind is Language) by {
                assert(front[k] == declarations[k]);
            }
        }
        if source::late_languages(declarations).len() == 0 {
            assert forall|k: int| 0 < k < declarations.len() implies !((#[trigger] declarations[k]).kind is Language) by {
                if k < last {
                    assert(front[k] == declarations[k]);
                }
            }
        }
    }
}

/// A line that begins a member of a block.
pub open spec fn begins(l: Lexed, row: Row, base: nat) -> bool {
    row.indentation == base && !layout::closer_only(l, row.lo, row.hi)
}

/// A line that continues a member of a block.
pub open spec fn continues(l: Lexed, row: Row, base: nat) -> bool {
    row.indentation > base || layout::closer_only(l, row.lo, row.hi)
}

pub open spec fn covers(member: Member, row: Row) -> bool {
    member.lo <= row.lo && row.hi <= member.hi
}

/// A member begins with a line of its own.
#[verifier::opaque]
pub open spec fn has_first(l: Lexed, rows: Seq<Row>, base: nat, member: Member) -> bool {
    exists|k: int|
        0 <= k < rows.len() && begins(l, #[trigger] rows[k], base) && rows[k].lo == member.lo
            && rows[k].line == member.line
}

/// A member ends with a line.
#[verifier::opaque]
pub open spec fn has_last(rows: Seq<Row>, member: Member) -> bool {
    exists|k: int| 0 <= k < rows.len() && (#[trigger] rows[k]).hi == member.hi
}

/// A line begins a member.
#[verifier::opaque]
pub open spec fn is_first(members: Seq<Member>, row: Row) -> bool {
    exists|i: int| 0 <= i < members.len() && (#[trigger] members[i]).lo == row.lo
}

/// A line lies in a member.
#[verifier::opaque]
pub open spec fn is_covered(members: Seq<Member>, row: Row) -> bool {
    exists|i: int| 0 <= i < members.len() && covers(#[trigger] members[i], row)
}

/// A line has its place among members.
pub open spec fn belongs(l: Lexed, base: nat, members: Seq<Member>, row: Row) -> bool {
    &&& begins(l, row, base) || continues(l, row, base)
    &&& begins(l, row, base) ==> is_first(members, row)
    &&& is_covered(members, row)
}

/// Members are what lines form: each begins with a line of its own, each line
/// that begins one does so, and every line lies in one.
#[verifier::opaque]
pub open spec fn form(l: Lexed, rows: Seq<Row>, base: nat, members: Seq<Member>) -> bool {
    &&& forall|k: int| 0 <= k < rows.len() ==> belongs(l, base, members, #[trigger] rows[k])
    &&& forall|i: int|
        0 <= i < members.len() ==> has_first(l, rows, base, #[trigger] members[i]) && has_last(
            rows,
            members[i],
        )
}

proof fn more_rows(l: Lexed, rows: Seq<Row>, base: nat, member: Member, row: Row)
    ensures
        has_first(l, rows, base, member) ==> has_first(l, rows.push(row), base, member),
        has_last(rows, member) ==> has_last(rows.push(row), member),
        begins(l, row, base) && row.lo == member.lo && row.line == member.line ==> has_first(
            l,
            rows.push(row),
            base,
            member,
        ),
        row.hi == member.hi ==> has_last(rows.push(row), member),
{
    reveal(has_first);
    reveal(has_last);
    let more = rows.push(row);
    assert(more[rows.len() as int] == row);
    if has_first(l, rows, base, member) {
        let k = choose|k: int|
            0 <= k < rows.len() && begins(l, #[trigger] rows[k], base) && rows[k].lo == member.lo
                && rows[k].line == member.line;
        assert(more[k] == rows[k]);
    }
    if has_last(rows, member) {
        let k = choose|k: int| 0 <= k < rows.len() && (#[trigger] rows[k]).hi == member.hi;
        assert(more[k] == rows[k]);
    }
}

/// Members that reach at least as far.
spec fn wider(members: Seq<Member>, next: Seq<Member>) -> bool {
    &&& members.len() <= next.len()
    &&& forall|i: int|
        0 <= i < members.len() ==> (#[trigger] next[i]).lo == members[i].lo && next[i].hi
            >= members[i].hi
}

proof fn wider_members(l: Lexed, base: nat, members: Seq<Member>, next: Seq<Member>, row: Row)
    requires
        wider(members, next),
        belongs(l, base, members, row),
    ensures
        belongs(l, base, next, row),
{
    reveal(is_first);
    reveal(is_covered);
    let i = choose|i: int| 0 <= i < members.len() && covers(#[trigger] members[i], row);
    assert(next[i].lo == members[i].lo);
    assert(covers(next[i], row));
    if begins(l, row, base) {
        let j = choose|j: int| 0 <= j < members.len() && (#[trigger] members[j]).lo == row.lo;
        assert(next[j].lo == members[j].lo);
    }
}

/// The lines that a block takes, and the line that ends it: the first that is
/// less indented and holds more than closing delimiters.
pub open spec fn takes(
    l: Lexed,
    rows: Seq<Row>,
    base: nat,
    hi: int,
    block: Block,
    n: int,
) -> bool {
    &&& 0 <= n <= rows.len()
    &&& form(l, rows.take(n), base, block.members)
    &&& match block.boundary {
        None => n == rows.len() && block.end == hi,
        Some(row) => n < rows.len() && row == rows[n] && block.end == row.start
            && row.indentation < base && !layout::closer_only(l, row.lo, row.hi),
    }
}

proof fn gathering(
    l: Lexed,
    all: Seq<Row>,
    n: int,
    base: nat,
    members: Seq<Member>,
    lo: int,
    hi: int,
)
    requires
        0 <= n <= all.len(),
        layout::rows_within(all, lo, hi),
        form(l, all.take(n), base, members),
        members.len() > 0 ==> n > 0 && members.last().hi == all[n - 1].hi && members.last().lo
            <= all[n - 1].lo,
    ensures
        layout::gathered(l, all.skip(n), base, members, hi) matches Ok(block) ==> exists|m: int|
            #[trigger] takes(l, all, base, hi, block, m),
    decreases all.len() - n,
{
    let rows = all.skip(n);
    let found = layout::gathered(l, rows, base, members, hi);
    if rows.len() == 0 {
        if let Ok(block) = found {
            assert(takes(l, all, base, hi, block, n));
        }
    } else {
        let row = rows[0];
        assert(row == all[n]);
        assert(rows.skip(1) =~= all.skip(n + 1));
        let closers = layout::closer_only(l, row.lo, row.hi);
        let some = all.take(n);
        assert(all.take(n + 1) =~= some.push(row));
        if row.indentation < base && !closers {
            if let Ok(block) = found {
                assert(takes(l, all, base, hi, block, n));
            }
        } else if row.indentation == base && !closers {
            let own = Member { line: row.line, lo: row.lo, hi: row.hi };
            begun(l, some, base, members, row);
            gathering(l, all, n + 1, base, members.push(own), lo, hi);
        } else if members.len() > 0 {
            let last = members.last();
            let own = Member { hi: row.hi, ..last };
            assert(all[n - 1].hi <= all[n].start);
            continued(l, some, base, members, row);
            gathering(l, all, n + 1, base, members.drop_last().push(own), lo, hi);
        }
    }
}

proof fn begun(l: Lexed, rows: Seq<Row>, base: nat, members: Seq<Member>, row: Row)
    requires
        form(l, rows, base, members),
        begins(l, row, base),
    ensures
        form(
            l,
            rows.push(row),
            base,
            members.push(Member { line: row.line, lo: row.lo, hi: row.hi }),
        ),
{
    reveal(form);
    let own = Member { line: row.line, lo: row.lo, hi: row.hi };
    let more = rows.push(row);
    let next = members.push(own);
    assert(wider(members, next));
    assert forall|k: int| 0 <= k < more.len() implies belongs(l, base, next, #[trigger] more[k]) by {
        if k < rows.len() {
            assert(more[k] == rows[k]);
            wider_members(l, base, members, next, rows[k]);
        } else {
            reveal(is_first);
            reveal(is_covered);
            assert(next[members.len() as int] == own);
            assert(covers(own, row));
        }
    }
    assert forall|i: int| 0 <= i < next.len() implies has_first(l, more, base, #[trigger] next[i])
        && has_last(more, next[i]) by {
        more_rows(l, rows, base, next[i], row);
        if i < members.len() {
            assert(next[i] == members[i]);
        }
    }
}

proof fn continued(l: Lexed, rows: Seq<Row>, base: nat, members: Seq<Member>, row: Row)
    requires
        form(l, rows, base, members),
        members.len() > 0,
        !begins(l, row, base),
        continues(l, row, base),
        members.last().hi <= row.hi,
        members.last().lo <= row.lo,
    ensures
        form(
            l,
            rows.push(row),
            base,
            members.drop_last().push(Member { hi: row.hi, ..members.last() }),
        ),
{
    reveal(form);
    let last = members.last();
    let own = Member { hi: row.hi, ..last };
    let more = rows.push(row);
    let next = members.drop_last().push(own);
    let m = members.len() - 1;
    assert(members[m] == last);
    assert(wider(members, next));
    assert forall|k: int| 0 <= k < more.len() implies belongs(l, base, next, #[trigger] more[k]) by {
        if k < rows.len() {
            assert(more[k] == rows[k]);
            wider_members(l, base, members, next, rows[k]);
        } else {
            reveal(is_covered);
            assert(next[m] == own);
            assert(covers(own, row));
        }
    }
    assert forall|i: int| 0 <= i < next.len() implies has_first(l, more, base, #[trigger] next[i])
        && has_last(more, next[i]) by {
        more_rows(l, rows, base, next[i], row);
        more_rows(l, rows, base, members[i], row);
        assert(has_first(l, rows, base, members[i]));
        if i < m {
            assert(next[i] == members[i]);
        } else {
            same_first(l, rows, base, last, own);
        }
    }
}

proof fn same_first(l: Lexed, rows: Seq<Row>, base: nat, a: Member, b: Member)
    requires
        has_first(l, rows, base, a),
        a.lo == b.lo,
        a.line == b.line,
    ensures
        has_first(l, rows, base, b),
{
    reveal(has_first);
}

/// The members of a block are what its lines form: a line at the indentation of
/// the block begins a member, deeper lines and lines of closing delimiters
/// continue it, and the first other line ends the block.
pub proof fn blocks_are_formed_by_indentation(
    l: Lexed,
    rows: Seq<Row>,
    base: nat,
    lo: int,
    hi: int,
    block: Block,
)
    requires
        layout::rows_within(rows, lo, hi),
        layout::gathered(l, rows, base, Seq::empty(), hi) == Ok::<Block, (nat, Seq<char>)>(block),
    ensures
        exists|n: int| #[trigger] takes(l, rows, base, hi, block, n),
{
    assert(rows.skip(0) =~= rows);
    assert(rows.take(0) =~= Seq::empty());
    assert(form(l, rows.take(0), base, Seq::empty())) by {
        reveal(form);
    }
    gathering(l, rows, 0, base, Seq::empty(), lo, hi);
}

/// Line ends of texts in a row are those of each.
pub proof fn line_ends_add(a: Seq<char>, b: Seq<char>)
    ensures
        rewrite::line_ends(a + b) == rewrite::line_ends(a) + rewrite::line_ends(b),
    decreases b.len(),
{
    if b.len() == 0 {
        assert(a + b =~= a);
    } else {
        assert((a + b).drop_last() =~= a + b.drop_last());
        line_ends_add(a, b.drop_last());
    }
}

/// A column counts the bytes of its line: it starts again behind a line end.
pub proof fn columns_start_again_behind_line_ends(a: Seq<char>, b: Seq<char>)
    requires
        !b.contains('\n'),
    ensures
        rewrite::column_after(a.push('\n') + b) == text::utf8_size(b),
        rewrite::line_ends(a.push('\n') + b) == rewrite::line_ends(a) + 1,
    decreases b.len(),
{
    let whole = a.push('\n') + b;
    if b.len() == 0 {
        assert(whole =~= a.push('\n'));
        assert(whole.drop_last() =~= a);
    } else {
        let front = b.drop_last();
        assert(b[b.len() - 1] == b.last());
        assert(!front.contains('\n')) by {
            if front.contains('\n') {
                let k = choose|k: int| 0 <= k < front.len() && front[k] == '\n';
                assert(b[k] == '\n');
            }
        }
        columns_start_again_behind_line_ends(a, front);
        assert(whole.drop_last() =~= a.push('\n') + front);
        assert(whole.last() == b.last());
        text::utf8_size_step(b, b.len() - 1);
        assert(b.take(b.len() - 1) =~= front);
        assert(b.take(b.len() as int) =~= b);
    }
}

} // verus!
