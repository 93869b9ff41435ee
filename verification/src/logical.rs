//! Macros in declarations: where they stand, which item they belong to, and
//! what of it they can read.

use vstd::prelude::*;
use crate::diagnostic;
use crate::diagnostic::{Diagnostic, DiagnosticView};
use crate::grammar;
use crate::input;
use crate::input::TokenView;
use crate::keywords;
use crate::keywords::g0_layout_introducer;
use crate::layout;
use crate::layout::{LayoutBase, LayoutView, Member};
use crate::lexical;
use crate::lexical::{Delimiter, Lexed, LexedSource, Lexeme, TokenKind};
use crate::macro_io::{
    MacroDelimiter, MacroInput, MacroInputElement, MacroInputKind, MacroInputLayout,
};
use crate::notation::{column, kind_at};
use crate::number;
use crate::number::Number;
use crate::rewrite;
use crate::rewrite::{DeclarationMacroWork, OriginalMacroInvocation, EMBEDDED_MARKER};
use crate::text;
use crate::values;
use crate::values::{Form, Shape, Value};

verus! {

/// A macro where it stands now, with what it can read.
#[derive(Debug, PartialEq, Eq)]
pub struct MacroInvocation {
    pub path: Vec<String>,
    pub start: usize,
    /// The macro begins its item.
    pub anchor_position: bool,
    pub indentation: usize,
    pub input: MacroInput,
}

/// The names after the first of a macro, and the position after them.
pub open spec fn path_rest(l: Lexed, j: int, hi: int, path: Seq<Seq<char>>) -> Option<
    (Seq<Seq<char>>, int),
>
    decreases hi - j,
{
    if j < hi && input::is_symbol(l, j, "."@) && input::is_joint(l, j) {
        if j + 1 < hi && input::is_joint(l, j + 1) {
            match input::lexeme(l, j + 1) {
                Lexeme::Name(name) => path_rest(l, j + 2, hi, path.push(name)),
                _ => None,
            }
        } else {
            None
        }
    } else {
        Some((path, j))
    }
}

/// The names of the macro at `i`, which are joint and static, and the position
/// after them.
pub open spec fn head_path(l: Lexed, i: int, hi: int) -> Option<(Seq<Seq<char>>, int)> {
    if i + 1 < hi && input::is_joint(l, i + 1) {
        match input::lexeme(l, i + 1) {
            Lexeme::Name(name) => path_rest(l, i + 2, hi, seq![name]),
            _ => None,
        }
    } else {
        None
    }
}

fn read_head(view: TokenView<'_>, at: usize) -> (found: Option<(Vec<String>, usize)>)
    requires
        view.wf(),
        at < view.hi(),
    ensures
        match found {
            Some((path, end)) => head_path(view.l(), at as int, view.hi()) == Some(
                (text::texts(path@), end as int),
            ) && at + 2 <= end <= view.hi(),
            None => head_path(view.l(), at as int, view.hi()) is None,
        },
{
    let ghost l = view.l();
    let ghost hi = view.hi();
    let end = view.range.end;
    if at + 1 >= end || !view.is_joint(at + 1) {
        return None;
    }
    let mut path: Vec<String> = Vec::new();
    match kind_at(view, at + 1) {
        TokenKind::Name(name) => {
            path.push(name.clone());
            assert(text::texts(path@) =~= seq![name@]);
        },
        _ => {
            return None;
        },
    }
    let mut j: usize = at + 2;
    while j < end && view.is_symbol(j, ".") && view.is_joint(j)
        invariant
            view.wf(),
            l == view.l(),
            hi == view.hi(),
            end == hi,
            at + 2 <= j <= end,
            head_path(l, at as int, hi) == path_rest(l, j as int, hi, text::texts(path@)),
        decreases end - j,
    {
        if j + 1 >= end || !view.is_joint(j + 1) {
            return None;
        }
        match kind_at(view, j + 1) {
            TokenKind::Name(name) => {
                let ghost before = path@;
                path.push(name.clone());
                assert(text::texts(path@) =~= text::texts(before).push(name@));
            },
            _ => {
                return None;
            },
        }
        j = j + 2;
    }
    Some((path, j))
}

pub open spec fn head_message() -> Seq<char> {
    "macro invocation requires a joint static name path after `@`"@
}

fn macro_head_error(view: TokenView<'_>, at: usize) -> (error: Diagnostic)
    requires
        view.wf(),
        at < view.l().tokens.len(),
    ensures
        error@ == diagnostic::error_at(input::line(view.l(), at as int), head_message()),
{
    Diagnostic::error(
        view.line(at),
        "macro invocation requires a joint static name path after `@`",
    )
}

/// A macro in a declaration.
pub struct Call {
    pub path: Seq<Seq<char>>,
    pub start: nat,
    pub line: nat,
}

/// The macros of a range, or the line of the first whose names are wrong.
pub open spec fn calls(l: Lexed, i: int, hi: int) -> Result<Seq<Call>, nat>
    decreases hi - i,
{
    if i >= hi {
        Ok(Seq::empty())
    } else if !input::is_symbol(l, i, "@"@) {
        calls(l, i + 1, hi)
    } else {
        match head_path(l, i, hi) {
            None => Err(input::line(l, i)),
            Some((path, j)) => if !(i < j <= hi) {
                Err(input::line(l, i))
            } else {
                match calls(l, j, hi) {
                    Err(line) => Err(line),
                    Ok(rest) => Ok(
                        seq![Call { path, start: l.tokens[i].start, line: input::line(l, i) }]
                            + rest,
                    ),
                }
            },
        }
    }
}

/// Macros found so far, and those that follow.
pub open spec fn followed(done: Seq<Call>, rest: Result<Seq<Call>, nat>) -> Result<Seq<Call>, nat> {
    match rest {
        Ok(rest) => Ok(done + rest),
        Err(line) => Err(line),
    }
}

pub open spec fn call_of(invocation: OriginalMacroInvocation) -> Call {
    Call {
        path: text::texts(invocation.path@),
        start: invocation.start as nat,
        line: invocation.line as nat,
    }
}

pub open spec fn calls_of(invocations: Seq<OriginalMacroInvocation>) -> Seq<Call> {
    invocations.map_values(|invocation: OriginalMacroInvocation| call_of(invocation))
}

/// Macros are numbered in the order of the source.
pub open spec fn numbered(invocations: Seq<OriginalMacroInvocation>) -> bool {
    forall|k: int| 0 <= k < invocations.len() ==> (#[trigger] invocations[k]).id == k
}

fn collect_macro_invocations(view: TokenView<'_>) -> (result: Result<
    Vec<OriginalMacroInvocation>,
    Diagnostic,
>)
    requires
        view.wf(),
    ensures
        match result {
            Ok(found) => calls(view.l(), view.lo(), view.hi()) == Ok::<Seq<Call>, nat>(
                calls_of(found@),
            ) && numbered(found@),
            Err(error) => calls(view.l(), view.lo(), view.hi()) matches Err(line) && error@
                == diagnostic::error_at(line, head_message()),
        },
{
    let ghost l = view.l();
    let ghost hi = view.hi();
    let ghost all = calls(l, view.lo(), hi);
    let mut found: Vec<OriginalMacroInvocation> = Vec::new();
    let mut i = view.range.start;
    assert(followed(calls_of(found@), all) == all) by {
        assert(calls_of(found@) =~= Seq::empty());
        if let Ok(rest) = all {
            assert(calls_of(found@) + rest =~= rest);
        }
    }
    while i < view.range.end
        invariant
            view.wf(),
            l == view.l(),
            hi == view.hi(),
            all == calls(l, view.lo(), hi),
            view.lo() <= i <= hi,
            numbered(found@),
            all == followed(calls_of(found@), calls(l, i as int, hi)),
        decreases hi - i,
    {
        if !view.is_symbol(i, "@") {
            i = i + 1;
        } else {
            match read_head(view, i) {
                None => {
                    return Err(macro_head_error(view, i));
                },
                Some((path, end)) => {
                    let start = view.source.tokens[i].span.start;
                    assert(l.tokens[i as int] == view.source.tokens@[i as int]@);
                    let next = OriginalMacroInvocation {
                        id: found.len(),
                        path,
                        start,
                        line: view.line(i),
                    };
                    let ghost before = found@;
                    found.push(next);
                    proof {
                        assert(calls_of(found@) =~= calls_of(before).push(call_of(next)));
                        if let Ok(rest) = calls(l, end as int, hi) {
                            assert(calls_of(before) + (seq![call_of(next)] + rest) =~= calls_of(
                                found@,
                            ) + rest);
                        }
                    }
                    i = end;
                },
            }
        }
    }
    assert(calls_of(found@) + Seq::empty() =~= calls_of(found@));
    Ok(found)
}

/// The macros of a declaration, by their place in it, the last first.
pub open spec fn placed(found: Seq<Call>, start: nat) -> Seq<Call> {
    found.map_values(|call: Call| call_from(call, start)).reverse()
}

pub open spec fn call_from(call: Call, start: nat) -> Call {
    Call {
        start: if call.start >= start {
            (call.start - start) as nat
        } else {
            0
        },
        ..call
    }
}

/// The text of a declaration.
pub open spec fn declaration_text(l: Lexed, k: int) -> Seq<char> {
    match lexical::slice(l.chars, l.declarations[k].start, l.declarations[k].end) {
        Some(text) => text,
        None => Seq::empty(),
    }
}

/// The last first, by their place in a declaration.
fn reversed(found: Vec<OriginalMacroInvocation>, start: usize) -> (placed_calls: Vec<
    OriginalMacroInvocation,
>)
    ensures
        calls_of(placed_calls@) == placed(calls_of(found@), start as nat),
        placed_calls@.len() == found@.len(),
        forall|k: int|
            0 <= k < found@.len() ==> (#[trigger] placed_calls@[k]).id == found@[found@.len() - 1
                - k].id,
{
    let ghost given = found@;
    let ghost all = placed(calls_of(given), start as nat);
    let mut rest = found;
    let mut list: Vec<OriginalMacroInvocation> = Vec::new();
    assert(calls_of(list@) =~= all.take(0));
    while rest.len() > 0
        invariant
            rest@.len() + list@.len() == given.len(),
            rest@ == given.take(rest@.len() as int),
            all == placed(calls_of(given), start as nat),
            all.len() == given.len(),
            calls_of(list@) == all.take(list@.len() as int),
            forall|k: int|
                0 <= k < list@.len() ==> (#[trigger] list@[k]).id == given[given.len() - 1 - k].id,
        decreases rest.len(),
    {
        let ghost n = list@.len() as int;
        let ghost held = list@;
        let ghost had = rest@;
        match rest.pop() {
            Some(last) => {
                assert(had.last() == given[given.len() - 1 - n]);
                assert(rest@ =~= given.take(rest@.len() as int));
                let place = if last.start >= start {
                    last.start - start
                } else {
                    0
                };
                let next = OriginalMacroInvocation {
                    id: last.id,
                    path: last.path,
                    start: place,
                    line: last.line,
                };
                list.push(next);
                proof {
                    assert(calls_of(list@) =~= calls_of(held).push(call_of(next)));
                    assert(calls_of(given)[given.len() - 1 - n] == call_of(last));
                    assert(all[n] == call_from(call_of(last), start as nat));
                    assert(all.take(n + 1) =~= all.take(n).push(all[n]));
                }
            },
            None => {
                return list;
            },
        }
    }
    assert(all.take(all.len() as int) =~= all);
    list
}

impl DeclarationMacroWork {
    /// The work on a declaration that holds macros.
    pub fn from_original(source: &LexedSource, declaration: usize) -> (result: Result<
        Option<Self>,
        Diagnostic,
    >)
        requires
            source.wf(),
            declaration < source@.declarations.len(),
        ensures
            ({
                let section = source@.declarations[declaration as int];
                match calls(source@, section.first as int, section.last as int) {
                    Err(line) => result matches Err(error) && error@ == diagnostic::error_at(
                        line,
                        head_message(),
                    ),
                    Ok(found) => result matches Ok(work) && if found.len() == 0 {
                        work is None
                    } else {
                        work matches Some(work) && work.line == section.line && calls_of(
                            work.invocations@,
                        ) == placed(found, section.start) && work.text@ == declaration_text(
                            source@,
                            declaration as int,
                        ) && work.embedded_values@.len() == 0
                    },
                }
            }),
    {
        let view = TokenView::declaration(source, declaration);
        let found = match collect_macro_invocations(view) {
            Ok(found) => found,
            Err(error) => {
                return Err(error);
            },
        };
        assert(calls_of(found@).len() == found.len());
        if found.len() == 0 {
            return Ok(None);
        }
        assert(source@.declarations[declaration as int] == source.declarations@[declaration as int]@);
        let section = &source.declarations[declaration];
        let text = match source.source_slice(section.span) {
            Some(text) => text,
            None => String::new(),
        };
        assert(text@ =~= declaration_text(source@, declaration as int));
        Ok(
            Some(
                DeclarationMacroWork {
                    line: section.line,
                    invocations: reversed(found, section.span.start),
                    text,
                    embedded_values: Vec::new(),
                },
            ),
        )
    }
}

/// The innermost of the first groups that a position lies in.
pub open spec fn enclosing(l: Lexed, at: int, n: int) -> Option<int>
    decreases n,
{
    if n <= 0 {
        None
    } else {
        let before = enclosing(l, at, n - 1);
        let group = l.groups[n - 1];
        match group.close {
            Some(close) => if group.open < at && at < close && (before is None || close - group.open
                < l.groups[before->0].close->0 - l.groups[before->0].open) {
                Some(n - 1)
            } else {
                before
            },
            None => before,
        }
    }
}

fn enclosing_group(view: TokenView<'_>, at: usize) -> (found: Option<(usize, usize)>)
    requires
        view.wf(),
    ensures
        match found {
            Some((open, close)) => enclosing(view.l(), at as int, view.l().groups.len() as int)
                matches Some(g) && view.l().groups[g].open == open && view.l().groups[g].close
                == Some(close as nat) && open < at && at < close && close
                < view.l().tokens.len(),
            None => enclosing(view.l(), at as int, view.l().groups.len() as int) is None,
        },
{
    let ghost l = view.l();
    let source = view.source;
    let mut found: Option<(usize, usize)> = None;
    let mut k: usize = 0;
    assert(l.groups.len() == source.groups.len());
    while k < source.groups.len()
        invariant
            view.wf(),
            l == view.l(),
            source == view.source,
            k <= source.groups.len(),
            l.groups.len() == source.groups.len(),
            match found {
                Some((open, close)) => enclosing(l, at as int, k as int) matches Some(g)
                    && l.groups[g].open == open && l.groups[g].close == Some(close as nat) && open
                    < at && at < close && close < l.tokens.len(),
                None => enclosing(l, at as int, k as int) is None,
            },
        decreases source.groups.len() - k,
    {
        let group = &source.groups[k];
        assert(l.groups[k as int] == group@);
        assert(lexical::group_pairs(l.tokens, l.groups[k as int], k as int));
        if let Some(close) = group.close_token {
            if group.open_token < at && at < close {
                let inner = match found {
                    Some((open, end)) => close - group.open_token < end - open,
                    None => true,
                };
                if inner {
                    found = Some((group.open_token, close));
                }
            }
        }
        k = k + 1;
    }
    found
}

/// The item that a macro belongs to.
pub struct Item {
    pub lo: int,
    pub hi: int,
    pub anchored: bool,
    pub indentation: nat,
}

/// The last token before a position that is no line start.
pub open spec fn last_token(l: Lexed, lo: int, at: int) -> Option<int>
    decreases at - lo,
{
    if at <= lo {
        None
    } else if !input::blank(l, at - 1) {
        Some(at - 1)
    } else {
        last_token(l, lo, at - 1)
    }
}

/// A macro follows a word that begins a layout.
pub open spec fn hanging_layout(l: Lexed, lo: int, at: int) -> bool {
    !input::is_joint(l, at) && match last_token(l, lo, at) {
        Some(k) => match input::lexeme(l, k) {
            Lexeme::Name(word) => keywords::introduces_layout(word),
            _ => false,
        },
        None => false,
    }
}

fn hanging_layout_follows(view: TokenView<'_>, lo: usize, at: usize) -> (b: bool)
    requires
        view.wf(),
        lo <= at < view.l().tokens.len(),
    ensures
        b == hanging_layout(view.l(), lo as int, at as int),
{
    if view.is_joint(at) {
        return false;
    }
    let ghost l = view.l();
    let mut k = at;
    while k > lo
        invariant
            view.wf(),
            l == view.l(),
            lo <= k <= at < l.tokens.len(),
            last_token(l, lo as int, at as int) == last_token(l, lo as int, k as int),
            !input::is_joint(l, at as int),
        decreases k,
    {
        if !view.is_blank(k - 1) {
            return match kind_at(view, k - 1) {
                TokenKind::Name(word) => g0_layout_introducer(word.as_str()),
                _ => false,
            };
        }
        k = k - 1;
    }
    false
}

/// The start of the line of a position.
pub open spec fn line_begin(l: Lexed, lo: int, at: int) -> int
    decreases at - lo,
{
    if at <= lo || input::blank(l, at - 1) {
        at
    } else {
        line_begin(l, lo, at - 1)
    }
}

/// The first member that holds a position.
pub open spec fn member_with(members: Seq<Member>, k: int, at: int) -> Option<int>
    decreases members.len() - k,
{
    if k >= members.len() {
        None
    } else if members[k].lo <= at && at < members[k].hi {
        Some(k)
    } else {
        member_with(members, k + 1, at)
    }
}

/// The layout of a range that begins in a line.
pub open spec fn hung(l: Lexed, at: int) -> LayoutBase {
    LayoutBase::Hanging(grammar::column(l, at) as usize)
}

/// The members of the block at a position.
pub open spec fn members_at(l: Lexed, at: int, hi: int) -> (Seq<Member>, nat, int) {
    match layout::block(l, at, hi, hung(l, at)) {
        Ok(block) => (block.members, block.anchor, block.end),
        Err(_) => (Seq::empty(), 0, hi),
    }
}

/// The item of the macro at `at` in the range of its declaration.
pub open spec fn item_of(l: Lexed, lo: int, hi: int, at: int) -> Item {
    let group = enclosing(l, at, l.groups.len() as int);
    let a = match group {
        Some(g) => l.groups[g].open as int + 1,
        None => lo,
    };
    let b = match group {
        Some(g) => l.groups[g].close->0 as int,
        None => hi,
    };
    let (members, anchor, _) = members_at(l, at, b);
    if hanging_layout(l, a, at) && members.len() > 0 && members[0].lo == at {
        Item { lo: at, hi: members[0].hi, anchored: true, indentation: anchor }
    } else {
        let s = line_begin(l, a, at);
        let (rows, _, _) = members_at(l, s, b);
        let (first, last) = match member_with(rows, 0, at) {
            Some(k) => (rows[k].lo, rows[k].hi),
            None => (a, b),
        };
        Item {
            lo: first,
            hi: last,
            anchored: at == first && group is None,
            indentation: match input::indentation_of(l, first) {
                Some(n) => n,
                None => 0,
            },
        }
    }
}

/// The members of the block at a position, its anchor and its end.
fn block_at(view: TokenView<'_>, at: usize, hi: usize) -> (found: (
    Vec<layout::LayoutStatement>,
    usize,
    usize,
))
    requires
        view.wf(),
        at < hi <= view.l().tokens.len(),
    ensures
        (layout::members_of(found.0@), found.1 as nat, found.2 as int) == members_at(
            view.l(),
            at as int,
            hi as int,
        ),
        forall|k: int|
            0 <= k < found.0@.len() ==> at <= (#[trigger] found.0@[k]).tokens.start
                <= found.0@[k].tokens.end && found.0@[k].tokens.end <= hi,
        at <= found.2 <= hi,
{
    let range = TokenView {
        source: view.source,
        range: input::TokenRange { start: at, end: hi },
    };
    let base = LayoutBase::Hanging(column(view, at));
    proof {
        layout::block_bounds(view.l(), at as int, hi as int, base);
    }
    match LayoutView::new(range).block(base) {
        Ok(block) => {
            let ghost members = layout::members_of(block.statements@);
            assert forall|k: int| 0 <= k < block.statements@.len() implies at <= (
            #[trigger] block.statements@[k]).tokens.start <= block.statements@[k].tokens.end
                && block.statements@[k].tokens.end <= hi by {
                assert(members[k] == block.statements@[k]@);
            }
            (block.statements, block.anchor, block.end)
        },
        Err(_) => {
            let none: Vec<layout::LayoutStatement> = Vec::new();
            assert(layout::members_of(none@) =~= Seq::empty());
            (none, 0, hi)
        },
    }
}

struct MacroLogicalItem {
    lo: usize,
    hi: usize,
    anchor_position: bool,
    indentation: usize,
}

/// The item of a macro.
fn logical_item(view: TokenView<'_>, at: usize) -> (item: MacroLogicalItem)
    requires
        view.wf(),
        view.lo() <= at < view.hi(),
    ensures
        (Item {
            lo: item.lo as int,
            hi: item.hi as int,
            anchored: item.anchor_position,
            indentation: item.indentation as nat,
        }) == item_of(view.l(), view.lo(), view.hi(), at as int),
        item.hi <= view.l().tokens.len(),
{
    let ghost l = view.l();
    let (a, b, grouped) = match enclosing_group(view, at) {
        Some((open, close)) => (open + 1, close, true),
        None => (view.range.start, view.range.end, false),
    };
    if hanging_layout_follows(view, a, at) {
        let (members, anchor, _) = block_at(view, at, b);
        assert(layout::members_of(members@).len() == members.len());
        if members.len() > 0 {
            assert(layout::members_of(members@)[0] == members@[0]@);
            if members[0].tokens.start == at {
                return MacroLogicalItem {
                    lo: at,
                    hi: members[0].tokens.end,
                    anchor_position: true,
                    indentation: anchor,
                };
            }
        }
    }
    let mut s = at;
    while s > a && !view.is_blank(s - 1)
        invariant
            view.wf(),
            l == view.l(),
            a <= s <= at < l.tokens.len(),
            line_begin(l, a as int, at as int) == line_begin(l, a as int, s as int),
        decreases s,
    {
        s = s - 1;
    }
    let (rows, _, _) = block_at(view, s, b);
    let ghost members = layout::members_of(rows@);
    assert(members.len() == rows.len());
    let mut first = a;
    let mut last = b;
    let mut k: usize = 0;
    let mut found = false;
    while k < rows.len() && !found
        invariant
            k <= rows.len(),
            members == layout::members_of(rows@),
            members.len() == rows.len(),
            b <= l.tokens.len(),
            a <= at,
            first <= at,
            forall|i: int|
                0 <= i < rows@.len() ==> (#[trigger] rows@[i]).tokens.start
                    <= rows@[i].tokens.end && rows@[i].tokens.end <= b,
            if found {
                k < rows.len() && member_with(members, 0, at as int) == Some(k as int) && first
                    == members[k as int].lo && last == members[k as int].hi && last <= b
            } else {
                first == a && last == b && member_with(members, 0, at as int) == member_with(
                    members,
                    k as int,
                    at as int,
                )
            },
        decreases rows.len() - k, (if found { 0int } else { 1int }),
    {
        assert(members[k as int] == rows@[k as int]@);
        if rows[k].tokens.start <= at && at < rows[k].tokens.end {
            first = rows[k].tokens.start;
            last = rows[k].tokens.end;
            found = true;
        } else {
            k = k + 1;
        }
    }
    proof {
        assert(s == line_begin(l, a as int, at as int));
        assert((members, members_at(l, s as int, b as int).1, members_at(l, s as int, b as int).2)
            == members_at(l, s as int, b as int));
        if !found {
            assert(member_with(members, k as int, at as int) is None);
        }
    }
    let indentation = match view.line_indentation_at(first) {
        Some(n) => n,
        None => 0,
    };
    MacroLogicalItem {
        lo: first,
        hi: last,
        anchor_position: at == first && !grouped,
        indentation,
    }
}

/// What an element of a macro's input is.
pub enum Piece {
    Text(Seq<char>, Option<(MacroDelimiter, bool)>),
    Data(Form),
}

/// An element of a macro's input.
pub struct Element {
    pub piece: Piece,
    pub separated: bool,
    pub start: nat,
    pub end: nat,
}

pub open spec fn piece_of(kind: MacroInputKind) -> Piece {
    match kind {
        MacroInputKind::Text { text, delimiter } => Piece::Text(text@, delimiter),
        MacroInputKind::Data(value) => Piece::Data(values::value_form(value)),
    }
}

pub open spec fn element_of(element: MacroInputElement) -> Element {
    Element {
        piece: piece_of(element.kind),
        separated: element.separated,
        start: element.start as nat,
        end: element.end as nat,
    }
}

pub open spec fn elements_of(elements: Seq<MacroInputElement>) -> Seq<Element> {
    elements.map_values(|element: MacroInputElement| element_of(element))
}

pub open spec fn macro_delimiter_of(delimiter: Delimiter) -> MacroDelimiter {
    match delimiter {
        Delimiter::Parenthesis => MacroDelimiter::Parenthesis,
        Delimiter::Bracket => MacroDelimiter::Bracket,
        Delimiter::Brace => MacroDelimiter::Brace,
    }
}

pub fn macro_delimiter(delimiter: Delimiter) -> (found: MacroDelimiter)
    ensures
        found == macro_delimiter_of(delimiter),
{
    match delimiter {
        Delimiter::Parenthesis => MacroDelimiter::Parenthesis,
        Delimiter::Bracket => MacroDelimiter::Bracket,
        Delimiter::Brace => MacroDelimiter::Brace,
    }
}

pub open spec fn delimiter_spelling(delimiter: Delimiter, opening: bool) -> Seq<char> {
    match (delimiter, opening) {
        (Delimiter::Parenthesis, true) => "("@,
        (Delimiter::Parenthesis, false) => ")"@,
        (Delimiter::Bracket, true) => "["@,
        (Delimiter::Bracket, false) => "]"@,
        (Delimiter::Brace, true) => "{"@,
        (Delimiter::Brace, false) => "}"@,
    }
}

pub fn delimiter_text(delimiter: Delimiter, opening: bool) -> (text: &'static str)
    ensures
        text@ == delimiter_spelling(delimiter, opening),
{
    match (delimiter, opening) {
        (Delimiter::Parenthesis, true) => "(",
        (Delimiter::Parenthesis, false) => ")",
        (Delimiter::Bracket, true) => "[",
        (Delimiter::Bracket, false) => "]",
        (Delimiter::Brace, true) => "{",
        (Delimiter::Brace, false) => "}",
    }
}

/// The number of markers among the tokens before a position.
pub open spec fn marks_before(l: Lexed, i: int) -> nat
    decreases i,
{
    if i <= 0 {
        0
    } else {
        marks_before(l, i - 1) + if input::lexeme(l, i - 1) == Lexeme::Unknown('\u{1a}') {
            1nat
        } else {
            0
        }
    }
}

/// What a token is to a macro. Numbers and texts are data, and a marker stands
/// for its value.
pub open spec fn token_piece(l: Lexed, i: int, embedded: Seq<Value>) -> Piece {
    match input::lexeme(l, i) {
        Lexeme::Name(name) => Piece::Text(name, None),
        Lexeme::Symbol(symbol) => Piece::Text(symbol, None),
        Lexeme::Number(literal) => if number::number_literal(literal) {
            Piece::Data(values::shaped(Shape::Number, seq![Form::Text(literal)]))
        } else {
            Piece::Text(literal, None)
        },
        Lexeme::Text(id) => Piece::Data(values::text_form(l.texts[id as int].value)),
        Lexeme::Open(_, delimiter) => Piece::Text(
            delimiter_spelling(delimiter, true),
            Some((macro_delimiter_of(delimiter), true)),
        ),
        Lexeme::Close(_, delimiter) => Piece::Text(
            delimiter_spelling(delimiter, false),
            Some((macro_delimiter_of(delimiter), false)),
        ),
        Lexeme::Unknown(c) => if c == '\u{1a}' && marks_before(l, i) < embedded.len() {
            Piece::Data(values::value_form(embedded[marks_before(l, i) as int]))
        } else {
            Piece::Text(seq![c], None)
        },
        _ => Piece::Text(Seq::empty(), None),
    }
}

/// The elements of a range, the positions of their tokens, and whether a line
/// starts behind them.
pub struct Gathered {
    pub elements: Seq<Element>,
    pub tokens: Seq<int>,
    pub broken: bool,
}

pub open spec fn gathered(l: Lexed, lo: int, i: int, embedded: Seq<Value>) -> Gathered
    decreases i - lo,
{
    if i <= lo {
        Gathered { elements: Seq::empty(), tokens: Seq::empty(), broken: false }
    } else {
        let g = gathered(l, lo, i - 1, embedded);
        if input::blank(l, i - 1) {
            Gathered { broken: true, ..g }
        } else {
            Gathered {
                elements: g.elements.push(
                    Element {
                        piece: token_piece(l, i - 1, embedded),
                        separated: g.broken || !input::is_joint(l, i - 1),
                        start: l.tokens[i - 1].start,
                        end: l.tokens[i - 1].end,
                    },
                ),
                tokens: g.tokens.push(i - 1),
                broken: false,
            }
        }
    }
}

/// The element of a token.
fn piece_at(view: TokenView<'_>, i: usize, seen: usize, embedded: &Vec<Value>) -> (kind:
    MacroInputKind)
    requires
        view.wf(),
        i < view.l().tokens.len(),
        seen == marks_before(view.l(), i as int),
    ensures
        piece_of(kind) == token_piece(view.l(), i as int, embedded@),
{
    let ghost l = view.l();
    assert(lexical::token_pairs(l.tokens[i as int], l.groups, i as int, l.texts.len() as int));
    match kind_at(view, i) {
        TokenKind::Name(name) => MacroInputKind::Text { text: name.clone(), delimiter: None },
        TokenKind::Symbol(symbol) => MacroInputKind::Text {
            text: symbol.clone(),
            delimiter: None,
        },
        TokenKind::Number(literal) => match Number::parse(literal.as_str()) {
            Some(number) => MacroInputKind::Data(Value::number(number)),
            None => MacroInputKind::Text { text: literal.clone(), delimiter: None },
        },
        TokenKind::Text(id) => match view.text(*id) {
            Some(found) => MacroInputKind::Data(Value::binary_from_text(found.value())),
            None => MacroInputKind::Text { text: String::new(), delimiter: None },
        },
        TokenKind::Open { group: _, delimiter } => MacroInputKind::Text {
            text: delimiter_text(*delimiter, true).to_owned(),
            delimiter: Some((macro_delimiter(*delimiter), true)),
        },
        TokenKind::Close { group: _, delimiter } => MacroInputKind::Text {
            text: delimiter_text(*delimiter, false).to_owned(),
            delimiter: Some((macro_delimiter(*delimiter), false)),
        },
        TokenKind::Unknown(c) => {
            if *c == EMBEDDED_MARKER && seen < embedded.len() {
                return MacroInputKind::Data(embedded[seen].copy());
            }
            let mut text = String::new();
            text.push(*c);
            assert(text@ =~= seq![*c]);
            MacroInputKind::Text { text, delimiter: None }
        },
        _ => {
            let text = String::new();
            assert(text@ =~= Seq::empty());
            MacroInputKind::Text { text, delimiter: None }
        },
    }
}

/// The end of a layout without the closing delimiters of groups that were
/// open before it.
pub open spec fn layout_end(l: Lexed, start: int, end: int) -> int
    decreases end,
{
    if end > 0 {
        match input::lexeme(l, end - 1) {
            Lexeme::Close(group, _) => if l.groups[group as int].open < start {
                layout_end(l, start, end - 1)
            } else {
                end
            },
            _ => end,
        }
    } else {
        end
    }
}

pub fn macro_layout_end(source: &LexedSource, start: usize, end: usize) -> (found: usize)
    requires
        source.wf(),
        end <= source@.tokens.len(),
    ensures
        found == layout_end(source@, start as int, end as int),
        found <= end,
{
    let ghost l = source@;
    let mut at = end;
    while at > 0
        invariant
            source.wf(),
            l == source@,
            at <= end <= l.tokens.len(),
            layout_end(l, start as int, end as int) == layout_end(l, start as int, at as int),
        decreases at,
    {
        assert(l.tokens[at - 1] == source.tokens@[at - 1]@);
        assert(lexical::token_pairs(l.tokens[at - 1], l.groups, at - 1, l.texts.len() as int));
        match &source.tokens[at - 1].kind {
            TokenKind::Close { group, delimiter: _ } => {
                assert(l.groups[*group as int] == source.groups@[*group as int]@);
                if source.groups[*group].open_token >= start {
                    return at;
                }
            },
            _ => {
                return at;
            },
        }
        at = at - 1;
    }
    at
}

/// The number of elements whose token stands before a position.
pub open spec fn below(tokens: Seq<int>, at: int) -> nat
    decreases tokens.len(),
{
    if tokens.len() == 0 {
        0
    } else {
        below(tokens.drop_last(), at) + if tokens.last() < at {
            1nat
        } else {
            0
        }
    }
}

pub open spec fn positions(tokens: Seq<usize>) -> Seq<int> {
    tokens.map_values(|token: usize| token as int)
}

fn element_boundary(tokens: &Vec<usize>, at: usize) -> (n: usize)
    ensures
        n == below(positions(tokens@), at as int),
{
    let ghost all = positions(tokens@);
    let mut n: usize = 0;
    let mut k: usize = 0;
    assert(all.take(0) =~= Seq::empty());
    while k < tokens.len()
        invariant
            k <= tokens.len(),
            all == positions(tokens@),
            all.len() == tokens.len(),
            n <= k,
            n == below(all.take(k as int), at as int),
        decreases tokens.len() - k,
    {
        assert(all.take(k + 1).drop_last() =~= all.take(k as int));
        assert(all[k as int] == tokens@[k as int]);
        if tokens[k] < at {
            n = n + 1;
        }
        k = k + 1;
    }
    assert(all.take(all.len() as int) =~= all);
    n
}

/// A layout of a macro's input: its elements, and those of its items.
pub struct Layout {
    pub start: int,
    pub end: int,
    pub items: Seq<(int, int)>,
}

pub open spec fn pairs(items: Seq<(usize, usize)>) -> Seq<(int, int)> {
    items.map_values(|item: (usize, usize)| (item.0 as int, item.1 as int))
}

pub open spec fn layout_of(found: MacroInputLayout) -> Layout {
    Layout { start: found.start as int, end: found.end as int, items: pairs(found.items@) }
}

pub open spec fn layouts_of(found: Seq<MacroInputLayout>) -> Seq<Layout> {
    found.map_values(|one: MacroInputLayout| layout_of(one))
}

/// The items of members, without those that hold no element.
pub open spec fn items_of(tokens: Seq<int>, members: Seq<Member>, end: int) -> Seq<(int, int)>
    decreases members.len(),
{
    if members.len() == 0 {
        Seq::empty()
    } else {
        let m = members.last();
        let before = items_of(tokens, members.drop_last(), end);
        let first = below(tokens, m.lo) as int;
        let last = below(
            tokens,
            if m.hi <= end {
                m.hi
            } else {
                end
            },
        ) as int;
        if first < last {
            before.push((first, last))
        } else {
            before
        }
    }
}

/// The layouts that begin at the first `n` elements of a range that ends at
/// `hi`.
pub open spec fn layouts(l: Lexed, tokens: Seq<int>, n: int, hi: int) -> Seq<Layout>
    decreases n,
{
    if n <= 0 {
        Seq::empty()
    } else {
        let before = layouts(l, tokens, n - 1, hi);
        let at = tokens[n - 1];
        if input::lexeme(l, at) is Close {
            before
        } else {
            let (members, _, block_end) = members_at(l, at, hi);
            let end = layout_end(l, at, block_end);
            let items = items_of(tokens, members, end);
            if items.len() == 0 {
                before
            } else {
                before.push(Layout { start: n - 1, end: below(tokens, end) as int, items })
            }
        }
    }
}

fn layout_items(tokens: &Vec<usize>, members: &Vec<layout::LayoutStatement>, end: usize) -> (items:
    Vec<(usize, usize)>)
    ensures
        pairs(items@) == items_of(
            positions(tokens@),
            layout::members_of(members@),
            end as int,
        ),
{
    let ghost all = layout::members_of(members@);
    let mut items: Vec<(usize, usize)> = Vec::new();
    let mut k: usize = 0;
    assert(all.take(0) =~= Seq::empty());
    assert(pairs(items@) =~= Seq::empty());
    while k < members.len()
        invariant
            k <= members.len(),
            all == layout::members_of(members@),
            all.len() == members.len(),
            pairs(items@) == items_of(positions(tokens@), all.take(k as int), end as int),
        decreases members.len() - k,
    {
        proof {
            assert(all.take(k + 1).drop_last() =~= all.take(k as int));
            assert(all[k as int] == members@[k as int]@);
        }
        let range = members[k].tokens;
        let last = if range.end <= end {
            range.end
        } else {
            end
        };
        let item = (element_boundary(tokens, range.start), element_boundary(tokens, last));
        if item.0 < item.1 {
            let ghost before = items@;
            items.push(item);
            assert(pairs(items@) =~= pairs(before).push((item.0 as int, item.1 as int)));
        }
        k = k + 1;
    }
    assert(all.take(all.len() as int) =~= all);
    items
}

fn macro_input_layouts(view: TokenView<'_>, tokens: &Vec<usize>, hi: usize) -> (found: Vec<
    MacroInputLayout,
>)
    requires
        view.wf(),
        hi <= view.l().tokens.len(),
        forall|k: int| 0 <= k < tokens@.len() ==> #[trigger] tokens@[k] < hi,
    ensures
        layouts_of(found@) == layouts(
            view.l(),
            positions(tokens@),
            tokens@.len() as int,
            hi as int,
        ),
{
    let ghost l = view.l();
    let ghost all = positions(tokens@);
    let mut found: Vec<MacroInputLayout> = Vec::new();
    let mut k: usize = 0;
    assert(layouts_of(found@) =~= Seq::empty());
    while k < tokens.len()
        invariant
            view.wf(),
            l == view.l(),
            all == positions(tokens@),
            hi <= l.tokens.len(),
            k <= tokens.len(),
            forall|k: int| 0 <= k < tokens@.len() ==> #[trigger] tokens@[k] < hi,
            layouts_of(found@) == layouts(l, all, k as int, hi as int),
        decreases tokens.len() - k,
    {
        let at = tokens[k];
        assert(all[k as int] == at);
        let closes = match kind_at(view, at) {
            TokenKind::Close { group: _, delimiter: _ } => true,
            _ => false,
        };
        if !closes {
            let (members, _, block_end) = block_at(view, at, hi);
            let end = macro_layout_end(view.source, at, block_end);
            let items = layout_items(tokens, &members, end);
            assert(pairs(items@).len() == items.len());
            if items.len() > 0 {
                let next = MacroInputLayout {
                    start: k,
                    end: element_boundary(tokens, end),
                    items,
                };
                let ghost before = found@;
                found.push(next);
                assert(layouts_of(found@) =~= layouts_of(before).push(layout_of(next)));
            }
        }
        k = k + 1;
    }
    found
}

/// The input of a macro: the tokens of a range, and the layouts among them.
pub open spec fn input_holds(
    input: MacroInput,
    l: Lexed,
    lo: int,
    hi: int,
    embedded: Seq<Value>,
) -> bool {
    let g = gathered(l, lo, hi, embedded);
    &&& elements_of(input.elements@) == g.elements
    &&& layouts_of(input.layouts@) == layouts(l, g.tokens, g.tokens.len() as int, hi)
}

fn macro_input(
    view: TokenView<'_>,
    lo: usize,
    hi: usize,
    start: usize,
    end: usize,
    embedded: &Vec<Value>,
) -> (input: MacroInput)
    requires
        view.wf(),
        hi <= view.l().tokens.len(),
    ensures
        input_holds(input, view.l(), lo as int, hi as int, embedded@),
        input.start == start,
        input.end == end,
{
    let ghost l = view.l();
    let mut elements: Vec<MacroInputElement> = Vec::new();
    let mut tokens: Vec<usize> = Vec::new();
    let mut broken = false;
    let mut seen: usize = 0;
    let mut i: usize = 0;
    while i < lo && i < hi
        invariant
            view.wf(),
            l == view.l(),
            hi <= l.tokens.len(),
            i <= hi,
            i <= lo,
            seen <= i,
            seen == marks_before(l, i as int),
        decreases hi - i,
    {
        if let TokenKind::Unknown(c) = kind_at(view, i) {
            if *c == EMBEDDED_MARKER {
                seen = seen + 1;
            }
        }
        i = i + 1;
    }
    assert(elements_of(elements@) =~= Seq::empty());
    assert(positions(tokens@) =~= Seq::empty());
    while i < hi
        invariant
            view.wf(),
            l == view.l(),
            hi <= l.tokens.len(),
            i <= hi,
            i < hi ==> lo <= i,
            i <= lo ==> elements@.len() == 0 && tokens@.len() == 0 && !broken,
            seen <= i,
            seen == marks_before(l, i as int),
            elements_of(elements@) == gathered(l, lo as int, i as int, embedded@).elements,
            positions(tokens@) == gathered(l, lo as int, i as int, embedded@).tokens,
            broken == gathered(l, lo as int, i as int, embedded@).broken,
            forall|k: int| 0 <= k < tokens@.len() ==> #[trigger] tokens@[k] < hi,
        decreases hi - i,
    {
        if view.is_blank(i) {
            broken = true;
        } else {
            assert(l.tokens[i as int] == view.source.tokens@[i as int]@);
            let span = view.source.tokens[i].span;
            let next = MacroInputElement {
                kind: piece_at(view, i, seen, embedded),
                separated: broken || !view.is_joint(i),
                start: span.start,
                end: span.end,
            };
            let ghost held = elements@;
            let ghost places = tokens@;
            elements.push(next);
            tokens.push(i);
            broken = false;
            assert(elements_of(elements@) =~= elements_of(held).push(element_of(next)));
            assert(positions(tokens@) =~= positions(places).push(i as int));
        }
        if let TokenKind::Unknown(c) = kind_at(view, i) {
            if *c == EMBEDDED_MARKER {
                seen = seen + 1;
            }
        }
        i = i + 1;
    }
    assert(positions(tokens@).len() == tokens.len());
    let layouts = macro_input_layouts(view, &tokens, hi);
    MacroInput::new(elements, start, end).with_layouts(layouts)
}

/// The first macro of a range that begins at a byte.
pub open spec fn starts_at(l: Lexed, i: int, hi: int, start: nat) -> Option<int>
    decreases hi - i,
{
    if i >= hi {
        None
    } else if l.tokens[i].start == start && input::is_symbol(l, i, "@"@) {
        Some(i)
    } else {
        starts_at(l, i + 1, hi, start)
    }
}

/// A macro found again where it began.
pub open spec fn located(
    invocation: MacroInvocation,
    l: Lexed,
    k: int,
    at: int,
    embedded: Seq<Value>,
) -> bool {
    let section = l.declarations[k];
    let item = item_of(l, section.first as int, section.last as int, at);
    let (path, after) = head_path(l, at, section.last as int)->0;
    &&& head_path(l, at, section.last as int) is Some
    &&& text::texts(invocation.path@) == path
    &&& invocation.start == l.tokens[at].start
    &&& invocation.anchor_position == item.anchored
    &&& invocation.indentation == item.indentation
    &&& input_holds(invocation.input, l, after, item.hi, embedded)
    &&& invocation.input.start == l.tokens[after - 1].end
    &&& invocation.input.end == if item.hi < section.last {
        l.tokens[item.hi].start
    } else {
        section.end
    }
}

/// The message of a macro that cannot be found again.
pub open spec fn lost(l: Lexed, k: int, start: nat) -> Option<DiagnosticView> {
    let section = l.declarations[k];
    match starts_at(l, section.first as int, section.last as int, start) {
        None => Some(
            diagnostic::error_at(
                section.line,
                "macro invocation no longer starts on a token boundary"@,
            ),
        ),
        Some(at) => if head_path(l, at, section.last as int) is None {
            Some(diagnostic::error_at(input::line(l, at), head_message()))
        } else {
            None
        },
    }
}

/// Finds a macro of a declaration by the byte where it begins.
pub fn macro_invocation_at(
    source: &LexedSource,
    declaration: usize,
    start: usize,
    embedded: &Vec<Value>,
) -> (result: Result<MacroInvocation, Diagnostic>)
    requires
        source.wf(),
        declaration < source@.declarations.len(),
    ensures
        match result {
            Err(error) => lost(source@, declaration as int, start as nat) == Some(error@),
            Ok(found) => lost(source@, declaration as int, start as nat) is None && located(
                found,
                source@,
                declaration as int,
                starts_at(
                    source@,
                    source@.declarations[declaration as int].first as int,
                    source@.declarations[declaration as int].last as int,
                    start as nat,
                )->0,
                embedded@,
            ),
        },
{
    let ghost l = source@;
    let view = TokenView::declaration(source, declaration);
    let section = &source.declarations[declaration];
    assert(l.declarations[declaration as int] == section@);
    let mut at = view.range.start;
    while at < view.range.end
        invariant_except_break
            view.wf(),
            l == view.l(),
            view.source == source,
            view.lo() <= at <= view.hi(),
            starts_at(l, view.lo(), view.hi(), start as nat) == starts_at(
                l,
                at as int,
                view.hi(),
                start as nat,
            ),
        ensures
            view.lo() <= at <= view.hi(),
            if at < view.hi() {
                starts_at(l, view.lo(), view.hi(), start as nat) == Some(at as int)
            } else {
                starts_at(l, view.lo(), view.hi(), start as nat) is None
            },
        decreases view.hi() - at,
    {
        assert(l.tokens[at as int] == source.tokens@[at as int]@);
        if source.tokens[at].span.start == start && view.is_symbol(at, "@") {
            break;
        }
        at = at + 1;
    }
    if at >= view.range.end {
        return Err(
            Diagnostic::error(
                section.line,
                "macro invocation no longer starts on a token boundary",
            ),
        );
    }
    let (path, after) = match read_head(view, at) {
        Some(found) => found,
        None => {
            return Err(macro_head_error(view, at));
        },
    };
    let item = logical_item(view, at);
    assert(l.tokens[after - 1] == source.tokens@[after - 1]@);
    let input_start = source.tokens[after - 1].span.end;
    let input_end = if item.hi < view.range.end {
        assert(l.tokens[item.hi as int] == source.tokens@[item.hi as int]@);
        source.tokens[item.hi].span.start
    } else {
        section.span.end
    };
    let found_start = source.tokens[at].span.start;
    assert(l.tokens[at as int] == source.tokens@[at as int]@);
    Ok(
        MacroInvocation {
            path,
            start: found_start,
            anchor_position: item.anchor_position,
            indentation: item.indentation,
            input: macro_input(view, after, item.hi, input_start, input_end, embedded),
        },
    )
}

/// Names with dots between them.
pub open spec fn dotted_path(path: Seq<Seq<char>>) -> Seq<char>
    decreases path.len(),
{
    if path.len() == 0 {
        Seq::empty()
    } else if path.len() == 1 {
        path[0]
    } else {
        dotted_path(path.drop_last()) + "."@ + path.last()
    }
}

fn join_path(path: &Vec<String>) -> (joined: String)
    ensures
        joined@ == dotted_path(text::texts(path@)),
{
    let ghost all = text::texts(path@);
    let mut joined = String::new();
    let mut k: usize = 0;
    assert(all.take(0) =~= Seq::empty());
    assert(joined@ =~= Seq::empty());
    while k < path.len()
        invariant
            k <= path.len(),
            all == text::texts(path@),
            all.len() == path.len(),
            joined@ == dotted_path(all.take(k as int)),
        decreases path.len() - k,
    {
        proof {
            assert(all.take(k + 1).drop_last() =~= all.take(k as int));
            assert(all.take(k + 1).last() == path@[k as int]@);
        }
        if k > 0 {
            text::push_text(&mut joined, ".");
        }
        let ghost before = joined@;
        text::push_text(&mut joined, path[k].as_str());
        assert(k == 0 ==> joined@ =~= path@[0]@);
        k = k + 1;
    }
    assert(all.take(all.len() as int) =~= all);
    joined
}

/// Why a macro of a declaration cannot be expanded any more.
pub open spec fn gone(work: DeclarationMacroWork, original: OriginalMacroInvocation) -> Seq<
    DiagnosticView,
> {
    let l = lexical::lexed(work.text@);
    let called = "macro invocation "@ + text::decimal(original.id as nat);
    let line = original.line as nat;
    if lexical::any_error(l.validation + l.structural) {
        rewrite::moved(l.validation + l.structural, work.line as nat)
    } else if l.declarations.len() == 0 {
        seq![diagnostic::error_at(line, called + " disappeared before it could expand"@)]
    } else {
        let section = l.declarations[0];
        match lost(l, 0, original.start as nat) {
            Some(error) => seq![
                diagnostic::error_at(line, called + " became invalid: "@ + error.message),
            ],
            None => {
                let at = starts_at(
                    l,
                    section.first as int,
                    section.last as int,
                    original.start as nat,
                )->0;
                let path = (head_path(l, at, section.last as int)->0).0;
                if path != text::texts(original.path@) {
                    seq![
                        diagnostic::error_at(
                            line,
                            called + " changed from `"@ + dotted_path(text::texts(original.path@))
                                + "` to `"@ + dotted_path(path) + "` before expansion"@,
                        ),
                    ]
                } else {
                    Seq::empty()
                }
            },
        }
    }
}

fn same_path(a: &Vec<String>, b: &Vec<String>) -> (same: bool)
    ensures
        same == (text::texts(a@) == text::texts(b@)),
{
    let ghost x = text::texts(a@);
    let ghost y = text::texts(b@);
    assert(x.len() == a.len() && y.len() == b.len());
    if a.len() != b.len() {
        return false;
    }
    let mut k: usize = 0;
    while k < a.len()
        invariant
            k <= a.len(),
            a.len() == b.len(),
            x == text::texts(a@),
            y == text::texts(b@),
            forall|i: int| 0 <= i < k ==> x[i] == y[i],
        decreases a.len() - k,
    {
        assert(x[k as int] == a@[k as int]@ && y[k as int] == b@[k as int]@);
        if !text::same_text(a[k].as_str(), b[k].as_str()) {
            return false;
        }
        k = k + 1;
    }
    assert(x =~= y);
    true
}

/// One error about a macro that was found before.
fn changed(original: &OriginalMacroInvocation, what: &str) -> (errors: Vec<Diagnostic>)
    ensures
        diagnostic::reports(errors@) == seq![
            diagnostic::error_at(
                original.line as nat,
                "macro invocation "@ + text::decimal(original.id as nat) + what@,
            ),
        ],
{
    let mut message = "macro invocation ".to_owned();
    text::push_decimal(&mut message, original.id);
    text::push_text(&mut message, what);
    let mut errors: Vec<Diagnostic> = Vec::new();
    errors.push(Diagnostic::error(original.line, message.as_str()));
    assert(diagnostic::reports(errors@) =~= seq![
        diagnostic::error_at(
            original.line as nat,
            "macro invocation "@ + text::decimal(original.id as nat) + what@,
        ),
    ]);
    errors
}

impl DeclarationMacroWork {
    /// A macro of the declaration where it stands now.
    pub fn current_invocation(&self, original: &OriginalMacroInvocation) -> (result: Result<
        MacroInvocation,
        Vec<Diagnostic>,
    >)
        requires
            self.line > 0,
        ensures
            ({
                let l = lexical::lexed(self.text@);
                match result {
                    Ok(found) => gone(*self, *original).len() == 0 && !lexical::any_error(
                        l.validation + l.structural,
                    ) && l.declarations.len() > 0 && lost(l, 0, original.start as nat) is None
                        && text::texts(found.path@) == text::texts(original.path@) && located(
                        found,
                        l,
                        0,
                        starts_at(
                            l,
                            l.declarations[0].first as int,
                            l.declarations[0].last as int,
                            original.start as nat,
                        )->0,
                        self.embedded_values@,
                    ),
                    Err(errors) => diagnostic::reports(errors@) == gone(*self, *original) && gone(
                        *self,
                        *original,
                    ).len() > 0,
                }
            }),
    {
        let lexed = match self.lexical() {
            Ok(lexed) => lexed,
            Err(errors) => {
                proof {
                    let l = lexical::lexed(self.text@);
                    let all = l.validation + l.structural;
                    if all.len() == 0 {
                        assert(!lexical::any_error(all));
                    }
                }
                return Err(errors);
            },
        };
        let ghost l = lexed@;
        assert(l.declarations.len() == lexed.declarations.len());
        if lexed.declarations.len() == 0 {
            return Err(changed(original, " disappeared before it could expand"));
        }
        let found = match macro_invocation_at(&lexed, 0, original.start, &self.embedded_values) {
            Ok(found) => found,
            Err(error) => {
                let mut what = " became invalid: ".to_owned();
                text::push_text(&mut what, error.message.as_str());
                let errors = changed(original, what.as_str());
                assert("macro invocation "@ + text::decimal(original.id as nat) + (
                " became invalid: "@ + error.message@) =~= "macro invocation "@ + text::decimal(
                    original.id as nat,
                ) + " became invalid: "@ + error.message@);
                return Err(errors);
            },
        };
        if !same_path(&found.path, &original.path) {
            let mut what = " changed from `".to_owned();
            let was = join_path(&original.path);
            let is = join_path(&found.path);
            text::push_text(&mut what, was.as_str());
            text::push_text(&mut what, "` to `");
            text::push_text(&mut what, is.as_str());
            text::push_text(&mut what, "` before expansion");
            let errors = changed(original, what.as_str());
            assert("macro invocation "@ + text::decimal(original.id as nat) + what@
                =~= "macro invocation "@ + text::decimal(original.id as nat) + " changed from `"@
                + was@ + "` to `"@ + is@ + "` before expansion"@);
            return Err(errors);
        }
        Ok(found)
    }
}

} // verus!
