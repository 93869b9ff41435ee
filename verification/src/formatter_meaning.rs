//! What the formatter of diagnostics shows.

use vstd::prelude::*;
use crate::diagnostic_formatter;
use crate::lowered_meaning;
use crate::semantics;
use crate::semantics::{annotated, call, meaning, name_keys, named, reach, sound, value, Model};
use crate::values;
use crate::values::{Builtin, Form};

verus! {

/// What texts show.
#[verifier::reject_recursive_types(D)]
pub struct Shows<D> {
    pub shown: spec_fn(D) -> Seq<char>,
    /// The lines of a text.
    pub lines: spec_fn(D) -> Seq<D>,
}

pub open spec fn appended<D>(m: Model<D>, a: D, b: D) -> D {
    call(m, Builtin::Append, seq![a, b])
}

pub open spec fn concatenated<D>(m: Model<D>, items: Seq<D>) -> D {
    call(m, Builtin::ListConcat, seq![(m.list)(items)])
}

pub open spec fn each<D>(m: Model<D>, f: D, items: Seq<D>) -> D {
    call(m, Builtin::ListMap, seq![f, (m.list)(items)])
}

pub open spec fn head<D>(m: Model<D>, items: Seq<D>) -> D {
    call(m, Builtin::ListHead, seq![(m.list)(items)])
}

pub open spec fn tail<D>(m: Model<D>, items: Seq<D>) -> D {
    call(m, Builtin::ListTail, seq![(m.list)(items)])
}

pub open spec fn split<D>(m: Model<D>, text: D) -> D {
    call(m, Builtin::TextLines, seq![text])
}

/// The items that a function gives.
pub open spec fn images<D>(m: Model<D>, f: D, items: Seq<D>) -> Seq<D> {
    items.map_values(|item: D| (m.apply)(f, seq![item]))
}

/// What items show one after the other.
pub open spec fn all_shown<D>(x: Shows<D>, items: Seq<D>) -> Seq<char>
    decreases items.len(),
{
    if items.len() == 0 {
        Seq::empty()
    } else {
        all_shown(x, items.drop_last()) + (x.shown)(items.last())
    }
}

/// Texts are joined, mapped and split as the builtins promise.
#[verifier::opaque]
pub open spec fn joins<D>(m: Model<D>, x: Shows<D>) -> bool {
    &&& forall|a: D, b: D|
        #[trigger] (x.shown)(appended(m, a, b)) == (x.shown)(a) + (x.shown)(b)
    &&& forall|items: Seq<D>| #[trigger] (x.shown)(concatenated(m, items)) == all_shown(x, items)
    &&& forall|f: D, items: Seq<D>| #[trigger] each(m, f, items) == (m.list)(images(m, f, items))
    &&& forall|items: Seq<D>| items.len() > 0 ==> #[trigger] head(m, items) == items[0]
    &&& forall|items: Seq<D>|
        items.len() > 0 ==> #[trigger] tail(m, items) == (m.list)(items.skip(1))
    &&& forall|text: D| #[trigger] split(m, text) == (m.list)((x.lines)(text))
    &&& forall|text: D| (#[trigger] (x.lines)(text)).len() > 0
    &&& forall|v: D| #[trigger] (x.shown)(annotated(m, named(m, "binary"@), v)) == (x.shown)(v)
    &&& (x.shown)(value(m, values::text_form("\n"@))) == seq!['\n']
}

/// What lines show, each behind a line end and a margin.
pub open spec fn below<D>(x: Shows<D>, margin: Seq<char>, lines: Seq<D>) -> Seq<char>
    decreases lines.len(),
{
    if lines.len() == 0 {
        Seq::empty()
    } else {
        below(x, margin, lines.drop_last()) + (seq!['\n'] + margin + (x.shown)(lines.last()))
    }
}

/// A field of a diagnostic.
pub open spec fn field<D>(m: Model<D>, d: D, first: Seq<char>, second: Seq<char>) -> D {
    reach(m, d, name_keys(seq![first, second]))
}

proof fn meaning_of_field<D>(
    m: Model<D>,
    env: Map<nat, D>,
    id: nat,
    first: Seq<char>,
    second: Seq<char>,
)
    requires
        env.contains_key(id),
    ensures
        meaning(m, env, diagnostic_formatter::field_form(id, seq![first, second])) == field(
            m,
            env[id],
            first,
            second,
        ),
{
    semantics::meaning_of_local(m, env, id);
    semantics::meaning_of_access(m, env, values::local_form(id), seq![first, second]);
}

proof fn shown_below<D>(m: Model<D>, x: Shows<D>, f: D, margin: Seq<char>, lines: Seq<D>)
    requires
        forall|line: D|
            (x.shown)(#[trigger] applied(m, f, line)) == seq!['\n'] + margin + (x.shown)(line),
    ensures
        all_shown(x, images(m, f, lines)) == below(x, margin, lines),
    decreases lines.len(),
{
    let all = images(m, f, lines);
    if lines.len() > 0 {
        let front = lines.drop_last();
        shown_below(m, x, f, margin, front);
        assert(all.drop_last() =~= images(m, f, front));
        assert(all.last() == applied(m, f, lines.last()));
    }
}

pub open spec fn applied<D>(m: Model<D>, f: D, item: D) -> D {
    (m.apply)(f, seq![item])
}

/// What code joined from the left shows.
proof fn shown_joined<D>(m: Model<D>, x: Shows<D>, env: Map<nat, D>, first: Seq<Form>, last: Form)
    requires
        joins(m, x),
        first.len() > 0,
    ensures
        (x.shown)(meaning(m, env, diagnostic_formatter::append_form(first.push(last)))) == (
        x.shown)(meaning(m, env, diagnostic_formatter::append_form(first))) + (x.shown)(
            meaning(m, env, last),
        ),
{
    reveal(joins);
    let all = first.push(last);
    assert(all.drop_last() =~= first);
    let before = diagnostic_formatter::append_form(first);
    semantics::meaning_of_call(m, env, Builtin::Append, seq![before, last]);
    semantics::meanings_of_two(m, env, before, last);
    assert(meaning(m, env, diagnostic_formatter::append_form(all)) == appended(
        m,
        meaning(m, env, before),
        meaning(m, env, last),
    ));
}

proof fn meaning_of_newline<D>(m: Model<D>, x: Shows<D>, env: Map<nat, D>)
    requires
        joins(m, x),
    ensures
        (x.shown)(meaning(m, env, diagnostic_formatter::newline_form())) == seq!['\n'],
{
    reveal(joins);
    semantics::meaning_of_value(m, env, values::text_form("\n"@));
}

/// What mapped lines show.
proof fn shown_mapped<D>(
    m: Model<D>,
    x: Shows<D>,
    env: Map<nat, D>,
    f: Form,
    source: Form,
    lines: Seq<D>,
    margin: Seq<char>,
)
    requires
        joins(m, x),
        meaning(m, env, source) == (m.list)(lines),
        forall|line: D|
            (x.shown)(#[trigger] applied(m, meaning(m, env, f), line)) == seq!['\n'] + margin + (
            x.shown)(line),
    ensures
        (x.shown)(
            meaning(
                m,
                env,
                values::call_form(
                    Builtin::ListConcat,
                    seq![values::call_form(Builtin::ListMap, seq![f, source])],
                ),
            ),
        ) == below(x, margin, lines),
{
    let mapped = values::call_form(Builtin::ListMap, seq![f, source]);
    semantics::meaning_of_call(m, env, Builtin::ListConcat, seq![mapped]);
    semantics::meanings_of_one(m, env, mapped);
    semantics::meaning_of_call(m, env, Builtin::ListMap, seq![f, source]);
    semantics::meanings_of_two(m, env, f, source);
    let g = meaning(m, env, f);
    shown_below(m, x, g, margin, lines);
    reveal(joins);
    assert(meaning(m, env, mapped) == each(m, g, lines));
    assert(meaning(m, env, values::call_form(Builtin::ListConcat, seq![mapped])) == concatenated(
        m,
        images(m, g, lines),
    ));
}

proof fn shown_continuations<D>(m: Model<D>, x: Shows<D>, env: Map<nat, D>, lines: Seq<D>)
    requires
        sound(m),
        joins(m, x),
        env.contains_key(0),
        env.contains_key(1),
        env[1] == (m.list)(lines),
        lines.len() > 0,
    ensures
        (x.shown)(meaning(m, env, diagnostic_formatter::continuations_form())) == below(
            x,
            (x.shown)(field(m, env[0], "viewer"@, "indent"@)),
            lines.skip(1),
        ),
{
    let break_code = diagnostic_formatter::newline_form();
    let margin_code = diagnostic_formatter::field_form(0, seq!["viewer"@, "indent"@]);
    let here = values::local_form(2);
    let body = diagnostic_formatter::append_form(seq![break_code, margin_code, here]);
    let f = values::lambda_form(seq![2], body);
    let source = values::call_form(Builtin::ListTail, seq![values::local_form(1)]);
    let margin = (x.shown)(field(m, env[0], "viewer"@, "indent"@));
    semantics::meaning_of_call(m, env, Builtin::ListTail, seq![values::local_form(1)]);
    semantics::meanings_of_one(m, env, values::local_form(1));
    semantics::meaning_of_local(m, env, 1);
    assert(meaning(m, env, source) == (m.list)(lines.skip(1))) by {
        reveal(joins);
        assert(meaning(m, env, source) == tail(m, lines));
    }
    assert forall|line: D|
        (x.shown)(#[trigger] applied(m, meaning(m, env, f), line)) == seq!['\n'] + margin + (
        x.shown)(line) by {
        let e = env.insert(2, line);
        lowered_meaning::beta(m, env, seq![2], body, seq![line]);
        lowered_meaning::bound_one(env, 2, line);
        semantics::meaning_of_local(m, e, 2);
        meaning_of_field(m, e, 0, "viewer"@, "indent"@);
        meaning_of_newline(m, x, e);
        shown_joined(m, x, e, seq![break_code], margin_code);
        shown_joined(m, x, e, seq![break_code, margin_code], here);
        assert(seq![break_code].push(margin_code) =~= seq![break_code, margin_code]);
        assert(seq![break_code, margin_code].push(here) =~= seq![break_code, margin_code, here]);
    }
    shown_mapped(m, x, env, f, source, lines.skip(1), margin);
}

proof fn shown_context<D>(m: Model<D>, x: Shows<D>, env: Map<nat, D>, context: Seq<D>)
    requires
        sound(m),
        joins(m, x),
        env.contains_key(0),
        field(m, env[0], "viewer"@, "context_lines"@) == (m.list)(context),
    ensures
        (x.shown)(meaning(m, env, diagnostic_formatter::context_form())) == below(
            x,
            Seq::empty(),
            context,
        ),
{
    let break_code = diagnostic_formatter::newline_form();
    let here = values::local_form(3);
    let body = diagnostic_formatter::append_form(seq![break_code, here]);
    let f = values::lambda_form(seq![3], body);
    let source = diagnostic_formatter::field_form(0, seq!["viewer"@, "context_lines"@]);
    meaning_of_field(m, env, 0, "viewer"@, "context_lines"@);
    assert forall|line: D|
        (x.shown)(#[trigger] applied(m, meaning(m, env, f), line)) == seq!['\n'] + Seq::<
            char,
        >::empty() + (x.shown)(line) by {
        let e = env.insert(3, line);
        lowered_meaning::beta(m, env, seq![3], body, seq![line]);
        lowered_meaning::bound_one(env, 3, line);
        semantics::meaning_of_local(m, e, 3);
        meaning_of_newline(m, x, e);
        shown_joined(m, x, e, seq![break_code], here);
        assert(seq![break_code].push(here) =~= seq![break_code, here]);
        assert(seq!['\n'] + Seq::<char>::empty() =~= seq!['\n']);
    }
    shown_mapped(m, x, env, f, source, context, Seq::empty());
}

/// A diagnostic is shown by its header and the first line of its message, the
/// other lines below, indented, its context below that, and a line end.
pub proof fn diagnostics_are_shown_line_by_line<D>(
    m: Model<D>,
    x: Shows<D>,
    d: D,
    context: Seq<D>,
)
    requires
        sound(m),
        joins(m, x),
        field(m, d, "viewer"@, "context_lines"@) == (m.list)(context),
    ensures
        ({
            let lines = (x.lines)(field(m, d, "msg"@, "text"@));
            &&& lines.len() > 0
            &&& (x.shown)(
                (m.apply)(value(m, diagnostic_formatter::formatter_form()), seq![d]),
            ) == (x.shown)(field(m, d, "viewer"@, "header"@)) + (x.shown)(lines[0]) + below(
                x,
                (x.shown)(field(m, d, "viewer"@, "indent"@)),
                lines.skip(1),
            ) + below(x, Seq::empty(), context) + seq!['\n']
        }),
{
    let none = Map::<nat, D>::empty();
    let env = none.insert(0, d);
    let text = field(m, d, "msg"@, "text"@);
    let lines = (x.lines)(text);
    let a = diagnostic_formatter::field_form(0, seq!["viewer"@, "header"@]);
    let b = values::call_form(Builtin::ListHead, seq![values::local_form(1)]);
    let c = diagnostic_formatter::continuations_form();
    let k = diagnostic_formatter::context_form();
    let n = diagnostic_formatter::newline_form();
    let all = diagnostic_formatter::append_form(seq![a, b, c, k, n]);
    let mark = values::embedded_form(values::atom_form("binary"@));
    let inner = values::call_form(Builtin::Anno, seq![mark, all]);
    let source_text = diagnostic_formatter::field_form(0, seq!["msg"@, "text"@]);
    let source = values::call_form(Builtin::TextLines, seq![source_text]);
    let body = values::apply_form(values::lambda_form(seq![1], inner), seq![source]);
    semantics::value_of_lazy(m, values::lambda_form(seq![0], body));
    lowered_meaning::beta(m, none, seq![0], body, seq![d]);
    lowered_meaning::bound_one(none, 0, d);
    lowered_meaning::meaning_of_let(m, env, 1, source, inner);
    meaning_of_field(m, env, 0, "msg"@, "text"@);
    semantics::meaning_of_call(m, env, Builtin::TextLines, seq![source_text]);
    semantics::meanings_of_one(m, env, source_text);
    let held = meaning(m, env, source);
    assert(held == (m.list)(lines) && lines.len() > 0) by {
        reveal(joins);
        assert(held == split(m, text));
    }
    let e = env.insert(1, held);
    semantics::meaning_of_call(m, e, Builtin::Anno, seq![mark, all]);
    semantics::meanings_of_two(m, e, mark, all);
    semantics::meaning_of_value(m, e, values::atom_form("binary"@));
    semantics::value_of_atom(m, "binary"@);
    meaning_of_field(m, e, 0, "viewer"@, "header"@);
    semantics::meaning_of_call(m, e, Builtin::ListHead, seq![values::local_form(1)]);
    semantics::meanings_of_one(m, e, values::local_form(1));
    semantics::meaning_of_local(m, e, 1);
    assert(meaning(m, e, b) == lines[0]) by {
        reveal(joins);
        assert(meaning(m, e, b) == head(m, lines));
    }
    shown_continuations(m, x, e, lines);
    shown_context(m, x, e, context);
    meaning_of_newline(m, x, e);
    shown_joined(m, x, e, seq![a], b);
    shown_joined(m, x, e, seq![a, b], c);
    shown_joined(m, x, e, seq![a, b, c], k);
    shown_joined(m, x, e, seq![a, b, c, k], n);
    assert(seq![a].push(b) =~= seq![a, b]);
    assert(seq![a, b].push(c) =~= seq![a, b, c]);
    assert(seq![a, b, c].push(k) =~= seq![a, b, c, k]);
    assert(seq![a, b, c, k].push(n) =~= seq![a, b, c, k, n]);
    assert(meaning(m, e, inner) == annotated(m, named(m, "binary"@), meaning(m, e, all)));
    assert((x.shown)(meaning(m, e, inner)) == (x.shown)(meaning(m, e, all))) by {
        reveal(joins);
    }
}

} // verus!
