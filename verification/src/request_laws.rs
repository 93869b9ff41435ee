//! What the requests of macros keep, and what they undo.

use vstd::prelude::*;
use crate::diagnostic::DiagnosticView;
use crate::expansion;
use crate::expansion::MacroLog;
use crate::macro_effects;
use crate::macro_effects::{PatternOutcome, RequestContext, RequestResult, TaskHalt};
use crate::macro_host::Journal;
use crate::macro_io;
use crate::macro_laws;
use crate::text;
use crate::values;
use crate::values::Value;

verus! {

/// The journal of a request.
pub open spec fn journal(context: RequestContext) -> Journal {
    context.transaction->0.journal@
}

/// A reader changes the place of the macro in its input and nothing else, and
/// not even that where it fails.
pub open spec fn only_reads(
    before: RequestContext,
    after: RequestContext,
    result: Result<RequestResult, TaskHalt>,
) -> bool {
    &&& after.transaction is Some == before.transaction is Some
    &&& before.transaction is Some ==> {
        &&& after.transaction->0.snapshot == before.transaction->0.snapshot
        &&& journal(after) == (Journal { cursor: journal(after).cursor, ..journal(before) })
        &&& result is Err || result == Ok::<RequestResult, TaskHalt>(RequestResult::Fail)
            ==> journal(after) == journal(before)
    }
}

/// Some answer of a reader.
pub open spec fn reads(
    arguments: Seq<Value>,
    outcome: PatternOutcome,
    before: RequestContext,
    after: RequestContext,
    result: Result<RequestResult, TaskHalt>,
) -> bool {
    ||| macro_effects::read_text_answer(arguments, before, after, result)
    ||| macro_effects::read_regex_answer(arguments, outcome, before, after, result)
    ||| macro_effects::read_text_span_answer(arguments, before, after, result)
    ||| macro_effects::read_data_answer(arguments, before, after, result)
    ||| macro_effects::read_separator_answer(arguments, before, after, result)
    ||| macro_effects::read_layout_answer(arguments, before, after, result)
    ||| macro_effects::read_anchor_answer(arguments, before, after, result)
    ||| macro_effects::read_layout_exit_answer(arguments, before, after, result)
    ||| macro_effects::read_end_answer(arguments, before, after, result)
}

/// Readers write nothing, and those that fail leave everything as it was.
pub proof fn readers_only_read(
    arguments: Seq<Value>,
    outcome: PatternOutcome,
    before: RequestContext,
    after: RequestContext,
    result: Result<RequestResult, TaskHalt>,
)
    requires
        reads(arguments, outcome, before, after, result),
    ensures
        only_reads(before, after, result),
{
}

/// A writer adds to the output and leaves the place of the macro in its input.
pub open spec fn only_writes(
    before: RequestContext,
    after: RequestContext,
    result: Result<RequestResult, TaskHalt>,
) -> bool {
    &&& after.transaction is Some == before.transaction is Some
    &&& before.transaction is Some ==> {
        let old = journal(before);
        let new = journal(after);
        &&& after.transaction->0.snapshot == before.transaction->0.snapshot
        &&& new.cursor == old.cursor
        &&& new.diagnostics == old.diagnostics
        &&& new.active == old.active
        &&& new.visited == old.visited
        &&& result is Err ==> new == old
        &&& result is Ok ==> new.output.len() == old.output.len() + 1 && new.output.drop_last()
            == old.output
    }
}

/// Some answer of a writer.
pub open spec fn writes(
    arguments: Seq<Value>,
    before: RequestContext,
    after: RequestContext,
    result: Result<RequestResult, TaskHalt>,
) -> bool {
    ||| macro_effects::write_text_answer(arguments, before, after, result)
    ||| macro_effects::write_data_answer(arguments, before, after, result)
    ||| macro_effects::write_separator_answer(arguments, before, after, result)
    ||| macro_effects::write_layout_answer(arguments, before, after, result)
    ||| macro_effects::write_anchor_answer(arguments, before, after, result)
    ||| macro_effects::write_layout_exit_answer(arguments, before, after, result)
}

/// Writers read nothing: each adds one output, or refuses and leaves everything
/// as it was.
pub proof fn writers_only_write(
    arguments: Seq<Value>,
    before: RequestContext,
    after: RequestContext,
    result: Result<RequestResult, TaskHalt>,
)
    requires
        writes(arguments, before, after, result),
    ensures
        only_writes(before, after, result),
{
    if before.transaction is Some && result is Ok {
        assert(journal(after).output.drop_last() =~= journal(before).output);
    }
}

/// A parser that ran under an explanation leaves it as it was entered: what was
/// active before is active again, and the explanation was visited.
pub proof fn cases_are_left_as_they_were_entered(
    case: Value,
    operation: Value,
    before: RequestContext,
    inside: RequestContext,
    done: RequestContext,
    after: RequestContext,
    entered: Result<RequestResult, TaskHalt>,
    left: Result<RequestResult, TaskHalt>,
)
    requires
        before.transaction is Some,
        done.transaction is Some,
        macro_effects::enter_case_answer(seq![case, operation], before, inside, entered),
        journal(done).active == journal(inside).active,
        macro_effects::exit_case_answer(Seq::empty(), done, after, left),
    ensures
        journal(inside).active.last() == case,
        journal(inside).visited.last() == case,
        left == Ok::<RequestResult, TaskHalt>(RequestResult::ReturnUnit),
        journal(after) == (Journal { active: journal(before).active, ..journal(done) }),
{
    assert(journal(before).active.push(case).drop_last() =~= journal(before).active);
}

/// A text that was read is the next text of the input.
pub proof fn texts_are_read_from_the_input(
    argument: Value,
    before: RequestContext,
    after: RequestContext,
)
    requires
        before.transaction is Some,
        macro_laws::stands(journal(before).cursor, before.transaction->0.snapshot.input),
        macro_effects::read_text_answer(
            seq![argument],
            before,
            after,
            Ok(RequestResult::ReturnUnit),
        ),
    ensures
        macro_effects::decoded(argument) is Some ==> macro_laws::text_before(
            journal(after).cursor,
            before.transaction->0.snapshot.input,
        ) == macro_laws::text_before(
            journal(before).cursor,
            before.transaction->0.snapshot.input,
        ) + macro_effects::decoded(argument)->0,
{
    macro_laws::reading_consumes_what_was_expected(
        journal(before).cursor,
        before.transaction->0.snapshot.input,
        macro_effects::decoded(argument)->0,
        journal(after).cursor,
    );
}

proof fn boundary_of_rest(text: Seq<char>, offset: int, from: int, bytes: nat)
    requires
        0 <= offset <= text.len(),
        0 <= from,
    ensures
        macro_io::boundary(text, offset + from, bytes) == match macro_io::boundary(
            text.skip(offset),
            from,
            bytes,
        ) {
            Some(n) => Some(offset + n),
            None => None,
        },
    decreases text.len() - offset - from,
{
    let rest = text.skip(offset);
    if bytes > 0 && from < rest.len() && text::utf8_width(rest[from]) <= bytes {
        assert(rest[from] == text[offset + from]);
        boundary_of_rest(
            text,
            offset,
            from + 1,
            (bytes - text::utf8_width(rest[from])) as nat,
        );
    }
}

/// A span that was read is the next text of the input, of so many bytes.
pub proof fn spans_are_read_from_the_input(
    before: RequestContext,
    after: RequestContext,
    value: Value,
    bytes: nat,
    invalid: Seq<char>,
)
    requires
        before.transaction is Some,
        macro_laws::stands(journal(before).cursor, before.transaction->0.snapshot.input),
        macro_effects::read_bytes(before, after, Ok(RequestResult::Return(value)), bytes, invalid),
    ensures
        ({
            let input = before.transaction->0.snapshot.input;
            let old = macro_laws::text_before(journal(before).cursor, input);
            let new = macro_laws::text_before(journal(after).cursor, input);
            exists|span: Seq<char>|
                values::value_form(value) == #[trigger] macro_effects::span_form(span) && new
                    == old + span && text::utf8_size(span) == bytes
        }),
{
    let input = before.transaction->0.snapshot.input;
    let c = journal(before).cursor;
    let next = journal(after).cursor;
    let rest = macro_io::run(c, input)->0;
    let element = input.elements@[c.element];
    let text = macro_laws::plain(element);
    let n = macro_io::boundary(rest, 0, bytes)->0;
    let span = rest.take(n);
    macro_io::boundary_bounds(rest, 0, bytes);
    boundary_of_rest(text, c.offset, 0, bytes);
    assert(text.take(c.offset) + span =~= text.take(c.offset + n));
    let done = macro_laws::joined(input.elements@.take(c.element));
    let old = macro_laws::text_before(c, input);
    let new = macro_laws::text_before(next, input);
    assert(text.take(0) =~= Seq::empty());
    assert(old == done + text.take(c.offset));
    if bytes == 0 {
        assert(n == 0);
        assert(old + span =~= old);
    } else {
        let more = input.elements@.take(c.element + 1);
        assert(more.drop_last() =~= input.elements@.take(c.element));
        assert(more.last() == element);
        assert(text.take(text.len() as int) =~= text);
        assert(done + text.take(c.offset) + span =~= done + text.take(c.offset + n));
        assert(new == done + text.take(c.offset + n));
    }
    assert(values::value_form(value) == macro_effects::span_form(span));
}

/// Macros run from the last to the first, and what they log is told in source
/// order: what ran later is told first.
pub proof fn later_macros_are_told_first(first: Seq<MacroLog>, second: Seq<MacroLog>)
    ensures
        expansion::in_source_order(first + second) == expansion::in_source_order(second)
            + expansion::in_source_order(first),
    decreases second.len(),
{
    if second.len() == 0 {
        assert(first + second =~= first);
        assert(Seq::<DiagnosticView>::empty() + expansion::in_source_order(first)
            =~= expansion::in_source_order(first));
    } else {
        let front = second.drop_last();
        later_macros_are_told_first(first, front);
        assert((first + second).drop_last() =~= first + front);
        assert((first + second).last() == second.last());
        let own = expansion::logged(second.last());
        let a = expansion::in_source_order(front);
        let b = expansion::in_source_order(first);
        assert(own + (a + b) =~= (own + a) + b);
    }
}

/// Within one macro, messages are told in the order in which it logged them.
pub proof fn messages_keep_their_order(log: MacroLog)
    ensures
        expansion::in_source_order(seq![log]).len() == log.messages@.len(),
        forall|k: int|
            0 <= k < log.messages@.len() ==> expansion::in_source_order(seq![log])[k].message == (
            #[trigger] log.messages@[k]).message@,
{
    let logs = seq![log];
    assert(logs.drop_last() =~= Seq::empty());
    reveal_with_fuel(expansion::in_source_order, 2);
    assert(expansion::in_source_order(logs) =~= expansion::logged(log));
}

} // verus!
