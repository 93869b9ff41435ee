//! The requests that a macro can make, and how each of them is answered.
//!
//! Arguments arrive evaluated. A request that is answered out of turn halts the
//! run; one that does not apply fails its alternative.

use vstd::prelude::*;
use crate::compiler_values::singleton_code;
use crate::diagnostic::Severity;
use crate::macro_host;
use crate::macro_host::{Diagnostic, Journal, MacroJournal, MacroSnapshot};
use crate::macro_io;
use crate::macro_io::{Cursor, MacroOutput};
use crate::text;
use crate::text::{byte_len, chars_of, utf8_text};
use crate::values;
use crate::values::{Form, Key, ResolvedExpr, Shape, Value};

verus! {

#[derive(Debug, Clone, Copy, PartialEq, Eq, Structural)]
pub enum MacroRequest {
    Environment,
    Log,
    Case,
    CaseExit,
    ReadText,
    ReadRegex,
    ReadTextSpan,
    ReadData,
    ReadSeparator,
    ReadLayout,
    ReadAnchor,
    ReadLayoutExit,
    ReadEnd,
    WriteText,
    WriteData,
    WriteSeparator,
    WriteLayout,
    WriteAnchor,
    WriteLayoutExit,
}

/// How a request is found, and how many arguments it takes. A request without
/// a path is known to the compiler alone.
#[derive(Debug, PartialEq, Eq)]
pub struct EffectRequestSpec {
    pub path: Vec<String>,
    pub tag: Vec<String>,
    pub arity: usize,
    pub request: MacroRequest,
}

/// Why a run is halted.
#[derive(Debug, PartialEq, Eq)]
pub struct TaskHalt {
    pub message: String,
}

/// The answer to a request.
#[derive(Debug, PartialEq, Eq)]
pub enum RequestResult {
    Return(Value),
    ReturnUnit,
    Fail,
    /// Runs an operation, and then another that closes its scope.
    Scoped { operation: Value, close: Value },
}

/// The alternative that a request belongs to.
#[derive(Debug, PartialEq, Eq)]
pub struct Transaction {
    pub snapshot: MacroSnapshot,
    pub journal: MacroJournal,
}

#[derive(Debug, PartialEq, Eq)]
pub struct RequestContext {
    pub transaction: Option<Transaction>,
}

/// What an evaluator made of the path of `.env`.
#[derive(Debug, PartialEq, Eq)]
pub enum EnvironmentOutcome {
    /// Why the argument is no path.
    NoPath(TaskHalt),
    /// Why following the path halted.
    Halted(TaskHalt),
    Found(Value),
}

/// What the arguments of a request amount to, where only an evaluator or a
/// matcher can say.
#[derive(Debug, PartialEq, Eq)]
pub struct Prepared {
    pub found: EnvironmentOutcome,
    pub severity: Result<Severity, TaskHalt>,
    pub message: Result<String, TaskHalt>,
    pub outcome: PatternOutcome,
}

/// What a text pattern found at the start of a run.
#[derive(Debug, PartialEq, Eq)]
pub enum PatternOutcome {
    Invalid(String),
    NoMatch,
    /// The number of bytes that match.
    Matched(usize),
}

pub open spec fn refused(result: Result<RequestResult, TaskHalt>, message: Seq<char>) -> bool {
    result matches Err(halt) && halt.message@ == message
}

pub open spec fn escaped(request: Seq<char>) -> Seq<char> {
    request + " escaped its isolated transaction"@
}

fn halt(message: &str) -> (halt: TaskHalt)
    ensures
        halt.message@ == message@,
{
    TaskHalt { message: message.to_owned() }
}

/// Halts a request that is made outside a transaction.
pub fn macro_transaction(context: &RequestContext, request: &str) -> (result: Result<(), TaskHalt>)
    ensures
        match result {
            Ok(_) => context.transaction is Some,
            Err(halt) => context.transaction is None && halt.message@ == escaped(request@),
        },
{
    if context.transaction.is_some() {
        Ok(())
    } else {
        let mut message = request.to_owned();
        text::push_text(&mut message, " escaped its isolated transaction");
        Err(TaskHalt { message })
    }
}

/// The names of a tag.
pub open spec fn tag_of(name: Seq<char>) -> Seq<Seq<char>> {
    seq!["macro_runtime"@, "g0"@, "request"@, name]
}

/// A request at a path of two names.
pub fn request(first: &str, second: &str, tag: &str, arity: usize, kind: MacroRequest) -> (found:
    EffectRequestSpec)
    ensures
        text::texts(found.path@) == seq![first@, second@],
        text::texts(found.tag@) == tag_of(tag@),
        found.arity == arity,
        found.request == kind,
{
    let mut path: Vec<String> = Vec::new();
    path.push(first.to_owned());
    path.push(second.to_owned());
    let mut names: Vec<String> = Vec::new();
    names.push("macro_runtime".to_owned());
    names.push("g0".to_owned());
    names.push("request".to_owned());
    names.push(tag.to_owned());
    proof {
        assert(text::texts(path@) =~= seq![first@, second@]);
        assert(text::texts(names@) =~= tag_of(tag@));
    }
    EffectRequestSpec { path, tag: names, arity, request: kind }
}

/// The names of the tag of a request that closes a scope.
pub open spec fn exit_tag(name: Seq<char>) -> Seq<Seq<char>> {
    seq!["macro_runtime"@, "g0"@, "request"@, name, "exit"@]
}

/// The effect that makes a request which only the compiler knows.
pub open spec fn hidden_form(tag: Seq<Seq<char>>) -> Form {
    values::lazy_form(
        singleton_form(
            values::embedded_form(
                values::shaped(
                    Shape::Dict,
                    seq![
                        values::entry_form(
                            values::shaped(Shape::KeyPath, tag.map_values(|s: Seq<char>| Form::Text(s))),
                            values::shaped(Shape::List, Seq::empty()),
                        ),
                    ],
                ),
            ),
        ),
    )
}

/// An effect that gives a constant request to the effect interface.
pub open spec fn singleton_form(request: Form) -> Form {
    crate::compiler_values::singleton("eff"@, values::lambda_form(seq![0], request))
}

/// An effect that makes a hidden request.
pub fn hidden_effect(name: &str) -> (effect: Value)
    ensures
        values::value_form(effect) == hidden_form(exit_tag(name@)),
{
    let mut names: Vec<String> = Vec::new();
    names.push("macro_runtime".to_owned());
    names.push("g0".to_owned());
    names.push("request".to_owned());
    names.push(name.to_owned());
    names.push("exit".to_owned());
    assert(text::texts(names@) =~= exit_tag(name@));
    let key = values::global_key(names);
    let none: Vec<Value> = Vec::new();
    let mut entries: Vec<(Key, Value)> = Vec::new();
    proof {
        values::no_forms();
        assert(none@ =~= Seq::empty());
        assert(entries@ =~= Seq::empty());
    }
    let entry = (key, Value::list(none));
    proof {
        values::entries_form_push(entries@, entry);
    }
    entries.push(entry);
    let request = Value::dict(entries);
    assert(values::entries_form(entries@) =~= seq![
        values::entry_form(
            values::shaped(
                Shape::KeyPath,
                exit_tag(name@).map_values(|s: Seq<char>| Form::Text(s)),
            ),
            values::shaped(Shape::List, Seq::empty()),
        ),
    ]);
    let mut locals = values::ResolverContext::new();
    let api = locals.push_internal_binding("<effect-api>");
    let mut params: Vec<values::BindingId> = Vec::new();
    params.push(api);
    assert(values::ids(params@) =~= seq![0nat]);
    Value::lazy(
        singleton_code("eff", ResolvedExpr::lambda(params, ResolvedExpr::embedded(request))),
    )
}

/// The value of a span of text.
pub open spec fn span_form(span: Seq<char>) -> Form {
    values::shaped(
        Shape::Dict,
        seq![values::entry_form(values::atom_key("span"@), values::text_form(span))],
    )
}

pub fn span_value(span: &str) -> (value: Value)
    ensures
        values::value_form(value) == span_form(span@),
{
    let mut entries: Vec<(Key, Value)> = Vec::new();
    let entry = (values::name_as_key("span"), Value::binary_from_text(span));
    proof {
        values::no_forms();
        assert(entries@ =~= Seq::empty());
        values::entries_form_push(entries@, entry);
    }
    entries.push(entry);
    assert(values::entries_form(entries@) =~= seq![
        values::entry_form(values::atom_key("span"@), values::text_form(span@)),
    ]);
    Value::dict(entries)
}

/// The text that a value spells in UTF-8.
pub open spec fn decoded(value: Value) -> Option<Seq<char>> {
    match value {
        Value::Binary(bytes) => if vstd::utf8::valid_utf8(bytes@) {
            Some(vstd::utf8::decode_utf8(bytes@))
        } else {
            None
        },
        _ => None,
    }
}

/// The text that a value spells, if it spells one.
pub fn decoded_text(value: &Value) -> (found: Option<String>)
    ensures
        match found {
            Some(text) => decoded(*value) == Some(text@),
            None => decoded(*value) is None,
        },
{
    match value {
        Value::Binary(bytes) => match utf8_text(bytes.as_slice()) {
            Ok(found) => {
                proof {
                    vstd::utf8::encode_utf8_valid_utf8(found@);
                    vstd::utf8::encode_utf8_decode_utf8(found@);
                }
                Some(found)
            },
            Err(_) => None,
        },
        _ => None,
    }
}

/// Why a value is no text.
pub open spec fn text_error(value: Value, request: Seq<char>) -> Option<Seq<char>> {
    if !(value is Binary) {
        Some(request + " requires text"@)
    } else if decoded(value) is None {
        Some(request + " requires UTF-8 text"@)
    } else {
        None
    }
}

/// The text of an argument.
pub fn text_value(value: &Value, request: &str) -> (result: Result<String, TaskHalt>)
    ensures
        match result {
            Ok(found) => decoded(*value) == Some(found@),
            Err(halt) => text_error(*value, request@) == Some(halt.message@),
        },
{
    match decoded_text(value) {
        Some(found) => Ok(found),
        None => {
            let mut message = request.to_owned();
            match value {
                Value::Binary(_) => {
                    text::push_text(&mut message, " requires UTF-8 text");
                },
                _ => {
                    text::push_text(&mut message, " requires text");
                },
            }
            Err(TaskHalt { message })
        },
    }
}

/// The scalars that only separate or control text.
pub open spec fn restricted(c: char) -> bool {
    c <= ' ' || c == '\u{7f}'
}

/// Why a text cannot be written.
pub open spec fn written_error(written: Seq<char>) -> Option<Seq<char>> {
    if exists|k: int| 0 <= k < written.len() && restricted(#[trigger] written[k]) {
        Some(
            "macro `.write.text` cannot emit ASCII C0 controls, SP, or DEL; use `.write.sep` within an item or `.write.anchor` between layout items"@,
        )
    } else if exists|k: int|
        0 <= k < written.len() && (#[trigger] written[k] == '@' || written[k] == '#') {
        Some("macro `.write.text` cannot emit `@` or `#`"@)
    } else {
        None
    }
}

/// Text that a macro writes holds no separators, controls or macro marks.
pub fn validate_written_text(written: &str) -> (result: Result<(), &'static str>)
    ensures
        match result {
            Ok(_) => written_error(written@) is None,
            Err(message) => written_error(written@) == Some(message@),
        },
{
    let chars = chars_of(written);
    let mut marked = false;
    let mut k: usize = 0;
    while k < chars.len()
        invariant
            chars@ == written@,
            k <= chars.len(),
            forall|j: int| 0 <= j < k ==> !restricted(#[trigger] written@[j]),
            marked == (exists|j: int|
                0 <= j < k && (#[trigger] written@[j] == '@' || written@[j] == '#')),
        decreases chars.len() - k,
    {
        let c = chars[k];
        if c <= ' ' || c == '\u{7f}' {
            assert(restricted(written@[k as int]));
            return Err(
                "macro `.write.text` cannot emit ASCII C0 controls, SP, or DEL; use `.write.sep` within an item or `.write.anchor` between layout items",
            );
        }
        if c == '@' || c == '#' {
            assert(written@[k as int] == '@' || written@[k as int] == '#');
            marked = true;
        }
        k = k + 1;
    }
    if marked {
        Err("macro `.write.text` cannot emit `@` or `#`")
    } else {
        Ok(())
    }
}

/// A journal after a text. An empty text fills no item.
pub open spec fn wrote_text(journal: Journal, written: String) -> Journal {
    macro_host::wrote(
        if written@.len() > 0 {
            macro_host::filled(journal)
        } else {
            journal
        },
        MacroOutput::Text(written),
    )
}

/// The transaction of a context after a request: the snapshot stays.
pub open spec fn answered(before: RequestContext, after: RequestContext, journal: Journal) -> bool {
    &&& before.transaction is Some
    &&& after.transaction is Some
    &&& after.transaction->0.snapshot == before.transaction->0.snapshot
    &&& after.transaction->0.journal@ == journal
}

/// What has to be demanded to answer `.env` for a path.
pub open spec fn environment_form(environment: Value, path: Value) -> Form {
    values::lazy_form(
        values::access_form(
            values::provided_form(values::value_form(environment)),
            seq![
                values::shaped(
                    Shape::PartPathIndex,
                    seq![values::provided_form(values::value_form(path))],
                ),
            ],
        ),
    )
}

/// What has to be demanded to answer `.env` for a path.
pub fn environment_demand(snapshot: &MacroSnapshot, path: &Value) -> (demand: Value)
    ensures
        values::value_form(demand) == environment_form(snapshot.environment, *path),
{
    let step = values::path_step(ResolvedExpr::provided(path.copy()));
    Value::lazy(
        ResolvedExpr::access(ResolvedExpr::provided(snapshot.environment.copy()), step),
    )
}

/// How the request of `environment` is answered.
pub open spec fn environment_answer(
    arguments: Seq<Value>,
    found: EnvironmentOutcome,
    before: RequestContext,
    after: RequestContext,
    result: Result<RequestResult, TaskHalt>,
) -> bool {
    if arguments.len() != 1 {
        refused(result, "macro `.env` received the wrong number of arguments"@) && after == before
    } else if found is NoPath {
        result == Err::<RequestResult, TaskHalt>(found->NoPath_0) && after == before
    } else if before.transaction is None {
        refused(result, escaped("macro `.env`"@)) && after == before
    } else {
        after == before && result == match found {
            EnvironmentOutcome::Found(value) => Ok::<RequestResult, TaskHalt>(
                RequestResult::Return(value),
            ),
            EnvironmentOutcome::Halted(halt) => Err(halt),
            EnvironmentOutcome::NoPath(halt) => Err(halt),
        }
    }
}

/// A value of the environment, by its path. The outcome is what came of the
/// demand of `environment_demand`.
pub fn environment(
    arguments: Vec<Value>,
    found: EnvironmentOutcome,
    context: &mut RequestContext,
) -> (result: Result<RequestResult, TaskHalt>)
    ensures
        environment_answer(arguments@, found, *old(context), *final(context), result),
{
    if arguments.len() != 1 {
        return Err(halt("macro `.env` received the wrong number of arguments"));
    }
    match found {
        EnvironmentOutcome::NoPath(halt) => Err(halt),
        EnvironmentOutcome::Halted(halt) => {
            macro_transaction(context, "macro `.env`")?;
            Err(halt)
        },
        EnvironmentOutcome::Found(value) => {
            macro_transaction(context, "macro `.env`")?;
            Ok(RequestResult::Return(value))
        },
    }
}

/// How the request of `log` is answered.
pub open spec fn log_answer(
    arguments: Seq<Value>,
    severity: Result<Severity, TaskHalt>,
    message: Result<String, TaskHalt>,
    before: RequestContext,
    after: RequestContext,
    result: Result<RequestResult, TaskHalt>,
) -> bool {
    if arguments.len() != 2 {
        refused(result, "macro `.log` received the wrong number of arguments"@) && after == before
    } else if severity is Err {
        result == Err::<RequestResult, TaskHalt>(severity->Err_0) && after == before
    } else if message is Err {
        result == Err::<RequestResult, TaskHalt>(message->Err_0) && after == before
    } else if before.transaction is None {
        refused(result, escaped("macro `.log`"@)) && after == before
    } else {
        let t = before.transaction->0;
        result == Ok::<RequestResult, TaskHalt>(RequestResult::ReturnUnit) && answered(
            before,
            after,
            Journal {
                diagnostics: t.journal@.diagnostics.push(
                    Diagnostic { severity: severity->Ok_0, message: message->Ok_0 },
                ),
                ..t.journal@
            },
        )
    }
}

/// Emits a message. The severity and the message are what the arguments were
/// evaluated to, or why that halted.
pub fn log(
    arguments: Vec<Value>,
    severity: Result<Severity, TaskHalt>,
    message: Result<String, TaskHalt>,
    context: &mut RequestContext,
) -> (result: Result<RequestResult, TaskHalt>)
    ensures
        log_answer(arguments@, severity, message, *old(context), *final(context), result),
{
    if arguments.len() != 2 {
        return Err(halt("macro `.log` received the wrong number of arguments"));
    }
    let severity = severity?;
    let message = message?;
    macro_transaction(context, "macro `.log`")?;
    match &mut context.transaction {
        Some(transaction) => {
            transaction.journal.push_diagnostic(Diagnostic { severity, message });
            Ok(RequestResult::ReturnUnit)
        },
        None => Err(halt("")),
    }
}

/// How the request of `enter_case` is answered.
pub open spec fn enter_case_answer(
    arguments: Seq<Value>,
    before: RequestContext,
    after: RequestContext,
    result: Result<RequestResult, TaskHalt>,
) -> bool {
    if arguments.len() != 2 {
        refused(result, "macro `.case` received the wrong number of arguments"@) && after == before
    } else if before.transaction is None {
        refused(result, escaped("macro `.case`"@)) && after == before
    } else {
        let t = before.transaction->0;
        (result matches Ok(RequestResult::Scoped { operation, close }) && operation
            == arguments[1] && values::value_form(close) == hidden_form(exit_tag("case"@)))
            && answered(
            before,
            after,
            Journal {
                active: t.journal@.active.push(arguments[0]),
                visited: t.journal@.visited.push(arguments[0]),
                ..t.journal@
            },
        )
    }
}

/// Runs a parser under an explanation.
pub fn enter_case(arguments: Vec<Value>, context: &mut RequestContext) -> (result: Result<
    RequestResult,
    TaskHalt,
>)
    ensures
        enter_case_answer(arguments@, *old(context), *final(context), result),
{
    if arguments.len() != 2 {
        return Err(halt("macro `.case` received the wrong number of arguments"));
    }
    macro_transaction(context, "macro `.case`")?;
    match &mut context.transaction {
        Some(transaction) => {
            transaction.journal.visited_cases.push(arguments[0].copy());
            transaction.journal.active_cases.push(arguments[0].copy());
            Ok(
                RequestResult::Scoped {
                    operation: arguments[1].copy(),
                    close: hidden_effect("case"),
                },
            )
        },
        None => Err(halt("")),
    }
}

/// How the request of `exit_case` is answered.
pub open spec fn exit_case_answer(
    arguments: Seq<Value>,
    before: RequestContext,
    after: RequestContext,
    result: Result<RequestResult, TaskHalt>,
) -> bool {
    if arguments.len() != 0 {
        refused(result, "internal macro case close received arguments"@) && after == before
    } else if before.transaction is None {
        refused(result, escaped("macro case close"@)) && after == before
    } else {
        let t = before.transaction->0;
        if t.journal@.active.len() == 0 {
            refused(result, "macro case stack became unbalanced"@) && answered(
                before,
                after,
                t.journal@,
            )
        } else {
            result == Ok::<RequestResult, TaskHalt>(RequestResult::ReturnUnit) && answered(
                before,
                after,
                Journal { active: t.journal@.active.drop_last(), ..t.journal@ },
            )
        }
    }
}

/// Leaves the innermost explanation.
pub fn exit_case(arguments: Vec<Value>, context: &mut RequestContext) -> (result: Result<
    RequestResult,
    TaskHalt,
>)
    ensures
        exit_case_answer(arguments@, *old(context), *final(context), result),
{
    if arguments.len() != 0 {
        return Err(halt("internal macro case close received arguments"));
    }
    macro_transaction(context, "macro case close")?;
    match &mut context.transaction {
        Some(transaction) => {
            let ghost had = transaction.journal@.active;
            if transaction.journal.active_cases.len() == 0 {
                return Err(halt("macro case stack became unbalanced"));
            }
            transaction.journal.active_cases.pop();
            assert(transaction.journal@.active =~= had.drop_last());
            Ok(RequestResult::ReturnUnit)
        },
        None => Err(halt("")),
    }
}

/// How the request of `read_text` is answered.
pub open spec fn read_text_answer(
    arguments: Seq<Value>,
    before: RequestContext,
    after: RequestContext,
    result: Result<RequestResult, TaskHalt>,
) -> bool {
    if arguments.len() != 1 {
        refused(result, "macro `.read.text` received the wrong number of arguments"@) && after == before
    } else if text_error(arguments[0], "macro `.read.text`"@) is Some {
        refused(result, text_error(arguments[0], "macro `.read.text`"@)->0) && after == before
    } else if before.transaction is None {
        refused(result, escaped("macro `.read.text`"@)) && after == before
    } else {
        let t = before.transaction->0;
        match macro_io::read(
            t.journal@.cursor,
            t.snapshot.input,
            decoded(arguments[0])->0,
        ) {
            Some(next) => result == Ok::<RequestResult, TaskHalt>(RequestResult::ReturnUnit)
                && answered(
                before,
                after,
                Journal { cursor: next, ..t.journal@ },
            ),
            None => result == Ok::<RequestResult, TaskHalt>(RequestResult::Fail) && answered(
                before,
                after,
                t.journal@,
            ),
        }
    }
}

/// Reads a text.
pub fn read_text(arguments: Vec<Value>, context: &mut RequestContext) -> (result: Result<
    RequestResult,
    TaskHalt,
>)
    ensures
        read_text_answer(arguments@, *old(context), *final(context), result),
{
    if arguments.len() != 1 {
        return Err(halt("macro `.read.text` received the wrong number of arguments"));
    }
    let expected = text_value(&arguments[0], "macro `.read.text`")?;
    macro_transaction(context, "macro `.read.text`")?;
    match &mut context.transaction {
        Some(transaction) => {
            if transaction.journal.cursor.read_text(&transaction.snapshot.input, expected.as_str()) {
                Ok(RequestResult::ReturnUnit)
            } else {
                Ok(RequestResult::Fail)
            }
        },
        None => Err(halt("")),
    }
}

/// How the request of `read_regex` is answered.
pub open spec fn read_regex_answer(
    arguments: Seq<Value>,
    outcome: PatternOutcome, before: RequestContext,
    after: RequestContext,
    result: Result<RequestResult, TaskHalt>,
) -> bool {
    if arguments.len() != 1 {
        refused(result, "macro `.read.regex` received the wrong number of arguments"@) && after == before
    } else if text_error(arguments[0], "macro `.read.regex`"@) is Some {
        refused(result, text_error(arguments[0], "macro `.read.regex`"@)->0) && after == before
    } else if outcome is Invalid {
        refused(result, "invalid macro text pattern: "@ + (outcome->Invalid_0)@)
            && after == before
    } else if before.transaction is None {
        refused(result, escaped("macro `.read.regex`"@)) && after == before
    } else {
        let t = before.transaction->0;
        match outcome {
            PatternOutcome::Invalid(_) => false,
            PatternOutcome::NoMatch => result == Ok::<RequestResult, TaskHalt>(
                RequestResult::Fail,
            ) && answered(before, after, t.journal@),
            PatternOutcome::Matched(bytes) => read_bytes(
                before,
                after,
                result,
                bytes as nat,
                "macro regex reader produced an invalid textual boundary"@,
            ),
        }
    }
}

/// Reads what a text pattern matches. The outcome is what the pattern of the argument finds at the start of the current run.
pub fn read_regex(arguments: Vec<Value>, outcome: PatternOutcome, context: &mut RequestContext) -> (result: Result<
    RequestResult,
    TaskHalt,
>)
    ensures
        read_regex_answer(arguments@, outcome, *old(context), *final(context), result),
{
    if arguments.len() != 1 {
        return Err(halt("macro `.read.regex` received the wrong number of arguments"));
    }
    text_value(&arguments[0], "macro `.read.regex`")?;
    match &outcome {
        PatternOutcome::Invalid(message) => {
            let mut told = "invalid macro text pattern: ".to_owned();
            text::push_text(&mut told, message.as_str());
            return Err(TaskHalt { message: told });
        },
        _ => {},
    }
    macro_transaction(context, "macro `.read.regex`")?;
    match &mut context.transaction {
        Some(transaction) => {
            match outcome {
                PatternOutcome::Invalid(message) => Err(TaskHalt { message }),
                PatternOutcome::NoMatch => Ok(RequestResult::Fail),
                PatternOutcome::Matched(bytes) => take_run(
                    transaction,
                    bytes,
                    "macro regex reader produced an invalid textual boundary",
                ),
            }
        },
        None => Err(halt("")),
    }
}

/// How the request of `read_text_span` is answered.
pub open spec fn read_text_span_answer(
    arguments: Seq<Value>,
    before: RequestContext,
    after: RequestContext,
    result: Result<RequestResult, TaskHalt>,
) -> bool {
    if arguments.len() != 0 {
        refused(result, "macro `.read.text_span` received the wrong number of arguments"@) && after == before
    } else if before.transaction is None {
        refused(result, escaped("macro `.read.text_span`"@)) && after == before
    } else {
        let t = before.transaction->0;
        match macro_io::run(t.journal@.cursor, t.snapshot.input) {
            Some(rest) => if rest.len() == 0 {
                result == Ok::<RequestResult, TaskHalt>(RequestResult::Fail) && answered(
                    before,
                    after,
                    t.journal@,
                )
            } else {
                read_bytes(
                    before,
                    after,
                    result,
                    text::utf8_size(rest),
                    "macro text-span reader produced an invalid textual boundary"@,
                )
            },
            None => result == Ok::<RequestResult, TaskHalt>(RequestResult::Fail) && answered(
                before,
                after,
                t.journal@,
            ),
        }
    }
}

/// Reads the rest of the current run.
pub fn read_text_span(arguments: Vec<Value>, context: &mut RequestContext) -> (result: Result<
    RequestResult,
    TaskHalt,
>)
    ensures
        read_text_span_answer(arguments@, *old(context), *final(context), result),
{
    if arguments.len() != 0 {
        return Err(halt("macro `.read.text_span` received the wrong number of arguments"));
    }
    macro_transaction(context, "macro `.read.text_span`")?;
    match &mut context.transaction {
        Some(transaction) => {
            let found = transaction.journal.cursor.textual_run(&transaction.snapshot.input);
            let span = match found {
                Some(span) => span,
                None => {
                    return Ok(RequestResult::Fail);
                },
            };
            let bytes = byte_len(span.as_str());
            proof {
                text::utf8_size_grows(span@, 0, span@.len() as int);
                assert(span@.take(span@.len() as int) =~= span@);
                assert(span@.take(0) =~= Seq::empty());
            }
            if bytes == 0 {
                return Ok(RequestResult::Fail);
            }
            take_run(
                transaction,
                bytes,
                "macro text-span reader produced an invalid textual boundary",
            )
        },
        None => Err(halt("")),
    }
}

/// How the request of `read_data` is answered.
pub open spec fn read_data_answer(
    arguments: Seq<Value>,
    before: RequestContext,
    after: RequestContext,
    result: Result<RequestResult, TaskHalt>,
) -> bool {
    if arguments.len() != 0 {
        refused(result, "macro `.read.data` received the wrong number of arguments"@) && after == before
    } else if before.transaction is None {
        refused(result, escaped("macro `.read.data`"@)) && after == before
    } else {
        let t = before.transaction->0;
        let c = t.journal@.cursor;
        if macro_io::readable(c, t.snapshot.input) && c.offset == 0
            && t.snapshot.input.elements@[c.element].kind is Data {
            (result matches Ok(RequestResult::Return(value))
                && t.snapshot.input.elements@[c.element].kind
                == macro_io::MacroInputKind::Data(value)) && answered(
                before,
                after,
                Journal { cursor: macro_io::finished(c), ..t.journal@ },
            )
        } else {
            result == Ok::<RequestResult, TaskHalt>(RequestResult::Fail) && answered(
                before,
                after,
                t.journal@,
            )
        }
    }
}

/// Reads the data at the cursor.
pub fn read_data(arguments: Vec<Value>, context: &mut RequestContext) -> (result: Result<
    RequestResult,
    TaskHalt,
>)
    ensures
        read_data_answer(arguments@, *old(context), *final(context), result),
{
    if arguments.len() != 0 {
        return Err(halt("macro `.read.data` received the wrong number of arguments"));
    }
    macro_transaction(context, "macro `.read.data`")?;
    match &mut context.transaction {
        Some(transaction) => {
            match transaction.journal.cursor.read_data(&transaction.snapshot.input) {
                Some(value) => Ok(RequestResult::Return(value)),
                None => Ok(RequestResult::Fail),
            }
        },
        None => Err(halt("")),
    }
}

/// How the request of `read_separator` is answered.
pub open spec fn read_separator_answer(
    arguments: Seq<Value>,
    before: RequestContext,
    after: RequestContext,
    result: Result<RequestResult, TaskHalt>,
) -> bool {
    if arguments.len() != 0 {
        refused(result, "macro `.read.sep` received the wrong number of arguments"@) && after == before
    } else if before.transaction is None {
        refused(result, escaped("macro `.read.sep`"@)) && after == before
    } else {
        let t = before.transaction->0;
        let c = t.journal@.cursor;
        if c.element < macro_io::limit(c, t.snapshot.input) && c.offset == 0
            && t.snapshot.input.elements@[c.element].separated && !c.separator {
            result == Ok::<RequestResult, TaskHalt>(RequestResult::ReturnUnit) && answered(
                before,
                after,
                Journal { cursor: Cursor { separator: true, ..c }, ..t.journal@ },
            )
        } else {
            result == Ok::<RequestResult, TaskHalt>(RequestResult::Fail) && answered(
                before,
                after,
                t.journal@,
            )
        }
    }
}

/// Reads what separates the current element from the one before it.
pub fn read_separator(arguments: Vec<Value>, context: &mut RequestContext) -> (result: Result<
    RequestResult,
    TaskHalt,
>)
    ensures
        read_separator_answer(arguments@, *old(context), *final(context), result),
{
    if arguments.len() != 0 {
        return Err(halt("macro `.read.sep` received the wrong number of arguments"));
    }
    macro_transaction(context, "macro `.read.sep`")?;
    match &mut context.transaction {
        Some(transaction) => {
            if transaction.journal.cursor.read_separator(&transaction.snapshot.input) {
                Ok(RequestResult::ReturnUnit)
            } else {
                Ok(RequestResult::Fail)
            }
        },
        None => Err(halt("")),
    }
}

/// How the request of `read_layout` is answered.
pub open spec fn read_layout_answer(
    arguments: Seq<Value>,
    before: RequestContext,
    after: RequestContext,
    result: Result<RequestResult, TaskHalt>,
) -> bool {
    if arguments.len() != 1 {
        refused(result, "macro `.read.layout` received the wrong number of arguments"@) && after == before
    } else if before.transaction is None {
        refused(result, escaped("macro `.read.layout`"@)) && after == before
    } else {
        let t = before.transaction->0;
        match macro_io::entered(t.journal@.cursor, t.snapshot.input) {
            Some(next) => (result matches Ok(RequestResult::Scoped { operation, close })
                && operation == arguments[0] && values::value_form(close) == hidden_form(
                exit_tag("read_layout"@),
            )) && answered(
                before,
                after,
                Journal { cursor: next, ..t.journal@ },
            ),
            None => result == Ok::<RequestResult, TaskHalt>(RequestResult::Fail) && answered(
                before,
                after,
                t.journal@,
            ),
        }
    }
}

/// Runs a parser in the layout that begins at the cursor.
pub fn read_layout(arguments: Vec<Value>, context: &mut RequestContext) -> (result: Result<
    RequestResult,
    TaskHalt,
>)
    ensures
        read_layout_answer(arguments@, *old(context), *final(context), result),
{
    if arguments.len() != 1 {
        return Err(halt("macro `.read.layout` received the wrong number of arguments"));
    }
    macro_transaction(context, "macro `.read.layout`")?;
    match &mut context.transaction {
        Some(transaction) => {
            if !transaction.journal.cursor.enter_layout(&transaction.snapshot.input) {
                return Ok(RequestResult::Fail);
            }
            Ok(
                RequestResult::Scoped {
                    operation: arguments[0].copy(),
                    close: hidden_effect("read_layout"),
                },
            )
        },
        None => Err(halt("")),
    }
}

/// How the request of `read_anchor` is answered.
pub open spec fn read_anchor_answer(
    arguments: Seq<Value>,
    before: RequestContext,
    after: RequestContext,
    result: Result<RequestResult, TaskHalt>,
) -> bool {
    if arguments.len() != 0 {
        refused(result, "macro `.read.anchor` received arguments"@) && after == before
    } else if before.transaction is None {
        refused(result, escaped("macro `.read.anchor`"@)) && after == before
    } else {
        let t = before.transaction->0;
        match macro_io::anchored(t.journal@.cursor) {
            Some(next) => result == Ok::<RequestResult, TaskHalt>(RequestResult::ReturnUnit)
                && answered(
                before,
                after,
                Journal { cursor: next, ..t.journal@ },
            ),
            None => result == Ok::<RequestResult, TaskHalt>(RequestResult::Fail) && answered(
                before,
                after,
                t.journal@,
            ),
        }
    }
}

/// Goes to the next item of the current layout.
pub fn read_anchor(arguments: Vec<Value>, context: &mut RequestContext) -> (result: Result<
    RequestResult,
    TaskHalt,
>)
    ensures
        read_anchor_answer(arguments@, *old(context), *final(context), result),
{
    if arguments.len() != 0 {
        return Err(halt("macro `.read.anchor` received arguments"));
    }
    macro_transaction(context, "macro `.read.anchor`")?;
    match &mut context.transaction {
        Some(transaction) => {
            if transaction.journal.cursor.read_anchor() {
                Ok(RequestResult::ReturnUnit)
            } else {
                Ok(RequestResult::Fail)
            }
        },
        None => Err(halt("")),
    }
}

/// How the request of `read_layout_exit` is answered.
pub open spec fn read_layout_exit_answer(
    arguments: Seq<Value>,
    before: RequestContext,
    after: RequestContext,
    result: Result<RequestResult, TaskHalt>,
) -> bool {
    if arguments.len() != 0 {
        refused(result, "internal macro read-layout close received arguments"@) && after == before
    } else if before.transaction is None {
        refused(result, escaped("internal macro read-layout close"@)) && after == before
    } else {
        let t = before.transaction->0;
        match macro_io::left(t.journal@.cursor) {
            Some(next) => result == Ok::<RequestResult, TaskHalt>(RequestResult::ReturnUnit)
                && answered(
                before,
                after,
                Journal { cursor: next, ..t.journal@ },
            ),
            None => result == Ok::<RequestResult, TaskHalt>(RequestResult::Fail) && answered(
                before,
                after,
                t.journal@,
            ),
        }
    }
}

/// Leaves the current layout.
pub fn read_layout_exit(arguments: Vec<Value>, context: &mut RequestContext) -> (result: Result<
    RequestResult,
    TaskHalt,
>)
    ensures
        read_layout_exit_answer(arguments@, *old(context), *final(context), result),
{
    if arguments.len() != 0 {
        return Err(halt("internal macro read-layout close received arguments"));
    }
    macro_transaction(context, "internal macro read-layout close")?;
    match &mut context.transaction {
        Some(transaction) => {
            if transaction.journal.cursor.exit_layout() {
                Ok(RequestResult::ReturnUnit)
            } else {
                Ok(RequestResult::Fail)
            }
        },
        None => Err(halt("")),
    }
}

/// How the request of `read_end` is answered.
pub open spec fn read_end_answer(
    arguments: Seq<Value>,
    before: RequestContext,
    after: RequestContext,
    result: Result<RequestResult, TaskHalt>,
) -> bool {
    if arguments.len() != 0 {
        refused(result, "macro `.read.end` received the wrong number of arguments"@) && after == before
    } else if before.transaction is None {
        refused(result, escaped("macro `.read.end`"@)) && after == before
    } else {
        let t = before.transaction->0;
        answered(before, after, t.journal@) && result == Ok::<
            RequestResult,
            TaskHalt,
        >(
            if macro_io::ended(t.journal@.cursor, t.snapshot.input) {
                RequestResult::ReturnUnit
            } else {
                RequestResult::Fail
            },
        )
    }
}

/// Succeeds where nothing is left to read.
pub fn read_end(arguments: Vec<Value>, context: &mut RequestContext) -> (result: Result<
    RequestResult,
    TaskHalt,
>)
    ensures
        read_end_answer(arguments@, *old(context), *final(context), result),
{
    if arguments.len() != 0 {
        return Err(halt("macro `.read.end` received the wrong number of arguments"));
    }
    macro_transaction(context, "macro `.read.end`")?;
    match &mut context.transaction {
        Some(transaction) => {
            if transaction.journal.cursor.at_end(&transaction.snapshot.input) {
                Ok(RequestResult::ReturnUnit)
            } else {
                Ok(RequestResult::Fail)
            }
        },
        None => Err(halt("")),
    }
}

/// How the request of `write_text` is answered.
pub open spec fn write_text_answer(
    arguments: Seq<Value>,
    before: RequestContext,
    after: RequestContext,
    result: Result<RequestResult, TaskHalt>,
) -> bool {
    if arguments.len() != 1 {
        refused(result, "macro `.write.text` received the wrong number of arguments"@) && after == before
    } else if text_error(arguments[0], "macro `.write.text`"@) is Some {
        refused(result, text_error(arguments[0], "macro `.write.text`"@)->0) && after == before
    } else if written_error(decoded(arguments[0])->0) is Some {
        refused(result, written_error(decoded(arguments[0])->0)->0) && after == before
    } else if before.transaction is None {
        refused(result, escaped("macro `.write.text`"@)) && after == before
    } else {
        let t = before.transaction->0;
        result == Ok::<RequestResult, TaskHalt>(RequestResult::ReturnUnit) && exists|text: String| {
            &&& text@ == decoded(arguments[0])->0
            &&& answered(before, after, #[trigger] wrote_text(t.journal@, text))
        }
    }
}

/// Writes a text.
pub fn write_text(arguments: Vec<Value>, context: &mut RequestContext) -> (result: Result<
    RequestResult,
    TaskHalt,
>)
    ensures
        write_text_answer(arguments@, *old(context), *final(context), result),
{
    if arguments.len() != 1 {
        return Err(halt("macro `.write.text` received the wrong number of arguments"));
    }
    let written = text_value(&arguments[0], "macro `.write.text`")?;
    match validate_written_text(written.as_str()) {
        Ok(_) => {},
        Err(message) => {
            return Err(halt(message));
        },
    }
    macro_transaction(context, "macro `.write.text`")?;
    match &mut context.transaction {
        Some(transaction) => {
            let ghost before = transaction.journal@;
            transaction.journal.write_text(written);
            assert(transaction.journal@ == wrote_text(before, written));
            Ok(RequestResult::ReturnUnit)
        },
        None => Err(halt("")),
    }
}

/// How the request of `write_data` is answered.
pub open spec fn write_data_answer(
    arguments: Seq<Value>,
    before: RequestContext,
    after: RequestContext,
    result: Result<RequestResult, TaskHalt>,
) -> bool {
    if arguments.len() != 1 {
        refused(result, "macro `.write.data` received the wrong number of arguments"@) && after == before
    } else if before.transaction is None {
        refused(result, escaped("macro `.write.data`"@)) && after == before
    } else {
        let t = before.transaction->0;
        result == Ok::<RequestResult, TaskHalt>(RequestResult::ReturnUnit) && answered(
            before,
            after,
            macro_host::wrote(
                macro_host::filled(t.journal@),
                MacroOutput::Data(arguments[0]),
            ),
        )
    }
}

/// Writes data.
pub fn write_data(arguments: Vec<Value>, context: &mut RequestContext) -> (result: Result<
    RequestResult,
    TaskHalt,
>)
    ensures
        write_data_answer(arguments@, *old(context), *final(context), result),
{
    if arguments.len() != 1 {
        return Err(halt("macro `.write.data` received the wrong number of arguments"));
    }
    macro_transaction(context, "macro `.write.data`")?;
    match &mut context.transaction {
        Some(transaction) => {
            transaction.journal.write_data(arguments[0].copy());
            Ok(RequestResult::ReturnUnit)
        },
        None => Err(halt("")),
    }
}

/// How the request of `write_separator` is answered.
pub open spec fn write_separator_answer(
    arguments: Seq<Value>,
    before: RequestContext,
    after: RequestContext,
    result: Result<RequestResult, TaskHalt>,
) -> bool {
    if arguments.len() != 0 {
        refused(result, "macro `.write.sep` received the wrong number of arguments"@) && after == before
    } else if before.transaction is None {
        refused(result, escaped("macro `.write.sep`"@)) && after == before
    } else {
        let t = before.transaction->0;
        result == Ok::<RequestResult, TaskHalt>(RequestResult::ReturnUnit) && answered(
            before,
            after,
            macro_host::wrote(t.journal@, MacroOutput::Separator),
        )
    }
}

/// Writes a separator.
pub fn write_separator(arguments: Vec<Value>, context: &mut RequestContext) -> (result: Result<
    RequestResult,
    TaskHalt,
>)
    ensures
        write_separator_answer(arguments@, *old(context), *final(context), result),
{
    if arguments.len() != 0 {
        return Err(halt("macro `.write.sep` received the wrong number of arguments"));
    }
    macro_transaction(context, "macro `.write.sep`")?;
    match &mut context.transaction {
        Some(transaction) => {
            transaction.journal.write_separator();
            Ok(RequestResult::ReturnUnit)
        },
        None => Err(halt("")),
    }
}

/// How the request of `write_layout` is answered.
pub open spec fn write_layout_answer(
    arguments: Seq<Value>,
    before: RequestContext,
    after: RequestContext,
    result: Result<RequestResult, TaskHalt>,
) -> bool {
    if arguments.len() != 1 {
        refused(result, "macro `.write.layout` received the wrong number of arguments"@) && after == before
    } else if before.transaction is None {
        refused(result, escaped("macro `.write.layout`"@)) && after == before
    } else {
        let t = before.transaction->0;
        let j = macro_host::wrote(macro_host::filled(t.journal@), MacroOutput::LayoutStart);
        (result matches Ok(RequestResult::Scoped { operation, close }) && operation
            == arguments[0] && values::value_form(close) == hidden_form(
            exit_tag("write_layout"@),
        )) && answered(
            before,
            after,
            Journal {
                layouts: j.layouts.push(
                    macro_host::MacroOutputLayout { anchors: 0, item_has_content: false },
                ),
                ..j
            },
        )
    }
}

/// Runs a writer in a layout of its own.
pub fn write_layout(arguments: Vec<Value>, context: &mut RequestContext) -> (result: Result<
    RequestResult,
    TaskHalt,
>)
    ensures
        write_layout_answer(arguments@, *old(context), *final(context), result),
{
    if arguments.len() != 1 {
        return Err(halt("macro `.write.layout` received the wrong number of arguments"));
    }
    macro_transaction(context, "macro `.write.layout`")?;
    match &mut context.transaction {
        Some(transaction) => {
            transaction.journal.enter_output_layout();
            Ok(
                RequestResult::Scoped {
                    operation: arguments[0].copy(),
                    close: hidden_effect("write_layout"),
                },
            )
        },
        None => Err(halt("")),
    }
}

/// How the request of `write_anchor` is answered.
pub open spec fn write_anchor_answer(
    arguments: Seq<Value>,
    before: RequestContext,
    after: RequestContext,
    result: Result<RequestResult, TaskHalt>,
) -> bool {
    if arguments.len() != 0 {
        refused(result, "macro `.write.anchor` received arguments"@) && after == before
    } else if before.transaction is None {
        refused(result, escaped("macro `.write.anchor`"@)) && after == before
    } else {
        let t = before.transaction->0;
        match macro_host::anchor_error(t.journal@) {
            Some(message) => refused(result, message) && answered(
                before,
                after,
                t.journal@,
            ),
            None => result == Ok::<RequestResult, TaskHalt>(RequestResult::ReturnUnit)
                && answered(before, after, macro_host::with_anchor(t.journal@)),
        }
    }
}

/// Begins an item.
pub fn write_anchor(arguments: Vec<Value>, context: &mut RequestContext) -> (result: Result<
    RequestResult,
    TaskHalt,
>)
    requires
        old(context).transaction matches Some(t) ==> macro_host::bounded(t.journal@),
    ensures
        write_anchor_answer(arguments@, *old(context), *final(context), result),
{
    if arguments.len() != 0 {
        return Err(halt("macro `.write.anchor` received arguments"));
    }
    macro_transaction(context, "macro `.write.anchor`")?;
    match &mut context.transaction {
        Some(transaction) => {
            match transaction.journal.write_anchor() {
                Ok(_) => Ok(RequestResult::ReturnUnit),
                Err(message) => Err(halt(message)),
            }
        },
        None => Err(halt("")),
    }
}

/// How the request of `write_layout_exit` is answered.
pub open spec fn write_layout_exit_answer(
    arguments: Seq<Value>,
    before: RequestContext,
    after: RequestContext,
    result: Result<RequestResult, TaskHalt>,
) -> bool {
    if arguments.len() != 0 {
        refused(result, "internal macro write-layout close received arguments"@) && after == before
    } else if before.transaction is None {
        refused(result, escaped("internal macro write-layout close"@)) && after == before
    } else {
        let t = before.transaction->0;
        match macro_host::close_error(t.journal@) {
            Some(message) => refused(result, message) && answered(
                before,
                after,
                t.journal@,
            ),
            None => result == Ok::<RequestResult, TaskHalt>(RequestResult::ReturnUnit)
                && answered(before, after, Journal {
                layouts: t.journal@.layouts.drop_last(),
                ..macro_host::wrote(t.journal@, MacroOutput::LayoutEnd)
            }),
        }
    }
}

/// Closes the current output layout.
pub fn write_layout_exit(arguments: Vec<Value>, context: &mut RequestContext) -> (result: Result<
    RequestResult,
    TaskHalt,
>)
    ensures
        write_layout_exit_answer(arguments@, *old(context), *final(context), result),
{
    if arguments.len() != 0 {
        return Err(halt("internal macro write-layout close received arguments"));
    }
    macro_transaction(context, "internal macro write-layout close")?;
    match &mut context.transaction {
        Some(transaction) => {
            match transaction.journal.exit_output_layout() {
                Ok(_) => Ok(RequestResult::ReturnUnit),
                Err(message) => Err(halt(message)),
            }
        },
        None => Err(halt("")),
    }
}

/// A request by its path, tag, arity and meaning.
pub open spec fn described(spec: EffectRequestSpec) -> (
    Seq<Seq<char>>,
    Seq<Seq<char>>,
    nat,
    MacroRequest,
) {
    (text::texts(spec.path@), text::texts(spec.tag@), spec.arity as nat, spec.request)
}

/// The requests that a macro can make.
pub open spec fn request_table() -> Seq<(Seq<Seq<char>>, Seq<Seq<char>>, nat, MacroRequest)> {
    seq![
        (seq!["env"@], seq!["reflection_runtime"@, "v0"@, "request"@, "env"@], 1, MacroRequest::Environment),
        (seq!["log"@], seq!["reflection_runtime"@, "v0"@, "request"@, "log"@], 2, MacroRequest::Log),
        (seq!["case"@], tag_of("case"@), 2, MacroRequest::Case),
        (Seq::empty(), exit_tag("case"@), 0, MacroRequest::CaseExit),
        (seq!["read"@, "text"@], tag_of("read_text"@), 1, MacroRequest::ReadText),
        (seq!["read"@, "regex"@], tag_of("read_regex"@), 1, MacroRequest::ReadRegex),
        (seq!["read"@, "text_span"@], tag_of("read_text_span"@), 0, MacroRequest::ReadTextSpan),
        (seq!["read"@, "data"@], tag_of("read_data"@), 0, MacroRequest::ReadData),
        (seq!["read"@, "sep"@], tag_of("read_sep"@), 0, MacroRequest::ReadSeparator),
        (seq!["read"@, "layout"@], tag_of("read_layout"@), 1, MacroRequest::ReadLayout),
        (seq!["read"@, "anchor"@], tag_of("read_anchor"@), 0, MacroRequest::ReadAnchor),
        (Seq::empty(), exit_tag("read_layout"@), 0, MacroRequest::ReadLayoutExit),
        (seq!["read"@, "end"@], tag_of("read_end"@), 0, MacroRequest::ReadEnd),
        (seq!["write"@, "text"@], tag_of("write_text"@), 1, MacroRequest::WriteText),
        (seq!["write"@, "data"@], tag_of("write_data"@), 1, MacroRequest::WriteData),
        (seq!["write"@, "sep"@], tag_of("write_sep"@), 0, MacroRequest::WriteSeparator),
        (seq!["write"@, "layout"@], tag_of("write_layout"@), 1, MacroRequest::WriteLayout),
        (seq!["write"@, "anchor"@], tag_of("write_anchor"@), 0, MacroRequest::WriteAnchor),
        (Seq::empty(), exit_tag("write_layout"@), 0, MacroRequest::WriteLayoutExit),
    ]
}

/// A request at a path of one name.
fn root_request(
    name: &str,
    runtime: &str,
    version: &str,
    arity: usize,
    kind: MacroRequest,
) -> (found: EffectRequestSpec)
    ensures
        described(found) == (
            seq![name@],
            seq![runtime@, version@, "request"@, name@],
            arity as nat,
            kind,
        ),
{
    let mut path: Vec<String> = Vec::new();
    path.push(name.to_owned());
    let mut names: Vec<String> = Vec::new();
    names.push(runtime.to_owned());
    names.push(version.to_owned());
    names.push("request".to_owned());
    names.push(name.to_owned());
    proof {
        assert(text::texts(path@) =~= seq![name@]);
        assert(text::texts(names@) =~= seq![runtime@, version@, "request"@, name@]);
    }
    EffectRequestSpec { path, tag: names, arity, request: kind }
}

/// A request that closes a scope.
fn hidden_request(name: &str, kind: MacroRequest) -> (found: EffectRequestSpec)
    ensures
        described(found) == (Seq::<Seq<char>>::empty(), exit_tag(name@), 0nat, kind),
{
    let mut names: Vec<String> = Vec::new();
    names.push("macro_runtime".to_owned());
    names.push("g0".to_owned());
    names.push("request".to_owned());
    names.push(name.to_owned());
    names.push("exit".to_owned());
    let path: Vec<String> = Vec::new();
    proof {
        assert(text::texts(names@) =~= exit_tag(name@));
        assert(text::texts(path@) =~= Seq::empty());
    }
    EffectRequestSpec { path, tag: names, arity: 0, request: kind }
}

/// The requests that a macro can make.
pub fn requests() -> (list: Vec<EffectRequestSpec>)
    ensures
        list@.map_values(|spec: EffectRequestSpec| described(spec)) == request_table(),
{
    let mut list: Vec<EffectRequestSpec> = Vec::new();
    list.push(root_request("env", "reflection_runtime", "v0", 1, MacroRequest::Environment));
    list.push(root_request("log", "reflection_runtime", "v0", 2, MacroRequest::Log));
    list.push(root_request("case", "macro_runtime", "g0", 2, MacroRequest::Case));
    list.push(hidden_request("case", MacroRequest::CaseExit));
    list.push(request("read", "text", "read_text", 1, MacroRequest::ReadText));
    list.push(request("read", "regex", "read_regex", 1, MacroRequest::ReadRegex));
    list.push(request("read", "text_span", "read_text_span", 0, MacroRequest::ReadTextSpan));
    list.push(request("read", "data", "read_data", 0, MacroRequest::ReadData));
    list.push(request("read", "sep", "read_sep", 0, MacroRequest::ReadSeparator));
    list.push(request("read", "layout", "read_layout", 1, MacroRequest::ReadLayout));
    list.push(request("read", "anchor", "read_anchor", 0, MacroRequest::ReadAnchor));
    list.push(hidden_request("read_layout", MacroRequest::ReadLayoutExit));
    list.push(request("read", "end", "read_end", 0, MacroRequest::ReadEnd));
    list.push(request("write", "text", "write_text", 1, MacroRequest::WriteText));
    list.push(request("write", "data", "write_data", 1, MacroRequest::WriteData));
    list.push(request("write", "sep", "write_sep", 0, MacroRequest::WriteSeparator));
    list.push(request("write", "layout", "write_layout", 1, MacroRequest::WriteLayout));
    list.push(request("write", "anchor", "write_anchor", 0, MacroRequest::WriteAnchor));
    list.push(hidden_request("write_layout", MacroRequest::WriteLayoutExit));
    assert(list@.map_values(|spec: EffectRequestSpec| described(spec)) =~= request_table());
    list
}

/// Answers a request. The severity, the message and the outcome of the pattern
/// are what the arguments of the requests that use them amount to.
pub fn handle_request(
    request: MacroRequest,
    arguments: Vec<Value>,
    prepared: Prepared,
    context: &mut RequestContext,
) -> (result: Result<RequestResult, TaskHalt>)
    requires
        old(context).transaction matches Some(t) ==> macro_host::bounded(t.journal@),
    ensures
        match request {
            MacroRequest::Environment => environment_answer(arguments@, prepared.found, *old(context), *final(context), result),
            MacroRequest::Log => log_answer(arguments@, prepared.severity, prepared.message, *old(context), *final(context), result),
            MacroRequest::Case => enter_case_answer(arguments@, *old(context), *final(context), result),
            MacroRequest::CaseExit => exit_case_answer(arguments@, *old(context), *final(context), result),
            MacroRequest::ReadText => read_text_answer(arguments@, *old(context), *final(context), result),
            MacroRequest::ReadRegex => read_regex_answer(arguments@, prepared.outcome, *old(context), *final(context), result),
            MacroRequest::ReadTextSpan => read_text_span_answer(arguments@, *old(context), *final(context), result),
            MacroRequest::ReadData => read_data_answer(arguments@, *old(context), *final(context), result),
            MacroRequest::ReadSeparator => read_separator_answer(arguments@, *old(context), *final(context), result),
            MacroRequest::ReadLayout => read_layout_answer(arguments@, *old(context), *final(context), result),
            MacroRequest::ReadAnchor => read_anchor_answer(arguments@, *old(context), *final(context), result),
            MacroRequest::ReadLayoutExit => read_layout_exit_answer(arguments@, *old(context), *final(context), result),
            MacroRequest::ReadEnd => read_end_answer(arguments@, *old(context), *final(context), result),
            MacroRequest::WriteText => write_text_answer(arguments@, *old(context), *final(context), result),
            MacroRequest::WriteData => write_data_answer(arguments@, *old(context), *final(context), result),
            MacroRequest::WriteSeparator => write_separator_answer(arguments@, *old(context), *final(context), result),
            MacroRequest::WriteLayout => write_layout_answer(arguments@, *old(context), *final(context), result),
            MacroRequest::WriteAnchor => write_anchor_answer(arguments@, *old(context), *final(context), result),
            MacroRequest::WriteLayoutExit => write_layout_exit_answer(arguments@, *old(context), *final(context), result),
        },
{
    match request {
        MacroRequest::Environment => environment(arguments, prepared.found, context),
        MacroRequest::Log => log(arguments, prepared.severity, prepared.message, context),
        MacroRequest::Case => enter_case(arguments, context),
        MacroRequest::CaseExit => exit_case(arguments, context),
        MacroRequest::ReadText => read_text(arguments, context),
        MacroRequest::ReadRegex => read_regex(arguments, prepared.outcome, context),
        MacroRequest::ReadTextSpan => read_text_span(arguments, context),
        MacroRequest::ReadData => read_data(arguments, context),
        MacroRequest::ReadSeparator => read_separator(arguments, context),
        MacroRequest::ReadLayout => read_layout(arguments, context),
        MacroRequest::ReadAnchor => read_anchor(arguments, context),
        MacroRequest::ReadLayoutExit => read_layout_exit(arguments, context),
        MacroRequest::ReadEnd => read_end(arguments, context),
        MacroRequest::WriteText => write_text(arguments, context),
        MacroRequest::WriteData => write_data(arguments, context),
        MacroRequest::WriteSeparator => write_separator(arguments, context),
        MacroRequest::WriteLayout => write_layout(arguments, context),
        MacroRequest::WriteAnchor => write_anchor(arguments, context),
        MacroRequest::WriteLayoutExit => write_layout_exit(arguments, context),
    }
}

/// Bytes of the current run are read and returned as a span.
pub open spec fn read_bytes(
    before: RequestContext,
    after: RequestContext,
    result: Result<RequestResult, TaskHalt>,
    bytes: nat,
    invalid: Seq<char>,
) -> bool {
    let t = before.transaction->0;
    let c = t.journal@.cursor;
    match macro_io::run(c, t.snapshot.input) {
        None => result == Ok::<RequestResult, TaskHalt>(RequestResult::Fail) && answered(
            before,
            after,
            t.journal@,
        ),
        Some(rest) => match macro_io::boundary(rest, 0, bytes) {
            None => refused(result, invalid) && answered(before, after, t.journal@),
            Some(n) => {
                let next = if bytes == 0 {
                    Some(c)
                } else {
                    macro_io::advanced(c, t.snapshot.input, bytes)
                };
                match next {
                    None => refused(result, invalid) && answered(before, after, t.journal@),
                    Some(next) => (result matches Ok(RequestResult::Return(value))
                        && values::value_form(value) == span_form(rest.take(n))) && answered(
                        before,
                        after,
                        Journal { cursor: next, ..t.journal@ },
                    ),
                }
            },
        },
    }
}

/// Reads bytes of the current run, and returns them as a span.
fn take_run(transaction: &mut Transaction, bytes: usize, invalid: &str) -> (result: Result<
    RequestResult,
    TaskHalt,
>)
    ensures
        read_bytes(
            RequestContext { transaction: Some(*old(transaction)) },
            RequestContext { transaction: Some(*final(transaction)) },
            result,
            bytes as nat,
            invalid@,
        ),
{
    let found = transaction.journal.cursor.textual_run(&transaction.snapshot.input);
    let rest = match found {
        Some(rest) => rest,
        None => {
            return Ok(RequestResult::Fail);
        },
    };
    let chars = chars_of(rest.as_str());
    let count = match macro_io::boundary_of(&chars, 0, bytes) {
        Some(count) => count,
        None => {
            return Err(halt(invalid));
        },
    };
    let span = text::string_of(&chars, 0, count);
    assert(span@ =~= rest@.take(count as int));
    if !transaction.journal.cursor.advance_run(&transaction.snapshot.input, bytes) {
        return Err(halt(invalid));
    }
    Ok(RequestResult::Return(span_value(span.as_str())))
}

} // verus!
