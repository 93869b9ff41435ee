use glam_syntax::diagnostic::Severity;
use glam_syntax::equality::same_value;
use glam_syntax::expansion::{is_refused, publish, MacroLog};
use glam_syntax::macro_effects::{
    enter_case, environment, environment_demand, exit_case, handle_request, hidden_effect, log, macro_transaction,
    read_anchor, read_data, read_end, read_layout, read_layout_exit, read_regex, read_separator,
    read_text, read_text_span, requests, span_value, text_value, validate_written_text,
    write_anchor, write_data, write_layout, write_layout_exit, write_separator, write_text,
    EnvironmentOutcome, MacroRequest, PatternOutcome, Prepared, RequestContext, RequestResult, TaskHalt, Transaction,
};
use glam_syntax::macro_host::{Diagnostic, MacroJournal, MacroSnapshot};
use glam_syntax::macro_io::{
    MacroDelimiter, MacroInput, MacroInputElement, MacroInputKind, MacroInputLayout, MacroOutput,
};
use glam_syntax::macro_runner::{
    case_fields, force_result, macro_error, not_runnable, render_macro_case, run_macro_effect,
    search_step, select_branch, unique_values, wait_step, Branch, CaseFields, Demand, MacroFailure, MacroRun, SearchPoll,
    SearchStep, WaitOutcome,
};
use glam_syntax::number::Number;
use glam_syntax::lexical::lex_source;
use glam_syntax::rewrite::DeclarationMacroWork;
use glam_syntax::source::{parse_expanded_text, parse_source};
use glam_syntax::values::{name_as_key, Value};
use std::sync::Arc;

fn integer(value: usize) -> Value {
    Value::Number(Number {
        literal: format!("{value}"),
    })
}

fn text(value: &str) -> Value {
    Value::binary_from_text(value)
}

fn text_element(value: &str, separated: bool, start: usize, end: usize) -> MacroInputElement {
    MacroInputElement {
        kind: MacroInputKind::Text {
            text: value.to_owned(),
            delimiter: None,
        },
        separated,
        start,
        end,
    }
}

fn data_element(value: Value, separated: bool, start: usize, end: usize) -> MacroInputElement {
    MacroInputElement {
        kind: MacroInputKind::Data(value),
        separated,
        start,
        end,
    }
}

fn context(input: MacroInput) -> RequestContext {
    RequestContext {
        transaction: Some(Transaction {
            snapshot: MacroSnapshot {
                environment: Value::empty_dict(),
                input,
            },
            journal: MacroJournal::new(),
        }),
    }
}

fn journal(context: RequestContext) -> MacroJournal {
    context.transaction.unwrap().journal
}

fn succeeded(journal: MacroJournal) -> Branch {
    Branch {
        value: Some(Value::unit()),
        journal,
    }
}

fn failed(journal: MacroJournal) -> Branch {
    Branch {
        value: None,
        journal,
    }
}

fn unit_demand() -> Demand {
    Demand::Evaluated {
        value: Value::unit(),
        kind: "Unit".to_owned(),
    }
}

fn accept(result: Result<RequestResult, TaskHalt>) {
    assert_eq!(result, Ok(RequestResult::ReturnUnit));
}

fn refuse(result: Result<RequestResult, TaskHalt>) {
    assert_eq!(result, Ok(RequestResult::Fail));
}

fn returned(result: Result<RequestResult, TaskHalt>) -> Value {
    match result {
        Ok(RequestResult::Return(value)) => value,
        other => panic!("expected a value, got {other:?}"),
    }
}

fn halted(result: Result<RequestResult, TaskHalt>, message: &str) {
    assert_eq!(
        result,
        Err(TaskHalt {
            message: message.to_owned()
        })
    );
}

fn assert_macro_run_owner(run: &MacroRun) {
    let MacroRun {
        diagnostics,
        visited_cases,
        consumed_end,
        output,
    } = run;
    let _: &Vec<Diagnostic> = diagnostics;
    let _: &Vec<Value> = visited_cases;
    let _: &usize = consumed_end;
    let _: &Vec<MacroOutput> = output;
}

fn assert_macro_failure_owner(failure: &MacroFailure) {
    let MacroFailure {
        diagnostic,
        frontier,
        cases,
    } = failure;
    let _: &Diagnostic = diagnostic;
    let _: &Option<usize> = frontier;
    let _: &Vec<Value> = cases;
}

#[test]
fn macro_result_owner_inventory_is_compile_exhaustive() {
    let _: fn(&MacroRun) = assert_macro_run_owner;
    let _: fn(&MacroFailure) = assert_macro_failure_owner;
}

#[test]
fn macro_text_writer_rejects_c0_space_and_delete() {
    for scalar in (0_u32..=0x20).chain(std::iter::once(0x7f)) {
        let scalar = char::from_u32(scalar).expect("tested ASCII scalar should be valid");
        let text = format!("left{scalar}right");
        assert_eq!(
            validate_written_text(&text),
            Err(
                "macro `.write.text` cannot emit ASCII C0 controls, SP, or DEL; use `.write.sep` within an item or `.write.anchor` between layout items"
            ),
            "restricted ASCII scalar U+{:04X} escaped the logical writer boundary",
            u32::from(scalar),
        );
    }
    assert_eq!(validate_written_text("left.right"), Ok(()));
    assert_eq!(validate_written_text("λ"), Ok(()));
}

fn inline_input() -> MacroInput {
    MacroInput::new(
        vec![
            text_element("prefix", false, 10, 16),
            data_element(integer(42), true, 17, 19),
        ],
        10,
        19,
    )
}

#[test]
fn inline_macro_readers_and_writers_are_transactional() {
    let mut rejected = context(inline_input());
    refuse(read_text(vec![text("wrong")], &mut rejected));

    let mut accepted = context(inline_input());
    accept(read_text(vec![text("pre")], &mut accepted));
    let found = returned(read_regex(
        vec![text("[a-z]+")],
        PatternOutcome::Matched(3),
        &mut accepted,
    ));
    assert_eq!(found, span_value("fix"));
    accept(read_separator(vec![], &mut accepted));
    let value = returned(read_data(vec![], &mut accepted));
    assert_eq!(value, integer(42));
    accept(write_data(vec![text("fix")], &mut accepted));
    accept(write_separator(vec![], &mut accepted));
    accept(write_data(vec![value], &mut accepted));

    let layout_run = run_macro_effect(
        vec![failed(journal(rejected)), succeeded(journal(accepted))],
        &inline_input(),
        unit_demand(),
    )
    .expect("fallback reader branch should succeed");

    assert_eq!(layout_run.consumed_end(), 19);
    assert!(matches!(
        layout_run.output().as_slice(),
        [
            MacroOutput::Data(_),
            MacroOutput::Separator,
            MacroOutput::Data(_)
        ]
    ));
}

fn layout_input() -> MacroInput {
    MacroInput::new(
        vec![
            data_element(integer(1), true, 2, 3),
            data_element(integer(2), true, 6, 7),
        ],
        0,
        7,
    )
    .with_layouts(vec![MacroInputLayout {
        start: 0,
        end: 2,
        items: vec![(0, 1), (1, 2)],
    }])
}

#[test]
fn layout_readers_require_scoped_anchors_and_leave_root_anchor_as_failure() {
    let mut reader = context(layout_input());
    let body = text("body");
    match read_layout(vec![body.copy()], &mut reader) {
        Ok(RequestResult::Scoped { operation, close }) => {
            assert_eq!(operation, body);
            assert_eq!(close, hidden_effect("read_layout"));
        }
        other => panic!("a layout should begin at the first element: {other:?}"),
    }
    accept(read_anchor(vec![], &mut reader));
    let first = returned(read_data(vec![], &mut reader));
    accept(read_anchor(vec![], &mut reader));
    let second = returned(read_data(vec![], &mut reader));
    accept(read_end(vec![], &mut reader));
    accept(write_data(vec![first], &mut reader));
    accept(write_data(vec![second], &mut reader));
    accept(read_layout_exit(vec![], &mut reader));
    let layout_run = run_macro_effect(
        vec![succeeded(journal(reader))],
        &layout_input(),
        unit_demand(),
    )
    .expect("anchored child layout should be consumed completely");
    assert!(matches!(
        layout_run.output().as_slice(),
        [MacroOutput::Data(_), MacroOutput::Data(_)]
    ));

    for read_boundary in [
        (|context: &mut RequestContext| read_anchor(vec![], context))
            as fn(&mut RequestContext) -> Result<RequestResult, TaskHalt>,
        |context: &mut RequestContext| read_layout(vec![Value::unit()], context),
    ] {
        let mut boundary = context(MacroInput::empty());
        refuse(read_boundary(&mut boundary));
        let mut fallback = context(MacroInput::empty());
        accept(write_data(vec![integer(42)], &mut fallback));
        let run = run_macro_effect(
            vec![failed(journal(boundary)), succeeded(journal(fallback))],
            &MacroInput::empty(),
            unit_demand(),
        )
        .expect("an unavailable layout boundary should leave the fallback");
        assert!(matches!(run.output().as_slice(), [MacroOutput::Data(_)]));
    }
}

#[test]
fn layout_writers_record_nested_nonempty_items() {
    let mut writer = context(MacroInput::empty());
    accept(write_text(vec![text("[")], &mut writer));
    assert!(matches!(
        write_layout(vec![Value::unit()], &mut writer),
        Ok(RequestResult::Scoped { .. })
    ));
    accept(write_anchor(vec![], &mut writer));
    accept(write_data(vec![integer(1)], &mut writer));
    accept(write_text(vec![text(",")], &mut writer));
    accept(write_anchor(vec![], &mut writer));
    accept(write_data(vec![integer(2)], &mut writer));
    accept(write_layout_exit(vec![], &mut writer));
    accept(write_text(vec![text("]")], &mut writer));
    let run = run_macro_effect(
        vec![succeeded(journal(writer))],
        &MacroInput::empty(),
        unit_demand(),
    )
    .expect("balanced layout output should succeed");
    assert!(matches!(
        run.output().as_slice(),
        [
            MacroOutput::Text(_),
            MacroOutput::LayoutStart,
            MacroOutput::Anchor,
            MacroOutput::Data(_),
            MacroOutput::Text(_),
            MacroOutput::Anchor,
            MacroOutput::Data(_),
            MacroOutput::LayoutEnd,
            MacroOutput::Text(_),
        ]
    ));
}

#[test]
fn requests_outside_a_transaction_halt() {
    let mut outside = RequestContext { transaction: None };
    assert_eq!(
        macro_transaction(&outside, "macro `.read.end`"),
        Err(TaskHalt {
            message: "macro `.read.end` escaped its isolated transaction".to_owned()
        })
    );
    halted(
        read_end(vec![], &mut outside),
        "macro `.read.end` escaped its isolated transaction",
    );
    halted(
        read_end(vec![Value::unit()], &mut outside),
        "macro `.read.end` received the wrong number of arguments",
    );
    halted(
        exit_case(vec![Value::unit()], &mut outside),
        "internal macro case close received arguments",
    );
}

#[test]
fn text_requests_need_text() {
    assert_eq!(
        text_value(&text("λx"), "macro `.read.text`"),
        Ok("λx".to_owned())
    );
    assert_eq!(
        text_value(&Value::unit(), "macro `.read.text`"),
        Err(TaskHalt {
            message: "macro `.read.text` requires text".to_owned()
        })
    );
    assert_eq!(
        text_value(&Value::Binary(Arc::new(vec![0xff])), "macro `.write.text`"),
        Err(TaskHalt {
            message: "macro `.write.text` requires UTF-8 text".to_owned()
        })
    );
    assert_eq!(
        validate_written_text("left@right"),
        Err("macro `.write.text` cannot emit `@` or `#`")
    );
    let mut reader = context(inline_input());
    halted(
        read_regex(
            vec![text("[")],
            PatternOutcome::Invalid("unclosed class".to_owned()),
            &mut reader,
        ),
        "invalid macro text pattern: unclosed class",
    );
    refuse(read_regex(
        vec![text("x")],
        PatternOutcome::NoMatch,
        &mut reader,
    ));
    halted(
        read_regex(vec![text("x")], PatternOutcome::Matched(9), &mut reader),
        "macro regex reader produced an invalid textual boundary",
    );
    assert_eq!(
        returned(read_text_span(vec![], &mut reader)),
        span_value("prefix")
    );
}

#[test]
fn cases_nest_and_leave_their_explanations() {
    let mut run = context(MacroInput::empty());
    halted(
        exit_case(vec![], &mut run),
        "macro case stack became unbalanced",
    );
    match handle_request(
        MacroRequest::Case,
        vec![text("outer"), text("parser")],
        Prepared {
            found: EnvironmentOutcome::Found(Value::unit()),
            severity: Ok(Severity::Info),
            message: Ok(String::new()),
            outcome: PatternOutcome::NoMatch,
        },
        &mut run,
    ) {
        Ok(RequestResult::Scoped { operation, close }) => {
            assert_eq!(operation, text("parser"));
            assert_eq!(close, hidden_effect("case"));
        }
        other => panic!("a case runs its parser: {other:?}"),
    }
    assert!(enter_case(vec![text("inner"), Value::unit()], &mut run).is_ok());
    accept(exit_case(vec![], &mut run));
    accept(log(
        vec![Value::unit(), Value::unit()],
        Ok(Severity::Warning),
        Ok("careful".to_owned()),
        &mut run,
    ));
    let done = journal(run);
    assert_eq!(done.active_cases, [text("outer")]);
    assert_eq!(done.visited_cases, [text("outer"), text("inner")]);
    assert_eq!(
        done.diagnostics,
        [Diagnostic {
            severity: Severity::Warning,
            message: "careful".to_owned()
        }]
    );
}

#[test]
fn the_environment_is_read_by_path() {
    let mut run = context(MacroInput::empty());
    let snapshot = &run.transaction.as_ref().expect("a transaction").snapshot;
    assert!(matches!(
        environment_demand(snapshot, &text("path")),
        Value::Lazy(_)
    ));
    assert_eq!(
        returned(environment(
            vec![text("path")],
            EnvironmentOutcome::Found(text("value")),
            &mut run
        )),
        text("value")
    );
}

fn halt(message: &str) -> TaskHalt {
    TaskHalt {
        message: message.to_owned(),
    }
}

#[test]
fn an_environment_path_that_fails_halts_the_run() {
    let mut run = context(MacroInput::empty());
    halted(
        environment(
            vec![text("path")],
            EnvironmentOutcome::Halted(halt("no such key")),
            &mut run,
        ),
        "no such key",
    );
    let mut escaped = RequestContext { transaction: None };
    halted(
        environment(
            vec![text("path")],
            EnvironmentOutcome::NoPath(halt("not a path")),
            &mut escaped,
        ),
        "not a path",
    );
    halted(
        environment(
            vec![text("path")],
            EnvironmentOutcome::Halted(halt("no such key")),
            &mut escaped,
        ),
        "macro `.env` escaped its isolated transaction",
    );
}

#[test]
fn a_log_whose_arguments_fail_halts_the_run() {
    let mut escaped = RequestContext { transaction: None };
    let pair = || vec![Value::unit(), Value::unit()];
    halted(
        log(
            pair(),
            Err(halt("no severity")),
            Err(halt("no message")),
            &mut escaped,
        ),
        "no severity",
    );
    halted(
        log(
            pair(),
            Ok(Severity::Info),
            Err(halt("no message")),
            &mut escaped,
        ),
        "no message",
    );
    halted(
        log(pair(), Ok(Severity::Info), Ok(String::new()), &mut escaped),
        "macro `.log` escaped its isolated transaction",
    );
}

#[test]
fn written_text_is_checked_before_the_transaction() {
    let mut escaped = RequestContext { transaction: None };
    halted(
        write_text(vec![text("@")], &mut escaped),
        "macro `.write.text` cannot emit `@` or `#`",
    );
    halted(
        write_text(vec![text("plain")], &mut escaped),
        "macro `.write.text` escaped its isolated transaction",
    );
}

#[test]
fn macro_api_omits_heap_tasks_and_full_reflection_requests() {
    let offered = |path: &[&str]| requests().iter().any(|request| request.path == path);
    for path in [&["heap", "get"][..], &["task", "status"], &["dict_items"]] {
        assert!(
            !offered(path),
            "restricted macro API request should be unavailable"
        );
    }
    assert!(offered(&["log"]));
}

#[test]
fn every_request_has_its_own_tag() {
    let list = requests();
    assert_eq!(list.len(), 19);
    for (k, request) in list.iter().enumerate() {
        assert!(list[k + 1..].iter().all(|other| other.tag != request.tag));
    }
    assert_eq!(list[0].path, ["env"]);
    assert_eq!(list[0].tag, ["reflection_runtime", "v0", "request", "env"]);
    assert_eq!(list[6].path, ["read", "text_span"]);
    assert_eq!(list[6].tag, ["macro_runtime", "g0", "request", "read_text_span"]);
    assert_eq!(list[18].path, Vec::<String>::new());
    assert_eq!(
        list[18].tag,
        ["macro_runtime", "g0", "request", "write_layout", "exit"]
    );
    assert_eq!(list[18].request, MacroRequest::WriteLayoutExit);
}

#[test]
fn readers_follow_delimiters() {
    let input = MacroInput::new(
        vec![
            MacroInputElement {
                kind: MacroInputKind::Text {
                    text: "(".to_owned(),
                    delimiter: Some((MacroDelimiter::Parenthesis, true)),
                },
                separated: false,
                start: 0,
                end: 1,
            },
            MacroInputElement {
                kind: MacroInputKind::Text {
                    text: ")".to_owned(),
                    delimiter: Some((MacroDelimiter::Parenthesis, false)),
                },
                separated: false,
                start: 1,
                end: 2,
            },
        ],
        0,
        2,
    );
    let mut open = context(input);
    accept(read_text(vec![text("(")], &mut open));
    let input = open.transaction.as_ref().unwrap().snapshot.input.elements.len();
    assert_eq!(input, 2);
    let transaction = open.transaction.unwrap();
    let failure = run_macro_effect(
        vec![succeeded(transaction.journal)],
        &transaction.snapshot.input,
        unit_demand(),
    )
    .unwrap_err();
    assert_eq!(
        failure.message(),
        "macro reader left an input delimiter unclosed"
    );
}

#[test]
fn macro_failures_name_the_furthest_alternatives() {
    let mut near = context(inline_input());
    assert!(enter_case(vec![text("near"), Value::unit()], &mut near).is_ok());
    let mut far = context(inline_input());
    assert!(enter_case(vec![text("far"), Value::unit()], &mut far).is_ok());
    accept(read_text(vec![text("pre")], &mut far));
    let mut again = context(inline_input());
    assert!(enter_case(vec![text("far"), Value::unit()], &mut again).is_ok());
    accept(read_text(vec![text("pre")], &mut again));
    let branches = vec![
        failed(journal(near)),
        failed(journal(far)),
        failed(journal(again)),
    ];
    let failure = run_macro_effect(branches, &inline_input(), unit_demand()).unwrap_err();
    assert_eq!(
        failure.message(),
        "macro input did not match any successful alternative"
    );
    assert_eq!(failure.frontier(), Some(13));
    assert_eq!(failure.cases(), &vec![text("far")]);

    let none = run_macro_effect(vec![], &inline_input(), unit_demand()).unwrap_err();
    assert_eq!(none.frontier(), Some(10));
    assert!(none.cases().is_empty());
}

fn plain(journal: MacroJournal, demand: Demand) -> Result<MacroRun, MacroFailure> {
    run_macro_effect(vec![succeeded(journal)], &inline_input(), demand)
}

#[test]
fn macro_results_are_one_unit_with_complete_output() {
    let two = vec![succeeded(MacroJournal::new()), succeeded(MacroJournal::new())];
    assert_eq!(
        select_branch(&two, &inline_input()).unwrap_err().message(),
        "macro effect produced multiple results; use `.cut` to select one"
    );
    let one = vec![failed(MacroJournal::new()), succeeded(MacroJournal::new())];
    assert_eq!(select_branch(&one, &inline_input()), Ok(1));

    let number = Demand::Evaluated {
        value: integer(42),
        kind: "Number".to_owned(),
    };
    assert_eq!(
        plain(MacroJournal::new(), number).unwrap_err().message(),
        "macro effect terminated with Number, expected unit"
    );
    let waiting = plain(MacroJournal::new(), Demand::Waiting).unwrap_err();
    assert_eq!(
        waiting.message(),
        "macro result is waiting on a lazy producer unavailable to the macro demand session"
    );
    assert_eq!(waiting.frontier(), Some(10));

    let mut unfinished = context(inline_input());
    assert!(write_layout(vec![Value::unit()], &mut unfinished).is_ok());
    assert_eq!(
        plain(journal(unfinished), unit_demand())
            .unwrap_err()
            .message(),
        "macro writer left an empty or unclosed layout item"
    );

    let mut anchored = context(inline_input());
    accept(write_anchor(vec![], &mut anchored));
    accept(write_text(vec![text("item")], &mut anchored));
    assert_eq!(
        plain(journal(anchored), unit_demand()).unwrap_err().message(),
        "anchored macro output requires consuming the complete input item"
    );

    let done = plain(MacroJournal::new(), unit_demand()).unwrap();
    assert_eq!(done.consumed_end(), 10);
    assert!(done.diagnostics().is_empty());
    assert!(done.visited_cases().is_empty());
    assert!(done.output().is_empty());
}

#[test]
fn searches_continue_until_they_complete() {
    assert_eq!(search_step(SearchPoll::Yielded), Ok(SearchStep::Poll));
    assert_eq!(search_step(SearchPoll::Complete), Ok(SearchStep::Select));
    assert_eq!(
        search_step(SearchPoll::Blocked {
            dependency: true,
            error: None
        }),
        Ok(SearchStep::Wait)
    );
    for (poll, message) in [
        (
            SearchPoll::Blocked {
                dependency: false,
                error: None,
            },
            "macro effect became blocked without a lazy dependency",
        ),
        (
            SearchPoll::Blocked {
                dependency: false,
                error: Some("broken".to_owned()),
            },
            "macro effect became blocked after evaluation failed: broken",
        ),
        (
            SearchPoll::Failed("broken".to_owned()),
            "macro effect failed: broken",
        ),
        (SearchPoll::Cancelled, "macro effect was cancelled"),
    ] {
        assert_eq!(search_step(poll).unwrap_err().message(), message);
    }
    assert_eq!(wait_step(WaitOutcome::Busy), Ok(SearchStep::Poll));
    assert_eq!(
        wait_step(WaitOutcome::NoProgress).unwrap_err().message(),
        "macro effect is waiting on a lazy producer unavailable to the macro demand session"
    );
    assert_eq!(
        not_runnable("no effect").message(),
        "selected macro value is not a runnable effect: no effect"
    );
}

#[test]
fn explanations_are_rendered_from_their_fields() {
    let said = |value: Value| {
        Some(Demand::Evaluated {
            value,
            kind: String::new(),
        })
    };
    let dict = || Demand::Evaluated {
        value: Value::dict(vec![(name_as_key("usage"), text("use"))]),
        kind: "Dict".to_owned(),
    };
    assert_eq!(
        render_macro_case(dict(), said(text("use")), said(text("sum")), None),
        "use — sum"
    );
    assert_eq!(render_macro_case(dict(), None, said(text("sum")), None), "sum");
    assert_eq!(
        render_macro_case(dict(), None, None, said(text("long"))),
        "long"
    );
    assert_eq!(
        render_macro_case(dict(), said(Value::unit()), Some(Demand::Waiting), None),
        "explanation has no textual `usage`, `summary`, or `details`"
    );
    assert_eq!(
        render_macro_case(
            Demand::Evaluated {
                value: text("plain"),
                kind: String::new()
            },
            None,
            None,
            None
        ),
        "plain"
    );
    assert_eq!(
        render_macro_case(
            Demand::Evaluated {
                value: Value::Binary(Arc::new(vec![0xc0])),
                kind: String::new()
            },
            None,
            None,
            None
        ),
        "explanation is non-UTF-8 binary data"
    );
    assert_eq!(
        render_macro_case(
            Demand::Evaluated {
                value: integer(1),
                kind: "Number".to_owned()
            },
            None,
            None,
            None
        ),
        "explanation has kind Number"
    );
    assert_eq!(
        render_macro_case(Demand::Failed("lost".to_owned()), None, None, None),
        "explanation unavailable (macro result evaluation failed: lost)"
    );
    assert_eq!(
        force_result(Demand::Failed("lost".to_owned()))
            .unwrap_err()
            .message(),
        "macro result evaluation failed: lost"
    );
}

#[test]
fn the_fields_of_a_case_are_found_by_name() {
    let case = |value: Value| Demand::Evaluated {
        value,
        kind: String::new(),
    };
    let explained = Value::Dict(Arc::new(vec![
        (name_as_key("details"), text("long")),
        (name_as_key("usage"), text("use")),
        (name_as_key("other"), text("none")),
    ]));
    let fields = case_fields(&case(explained));
    assert_eq!(
        fields,
        CaseFields {
            usage: Some(text("use")),
            summary: None,
            details: Some(text("long")),
        }
    );
    let nothing = CaseFields {
        usage: None,
        summary: None,
        details: None,
    };
    assert_eq!(case_fields(&case(text("usage"))), nothing);
    assert_eq!(case_fields(&Demand::Waiting), nothing);
}

#[test]
fn dictionaries_and_numbers_are_compared_by_what_they_hold() {
    let number = |literal: &str| {
        Value::Number(Number {
            literal: literal.to_owned(),
        })
    };
    let forward = || {
        Value::Dict(Arc::new(vec![
            (name_as_key("a"), number("1")),
            (name_as_key("b"), text("x")),
        ]))
    };
    let backward = || {
        Value::Dict(Arc::new(vec![
            (name_as_key("b"), text("x")),
            (name_as_key("a"), number("1.0")),
        ]))
    };
    let shorter = || Value::Dict(Arc::new(vec![(name_as_key("a"), number("1"))]));
    assert!(same_value(&forward(), &backward()));
    assert_eq!(forward(), backward());
    assert_ne!(forward(), shorter());
    assert_ne!(shorter(), forward());
    assert_eq!(
        unique_values(vec![forward(), shorter(), backward(), number("2"), number("0x2")]).len(),
        3
    );
}

fn message(severity: Severity, text: &str) -> Diagnostic {
    Diagnostic {
        severity,
        message: text.to_owned(),
    }
}

#[test]
fn logs_are_published_in_source_order_once_the_source_is_accepted() {
    let logs = vec![
        MacroLog {
            line: 3,
            messages: vec![message(Severity::Info, "right")],
        },
        MacroLog {
            line: 2,
            messages: vec![
                message(Severity::Warning, "left"),
                message(Severity::Info, "left again"),
            ],
        },
    ];
    let accepted = parse_source(b"language g0\nanswer = 42\n");
    let told: Vec<(usize, String)> = publish(&logs, &accepted)
        .into_iter()
        .map(|found| (found.line, found.message))
        .collect();
    assert_eq!(
        told,
        [
            (2, "left".to_owned()),
            (2, "left again".to_owned()),
            (3, "right".to_owned())
        ]
    );
    let refused = parse_source(b"language g0\nanswer = $\n");
    assert!(is_refused(&refused.diagnostics));
    assert_eq!(publish(&logs, &refused), []);
}

/// What is published when a macro logs a text and writes another in place of
/// `@meta.bad`.
fn published_with(written: &str) -> Vec<String> {
    let lexical = lex_source("language g0\nanswer = @meta.bad\n");
    let mut work = DeclarationMacroWork::from_original(&lexical, 1)
        .unwrap()
        .expect("the declaration holds a macro");
    let current = work.current_invocation(&work.invocations()[0]).unwrap();
    let mut run = context(MacroInput::empty());
    accept(log(
        vec![Value::unit(), Value::unit()],
        Ok(Severity::Warning),
        Ok("discard this macro log".to_owned()),
        &mut run,
    ));
    accept(write_text(vec![text(written)], &mut run));
    let result = run_macro_effect(
        vec![succeeded(journal(run))],
        &MacroInput::empty(),
        Demand::Evaluated {
            value: Value::unit(),
            kind: "unit".to_owned(),
        },
    )
    .unwrap();
    if work
        .splice(
            current.anchor_position,
            current.indentation,
            current.start,
            current.input.end,
            result.output(),
            2,
        )
        .is_err()
    {
        return vec![];
    }
    let (source, values) = work.materialize();
    let logs = vec![MacroLog {
        line: 2,
        messages: result.diagnostics,
    }];
    publish(&logs, &parse_expanded_text(&source, 2, values, &vec![]))
        .into_iter()
        .map(|found| found.message)
        .collect()
}

#[test]
fn invalid_generated_source_discards_direct_macro_logs() {
    assert!(
        !published_with("$")
            .iter()
            .any(|message| message == "discard this macro log"),
        "direct macro logs must not publish before generated syntax is accepted",
    );
    assert_eq!(published_with("42"), ["discard this macro log"]);
}

#[test]
fn equal_values_are_kept_once() {
    assert_eq!(
        unique_values(vec![text("a"), integer(1), text("a"), integer(2), integer(1)]),
        [text("a"), integer(1), integer(2)]
    );
    let failure = macro_error("broken").with_context(3, vec![text("a"), text("a")]);
    assert_eq!(failure.frontier(), Some(3));
    assert_eq!(failure.cases(), &vec![text("a")]);
}

#[test]
fn structural_preconditions_can_be_tested() {
    assert!(inline_input().is_measured());
    let far = MacroInput::new(vec![text_element("ab", false, usize::MAX - 1, usize::MAX)], 0, 0);
    assert!(!far.is_measured());
    let mut journal = MacroJournal::new();
    assert!(journal.is_bounded());
    journal.enter_output_layout();
    journal.output_layouts[0].anchors = usize::MAX;
    assert!(!journal.is_bounded());
}
