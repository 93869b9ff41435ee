//! Runs of macros: how a search for results proceeds, and what its branches
//! amount to.

use vstd::prelude::*;
use crate::diagnostic::Severity;
use crate::equality;
use crate::macro_effects;
use crate::macro_effects::decoded_text;
use crate::macro_host;
use crate::macro_host::{Diagnostic, MacroJournal};
use crate::macro_io;
use crate::macro_io::{MacroInput, MacroOutput};
use crate::text;
use crate::text::same_text;
use crate::values;
use crate::values::{Key, Value};

verus! {

/// The result of a macro.
#[derive(Debug, PartialEq, Eq)]
pub struct MacroRun {
    pub diagnostics: Vec<Diagnostic>,
    pub visited_cases: Vec<Value>,
    pub consumed_end: usize,
    pub output: Vec<MacroOutput>,
}

/// Why a macro has no result.
#[derive(Debug, PartialEq, Eq)]
pub struct MacroFailure {
    pub diagnostic: Diagnostic,
    pub frontier: Option<usize>,
    pub cases: Vec<Value>,
}

/// One alternative of a search that is over.
#[derive(Debug, PartialEq, Eq)]
pub struct Branch {
    /// The value that the alternative returned, if it succeeded.
    pub value: Option<Value>,
    pub journal: MacroJournal,
}

/// What demanding a value gave.
#[derive(Debug, PartialEq, Eq)]
pub enum Demand {
    /// A value, and what its kind is called.
    Evaluated { value: Value, kind: String },
    /// The value waits on a producer that does not run here.
    Waiting,
    Failed(String),
}

/// What a bounded number of steps of a search gave.
#[derive(Debug, PartialEq, Eq)]
pub enum SearchPoll {
    Yielded,
    /// No step is possible until a dependency is evaluated.
    Blocked { dependency: bool, error: Option<String> },
    Complete,
    Failed(String),
    Cancelled,
}

/// What evaluating a dependency for a bounded number of steps gave.
#[derive(Debug, Clone, Copy, PartialEq, Eq, Structural)]
pub enum WaitOutcome {
    TargetReady,
    Busy,
    BudgetExhausted,
    NoProgress,
}

/// What a search needs next.
#[derive(Debug, Clone, Copy, PartialEq, Eq, Structural)]
pub enum SearchStep {
    Poll,
    /// Evaluate the dependency that the search is blocked on.
    Wait,
    /// Look at the branches.
    Select,
}

/// The failure with a message and no context.
pub open spec fn plain_failure(failure: MacroFailure, message: Seq<char>) -> bool {
    &&& failure.diagnostic.severity == Severity::Error
    &&& failure.diagnostic.message@ == message
    &&& failure.frontier is None
    &&& failure.cases@ == Seq::<Value>::empty()
}

pub fn macro_error(message: &str) -> (failure: MacroFailure)
    ensures
        plain_failure(failure, message@),
{
    MacroFailure {
        diagnostic: Diagnostic { severity: Severity::Error, message: message.to_owned() },
        frontier: None,
        cases: Vec::new(),
    }
}

/// A failure whose message ends with a detail.
fn detailed_error(message: &str, detail: &str) -> (failure: MacroFailure)
    ensures
        plain_failure(failure, message@ + detail@),
{
    let mut told = message.to_owned();
    text::push_text(&mut told, detail);
    macro_error(told.as_str())
}

/// The values in order, without those that occurred before.
pub open spec fn unique(values: Seq<Value>) -> Seq<Value>
    decreases values.len(),
{
    if values.len() == 0 {
        Seq::empty()
    } else {
        let prior = unique(values.drop_last());
        if occurs(prior, values.last()) {
            prior
        } else {
            prior.push(values.last())
        }
    }
}

/// Whether a list holds a value.
pub open spec fn occurs(values: Seq<Value>, value: Value) -> bool {
    exists|k: int|
        0 <= k < values.len() && equality::alike(value, #[trigger] values[k])
}

pub fn unique_values(values: Vec<Value>) -> (found: Vec<Value>)
    ensures
        found@ == unique(values@),
{
    let mut found: Vec<Value> = Vec::new();
    let mut k: usize = 0;
    while k < values.len()
        invariant
            k <= values.len(),
            found@ == unique(values@.take(k as int)),
        decreases values.len() - k,
    {
        let value = &values[k];
        let mut seen = false;
        let mut j: usize = 0;
        while j < found.len()
            invariant
                j <= found.len(),
                seen == occurs(found@.take(j as int), *value),
            decreases found.len() - j,
        {
            let ghost shorter = found@.take(j as int);
            let ghost longer = found@.take(j + 1);
            proof {
                assert(longer[j as int] == found@[j as int]);
                assert forall|i: int| 0 <= i < shorter.len() implies #[trigger] shorter[i]
                    == longer[i] by {}
                assert forall|i: int| 0 <= i < longer.len() - 1 implies #[trigger] longer[i]
                    == shorter[i] by {}
            }
            if equality::same_value(value, &found[j]) {
                seen = true;
            }
            j = j + 1;
        }
        assert(found@.take(found@.len() as int) =~= found@);
        assert(values@.take(k + 1).drop_last() =~= values@.take(k as int));
        if !seen {
            found.push(value.copy());
        }
        k = k + 1;
    }
    assert(values@.take(values@.len() as int) =~= values@);
    found
}

/// No value occurs twice in the unique values, and each value occurs in them.
pub proof fn unique_values_are_distinct(values: Seq<Value>)
    ensures
        forall|i: int, j: int|
            0 <= i < j < unique(values).len() ==> !equality::alike(
                #[trigger] unique(values)[j],
                #[trigger] unique(values)[i],
            ),
        forall|k: int| 0 <= k < values.len() ==> occurs(unique(values), #[trigger] values[k]),
        forall|k: int|
            0 <= k < unique(values).len() ==> values.contains(#[trigger] unique(values)[k]),
    decreases values.len(),
{
    if values.len() > 0 {
        let shorter = values.drop_last();
        let prior = unique(shorter);
        unique_values_are_distinct(shorter);
        let all = unique(values);
        assert forall|k: int| 0 <= k < values.len() implies occurs(all, #[trigger] values[k]) by {
            if k < shorter.len() {
                assert(occurs(prior, shorter[k]));
                let i = choose|i: int|
                    0 <= i < prior.len() && equality::alike(shorter[k], #[trigger] prior[i]);
                assert(all[i] == prior[i]);
            } else if !occurs(prior, values.last()) {
                equality::alike_reflexive(values[k]);
                assert(all[prior.len() as int] == values[k]);
            }
        }
        assert forall|k: int| 0 <= k < all.len() implies values.contains(#[trigger] all[k]) by {
            if k < prior.len() {
                assert(shorter.contains(prior[k]));
                let i = choose|i: int| 0 <= i < shorter.len() && shorter[i] == prior[k];
                assert(values[i] == all[k]);
            } else {
                assert(values[values.len() - 1] == all[k]);
            }
        }
    }
}

impl MacroFailure {
    pub fn message(&self) -> (message: &str)
        ensures
            message@ == self.diagnostic.message@,
    {
        self.diagnostic.message.as_str()
    }

    /// The byte up to which the furthest alternative read.
    pub fn frontier(&self) -> (frontier: Option<usize>)
        ensures
            frontier == self.frontier,
    {
        self.frontier
    }

    /// The explanations of the alternatives that failed there.
    pub fn cases(&self) -> (cases: &Vec<Value>)
        ensures
            cases@ == self.cases@,
    {
        &self.cases
    }

    pub fn with_context(self, frontier: usize, cases: Vec<Value>) -> (failure: Self)
        ensures
            failure.diagnostic == self.diagnostic,
            failure.frontier == Some(frontier),
            failure.cases@ == unique(cases@),
    {
        MacroFailure {
            diagnostic: self.diagnostic,
            frontier: Some(frontier),
            cases: unique_values(cases),
        }
    }
}

impl MacroRun {
    pub fn diagnostics(&self) -> (diagnostics: &Vec<Diagnostic>)
        ensures
            diagnostics@ == self.diagnostics@,
    {
        &self.diagnostics
    }

    pub fn visited_cases(&self) -> (cases: &Vec<Value>)
        ensures
            cases@ == self.visited_cases@,
    {
        &self.visited_cases
    }

    pub fn consumed_end(&self) -> (end: usize)
        ensures
            end == self.consumed_end,
    {
        self.consumed_end
    }

    pub fn output(&self) -> (output: &Vec<MacroOutput>)
        ensures
            output@ == self.output@,
    {
        &self.output
    }
}

/// The failure of a value that is no effect.
pub fn not_runnable(error: &str) -> (failure: MacroFailure)
    ensures
        plain_failure(failure, "selected macro value is not a runnable effect: "@ + error@),
{
    detailed_error("selected macro value is not a runnable effect: ", error)
}

/// What a search needs after some of its steps.
pub fn search_step(poll: SearchPoll) -> (result: Result<SearchStep, MacroFailure>)
    ensures
        match poll {
            SearchPoll::Yielded => result == Ok::<SearchStep, MacroFailure>(SearchStep::Poll),
            SearchPoll::Complete => result == Ok::<SearchStep, MacroFailure>(SearchStep::Select),
            SearchPoll::Blocked { dependency, error } => if dependency {
                result == Ok::<SearchStep, MacroFailure>(SearchStep::Wait)
            } else {
                result matches Err(failure) && plain_failure(
                    failure,
                    match error {
                        Some(error) => "macro effect became blocked after evaluation failed: "@
                            + error@,
                        None => "macro effect became blocked without a lazy dependency"@,
                    },
                )
            },
            SearchPoll::Failed(error) => result matches Err(failure) && plain_failure(
                failure,
                "macro effect failed: "@ + error@,
            ),
            SearchPoll::Cancelled => result matches Err(failure) && plain_failure(
                failure,
                "macro effect was cancelled"@,
            ),
        },
{
    match poll {
        SearchPoll::Yielded => Ok(SearchStep::Poll),
        SearchPoll::Complete => Ok(SearchStep::Select),
        SearchPoll::Blocked { dependency, error } => if dependency {
            Ok(SearchStep::Wait)
        } else {
            match error {
                Some(error) => Err(
                    detailed_error(
                        "macro effect became blocked after evaluation failed: ",
                        error.as_str(),
                    ),
                ),
                None => Err(macro_error("macro effect became blocked without a lazy dependency")),
            }
        },
        SearchPoll::Failed(error) => Err(detailed_error("macro effect failed: ", error.as_str())),
        SearchPoll::Cancelled => Err(macro_error("macro effect was cancelled")),
    }
}

/// What a search needs after its dependency was worked on.
pub fn wait_step(outcome: WaitOutcome) -> (result: Result<SearchStep, MacroFailure>)
    ensures
        if outcome is NoProgress {
            result matches Err(failure) && plain_failure(
                failure,
                "macro effect is waiting on a lazy producer unavailable to the macro demand session"@,
            )
        } else {
            result == Ok::<SearchStep, MacroFailure>(SearchStep::Poll)
        },
{
    match outcome {
        WaitOutcome::TargetReady | WaitOutcome::Busy | WaitOutcome::BudgetExhausted => Ok(
            SearchStep::Poll,
        ),
        WaitOutcome::NoProgress => Err(
            macro_error(
                "macro effect is waiting on a lazy producer unavailable to the macro demand session",
            ),
        ),
    }
}

/// The message of a value that could not be had.
pub open spec fn demand_error(demand: Demand) -> Option<Seq<char>> {
    match demand {
        Demand::Evaluated { .. } => None,
        Demand::Waiting => Some(
            "macro result is waiting on a lazy producer unavailable to the macro demand session"@,
        ),
        Demand::Failed(error) => Some("macro result evaluation failed: "@ + error@),
    }
}

/// A value that was demanded, with the name of its kind.
pub fn force_result(demand: Demand) -> (result: Result<(Value, String), MacroFailure>)
    ensures
        match result {
            Ok(found) => demand == (Demand::Evaluated { value: found.0, kind: found.1 }),
            Err(failure) => demand_error(demand) is Some && plain_failure(
                failure,
                demand_error(demand)->0,
            ),
        },
{
    match demand {
        Demand::Evaluated { value, kind } => Ok((value, kind)),
        Demand::Waiting => Err(
            macro_error(
                "macro result is waiting on a lazy producer unavailable to the macro demand session",
            ),
        ),
        Demand::Failed(error) => Err(
            detailed_error("macro result evaluation failed: ", error.as_str()),
        ),
    }
}

/// The furthest byte that an alternative read up to.
pub open spec fn furthest(branches: Seq<Branch>, input: MacroInput) -> int
    decreases branches.len(),
{
    if branches.len() == 0 {
        input.start as int
    } else {
        let last = macro_io::consumed(branches.last().journal@.cursor, input);
        if branches.len() == 1 || last >= furthest(branches.drop_last(), input) {
            last
        } else {
            furthest(branches.drop_last(), input)
        }
    }
}

/// The explanations under which alternatives stopped at a byte.
pub open spec fn cases_at(branches: Seq<Branch>, input: MacroInput, frontier: int) -> Seq<Value>
    decreases branches.len(),
{
    if branches.len() == 0 {
        Seq::empty()
    } else {
        let before = cases_at(branches.drop_last(), input, frontier);
        if macro_io::consumed(branches.last().journal@.cursor, input) == frontier {
            before + branches.last().journal@.active
        } else {
            before
        }
    }
}

/// The alternatives that succeeded.
pub open spec fn successes(branches: Seq<Branch>) -> Seq<int>
    decreases branches.len(),
{
    if branches.len() == 0 {
        Seq::empty()
    } else if branches.last().value is Some {
        successes(branches.drop_last()).push(branches.len() - 1)
    } else {
        successes(branches.drop_last())
    }
}

/// Each success is an alternative that returned a value.
pub proof fn successes_hold_values(branches: Seq<Branch>)
    ensures
        forall|k: int|
            0 <= k < successes(branches).len() ==> 0 <= #[trigger] successes(branches)[k]
                < branches.len() && branches[successes(branches)[k]].value is Some,
    decreases branches.len(),
{
    if branches.len() > 0 {
        successes_hold_values(branches.drop_last());
    }
}

/// The only alternative that succeeded.
pub open spec fn selected(branches: Seq<Branch>) -> Option<int> {
    if successes(branches).len() == 1 {
        Some(successes(branches)[0])
    } else {
        None
    }
}

/// Copies of values.
fn copies(values: &Vec<Value>) -> (copies: Vec<Value>)
    ensures
        copies@ == values@,
{
    let mut copies: Vec<Value> = Vec::new();
    let mut k: usize = 0;
    while k < values.len()
        invariant
            k <= values.len(),
            copies@ == values@.take(k as int),
        decreases values.len() - k,
    {
        assert(values@.take(k + 1) =~= values@.take(k as int).push(values@[k as int]));
        copies.push(values[k].copy());
        k = k + 1;
    }
    assert(values@.take(values@.len() as int) =~= values@);
    copies
}

/// The failure of a search without a success.
pub open spec fn unmatched(
    failure: MacroFailure,
    branches: Seq<Branch>,
    input: MacroInput,
) -> bool {
    let frontier = furthest(branches, input);
    &&& failure.diagnostic.severity == Severity::Error
    &&& failure.diagnostic.message@ == "macro input did not match any successful alternative"@
    &&& failure.frontier is Some
    &&& failure.frontier->0 == frontier
    &&& failure.cases@ == unique(cases_at(branches, input, frontier))
}

/// Tells how far the alternatives of a search came.
fn no_success(branches: &Vec<Branch>, input: &MacroInput) -> (failure: MacroFailure)
    requires
        macro_io::measured(*input),
    ensures
        unmatched(failure, branches@, *input),
{
    let mut frontier = input.start();
    let mut k: usize = 0;
    while k < branches.len()
        invariant
            k <= branches.len(),
            macro_io::measured(*input),
            frontier == furthest(branches@.take(k as int), *input),
        decreases branches.len() - k,
    {
        let ghost longer = branches@.take(k + 1);
        assert(longer.drop_last() =~= branches@.take(k as int));
        let end = branches[k].journal.cursor.consumed_end(input);
        if k == 0 || end >= frontier {
            frontier = end;
        }
        k = k + 1;
    }
    assert(branches@.take(branches@.len() as int) =~= branches@);
    let mut cases: Vec<Value> = Vec::new();
    let mut j: usize = 0;
    while j < branches.len()
        invariant
            j <= branches.len(),
            macro_io::measured(*input),
            cases@ == cases_at(branches@.take(j as int), *input, frontier as int),
        decreases branches.len() - j,
    {
        assert(branches@.take(j + 1).drop_last() =~= branches@.take(j as int));
        if branches[j].journal.cursor.consumed_end(input) == frontier {
            let mut more = copies(&branches[j].journal.active_cases);
            cases.append(&mut more);
        }
        j = j + 1;
    }
    macro_error("macro input did not match any successful alternative").with_context(
        frontier,
        cases,
    )
}

/// Selects the only alternative that succeeded.
pub fn select_branch(branches: &Vec<Branch>, input: &MacroInput) -> (result: Result<
    usize,
    MacroFailure,
>)
    requires
        macro_io::measured(*input),
    ensures
        match result {
            Ok(k) => selected(branches@) == Some(k as int) && k < branches@.len(),
            Err(failure) => if successes(branches@).len() == 0 {
                unmatched(failure, branches@, *input)
            } else {
                successes(branches@).len() > 1 && plain_failure(
                    failure,
                    "macro effect produced multiple results; use `.cut` to select one"@,
                )
            },
        },
{
    let mut first: Option<usize> = None;
    let mut more = false;
    let mut k: usize = 0;
    while k < branches.len()
        invariant
            k <= branches.len(),
            match first {
                Some(i) => successes(branches@.take(k as int)).len() >= 1 && successes(
                    branches@.take(k as int),
                )[0] == i && i < k,
                None => successes(branches@.take(k as int)).len() == 0,
            },
            more == (successes(branches@.take(k as int)).len() > 1),
        decreases branches.len() - k,
    {
        assert(branches@.take(k + 1).drop_last() =~= branches@.take(k as int));
        if branches[k].value.is_some() {
            if first.is_some() {
                more = true;
            } else {
                first = Some(k);
            }
        }
        k = k + 1;
    }
    assert(branches@.take(branches@.len() as int) =~= branches@);
    match first {
        None => Err(no_success(branches, input)),
        Some(i) => if more {
            Err(macro_error("macro effect produced multiple results; use `.cut` to select one"))
        } else {
            Ok(i)
        },
    }
}

/// Why an alternative with a value has no result.
pub open spec fn journal_error(
    journal: macro_host::Journal,
    input: MacroInput,
    value: Value,
    kind: Seq<char>,
) -> Option<Seq<char>> {
    if !(value is Unit) {
        Some("macro effect terminated with "@ + kind + ", expected unit"@)
    } else if journal.cursor.delimiters.len() > 0 {
        Some("macro reader left an input delimiter unclosed"@)
    } else if !macro_host::complete(journal) {
        Some("macro writer left an empty or unclosed layout item"@)
    } else if journal.root_anchors && !macro_io::ended(journal.cursor, input) {
        Some("anchored macro output requires consuming the complete input item"@)
    } else {
        None
    }
}

/// The result of an alternative.
pub open spec fn ran(run: MacroRun, journal: macro_host::Journal, input: MacroInput) -> bool {
    &&& run.diagnostics@ == journal.diagnostics
    &&& run.visited_cases@ == journal.visited
    &&& run.consumed_end == macro_io::consumed(journal.cursor, input)
    &&& run.output@ == journal.output
}

/// The result of the alternative that was selected, whose value was demanded.
pub fn finish_branch(journal: MacroJournal, input: &MacroInput, demand: Demand) -> (result: Result<
    MacroRun,
    MacroFailure,
>)
    requires
        macro_io::measured(*input),
    ensures
        finished(result, journal@, *input, demand),
{
    let end = journal.cursor.consumed_end(input);
    let (value, kind) = match force_result(demand) {
        Ok(found) => found,
        Err(failure) => {
            return Err(failure.with_context(end, copies(&journal.active_cases)));
        },
    };
    match value {
        Value::Unit => {},
        _ => {
            let mut message = "macro effect terminated with ".to_owned();
            text::push_text(&mut message, kind.as_str());
            text::push_text(&mut message, ", expected unit");
            return Err(macro_error(message.as_str()));
        },
    }
    if !journal.cursor.balanced() {
        return Err(macro_error("macro reader left an input delimiter unclosed"));
    }
    if !journal.output_is_complete() {
        return Err(macro_error("macro writer left an empty or unclosed layout item"));
    }
    if journal.is_anchor_expansion() && !journal.cursor.at_end(input) {
        return Err(
            macro_error("anchored macro output requires consuming the complete input item"),
        );
    }
    Ok(
        MacroRun {
            diagnostics: journal.diagnostics,
            visited_cases: journal.visited_cases,
            consumed_end: end,
            output: journal.output,
        },
    )
}

/// What becomes of an alternative whose value was demanded.
pub open spec fn finished(
    result: Result<MacroRun, MacroFailure>,
    journal: macro_host::Journal,
    input: MacroInput,
    demand: Demand,
) -> bool {
    match demand {
        Demand::Evaluated { value, kind } => match journal_error(journal, input, value, kind@) {
            None => result matches Ok(run) && ran(run, journal, input),
            Some(message) => result matches Err(failure) && plain_failure(failure, message),
        },
        _ => result matches Err(failure) && failure.diagnostic.severity == Severity::Error
            && demand_error(demand) == Some(failure.diagnostic.message@) && (
        failure.frontier matches Some(frontier) && frontier == macro_io::consumed(
            journal.cursor,
            input,
        )) && failure.cases@ == unique(journal.active),
    }
}

/// The result of a search that is over. The demand is that of the value of the
/// alternative that `select_branch` gives.
pub fn run_macro_effect(branches: Vec<Branch>, input: &MacroInput, demand: Demand) -> (result:
    Result<MacroRun, MacroFailure>)
    requires
        macro_io::measured(*input),
    ensures
        match selected(branches@) {
            Some(k) => 0 <= k < branches@.len() && finished(
                result,
                branches@[k].journal@,
                *input,
                demand,
            ),
            None => result matches Err(failure) && if successes(branches@).len() == 0 {
                unmatched(failure, branches@, *input)
            } else {
                plain_failure(
                    failure,
                    "macro effect produced multiple results; use `.cut` to select one"@,
                )
            },
        },
{
    let k = match select_branch(&branches, input) {
        Ok(k) => k,
        Err(failure) => {
            return Err(failure);
        },
    };
    let mut branches = branches;
    let branch = branches.remove(k);
    finish_branch(branch.journal, input, demand)
}

/// Every result of a macro has balanced output, and comes from the only
/// alternative that succeeded.
pub proof fn results_are_balanced(
    result: Result<MacroRun, MacroFailure>,
    branches: Seq<Branch>,
    input: MacroInput,
    demand: Demand,
)
    requires
        selected(branches) is Some,
        finished(result, branches[selected(branches)->0].journal@, input, demand),
        macro_host::nested(branches[selected(branches)->0].journal@),
        result is Ok,
    ensures
        macro_host::depth((result->Ok_0).output@) == 0,
        branches[selected(branches)->0].value is Some,
{
    let journal = branches[selected(branches)->0].journal@;
    macro_host::complete_output_is_balanced(journal);
    successes_hold_values(branches);
}

/// The entry of a dictionary at a name, from the last of its entries back.
pub open spec fn entry_at(entries: Seq<(Key, Value)>, name: Seq<char>) -> Option<Value>
    decreases entries.len(),
{
    if entries.len() == 0 {
        None
    } else if entries.last().0 matches Key::Atom(atom) && atom@ == name {
        Some(entries.last().1)
    } else {
        entry_at(entries.drop_last(), name)
    }
}

/// What an explanation holds at a name, where it is a dictionary.
pub open spec fn held(case: Demand, name: Seq<char>) -> Option<Value> {
    match case {
        Demand::Evaluated { value: Value::Dict(entries), .. } => entry_at(entries@, name),
        _ => None,
    }
}

/// The entry of a dictionary at a name.
fn entry_of(entries: &Vec<(Key, Value)>, name: &str) -> (found: Option<Value>)
    ensures
        found == entry_at(entries@, name@),
{
    let mut k: usize = entries.len();
    assert(entries@.take(k as int) =~= entries@);
    while k > 0
        invariant
            k <= entries.len(),
            entry_at(entries@, name@) == entry_at(entries@.take(k as int), name@),
        decreases k,
    {
        proof {
            assert(entries@.take(k as int).drop_last() =~= entries@.take(k - 1));
            assert(entries@.take(k as int).last() == entries@[k - 1]);
        }
        if let Key::Atom(atom) = &entries[k - 1].0 {
            if same_text(atom.as_str(), name) {
                return Some(entries[k - 1].1.copy());
            }
        }
        k = k - 1;
    }
    None
}

/// The fields of an explanation that have to be demanded to render it.
#[derive(Debug, PartialEq, Eq)]
pub struct CaseFields {
    pub usage: Option<Value>,
    pub summary: Option<Value>,
    pub details: Option<Value>,
}

/// The fields of an explanation that have to be demanded to render it.
pub fn case_fields(case: &Demand) -> (fields: CaseFields)
    ensures
        fields.usage == held(*case, "usage"@),
        fields.summary == held(*case, "summary"@),
        fields.details == held(*case, "details"@),
{
    match case {
        Demand::Evaluated { value: Value::Dict(entries), .. } => CaseFields {
            usage: entry_of(entries, "usage"),
            summary: entry_of(entries, "summary"),
            details: entry_of(entries, "details"),
        },
        _ => CaseFields { usage: None, summary: None, details: None },
    }
}

/// The text of a field of an explanation.
pub open spec fn field_text(field: Option<Demand>) -> Option<Seq<char>> {
    match field {
        Some(Demand::Evaluated { value, kind: _ }) => macro_effects::decoded(value),
        _ => None,
    }
}

fn field_of(field: Option<Demand>) -> (found: Option<String>)
    ensures
        match found {
            Some(text) => field_text(field) == Some(text@),
            None => field_text(field) is None,
        },
{
    match field {
        Some(Demand::Evaluated { value, kind: _ }) => decoded_text(&value),
        _ => None,
    }
}

/// An explanation as text.
pub open spec fn rendered_case(
    case: Demand,
    usage: Option<Demand>,
    summary: Option<Demand>,
    details: Option<Demand>,
) -> Seq<char> {
    match case {
        Demand::Evaluated { value, kind } => match value {
            Value::Binary(_) => match macro_effects::decoded(value) {
                Some(text) => text,
                None => "explanation is non-UTF-8 binary data"@,
            },
            Value::Dict(_) => match (field_text(usage), field_text(summary), field_text(details)) {
                (Some(usage), Some(summary), _) => usage + " — "@ + summary,
                (Some(usage), None, _) => usage,
                (None, Some(summary), _) => summary,
                (None, None, Some(details)) => details,
                (None, None, None) =>
                    "explanation has no textual `usage`, `summary`, or `details`"@,
            },
            _ => "explanation has kind "@ + kind@,
        },
        _ => "explanation unavailable ("@ + demand_error(case)->0 + ")"@,
    }
}

/// Renders an explanation, with what came of demanding its `case_fields`.
pub fn render_macro_case(
    case: Demand,
    usage: Option<Demand>,
    summary: Option<Demand>,
    details: Option<Demand>,
) -> (rendered: String)
    ensures
        rendered@ == rendered_case(case, usage, summary, details),
{
    let (value, kind) = match force_result(case) {
        Ok(found) => found,
        Err(failure) => {
            let mut told = "explanation unavailable (".to_owned();
            text::push_text(&mut told, failure.message());
            text::push_text(&mut told, ")");
            return told;
        },
    };
    match value {
        Value::Binary(_) => match decoded_text(&value) {
            Some(text) => text,
            None => "explanation is non-UTF-8 binary data".to_owned(),
        },
        Value::Dict(_) => {
            let usage = field_of(usage);
            let summary = field_of(summary);
            let details = field_of(details);
            match usage {
                Some(usage) => match summary {
                    Some(summary) => {
                        let mut told = usage;
                        text::push_text(&mut told, " — ");
                        text::push_text(&mut told, summary.as_str());
                        told
                    },
                    None => usage,
                },
                None => match summary {
                    Some(summary) => summary,
                    None => match details {
                        Some(details) => details,
                        None => "explanation has no textual `usage`, `summary`, or `details`".to_owned(),
                    },
                },
            }
        },
        _ => {
            let mut told = "explanation has kind ".to_owned();
            text::push_text(&mut told, kind.as_str());
            told
        },
    }
}

} // verus!
