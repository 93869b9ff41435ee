//! What the macros of a declaration log, and when that is published.

use vstd::prelude::*;
use crate::ast::ParsedSource;
use crate::diagnostic;
use crate::diagnostic::{Diagnostic, DiagnosticView, Severity};
use crate::lexical;
use crate::macro_host;

verus! {

/// What one macro logged, and the line on which it stands.
#[derive(Debug, PartialEq, Eq)]
pub struct MacroLog {
    pub line: usize,
    pub messages: Vec<macro_host::Diagnostic>,
}

/// What one macro logged, at its line.
pub open spec fn logged(log: MacroLog) -> Seq<DiagnosticView> {
    log.messages@.map_values(
        |message: macro_host::Diagnostic|
            DiagnosticView {
                severity: message.severity,
                line: log.line as nat,
                message: message.message@,
            },
    )
}

/// What the macros of a declaration logged, in source order. They run from the
/// last to the first.
pub open spec fn in_source_order(logs: Seq<MacroLog>) -> Seq<DiagnosticView>
    decreases logs.len(),
{
    if logs.len() == 0 {
        Seq::empty()
    } else {
        logged(logs.last()) + in_source_order(logs.drop_last())
    }
}

/// What is published of the logs of a declaration: nothing, unless the source
/// that its macros wrote was accepted.
pub open spec fn published(logs: Seq<MacroLog>, found: Seq<DiagnosticView>) -> Seq<DiagnosticView> {
    if lexical::any_error(found) {
        Seq::empty()
    } else {
        in_source_order(logs)
    }
}

/// Whether a source was refused.
pub fn is_refused(diagnostics: &Vec<Diagnostic>) -> (refused: bool)
    ensures
        refused == lexical::any_error(diagnostic::reports(diagnostics@)),
{
    let ghost all = diagnostic::reports(diagnostics@);
    let mut k: usize = 0;
    while k < diagnostics.len()
        invariant
            k <= diagnostics.len(),
            all == diagnostic::reports(diagnostics@),
            forall|j: int| 0 <= j < k ==> (#[trigger] all[j]).severity != Severity::Error,
        decreases diagnostics.len() - k,
    {
        assert(all[k as int] == diagnostics@[k as int]@);
        if diagnostics[k].severity == Severity::Error {
            return true;
        }
        k = k + 1;
    }
    false
}

/// Appends what one macro logged.
fn publish_log(told: &mut Vec<Diagnostic>, log: &MacroLog)
    ensures
        diagnostic::reports(final(told)@) == diagnostic::reports(old(told)@) + logged(*log),
{
    let ghost first = diagnostic::reports(told@);
    let ghost all = logged(*log);
    let mut k: usize = 0;
    assert(first + all.take(0) =~= first);
    while k < log.messages.len()
        invariant
            k <= log.messages.len(),
            all == logged(*log),
            diagnostic::reports(told@) == first + all.take(k as int),
        decreases log.messages.len() - k,
    {
        let message = &log.messages[k];
        let one = Diagnostic {
            severity: message.severity,
            line: log.line,
            message: message.message.clone(),
        };
        assert(all[k as int] == one@);
        diagnostic::report(told, one);
        assert(first + all.take(k + 1) =~= (first + all.take(k as int)).push(all[k as int]));
        k = k + 1;
    }
    assert(all.take(k as int) =~= all);
}

/// What is published of the logs of a declaration, whose macros wrote the
/// source that was parsed.
pub fn publish(logs: &Vec<MacroLog>, parsed: &ParsedSource) -> (told: Vec<Diagnostic>)
    ensures
        diagnostic::reports(told@) == published(
            logs@,
            diagnostic::reports(parsed.diagnostics@),
        ),
{
    let mut told: Vec<Diagnostic> = Vec::new();
    assert(diagnostic::reports(told@) =~= Seq::empty());
    if is_refused(&parsed.diagnostics) {
        return told;
    }
    let mut k: usize = logs.len();
    assert(logs@.take(k as int) =~= logs@);
    assert(Seq::<DiagnosticView>::empty() + in_source_order(logs@) =~= in_source_order(logs@));
    while k > 0
        invariant
            k <= logs.len(),
            diagnostic::reports(told@) + in_source_order(logs@.take(k as int)) == in_source_order(
                logs@,
            ),
        decreases k,
    {
        let ghost before = diagnostic::reports(told@);
        proof {
            assert(logs@.take(k as int).drop_last() =~= logs@.take(k - 1));
            assert(logs@.take(k as int).last() == logs@[k - 1]);
        }
        publish_log(&mut told, &logs[k - 1]);
        assert(diagnostic::reports(told@) + in_source_order(logs@.take(k - 1)) =~= before + (
        logged(logs@[k - 1]) + in_source_order(logs@.take(k - 1))));
        k = k - 1;
    }
    assert(in_source_order(logs@.take(0)) =~= Seq::empty());
    assert(diagnostic::reports(told@) =~= in_source_order(logs@));
    told
}

/// A source that is refused publishes nothing of what its macros logged.
pub proof fn refused_source_discards_logs(logs: Seq<MacroLog>, found: Seq<DiagnosticView>)
    requires
        lexical::any_error(found),
    ensures
        published(logs, found).len() == 0,
{
}

} // verus!
