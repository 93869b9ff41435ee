//! Diagnostics reported by the front end.

use vstd::prelude::*;

verus! {

#[derive(Debug, Clone, Copy, PartialEq, Eq, Structural)]
pub enum Severity {
    Info,
    Warning,
    Error,
}

#[derive(Debug, Clone, PartialEq, Eq)]
pub struct Diagnostic {
    pub severity: Severity,
    pub line: usize,
    pub message: String,
}

/// What a diagnostic says, independent of how its text is stored.
pub struct DiagnosticView {
    pub severity: Severity,
    pub line: nat,
    pub message: Seq<char>,
}

impl View for Diagnostic {
    type V = DiagnosticView;

    open spec fn view(&self) -> DiagnosticView {
        DiagnosticView { severity: self.severity, line: self.line as nat, message: self.message@ }
    }
}

/// The error reported on `line`.
pub open spec fn error_at(line: nat, message: Seq<char>) -> DiagnosticView {
    DiagnosticView { severity: Severity::Error, line, message }
}

/// The warning reported on `line`.
pub open spec fn warning_at(line: nat, message: Seq<char>) -> DiagnosticView {
    DiagnosticView { severity: Severity::Warning, line, message }
}

/// The views of a list of diagnostics.
pub open spec fn reports(diagnostics: Seq<Diagnostic>) -> Seq<DiagnosticView> {
    diagnostics.map_values(|d: Diagnostic| d@)
}

impl Diagnostic {
    pub fn error(line: usize, message: &str) -> (d: Self)
        ensures
            d@ == error_at(line as nat, message@),
    {
        Diagnostic { severity: Severity::Error, line, message: message.to_owned() }
    }

    pub fn warn(line: usize, message: &str) -> (d: Self)
        ensures
            d@ == warning_at(line as nat, message@),
    {
        Diagnostic { severity: Severity::Warning, line, message: message.to_owned() }
    }
}

/// Appends one diagnostic.
pub fn report(diagnostics: &mut Vec<Diagnostic>, diagnostic: Diagnostic)
    ensures
        reports(final(diagnostics)@) == reports(old(diagnostics)@).push(diagnostic@),
{
    diagnostics.push(diagnostic);
    assert(reports(diagnostics@) =~= reports(old(diagnostics)@).push(diagnostic@));
}

/// Appends a list of diagnostics.
pub fn report_all(diagnostics: &mut Vec<Diagnostic>, more: Vec<Diagnostic>)
    ensures
        reports(final(diagnostics)@) == reports(old(diagnostics)@) + reports(more@),
{
    let mut rest = more;
    diagnostics.append(&mut rest);
    assert(reports(diagnostics@) =~= reports(old(diagnostics)@) + reports(more@));
}

/// Appends copies of a list of diagnostics.
pub fn report_copies(diagnostics: &mut Vec<Diagnostic>, more: &Vec<Diagnostic>)
    ensures
        reports(final(diagnostics)@) == reports(old(diagnostics)@) + reports(more@),
{
    let ghost before = reports(diagnostics@);
    let ghost all = reports(more@);
    let mut k: usize = 0;
    assert(before + all.take(0) =~= before);
    while k < more.len()
        invariant
            k <= more.len(),
            all == reports(more@),
            reports(diagnostics@) == before + all.take(k as int),
        decreases more.len() - k,
    {
        let one = &more[k];
        report(
            diagnostics,
            Diagnostic { severity: one.severity, line: one.line, message: one.message.clone() },
        );
        assert(all[k as int] == more@[k as int]@);
        assert(before + all.take(k + 1) =~= (before + all.take(k as int)).push(all[k as int]));
        k = k + 1;
    }
    assert(all.take(k as int) =~= all);
}

} // verus!
