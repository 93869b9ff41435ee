//! The text that a macro generates, and how it takes the place of the macro in
//! its declaration.
//!
//! Data has no spelling. In text it is stood for by a marker, and the values
//! are kept beside the text in the order of their markers.

use vstd::prelude::*;
use crate::diagnostic;
use crate::diagnostic::{Diagnostic, DiagnosticView};
use crate::grammar;
use crate::input;
use crate::input::TokenView;
use crate::lexical;
use crate::lexical::{lex_source, Lexed, LexedSource, Lexeme, TokenKind};
use crate::macro_io;
use crate::macro_io::{boundary_of, MacroOutput};
use crate::number;
use crate::number::{number_refusal, Number};
use crate::text;
use crate::text::{byte_len, chars_of, is_white_space, string_of};
use crate::values::Value;

verus! {

/// ASCII SUB, which macros cannot write with the rest of C0.
pub const EMBEDDED_MARKER: char = '\u{1a}';

/// The number of markers in a text.
pub open spec fn markers(text: Seq<char>) -> nat
    decreases text.len(),
{
    if text.len() == 0 {
        0
    } else {
        markers(text.drop_last()) + if text.last() == '\u{1a}' {
            1nat
        } else {
            0
        }
    }
}

/// Markers of two texts in a row are the markers of both.
pub proof fn markers_add(a: Seq<char>, b: Seq<char>)
    ensures
        markers(a + b) == markers(a) + markers(b),
    decreases b.len(),
{
    if b.len() == 0 {
        assert(a + b =~= a);
    } else {
        assert((a + b).drop_last() =~= a + b.drop_last());
        markers_add(a, b.drop_last());
    }
}

fn marker_count(chars: &Vec<char>, lo: usize, hi: usize) -> (n: usize)
    requires
        lo <= hi <= chars.len(),
    ensures
        n == markers(chars@.subrange(lo as int, hi as int)),
{
    let mut n: usize = 0;
    let mut k: usize = lo;
    assert(chars@.subrange(lo as int, lo as int) =~= Seq::empty());
    while k < hi
        invariant
            lo <= k <= hi <= chars.len(),
            n <= k - lo,
            n == markers(chars@.subrange(lo as int, k as int)),
        decreases hi - k,
    {
        assert(chars@.subrange(lo as int, k + 1).drop_last() =~= chars@.subrange(
            lo as int,
            k as int,
        ));
        if chars[k] == EMBEDDED_MARKER {
            n = n + 1;
        }
        k = k + 1;
    }
    n
}

/// Generated text as it grows.
pub struct Generated {
    pub text: Seq<char>,
    pub embedded: Seq<Value>,
    /// The indentation of each layout that is open, the root first.
    pub indentation: Seq<nat>,
    pub first_anchor: bool,
    /// A layout ended, and what follows begins a line.
    pub resume: bool,
}

pub open spec fn started(indentation: nat) -> Generated {
    Generated {
        text: Seq::empty(),
        embedded: Seq::empty(),
        indentation: seq![indentation],
        first_anchor: true,
        resume: false,
    }
}

pub open spec fn spaces(n: nat) -> Seq<char> {
    Seq::new(n, |i: int| ' ')
}

/// The indentation of the innermost layout.
pub open spec fn innermost(g: Generated) -> nat {
    if g.indentation.len() == 0 {
        0
    } else {
        g.indentation.last()
    }
}

pub open spec fn on_new_line(g: Generated) -> Seq<char> {
    g.text.push('\n') + spaces(innermost(g))
}

/// Generated text where an item can go on.
pub open spec fn resumed(g: Generated) -> Generated {
    if g.resume {
        Generated { text: on_new_line(g), resume: false, ..g }
    } else {
        g
    }
}

/// Generated text after one more output. Layouts are indented by two, and the
/// first anchor of the root needs no line of its own.
pub open spec fn generated(g: Generated, output: MacroOutput) -> Generated {
    match output {
        MacroOutput::Text(text) => {
            let r = resumed(g);
            Generated { text: r.text + text@, ..r }
        },
        MacroOutput::Data(value) => {
            let r = resumed(g);
            Generated { text: r.text.push('\u{1a}'), embedded: r.embedded.push(value), ..r }
        },
        MacroOutput::Separator => {
            let r = resumed(g);
            Generated { text: r.text.push(' '), ..r }
        },
        MacroOutput::LayoutStart => Generated {
            indentation: g.indentation.push(innermost(g) + 2),
            resume: false,
            ..g
        },
        MacroOutput::LayoutEnd => Generated {
            indentation: if g.indentation.len() > 0 {
                g.indentation.drop_last()
            } else {
                g.indentation
            },
            resume: true,
            ..g
        },
        MacroOutput::Anchor => if g.indentation.len() == 1 && g.first_anchor {
            Generated { first_anchor: false, resume: false, ..g }
        } else {
            Generated { text: on_new_line(g), resume: false, ..g }
        },
    }
}

/// The text that outputs generate.
pub open spec fn generated_all(outputs: Seq<MacroOutput>, indentation: nat) -> Generated
    decreases outputs.len(),
{
    if outputs.len() == 0 {
        started(indentation)
    } else {
        generated(generated_all(outputs.drop_last(), indentation), outputs.last())
    }
}

/// Text that macros write holds no markers.
pub open spec fn unmarked(outputs: Seq<MacroOutput>) -> bool {
    forall|k: int|
        0 <= k < outputs.len() ==> ((#[trigger] outputs[k]) matches MacroOutput::Text(text)
            ==> markers(text@) == 0)
}

proof fn spaces_hold_no_markers(n: nat)
    ensures
        markers(spaces(n)) == 0,
    decreases n,
{
    if n > 0 {
        assert(spaces(n).drop_last() =~= spaces((n - 1) as nat));
        spaces_hold_no_markers((n - 1) as nat);
    }
}

proof fn line_holds_no_markers(g: Generated)
    ensures
        markers(on_new_line(g)) == markers(g.text),
{
    spaces_hold_no_markers(innermost(g));
    markers_add(g.text.push('\n'), spaces(innermost(g)));
    assert(g.text.push('\n').drop_last() =~= g.text);
}

/// Generated text has a marker for each of its values.
pub proof fn markers_stand_for_values(outputs: Seq<MacroOutput>, indentation: nat)
    requires
        unmarked(outputs),
    ensures
        markers(generated_all(outputs, indentation).text) == generated_all(
            outputs,
            indentation,
        ).embedded.len(),
    decreases outputs.len(),
{
    if outputs.len() > 0 {
        let shorter = outputs.drop_last();
        assert forall|k: int| 0 <= k < shorter.len() implies ((
        #[trigger] shorter[k]) matches MacroOutput::Text(text) ==> markers(text@) == 0) by {
            assert(shorter[k] == outputs[k]);
        }
        markers_stand_for_values(shorter, indentation);
        let g = generated_all(shorter, indentation);
        line_holds_no_markers(g);
        let r = resumed(g);
        match outputs.last() {
            MacroOutput::Text(text) => {
                assert(outputs[outputs.len() - 1] == outputs.last());
                markers_add(r.text, text@);
            },
            MacroOutput::Data(_) => {
                assert(r.text.push('\u{1a}').drop_last() =~= r.text);
            },
            MacroOutput::Separator => {
                assert(r.text.push(' ').drop_last() =~= r.text);
            },
            _ => {},
        }
    }
}

/// Text that is generated, with the values of its markers.
struct Generator {
    text: String,
    embedded: Vec<Value>,
    indentation: Vec<usize>,
    first_anchor: bool,
    resume: bool,
}

impl Generator {
    spec fn state(&self) -> Generated {
        Generated {
            text: self.text@,
            embedded: self.embedded@,
            indentation: self.indentation@.map_values(|n: usize| n as nat),
            first_anchor: self.first_anchor,
            resume: self.resume,
        }
    }

    /// The indentation of the innermost layout.
    fn innermost(&self) -> (n: usize)
        ensures
            n == innermost(self.state()),
    {
        let count = self.indentation.len();
        assert(self.state().indentation.len() == count);
        if count == 0 {
            0
        } else {
            self.indentation[count - 1]
        }
    }

    fn break_line(&mut self)
        ensures
            final(self).state() == (Generated {
                text: on_new_line(old(self).state()),
                ..old(self).state()
            }),
    {
        let n = self.innermost();
        let ghost before = self.state();
        let ghost line = before.text.push('\n');
        self.text.push('\n');
        let mut k: usize = 0;
        assert(self.text@ =~= line + spaces(0));
        while k < n
            invariant
                k <= n,
                self.text@ == line + spaces(k as nat),
                self.embedded@ == before.embedded,
                self.indentation@.map_values(|n: usize| n as nat) == before.indentation,
                self.first_anchor == before.first_anchor,
                self.resume == before.resume,
            decreases n - k,
        {
            self.text.push(' ');
            assert(self.text@ =~= line + spaces((k + 1) as nat));
            k = k + 1;
        }
    }

    fn resume_output_parent(&mut self)
        ensures
            final(self).state() == resumed(old(self).state()),
    {
        if self.resume {
            self.break_line();
            self.resume = false;
        }
    }

    fn take(&mut self, output: &MacroOutput)
        requires
            innermost(old(self).state()) + 2 <= usize::MAX,
        ensures
            final(self).state() == generated(old(self).state(), *output),
    {
        let ghost before = self.state();
        assert(before.indentation.len() == self.indentation.len());
        match output {
            MacroOutput::Text(written) => {
                self.resume_output_parent();
                text::push_text(&mut self.text, written.as_str());
            },
            MacroOutput::Data(value) => {
                self.resume_output_parent();
                self.text.push(EMBEDDED_MARKER);
                self.embedded.push(value.copy());
            },
            MacroOutput::Separator => {
                self.resume_output_parent();
                self.text.push(' ');
            },
            MacroOutput::LayoutStart => {
                let n = self.innermost();
                self.indentation.push(n + 2);
                self.resume = false;
                assert(self.state().indentation =~= before.indentation.push(
                    innermost(before) + 2,
                ));
            },
            MacroOutput::LayoutEnd => {
                if self.indentation.len() > 0 {
                    self.indentation.pop();
                    assert(self.state().indentation =~= before.indentation.drop_last());
                }
                self.resume = true;
            },
            MacroOutput::Anchor => {
                if self.indentation.len() == 1 && self.first_anchor {
                    self.first_anchor = false;
                } else {
                    self.break_line();
                }
                self.resume = false;
            },
        }
    }
}

/// Indentations stay below the depth of the outputs.
proof fn indentation_grows(outputs: Seq<MacroOutput>, indentation: nat)
    ensures
        forall|k: int|
            0 <= k < generated_all(outputs, indentation).indentation.len() ==> #[trigger]
                generated_all(outputs, indentation).indentation[k] <= indentation + 2
                * outputs.len(),
    decreases outputs.len(),
{
    if outputs.len() > 0 {
        let g = generated_all(outputs.drop_last(), indentation);
        let next = generated_all(outputs, indentation);
        indentation_grows(outputs.drop_last(), indentation);
        assert forall|k: int| 0 <= k < next.indentation.len() implies #[trigger] next.indentation[k]
            <= indentation + 2 * outputs.len() by {
            if k < g.indentation.len() {
                assert(next.indentation[k] == g.indentation[k]);
            } else {
                assert(innermost(g) <= indentation + 2 * (outputs.len() - 1)) by {
                    if g.indentation.len() > 0 {
                        assert(g.indentation[g.indentation.len() - 1] == innermost(g));
                    }
                }
            }
        }
    }
}

/// Diagnostics of a text whose first line is a given line.
pub open spec fn moved(diagnostics: Seq<DiagnosticView>, line: nat) -> Seq<DiagnosticView> {
    diagnostics.map_values(|d: DiagnosticView| moved_one(d, line))
}

pub open spec fn moved_one(d: DiagnosticView, line: nat) -> DiagnosticView {
    DiagnosticView {
        line: if d.line + (line - 1) <= usize::MAX {
            (d.line + (line - 1)) as nat
        } else {
            usize::MAX as nat
        },
        ..d
    }
}

fn move_lines(diagnostics: Vec<Diagnostic>, line: usize) -> (found: Vec<Diagnostic>)
    requires
        line > 0,
    ensures
        diagnostic::reports(found@) == moved(diagnostic::reports(diagnostics@), line as nat),
{
    let ghost all = moved(diagnostic::reports(diagnostics@), line as nat);
    let mut found: Vec<Diagnostic> = Vec::new();
    let mut k: usize = 0;
    assert(diagnostic::reports(found@) =~= all.take(0));
    while k < diagnostics.len()
        invariant
            line > 0,
            k <= diagnostics.len(),
            all == moved(diagnostic::reports(diagnostics@), line as nat),
            all.len() == diagnostics.len(),
            diagnostic::reports(found@) == all.take(k as int),
        decreases diagnostics.len() - k,
    {
        let given = &diagnostics[k];
        let moved_line = if given.line <= usize::MAX - (line - 1) {
            given.line + (line - 1)
        } else {
            usize::MAX
        };
        let next = Diagnostic {
            severity: given.severity,
            line: moved_line,
            message: given.message.clone(),
        };
        proof {
            assert(diagnostic::reports(diagnostics@)[k as int] == given@);
            assert(all[k as int] == moved_one(given@, line as nat));
            assert(all.take(k + 1) =~= all.take(k as int).push(all[k as int]));
        }
        let ghost before = found@;
        found.push(next);
        assert(diagnostic::reports(found@) =~= diagnostic::reports(before).push(next@));
        k = k + 1;
    }
    assert(all.take(all.len() as int) =~= all);
    found
}

/// What is wrong with generated text.
pub open spec fn text_errors(text: Seq<char>) -> Seq<DiagnosticView> {
    let l = lexical::lexed(text);
    if exists|k: int| 0 <= k < text.len() && (#[trigger] text[k] == '@' || text[k] == '#') {
        seq![diagnostic::error_at(1, "generated macro text cannot contain `@` or `#`"@)]
    } else if lexical::any_error(l.validation + l.structural) {
        l.validation + l.structural
    } else {
        number_errors(l, l.tokens.len() as int)
    }
}

/// What is wrong with the numbers among the first tokens.
pub open spec fn number_errors(l: Lexed, n: int) -> Seq<DiagnosticView>
    decreases n,
{
    if n <= 0 {
        Seq::empty()
    } else {
        let before = number_errors(l, n - 1);
        match input::lexeme(l, n - 1) {
            Lexeme::Number(literal) => if number::number_literal(literal) {
                before
            } else {
                before.push(
                    diagnostic::error_at(input::line(l, n - 1), grammar::number_message(literal)),
                )
            },
            _ => before,
        }
    }
}

fn check_numbers(lexed: &LexedSource) -> (errors: Vec<Diagnostic>)
    requires
        lexed.wf(),
    ensures
        diagnostic::reports(errors@) == number_errors(lexed@, lexed@.tokens.len() as int),
{
    let ghost l = lexed@;
    let view = TokenView::whole(lexed);
    let mut errors: Vec<Diagnostic> = Vec::new();
    let mut k: usize = 0;
    assert(diagnostic::reports(errors@) =~= Seq::empty());
    while k < lexed.tokens.len()
        invariant
            lexed.wf(),
            l == lexed@,
            view.wf(),
            view.source == lexed,
            l.tokens.len() == lexed.tokens.len(),
            k <= lexed.tokens.len(),
            diagnostic::reports(errors@) == number_errors(l, k as int),
        decreases lexed.tokens.len() - k,
    {
        assert(l.tokens[k as int] == lexed.tokens@[k as int]@);
        if let TokenKind::Number(literal) = &lexed.tokens[k].kind {
            if Number::parse(literal.as_str()).is_none() {
                let message = number_refusal(literal.as_str());
                let error = Diagnostic::error(view.line(k), message.as_str());
                let ghost before = errors@;
                errors.push(error);
                assert(diagnostic::reports(errors@) =~= diagnostic::reports(before).push(error@));
            }
        }
        k = k + 1;
    }
    errors
}

/// Generated text must not call macros or hide source, must be lexically
/// complete, and its numbers must be numbers.
pub fn validate_generated_text(text: &str) -> (result: Result<(), Vec<Diagnostic>>)
    ensures
        match result {
            Ok(_) => text_errors(text@).len() == 0,
            Err(errors) => diagnostic::reports(errors@) == text_errors(text@) && text_errors(
                text@,
            ).len() > 0,
        },
{
    let chars = chars_of(text);
    let mut k: usize = 0;
    while k < chars.len()
        invariant
            chars@ == text@,
            k <= chars.len(),
            forall|i: int| 0 <= i < k ==> !(#[trigger] text@[i] == '@' || text@[i] == '#'),
        decreases chars.len() - k,
    {
        if chars[k] == '@' || chars[k] == '#' {
            assert(text@[k as int] == '@' || text@[k as int] == '#');
            let mut errors: Vec<Diagnostic> = Vec::new();
            errors.push(
                Diagnostic::error(1, "generated macro text cannot contain `@` or `#`"),
            );
            assert(diagnostic::reports(errors@) =~= seq![
                diagnostic::error_at(1, "generated macro text cannot contain `@` or `#`"@),
            ]);
            return Err(errors);
        }
        k = k + 1;
    }
    let lexed = lex_source(text);
    if lexed.has_errors() {
        let errors = lexed.diagnostics();
        assert(diagnostic::reports(errors@).len() > 0) by {
            let all = lexed@.validation + lexed@.structural;
            if all.len() == 0 {
                assert(!lexical::any_error(all));
            }
        }
        Err(errors)
    } else {
        let errors = check_numbers(&lexed);
        assert(diagnostic::reports(errors@).len() == errors.len());
        if errors.len() > 0 {
            Err(errors)
        } else {
            Ok(())
        }
    }
}

/// The text of outputs and its values, or what is wrong with it.
pub fn generated_output(output: &Vec<MacroOutput>, line: usize, root_indentation: usize) -> (result:
    Result<(String, Vec<Value>), Vec<Diagnostic>>)
    requires
        line > 0,
        root_indentation + 2 * output@.len() + 2 <= usize::MAX,
    ensures
        ({
            let g = generated_all(output@, root_indentation as nat);
            match result {
                Ok(found) => text_errors(g.text).len() == 0 && found.0@ == g.text && found.1@
                    == g.embedded,
                Err(errors) => text_errors(g.text).len() > 0 && diagnostic::reports(errors@)
                    == moved(text_errors(g.text), line as nat),
            }
        }),
{
    let mut indentation: Vec<usize> = Vec::new();
    indentation.push(root_indentation);
    let mut generator = Generator {
        text: String::new(),
        embedded: Vec::new(),
        indentation,
        first_anchor: true,
        resume: false,
    };
    let mut k: usize = 0;
    assert(generator.state().indentation =~= seq![root_indentation as nat]);
    assert(generator.state().text =~= Seq::empty());
    assert(generator.state().embedded =~= Seq::empty());
    assert(output@.take(0) =~= Seq::empty());
    while k < output.len()
        invariant
            k <= output.len(),
            root_indentation + 2 * output@.len() + 2 <= usize::MAX,
            generator.state() == generated_all(output@.take(k as int), root_indentation as nat),
        decreases output.len() - k,
    {
        proof {
            indentation_grows(output@.take(k as int), root_indentation as nat);
            assert(output@.take(k + 1).drop_last() =~= output@.take(k as int));
        }
        generator.take(&output[k]);
        k = k + 1;
    }
    assert(output@.take(output@.len() as int) =~= output@);
    match validate_generated_text(generator.text.as_str()) {
        Ok(_) => Ok((generator.text, generator.embedded)),
        Err(errors) => Err(move_lines(errors, line)),
    }
}

/// A declaration whose macros are expanded one after the other.
#[derive(Debug, PartialEq, Eq)]
pub struct DeclarationMacroWork {
    pub line: usize,
    pub invocations: Vec<OriginalMacroInvocation>,
    pub text: String,
    pub embedded_values: Vec<Value>,
}

/// A macro in its declaration, before any expansion.
#[derive(Debug, PartialEq, Eq)]
pub struct OriginalMacroInvocation {
    pub id: usize,
    pub path: Vec<String>,
    pub start: usize,
    pub line: usize,
}

/// What a splice replaces, or why it cannot.
pub open spec fn spliced(
    text: Seq<char>,
    embedded: Seq<Value>,
    start: nat,
    end: nat,
    new: Generated,
) -> Result<(Seq<char>, Seq<Value>), Seq<char>> {
    if !(start <= end && end <= text::utf8_size(text)) {
        Err("macro reader produced an invalid source range"@)
    } else {
        match (macro_io::boundary(text, 0, start), macro_io::boundary(text, 0, end)) {
            (Some(i), Some(j)) => {
                let a = markers(text.take(i));
                let b = markers(text.take(j));
                Ok(
                    (
                        text.take(i) + new.text + text.skip(j),
                        embedded.take(a as int) + new.embedded + embedded.skip(b as int),
                    ),
                )
            },
            _ => Err("macro reader stopped outside a UTF-8 boundary"@),
        }
    }
}

/// The outcome of a splice.
pub open spec fn splice_errors(
    work: DeclarationMacroWork,
    anchored: bool,
    indentation: nat,
    start: nat,
    end: nat,
    output: Seq<MacroOutput>,
    line: nat,
) -> Seq<DiagnosticView> {
    let new = generated_all(output, indentation);
    if output.len() > 0 && output[0] is Anchor && !anchored {
        seq![
            diagnostic::error_at(
                line,
                "anchored macro output requires an invocation at the start of its logical item"@,
            ),
        ]
    } else if text_errors(new.text).len() > 0 {
        moved(text_errors(new.text), line)
    } else {
        match spliced(work.text@, work.embedded_values@, start, end, new) {
            Err(message) => seq![diagnostic::error_at(line, message)],
            Ok(_) => Seq::empty(),
        }
    }
}

fn sole(line: usize, message: &str) -> (errors: Vec<Diagnostic>)
    ensures
        diagnostic::reports(errors@) == seq![diagnostic::error_at(line as nat, message@)],
{
    let mut errors: Vec<Diagnostic> = Vec::new();
    errors.push(Diagnostic::error(line, message));
    assert(diagnostic::reports(errors@) =~= seq![diagnostic::error_at(line as nat, message@)]);
    errors
}

/// Copies of a part of values.
fn push_values(out: &mut Vec<Value>, values: &Vec<Value>, lo: usize, hi: usize)
    requires
        lo <= hi <= values.len(),
    ensures
        final(out)@ == old(out)@ + values@.subrange(lo as int, hi as int),
{
    let ghost before = out@;
    let mut k: usize = lo;
    assert(out@ =~= before + values@.subrange(lo as int, lo as int));
    while k < hi
        invariant
            lo <= k <= hi <= values.len(),
            out@ == before + values@.subrange(lo as int, k as int),
        decreases hi - k,
    {
        out.push(values[k].copy());
        assert(out@ =~= before + values@.subrange(lo as int, k + 1));
        k = k + 1;
    }
}

/// A larger byte position is a later scalar.
pub proof fn boundaries_ascend(text: Seq<char>, start: nat, end: nat)
    requires
        start <= end,
        macro_io::boundary(text, 0, start) is Some,
        macro_io::boundary(text, 0, end) is Some,
    ensures
        macro_io::boundary(text, 0, start)->0 <= macro_io::boundary(text, 0, end)->0,
{
    macro_io::boundary_bounds(text, 0, start);
    macro_io::boundary_bounds(text, 0, end);
    let i = macro_io::boundary(text, 0, start)->0;
    let j = macro_io::boundary(text, 0, end)->0;
    if j < i {
        text::utf8_size_grows(text, j, i);
    }
}

impl DeclarationMacroWork {
    /// There is a value for each marker.
    pub open spec fn wf(&self) -> bool {
        &&& self.line > 0
        &&& markers(self.text@) == self.embedded_values@.len()
    }

    /// Whether there is a value for each marker.
    pub fn is_marked(&self) -> (b: bool)
        ensures
            b == self.wf(),
    {
        let chars = chars_of(self.text.as_str());
        let count = marker_count(&chars, 0, chars.len());
        assert(chars@.subrange(0, chars@.len() as int) =~= chars@);
        self.line > 0 && count == self.embedded_values.len()
    }

    pub fn invocations(&self) -> (invocations: &Vec<OriginalMacroInvocation>)
        ensures
            invocations@ == self.invocations@,
    {
        &self.invocations
    }

    /// Replaces a macro and what it read by what it wrote.
    pub fn splice(
        &mut self,
        anchor_position: bool,
        indentation: usize,
        start: usize,
        consumed_end: usize,
        output: &Vec<MacroOutput>,
        line: usize,
    ) -> (result: Result<(), Vec<Diagnostic>>)
        requires
            old(self).wf(),
            line > 0,
            indentation + 2 * output@.len() + 2 <= usize::MAX,
        ensures
            ({
                let errors = splice_errors(
                    *old(self),
                    anchor_position,
                    indentation as nat,
                    start as nat,
                    consumed_end as nat,
                    output@,
                    line as nat,
                );
                match result {
                    Ok(_) => errors.len() == 0 && spliced(
                        old(self).text@,
                        old(self).embedded_values@,
                        start as nat,
                        consumed_end as nat,
                        generated_all(output@, indentation as nat),
                    ) == Ok::<(Seq<char>, Seq<Value>), Seq<char>>(
                        (final(self).text@, final(self).embedded_values@),
                    ),
                    Err(found) => errors.len() > 0 && diagnostic::reports(found@) == errors
                        && *final(self) == *old(self),
                }
            }),
            final(self).line == old(self).line,
            final(self).invocations == old(self).invocations,
            unmarked(output@) ==> final(self).wf(),
    {
        if output.len() > 0 && !anchor_position {
            if let MacroOutput::Anchor = &output[0] {
                return Err(
                    sole(
                        line,
                        "anchored macro output requires an invocation at the start of its logical item",
                    ),
                );
            }
        }
        let ghost new = generated_all(output@, indentation as nat);
        let (generated, embedded) = match generated_output(output, line, indentation) {
            Ok(found) => found,
            Err(errors) => {
                assert(moved(text_errors(new.text), line as nat).len() > 0);
                return Err(errors);
            },
        };
        let chars = chars_of(self.text.as_str());
        let size = byte_len(self.text.as_str());
        if !(start <= consumed_end && consumed_end <= size) {
            return Err(sole(line, "macro reader produced an invalid source range"));
        }
        let i = match boundary_of(&chars, 0, start) {
            Some(i) => i,
            None => {
                return Err(sole(line, "macro reader stopped outside a UTF-8 boundary"));
            },
        };
        let j = match boundary_of(&chars, 0, consumed_end) {
            Some(j) => j,
            None => {
                return Err(sole(line, "macro reader stopped outside a UTF-8 boundary"));
            },
        };
        let ghost s = chars@;
        proof {
            boundaries_ascend(s, start as nat, consumed_end as nat);
            assert(s.subrange(0, i as int) =~= s.take(i as int));
            assert(s.subrange(0, j as int) =~= s.take(j as int));
            assert(s.subrange(j as int, s.len() as int) =~= s.skip(j as int));
            markers_add(s.take(i as int), s.subrange(i as int, j as int));
            assert(s.take(i as int) + s.subrange(i as int, j as int) =~= s.take(j as int));
            markers_add(s.take(j as int), s.skip(j as int));
            assert(s.take(j as int) + s.skip(j as int) =~= s);
            markers_add(s.take(i as int) + new.text, s.skip(j as int));
            markers_add(s.take(i as int), new.text);
        }
        let first = marker_count(&chars, 0, i);
        let last = marker_count(&chars, 0, j);
        let mut replaced = string_of(&chars, 0, i);
        text::push_text(&mut replaced, generated.as_str());
        let rest = string_of(&chars, j, chars.len());
        text::push_text(&mut replaced, rest.as_str());
        let ghost had = self.embedded_values@;
        let mut kept: Vec<Value> = Vec::new();
        push_values(&mut kept, &self.embedded_values, 0, first);
        push_values(&mut kept, &embedded, 0, embedded.len());
        push_values(&mut kept, &self.embedded_values, last, self.embedded_values.len());
        proof {
            assert(kept@ =~= had.take(first as int) + new.embedded + had.skip(last as int));
            assert(replaced@ =~= s.take(i as int) + new.text + s.skip(j as int));
            if unmarked(output@) {
                markers_stand_for_values(output@, indentation as nat);
            }
        }
        self.text = replaced;
        self.embedded_values = kept;
        Ok(())
    }

    /// The declaration at its own line, and the values of its markers.
    pub fn materialize(&self) -> (found: (String, Vec<Value>))
        requires
            self.line > 0,
        ensures
            found.0@ == Seq::new((self.line - 1) as nat, |i: int| '\n') + self.text@,
            found.1@ == self.embedded_values@,
    {
        let mut source = String::new();
        let ghost lines = Seq::new((self.line - 1) as nat, |i: int| '\n');
        let mut k: usize = 1;
        assert(source@ =~= lines.take(0));
        while k < self.line
            invariant
                1 <= k <= self.line,
                lines == Seq::new((self.line - 1) as nat, |i: int| '\n'),
                source@ == lines.take(k - 1),
            decreases self.line - k,
        {
            source.push('\n');
            assert(source@ =~= lines.take(k as int));
            k = k + 1;
        }
        assert(lines.take(lines.len() as int) =~= lines);
        text::push_text(&mut source, self.text.as_str());
        let mut values: Vec<Value> = Vec::new();
        push_values(&mut values, &self.embedded_values, 0, self.embedded_values.len());
        assert(values@ =~= self.embedded_values@);
        (source, values)
    }

    /// The line and column of a byte of the declaration.
    pub fn position_at(&self, offset: usize) -> (position: (usize, usize))
        requires
            macro_io::boundary(self.text@, 0, clipped(self.text@, offset as nat)) is Some,
            self.line + text::utf8_size(self.text@) < usize::MAX,
        ensures
            ({
                let n = macro_io::boundary(self.text@, 0, clipped(self.text@, offset as nat))->0;
                position.0 == self.line + line_ends(self.text@.take(n)) && position.1
                    == column_after(self.text@.take(n)) + 1
            }),
    {
        let chars = chars_of(self.text.as_str());
        let size = byte_len(self.text.as_str());
        let offset = if offset <= size {
            offset
        } else {
            size
        };
        let ghost s = chars@;
        let n = match boundary_of(&chars, 0, offset) {
            Some(n) => n,
            None => {
                return (self.line, 1);
            },
        };
        let mut line = self.line;
        let mut column: usize = 0;
        let mut k: usize = 0;
        assert(s.take(0) =~= Seq::empty());
        proof {
            text::utf8_size_grows(s, 0, s.len() as int);
            assert(s.take(s.len() as int) =~= s);
        }
        while k < n
            invariant
                k <= n <= chars.len(),
                s == chars@,
                s == self.text@,
                self.line + text::utf8_size(self.text@) < usize::MAX,
                text::utf8_size(s) >= s.len(),
                line == self.line + line_ends(s.take(k as int)),
                line_ends(s.take(k as int)) <= k,
                column == column_after(s.take(k as int)),
                column <= text::utf8_size(s.take(k as int)),
            decreases n - k,
        {
            proof {
                assert(s.take(k + 1).drop_last() =~= s.take(k as int));
                text::utf8_size_step(s, k as int);
                text::utf8_size_grows(s, k + 1, s.len() as int);
                assert(s.take(s.len() as int) =~= s);
            }
            if chars[k] == '\n' {
                line = line + 1;
                column = 0;
            } else {
                column = column + text::utf8_len(chars[k]);
            }
            k = k + 1;
        }
        proof {
            text::utf8_size_grows(s, n as int, s.len() as int);
            assert(s.take(s.len() as int) =~= s);
        }
        (line, column + 1)
    }

    /// The declaration on one line, and not too long.
    pub fn normalized_excerpt(&self) -> (excerpt: String)
        ensures
            excerpt@ == excerpt_of(self.text@),
    {
        let chars = chars_of(self.text.as_str());
        let mut joined: Vec<char> = Vec::new();
        let mut gap = false;
        let mut k: usize = 0;
        assert(self.text@.take(0) =~= Seq::empty());
        while k < chars.len()
            invariant
                chars@ == self.text@,
                k <= chars.len(),
                joined@ == spaced(self.text@.take(k as int)).0,
                gap == spaced(self.text@.take(k as int)).1,
            decreases chars.len() - k,
        {
            assert(self.text@.take(k + 1).drop_last() =~= self.text@.take(k as int));
            let c = chars[k];
            if is_white_space(c) {
                gap = joined.len() > 0;
            } else {
                if gap {
                    joined.push(' ');
                    gap = false;
                }
                if c == EMBEDDED_MARKER {
                    let mut shown = chars_of("<embedded-data>");
                    joined.append(&mut shown);
                } else {
                    joined.push(c);
                }
            }
            k = k + 1;
        }
        assert(self.text@.take(self.text@.len() as int) =~= self.text@);
        if joined.len() > 160 {
            let mut excerpt = string_of(&joined, 0, 160);
            excerpt.push('…');
            assert(joined@.subrange(0, 160) =~= joined@.take(160));
            excerpt
        } else {
            let excerpt = string_of(&joined, 0, joined.len());
            assert(joined@.subrange(0, joined@.len() as int) =~= joined@);
            excerpt
        }
    }

    /// The tokens of the declaration as it stands.
    pub fn lexical(&self) -> (result: Result<LexedSource, Vec<Diagnostic>>)
        requires
            self.line > 0,
        ensures
            ({
                let l = lexical::lexed(self.text@);
                match result {
                    Ok(found) => found.wf() && found@ == l && !lexical::any_error(
                        l.validation + l.structural,
                    ),
                    Err(errors) => lexical::any_error(l.validation + l.structural)
                        && diagnostic::reports(errors@) == moved(
                        l.validation + l.structural,
                        self.line as nat,
                    ),
                }
            }),
    {
        let lexed = lex_source(self.text.as_str());
        if lexed.has_errors() {
            Err(move_lines(lexed.diagnostics(), self.line))
        } else {
            Ok(lexed)
        }
    }
}

/// A byte position that is not past the end.
pub open spec fn clipped(text: Seq<char>, offset: nat) -> nat {
    if offset <= text::utf8_size(text) {
        offset
    } else {
        text::utf8_size(text)
    }
}

/// The number of line ends in a text.
pub open spec fn line_ends(text: Seq<char>) -> nat
    decreases text.len(),
{
    if text.len() == 0 {
        0
    } else {
        line_ends(text.drop_last()) + if text.last() == '\n' {
            1nat
        } else {
            0
        }
    }
}

/// The number of bytes after the last line end.
pub open spec fn column_after(text: Seq<char>) -> nat
    decreases text.len(),
{
    if text.len() == 0 || text.last() == '\n' {
        0
    } else {
        column_after(text.drop_last()) + text::utf8_width(text.last())
    }
}

/// The words of a text with one space between them, and whether white space
/// follows the last.
pub open spec fn spaced(text: Seq<char>) -> (Seq<char>, bool)
    decreases text.len(),
{
    if text.len() == 0 {
        (Seq::empty(), false)
    } else {
        let (before, gap) = spaced(text.drop_last());
        let c = text.last();
        if text::white_space(c) {
            (before, before.len() > 0)
        } else {
            let start = if gap {
                before.push(' ')
            } else {
                before
            };
            (
                if c == '\u{1a}' {
                    start + "<embedded-data>"@
                } else {
                    start.push(c)
                },
                false,
            )
        }
    }
}

/// The words of a text, at most so many scalars of them.
pub open spec fn excerpt_of(text: Seq<char>) -> Seq<char> {
    let words = spaced(text).0;
    if words.len() > 160 {
        words.take(160).push('…')
    } else {
        words
    }
}

} // verus!
