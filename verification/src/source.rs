//! Source files: their declarations, and what is reported of them.

use vstd::prelude::*;
use crate::analysis;
use crate::analysis::analyze_body_item;
use crate::ast::{
    Declaration, DeclarationKind, ImportDecl, ImportPlacement, ImportReference, LanguageDecl,
    ObjectBodyDefinition, ObjectBodyDefinitionKind, ParsedSource, SyntaxExpr,
};
use crate::declaration::parse_declaration_in_context;
use crate::diagnostic;
use crate::diagnostic::{report, report_all, Diagnostic, DiagnosticView};
use crate::embedding;
use crate::expression_context;
use crate::expression_context::ExpressionContext;
use crate::grammar;
use crate::input;
use crate::input::TokenView;
use crate::keywords;
use crate::lexical;
use crate::lexical::{lex_source, Lexed, LexedSource, Lexeme, TokenKind};
use crate::notation;
use crate::notation::{
    fail, is_lettered, is_reserved, joined, kind_at, object_declaration_head, reserved_text,
    text_value,
};
use crate::recursive_preview::{plan_views, BlockPlan, PlanView};
use crate::rewrite::EMBEDDED_MARKER;
use crate::structural::parse_expression;
use crate::term;
use crate::term::Term;
use crate::text;
use crate::text::{chars_of, is_white_space, same_text, string_of, utf8_text};
use crate::values::Value;

verus! {

/// The declarations that hold no expression.
#[derive(Debug, Clone, Copy, PartialEq, Eq, Structural)]
pub enum SimpleDeclaration {
    Language,
    Import,
    Abstract,
    Unique,
}

/// The simple declaration that a word begins.
pub open spec fn simple_head(head: Seq<char>) -> Option<SimpleDeclaration> {
    if head == "language"@ {
        Some(SimpleDeclaration::Language)
    } else if head == "import"@ {
        Some(SimpleDeclaration::Import)
    } else if head == "abstract"@ {
        Some(SimpleDeclaration::Abstract)
    } else if head == "unique"@ {
        Some(SimpleDeclaration::Unique)
    } else {
        None
    }
}

impl SimpleDeclaration {
    pub fn from_head(head: &str) -> (found: Option<Self>)
        ensures
            found == simple_head(head@),
    {
        if same_text(head, "language") {
            Some(SimpleDeclaration::Language)
        } else if same_text(head, "import") {
            Some(SimpleDeclaration::Import)
        } else if same_text(head, "abstract") {
            Some(SimpleDeclaration::Abstract)
        } else if same_text(head, "unique") {
            Some(SimpleDeclaration::Unique)
        } else {
            None
        }
    }
}

/// What a simple declaration says.
pub enum Simple {
    Language(Seq<char>, Seq<Seq<char>>),
    Import(ImportModel),
    Abstract(Seq<Seq<char>>),
    Unique(Seq<Seq<char>>),
}

/// What an import says.
pub struct ImportModel {
    pub local: bool,
    pub reference: Seq<char>,
    pub binary: bool,
    pub placement: Option<(bool, Seq<char>)>,
}

/// What was found on a line where something else was expected.
pub open spec fn wrong(l: Lexed, i: int, hi: int, line: nat, what: Seq<char>) -> Seq<
    DiagnosticView,
> {
    grammar::fail(line, "expected "@ + what + ", found "@ + input::shown(l, i, hi))
}

/// A word, and the position after it.
pub open spec fn plain_name(l: Lexed, i: int, hi: int, line: nat) -> Result<
    (Seq<char>, int),
    Seq<DiagnosticView>,
> {
    if i < hi {
        match input::lexeme(l, i) {
            Lexeme::Name(word) => Ok((word, i + 1)),
            _ => Err(wrong(l, i, hi, line, "a name"@)),
        }
    } else {
        Err(wrong(l, i, hi, line, "a name"@))
    }
}

/// The joint steps of a path that follow `j`.
pub open spec fn path_steps(l: Lexed, j: int, hi: int, path: Seq<char>) -> (Seq<char>, int)
    decreases hi - j,
{
    if j + 1 < hi && input::is_symbol(l, j, "."@) && input::is_joint(l, j) && input::is_joint(
        l,
        j + 1,
    ) {
        match input::lexeme(l, j + 1) {
            Lexeme::Name(word) => if grammar::lettered(word) {
                path_steps(l, j + 2, hi, path.push('.') + word)
            } else {
                (path, j)
            },
            _ => (path, j),
        }
    } else {
        (path, j)
    }
}

/// A path of names, and the position after it.
pub open spec fn source_path(l: Lexed, i: int, hi: int, line: nat) -> Result<
    (Seq<char>, int),
    Seq<DiagnosticView>,
> {
    match plain_name(l, i, hi, line) {
        Err(errors) => Err(errors),
        Ok((word, j)) => if !grammar::lettered(word) {
            Err(grammar::fail(line, "expected a name beginning with a letter"@))
        } else if keywords::reserved(word) {
            Err(grammar::fail(line, keywords::reserved_message(word)))
        } else {
            Ok(path_steps(l, j, hi, word))
        },
    }
}

/// Names separated by commas, which fill a range.
pub open spec fn names_to_end(l: Lexed, i: int, hi: int, line: nat, paths: bool, done: Seq<
    Seq<char>,
>) -> Result<Seq<Seq<char>>, Seq<DiagnosticView>>
    decreases hi - i,
{
    let item = if paths {
        source_path(l, i, hi, line)
    } else {
        plain_name(l, i, hi, line)
    };
    match item {
        Err(errors) => Err(errors),
        Ok((name, j)) => {
            let k = input::skip(l, j, hi);
            if k >= hi {
                Ok(done.push(name))
            } else if !input::is_symbol(l, k, ","@) {
                Err(wrong(l, k, hi, line, "`,` or end of input"@))
            } else {
                let n = input::skip(l, k + 1, hi);
                if i < n <= hi {
                    names_to_end(l, n, hi, line, paths, done.push(name))
                } else {
                    Err(grammar::stuck())
                }
            }
        },
    }
}

/// A language declaration, after its first word.
pub open spec fn language(l: Lexed, i: int, hi: int, line: nat) -> Result<
    Simple,
    Seq<DiagnosticView>,
> {
    match plain_name(l, i, hi, line) {
        Err(errors) => Err(errors),
        Ok((base, j)) => {
            let k = input::skip(l, j, hi);
            if k >= hi {
                Ok(Simple::Language(base, Seq::empty()))
            } else if !input::is_word(l, k, "with"@) {
                Err(wrong(l, k, hi, line, "`with` or end of input"@))
            } else {
                match names_to_end(l, input::skip(l, k + 1, hi), hi, line, false, Seq::empty()) {
                    Err(errors) => Err(errors),
                    Ok(extensions) => Ok(Simple::Language(base, extensions)),
                }
            }
        },
    }
}

/// What an import refers to, and the position after it.
pub open spec fn reference(l: Lexed, i: int, hi: int, line: nat) -> Result<
    (bool, Seq<char>, int),
    Seq<DiagnosticView>,
> {
    if !(i < hi) {
        Err(wrong(l, i, hi, line, "text or `'`"@))
    } else {
        match input::lexeme(l, i) {
            Lexeme::Text(id) => Ok((true, l.texts[id as int].value, i + 1)),
            Lexeme::Symbol(symbol) => if symbol != "'"@ {
                Err(wrong(l, i, hi, line, "text or `'`"@))
            } else if !(i + 1 < hi && input::is_joint(l, i + 1)) {
                Err(wrong(l, i + 1, hi, line, "joint token"@))
            } else {
                match input::lexeme(l, i + 1) {
                    Lexeme::Name(word) => if grammar::lettered(word) {
                        Ok((false, word, i + 2))
                    } else {
                        Err(grammar::fail(line, "expected a name beginning with a letter"@))
                    },
                    _ => Err(wrong(l, i + 1, hi, line, "a name"@)),
                }
            },
            _ => Err(wrong(l, i, hi, line, "text or `'`"@)),
        }
    }
}

/// An import declaration, after its first word.
pub open spec fn import(l: Lexed, i: int, hi: int, line: nat) -> Result<
    Simple,
    Seq<DiagnosticView>,
> {
    match reference(l, i, hi, line) {
        Err(errors) => Err(errors),
        Ok((local, reference, j)) => {
            let k = input::skip(l, j, hi);
            let binary = k < hi && input::is_word(l, k, "binary"@);
            let n = if binary {
                input::skip(l, k + 1, hi)
            } else {
                k
            };
            if n >= hi {
                Ok(
                    Simple::Import(
                        ImportModel { local, reference, binary, placement: None },
                    ),
                )
            } else if input::is_word(l, n, "as"@) || input::is_word(l, n, "at"@) {
                match source_path(l, input::skip(l, n + 1, hi), hi, line) {
                    Err(errors) => Err(errors),
                    Ok((path, e)) => if input::skip(l, e, hi) >= hi {
                        Ok(
                            Simple::Import(
                                ImportModel {
                                    local,
                                    reference,
                                    binary,
                                    placement: Some((input::is_word(l, n, "as"@), path)),
                                },
                            ),
                        )
                    } else {
                        Err(wrong(l, input::skip(l, e, hi), hi, line, "end of input"@))
                    },
                }
            } else {
                Err(wrong(l, n, hi, line, "`binary`, `as`, `at`, or end of input"@))
            }
        },
    }
}

/// A simple declaration, after its first word.
pub open spec fn simple(l: Lexed, i: int, hi: int, line: nat, head: SimpleDeclaration) -> Result<
    Simple,
    Seq<DiagnosticView>,
> {
    match head {
        SimpleDeclaration::Language => language(l, i, hi, line),
        SimpleDeclaration::Import => import(l, i, hi, line),
        SimpleDeclaration::Abstract => match names_to_end(l, i, hi, line, true, Seq::empty()) {
            Ok(names) => Ok(Simple::Abstract(names)),
            Err(errors) => Err(errors),
        },
        SimpleDeclaration::Unique => match names_to_end(l, i, hi, line, true, Seq::empty()) {
            Ok(names) => Ok(Simple::Unique(names)),
            Err(errors) => Err(errors),
        },
    }
}

/// What a top-level declaration says, and what is wrong with it.
pub enum Said {
    Simple(Simple),
    Body(Term),
    Unknown,
}

/// The simple declaration that a range holds, if it holds one.
pub open spec fn head_of(l: Lexed, lo: int, hi: int) -> Option<SimpleDeclaration> {
    let s = input::skip(l, lo, hi);
    if s >= hi || grammar::decl_head(l, lo, hi) is Some {
        None
    } else {
        match input::lexeme(l, s) {
            Lexeme::Name(word) => simple_head(word),
            _ => None,
        }
    }
}

/// A top-level declaration.
#[verifier::opaque]
pub open spec fn top(l: Lexed, lo: int, hi: int, line: nat) -> (Said, Seq<DiagnosticView>) {
    let s = input::skip(l, lo, hi);
    match head_of(l, lo, hi) {
        Some(head) => match simple(l, input::skip(l, s + 1, hi), hi, line, head) {
            Ok(said) => (Said::Simple(said), Seq::empty()),
            Err(errors) => (Said::Unknown, errors),
        },
        None => {
            let (a, b) = input::trim(l, lo, hi);
            let d = grammar::p_declaration(l, a, b, line, expression_context::owner(l, a, b));
            (
                match d.term {
                    Some(term) => Said::Body(term),
                    None => Said::Unknown,
                },
                d.errors,
            )
        },
    }
}

/// A declaration holds what was said.
#[verifier::opaque]
pub open spec fn holds(kind: DeclarationKind, said: Said) -> bool {
    match (kind, said) {
        (DeclarationKind::Language(decl), Said::Simple(Simple::Language(base, extensions))) =>
        decl.base@ == base && text::texts(decl.extensions@) == extensions,
        (DeclarationKind::Import(decl), Said::Simple(Simple::Import(model))) => import_holds(
            decl,
            model,
        ),
        (DeclarationKind::Abstract(names), Said::Simple(Simple::Abstract(told))) => text::texts(
            names@,
        ) == told,
        (DeclarationKind::Unique(names), Said::Simple(Simple::Unique(told))) => text::texts(names@)
            == told,
        (DeclarationKind::Object(object), Said::Body(term)) => term == term::object_term(object),
        (DeclarationKind::Extend(extend), Said::Body(term)) => term == term::extend_term(extend),
        (DeclarationKind::Definition(definition), Said::Body(term)) => term
            == term::definition_term(definition),
        (DeclarationKind::Unknown, Said::Unknown) => true,
        _ => false,
    }
}

pub open spec fn import_holds(decl: ImportDecl, model: ImportModel) -> bool {
    &&& match decl.reference {
        ImportReference::Local(text) => model.local && text@ == model.reference,
        ImportReference::Builtin(name) => !model.local && name@ == model.reference,
    }
    &&& decl.binary == model.binary
    &&& match decl.placement {
        ImportPlacement::Inline => model.placement is None,
        ImportPlacement::As(path) => model.placement == Some((true, path@)),
        ImportPlacement::At(path) => model.placement == Some((false, path@)),
    }
}

/// The warnings about a declaration.
#[verifier::opaque]
pub open spec fn declared_warnings(
    declaration: Declaration,
    plans: Seq<PlanView>,
) -> Seq<DiagnosticView> {
    match declaration.kind {
        DeclarationKind::Object(object) => analysis::item_warnings(
            ObjectBodyDefinition {
                line: declaration.line,
                kind: ObjectBodyDefinitionKind::Object(object),
            },
            plans,
        ),
        DeclarationKind::Extend(extend) => analysis::item_warnings(
            ObjectBodyDefinition {
                line: declaration.line,
                kind: ObjectBodyDefinitionKind::Extend(extend),
            },
            plans,
        ),
        DeclarationKind::Definition(definition) => analysis::item_warnings(
            ObjectBodyDefinition {
                line: declaration.line,
                kind: ObjectBodyDefinitionKind::Definition(definition),
            },
            plans,
        ),
        _ => Seq::empty(),
    }
}

/// What a source is told of its first declarations.
pub open spec fn told(
    l: Lexed,
    declarations: Seq<Declaration>,
    plans: Seq<PlanView>,
) -> Seq<DiagnosticView>
    decreases declarations.len(),
{
    if declarations.len() == 0 {
        Seq::empty()
    } else {
        let n = declarations.len() - 1;
        let section = l.declarations[n];
        told(l, declarations.drop_last(), plans) + top(
            l,
            section.first as int,
            section.last as int,
            section.line,
        ).1 + declared_warnings(declarations.last(), plans)
    }
}

/// Each declaration holds what its section says.
pub open spec fn hold(l: Lexed, declarations: Seq<Declaration>) -> bool {
    forall|k: int|
        0 <= k < declarations.len() ==> {
            let section = l.declarations[k];
            &&& (#[trigger] declarations[k]).line == section.line
            &&& holds(
                declarations[k].kind,
                top(l, section.first as int, section.last as int, section.line).0,
            )
            &&& declarations[k].preview@ == preview(l, section.first as int, section.last as int)
        }
}

/// A language declaration after the first declaration.
pub open spec fn late_languages(declarations: Seq<Declaration>) -> Seq<DiagnosticView>
    decreases declarations.len(),
{
    if declarations.len() <= 1 {
        Seq::empty()
    } else {
        let rest = late_languages(declarations.drop_last());
        if declarations.last().kind is Language {
            rest.push(
                diagnostic::error_at(
                    declarations.last().line as nat,
                    "language declaration must appear before all other declarations"@,
                ),
            )
        } else {
            rest
        }
    }
}

/// What is wrong with the place of the language declaration.
pub open spec fn language_errors(declarations: Seq<Declaration>) -> Seq<DiagnosticView> {
    if declarations.len() == 0 {
        seq![diagnostic::error_at(1, "empty source has no language declaration"@)]
    } else {
        (if declarations[0].kind is Language {
            Seq::empty()
        } else {
            seq![
                diagnostic::error_at(
                    declarations[0].line as nat,
                    "first declaration should be a language version declaration"@,
                ),
            ]
        }) + late_languages(declarations)
    }
}

/// The end of the white space that begins at `i`.
pub open spec fn leading_end(chars: Seq<char>, i: int) -> int
    decreases chars.len() - i,
{
    if 0 <= i < chars.len() && text::white_space(chars[i]) {
        leading_end(chars, i + 1)
    } else {
        i
    }
}

/// The start of the white space that ends at `i`.
pub open spec fn trailing_start(chars: Seq<char>, lo: int, i: int) -> int
    decreases i,
{
    if lo < i <= chars.len() && i > 0 && text::white_space(chars[i - 1]) {
        trailing_start(chars, lo, i - 1)
    } else {
        i
    }
}

/// The end of the line that begins at `i`.
pub open spec fn line_end(chars: Seq<char>, i: int) -> int
    decreases chars.len() - i,
{
    if 0 <= i < chars.len() && chars[i] != '\n' {
        line_end(chars, i + 1)
    } else {
        i
    }
}

/// The first line of a text, without the white space around it.
pub open spec fn first_line(chars: Seq<char>) -> Seq<char> {
    let line = chars.take(line_end(chars, 0));
    let a = leading_end(line, 0);
    line.subrange(a, trailing_start(line, a, line.len() as int))
}

/// The first line of a declaration.
#[verifier::opaque]
pub open spec fn preview(l: Lexed, lo: int, hi: int) -> Seq<char> {
    let (a, b) = input::trim(l, lo, hi);
    let bytes = input::bytes_of(l, a, b);
    match lexical::slice(l.chars, bytes.0, bytes.1) {
        Some(text) => first_line(text),
        None => first_line(Seq::empty()),
    }
}

fn wrong_at(view: TokenView<'_>, index: usize, line: usize, what: &str) -> (errors: Vec<Diagnostic>)
    requires
        view.wf(),
        index <= view.hi(),
    ensures
        errors.len() > 0,
        diagnostic::reports(errors@) == wrong(
            view.l(),
            index as int,
            view.hi(),
            line as nat,
            what@,
        ),
{
    let shown = view.display(index);
    let start = joined("expected ", what, ", found ");
    let message = joined(start.as_str(), shown.as_str(), "");
    assert(message@ =~= "expected "@ + what@ + ", found "@ + shown@) by {
        reveal_strlit("");
    }
    fail(line, message.as_str())
}

/// A word, or what stands in its place.
fn read_name(view: TokenView<'_>, index: usize, line: usize) -> (result: Result<
    (String, usize),
    Vec<Diagnostic>,
>)
    requires
        view.wf(),
        index <= view.hi(),
    ensures
        result matches Err(errors) ==> errors.len() > 0,
        match result {
            Ok((name, end)) => plain_name(view.l(), index as int, view.hi(), line as nat) == Ok::<
                (Seq<char>, int),
                Seq<DiagnosticView>,
            >((name@, end as int)) && index < end <= view.hi(),
            Err(errors) => plain_name(view.l(), index as int, view.hi(), line as nat) == Err::<
                (Seq<char>, int),
                Seq<DiagnosticView>,
            >(diagnostic::reports(errors@)),
        },
{
    if index < view.range.end {
        match kind_at(view, index) {
            TokenKind::Name(word) => {
                return Ok((word.clone(), index + 1));
            },
            _ => {},
        }
    }
    Err(wrong_at(view, index, line, "a name"))
}

/// A path of names.
fn read_path(view: TokenView<'_>, index: usize, line: usize) -> (result: Result<
    (String, usize),
    Vec<Diagnostic>,
>)
    requires
        view.wf(),
        index <= view.hi(),
    ensures
        result matches Err(errors) ==> errors.len() > 0,
        match result {
            Ok((path, end)) => source_path(view.l(), index as int, view.hi(), line as nat) == Ok::<
                (Seq<char>, int),
                Seq<DiagnosticView>,
            >((path@, end as int)) && index < end <= view.hi(),
            Err(errors) => source_path(view.l(), index as int, view.hi(), line as nat) == Err::<
                (Seq<char>, int),
                Seq<DiagnosticView>,
            >(diagnostic::reports(errors@)),
        },
{
    let (word, from) = match read_name(view, index, line) {
        Ok(found) => found,
        Err(errors) => {
            return Err(errors);
        },
    };
    if !is_lettered(word.as_str()) {
        return Err(fail(line, "expected a name beginning with a letter"));
    }
    if is_reserved(word.as_str()) {
        return Err(fail(line, reserved_text(word.as_str()).as_str()));
    }
    let ghost first = word@;
    let mut path = word;
    let mut at = from;
    while view.range.end - at > 1
        invariant
            view.wf(),
            from <= at <= view.hi(),
            path_steps(view.l(), from as int, view.hi(), first) == path_steps(
                view.l(),
                at as int,
                view.hi(),
                path@,
            ),
        ensures
            from <= at <= view.hi(),
            path_steps(view.l(), from as int, view.hi(), first) == (path@, at as int),
        decreases view.hi() - at,
    {
        if !(view.is_symbol(at, ".") && view.is_joint(at) && view.is_joint(at + 1)) {
            break;
        }
        match kind_at(view, at + 1) {
            TokenKind::Name(word) => {
                if !is_lettered(word.as_str()) {
                    break;
                }
                let ghost had = path@;
                path = joined(path.as_str(), ".", word.as_str());
                proof {
                    reveal_strlit(".");
                    assert(path@ =~= had.push('.') + word@);
                }
                at = at + 2;
            },
            _ => {
                break;
            },
        }
    }
    Ok((path, at))
}

/// Names separated by commas, which fill the view.
fn read_names(view: TokenView<'_>, from: usize, line: usize, paths: bool) -> (result: Result<
    Vec<String>,
    Vec<Diagnostic>,
>)
    requires
        view.wf(),
        view.lo() <= from <= view.hi(),
    ensures
        result matches Err(errors) ==> errors.len() > 0,
        match result {
            Ok(names) => names_to_end(
                view.l(),
                from as int,
                view.hi(),
                line as nat,
                paths,
                Seq::empty(),
            ) == Ok::<Seq<Seq<char>>, Seq<DiagnosticView>>(text::texts(names@)),
            Err(errors) => names_to_end(
                view.l(),
                from as int,
                view.hi(),
                line as nat,
                paths,
                Seq::empty(),
            ) == Err::<Seq<Seq<char>>, Seq<DiagnosticView>>(diagnostic::reports(errors@)),
        },
{
    let mut names: Vec<String> = Vec::new();
    let mut at = from;
    assert(text::texts(names@) =~= Seq::empty());
    loop
        invariant
            view.wf(),
            view.lo() <= from <= at <= view.hi(),
            names_to_end(view.l(), from as int, view.hi(), line as nat, paths, Seq::empty())
                == names_to_end(
                view.l(),
                at as int,
                view.hi(),
                line as nat,
                paths,
                text::texts(names@),
            ),
        decreases view.hi() - at,
    {
        let ghost had = text::texts(names@);
        let (name, end) = match (if paths {
            read_path(view, at, line)
        } else {
            read_name(view, at, line)
        }) {
            Ok(found) => found,
            Err(errors) => {
                return Err(errors);
            },
        };
        names.push(name);
        assert(text::texts(names@) =~= had.push(name@));
        let next = view.skip(end);
        if next >= view.range.end {
            return Ok(names);
        }
        if !view.is_symbol(next, ",") {
            return Err(wrong_at(view, next, line, "`,` or end of input"));
        }
        at = view.skip(next + 1);
    }
}

/// What the reading of a simple declaration says.
pub open spec fn said_simple(
    result: Result<DeclarationKind, Vec<Diagnostic>>,
    told: Result<Simple, Seq<DiagnosticView>>,
) -> bool {
    match result {
        Ok(kind) => told matches Ok(said) && holds(kind, Said::Simple(said)),
        Err(errors) => told == Err::<Simple, Seq<DiagnosticView>>(diagnostic::reports(errors@)),
    }
}

/// A language declaration, after its first word.
fn language_decl(view: TokenView<'_>, from: usize, line: usize) -> (result: Result<
    DeclarationKind,
    Vec<Diagnostic>,
>)
    requires
        view.wf(),
        view.lo() <= from <= view.hi(),
    ensures
        result matches Err(errors) ==> errors.len() > 0,
        said_simple(result, language(view.l(), from as int, view.hi(), line as nat)),
{
    proof {
        reveal(holds);
    }
    let (base, end) = match read_name(view, from, line) {
        Ok(found) => found,
        Err(errors) => {
            return Err(errors);
        },
    };
    let next = view.skip(end);
    if next >= view.range.end {
        let extensions: Vec<String> = Vec::new();
        assert(text::texts(extensions@) =~= Seq::empty());
        return Ok(DeclarationKind::Language(LanguageDecl { base, extensions }));
    }
    if !view.is_word(next, "with") {
        return Err(wrong_at(view, next, line, "`with` or end of input"));
    }
    match read_names(view, view.skip(next + 1), line, false) {
        Ok(extensions) => Ok(DeclarationKind::Language(LanguageDecl { base, extensions })),
        Err(errors) => Err(errors),
    }
}

/// What an import refers to.
fn read_reference(view: TokenView<'_>, index: usize, line: usize) -> (result: Result<
    (ImportReference, usize),
    Vec<Diagnostic>,
>)
    requires
        view.wf(),
        index <= view.hi(),
    ensures
        result matches Err(errors) ==> errors.len() > 0,
        ({
            let told = reference(view.l(), index as int, view.hi(), line as nat);
            match result {
                Ok((found, end)) => index < end <= view.hi() && match found {
                    ImportReference::Local(text) => told == Ok::<
                        (bool, Seq<char>, int),
                        Seq<DiagnosticView>,
                    >((true, text@, end as int)),
                    ImportReference::Builtin(name) => told == Ok::<
                        (bool, Seq<char>, int),
                        Seq<DiagnosticView>,
                    >((false, name@, end as int)),
                },
                Err(errors) => told == Err::<(bool, Seq<char>, int), Seq<DiagnosticView>>(
                    diagnostic::reports(errors@),
                ),
            }
        }),
{
    if index >= view.range.end {
        return Err(wrong_at(view, index, line, "text or `'`"));
    }
    match kind_at(view, index) {
        TokenKind::Text(id) => Ok(
            (ImportReference::Local(text_value(view, index, *id).to_owned()), index + 1),
        ),
        TokenKind::Symbol(symbol) => {
            if !same_text(symbol.as_str(), "'") {
                return Err(wrong_at(view, index, line, "text or `'`"));
            }
            if !(view.range.end - index > 1 && view.is_joint(index + 1)) {
                return Err(wrong_at(view, index + 1, line, "joint token"));
            }
            match kind_at(view, index + 1) {
                TokenKind::Name(word) => if is_lettered(word.as_str()) {
                    Ok((ImportReference::Builtin(word.clone()), index + 2))
                } else {
                    Err(fail(line, "expected a name beginning with a letter"))
                },
                _ => Err(wrong_at(view, index + 1, line, "a name")),
            }
        },
        _ => Err(wrong_at(view, index, line, "text or `'`")),
    }
}

/// An import declaration, after its first word.
fn import_decl(view: TokenView<'_>, from: usize, line: usize) -> (result: Result<
    DeclarationKind,
    Vec<Diagnostic>,
>)
    requires
        view.wf(),
        view.lo() <= from <= view.hi(),
    ensures
        result matches Err(errors) ==> errors.len() > 0,
        said_simple(result, import(view.l(), from as int, view.hi(), line as nat)),
{
    proof {
        reveal(holds);
    }
    let (reference, end) = match read_reference(view, from, line) {
        Ok(found) => found,
        Err(errors) => {
            return Err(errors);
        },
    };
    let next = view.skip(end);
    let binary = next < view.range.end && view.is_word(next, "binary");
    let at = if binary {
        view.skip(next + 1)
    } else {
        next
    };
    if at >= view.range.end {
        return Ok(
            DeclarationKind::Import(
                ImportDecl { reference, binary, placement: ImportPlacement::Inline },
            ),
        );
    }
    let is_as = view.is_word(at, "as");
    if !is_as && !view.is_word(at, "at") {
        return Err(wrong_at(view, at, line, "`binary`, `as`, `at`, or end of input"));
    }
    let (path, after) = match read_path(view, view.skip(at + 1), line) {
        Ok(found) => found,
        Err(errors) => {
            return Err(errors);
        },
    };
    let last = view.skip(after);
    if last < view.range.end {
        return Err(wrong_at(view, last, line, "end of input"));
    }
    let placement = if is_as {
        ImportPlacement::As(path)
    } else {
        ImportPlacement::At(path)
    };
    Ok(DeclarationKind::Import(ImportDecl { reference, binary, placement }))
}

/// A simple declaration, after its first word.
pub fn parse_simple_declaration(
    view: TokenView<'_>,
    from: usize,
    line: usize,
    declaration: SimpleDeclaration,
) -> (result: Result<DeclarationKind, Vec<Diagnostic>>)
    requires
        view.wf(),
        view.lo() <= from <= view.hi(),
    ensures
        result matches Err(errors) ==> errors.len() > 0,
        said_simple(
            result,
            simple(view.l(), from as int, view.hi(), line as nat, declaration),
        ),
{
    proof {
        reveal(holds);
    }
    match declaration {
        SimpleDeclaration::Language => language_decl(view, from, line),
        SimpleDeclaration::Import => import_decl(view, from, line),
        SimpleDeclaration::Abstract => match read_names(view, from, line, true) {
            Ok(names) => Ok(DeclarationKind::Abstract(names)),
            Err(errors) => Err(errors),
        },
        SimpleDeclaration::Unique => match read_names(view, from, line, true) {
            Ok(names) => Ok(DeclarationKind::Unique(names)),
            Err(errors) => Err(errors),
        },
    }
}

/// A definition, an object or an extension at the top level.
pub fn parse_declaration(view: TokenView<'_>, line: usize) -> (result: (
    DeclarationKind,
    Vec<Diagnostic>,
))
    requires
        view.wf(),
    ensures
        result.0 is Unknown && !input::empty(view.l(), view.lo(), view.hi()) ==> result.1.len() > 0,
        ({
            let (a, b) = input::trim(view.l(), view.lo(), view.hi());
            let d = grammar::p_declaration(
                view.l(),
                a,
                b,
                line as nat,
                expression_context::owner(view.l(), a, b),
            );
            &&& diagnostic::reports(result.1@) == d.errors
            &&& holds(
                result.0,
                match d.term {
                    Some(term) => Said::Body(term),
                    None => Said::Unknown,
                },
            )
        }),
{
    proof {
        reveal(holds);
    }
    let inner = view.trim_layout();
    proof {
        input::skip_bounds(view.l(), view.lo(), view.hi());
        input::trim_bounds(view.l(), view.lo(), view.hi());
        if inner.lo() < inner.hi() && !input::blank(view.l(), inner.lo()) {
            assert(input::skip(view.l(), inner.lo(), inner.hi()) == inner.lo());
        }
    }
    let read = parse_declaration_in_context(inner, line, ExpressionContext::for_owner(inner));
    let kind = match read.kind {
        Some(ObjectBodyDefinitionKind::Definition(definition)) => DeclarationKind::Definition(
            definition,
        ),
        Some(ObjectBodyDefinitionKind::Object(object)) => DeclarationKind::Object(object),
        Some(ObjectBodyDefinitionKind::Extend(extend)) => DeclarationKind::Extend(extend),
        None => DeclarationKind::Unknown,
    };
    (kind, read.errors)
}

/// A declaration at the top level.
fn parse_top(view: TokenView<'_>, line: usize) -> (result: (DeclarationKind, Vec<Diagnostic>))
    requires
        view.wf(),
    ensures
        result.0 is Unknown && !input::empty(view.l(), view.lo(), view.hi()) ==> result.1.len() > 0,
        ({
            let (said, errors) = top(view.l(), view.lo(), view.hi(), line as nat);
            holds(result.0, said) && diagnostic::reports(result.1@) == errors
        }),
{
    proof {
        reveal(top);
        reveal(holds);
    }
    let start = view.skip(view.range.start);
    if start < view.range.end && object_declaration_head(view).is_none() {
        match kind_at(view, start) {
            TokenKind::Name(word) => match SimpleDeclaration::from_head(word.as_str()) {
                Some(head) => {
                    let from = view.skip(start + 1);
                    return match parse_simple_declaration(view, from, line, head) {
                        Ok(kind) => {
                            let none: Vec<Diagnostic> = Vec::new();
                            assert(diagnostic::reports(none@) =~= Seq::empty());
                            (kind, none)
                        },
                        Err(errors) => (DeclarationKind::Unknown, errors),
                    };
                },
                None => {},
            },
            _ => {},
        }
    }
    parse_declaration(view, line)
}

/// Reports the warnings about a declaration.
fn warn_declaration(
    declaration: Declaration,
    diagnostics: &mut Vec<Diagnostic>,
    plans: &Vec<BlockPlan>,
) -> (same:
    Declaration)
    ensures
        same == declaration,
        diagnostic::reports(final(diagnostics)@) == diagnostic::reports(old(diagnostics)@)
            + declared_warnings(declaration, plan_views(plans@)),
{
    proof {
        reveal(declared_warnings);
    }
    let ghost had = diagnostic::reports(diagnostics@);
    let line = declaration.line;
    let preview = declaration.preview;
    let kind = match declaration.kind {
        DeclarationKind::Object(object) => {
            let item = ObjectBodyDefinition { line, kind: ObjectBodyDefinitionKind::Object(object) };
            analyze_body_item(&item, diagnostics, plans);
            match item.kind {
                ObjectBodyDefinitionKind::Object(object) => DeclarationKind::Object(object),
                _ => DeclarationKind::Unknown,
            }
        },
        DeclarationKind::Extend(extend) => {
            let item = ObjectBodyDefinition { line, kind: ObjectBodyDefinitionKind::Extend(extend) };
            analyze_body_item(&item, diagnostics, plans);
            match item.kind {
                ObjectBodyDefinitionKind::Extend(extend) => DeclarationKind::Extend(extend),
                _ => DeclarationKind::Unknown,
            }
        },
        DeclarationKind::Definition(definition) => {
            let item = ObjectBodyDefinition {
                line,
                kind: ObjectBodyDefinitionKind::Definition(definition),
            };
            analyze_body_item(&item, diagnostics, plans);
            match item.kind {
                ObjectBodyDefinitionKind::Definition(definition) => DeclarationKind::Definition(
                    definition,
                ),
                _ => DeclarationKind::Unknown,
            }
        },
        other => {
            assert(had + Seq::<DiagnosticView>::empty() =~= had);
            other
        },
    };
    Declaration { line, kind, preview }
}

/// The first line of a text, without the white space around it.
fn first_line_of(source: &str) -> (line: String)
    ensures
        line@ == first_line(source@),
{
    let chars = chars_of(source);
    let count = chars.len();
    let mut end: usize = 0;
    while end < count && chars[end] != '\n'
        invariant
            chars@ == source@,
            count == chars.len(),
            end <= count,
            line_end(source@, 0) == line_end(source@, end as int),
        decreases count - end,
    {
        end = end + 1;
    }
    let ghost line = source@.take(end as int);
    let mut from: usize = 0;
    while from < end && is_white_space(chars[from])
        invariant
            chars@ == source@,
            count == chars.len(),
            from <= end <= count,
            line == source@.take(end as int),
            leading_end(line, 0) == leading_end(line, from as int),
        decreases end - from,
    {
        assert(line[from as int] == source@[from as int]);
        from = from + 1;
    }
    proof {
        if from < end {
            assert(line[from as int] == source@[from as int]);
        }
        assert(leading_end(line, 0) == from);
    }
    let mut to: usize = end;
    while to > from && is_white_space(chars[to - 1])
        invariant
            chars@ == source@,
            count == chars.len(),
            from <= to <= end <= count,
            line == source@.take(end as int),
            trailing_start(line, from as int, line.len() as int) == trailing_start(
                line,
                from as int,
                to as int,
            ),
        decreases to,
    {
        assert(line[to - 1] == source@[to - 1]);
        to = to - 1;
    }
    proof {
        if to > from {
            assert(line[to - 1] == source@[to - 1]);
        }
        assert(line.subrange(from as int, to as int) =~= source@.subrange(from as int, to as int));
    }
    string_of(&chars, from, to)
}

/// The first line of a declaration.
fn declaration_preview(view: TokenView<'_>) -> (line: String)
    requires
        view.wf(),
    ensures
        line@ == preview(view.l(), view.lo(), view.hi()),
{
    proof {
        reveal(preview);
    }
    let inner = view.trim_layout();
    match inner.source_text() {
        Some(source) => first_line_of(source.as_str()),
        None => {
            proof {
                reveal_strlit("");
                assert(""@ =~= Seq::<char>::empty());
            }
            first_line_of("")
        },
    }
}

/// Reports what is wrong with the place of the language declaration.
pub fn validate_language_position(
    declarations: &Vec<Declaration>,
    diagnostics: &mut Vec<Diagnostic>,
)
    ensures
        diagnostic::reports(final(diagnostics)@) == diagnostic::reports(old(diagnostics)@)
            + language_errors(declarations@),
{
    let ghost had = diagnostic::reports(diagnostics@);
    if declarations.len() == 0 {
        report(diagnostics, Diagnostic::error(1, "empty source has no language declaration"));
        assert(diagnostic::reports(diagnostics@) =~= had + language_errors(declarations@));
        return;
    }
    let first_is_language = match &declarations[0].kind {
        DeclarationKind::Language(_) => true,
        _ => false,
    };
    let ghost start = if first_is_language {
        Seq::empty()
    } else {
        seq![
            diagnostic::error_at(
                declarations@[0].line as nat,
                "first declaration should be a language version declaration"@,
            ),
        ]
    };
    if !first_is_language {
        report(
            diagnostics,
            Diagnostic::error(
                declarations[0].line,
                "first declaration should be a language version declaration",
            ),
        );
    }
    let mut k: usize = 1;
    assert(diagnostic::reports(diagnostics@) =~= had + (start + late_languages(
        declarations@.take(1),
    )));
    while k < declarations.len()
        invariant
            1 <= k <= declarations.len(),
            diagnostic::reports(diagnostics@) == had + (start + late_languages(
                declarations@.take(k as int),
            )),
        decreases declarations.len() - k,
    {
        let ghost before = diagnostic::reports(diagnostics@);
        proof {
            assert(declarations@.take(k + 1).drop_last() =~= declarations@.take(k as int));
            assert(declarations@.take(k + 1).last() == declarations@[k as int]);
        }
        match &declarations[k].kind {
            DeclarationKind::Language(_) => {
                report(
                    diagnostics,
                    Diagnostic::error(
                        declarations[k].line,
                        "language declaration must appear before all other declarations",
                    ),
                );
                assert(diagnostic::reports(diagnostics@) =~= had + (start + late_languages(
                    declarations@.take(k + 1),
                )));
            },
            _ => {},
        }
        k = k + 1;
    }
    assert(declarations@.take(declarations.len() as int) =~= declarations@);
}

/// What a source file says, and what is reported of it.
pub open spec fn parsed(source: Seq<char>, result: ParsedSource, plans: Seq<PlanView>) -> bool {
    let l = lexical::lexed(source);
    let lexical = l.validation + l.structural;
    if lexical::any_error(lexical) {
        &&& result.declarations@.len() == 0
        &&& diagnostic::reports(result.diagnostics@) == lexical
    } else {
        &&& result.declarations@.len() == l.declarations.len()
        &&& hold(l, result.declarations@)
        &&& diagnostic::reports(result.diagnostics@) == lexical + told(l, result.declarations@, plans)
            + language_errors(result.declarations@)
    }
}

/// What the declarations that macros wrote say, and what is reported of them.
pub open spec fn expanded(
    source: Seq<char>,
    line: nat,
    data: Seq<Value>,
    result: ParsedSource,
    plans: Seq<PlanView>,
) -> bool {
    let plain = lexical::lexed(source);
    let lexical = plain.validation + plain.structural;
    let l = embedding::with_data(plain, EMBEDDED_MARKER, data);
    if lexical::any_error(lexical) {
        &&& result.declarations@.len() == 0
        &&& diagnostic::reports(result.diagnostics@) == lexical
    } else if embedding::mark_count(plain.tokens, EMBEDDED_MARKER) != data.len() {
        &&& result.declarations@.len() == 0
        &&& diagnostic::reports(result.diagnostics@) == seq![
            diagnostic::error_at(line, embedding::mismatch_message()),
        ]
    } else {
        &&& result.declarations@.len() == l.declarations.len()
        &&& hold(l, result.declarations@)
        &&& diagnostic::reports(result.diagnostics@) == lexical + told(
            l,
            result.declarations@,
            plans,
        )
    }
}

/// What the bytes of a source file say.
pub open spec fn parsed_bytes(source: Seq<u8>, result: ParsedSource, plans: Seq<PlanView>) -> bool {
    if vstd::utf8::valid_utf8(source) {
        parsed(vstd::utf8::decode_utf8(source), result, plans)
    } else {
        &&& result.declarations@.len() == 0
        &&& diagnostic::reports(result.diagnostics@) == undecoded(source)
    }
}

/// What is reported of bytes that are not UTF-8.
pub open spec fn undecoded(source: Seq<u8>) -> Seq<DiagnosticView> {
    seq![diagnostic::error_at(1, "source is not valid UTF-8: "@ + text::utf8_error(source))]
}

/// The text of a source.
fn decode(source: &[u8]) -> (result: Result<String, Vec<Diagnostic>>)
    ensures
        result matches Err(errors) ==> errors.len() > 0,
        match result {
            Ok(text) => vstd::utf8::valid_utf8(source@) && text@ == vstd::utf8::decode_utf8(
                source@,
            ),
            Err(errors) => !vstd::utf8::valid_utf8(source@) && diagnostic::reports(errors@)
                == undecoded(source@),
        },
{
    match utf8_text(source) {
        Ok(text) => {
            proof {
                vstd::utf8::encode_utf8_valid_utf8(text@);
                vstd::utf8::encode_utf8_decode_utf8(text@);
            }
            Ok(text)
        },
        Err(error) => {
            let mut message = "source is not valid UTF-8: ".to_owned();
            text::push_text(&mut message, error.as_str());
            let mut errors: Vec<Diagnostic> = Vec::new();
            errors.push(Diagnostic::error(1, message.as_str()));
            assert(diagnostic::reports(errors@) =~= undecoded(source@));
            Err(errors)
        },
    }
}

/// Parses the bytes of a source file.
pub fn parse_source(source: &[u8]) -> (result: ParsedSource)
    ensures
        parsed_bytes(source@, result, Seq::empty()),
{
    let plans: Vec<BlockPlan> = Vec::new();
    assert(plan_views(plans@) =~= Seq::empty());
    parse_planned_source(source, &plans)
}

/// Parses the text of a source file.
pub fn parse_text(source: &str) -> (result: ParsedSource)
    ensures
        parsed(source@, result, Seq::empty()),
{
    let plans: Vec<BlockPlan> = Vec::new();
    assert(plan_views(plans@) =~= Seq::empty());
    parse_planned_text(source, &plans)
}

/// Parses the bytes of a source file whose `do` blocks have plans.
pub fn parse_planned_source(source: &[u8], plans: &Vec<BlockPlan>) -> (result: ParsedSource)
    ensures
        parsed_bytes(source@, result, plan_views(plans@)),
{
    match decode(source) {
        Ok(text) => parse_planned_text(text.as_str(), plans),
        Err(diagnostics) => ParsedSource { declarations: Vec::new(), diagnostics },
    }
}

/// Parses the text of a source file whose `do` blocks have plans. A file whose
/// tokens cannot be told apart is not parsed further.
pub fn parse_planned_text(source: &str, plans: &Vec<BlockPlan>) -> (result: ParsedSource)
    ensures
        parsed(source@, result, plan_views(plans@)),
{
    let lexed = lex_source(source);
    if lexed.has_errors() {
        return ParsedSource { declarations: Vec::new(), diagnostics: lexed.diagnostics() };
    }
    let mut result = read_declarations(&lexed, plans);
    validate_language_position(&result.declarations, &mut result.diagnostics);
    result
}

/// Parses the declarations that macros wrote in place of one, with the data of
/// their marks. Where they stand in their file is not looked at.
pub fn parse_expanded_text(
    source: &str,
    line: usize,
    data: Vec<Value>,
    plans: &Vec<BlockPlan>,
) -> (result: ParsedSource)
    ensures
        expanded(source@, line as nat, data@, result, plan_views(plans@)),
{
    let lexed = lex_source(source);
    if lexed.has_errors() {
        return ParsedSource { declarations: Vec::new(), diagnostics: lexed.diagnostics() };
    }
    match lexed.replace_unknowns_with_embedded(EMBEDDED_MARKER, data) {
        Ok(lexed) => read_declarations(&lexed, plans),
        Err(message) => {
            let mut diagnostics: Vec<Diagnostic> = Vec::new();
            diagnostics.push(Diagnostic::error(line, message.as_str()));
            assert(diagnostic::reports(diagnostics@) =~= seq![
                diagnostic::error_at(line as nat, embedding::mismatch_message()),
            ]);
            ParsedSource { declarations: Vec::new(), diagnostics }
        },
    }
}

/// Parses the declarations of a text whose tokens can be told apart.
fn read_declarations(lexed: &LexedSource, plans: &Vec<BlockPlan>) -> (result: ParsedSource)
    requires
        lexed.wf(),
    ensures
        result.declarations@.len() == lexed@.declarations.len(),
        hold(lexed@, result.declarations@),
        diagnostic::reports(result.diagnostics@) == lexed@.validation + lexed@.structural + told(
            lexed@,
            result.declarations@,
            plan_views(plans@),
        ),
{
    let mut diagnostics = lexed.diagnostics();
    let mut declarations: Vec<Declaration> = Vec::new();
    let ghost l = lexed@;
    let ghost lexical = l.validation + l.structural;
    let views = TokenView::declarations(lexed);
    let mut k: usize = 0;
    assert(lexical + told(l, declarations@, plan_views(plans@)) =~= lexical);
    while k < views.len()
        invariant
            lexed.wf(),
            l == lexed@,
            views.len() == l.declarations.len(),
            k <= views.len(),
            declarations.len() == k,
            forall|i: int|
                0 <= i < views.len() ==> {
                    &&& (#[trigger] views@[i]).0 == l.declarations[i].line
                    &&& views@[i].1.wf()
                    &&& views@[i].1.source == *lexed
                    &&& views@[i].1.lo() == l.declarations[i].first
                    &&& views@[i].1.hi() == l.declarations[i].last
                },
            hold(l, declarations@),
            diagnostic::reports(diagnostics@) == lexical + told(l, declarations@, plan_views(plans@)),
        decreases views.len() - k,
    {
        let (line, view) = views[k];
        let ghost had = declarations@;
        let ghost before = diagnostic::reports(diagnostics@);
        let (kind, errors) = parse_top(view, line);
        report_all(&mut diagnostics, errors);
        let ghost middle = diagnostic::reports(diagnostics@);
        let shown = declaration_preview(view);
        let declaration = warn_declaration(
            Declaration { line, kind, preview: shown },
            &mut diagnostics,
            plans,
        );
        declarations.push(declaration);
        proof {
            assert(declarations@.drop_last() =~= had);
            assert(diagnostic::reports(diagnostics@) =~= lexical + told(l, declarations@, plan_views(plans@)));
            assert forall|i: int| 0 <= i < declarations.len() implies {
                let section = l.declarations[i];
                &&& (#[trigger] declarations@[i]).line == section.line
                &&& holds(
                    declarations@[i].kind,
                    top(l, section.first as int, section.last as int, section.line).0,
                )
                &&& declarations@[i].preview@ == preview(
                    l,
                    section.first as int,
                    section.last as int,
                )
            } by {
                if i < k {
                    assert(declarations@[i] == had[i]);
                }
            }
        }
        k = k + 1;
    }
    ParsedSource { declarations, diagnostics }
}

/// What an expression by itself says.
pub open spec fn fragment(source: Seq<char>) -> Result<Term, Seq<DiagnosticView>> {
    let l = lexical::lexed(source);
    let hi = l.tokens.len() as int;
    let s = input::skip(l, 0, hi);
    if lexical::any_error(l.validation + l.structural) {
        Err(l.validation + l.structural)
    } else {
        grammar::p_expr(l, s, hi, expression_context::fragment(l, s, hi))
    }
}

/// Parses the bytes of an expression by itself.
pub fn parse_expression_fragment(source: &[u8]) -> (result: Result<SyntaxExpr, Vec<Diagnostic>>)
    ensures
        result matches Err(errors) ==> errors.len() > 0,
        notation::said(result) == if vstd::utf8::valid_utf8(source@) {
            fragment(vstd::utf8::decode_utf8(source@))
        } else {
            Err(undecoded(source@))
        },
{
    match decode(source) {
        Ok(text) => parse_fragment_text(text.as_str()),
        Err(errors) => Err(errors),
    }
}

/// Parses an expression by itself.
pub fn parse_fragment_text(source: &str) -> (result: Result<SyntaxExpr, Vec<Diagnostic>>)
    ensures
        result matches Err(errors) ==> errors.len() > 0,
        notation::said(result) == fragment(source@),
{
    let lexed = lex_source(source);
    if lexed.has_errors() {
        return Err(lexed.diagnostics());
    }
    let whole = TokenView::whole(&lexed);
    let start = whole.skip(0);
    let expression = whole.between(start, whole.range.end);
    parse_expression(expression, ExpressionContext::for_fragment(expression))
}

/// Lexical errors are all that is reported of a source that has one, and hide
/// its declarations.
pub proof fn lexical_errors_suppress_parsing(
    source: Seq<char>,
    result: ParsedSource,
    plans: Seq<PlanView>,
)
    requires
        parsed(source, result, plans),
        lexical::any_error(lexical::lexed(source).validation + lexical::lexed(source).structural),
    ensures
        result.declarations@.len() == 0,
        diagnostic::reports(result.diagnostics@) == lexical::lexed(source).validation
            + lexical::lexed(source).structural,
{
}

/// A source without lexical errors has a declaration for each of its sections,
/// at the line where the section begins, whether or not it can be parsed.
pub proof fn sections_are_declarations(
    source: Seq<char>,
    result: ParsedSource,
    plans: Seq<PlanView>,
)
    requires
        parsed(source, result, plans),
        !lexical::any_error(lexical::lexed(source).validation + lexical::lexed(source).structural),
    ensures
        result.declarations@.len() == lexical::lexed(source).declarations.len(),
        forall|k: int|
            0 <= k < result.declarations@.len() ==> (#[trigger] result.declarations@[k]).line
                == lexical::lexed(source).declarations[k].line,
{
}

/// What is reported of a source depends on its text and on what was parsed
/// alone.
pub proof fn reports_are_determined(
    source: Seq<char>,
    a: ParsedSource,
    b: ParsedSource,
    plans: Seq<PlanView>,
)
    requires
        parsed(source, a, plans),
        parsed(source, b, plans),
        a.declarations@ == b.declarations@,
    ensures
        diagnostic::reports(a.diagnostics@) == diagnostic::reports(b.diagnostics@),
{
}

} // verus!
