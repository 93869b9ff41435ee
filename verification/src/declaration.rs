//! Definitions and objects, at the top level and in object bodies.

use vstd::prelude::*;
use crate::ast::{
    DefinitionDecl, DefinitionKind, ObjectBodyDefinition, ObjectBodyDefinitionKind, ObjectDecl,
    ObjectExtendDecl, SyntaxExpr, SyntaxKeyExpr,
};
use crate::diagnostic;
use crate::diagnostic::{report_all, Diagnostic, DiagnosticView};
use crate::expression::parse_keys;
use crate::expression_context::{validate_expression_floor, ExpressionContext};
use crate::grammar;
use crate::grammar::{Declared, Header};
use crate::input;
use crate::input::{MarkText, TokenView};
use crate::layout;
use crate::layout::{LayoutBase, LayoutStatement, LayoutView};
use crate::lexical::{has_error, Delimiter, TokenKind};
use crate::notation;
use crate::notation::{
    braced_members, combine_parse_errors, declared_alias, definition_operator, definition_params,
    extend_head, fail, first_mark, header_marks, is_explicit_body, is_reserved, kind_at,
    layout_failure, nonempty_parts, object_declaration_head, reserved_text, split_header,
    static_path, target_end,
};
use crate::structural::{parse_expression, parse_parents, realization};
use crate::term;
use crate::term::{formed, formed_key, Tag, Term};
use crate::text;
use crate::text::same_text;

verus! {

/// What a declaration is read as, and what is wrong with it.
pub struct ReadDeclaration {
    pub kind: Option<ObjectBodyDefinitionKind>,
    pub errors: Vec<Diagnostic>,
}

impl View for ReadDeclaration {
    type V = Declared;

    open spec fn view(&self) -> Declared {
        Declared {
            term: match self.kind {
                Some(kind) => Some(term::kind_shape(kind)),
                None => None,
            },
            errors: diagnostic::reports(self.errors@),
        }
    }
}

/// A declaration that says nothing.
fn undeclared(errors: Vec<Diagnostic>) -> (read: ReadDeclaration)
    ensures
        read.kind is None,
        read.errors == errors,
        read@ == grammar::undeclared(diagnostic::reports(errors@)),
{
    ReadDeclaration { kind: None, errors }
}

/// The declarations of the members of an object body.
pub fn parse_members(
    view: TokenView<'_>,
    members: &Vec<LayoutStatement>,
    context: ExpressionContext,
) -> (result: (Vec<ObjectBodyDefinition>, Vec<Diagnostic>))
    requires
        view.wf(),
        notation::fits(members@, view.lo(), view.hi()),
    ensures
        (term::items_terms(result.0@), diagnostic::reports(result.1@)) == grammar::p_members(
            view.l(),
            layout::members_of(members@),
            view.lo(),
            view.hi(),
            context,
        ),
    decreases view.hi() - view.lo(), 82nat, 0nat,
{
    let ghost all = layout::members_of(members@);
    let ghost l = view.l();
    assert(all.len() == members.len());
    let mut items: Vec<ObjectBodyDefinition> = Vec::new();
    let mut errors: Vec<Diagnostic> = Vec::new();
    let mut k: usize = 0;
    proof {
        assert(term::items_terms(items@) =~= Seq::empty());
        assert(diagnostic::reports(errors@) =~= Seq::empty());
    }
    while k < members.len()
        invariant
            view.wf(),
            l == view.l(),
            k <= members.len(),
            all == layout::members_of(members@),
            all.len() == members.len(),
            notation::fits(members@, view.lo(), view.hi()),
            (term::items_terms(items@), diagnostic::reports(errors@)) == grammar::p_members(
                l,
                all.take(k as int),
                view.lo(),
                view.hi(),
                context,
            ),
        decreases members.len() - k,
    {
        proof {
            assert(all.take(k + 1).drop_last() =~= all.take(k as int));
            assert(all.take(k + 1).last() == members@[k as int]@);
        }
        let range = members[k].tokens;
        let line = members[k].line;
        let inner = view.between(range.start, range.end).trim_layout();
        let read = parse_declaration_in_context(inner, line, context.child_owner(inner));
        report_all(&mut errors, read.errors);
        match read.kind {
            Some(kind) => {
                let item = ObjectBodyDefinition { line, kind };
                proof {
                    term::items_terms_push(items@, item);
                    term::item_def(item);
                    assert(term::item_term(item) == term::node(
                        Tag::Item,
                        seq![Term::Size(line as nat), term::kind_shape(kind)],
                    ));
                }
                items.push(item);
            },
            None => {},
        }
        k = k + 1;
    }
    assert(all.take(members.len() as int) =~= all);
    (items, errors)
}

/// An object, an extension of one, or a definition.
pub fn parse_declaration_in_context(
    view: TokenView<'_>,
    line: usize,
    context: ExpressionContext,
) -> (read: ReadDeclaration)
    requires
        view.wf(),
    ensures
        read.kind is None && input::skip(view.l(), view.lo(), view.hi()) < view.hi()
            ==> read.errors.len() > 0,
        read@ == grammar::p_declaration(view.l(), view.lo(), view.hi(), line as nat, context),
    decreases view.hi() - view.lo(), 80nat, 0nat,
{
    let (own, errors) = validate_expression_floor(view, context);
    let start = view.skip(view.range.start);
    if start >= view.range.end {
        return undeclared(errors);
    }
    let read = match object_declaration_head(view) {
        Some((head, is_abstract)) => parse_object_declaration(view, head, is_abstract, line, own),
        None => if view.is_word(start, "extend") {
            parse_extend_declaration(view, line, own)
        } else {
            parse_definition(view, line, own)
        },
    };
    let ghost own_errors = read.errors@;
    let mut all = errors;
    report_all(&mut all, read.errors);
    proof {
        assert(diagnostic::reports(own_errors).len() == own_errors.len());
        assert(diagnostic::reports(all@).len() == all.len());
    }
    ReadDeclaration { kind: read.kind, errors: all }
}

/// A definition, with what its term is made of.
fn defined(definition: DefinitionDecl, errors: Vec<Diagnostic>) -> (read: ReadDeclaration)
    ensures
        read.kind is Some,
        read@ == (Declared {
            term: Some(term::definition_shape(definition)),
            errors: diagnostic::reports(errors@),
        }),
{
    proof {
        term::definition_def(definition);
    }
    ReadDeclaration { kind: Some(ObjectBodyDefinitionKind::Definition(definition)), errors }
}

/// An object, with what its term is made of.
fn declared(object: ObjectDecl, errors: Vec<Diagnostic>) -> (read: ReadDeclaration)
    ensures
        read.kind is Some,
        read@ == (Declared {
            term: Some(term::object_shape(object)),
            errors: diagnostic::reports(errors@),
        }),
{
    proof {
        term::object_def(object);
    }
    ReadDeclaration { kind: Some(ObjectBodyDefinitionKind::Object(object)), errors }
}

/// An extension, with what its term is made of.
fn extended(extend: ObjectExtendDecl, errors: Vec<Diagnostic>) -> (read: ReadDeclaration)
    ensures
        read.kind is Some,
        read@ == (Declared {
            term: Some(term::extend_shape(extend)),
            errors: diagnostic::reports(errors@),
        }),
{
    proof {
        term::extend_def(extend);
    }
    ReadDeclaration { kind: Some(ObjectBodyDefinitionKind::Extend(extend)), errors }
}

/// What an operator of a definition does.
fn definition_kind(kind: usize) -> (found: DefinitionKind)
    requires
        kind <= 2,
    ensures
        term::kind_term(found) == Term::Size(kind as nat),
{
    if kind == 0 {
        DefinitionKind::Introduce
    } else if kind == 1 {
        DefinitionKind::Override
    } else {
        DefinitionKind::Update
    }
}

/// A definition: a target with parameters, an operator, and a body.
fn parse_definition(view: TokenView<'_>, line: usize, context: ExpressionContext) -> (read:
    ReadDeclaration)
    requires
        view.wf(),
    ensures
        read.kind is None ==> read.errors.len() > 0,
        read@ == grammar::p_definition(view.l(), view.lo(), view.hi(), line as nat, context),
    decreases view.hi() - view.lo(), 78nat, 0nat,
{
    let (operator, kind) = match definition_operator(view) {
        Some(found) => found,
        None => {
            return undeclared(fail(line, "expected a declaration"));
        },
    };
    let rest = view.between(operator + 1, view.range.end);
    if rest.is_layout_empty() {
        return undeclared(fail(line, "definition body cannot be empty"));
    }
    let left = view.between(view.range.start, operator).trim_layout();
    let (target, parameters) = match parse_definition_left(left, line, context) {
        Ok(found) => found,
        Err(errors) => {
            return undeclared(errors);
        },
    };
    let kind = definition_kind(kind);
    assert(term::words(parameters@) =~= term::spelled(text::texts(parameters@)));
    match parse_expression(rest, context) {
        Err(errors) => defined(DefinitionDecl { target, parameters, kind, expr: None }, errors),
        Ok(body) => {
            let none: Vec<Diagnostic> = Vec::new();
            assert(diagnostic::reports(none@) =~= Seq::empty());
            let ghost words = term::words(parameters@);
            assert(text::texts(parameters@).len() == parameters.len());
            let expr = if parameters.len() == 0 {
                body
            } else {
                let copies = copy_texts(&parameters);
                assert(term::words(copies@) =~= words) by {
                    assert forall|k: int| 0 <= k < copies.len() implies term::words(copies@)[k]
                        == words[k] by {
                        assert(text::texts(copies@)[k] == text::texts(parameters@)[k]);
                    }
                }
                formed(SyntaxExpr::Lambda(copies, Box::new(body)))
            };
            defined(DefinitionDecl { target, parameters, kind, expr: Some(expr) }, none)
        },
    }
}

/// The same texts.
fn copy_texts(items: &Vec<String>) -> (copies: Vec<String>)
    ensures
        text::texts(copies@) == text::texts(items@),
        copies.len() == items.len(),
{
    let mut copies: Vec<String> = Vec::new();
    let mut k: usize = 0;
    while k < items.len()
        invariant
            k <= items.len(),
            copies.len() == k,
            forall|j: int| 0 <= j < k ==> (#[trigger] copies@[j])@ == items@[j]@,
        decreases items.len() - k,
    {
        copies.push(items[k].clone());
        k = k + 1;
    }
    assert(text::texts(copies@) =~= text::texts(items@));
    copies
}

/// The left side of a definition: its target and its parameters.
fn parse_definition_left(view: TokenView<'_>, line: usize, context: ExpressionContext) -> (result:
    Result<(Vec<SyntaxKeyExpr>, Vec<String>), Vec<Diagnostic>>)
    requires
        view.wf(),
    ensures
        result matches Err(errors) ==> errors.len() > 0,
        ({
            let told = grammar::p_left(view.l(), view.lo(), view.hi(), line as nat, context);
            match result {
                Ok((target, params)) => told == Ok::<
                    (Seq<Term>, Seq<Seq<char>>),
                    Seq<DiagnosticView>,
                >((term::keys_terms(target@), text::texts(params@))),
                Err(errors) => told == Err::<(Seq<Term>, Seq<Seq<char>>), Seq<DiagnosticView>>(
                    diagnostic::reports(errors@),
                ),
            }
        }),
    decreases view.hi() - view.lo(), 76nat, 0nat,
{
    let start = view.range.start;
    if view.is_empty() {
        return Err(fail(line, "definition requires a target"));
    }
    let named = match kind_at(view, start) {
        TokenKind::Name(_) => true,
        _ => false,
    };
    if !(named || view.is_symbol(start, ".")) {
        return Err(fail(line, "definition target must be a name or path"));
    }
    let from = if named {
        start + 1
    } else {
        start
    };
    let end = match target_end(view, from, line, !named) {
        Ok(end) => end,
        Err(errors) => {
            return Err(errors);
        },
    };
    if end <= start {
        return Err(fail(line, "definition target path cannot be empty"));
    }
    let target = match parse_definition_target(view.between(start, end), line, context) {
        Ok(target) => target,
        Err(errors) => {
            return Err(errors);
        },
    };
    match definition_params(view, end, line) {
        Ok(params) => Ok((target, params)),
        Err(errors) => Err(errors),
    }
}

/// The target of a definition.
fn parse_definition_target(view: TokenView<'_>, line: usize, context: ExpressionContext) -> (result:
    Result<Vec<SyntaxKeyExpr>, Vec<Diagnostic>>)
    requires
        view.wf(),
        view.lo() < view.hi(),
    ensures
        result matches Err(errors) ==> errors.len() > 0,
        notation::said_keys(result) == grammar::p_target(
            view.l(),
            view.lo(),
            view.hi(),
            line as nat,
            context,
        ),
    decreases view.hi() - view.lo(), 75nat, 0nat,
{
    let start = view.range.start;
    let mut keys: Vec<SyntaxKeyExpr> = Vec::new();
    match kind_at(view, start) {
        TokenKind::Name(word) => {
            if is_reserved(word.as_str()) {
                return Err(fail(line, reserved_text(word.as_str()).as_str()));
            }
            let key = formed_key(SyntaxKeyExpr::Atom(word.clone()));
            proof {
                term::keys_terms_push(keys@, key);
                assert(term::keys_terms(keys@.push(key)) =~= seq![grammar::key_atom(word@)]);
            }
            keys.push(key);
            parse_target_steps(view, start + 1, line, context, keys)
        },
        _ => {
            assert(term::keys_terms(keys@) =~= Seq::empty());
            match parse_target_steps(view, start, line, context, keys) {
                Ok(found) => {
                    proof {
                        term::keys_terms_at(found@);
                    }
                    if found.len() == 0 {
                        Err(fail(line, "definition target path cannot be empty"))
                    } else {
                        Ok(found)
                    }
                },
                Err(errors) => Err(errors),
            }
        },
    }
}

/// The path steps of a target.
fn parse_target_steps(
    view: TokenView<'_>,
    from: usize,
    line: usize,
    context: ExpressionContext,
    keys: Vec<SyntaxKeyExpr>,
) -> (result: Result<Vec<SyntaxKeyExpr>, Vec<Diagnostic>>)
    requires
        view.wf(),
        view.lo() <= from <= view.hi(),
    ensures
        result matches Err(errors) ==> errors.len() > 0,
        notation::said_keys(result) == grammar::p_target_steps(
            view.l(),
            from as int,
            view.hi(),
            line as nat,
            context,
            term::keys_terms(keys@),
        ),
    decreases view.hi() - from, 74nat, 0nat,
{
    let mut done = keys;
    let mut index = from;
    while index < view.range.end
        invariant
            view.wf(),
            view.lo() <= from <= index <= view.hi(),
            grammar::p_target_steps(
                view.l(),
                from as int,
                view.hi(),
                line as nat,
                context,
                term::keys_terms(keys@),
            ) == grammar::p_target_steps(
                view.l(),
                index as int,
                view.hi(),
                line as nat,
                context,
                term::keys_terms(done@),
            ),
        decreases view.hi() - index,
    {
        proof {
            term::keys_terms_at(done@);
        }
        if !view.is_symbol(index, ".") {
            return Err(fail(line, "invalid definition target path"));
        }
        if view.range.end - index <= 1 {
            return Err(fail(line, "path suffix requires a key"));
        }
        match kind_at(view, index + 1) {
            TokenKind::Name(word) => {
                if done.len() == 0 && is_reserved(word.as_str()) {
                    return Err(fail(line, reserved_text(word.as_str()).as_str()));
                }
                let key = formed_key(SyntaxKeyExpr::Atom(word.clone()));
                proof {
                    term::keys_terms_push(done@, key);
                }
                done.push(key);
                index = index + 2;
            },
            TokenKind::Open { group: _, delimiter } => {
                let close = match view.close_of(index + 1) {
                    Some(close) => close,
                    None => {
                        return Err(fail(line, "invalid path list"));
                    },
                };
                let inner = view.between(index + 2, close);
                match delimiter {
                    Delimiter::Bracket => {
                        let views = inner.split_top_level(",");
                        let items = nonempty_parts(&views, Ghost(inner));
                        match parse_keys(&items, inner, context) {
                            Ok(more) => {
                                proof {
                                    term::keys_terms_add(done@, more@);
                                }
                                let mut more = more;
                                done.append(&mut more);
                            },
                            Err(errors) => {
                                return Err(combine_parse_errors(line, &errors));
                            },
                        }
                    },
                    Delimiter::Parenthesis => match parse_expression(inner, context) {
                        Ok(expr) => {
                            let key = formed_key(SyntaxKeyExpr::PathIndex(Box::new(expr)));
                            proof {
                                term::keys_terms_push(done@, key);
                            }
                            done.push(key);
                        },
                        Err(errors) => {
                            return Err(combine_parse_errors(line, &errors));
                        },
                    },
                    Delimiter::Brace => {
                        return Err(fail(line, "invalid definition target path"));
                    },
                }
                index = close + 1;
            },
            _ => {
                return Err(fail(line, "invalid definition target path"));
            },
        }
    }
    Ok(done)
}

/// The header of an object declaration or extension.
pub struct ObjectHeader {
    pub target: String,
    pub alias: Option<String>,
    pub deps: Vec<SyntaxExpr>,
    pub with: Option<usize>,
}

impl View for ObjectHeader {
    type V = Header;

    open spec fn view(&self) -> Header {
        Header {
            target: self.target@,
            alias: notation::maybe_text(self.alias),
            deps: term::exprs_terms(self.deps@),
            with: notation::position(self.with),
        }
    }
}

fn parse_static_object_header(
    view: TokenView<'_>,
    line: usize,
    extend: bool,
    context: ExpressionContext,
) -> (result: Result<ObjectHeader, Vec<Diagnostic>>)
    requires
        view.wf(),
    ensures
        result matches Err(errors) ==> errors.len() > 0,
        ({
            let told = grammar::p_header(
                view.l(),
                view.lo(),
                view.hi(),
                line as nat,
                extend,
                context,
            );
            match result {
                Ok(header) => told == Ok::<Header, Seq<DiagnosticView>>(header@),
                Err(errors) => told == Err::<Header, Seq<DiagnosticView>>(
                    diagnostic::reports(errors@),
                ),
            }
        }),
    decreases view.hi() - view.lo(), 76nat, 0nat,
{
    let with = first_mark(view, MarkText::Word("with"));
    let stop = match with {
        Some(with) => with,
        None => view.range.end,
    };
    let header = view.between(view.range.start, stop);
    let (a, x, target_stop) = header_marks(header);
    if extend && x.is_some() {
        return Err(fail(line, "extend declaration does not accept `extends` dependencies"));
    }
    match (a, x) {
        (Some(i), Some(j)) => if i >= j {
            return Err(fail(line, "object declaration `as` must precede `extends`"));
        },
        _ => {},
    }
    let target = view.between(view.range.start, target_stop).trim_layout();
    if !target.is_empty() {
        match kind_at(target, target.range.start) {
            TokenKind::Name(word) => if is_reserved(word.as_str()) {
                return Err(fail(line, reserved_text(word.as_str()).as_str()));
            },
            _ => {},
        }
    }
    let target = match static_path(target) {
        Some(target) => target,
        None => {
            return Err(
                fail(
                    line,
                    if extend {
                        "extend declaration requires a path name"
                    } else {
                        "object declaration requires a path name"
                    },
                ),
            );
        },
    };
    if same_text(target.as_str(), "_") {
        return Err(
            fail(
                line,
                "object declarations require a named target; use an object expression for an anonymous object",
            ),
        );
    }
    let alias = match declared_alias(header, a, x, line) {
        Ok(alias) => alias,
        Err(errors) => {
            return Err(errors);
        },
    };
    match parse_parents(header, x, context) {
        Ok(deps) => Ok(ObjectHeader { target, alias, deps, with }),
        Err(errors) => Err(errors),
    }
}

/// The body of a declaration.
fn parse_object_body(view: TokenView<'_>, context: ExpressionContext) -> (result: (
    Vec<ObjectBodyDefinition>,
    Vec<Diagnostic>,
))
    requires
        view.wf(),
    ensures
        (term::items_terms(result.0@), diagnostic::reports(result.1@)) == grammar::p_body(
            view.l(),
            view.lo(),
            view.hi(),
            context,
        ),
    decreases view.hi() - view.lo(), 84nat, 0nat,
{
    let none: Vec<ObjectBodyDefinition> = Vec::new();
    assert(term::items_terms(none@) =~= Seq::empty());
    let start = view.skip(view.range.start);
    if start >= view.range.end {
        let errors: Vec<Diagnostic> = Vec::new();
        assert(diagnostic::reports(errors@) =~= Seq::empty());
        return (none, errors);
    }
    match view.opens(start, Delimiter::Brace) {
        Some(close) => if view.between(close + 1, view.range.end).is_layout_empty() {
            return match braced_members(view.between(start + 1, close), "`with` body") {
                Ok(members) => parse_members(view, &members, context),
                Err(errors) => (none, errors),
            };
        },
        None => {},
    }
    proof {
        layout::block_bounds(view.l(), view.lo(), view.hi(), LayoutBase::FirstLine);
    }
    match LayoutView::new(view).statements(LayoutBase::FirstLine) {
        Ok(members) => {
            proof {
                notation::block_fits(members@, view.lo(), view.hi());
            }
            parse_members(view, &members, context)
        },
        Err(error) => (none, layout_failure(error)),
    }
}

/// A body that declares something, or is explicitly empty.
fn parse_required_body(
    view: TokenView<'_>,
    line: usize,
    missing: &str,
    context: ExpressionContext,
) -> (result: (Option<Vec<ObjectBodyDefinition>>, Vec<Diagnostic>))
    requires
        view.wf(),
    ensures
        result.0 is None ==> result.1.len() > 0,
        ({
            let (items, errors) = grammar::p_required_body(
                view.l(),
                view.lo(),
                view.hi(),
                line as nat,
                missing@,
                context,
            );
            &&& diagnostic::reports(result.1@) == errors
            &&& match result.0 {
                Some(found) => items == Some(term::items_terms(found@)),
                None => items is None,
            }
        }),
    decreases view.hi() - view.lo(), 85nat, 0nat,
{
    let (items, errors) = parse_object_body(view, context);
    proof {
        term::items_terms_push(
            items@,
            ObjectBodyDefinition {
                line: 0,
                kind: ObjectBodyDefinitionKind::Definition(arbitrary()),
            },
        );
    }
    if is_explicit_body(view) || items.len() > 0 {
        return (Some(items), errors);
    }
    if has_error(&errors) {
        assert(diagnostic::reports(errors@).len() == errors.len());
        return (None, errors);
    }
    let mut all = errors;
    let told = fail(line, missing);
    assert(diagnostic::reports(told@).len() == told.len());
    report_all(&mut all, told);
    assert(diagnostic::reports(all@).len() == all.len());
    (None, all)
}

/// An object declaration.
fn parse_object_declaration(
    view: TokenView<'_>,
    head: usize,
    is_abstract: bool,
    line: usize,
    context: ExpressionContext,
) -> (read: ReadDeclaration)
    requires
        view.wf(),
        view.lo() <= head < view.hi(),
        grammar::decl_head(view.l(), view.lo(), view.hi()) == Some((head as int, is_abstract)),
    ensures
        read.kind is None ==> read.errors.len() > 0,
        read@ == grammar::p_object_declaration(
            view.l(),
            view.lo(),
            view.hi(),
            line as nat,
            context,
        ),
    decreases view.hi() - view.lo(), 78nat, 0nat,
{
    proof {
        reveal(grammar::decl_head);
    }
    let rest = view.between(head + 1, view.range.end);
    let end = split_header(rest);
    let header = match parse_static_object_header(
        view.between(head + 1, end),
        line,
        false,
        context,
    ) {
        Ok(header) => header,
        Err(errors) => {
            return undeclared(errors);
        },
    };
    let body = view.between(end, view.range.end);
    let empty = body.is_layout_empty();
    if header.with.is_none() {
        if !empty {
            return undeclared(
                fail(line, "object body requires `with` in the declaration header"),
            );
        }
        if header.alias.is_some() {
            return undeclared(fail(line, "object declaration `as` requires a `with` body"));
        }
        let none: Vec<ObjectBodyDefinition> = Vec::new();
        let errors: Vec<Diagnostic> = Vec::new();
        proof {
            assert(term::items_terms(none@) =~= Seq::empty());
            assert(diagnostic::reports(errors@) =~= Seq::empty());
        }
        return declared(ObjectDecl { realization: realization(is_abstract), target: header.target, alias: header.alias, deps: header.deps, body: none, }, errors);
    }
    if empty {
        return undeclared(
            fail(
                line,
                "object `with` requires a body; use `with {}` for an explicit empty body",
            ),
        );
    }
    let (items, errors) = parse_required_body(
        body,
        line,
        "object `with` body cannot be empty; use `with {}` for an explicit empty body",
        context,
    );
    match items {
        None => undeclared(errors),
        Some(items) => declared(ObjectDecl { realization: realization(is_abstract), target: header.target, alias: header.alias, deps: header.deps, body: items, }, errors),
    }
}

/// An extension of an object.
fn parse_extend_declaration(view: TokenView<'_>, line: usize, context: ExpressionContext) -> (read:
    ReadDeclaration)
    requires
        view.wf(),
        !input::empty(view.l(), view.lo(), view.hi()),
    ensures
        read.kind is None ==> read.errors.len() > 0,
        read@ == grammar::p_extend(view.l(), view.lo(), view.hi(), line as nat, context),
    decreases view.hi() - view.lo(), 78nat, 0nat,
{
    let (from, is_abstract) = extend_head(view);
    let rest = view.between(from, view.range.end);
    let end = split_header(rest);
    let header = match parse_static_object_header(view.between(from, end), line, true, context) {
        Ok(header) => header,
        Err(errors) => {
            return undeclared(errors);
        },
    };
    if header.with.is_none() {
        return undeclared(
            fail(line, "extend declarations currently require `extend name (as alias)? with`"),
        );
    }
    let body = view.between(end, view.range.end);
    if body.is_layout_empty() {
        return undeclared(fail(line, "extend declaration requires a body"));
    }
    let (items, errors) = parse_required_body(
        body,
        line,
        "extend declaration body cannot be empty; use `with {}` for an explicit empty body",
        context,
    );
    match items {
        None => undeclared(errors),
        Some(items) => extended(ObjectExtendDecl { realization: realization(is_abstract), target: header.target, alias: header.alias, body: items, }, errors),
    }
}

} // verus!
