//! The previews of the `do` blocks of a source, for which a planner can give
//! plans.

use vstd::prelude::*;
use crate::ast::{
    Declaration, DeclarationKind, DefinitionDecl, DoExpr, DoStep, DoStepKind, MatchArm,
    MatchOutcome, ObjectBodyDefinition, ObjectBodyDefinitionKind, SyntaxDictPatternEntry,
    SyntaxExpr, SyntaxGuardClause, SyntaxKeyExpr, SyntaxOperator, SyntaxPattern,
    SyntaxPatternKind, WhenArm,
};
use crate::recursive_preview;
use crate::recursive_preview::{preview_recursive_do_plan, PreviewView, RecursiveDoPreview};

verus! {

pub open spec fn preview_views(previews: Seq<RecursiveDoPreview>) -> Seq<PreviewView> {
    previews.map_values(|preview: RecursiveDoPreview| preview@)
}

/// The blocks of an expression, each before those within it.
pub open spec fn expr_blocks(x: SyntaxExpr) -> Seq<PreviewView>
    decreases x,
{
    match x {
        SyntaxExpr::Unit => Seq::empty(),
        SyntaxExpr::Embedded(_) => Seq::empty(),
        SyntaxExpr::Number(_) => Seq::empty(),
        SyntaxExpr::Text(_) => Seq::empty(),
        SyntaxExpr::Atom(_) => Seq::empty(),
        SyntaxExpr::Effect(_) => Seq::empty(),
        SyntaxExpr::Name(_) => Seq::empty(),
        SyntaxExpr::PriorName(_) => Seq::empty(),
        SyntaxExpr::Escape(_, inner) => expr_blocks(*inner),
        SyntaxExpr::Access(base, path) => expr_blocks(*base) + keys_blocks(path@),
        SyntaxExpr::Object(object) => (match object.name {
            Some(inner) => expr_blocks(*inner),
            None => Seq::empty(),
        }) + exprs_blocks(object.deps@) + items_blocks(object.body@),
        SyntaxExpr::With { base, alias: _, body } => expr_blocks(*base) + items_blocks(body@),
        SyntaxExpr::Using { namespace, body } => expr_blocks(*namespace) + expr_blocks(*body),
        SyntaxExpr::PathDict(path, value) => keys_blocks(path@) + expr_blocks(*value),
        SyntaxExpr::TaggedConstructor(path) => keys_blocks(path@),
        SyntaxExpr::DictUnion(items) => exprs_blocks(items@),
        SyntaxExpr::List(items) => exprs_blocks(items@),
        SyntaxExpr::Tuple(items) => exprs_blocks(items@),
        SyntaxExpr::Lambda(_, body) => expr_blocks(*body),
        SyntaxExpr::Do(block) => do_blocks(block),
        SyntaxExpr::If(choice) => guards_blocks(choice.guards@) + expr_blocks(*choice.then_result)
            + expr_blocks(*choice.else_result),
        SyntaxExpr::Match(choice) => expr_blocks(*choice.subject) + arms_blocks(choice.arms@),
        SyntaxExpr::MatchWhen(choice) => when_arms_blocks(choice.arms@),
        SyntaxExpr::Let { bindings, body } => bindings_blocks(bindings@) + expr_blocks(*body),
        SyntaxExpr::OperatorSection { operator: _, left, right } => (match left {
            Some(inner) => expr_blocks(*inner),
            None => Seq::empty(),
        }) + (match right {
            Some(inner) => expr_blocks(*inner),
            None => Seq::empty(),
        }),
        SyntaxExpr::ComparisonChain { first, rest } => expr_blocks(*first) + links_blocks(rest@),
        SyntaxExpr::OperatorApply { operator: _, left, right } => expr_blocks(*left)
            + expr_blocks(*right),
        SyntaxExpr::Apply(left, right) => expr_blocks(*left) + expr_blocks(*right),
        SyntaxExpr::Multiply(left, right) => expr_blocks(*left) + expr_blocks(*right),
        SyntaxExpr::Divide(left, right) => expr_blocks(*left) + expr_blocks(*right),
        SyntaxExpr::Add(left, right) => expr_blocks(*left) + expr_blocks(*right),
        SyntaxExpr::Subtract(left, right) => expr_blocks(*left) + expr_blocks(*right),
        SyntaxExpr::Append(left, right) => expr_blocks(*left) + expr_blocks(*right),
    }
}

/// The blocks of a key.
pub open spec fn key_blocks(x: SyntaxKeyExpr) -> Seq<PreviewView>
    decreases x,
{
    match x {
        SyntaxKeyExpr::Atom(_) => Seq::empty(),
        SyntaxKeyExpr::Index(expr) => expr_blocks(*expr),
        SyntaxKeyExpr::PathIndex(expr) => expr_blocks(*expr),
    }
}

/// The blocks of a pattern.
pub open spec fn pattern_blocks(x: SyntaxPattern) -> Seq<PreviewView>
    decreases x,
{
    match x.kind {
        SyntaxPatternKind::Capture(_) => Seq::empty(),
        SyntaxPatternKind::Wildcard => Seq::empty(),
        SyntaxPatternKind::Literal(_) => Seq::empty(),
        SyntaxPatternKind::List { prefix, middle, suffix } => patterns_blocks(prefix@) + (match middle {
            Some(inner) => pattern_blocks(*inner),
            None => Seq::empty(),
        }) + patterns_blocks(suffix@),
        SyntaxPatternKind::Dict { entries, remainder } => entries_blocks(entries@) + (match remainder {
            Some(inner) => pattern_blocks(*inner),
            None => Seq::empty(),
        }),
        SyntaxPatternKind::QuotedPath(path) => keys_blocks(path@),
        SyntaxPatternKind::Group(inner) => pattern_blocks(*inner),
        SyntaxPatternKind::As(left, right) => pattern_blocks(*left) + pattern_blocks(*right),
        SyntaxPatternKind::View { view, pattern } => expr_blocks(*view) + pattern_blocks(*pattern),
        SyntaxPatternKind::Predicate { predicate, pattern } => expr_blocks(*predicate) + pattern_blocks(*pattern),
        SyntaxPatternKind::Guarded { pattern, guards } => pattern_blocks(*pattern) + guards_blocks(guards@),
    }
}

/// The blocks of a guard.
pub open spec fn guard_blocks(x: SyntaxGuardClause) -> Seq<PreviewView>
    decreases x,
{
    match x {
        SyntaxGuardClause::Pass => Seq::empty(),
        SyntaxGuardClause::Effect(expr) => expr_blocks(expr),
        SyntaxGuardClause::EffectBind { pattern, operation } => expr_blocks(operation) + pattern_blocks(pattern),
        SyntaxGuardClause::ValueBind { pattern, value } => expr_blocks(value) + pattern_blocks(pattern),
    }
}

/// The blocks of a step.
pub open spec fn step_blocks(x: DoStep) -> Seq<PreviewView>
    decreases x,
{
    match x.kind {
        DoStepKind::Abstract(_) => Seq::empty(),
        DoStepKind::Bind { pattern, operation } => expr_blocks(operation) + pattern_blocks(pattern),
        DoStepKind::ValueBind { pattern, value } => expr_blocks(value) + pattern_blocks(pattern),
        DoStepKind::Then(expr) => expr_blocks(expr),
    }
}

/// The blocks of an outcome.
pub open spec fn outcome_blocks(x: MatchOutcome) -> Seq<PreviewView>
    decreases x,
{
    match x {
        MatchOutcome::Result { line: _, mode: _, expression } => expr_blocks(expression),
        MatchOutcome::Nested(arms) => when_arms_blocks(arms@),
    }
}

/// The blocks of a member of an object.
pub open spec fn item_blocks(x: ObjectBodyDefinition) -> Seq<PreviewView>
    decreases x,
{
    match x.kind {
        ObjectBodyDefinitionKind::Definition(definition) => definition_blocks(definition),
        ObjectBodyDefinitionKind::Object(object) => exprs_blocks(object.deps@) + items_blocks(object.body@),
        ObjectBodyDefinitionKind::Extend(extend) => items_blocks(extend.body@),
    }
}

/// The blocks of a declaration.
pub open spec fn declaration_blocks(x: Declaration) -> Seq<PreviewView>
    decreases x,
{
    match x.kind {
        DeclarationKind::Object(object) => exprs_blocks(object.deps@) + items_blocks(object.body@),
        DeclarationKind::Extend(extend) => items_blocks(extend.body@),
        DeclarationKind::Definition(definition) => definition_blocks(definition),
        _ => Seq::empty(),
    }
}

/// The blocks of a block, itself first.
pub open spec fn do_blocks(x: DoExpr) -> Seq<PreviewView>
    decreases x,
{
    seq![recursive_preview::previewed(x.steps@)] + steps_blocks(x.steps@) + expr_blocks(*x.result)
}

/// The blocks of an arm by guards.
pub open spec fn when_arm_blocks(x: WhenArm) -> Seq<PreviewView>
    decreases x,
{
    guards_blocks(x.guards@) + outcome_blocks(x.outcome)
}

/// The blocks of an arm.
pub open spec fn arm_blocks(x: MatchArm) -> Seq<PreviewView>
    decreases x,
{
    pattern_blocks(x.pattern) + guards_blocks(x.guards@) + outcome_blocks(x.outcome)
}

/// The blocks of an entry of a pattern.
pub open spec fn entry_blocks(x: SyntaxDictPatternEntry) -> Seq<PreviewView>
    decreases x,
{
    keys_blocks(x.path@) + pattern_blocks(x.pattern)
}

pub open spec fn keys_blocks(items: Seq<SyntaxKeyExpr>) -> Seq<PreviewView>
    decreases items,
{
    if items.len() == 0 {
        Seq::empty()
    } else {
        keys_blocks(items.drop_last()) + key_blocks(items.last())
    }
}

pub open spec fn exprs_blocks(items: Seq<SyntaxExpr>) -> Seq<PreviewView>
    decreases items,
{
    if items.len() == 0 {
        Seq::empty()
    } else {
        exprs_blocks(items.drop_last()) + expr_blocks(items.last())
    }
}

pub open spec fn bindings_blocks(items: Seq<(String, SyntaxExpr)>) -> Seq<PreviewView>
    decreases items,
{
    if items.len() == 0 {
        Seq::empty()
    } else {
        bindings_blocks(items.drop_last()) + expr_blocks(items.last().1)
    }
}

pub open spec fn links_blocks(items: Seq<(SyntaxOperator, SyntaxExpr)>) -> Seq<PreviewView>
    decreases items,
{
    if items.len() == 0 {
        Seq::empty()
    } else {
        links_blocks(items.drop_last()) + expr_blocks(items.last().1)
    }
}

pub open spec fn items_blocks(items: Seq<ObjectBodyDefinition>) -> Seq<PreviewView>
    decreases items,
{
    if items.len() == 0 {
        Seq::empty()
    } else {
        items_blocks(items.drop_last()) + item_blocks(items.last())
    }
}

pub open spec fn patterns_blocks(items: Seq<SyntaxPattern>) -> Seq<PreviewView>
    decreases items,
{
    if items.len() == 0 {
        Seq::empty()
    } else {
        patterns_blocks(items.drop_last()) + pattern_blocks(items.last())
    }
}

pub open spec fn guards_blocks(items: Seq<SyntaxGuardClause>) -> Seq<PreviewView>
    decreases items,
{
    if items.len() == 0 {
        Seq::empty()
    } else {
        guards_blocks(items.drop_last()) + guard_blocks(items.last())
    }
}

pub open spec fn steps_blocks(items: Seq<DoStep>) -> Seq<PreviewView>
    decreases items,
{
    if items.len() == 0 {
        Seq::empty()
    } else {
        steps_blocks(items.drop_last()) + step_blocks(items.last())
    }
}

pub open spec fn when_arms_blocks(items: Seq<WhenArm>) -> Seq<PreviewView>
    decreases items,
{
    if items.len() == 0 {
        Seq::empty()
    } else {
        when_arms_blocks(items.drop_last()) + when_arm_blocks(items.last())
    }
}

pub open spec fn arms_blocks(items: Seq<MatchArm>) -> Seq<PreviewView>
    decreases items,
{
    if items.len() == 0 {
        Seq::empty()
    } else {
        arms_blocks(items.drop_last()) + arm_blocks(items.last())
    }
}

pub open spec fn entries_blocks(items: Seq<SyntaxDictPatternEntry>) -> Seq<PreviewView>
    decreases items,
{
    if items.len() == 0 {
        Seq::empty()
    } else {
        entries_blocks(items.drop_last()) + entry_blocks(items.last())
    }
}

pub open spec fn declarations_blocks(items: Seq<Declaration>) -> Seq<PreviewView>
    decreases items,
{
    if items.len() == 0 {
        Seq::empty()
    } else {
        declarations_blocks(items.drop_last()) + declaration_blocks(items.last())
    }
}

/// The blocks of a definition.
pub open spec fn definition_blocks(x: DefinitionDecl) -> Seq<PreviewView>
    decreases x,
{
    keys_blocks(x.target@) + match x.expr {
        Some(expr) => expr_blocks(expr),
        None => Seq::empty(),
    }
}

fn collect_definition(x: &DefinitionDecl, found: &mut Vec<RecursiveDoPreview>)
    ensures
        preview_views(final(found)@) == preview_views(old(found)@) + definition_blocks(*x),
    decreases x,
{
    collect_keys(&x.target, found);
    if let Some(expr) = &x.expr {
        collect_expr(expr, found);
    }
    assert(preview_views(found@) =~= preview_views(old(found)@) + definition_blocks(*x));
}

fn collect_expr(x: &SyntaxExpr, found: &mut Vec<RecursiveDoPreview>)
    ensures
        preview_views(final(found)@) == preview_views(old(found)@) + expr_blocks(*x),
    decreases x,
{
    match x {
        SyntaxExpr::Unit => {},
        SyntaxExpr::Embedded(_) => {},
        SyntaxExpr::Number(_) => {},
        SyntaxExpr::Text(_) => {},
        SyntaxExpr::Atom(_) => {},
        SyntaxExpr::Effect(_) => {},
        SyntaxExpr::Name(_) => {},
        SyntaxExpr::PriorName(_) => {},
        SyntaxExpr::Escape(_, inner) => {
            collect_expr(inner, found);
        },
        SyntaxExpr::Access(base, path) => {
            collect_expr(base, found);
            collect_keys(path, found);
        },
        SyntaxExpr::Object(object) => {
            if let Some(inner) = &object.name {
                collect_expr(inner, found);
            }
            collect_exprs(&object.deps, found);
            collect_items(&object.body, found);
        },
        SyntaxExpr::With { base, alias: _, body } => {
            collect_expr(base, found);
            collect_items(body, found);
        },
        SyntaxExpr::Using { namespace, body } => {
            collect_expr(namespace, found);
            collect_expr(body, found);
        },
        SyntaxExpr::PathDict(path, value) => {
            collect_keys(path, found);
            collect_expr(value, found);
        },
        SyntaxExpr::TaggedConstructor(path) => {
            collect_keys(path, found);
        },
        SyntaxExpr::DictUnion(items) => {
            collect_exprs(items, found);
        },
        SyntaxExpr::List(items) => {
            collect_exprs(items, found);
        },
        SyntaxExpr::Tuple(items) => {
            collect_exprs(items, found);
        },
        SyntaxExpr::Lambda(_, body) => {
            collect_expr(body, found);
        },
        SyntaxExpr::Do(block) => {
            collect_do(block, found);
        },
        SyntaxExpr::If(choice) => {
            collect_guards(&choice.guards, found);
            collect_expr(&choice.then_result, found);
            collect_expr(&choice.else_result, found);
        },
        SyntaxExpr::Match(choice) => {
            collect_expr(&choice.subject, found);
            collect_arms(&choice.arms, found);
        },
        SyntaxExpr::MatchWhen(choice) => {
            collect_when_arms(&choice.arms, found);
        },
        SyntaxExpr::Let { bindings, body } => {
            collect_bindings(bindings, found);
            collect_expr(body, found);
        },
        SyntaxExpr::OperatorSection { operator: _, left, right } => {
            if let Some(inner) = left {
                collect_expr(inner, found);
            }
            if let Some(inner) = right {
                collect_expr(inner, found);
            }
        },
        SyntaxExpr::ComparisonChain { first, rest } => {
            collect_expr(first, found);
            collect_links(rest, found);
        },
        SyntaxExpr::OperatorApply { operator: _, left, right } => {
            collect_expr(left, found);
            collect_expr(right, found);
        },
        SyntaxExpr::Apply(left, right) => {
            collect_expr(left, found);
            collect_expr(right, found);
        },
        SyntaxExpr::Multiply(left, right) => {
            collect_expr(left, found);
            collect_expr(right, found);
        },
        SyntaxExpr::Divide(left, right) => {
            collect_expr(left, found);
            collect_expr(right, found);
        },
        SyntaxExpr::Add(left, right) => {
            collect_expr(left, found);
            collect_expr(right, found);
        },
        SyntaxExpr::Subtract(left, right) => {
            collect_expr(left, found);
            collect_expr(right, found);
        },
        SyntaxExpr::Append(left, right) => {
            collect_expr(left, found);
            collect_expr(right, found);
        },
    }
    assert(preview_views(found@) =~= preview_views(old(found)@) + expr_blocks(*x));
}

fn collect_key(x: &SyntaxKeyExpr, found: &mut Vec<RecursiveDoPreview>)
    ensures
        preview_views(final(found)@) == preview_views(old(found)@) + key_blocks(*x),
    decreases x,
{
    match x {
        SyntaxKeyExpr::Atom(_) => {},
        SyntaxKeyExpr::Index(expr) => {
            collect_expr(expr, found);
        },
        SyntaxKeyExpr::PathIndex(expr) => {
            collect_expr(expr, found);
        },
    }
    assert(preview_views(found@) =~= preview_views(old(found)@) + key_blocks(*x));
}

fn collect_pattern(x: &SyntaxPattern, found: &mut Vec<RecursiveDoPreview>)
    ensures
        preview_views(final(found)@) == preview_views(old(found)@) + pattern_blocks(*x),
    decreases x,
{
    match &x.kind {
        SyntaxPatternKind::Capture(_) => {},
        SyntaxPatternKind::Wildcard => {},
        SyntaxPatternKind::Literal(_) => {},
        SyntaxPatternKind::List { prefix, middle, suffix } => {
            collect_patterns(prefix, found);
            if let Some(inner) = middle {
                collect_pattern(inner, found);
            }
            collect_patterns(suffix, found);
        },
        SyntaxPatternKind::Dict { entries, remainder } => {
            collect_entries(entries, found);
            if let Some(inner) = remainder {
                collect_pattern(inner, found);
            }
        },
        SyntaxPatternKind::QuotedPath(path) => {
            collect_keys(path, found);
        },
        SyntaxPatternKind::Group(inner) => {
            collect_pattern(inner, found);
        },
        SyntaxPatternKind::As(left, right) => {
            collect_pattern(left, found);
            collect_pattern(right, found);
        },
        SyntaxPatternKind::View { view, pattern } => {
            collect_expr(view, found);
            collect_pattern(pattern, found);
        },
        SyntaxPatternKind::Predicate { predicate, pattern } => {
            collect_expr(predicate, found);
            collect_pattern(pattern, found);
        },
        SyntaxPatternKind::Guarded { pattern, guards } => {
            collect_pattern(pattern, found);
            collect_guards(guards, found);
        },
    }
    assert(preview_views(found@) =~= preview_views(old(found)@) + pattern_blocks(*x));
}

fn collect_guard(x: &SyntaxGuardClause, found: &mut Vec<RecursiveDoPreview>)
    ensures
        preview_views(final(found)@) == preview_views(old(found)@) + guard_blocks(*x),
    decreases x,
{
    match x {
        SyntaxGuardClause::Pass => {},
        SyntaxGuardClause::Effect(expr) => {
            collect_expr(expr, found);
        },
        SyntaxGuardClause::EffectBind { pattern, operation } => {
            collect_expr(operation, found);
            collect_pattern(pattern, found);
        },
        SyntaxGuardClause::ValueBind { pattern, value } => {
            collect_expr(value, found);
            collect_pattern(pattern, found);
        },
    }
    assert(preview_views(found@) =~= preview_views(old(found)@) + guard_blocks(*x));
}

fn collect_step(x: &DoStep, found: &mut Vec<RecursiveDoPreview>)
    ensures
        preview_views(final(found)@) == preview_views(old(found)@) + step_blocks(*x),
    decreases x,
{
    match &x.kind {
        DoStepKind::Abstract(_) => {},
        DoStepKind::Bind { pattern, operation } => {
            collect_expr(operation, found);
            collect_pattern(pattern, found);
        },
        DoStepKind::ValueBind { pattern, value } => {
            collect_expr(value, found);
            collect_pattern(pattern, found);
        },
        DoStepKind::Then(expr) => {
            collect_expr(expr, found);
        },
    }
    assert(preview_views(found@) =~= preview_views(old(found)@) + step_blocks(*x));
}

fn collect_outcome(x: &MatchOutcome, found: &mut Vec<RecursiveDoPreview>)
    ensures
        preview_views(final(found)@) == preview_views(old(found)@) + outcome_blocks(*x),
    decreases x,
{
    match x {
        MatchOutcome::Result { line: _, mode: _, expression } => {
            collect_expr(expression, found);
        },
        MatchOutcome::Nested(arms) => {
            collect_when_arms(arms, found);
        },
    }
    assert(preview_views(found@) =~= preview_views(old(found)@) + outcome_blocks(*x));
}

fn collect_item(x: &ObjectBodyDefinition, found: &mut Vec<RecursiveDoPreview>)
    ensures
        preview_views(final(found)@) == preview_views(old(found)@) + item_blocks(*x),
    decreases x,
{
    match &x.kind {
        ObjectBodyDefinitionKind::Definition(definition) => {
            collect_definition(definition, found);
        },
        ObjectBodyDefinitionKind::Object(object) => {
            collect_exprs(&object.deps, found);
            collect_items(&object.body, found);
        },
        ObjectBodyDefinitionKind::Extend(extend) => {
            collect_items(&extend.body, found);
        },
    }
    assert(preview_views(found@) =~= preview_views(old(found)@) + item_blocks(*x));
}

fn collect_declaration(x: &Declaration, found: &mut Vec<RecursiveDoPreview>)
    ensures
        preview_views(final(found)@) == preview_views(old(found)@) + declaration_blocks(*x),
    decreases x,
{
    match &x.kind {
        DeclarationKind::Object(object) => {
            collect_exprs(&object.deps, found);
            collect_items(&object.body, found);
        },
        DeclarationKind::Extend(extend) => {
            collect_items(&extend.body, found);
        },
        DeclarationKind::Definition(definition) => {
            collect_definition(definition, found);
        },
        _ => {},
    }
    assert(preview_views(found@) =~= preview_views(old(found)@) + declaration_blocks(*x));
}

fn collect_do(x: &DoExpr, found: &mut Vec<RecursiveDoPreview>)
    ensures
        preview_views(final(found)@) == preview_views(old(found)@) + do_blocks(*x),
    decreases x,
{
    let preview = preview_recursive_do_plan(x);
    found.push(preview);
    collect_steps(&x.steps, found);
    collect_expr(&x.result, found);
    assert(preview_views(found@) =~= preview_views(old(found)@) + do_blocks(*x));
}

fn collect_when_arm(x: &WhenArm, found: &mut Vec<RecursiveDoPreview>)
    ensures
        preview_views(final(found)@) == preview_views(old(found)@) + when_arm_blocks(*x),
    decreases x,
{
    collect_guards(&x.guards, found);
    collect_outcome(&x.outcome, found);
    assert(preview_views(found@) =~= preview_views(old(found)@) + when_arm_blocks(*x));
}

fn collect_arm(x: &MatchArm, found: &mut Vec<RecursiveDoPreview>)
    ensures
        preview_views(final(found)@) == preview_views(old(found)@) + arm_blocks(*x),
    decreases x,
{
    collect_pattern(&x.pattern, found);
    collect_guards(&x.guards, found);
    collect_outcome(&x.outcome, found);
    assert(preview_views(found@) =~= preview_views(old(found)@) + arm_blocks(*x));
}

fn collect_entry(x: &SyntaxDictPatternEntry, found: &mut Vec<RecursiveDoPreview>)
    ensures
        preview_views(final(found)@) == preview_views(old(found)@) + entry_blocks(*x),
    decreases x,
{
    collect_keys(&x.path, found);
    collect_pattern(&x.pattern, found);
    assert(preview_views(found@) =~= preview_views(old(found)@) + entry_blocks(*x));
}

fn collect_keys(items: &Vec<SyntaxKeyExpr>, found: &mut Vec<RecursiveDoPreview>)
    ensures
        preview_views(final(found)@) == preview_views(old(found)@) + keys_blocks(items@),
    decreases items,
{
    let mut k: usize = 0;
    assert(items@.take(0) =~= Seq::empty());
    assert(preview_views(found@) =~= preview_views(old(found)@) + keys_blocks(items@.take(0)));
    while k < items.len()
        invariant
            k <= items.len(),
            preview_views(found@) == preview_views(old(found)@) + keys_blocks(
                items@.take(k as int),
            ),
        decreases items.len() - k,
    {
        assert(items@.take(k + 1).drop_last() =~= items@.take(k as int));
        assert(items@.take(k + 1).last() == items@[k as int]);
        collect_key(&items[k], found);
        assert(preview_views(found@) =~= preview_views(old(found)@) + keys_blocks(
            items@.take(k + 1),
        ));
        k = k + 1;
    }
    assert(items@.take(k as int) =~= items@);
}

fn collect_exprs(items: &Vec<SyntaxExpr>, found: &mut Vec<RecursiveDoPreview>)
    ensures
        preview_views(final(found)@) == preview_views(old(found)@) + exprs_blocks(items@),
    decreases items,
{
    let mut k: usize = 0;
    assert(items@.take(0) =~= Seq::empty());
    assert(preview_views(found@) =~= preview_views(old(found)@) + exprs_blocks(items@.take(0)));
    while k < items.len()
        invariant
            k <= items.len(),
            preview_views(found@) == preview_views(old(found)@) + exprs_blocks(
                items@.take(k as int),
            ),
        decreases items.len() - k,
    {
        assert(items@.take(k + 1).drop_last() =~= items@.take(k as int));
        assert(items@.take(k + 1).last() == items@[k as int]);
        collect_expr(&items[k], found);
        assert(preview_views(found@) =~= preview_views(old(found)@) + exprs_blocks(
            items@.take(k + 1),
        ));
        k = k + 1;
    }
    assert(items@.take(k as int) =~= items@);
}

fn collect_bindings(items: &Vec<(String, SyntaxExpr)>, found: &mut Vec<RecursiveDoPreview>)
    ensures
        preview_views(final(found)@) == preview_views(old(found)@) + bindings_blocks(items@),
    decreases items,
{
    let mut k: usize = 0;
    assert(items@.take(0) =~= Seq::empty());
    assert(preview_views(found@) =~= preview_views(old(found)@) + bindings_blocks(items@.take(0)));
    while k < items.len()
        invariant
            k <= items.len(),
            preview_views(found@) == preview_views(old(found)@) + bindings_blocks(
                items@.take(k as int),
            ),
        decreases items.len() - k,
    {
        assert(items@.take(k + 1).drop_last() =~= items@.take(k as int));
        assert(items@.take(k + 1).last() == items@[k as int]);
        collect_expr(&items[k].1, found);
        assert(preview_views(found@) =~= preview_views(old(found)@) + bindings_blocks(
            items@.take(k + 1),
        ));
        k = k + 1;
    }
    assert(items@.take(k as int) =~= items@);
}

fn collect_links(items: &Vec<(SyntaxOperator, SyntaxExpr)>, found: &mut Vec<RecursiveDoPreview>)
    ensures
        preview_views(final(found)@) == preview_views(old(found)@) + links_blocks(items@),
    decreases items,
{
    let mut k: usize = 0;
    assert(items@.take(0) =~= Seq::empty());
    assert(preview_views(found@) =~= preview_views(old(found)@) + links_blocks(items@.take(0)));
    while k < items.len()
        invariant
            k <= items.len(),
            preview_views(found@) == preview_views(old(found)@) + links_blocks(
                items@.take(k as int),
            ),
        decreases items.len() - k,
    {
        assert(items@.take(k + 1).drop_last() =~= items@.take(k as int));
        assert(items@.take(k + 1).last() == items@[k as int]);
        collect_expr(&items[k].1, found);
        assert(preview_views(found@) =~= preview_views(old(found)@) + links_blocks(
            items@.take(k + 1),
        ));
        k = k + 1;
    }
    assert(items@.take(k as int) =~= items@);
}

fn collect_items(items: &Vec<ObjectBodyDefinition>, found: &mut Vec<RecursiveDoPreview>)
    ensures
        preview_views(final(found)@) == preview_views(old(found)@) + items_blocks(items@),
    decreases items,
{
    let mut k: usize = 0;
    assert(items@.take(0) =~= Seq::empty());
    assert(preview_views(found@) =~= preview_views(old(found)@) + items_blocks(items@.take(0)));
    while k < items.len()
        invariant
            k <= items.len(),
            preview_views(found@) == preview_views(old(found)@) + items_blocks(
                items@.take(k as int),
            ),
        decreases items.len() - k,
    {
        assert(items@.take(k + 1).drop_last() =~= items@.take(k as int));
        assert(items@.take(k + 1).last() == items@[k as int]);
        collect_item(&items[k], found);
        assert(preview_views(found@) =~= preview_views(old(found)@) + items_blocks(
            items@.take(k + 1),
        ));
        k = k + 1;
    }
    assert(items@.take(k as int) =~= items@);
}

fn collect_patterns(items: &Vec<SyntaxPattern>, found: &mut Vec<RecursiveDoPreview>)
    ensures
        preview_views(final(found)@) == preview_views(old(found)@) + patterns_blocks(items@),
    decreases items,
{
    let mut k: usize = 0;
    assert(items@.take(0) =~= Seq::empty());
    assert(preview_views(found@) =~= preview_views(old(found)@) + patterns_blocks(items@.take(0)));
    while k < items.len()
        invariant
            k <= items.len(),
            preview_views(found@) == preview_views(old(found)@) + patterns_blocks(
                items@.take(k as int),
            ),
        decreases items.len() - k,
    {
        assert(items@.take(k + 1).drop_last() =~= items@.take(k as int));
        assert(items@.take(k + 1).last() == items@[k as int]);
        collect_pattern(&items[k], found);
        assert(preview_views(found@) =~= preview_views(old(found)@) + patterns_blocks(
            items@.take(k + 1),
        ));
        k = k + 1;
    }
    assert(items@.take(k as int) =~= items@);
}

fn collect_guards(items: &Vec<SyntaxGuardClause>, found: &mut Vec<RecursiveDoPreview>)
    ensures
        preview_views(final(found)@) == preview_views(old(found)@) + guards_blocks(items@),
    decreases items,
{
    let mut k: usize = 0;
    assert(items@.take(0) =~= Seq::empty());
    assert(preview_views(found@) =~= preview_views(old(found)@) + guards_blocks(items@.take(0)));
    while k < items.len()
        invariant
            k <= items.len(),
            preview_views(found@) == preview_views(old(found)@) + guards_blocks(
                items@.take(k as int),
            ),
        decreases items.len() - k,
    {
        assert(items@.take(k + 1).drop_last() =~= items@.take(k as int));
        assert(items@.take(k + 1).last() == items@[k as int]);
        collect_guard(&items[k], found);
        assert(preview_views(found@) =~= preview_views(old(found)@) + guards_blocks(
            items@.take(k + 1),
        ));
        k = k + 1;
    }
    assert(items@.take(k as int) =~= items@);
}

fn collect_steps(items: &Vec<DoStep>, found: &mut Vec<RecursiveDoPreview>)
    ensures
        preview_views(final(found)@) == preview_views(old(found)@) + steps_blocks(items@),
    decreases items,
{
    let mut k: usize = 0;
    assert(items@.take(0) =~= Seq::empty());
    assert(preview_views(found@) =~= preview_views(old(found)@) + steps_blocks(items@.take(0)));
    while k < items.len()
        invariant
            k <= items.len(),
            preview_views(found@) == preview_views(old(found)@) + steps_blocks(
                items@.take(k as int),
            ),
        decreases items.len() - k,
    {
        assert(items@.take(k + 1).drop_last() =~= items@.take(k as int));
        assert(items@.take(k + 1).last() == items@[k as int]);
        collect_step(&items[k], found);
        assert(preview_views(found@) =~= preview_views(old(found)@) + steps_blocks(
            items@.take(k + 1),
        ));
        k = k + 1;
    }
    assert(items@.take(k as int) =~= items@);
}

fn collect_when_arms(items: &Vec<WhenArm>, found: &mut Vec<RecursiveDoPreview>)
    ensures
        preview_views(final(found)@) == preview_views(old(found)@) + when_arms_blocks(items@),
    decreases items,
{
    let mut k: usize = 0;
    assert(items@.take(0) =~= Seq::empty());
    assert(preview_views(found@) =~= preview_views(old(found)@) + when_arms_blocks(items@.take(0)));
    while k < items.len()
        invariant
            k <= items.len(),
            preview_views(found@) == preview_views(old(found)@) + when_arms_blocks(
                items@.take(k as int),
            ),
        decreases items.len() - k,
    {
        assert(items@.take(k + 1).drop_last() =~= items@.take(k as int));
        assert(items@.take(k + 1).last() == items@[k as int]);
        collect_when_arm(&items[k], found);
        assert(preview_views(found@) =~= preview_views(old(found)@) + when_arms_blocks(
            items@.take(k + 1),
        ));
        k = k + 1;
    }
    assert(items@.take(k as int) =~= items@);
}

fn collect_arms(items: &Vec<MatchArm>, found: &mut Vec<RecursiveDoPreview>)
    ensures
        preview_views(final(found)@) == preview_views(old(found)@) + arms_blocks(items@),
    decreases items,
{
    let mut k: usize = 0;
    assert(items@.take(0) =~= Seq::empty());
    assert(preview_views(found@) =~= preview_views(old(found)@) + arms_blocks(items@.take(0)));
    while k < items.len()
        invariant
            k <= items.len(),
            preview_views(found@) == preview_views(old(found)@) + arms_blocks(
                items@.take(k as int),
            ),
        decreases items.len() - k,
    {
        assert(items@.take(k + 1).drop_last() =~= items@.take(k as int));
        assert(items@.take(k + 1).last() == items@[k as int]);
        collect_arm(&items[k], found);
        assert(preview_views(found@) =~= preview_views(old(found)@) + arms_blocks(
            items@.take(k + 1),
        ));
        k = k + 1;
    }
    assert(items@.take(k as int) =~= items@);
}

fn collect_entries(items: &Vec<SyntaxDictPatternEntry>, found: &mut Vec<RecursiveDoPreview>)
    ensures
        preview_views(final(found)@) == preview_views(old(found)@) + entries_blocks(items@),
    decreases items,
{
    let mut k: usize = 0;
    assert(items@.take(0) =~= Seq::empty());
    assert(preview_views(found@) =~= preview_views(old(found)@) + entries_blocks(items@.take(0)));
    while k < items.len()
        invariant
            k <= items.len(),
            preview_views(found@) == preview_views(old(found)@) + entries_blocks(
                items@.take(k as int),
            ),
        decreases items.len() - k,
    {
        assert(items@.take(k + 1).drop_last() =~= items@.take(k as int));
        assert(items@.take(k + 1).last() == items@[k as int]);
        collect_entry(&items[k], found);
        assert(preview_views(found@) =~= preview_views(old(found)@) + entries_blocks(
            items@.take(k + 1),
        ));
        k = k + 1;
    }
    assert(items@.take(k as int) =~= items@);
}

fn collect_declarations(items: &Vec<Declaration>, found: &mut Vec<RecursiveDoPreview>)
    ensures
        preview_views(final(found)@) == preview_views(old(found)@) + declarations_blocks(items@),
    decreases items,
{
    let mut k: usize = 0;
    assert(items@.take(0) =~= Seq::empty());
    assert(preview_views(found@) =~= preview_views(old(found)@) + declarations_blocks(items@.take(0)));
    while k < items.len()
        invariant
            k <= items.len(),
            preview_views(found@) == preview_views(old(found)@) + declarations_blocks(
                items@.take(k as int),
            ),
        decreases items.len() - k,
    {
        assert(items@.take(k + 1).drop_last() =~= items@.take(k as int));
        assert(items@.take(k + 1).last() == items@[k as int]);
        collect_declaration(&items[k], found);
        assert(preview_views(found@) =~= preview_views(old(found)@) + declarations_blocks(
            items@.take(k + 1),
        ));
        k = k + 1;
    }
    assert(items@.take(k as int) =~= items@);
}

/// The previews of all `do` blocks of declarations, in source order, each block
/// before those within it.
pub fn block_previews(declarations: &Vec<Declaration>) -> (previews: Vec<RecursiveDoPreview>)
    ensures
        preview_views(previews@) == declarations_blocks(declarations@),
{
    let mut previews: Vec<RecursiveDoPreview> = Vec::new();
    assert(preview_views(previews@) =~= Seq::empty());
    collect_declarations(declarations, &mut previews);
    assert(preview_views(previews@) =~= declarations_blocks(declarations@));
    previews
}

} // verus!
