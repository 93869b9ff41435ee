//! Warnings about locals that a definition introduces and never uses.

use vstd::prelude::*;
use vstd::string::StringExecFns;
use crate::ast;
use crate::ast::{
    DoExpr, DoStep, DoStepKind, MatchArm, MatchOutcome, ObjectBodyDefinition,
    ObjectBodyDefinitionKind, SyntaxDictPatternEntry, SyntaxExpr, SyntaxGuardClause, SyntaxKeyExpr,
    SyntaxOperator, SyntaxPattern, SyntaxPatternKind, WhenArm,
};
use crate::diagnostic;
use crate::diagnostic::{report, Diagnostic, DiagnosticView};
use crate::names;
use crate::names::{copy_locals, find_binding, local_name_metadata, push_local, LocalName, LocalNameView};
use crate::recursive_preview::{
    plan_views, promotions, report_promotions, BlockPlan, PlanView,
};
use crate::text;
use crate::text::same_text;

verus! {

/// A scope that a branch or a `do` block extends, with the abstract names
/// that its later captures may fulfil.
pub struct Env {
    pub scope: Seq<LocalNameView>,
    pub unresolved: Seq<Seq<char>>,
}

/// The last position of `name`, or `-1`.
pub open spec fn last_index(names: Seq<Seq<char>>, name: Option<Seq<char>>) -> int
    decreases names.len(),
{
    if names.len() == 0 {
        -1
    } else if Some(names.last()) == name {
        names.len() - 1
    } else {
        last_index(names.drop_last(), name)
    }
}

/// A scope without abstract names.
pub open spec fn branch(scope: Seq<LocalNameView>) -> Env {
    Env { scope, unresolved: Seq::empty() }
}

/// The scope after a capture: the capture fulfils the innermost abstract
/// name that it spells, or introduces a new local.
pub open spec fn bind(env: Env, raw: Seq<char>) -> Env {
    let k = last_index(env.unresolved, names::canonical_name(raw));
    if k >= 0 {
        Env { scope: env.scope, unresolved: env.unresolved.remove(k) }
    } else {
        Env { scope: env.scope.push(names::local_name(raw)), unresolved: env.unresolved }
    }
}

/// The scope after a list of captures.
pub open spec fn bind_all(env: Env, raws: Seq<Seq<char>>) -> Env
    decreases raws.len(),
{
    if raws.len() == 0 {
        env
    } else {
        bind(bind_all(env, raws.drop_last()), raws.last())
    }
}

/// The scope after the captures among a list of pattern events.
pub open spec fn enter(env: Env, events: Seq<ast::ScopeEvent>) -> Env {
    bind_all(env, ast::captured(events))
}

/// The scope after an abstract declaration.
pub open spec fn declare(env: Env, raw: Seq<char>) -> Env {
    Env {
        scope: env.scope.push(names::local_name(raw)),
        unresolved: match names::canonical_name(raw) {
            Some(name) => env.unresolved.push(name),
            None => env.unresolved,
        },
    }
}

/// The scope after a list of abstract declarations.
pub open spec fn declare_all(env: Env, raws: Seq<Seq<char>>) -> Env
    decreases raws.len(),
{
    if raws.len() == 0 {
        env
    } else {
        declare(declare_all(env, raws.drop_last()), raws.last())
    }
}

/// The scope after one step of a `do` block.
pub open spec fn step_env(env: Env, step: DoStep) -> Env {
    match step.kind {
        DoStepKind::Abstract(raws) => declare_all(env, text::texts(raws@)),
        DoStepKind::Bind { pattern, operation } => enter(env, ast::pattern_events(pattern)),
        DoStepKind::ValueBind { pattern, value } => enter(env, ast::pattern_events(pattern)),
        DoStepKind::Then(_) => env,
    }
}

/// The scope after the steps of a `do` block.
pub open spec fn do_env(env: Env, steps: Seq<DoStep>) -> Env
    decreases steps.len(),
{
    if steps.len() == 0 {
        env
    } else {
        step_env(do_env(env, steps.drop_last()), steps.last())
    }
}

/// The lines on which the steps of a `do` block introduce their locals.
pub open spec fn do_lines(env: Env, steps: Seq<DoStep>) -> Seq<nat>
    decreases steps.len(),
{
    if steps.len() == 0 {
        Seq::new(env.scope.len(), |i: int| 0nat)
    } else {
        let before = do_lines(env, steps.drop_last());
        let line = steps.last().line as nat;
        let size = do_env(env, steps).scope.len();
        before + Seq::new((size - before.len()) as nat, |i: int| line)
    }
}

/// The spellings of the names that a `let` introduces.
pub open spec fn binding_names(bindings: Seq<(String, SyntaxExpr)>) -> Seq<Seq<char>> {
    bindings.map_values(|b: (String, SyntaxExpr)| b.0@)
}

/// `true` when an expression refers to local `i` of its scope.
pub open spec fn uses(expr: SyntaxExpr, scope: Seq<LocalNameView>, i: int) -> bool
    decreases expr,
{
    match expr {
        SyntaxExpr::Unit => false,
        SyntaxExpr::Embedded(_) => false,
        SyntaxExpr::Number(_) => false,
        SyntaxExpr::Text(_) => false,
        SyntaxExpr::Atom(_) => false,
        SyntaxExpr::Effect(_) => false,
        SyntaxExpr::PriorName(_) => false,
        SyntaxExpr::Name(name) => names::binding_of(scope, name@) == i,
        SyntaxExpr::Escape(_, inner) => uses(*inner, scope, i),
        SyntaxExpr::Access(base, parts) => uses(*base, scope, i) || keys_use(parts@, scope, i),
        SyntaxExpr::Object(object) => {
            ||| (match object.name {
                Some(name) => uses(*name, scope, i),
                None => false,
            })
            ||| exprs_use(object.deps@, scope, i)
            ||| body_uses(object.body@, scope, i)
        },
        SyntaxExpr::With { base, alias, body } => {
            uses(*base, scope, i) || body_uses(body@, scope, i)
        },
        SyntaxExpr::Using { namespace, body } => {
            uses(*namespace, scope, i) || uses(*body, scope, i)
        },
        SyntaxExpr::PathDict(path, value) => keys_use(path@, scope, i) || uses(*value, scope, i),
        SyntaxExpr::TaggedConstructor(path) => keys_use(path@, scope, i),
        SyntaxExpr::DictUnion(items) => exprs_use(items@, scope, i),
        SyntaxExpr::List(items) => exprs_use(items@, scope, i),
        SyntaxExpr::Tuple(items) => exprs_use(items@, scope, i),
        SyntaxExpr::Lambda(params, body) => {
            uses(*body, scope + names::named(text::texts(params@)), i)
        },
        SyntaxExpr::Do(block) => {
            let inner = do_env(branch(scope), block.steps@);
            ||| steps_use(block.steps@, branch(scope), i)
            ||| uses(*block.result, inner.scope, i)
        },
        SyntaxExpr::If(choice) => {
            let inner = enter(branch(scope), ast::guards_events(choice.guards@));
            ||| guards_use(choice.guards@, branch(scope), i)
            ||| uses(*choice.then_result, inner.scope, i)
            ||| uses(*choice.else_result, scope, i)
        },
        SyntaxExpr::Match(choice) => {
            uses(*choice.subject, scope, i) || arms_use(choice.arms@, scope, i)
        },
        SyntaxExpr::MatchWhen(choice) => when_arms_use(choice.arms@, scope, i),
        SyntaxExpr::Let { bindings, body } => {
            ||| bindings_use(bindings@, scope, i)
            ||| uses(*body, scope + names::named(binding_names(bindings@)), i)
        },
        SyntaxExpr::OperatorSection { operator, left, right } => {
            ||| (match left {
                Some(left) => uses(*left, scope, i),
                None => false,
            })
            ||| (match right {
                Some(right) => uses(*right, scope, i),
                None => false,
            })
        },
        SyntaxExpr::ComparisonChain { first, rest } => {
            uses(*first, scope, i) || links_use(rest@, scope, i)
        },
        SyntaxExpr::OperatorApply { operator, left, right } => {
            uses(*left, scope, i) || uses(*right, scope, i)
        },
        SyntaxExpr::Apply(left, right) => uses(*left, scope, i) || uses(*right, scope, i),
        SyntaxExpr::Multiply(left, right) => uses(*left, scope, i) || uses(*right, scope, i),
        SyntaxExpr::Divide(left, right) => uses(*left, scope, i) || uses(*right, scope, i),
        SyntaxExpr::Add(left, right) => uses(*left, scope, i) || uses(*right, scope, i),
        SyntaxExpr::Subtract(left, right) => uses(*left, scope, i) || uses(*right, scope, i),
        SyntaxExpr::Append(left, right) => uses(*left, scope, i) || uses(*right, scope, i),
    }
}

pub open spec fn key_uses(key: SyntaxKeyExpr, scope: Seq<LocalNameView>, i: int) -> bool
    decreases key,
{
    match key {
        SyntaxKeyExpr::Atom(_) => false,
        SyntaxKeyExpr::Index(expr) => uses(*expr, scope, i),
        SyntaxKeyExpr::PathIndex(expr) => uses(*expr, scope, i),
    }
}

pub open spec fn keys_use(items: Seq<SyntaxKeyExpr>, scope: Seq<LocalNameView>, i: int) -> bool
    decreases items,
{
    if items.len() == 0 {
        false
    } else {
        keys_use(items.drop_last(), scope, i) || key_uses(items.last(), scope, i)
    }
}

pub open spec fn exprs_use(items: Seq<SyntaxExpr>, scope: Seq<LocalNameView>, i: int) -> bool
    decreases items,
{
    if items.len() == 0 {
        false
    } else {
        exprs_use(items.drop_last(), scope, i) || uses(items.last(), scope, i)
    }
}

pub open spec fn bindings_use(
    items: Seq<(String, SyntaxExpr)>,
    scope: Seq<LocalNameView>,
    i: int,
) -> bool
    decreases items,
{
    if items.len() == 0 {
        false
    } else {
        bindings_use(items.drop_last(), scope, i) || uses(items.last().1, scope, i)
    }
}

pub open spec fn links_use(
    items: Seq<(SyntaxOperator, SyntaxExpr)>,
    scope: Seq<LocalNameView>,
    i: int,
) -> bool
    decreases items,
{
    if items.len() == 0 {
        false
    } else {
        links_use(items.drop_last(), scope, i) || uses(items.last().1, scope, i)
    }
}

/// `true` when a member of an object body refers to local `i`.
pub open spec fn item_uses(
    item: ObjectBodyDefinition,
    scope: Seq<LocalNameView>,
    i: int,
) -> bool
    decreases item,
{
    match item.kind {
        ObjectBodyDefinitionKind::Definition(definition) => match definition.expr {
            Some(expr) => uses(expr, scope, i),
            None => false,
        },
        ObjectBodyDefinitionKind::Object(object) => {
            exprs_use(object.deps@, scope, i) || body_uses(object.body@, scope, i)
        },
        ObjectBodyDefinitionKind::Extend(extend) => body_uses(extend.body@, scope, i),
    }
}

pub open spec fn body_uses(
    items: Seq<ObjectBodyDefinition>,
    scope: Seq<LocalNameView>,
    i: int,
) -> bool
    decreases items,
{
    if items.len() == 0 {
        false
    } else {
        body_uses(items.drop_last(), scope, i) || item_uses(items.last(), scope, i)
    }
}

/// `true` when an expression of a pattern refers to local `i` of the scope
/// that matching has established by then.
pub open spec fn pattern_uses(pattern: SyntaxPattern, env: Env, i: int) -> bool
    decreases pattern,
{
    match pattern.kind {
        SyntaxPatternKind::Capture(_) => false,
        SyntaxPatternKind::Wildcard => false,
        SyntaxPatternKind::Literal(_) => false,
        SyntaxPatternKind::List { prefix, middle, suffix } => {
            let after_prefix = enter(env, ast::patterns_events(prefix@));
            let after_middle = match middle {
                Some(inner) => enter(after_prefix, ast::pattern_events(*inner)),
                None => after_prefix,
            };
            ||| patterns_use(prefix@, env, i)
            ||| (match middle {
                Some(inner) => pattern_uses(*inner, after_prefix, i),
                None => false,
            })
            ||| patterns_use(suffix@, after_middle, i)
        },
        SyntaxPatternKind::Dict { entries, remainder } => {
            ||| entries_use(entries@, env, i)
            ||| (match remainder {
                Some(inner) => pattern_uses(*inner, enter(env, ast::entries_events(entries@)), i),
                None => false,
            })
        },
        SyntaxPatternKind::QuotedPath(path) => {
            i < env.scope.len() && keys_use(path@, env.scope, i)
        },
        SyntaxPatternKind::Group(inner) => pattern_uses(*inner, env, i),
        SyntaxPatternKind::As(left, right) => {
            ||| pattern_uses(*left, env, i)
            ||| pattern_uses(*right, enter(env, ast::pattern_events(*left)), i)
        },
        SyntaxPatternKind::View { view, pattern } => {
            ||| i < env.scope.len() && uses(*view, env.scope, i)
            ||| pattern_uses(*pattern, env, i)
        },
        SyntaxPatternKind::Predicate { predicate, pattern } => {
            ||| i < env.scope.len() && uses(*predicate, env.scope, i)
            ||| pattern_uses(*pattern, env, i)
        },
        SyntaxPatternKind::Guarded { pattern, guards } => {
            ||| pattern_uses(*pattern, env, i)
            ||| guards_use(guards@, enter(env, ast::pattern_events(*pattern)), i)
        },
    }
}

pub open spec fn patterns_use(items: Seq<SyntaxPattern>, env: Env, i: int) -> bool
    decreases items,
{
    if items.len() == 0 {
        false
    } else {
        patterns_use(items.drop_last(), env, i) || pattern_uses(
            items.last(),
            enter(env, ast::patterns_events(items.drop_last())),
            i,
        )
    }
}

pub open spec fn entries_use(items: Seq<SyntaxDictPatternEntry>, env: Env, i: int) -> bool
    decreases items,
{
    if items.len() == 0 {
        false
    } else {
        let before = enter(env, ast::entries_events(items.drop_last()));
        ||| entries_use(items.drop_last(), env, i)
        ||| i < before.scope.len() && keys_use(items.last().path@, before.scope, i)
        ||| pattern_uses(items.last().pattern, before, i)
    }
}

/// `true` when a guard clause refers to local `i` of its scope.
pub open spec fn guard_uses(guard: SyntaxGuardClause, env: Env, i: int) -> bool
    decreases guard,
{
    match guard {
        SyntaxGuardClause::Pass => false,
        SyntaxGuardClause::Effect(expr) => i < env.scope.len() && uses(expr, env.scope, i),
        SyntaxGuardClause::EffectBind { pattern, operation } => {
            ||| i < env.scope.len() && uses(operation, env.scope, i)
            ||| pattern_uses(pattern, env, i)
        },
        SyntaxGuardClause::ValueBind { pattern, value } => {
            ||| i < env.scope.len() && uses(value, env.scope, i)
            ||| pattern_uses(pattern, env, i)
        },
    }
}

pub open spec fn guards_use(items: Seq<SyntaxGuardClause>, env: Env, i: int) -> bool
    decreases items,
{
    if items.len() == 0 {
        false
    } else {
        guards_use(items.drop_last(), env, i) || guard_uses(
            items.last(),
            enter(env, ast::guards_events(items.drop_last())),
            i,
        )
    }
}

/// `true` when a step of a `do` block refers to local `i` of its scope.
pub open spec fn step_uses(step: DoStep, env: Env, i: int) -> bool
    decreases step,
{
    match step.kind {
        DoStepKind::Abstract(_) => false,
        DoStepKind::Bind { pattern, operation } => {
            ||| i < env.scope.len() && uses(operation, env.scope, i)
            ||| pattern_uses(pattern, env, i)
        },
        DoStepKind::ValueBind { pattern, value } => {
            ||| i < env.scope.len() && uses(value, env.scope, i)
            ||| pattern_uses(pattern, env, i)
        },
        DoStepKind::Then(expr) => i < env.scope.len() && uses(expr, env.scope, i),
    }
}

pub open spec fn steps_use(items: Seq<DoStep>, env: Env, i: int) -> bool
    decreases items,
{
    if items.len() == 0 {
        false
    } else {
        steps_use(items.drop_last(), env, i) || step_uses(
            items.last(),
            do_env(env, items.drop_last()),
            i,
        )
    }
}

/// `true` when an outcome refers to local `i`.
pub open spec fn outcome_uses(
    outcome: MatchOutcome,
    scope: Seq<LocalNameView>,
    i: int,
) -> bool
    decreases outcome,
{
    match outcome {
        MatchOutcome::Result { line, mode, expression } => uses(expression, scope, i),
        MatchOutcome::Nested(arms) => when_arms_use(arms@, scope, i),
    }
}

/// `true` when a guarded arm refers to local `i` of its scope.
pub open spec fn when_arm_uses(arm: WhenArm, scope: Seq<LocalNameView>, i: int) -> bool
    decreases arm,
{
    ||| guards_use(arm.guards@, branch(scope), i)
    ||| outcome_uses(
        arm.outcome,
        enter(branch(scope), ast::guards_events(arm.guards@)).scope,
        i,
    )
}

pub open spec fn when_arms_use(items: Seq<WhenArm>, scope: Seq<LocalNameView>, i: int) -> bool
    decreases items,
{
    if items.len() == 0 {
        false
    } else {
        when_arms_use(items.drop_last(), scope, i) || when_arm_uses(items.last(), scope, i)
    }
}

/// `true` when a match arm refers to local `i` of its scope.
pub open spec fn arm_uses(arm: MatchArm, scope: Seq<LocalNameView>, i: int) -> bool
    decreases arm,
{
    let matched = enter(branch(scope), ast::pattern_events(arm.pattern));
    ||| pattern_uses(arm.pattern, branch(scope), i)
    ||| guards_use(arm.guards@, matched, i)
    ||| outcome_uses(arm.outcome, enter(matched, ast::guards_events(arm.guards@)).scope, i)
}

pub open spec fn arms_use(items: Seq<MatchArm>, scope: Seq<LocalNameView>, i: int) -> bool
    decreases items,
{
    if items.len() == 0 {
        false
    } else {
        arms_use(items.drop_last(), scope, i) || arm_uses(items.last(), scope, i)
    }
}

/// `true` when an expression refers to the prior value of `alias`.
pub open spec fn prior(expr: SyntaxExpr, alias: Option<Seq<char>>) -> bool
    decreases expr,
{
    match expr {
        SyntaxExpr::Unit => false,
        SyntaxExpr::Embedded(_) => false,
        SyntaxExpr::Number(_) => false,
        SyntaxExpr::Text(_) => false,
        SyntaxExpr::Atom(_) => false,
        SyntaxExpr::Effect(_) => false,
        SyntaxExpr::Name(_) => false,
        SyntaxExpr::PriorName(name) => Some(name@) == alias,
        SyntaxExpr::Escape(_, inner) => prior(*inner, alias),
        SyntaxExpr::Access(base, parts) => prior(*base, alias) || keys_prior(parts@, alias),
        SyntaxExpr::Object(object) => {
            ||| (match object.name {
                Some(name) => prior(*name, alias),
                None => false,
            })
            ||| exprs_prior(object.deps@, alias)
            ||| body_prior(object.body@, alias)
        },
        SyntaxExpr::With { base, alias: _, body } => prior(*base, alias) || body_prior(body@, alias),
        SyntaxExpr::Using { namespace, body } => prior(*namespace, alias) || prior(*body, alias),
        SyntaxExpr::PathDict(path, value) => keys_prior(path@, alias) || prior(*value, alias),
        SyntaxExpr::TaggedConstructor(path) => keys_prior(path@, alias),
        SyntaxExpr::DictUnion(items) => exprs_prior(items@, alias),
        SyntaxExpr::List(items) => exprs_prior(items@, alias),
        SyntaxExpr::Tuple(items) => exprs_prior(items@, alias),
        SyntaxExpr::Lambda(_, body) => prior(*body, alias),
        SyntaxExpr::Do(block) => steps_prior(block.steps@, alias) || prior(*block.result, alias),
        SyntaxExpr::If(choice) => {
            ||| guards_prior(choice.guards@, alias)
            ||| prior(*choice.then_result, alias)
            ||| prior(*choice.else_result, alias)
        },
        SyntaxExpr::Match(choice) => {
            prior(*choice.subject, alias) || arms_prior(choice.arms@, alias)
        },
        SyntaxExpr::MatchWhen(choice) => when_arms_prior(choice.arms@, alias),
        SyntaxExpr::Let { bindings, body } => {
            bindings_prior(bindings@, alias) || prior(*body, alias)
        },
        SyntaxExpr::OperatorSection { operator, left, right } => {
            ||| (match left {
                Some(left) => prior(*left, alias),
                None => false,
            })
            ||| (match right {
                Some(right) => prior(*right, alias),
                None => false,
            })
        },
        SyntaxExpr::ComparisonChain { first, rest } => {
            prior(*first, alias) || links_prior(rest@, alias)
        },
        SyntaxExpr::OperatorApply { operator, left, right } => {
            prior(*left, alias) || prior(*right, alias)
        },
        SyntaxExpr::Apply(left, right) => prior(*left, alias) || prior(*right, alias),
        SyntaxExpr::Multiply(left, right) => prior(*left, alias) || prior(*right, alias),
        SyntaxExpr::Divide(left, right) => prior(*left, alias) || prior(*right, alias),
        SyntaxExpr::Add(left, right) => prior(*left, alias) || prior(*right, alias),
        SyntaxExpr::Subtract(left, right) => prior(*left, alias) || prior(*right, alias),
        SyntaxExpr::Append(left, right) => prior(*left, alias) || prior(*right, alias),
    }
}

pub open spec fn key_prior(key: SyntaxKeyExpr, alias: Option<Seq<char>>) -> bool
    decreases key,
{
    match key {
        SyntaxKeyExpr::Atom(_) => false,
        SyntaxKeyExpr::Index(expr) => prior(*expr, alias),
        SyntaxKeyExpr::PathIndex(expr) => prior(*expr, alias),
    }
}

pub open spec fn keys_prior(items: Seq<SyntaxKeyExpr>, alias: Option<Seq<char>>) -> bool
    decreases items,
{
    if items.len() == 0 {
        false
    } else {
        keys_prior(items.drop_last(), alias) || key_prior(items.last(), alias)
    }
}

pub open spec fn exprs_prior(items: Seq<SyntaxExpr>, alias: Option<Seq<char>>) -> bool
    decreases items,
{
    if items.len() == 0 {
        false
    } else {
        exprs_prior(items.drop_last(), alias) || prior(items.last(), alias)
    }
}

pub open spec fn bindings_prior(items: Seq<(String, SyntaxExpr)>, alias: Option<Seq<char>>) -> bool
    decreases items,
{
    if items.len() == 0 {
        false
    } else {
        bindings_prior(items.drop_last(), alias) || prior(items.last().1, alias)
    }
}

pub open spec fn links_prior(
    items: Seq<(SyntaxOperator, SyntaxExpr)>,
    alias: Option<Seq<char>>,
) -> bool
    decreases items,
{
    if items.len() == 0 {
        false
    } else {
        links_prior(items.drop_last(), alias) || prior(items.last().1, alias)
    }
}

pub open spec fn body_prior(items: Seq<ObjectBodyDefinition>, alias: Option<Seq<char>>) -> bool
    decreases items,
{
    if items.len() == 0 {
        false
    } else {
        body_prior(items.drop_last(), alias) || item_prior(items.last(), alias)
    }
}

pub open spec fn patterns_prior(items: Seq<SyntaxPattern>, alias: Option<Seq<char>>) -> bool
    decreases items,
{
    if items.len() == 0 {
        false
    } else {
        patterns_prior(items.drop_last(), alias) || pattern_prior(items.last(), alias)
    }
}

pub open spec fn entries_prior(items: Seq<SyntaxDictPatternEntry>, alias: Option<Seq<char>>) -> bool
    decreases items,
{
    if items.len() == 0 {
        false
    } else {
        entries_prior(items.drop_last(), alias) || keys_prior(items.last().path@, alias) || pattern_prior(
            items.last().pattern,
            alias,
        )
    }
}

pub open spec fn guards_prior(items: Seq<SyntaxGuardClause>, alias: Option<Seq<char>>) -> bool
    decreases items,
{
    if items.len() == 0 {
        false
    } else {
        guards_prior(items.drop_last(), alias) || guard_prior(items.last(), alias)
    }
}

pub open spec fn steps_prior(items: Seq<DoStep>, alias: Option<Seq<char>>) -> bool
    decreases items,
{
    if items.len() == 0 {
        false
    } else {
        steps_prior(items.drop_last(), alias) || step_prior(items.last(), alias)
    }
}

pub open spec fn when_arms_prior(items: Seq<WhenArm>, alias: Option<Seq<char>>) -> bool
    decreases items,
{
    if items.len() == 0 {
        false
    } else {
        when_arms_prior(items.drop_last(), alias) || when_arm_prior(items.last(), alias)
    }
}

pub open spec fn arms_prior(items: Seq<MatchArm>, alias: Option<Seq<char>>) -> bool
    decreases items,
{
    if items.len() == 0 {
        false
    } else {
        arms_prior(items.drop_last(), alias) || arm_prior(items.last(), alias)
    }
}

pub open spec fn item_prior(item: ObjectBodyDefinition, alias: Option<Seq<char>>) -> bool
    decreases item,
{
    match item.kind {
        ObjectBodyDefinitionKind::Definition(definition) => match definition.expr {
            Some(expr) => prior(expr, alias),
            None => false,
        },
        ObjectBodyDefinitionKind::Object(object) => {
            exprs_prior(object.deps@, alias) || body_prior(object.body@, alias)
        },
        ObjectBodyDefinitionKind::Extend(extend) => body_prior(extend.body@, alias),
    }
}

pub open spec fn pattern_prior(pattern: SyntaxPattern, alias: Option<Seq<char>>) -> bool
    decreases pattern,
{
    match pattern.kind {
        SyntaxPatternKind::Capture(_) => false,
        SyntaxPatternKind::Wildcard => false,
        SyntaxPatternKind::Literal(_) => false,
        SyntaxPatternKind::List { prefix, middle, suffix } => {
            ||| patterns_prior(prefix@, alias)
            ||| (match middle {
                Some(inner) => pattern_prior(*inner, alias),
                None => false,
            })
            ||| patterns_prior(suffix@, alias)
        },
        SyntaxPatternKind::Dict { entries, remainder } => {
            ||| entries_prior(entries@, alias)
            ||| (match remainder {
                Some(inner) => pattern_prior(*inner, alias),
                None => false,
            })
        },
        SyntaxPatternKind::QuotedPath(path) => keys_prior(path@, alias),
        SyntaxPatternKind::Group(inner) => pattern_prior(*inner, alias),
        SyntaxPatternKind::As(left, right) => {
            pattern_prior(*left, alias) || pattern_prior(*right, alias)
        },
        SyntaxPatternKind::View { view, pattern } => {
            prior(*view, alias) || pattern_prior(*pattern, alias)
        },
        SyntaxPatternKind::Predicate { predicate, pattern } => {
            prior(*predicate, alias) || pattern_prior(*pattern, alias)
        },
        SyntaxPatternKind::Guarded { pattern, guards } => {
            pattern_prior(*pattern, alias) || guards_prior(guards@, alias)
        },
    }
}

pub open spec fn guard_prior(guard: SyntaxGuardClause, alias: Option<Seq<char>>) -> bool
    decreases guard,
{
    match guard {
        SyntaxGuardClause::Pass => false,
        SyntaxGuardClause::Effect(expr) => prior(expr, alias),
        SyntaxGuardClause::EffectBind { pattern, operation } => {
            prior(operation, alias) || pattern_prior(pattern, alias)
        },
        SyntaxGuardClause::ValueBind { pattern, value } => {
            prior(value, alias) || pattern_prior(pattern, alias)
        },
    }
}

/// Only the operation of a `do` step counts, not its pattern.
pub open spec fn step_prior(step: DoStep, alias: Option<Seq<char>>) -> bool
    decreases step,
{
    match step.kind {
        DoStepKind::Abstract(_) => false,
        DoStepKind::Bind { pattern, operation } => prior(operation, alias),
        DoStepKind::ValueBind { pattern, value } => prior(value, alias),
        DoStepKind::Then(expr) => prior(expr, alias),
    }
}

pub open spec fn outcome_prior(outcome: MatchOutcome, alias: Option<Seq<char>>) -> bool
    decreases outcome,
{
    match outcome {
        MatchOutcome::Result { line, mode, expression } => prior(expression, alias),
        MatchOutcome::Nested(arms) => when_arms_prior(arms@, alias),
    }
}

pub open spec fn when_arm_prior(arm: WhenArm, alias: Option<Seq<char>>) -> bool
    decreases arm,
{
    guards_prior(arm.guards@, alias) || outcome_prior(arm.outcome, alias)
}

pub open spec fn arm_prior(arm: MatchArm, alias: Option<Seq<char>>) -> bool
    decreases arm,
{
    pattern_prior(arm.pattern, alias) || guards_prior(arm.guards@, alias) || outcome_prior(
        arm.outcome,
        alias,
    )
}

/// How an unused local is reported.
pub open spec fn unused_message(raw: Seq<char>) -> Seq<char> {
    "unused local `"@ + raw + "`"@
}

/// The warnings about the locals that `used` does not hold of. Locals without
/// a name, and those that ask for silence, are not reported.
pub open spec fn unused(
    locals: Seq<LocalNameView>,
    used: spec_fn(int) -> bool,
    line: spec_fn(int) -> nat,
) -> Seq<DiagnosticView>
    decreases locals.len(),
{
    if locals.len() == 0 {
        Seq::empty()
    } else {
        let k = locals.len() - 1;
        let local = locals[k];
        let before = unused(locals.drop_last(), used, line);
        if !used(k) && local.canonical is Some && !local.suppress {
            before.push(diagnostic::warning_at(line(k), unused_message(local.raw)))
        } else {
            before
        }
    }
}

/// The warning about an object alias that the object's body never uses.
pub open spec fn alias_name_warnings(
    raw: Seq<char>,
    body: Seq<ObjectBodyDefinition>,
    line: nat,
) -> Seq<DiagnosticView> {
    let local = names::local_name(raw);
    if raw == "self"@ || local.canonical is None || local.suppress {
        Seq::empty()
    } else if body_uses(body, seq![local], 0) || body_prior(body, local.canonical) {
        Seq::empty()
    } else {
        seq![diagnostic::warning_at(line, unused_message(raw))]
    }
}

/// The warning about the alias of an object, if it has one.
pub open spec fn alias_warnings(
    alias: Option<String>,
    body: Seq<ObjectBodyDefinition>,
    line: nat,
) -> Seq<DiagnosticView> {
    match alias {
        None => Seq::empty(),
        Some(raw) => alias_name_warnings(raw@, body, line),
    }
}

/// The unused-local warnings of an expression on `line`, in source order.
pub open spec fn warnings(expr: SyntaxExpr, line: nat, plans: Seq<PlanView>) -> Seq<DiagnosticView>
    decreases expr,
{
    match expr {
        SyntaxExpr::Unit => Seq::empty(),
        SyntaxExpr::Embedded(_) => Seq::empty(),
        SyntaxExpr::Number(_) => Seq::empty(),
        SyntaxExpr::Text(_) => Seq::empty(),
        SyntaxExpr::Atom(_) => Seq::empty(),
        SyntaxExpr::Effect(_) => Seq::empty(),
        SyntaxExpr::Name(_) => Seq::empty(),
        SyntaxExpr::PriorName(_) => Seq::empty(),
        SyntaxExpr::Escape(_, inner) => warnings(*inner, line, plans),
        SyntaxExpr::Access(base, parts) => warnings(*base, line, plans)
            + keys_warnings(parts@, line, plans),
        SyntaxExpr::Object(object) => {
            (match object.name {
                Some(name) => warnings(*name, line, plans),
                None => Seq::empty(),
            }) + exprs_warnings(object.deps@, line, plans) + alias_warnings(
                object.alias,
                object.body@,
                line,
            ) + body_warnings(object.body@, plans)
        },
        SyntaxExpr::With { base, alias, body } => {
            warnings(*base, line, plans) + alias_warnings(alias, body@, line) + body_warnings(body@, plans)
        },
        SyntaxExpr::Using { namespace, body } => warnings(*namespace, line, plans)
            + warnings(*body, line, plans),
        SyntaxExpr::PathDict(path, value) => keys_warnings(path@, line, plans)
            + warnings(*value, line, plans),
        SyntaxExpr::TaggedConstructor(path) => keys_warnings(path@, line, plans),
        SyntaxExpr::DictUnion(items) => exprs_warnings(items@, line, plans),
        SyntaxExpr::List(items) => exprs_warnings(items@, line, plans),
        SyntaxExpr::Tuple(items) => exprs_warnings(items@, line, plans),
        SyntaxExpr::Lambda(params, body) => {
            let locals = names::named(text::texts(params@));
            unused(locals, |k: int| uses(*body, locals, k), |k: int| line) + warnings(*body, line, plans)
        },
        SyntaxExpr::Do(block) => do_warnings(block, plans),
        SyntaxExpr::If(choice) => {
            let inner = enter(branch(Seq::empty()), ast::guards_events(choice.guards@)).scope;
            guards_warnings(choice.guards@, line, plans) + warnings(*choice.then_result, line, plans) + unused(
                inner,
                |k: int|
                    guards_use(choice.guards@, branch(Seq::empty()), k) || uses(
                        *choice.then_result,
                        inner,
                        k,
                    ),
                |k: int| line,
            ) + warnings(*choice.else_result, line, plans)
        },
        SyntaxExpr::Match(choice) => {
            warnings(*choice.subject, line, plans) + arms_warnings(choice.arms@, plans)
        },
        SyntaxExpr::MatchWhen(choice) => when_arms_warnings(choice.arms@, plans),
        SyntaxExpr::Let { bindings, body } => {
            let locals = names::named(binding_names(bindings@));
            unused(locals, |k: int| uses(*body, locals, k), |k: int| line) + bindings_warnings(
                bindings@,
                line,
                plans,
            ) + warnings(*body, line, plans)
        },
        SyntaxExpr::OperatorSection { operator, left, right } => {
            (match left {
                Some(left) => warnings(*left, line, plans),
                None => Seq::empty(),
            }) + (match right {
                Some(right) => warnings(*right, line, plans),
                None => Seq::empty(),
            })
        },
        SyntaxExpr::ComparisonChain { first, rest } => {
            warnings(*first, line, plans) + links_warnings(rest@, line, plans)
        },
        SyntaxExpr::OperatorApply { operator, left, right } => {
            warnings(*left, line, plans) + warnings(*right, line, plans)
        },
        SyntaxExpr::Apply(left, right) => warnings(*left, line, plans)
            + warnings(*right, line, plans),
        SyntaxExpr::Multiply(left, right) => warnings(*left, line, plans)
            + warnings(*right, line, plans),
        SyntaxExpr::Divide(left, right) => warnings(*left, line, plans)
            + warnings(*right, line, plans),
        SyntaxExpr::Add(left, right) => warnings(*left, line, plans)
            + warnings(*right, line, plans),
        SyntaxExpr::Subtract(left, right) => warnings(*left, line, plans)
            + warnings(*right, line, plans),
        SyntaxExpr::Append(left, right) => warnings(*left, line, plans)
            + warnings(*right, line, plans),
    }
}

/// The warnings of a `do` block: those about the promotion of its abstract
/// names, which its plan gives, those of its steps and result, then those about
/// its own locals, each on the line of the step that introduces it.
pub open spec fn do_warnings(block: DoExpr, plans: Seq<PlanView>) -> Seq<DiagnosticView>
    decreases block,
{
    let start = branch(Seq::empty());
    let inner = do_env(start, block.steps@).scope;
    let lines = do_lines(start, block.steps@);
    promotions(plans, block.steps@) + steps_warnings(block.steps@, plans) + warnings(
        *block.result,
        block.result_line as nat,
        plans,
    ) + unused(
        inner,
        |k: int| steps_use(block.steps@, start, k) || uses(*block.result, inner, k),
        |k: int| lines[k],
    )
}

pub open spec fn key_warnings(
    key: SyntaxKeyExpr,
    line: nat,
    plans: Seq<PlanView>,
) -> Seq<DiagnosticView>
    decreases key,
{
    match key {
        SyntaxKeyExpr::Atom(_) => Seq::empty(),
        SyntaxKeyExpr::Index(expr) => warnings(*expr, line, plans),
        SyntaxKeyExpr::PathIndex(expr) => warnings(*expr, line, plans),
    }
}

pub open spec fn keys_warnings(
    items: Seq<SyntaxKeyExpr>,
    line: nat,
    plans: Seq<PlanView>,
) -> Seq<DiagnosticView>
    decreases items,
{
    if items.len() == 0 {
        Seq::empty()
    } else {
        keys_warnings(items.drop_last(), line, plans) + key_warnings(items.last(), line, plans)
    }
}

pub open spec fn exprs_warnings(
    items: Seq<SyntaxExpr>,
    line: nat,
    plans: Seq<PlanView>,
) -> Seq<DiagnosticView>
    decreases items,
{
    if items.len() == 0 {
        Seq::empty()
    } else {
        exprs_warnings(items.drop_last(), line, plans) + warnings(items.last(), line, plans)
    }
}

pub open spec fn bindings_warnings(
    items: Seq<(String, SyntaxExpr)>,
    line: nat,
    plans: Seq<PlanView>,
) -> Seq<DiagnosticView>
    decreases items,
{
    if items.len() == 0 {
        Seq::empty()
    } else {
        bindings_warnings(items.drop_last(), line, plans) + warnings(items.last().1, line, plans)
    }
}

pub open spec fn links_warnings(
    items: Seq<(SyntaxOperator, SyntaxExpr)>,
    line: nat,
    plans: Seq<PlanView>,
) -> Seq<DiagnosticView>
    decreases items,
{
    if items.len() == 0 {
        Seq::empty()
    } else {
        links_warnings(items.drop_last(), line, plans) + warnings(items.last().1, line, plans)
    }
}

pub open spec fn body_warnings(
    items: Seq<ObjectBodyDefinition>,
    plans: Seq<PlanView>,
) -> Seq<DiagnosticView>
    decreases items,
{
    if items.len() == 0 {
        Seq::empty()
    } else {
        body_warnings(items.drop_last(), plans) + item_warnings(items.last(), plans)
    }
}

pub open spec fn patterns_warnings(
    items: Seq<SyntaxPattern>,
    line: nat,
    plans: Seq<PlanView>,
) -> Seq<DiagnosticView>
    decreases items,
{
    if items.len() == 0 {
        Seq::empty()
    } else {
        patterns_warnings(items.drop_last(), line, plans) + pattern_warnings(items.last(), line, plans)
    }
}

pub open spec fn entries_warnings(
    items: Seq<SyntaxDictPatternEntry>,
    line: nat,
    plans: Seq<PlanView>,
) -> Seq<DiagnosticView>
    decreases items,
{
    if items.len() == 0 {
        Seq::empty()
    } else {
        entries_warnings(items.drop_last(), line, plans) + keys_warnings(items.last().path@, line, plans)
            + pattern_warnings(items.last().pattern, line, plans)
    }
}

pub open spec fn guards_warnings(
    items: Seq<SyntaxGuardClause>,
    line: nat,
    plans: Seq<PlanView>,
) -> Seq<DiagnosticView>
    decreases items,
{
    if items.len() == 0 {
        Seq::empty()
    } else {
        guards_warnings(items.drop_last(), line, plans) + guard_warnings(items.last(), line, plans)
    }
}

pub open spec fn steps_warnings(items: Seq<DoStep>, plans: Seq<PlanView>) -> Seq<DiagnosticView>
    decreases items,
{
    if items.len() == 0 {
        Seq::empty()
    } else {
        steps_warnings(items.drop_last(), plans) + step_warnings(items.last(), plans)
    }
}

pub open spec fn when_arms_warnings(
    items: Seq<WhenArm>,
    plans: Seq<PlanView>,
) -> Seq<DiagnosticView>
    decreases items,
{
    if items.len() == 0 {
        Seq::empty()
    } else {
        when_arms_warnings(items.drop_last(), plans) + when_arm_warnings(items.last(), plans)
    }
}

pub open spec fn arms_warnings(items: Seq<MatchArm>, plans: Seq<PlanView>) -> Seq<DiagnosticView>
    decreases items,
{
    if items.len() == 0 {
        Seq::empty()
    } else {
        arms_warnings(items.drop_last(), plans) + arm_warnings(items.last(), plans)
    }
}

/// The warnings of one member of an object body.
pub open spec fn item_warnings(
    item: ObjectBodyDefinition,
    plans: Seq<PlanView>,
) -> Seq<DiagnosticView>
    decreases item,
{
    let line = item.line as nat;
    match item.kind {
        ObjectBodyDefinitionKind::Definition(definition) => match definition.expr {
            Some(expr) => warnings(expr, line, plans),
            None => Seq::empty(),
        },
        ObjectBodyDefinitionKind::Object(object) => {
            exprs_warnings(object.deps@, line, plans) + alias_warnings(object.alias, object.body@, line)
                + body_warnings(object.body@, plans)
        },
        ObjectBodyDefinitionKind::Extend(extend) => {
            alias_warnings(extend.alias, extend.body@, line) + body_warnings(extend.body@, plans)
        },
    }
}

/// The warnings of the expressions that a pattern owns.
pub open spec fn pattern_warnings(
    pattern: SyntaxPattern,
    line: nat,
    plans: Seq<PlanView>,
) -> Seq<DiagnosticView>
    decreases pattern,
{
    match pattern.kind {
        SyntaxPatternKind::Capture(_) => Seq::empty(),
        SyntaxPatternKind::Wildcard => Seq::empty(),
        SyntaxPatternKind::Literal(_) => Seq::empty(),
        SyntaxPatternKind::List { prefix, middle, suffix } => {
            patterns_warnings(prefix@, line, plans) + (match middle {
                Some(inner) => pattern_warnings(*inner, line, plans),
                None => Seq::empty(),
            }) + patterns_warnings(suffix@, line, plans)
        },
        SyntaxPatternKind::Dict { entries, remainder } => {
            entries_warnings(entries@, line, plans) + (match remainder {
                Some(inner) => pattern_warnings(*inner, line, plans),
                None => Seq::empty(),
            })
        },
        SyntaxPatternKind::QuotedPath(path) => keys_warnings(path@, line, plans),
        SyntaxPatternKind::Group(inner) => pattern_warnings(*inner, line, plans),
        SyntaxPatternKind::As(left, right) => {
            pattern_warnings(*left, line, plans) + pattern_warnings(*right, line, plans)
        },
        SyntaxPatternKind::View { view, pattern } => {
            warnings(*view, line, plans) + pattern_warnings(*pattern, line, plans)
        },
        SyntaxPatternKind::Predicate { predicate, pattern } => {
            warnings(*predicate, line, plans) + pattern_warnings(*pattern, line, plans)
        },
        SyntaxPatternKind::Guarded { pattern, guards } => {
            pattern_warnings(*pattern, line, plans) + guards_warnings(guards@, line, plans)
        },
    }
}

pub open spec fn guard_warnings(
    guard: SyntaxGuardClause,
    line: nat,
    plans: Seq<PlanView>,
) -> Seq<DiagnosticView>
    decreases guard,
{
    match guard {
        SyntaxGuardClause::Pass => Seq::empty(),
        SyntaxGuardClause::Effect(expr) => warnings(expr, line, plans),
        SyntaxGuardClause::EffectBind { pattern, operation } => {
            warnings(operation, line, plans) + pattern_warnings(pattern, line, plans)
        },
        SyntaxGuardClause::ValueBind { pattern, value } => {
            warnings(value, line, plans) + pattern_warnings(pattern, line, plans)
        },
    }
}

pub open spec fn step_warnings(step: DoStep, plans: Seq<PlanView>) -> Seq<DiagnosticView>
    decreases step,
{
    let line = step.line as nat;
    match step.kind {
        DoStepKind::Abstract(_) => Seq::empty(),
        DoStepKind::Bind { pattern, operation } => {
            warnings(operation, line, plans) + pattern_warnings(pattern, line, plans)
        },
        DoStepKind::ValueBind { pattern, value } => {
            warnings(value, line, plans) + pattern_warnings(pattern, line, plans)
        },
        DoStepKind::Then(expr) => warnings(expr, line, plans),
    }
}

pub open spec fn outcome_warnings(
    outcome: MatchOutcome,
    plans: Seq<PlanView>,
) -> Seq<DiagnosticView>
    decreases outcome,
{
    match outcome {
        MatchOutcome::Result { line, mode, expression } => warnings(expression, line as nat, plans),
        MatchOutcome::Nested(arms) => when_arms_warnings(arms@, plans),
    }
}

/// The warnings of a guarded arm: those of its parts, then those about the
/// locals that its guards capture.
pub open spec fn when_arm_warnings(arm: WhenArm, plans: Seq<PlanView>) -> Seq<DiagnosticView>
    decreases arm,
{
    let line = arm.line as nat;
    let start = branch(Seq::empty());
    let inner = enter(start, ast::guards_events(arm.guards@)).scope;
    guards_warnings(arm.guards@, line, plans) + outcome_warnings(arm.outcome, plans) + unused(
        inner,
        |k: int| guards_use(arm.guards@, start, k) || outcome_uses(arm.outcome, inner, k),
        |k: int| line,
    )
}

/// The warnings of a match arm: those of its parts, then those about the
/// locals that its pattern and guards capture.
pub open spec fn arm_warnings(arm: MatchArm, plans: Seq<PlanView>) -> Seq<DiagnosticView>
    decreases arm,
{
    let line = arm.line as nat;
    let start = branch(Seq::empty());
    let matched = enter(start, ast::pattern_events(arm.pattern));
    let inner = enter(matched, ast::guards_events(arm.guards@)).scope;
    pattern_warnings(arm.pattern, line, plans) + guards_warnings(arm.guards@, line, plans) + outcome_warnings(
        arm.outcome,
        plans,
    ) + unused(
        inner,
        |k: int|
            pattern_uses(arm.pattern, start, k) || guards_use(arm.guards@, matched, k)
                || outcome_uses(arm.outcome, inner, k),
        |k: int| line,
    )
}

/// What marking does to a list of flags: each flag stays set, or becomes set
/// where `used` holds.
pub open spec fn marks(before: Seq<bool>, after: Seq<bool>, used: spec_fn(int) -> bool) -> bool {
    &&& before.len() == after.len()
    &&& forall|i: int| 0 <= i < after.len() ==> #[trigger] after[i] == (before[i] || used(i))
}

/// What marking does to a list of flags that new locals extend.
pub open spec fn grows(before: Seq<bool>, after: Seq<bool>, used: spec_fn(int) -> bool) -> bool {
    &&& before.len() <= after.len()
    &&& forall|i: int|
        0 <= i < after.len() ==> #[trigger] after[i] == ((i < before.len() && before[i]) || used(i))
}

proof fn grows_then(
    a: Seq<bool>,
    b: Seq<bool>,
    c: Seq<bool>,
    f: spec_fn(int) -> bool,
    g: spec_fn(int) -> bool,
    h: spec_fn(int) -> bool,
)
    requires
        grows(a, b, f),
        grows(b, c, g),
        forall|i: int| 0 <= i && #[trigger] f(i) ==> i < b.len(),
        forall|i: int| #[trigger] h(i) == (f(i) || g(i)),
    ensures
        grows(a, c, h),
{
    assert forall|i: int| 0 <= i < c.len() implies #[trigger] c[i] == ((i < a.len() && a[i]) || h(
        i,
    )) by {
        assert(h(i) == (f(i) || g(i)));
        if i < b.len() {
            assert(b[i] == ((i < a.len() && a[i]) || f(i)));
        } else {
            assert(!f(i));
        }
    }
}

/// The diagnostics that a walk reports when it is asked to.
pub open spec fn asked(warn: bool, diagnostics: Seq<DiagnosticView>) -> Seq<DiagnosticView> {
    if warn {
        diagnostics
    } else {
        Seq::empty()
    }
}

proof fn bind_all_concat(env: Env, left: Seq<Seq<char>>, right: Seq<Seq<char>>)
    ensures
        bind_all(env, left + right) == bind_all(bind_all(env, left), right),
    decreases right.len(),
{
    if right.len() == 0 {
        assert(left + right =~= left);
    } else {
        bind_all_concat(env, left, right.drop_last());
        assert((left + right).drop_last() =~= left + right.drop_last());
    }
}

/// A scope is entered event by event.
pub proof fn enter_concat(env: Env, left: Seq<ast::ScopeEvent>, right: Seq<ast::ScopeEvent>)
    ensures
        enter(env, left + right) == enter(enter(env, left), right),
{
    ast::captured_concat(left, right);
    bind_all_concat(env, ast::captured(left), ast::captured(right));
}

proof fn bind_all_extends(env: Env, raws: Seq<Seq<char>>)
    ensures
        env.scope.len() <= bind_all(env, raws).scope.len(),
        bind_all(env, raws).scope.take(env.scope.len() as int) == env.scope,
    decreases raws.len(),
{
    if raws.len() > 0 {
        bind_all_extends(env, raws.drop_last());
        let before = bind_all(env, raws.drop_last()).scope;
        let after = bind_all(env, raws).scope;
        assert(after.take(env.scope.len() as int) =~= before.take(env.scope.len() as int));
    } else {
        assert(env.scope.take(env.scope.len() as int) =~= env.scope);
    }
}

/// Entering a scope keeps the locals it had.
pub proof fn enter_extends(env: Env, events: Seq<ast::ScopeEvent>)
    ensures
        env.scope.len() <= enter(env, events).scope.len(),
        enter(env, events).scope.take(env.scope.len() as int) == env.scope,
{
    bind_all_extends(env, ast::captured(events));
}

proof fn enter_expression(env: Env, expr: SyntaxExpr, rest: Seq<ast::ScopeEvent>)
    ensures
        enter(env, seq![ast::ScopeEvent::Expression(expr)] + rest) == enter(env, rest),
        enter(env, seq![ast::ScopeEvent::Expression(expr)]) == env,
{
    ast::event_expression(expr);
    enter_concat(env, seq![ast::ScopeEvent::Expression(expr)], rest);
}

proof fn enter_capture(env: Env, name: Seq<char>)
    ensures
        enter(env, seq![ast::ScopeEvent::Capture(name)]) == bind(env, name),
{
    ast::event_capture(name);
    assert(seq![name].drop_last() =~= Seq::<Seq<char>>::empty());
    reveal_with_fuel(bind_all, 2);
}

proof fn pattern_uses_bounded_at(pattern: SyntaxPattern, env: Env, i: int)
    ensures
        pattern_uses(pattern, env, i) ==> i < enter(
                env,
                ast::pattern_events(pattern),
            ).scope.len(),
    decreases pattern,
{
    enter_extends(env, ast::pattern_events(pattern));
    match pattern.kind {
        SyntaxPatternKind::Capture(_) => {},
        SyntaxPatternKind::Wildcard => {},
        SyntaxPatternKind::Literal(_) => {},
        SyntaxPatternKind::List { prefix, middle, suffix } => {
            let a = ast::patterns_events(prefix@);
            let b = match middle {
                Some(inner) => ast::pattern_events(*inner),
                None => Seq::empty(),
            };
            let c = ast::patterns_events(suffix@);
            let after_prefix = enter(env, a);
            let after_middle = enter(after_prefix, b);
            patterns_use_bounded_at(prefix@, env, i);
            if let Some(inner) = middle {
                pattern_uses_bounded_at(*inner, after_prefix, i);
            }
            patterns_use_bounded_at(suffix@, after_middle, i);
            enter_concat(env, a, b);
            enter_concat(env, a + b, c);
            enter_extends(after_prefix, b);
            enter_extends(after_middle, c);
        },
        SyntaxPatternKind::Dict { entries, remainder } => {
            let a = ast::entries_events(entries@);
            let b = match remainder {
                Some(inner) => ast::pattern_events(*inner),
                None => Seq::empty(),
            };
            entries_use_bounded_at(entries@, env, i);
            if let Some(inner) = remainder {
                pattern_uses_bounded_at(*inner, enter(env, a), i);
            }
            enter_concat(env, a, b);
            enter_extends(enter(env, a), b);
        },
        SyntaxPatternKind::QuotedPath(_) => {},
        SyntaxPatternKind::Group(inner) => pattern_uses_bounded_at(*inner, env, i),
        SyntaxPatternKind::As(left, right) => {
            let a = ast::pattern_events(*left);
            let b = ast::pattern_events(*right);
            pattern_uses_bounded_at(*left, env, i);
            pattern_uses_bounded_at(*right, enter(env, a), i);
            enter_concat(env, a, b);
            enter_extends(enter(env, a), b);
        },
        SyntaxPatternKind::View { view, pattern } => {
            pattern_uses_bounded_at(*pattern, env, i);
            enter_expression(env, *view, ast::pattern_events(*pattern));
            enter_extends(env, ast::pattern_events(*pattern));
        },
        SyntaxPatternKind::Predicate { predicate, pattern } => {
            pattern_uses_bounded_at(*pattern, env, i);
            enter_expression(env, *predicate, ast::pattern_events(*pattern));
            enter_extends(env, ast::pattern_events(*pattern));
        },
        SyntaxPatternKind::Guarded { pattern, guards } => {
            let a = ast::pattern_events(*pattern);
            let b = ast::guards_events(guards@);
            pattern_uses_bounded_at(*pattern, env, i);
            guards_use_bounded_at(guards@, enter(env, a), i);
            enter_concat(env, a, b);
            enter_extends(enter(env, a), b);
        },
    }
}

proof fn patterns_use_bounded_at(items: Seq<SyntaxPattern>, env: Env, i: int)
    ensures
        patterns_use(items, env, i) ==> i < enter(env, ast::patterns_events(items)).scope.len(),
    decreases items,
{
    if items.len() > 0 {
        let rest = items.drop_last();
        let a = ast::patterns_events(rest);
        patterns_use_bounded_at(rest, env, i);
        pattern_uses_bounded_at(items.last(), enter(env, a), i);
        enter_concat(env, a, ast::pattern_events(items.last()));
        enter_extends(enter(env, a), ast::pattern_events(items.last()));
    }
}

proof fn entries_use_bounded_at(items: Seq<SyntaxDictPatternEntry>, env: Env, i: int)
    ensures
        entries_use(items, env, i) ==> i < enter(env, ast::entries_events(items)).scope.len(),
    decreases items,
{
    if items.len() > 0 {
        let rest = items.drop_last();
        let entry = items.last();
        let a = ast::entries_events(rest);
        let k = ast::keys_events(entry.path@);
        let b = ast::pattern_events(entry.pattern);
        entries_use_bounded_at(rest, env, i);
        pattern_uses_bounded_at(entry.pattern, enter(env, a), i);
        ast::keys_capture_nothing(entry.path@);
        enter_concat(env, a, k);
        enter_concat(env, a + k, b);
        enter_extends(enter(env, a), b);
    }
}

proof fn guard_uses_bounded_at(guard: SyntaxGuardClause, env: Env, i: int)
    ensures
        guard_uses(guard, env, i) ==> i < enter(env, ast::guard_events(guard)).scope.len(),
    decreases guard,
{
    enter_extends(env, ast::guard_events(guard));
    match guard {
        SyntaxGuardClause::Pass => {},
        SyntaxGuardClause::Effect(_) => {},
        SyntaxGuardClause::EffectBind { pattern, operation } => {
            pattern_uses_bounded_at(pattern, env, i);
            enter_expression(env, operation, ast::pattern_events(pattern));
        },
        SyntaxGuardClause::ValueBind { pattern, value } => {
            pattern_uses_bounded_at(pattern, env, i);
            enter_expression(env, value, ast::pattern_events(pattern));
        },
    }
}

proof fn guards_use_bounded_at(items: Seq<SyntaxGuardClause>, env: Env, i: int)
    ensures
        guards_use(items, env, i) ==> i < enter(env, ast::guards_events(items)).scope.len(),
    decreases items,
{
    if items.len() > 0 {
        let rest = items.drop_last();
        let a = ast::guards_events(rest);
        guards_use_bounded_at(rest, env, i);
        guard_uses_bounded_at(items.last(), enter(env, a), i);
        enter_concat(env, a, ast::guard_events(items.last()));
        enter_extends(enter(env, a), ast::guard_events(items.last()));
    }
}

proof fn declare_all_extends(env: Env, raws: Seq<Seq<char>>)
    ensures
        declare_all(env, raws).scope.len() == env.scope.len() + raws.len(),
        declare_all(env, raws).scope.take(env.scope.len() as int) == env.scope,
    decreases raws.len(),
{
    if raws.len() > 0 {
        declare_all_extends(env, raws.drop_last());
        let before = declare_all(env, raws.drop_last()).scope;
        let after = declare_all(env, raws).scope;
        assert(after.take(env.scope.len() as int) =~= before.take(env.scope.len() as int));
    } else {
        assert(env.scope.take(env.scope.len() as int) =~= env.scope);
    }
}

proof fn step_env_extends(env: Env, step: DoStep)
    ensures
        env.scope.len() <= step_env(env, step).scope.len(),
        step_env(env, step).scope.take(env.scope.len() as int) == env.scope,
{
    assert(env.scope.take(env.scope.len() as int) =~= env.scope);
    match step.kind {
        DoStepKind::Abstract(raws) => declare_all_extends(env, text::texts(raws@)),
        DoStepKind::Bind { pattern, operation } => enter_extends(env, ast::pattern_events(pattern)),
        DoStepKind::ValueBind { pattern, value } => enter_extends(
            env,
            ast::pattern_events(pattern),
        ),
        DoStepKind::Then(_) => {},
    }
}

proof fn step_uses_bounded_at(step: DoStep, env: Env, i: int)
    ensures
        step_uses(step, env, i) ==> i < step_env(env, step).scope.len(),
{
    step_env_extends(env, step);
    match step.kind {
        DoStepKind::Bind { pattern, operation } => pattern_uses_bounded_at(pattern, env, i),
        DoStepKind::ValueBind { pattern, value } => pattern_uses_bounded_at(pattern, env, i),
        _ => {},
    }
}

proof fn steps_use_bounded_at(items: Seq<DoStep>, env: Env, i: int)
    ensures
        env.scope.len() <= do_env(env, items).scope.len(),
        steps_use(items, env, i) ==> i < do_env(env, items).scope.len(),
    decreases items.len(),
{
    if items.len() > 0 {
        let rest = items.drop_last();
        steps_use_bounded_at(rest, env, i);
        step_uses_bounded_at(items.last(), do_env(env, rest), i);
        step_env_extends(do_env(env, rest), items.last());
    }
}

proof fn pattern_uses_bounded(pattern: SyntaxPattern, env: Env)
    ensures
        forall|i: int| #[trigger] pattern_uses(pattern, env, i) ==> i < enter(env, ast::pattern_events(pattern)).scope.len(),
{
    assert forall|i: int| #[trigger] pattern_uses(pattern, env, i) implies i < enter(env, ast::pattern_events(pattern)).scope.len() by {
        pattern_uses_bounded_at(pattern, env, i);
    }
}

proof fn patterns_use_bounded(items: Seq<SyntaxPattern>, env: Env)
    ensures
        forall|i: int| #[trigger] patterns_use(items, env, i) ==> i < enter(env, ast::patterns_events(items)).scope.len(),
{
    assert forall|i: int| #[trigger] patterns_use(items, env, i) implies i < enter(env, ast::patterns_events(items)).scope.len() by {
        patterns_use_bounded_at(items, env, i);
    }
}

proof fn entries_use_bounded(items: Seq<SyntaxDictPatternEntry>, env: Env)
    ensures
        forall|i: int| #[trigger] entries_use(items, env, i) ==> i < enter(env, ast::entries_events(items)).scope.len(),
{
    assert forall|i: int| #[trigger] entries_use(items, env, i) implies i < enter(env, ast::entries_events(items)).scope.len() by {
        entries_use_bounded_at(items, env, i);
    }
}

proof fn guards_use_bounded(items: Seq<SyntaxGuardClause>, env: Env)
    ensures
        forall|i: int| #[trigger] guards_use(items, env, i) ==> i < enter(env, ast::guards_events(items)).scope.len(),
{
    assert forall|i: int| #[trigger] guards_use(items, env, i) implies i < enter(env, ast::guards_events(items)).scope.len() by {
        guards_use_bounded_at(items, env, i);
    }
}

proof fn steps_use_bounded(items: Seq<DoStep>, env: Env)
    ensures
        forall|i: int| #[trigger] steps_use(items, env, i) ==> i < do_env(env, items).scope.len(),
{
    assert forall|i: int| #[trigger] steps_use(items, env, i) implies i < do_env(env, items).scope.len() by {
        steps_use_bounded_at(items, env, i);
    }
}

/// The locals of a branch, the flags that record their use, and the abstract
/// names that later captures may fulfil.
pub struct BranchScope {
    pub locals: Vec<LocalName>,
    pub used: Vec<bool>,
    pub unresolved: Vec<String>,
}

impl BranchScope {
    pub open spec fn wf(&self) -> bool {
        self.locals.len() == self.used.len()
    }

    pub open spec fn env(&self) -> Env {
        Env { scope: names::local_views(self.locals@), unresolved: text::texts(self.unresolved@) }
    }

    /// A branch that extends a scope.
    pub fn new(locals: &Vec<LocalName>, used: &Vec<bool>) -> (scope: Self)
        requires
            locals.len() == used.len(),
        ensures
            scope.wf(),
            scope.env() == branch(names::local_views(locals@)),
            scope.used@ == used@,
    {
        let copied = copy_locals(locals);
        let flags = extend_flags(used, used.len());
        assert(names::local_views(copied@).len() == copied.len());
        assert(names::local_views(locals@).len() == locals.len());
        assert(flags@ =~= used@);
        let scope = BranchScope { locals: copied, used: flags, unresolved: Vec::new() };
        assert(text::texts(scope.unresolved@) =~= Seq::<Seq<char>>::empty());
        scope
    }

    /// A branch with no locals.
    pub fn empty() -> (scope: Self)
        ensures
            scope.wf(),
            scope.env() == branch(Seq::empty()),
            scope.used@ == Seq::<bool>::empty(),
    {
        let scope = BranchScope { locals: Vec::new(), used: Vec::new(), unresolved: Vec::new() };
        assert(text::texts(scope.unresolved@) =~= Seq::<Seq<char>>::empty());
        assert(names::local_views(scope.locals@) =~= Seq::<LocalNameView>::empty());
        scope
    }

    /// Records a capture.
    pub fn capture(&mut self, raw: &str)
        requires
            old(self).wf(),
        ensures
            final(self).wf(),
            final(self).env() == bind(old(self).env(), raw@),
            grows(old(self).used@, final(self).used@, |i: int| false),
    {
        if !fulfills_abstract(raw, &mut self.unresolved) {
            push_local(&mut self.locals, raw);
            self.used.push(false);
        }
    }

    /// Records an abstract declaration.
    pub fn declare(&mut self, raw: &str)
        requires
            old(self).wf(),
        ensures
            final(self).wf(),
            final(self).env() == declare(old(self).env(), raw@),
            grows(old(self).used@, final(self).used@, |i: int| false),
    {
        let local = local_name_metadata(raw);
        match &local.canonical {
            Some(name) => {
                let ghost before = self.unresolved@;
                self.unresolved.push(name.clone());
                assert(text::texts(self.unresolved@) =~= text::texts(before).push(name@));
            },
            None => {},
        }
        push_local(&mut self.locals, raw);
        self.used.push(false);
    }
}

/// Copies flags into a list of `size` flags, the new ones unset.
fn extend_flags(used: &Vec<bool>, size: usize) -> (flags: Vec<bool>)
    requires
        used.len() <= size,
    ensures
        flags.len() == size,
        forall|i: int| 0 <= i < used.len() ==> flags[i] == used[i],
        forall|i: int| used.len() <= i < size ==> flags[i] == false,
{
    let mut flags: Vec<bool> = Vec::new();
    let mut i: usize = 0;
    while i < size
        invariant
            i <= size,
            used.len() <= size,
            flags.len() == i,
            forall|j: int| 0 <= j < i && j < used.len() ==> flags[j] == used[j],
            forall|j: int| used.len() <= j < i ==> flags[j] == false,
        decreases size - i,
    {
        if i < used.len() {
            flags.push(used[i]);
        } else {
            flags.push(false);
        }
        i = i + 1;
    }
    flags
}

/// Takes the flags of an outer scope back from a scope that extended it.
fn restore_flags(used: &mut Vec<bool>, nested: &Vec<bool>)
    requires
        old(used).len() <= nested.len(),
    ensures
        final(used).len() == old(used).len(),
        final(used)@ == nested@.take(old(used).len() as int),
{
    let mut i: usize = 0;
    let size = used.len();
    while i < size
        invariant
            i <= size == used.len() == old(used).len() <= nested.len(),
            forall|j: int| 0 <= j < i ==> used[j] == nested[j],
        decreases size - i,
    {
        used.set(i, nested[i]);
        i = i + 1;
    }
    assert(used@ =~= nested@.take(size as int));
}

/// Appends the locals that a list of spellings introduces.
fn push_names(locals: &mut Vec<LocalName>, raws: &Vec<String>)
    ensures
        names::local_views(final(locals)@) == names::local_views(old(locals)@) + names::named(
            text::texts(raws@),
        ),
        final(locals).len() == old(locals).len() + raws.len(),
{
    let ghost all = names::named(text::texts(raws@));
    let mut i: usize = 0;
    assert(names::local_views(locals@) =~= names::local_views(old(locals)@) + all.take(0));
    while i < raws.len()
        invariant
            i <= raws.len(),
            all == names::named(text::texts(raws@)),
            names::local_views(locals@) == names::local_views(old(locals)@) + all.take(i as int),
            locals.len() == old(locals).len() + i,
        decreases raws.len() - i,
    {
        push_local(locals, raws[i].as_str());
        assert(all[i as int] == names::local_name(raws@[i as int]@));
        i = i + 1;
        assert(names::local_views(locals@) =~= names::local_views(old(locals)@) + all.take(
            i as int,
        ));
    }
    assert(all.take(raws.len() as int) =~= all);
}

/// Appends the locals that the bindings of a `let` introduce.
fn push_binding_names(locals: &mut Vec<LocalName>, bindings: &Vec<(String, SyntaxExpr)>)
    ensures
        names::local_views(final(locals)@) == names::local_views(old(locals)@) + names::named(
            binding_names(bindings@),
        ),
        final(locals).len() == old(locals).len() + bindings.len(),
{
    let ghost all = names::named(binding_names(bindings@));
    let mut i: usize = 0;
    assert(names::local_views(locals@) =~= names::local_views(old(locals)@) + all.take(0));
    while i < bindings.len()
        invariant
            i <= bindings.len(),
            all == names::named(binding_names(bindings@)),
            names::local_views(locals@) == names::local_views(old(locals)@) + all.take(i as int),
            locals.len() == old(locals).len() + i,
        decreases bindings.len() - i,
    {
        push_local(locals, bindings[i].0.as_str());
        assert(all[i as int] == names::local_name(bindings@[i as int].0@));
        i = i + 1;
        assert(names::local_views(locals@) =~= names::local_views(old(locals)@) + all.take(
            i as int,
        ));
    }
    assert(all.take(bindings.len() as int) =~= all);
}

/// Fulfils the innermost abstract name that a capture spells, if there is one.
pub fn fulfills_abstract(name: &str, unresolved: &mut Vec<String>) -> (fulfilled: bool)
    ensures
        ({
            let k = last_index(text::texts(old(unresolved)@), names::canonical_name(name@));
            &&& fulfilled == (k >= 0)
            &&& text::texts(final(unresolved)@) == if k >= 0 {
                text::texts(old(unresolved)@).remove(k)
            } else {
                text::texts(old(unresolved)@)
            }
        }),
{
    let local = local_name_metadata(name);
    let ghost all = text::texts(unresolved@);
    let ghost wanted = names::canonical_name(name@);
    let mut i: usize = unresolved.len();
    assert(all.take(i as int) =~= all);
    while i > 0
        invariant
            i <= unresolved.len(),
            unresolved@ == old(unresolved)@,
            all == text::texts(unresolved@),
            wanted == local@.canonical,
            wanted == names::canonical_name(name@),
            last_index(all, wanted) == last_index(all.take(i as int), wanted),
        decreases i,
    {
        i = i - 1;
        assert(all.take(i + 1).drop_last() =~= all.take(i as int));
        assert(all.take(i + 1).last() == unresolved@[i as int]@);
        if let Some(canonical) = &local.canonical {
            if same_text(unresolved[i].as_str(), canonical.as_str()) {
                unresolved.remove(i);
                assert(text::texts(unresolved@) =~= all.remove(i as int));
                return true;
            }
        }
    }
    false
}

/// The expression that a `do` step runs before it binds anything.
pub open spec fn step_expr(step: DoStep) -> Option<SyntaxExpr> {
    match step.kind {
        DoStepKind::Abstract(_) => None,
        DoStepKind::Bind { pattern, operation } => Some(operation),
        DoStepKind::ValueBind { pattern, value } => Some(value),
        DoStepKind::Then(expr) => Some(expr),
    }
}

pub fn do_step_expr(step: &DoStep) -> (result: Option<&SyntaxExpr>)
    ensures
        match result {
            Some(expr) => step_expr(*step) == Some(*expr),
            None => step_expr(*step) is None,
        },
{
    match &step.kind {
        DoStepKind::Abstract(_) => None,
        DoStepKind::Bind { operation, .. } => Some(operation),
        DoStepKind::ValueBind { value, .. } => Some(value),
        DoStepKind::Then(expr) => Some(expr),
    }
}

fn mark_used_keys(items: &Vec<SyntaxKeyExpr>, locals: &Vec<LocalName>, used: &mut Vec<bool>)
    requires
        locals.len() == old(used).len(),
    ensures
        marks(
            old(used)@,
            final(used)@,
            |i: int| keys_use(items@, names::local_views(locals@), i),
        ),
    decreases items, 0nat,
{
    let ghost scope = names::local_views(locals@);
    let mut k: usize = 0;
    while k < items.len()
        invariant
            k <= items.len(),
            locals.len() == used.len(),
            scope == names::local_views(locals@),
            marks(old(used)@, used@, |i: int| keys_use(items@.take(k as int), scope, i)),
        decreases items.len() - k,
    {
        assert(items@.take(k + 1).drop_last() =~= items@.take(k as int));
        assert(items@.take(k + 1).last() == items@[k as int]);
        mark_used_key_expr(&items[k], locals, used);
        k = k + 1;
    }
    assert(items@.take(items.len() as int) =~= items@);
}

fn mark_used_exprs(items: &Vec<SyntaxExpr>, locals: &Vec<LocalName>, used: &mut Vec<bool>)
    requires
        locals.len() == old(used).len(),
    ensures
        marks(
            old(used)@,
            final(used)@,
            |i: int| exprs_use(items@, names::local_views(locals@), i),
        ),
    decreases items, 0nat,
{
    let ghost scope = names::local_views(locals@);
    let mut k: usize = 0;
    while k < items.len()
        invariant
            k <= items.len(),
            locals.len() == used.len(),
            scope == names::local_views(locals@),
            marks(old(used)@, used@, |i: int| exprs_use(items@.take(k as int), scope, i)),
        decreases items.len() - k,
    {
        assert(items@.take(k + 1).drop_last() =~= items@.take(k as int));
        assert(items@.take(k + 1).last() == items@[k as int]);
        mark_used_locals(&items[k], locals, used);
        k = k + 1;
    }
    assert(items@.take(items.len() as int) =~= items@);
}

fn mark_used_bindings(
    items: &Vec<(String, SyntaxExpr)>,
    locals: &Vec<LocalName>,
    used: &mut Vec<bool>,
)
    requires
        locals.len() == old(used).len(),
    ensures
        marks(
            old(used)@,
            final(used)@,
            |i: int| bindings_use(items@, names::local_views(locals@), i),
        ),
    decreases items, 0nat,
{
    let ghost scope = names::local_views(locals@);
    let mut k: usize = 0;
    while k < items.len()
        invariant
            k <= items.len(),
            locals.len() == used.len(),
            scope == names::local_views(locals@),
            marks(old(used)@, used@, |i: int| bindings_use(items@.take(k as int), scope, i)),
        decreases items.len() - k,
    {
        assert(items@.take(k + 1).drop_last() =~= items@.take(k as int));
        assert(items@.take(k + 1).last() == items@[k as int]);
        mark_used_locals(&items[k].1, locals, used);
        k = k + 1;
    }
    assert(items@.take(items.len() as int) =~= items@);
}

fn mark_used_links(
    items: &Vec<(SyntaxOperator, SyntaxExpr)>,
    locals: &Vec<LocalName>,
    used: &mut Vec<bool>,
)
    requires
        locals.len() == old(used).len(),
    ensures
        marks(
            old(used)@,
            final(used)@,
            |i: int| links_use(items@, names::local_views(locals@), i),
        ),
    decreases items, 0nat,
{
    let ghost scope = names::local_views(locals@);
    let mut k: usize = 0;
    while k < items.len()
        invariant
            k <= items.len(),
            locals.len() == used.len(),
            scope == names::local_views(locals@),
            marks(old(used)@, used@, |i: int| links_use(items@.take(k as int), scope, i)),
        decreases items.len() - k,
    {
        assert(items@.take(k + 1).drop_last() =~= items@.take(k as int));
        assert(items@.take(k + 1).last() == items@[k as int]);
        mark_used_locals(&items[k].1, locals, used);
        k = k + 1;
    }
    assert(items@.take(items.len() as int) =~= items@);
}

fn mark_used_body_locals(
    items: &Vec<ObjectBodyDefinition>,
    locals: &Vec<LocalName>,
    used: &mut Vec<bool>,
)
    requires
        locals.len() == old(used).len(),
    ensures
        marks(
            old(used)@,
            final(used)@,
            |i: int| body_uses(items@, names::local_views(locals@), i),
        ),
    decreases items, 0nat,
{
    let ghost scope = names::local_views(locals@);
    let mut k: usize = 0;
    while k < items.len()
        invariant
            k <= items.len(),
            locals.len() == used.len(),
            scope == names::local_views(locals@),
            marks(old(used)@, used@, |i: int| body_uses(items@.take(k as int), scope, i)),
        decreases items.len() - k,
    {
        assert(items@.take(k + 1).drop_last() =~= items@.take(k as int));
        assert(items@.take(k + 1).last() == items@[k as int]);
        mark_used_body_item_locals(&items[k], locals, used);
        k = k + 1;
    }
    assert(items@.take(items.len() as int) =~= items@);
}

fn mark_used_when_arms(items: &Vec<WhenArm>, locals: &Vec<LocalName>, used: &mut Vec<bool>)
    requires
        locals.len() == old(used).len(),
    ensures
        marks(
            old(used)@,
            final(used)@,
            |i: int| when_arms_use(items@, names::local_views(locals@), i),
        ),
    decreases items, 0nat,
{
    let ghost scope = names::local_views(locals@);
    let mut k: usize = 0;
    while k < items.len()
        invariant
            k <= items.len(),
            locals.len() == used.len(),
            scope == names::local_views(locals@),
            marks(old(used)@, used@, |i: int| when_arms_use(items@.take(k as int), scope, i)),
        decreases items.len() - k,
    {
        assert(items@.take(k + 1).drop_last() =~= items@.take(k as int));
        assert(items@.take(k + 1).last() == items@[k as int]);
        mark_used_when_branch(&items[k], locals, used);
        k = k + 1;
    }
    assert(items@.take(items.len() as int) =~= items@);
}

fn mark_used_arms(items: &Vec<MatchArm>, locals: &Vec<LocalName>, used: &mut Vec<bool>)
    requires
        locals.len() == old(used).len(),
    ensures
        marks(
            old(used)@,
            final(used)@,
            |i: int| arms_use(items@, names::local_views(locals@), i),
        ),
    decreases items, 0nat,
{
    let ghost scope = names::local_views(locals@);
    let mut k: usize = 0;
    while k < items.len()
        invariant
            k <= items.len(),
            locals.len() == used.len(),
            scope == names::local_views(locals@),
            marks(old(used)@, used@, |i: int| arms_use(items@.take(k as int), scope, i)),
        decreases items.len() - k,
    {
        assert(items@.take(k + 1).drop_last() =~= items@.take(k as int));
        assert(items@.take(k + 1).last() == items@[k as int]);
        mark_used_pattern_guard_outcome_branch(&items[k], locals, used);
        k = k + 1;
    }
    assert(items@.take(items.len() as int) =~= items@);
}

pub fn mark_used_key_expr(key: &SyntaxKeyExpr, locals: &Vec<LocalName>, used: &mut Vec<bool>)
    requires
        locals.len() == old(used).len(),
    ensures
        marks(old(used)@, final(used)@, |i: int| key_uses(*key, names::local_views(locals@), i)),
    decreases key, 0nat,
{
    match key {
        SyntaxKeyExpr::Atom(_) => {},
        SyntaxKeyExpr::Index(expr) => mark_used_locals(expr, locals, used),
        SyntaxKeyExpr::PathIndex(expr) => mark_used_locals(expr, locals, used),
    }
}

pub fn mark_used_body_item_locals(
    item: &ObjectBodyDefinition,
    locals: &Vec<LocalName>,
    used: &mut Vec<bool>,
)
    requires
        locals.len() == old(used).len(),
    ensures
        marks(old(used)@, final(used)@, |i: int| item_uses(*item, names::local_views(locals@), i)),
    decreases item, 0nat,
{
    match &item.kind {
        ObjectBodyDefinitionKind::Definition(definition) => match &definition.expr {
            Some(expr) => mark_used_locals(expr, locals, used),
            None => {},
        },
        ObjectBodyDefinitionKind::Object(object) => {
            mark_used_exprs(&object.deps, locals, used);
            mark_used_body_locals(&object.body, locals, used);
        },
        ObjectBodyDefinitionKind::Extend(extend) => {
            mark_used_body_locals(&extend.body, locals, used);
        },
    }
}

/// Marks the locals that an expression refers to.
pub fn mark_used_locals(expr: &SyntaxExpr, locals: &Vec<LocalName>, used: &mut Vec<bool>)
    requires
        locals.len() == old(used).len(),
    ensures
        marks(old(used)@, final(used)@, |i: int| uses(*expr, names::local_views(locals@), i)),
    decreases expr, 0nat,
{
    let ghost scope = names::local_views(locals@);
    match expr {
        SyntaxExpr::Unit
        | SyntaxExpr::Embedded(_)
        | SyntaxExpr::Number(_)
        | SyntaxExpr::Text(_)
        | SyntaxExpr::Atom(_)
        | SyntaxExpr::Effect(_)
        | SyntaxExpr::PriorName(_) => {},
        SyntaxExpr::Name(name) => {
            proof {
                names::binding_is_innermost(scope, name@);
            }
            match find_binding(locals, name.as_str()) {
                Some(index) => {
                    used.set(index, true);
                },
                None => {},
            }
        },
        SyntaxExpr::Escape(_, inner) => mark_used_locals(inner, locals, used),
        SyntaxExpr::Access(base, parts) => {
            mark_used_locals(base, locals, used);
            mark_used_keys(parts, locals, used);
        },
        SyntaxExpr::Object(object) => {
            match &object.name {
                Some(name) => mark_used_locals(name, locals, used),
                None => {},
            }
            mark_used_exprs(&object.deps, locals, used);
            mark_used_body_locals(&object.body, locals, used);
        },
        SyntaxExpr::With { base, body, .. } => {
            mark_used_locals(base, locals, used);
            mark_used_body_locals(body, locals, used);
        },
        SyntaxExpr::Using { namespace, body } => {
            mark_used_locals(namespace, locals, used);
            mark_used_locals(body, locals, used);
        },
        SyntaxExpr::PathDict(path, value) => {
            mark_used_keys(path, locals, used);
            mark_used_locals(value, locals, used);
        },
        SyntaxExpr::TaggedConstructor(path) => mark_used_keys(path, locals, used),
        SyntaxExpr::DictUnion(items) | SyntaxExpr::List(items) | SyntaxExpr::Tuple(items) => {
            mark_used_exprs(items, locals, used);
        },
        SyntaxExpr::Lambda(params, body) => {
            let mut combined = copy_locals(locals);
            assert(names::local_views(combined@).len() == scope.len());
            push_names(&mut combined, params);
            let mut nested = extend_flags(used, combined.len());
            let ghost extended = nested@;
            mark_used_locals(body, &combined, &mut nested);
            restore_flags(used, &nested);
            assert forall|i: int| 0 <= i < used.len() implies used@[i] == (extended[i] || uses(
                **body,
                names::local_views(combined@),
                i,
            )) by {
                assert(used@[i] == nested@[i]);
            }
            assert(marks(
                old(used)@,
                used@,
                |i: int| uses(**body, scope + names::named(text::texts(params@)), i),
            ));
        },
        SyntaxExpr::Do(block) => mark_used_do_locals(block, locals, used),
        SyntaxExpr::If(choice) => {
            mark_used_guard_branch(choice, locals, used);
            mark_used_locals(&choice.else_result, locals, used);
        },
        SyntaxExpr::Match(choice) => {
            mark_used_locals(&choice.subject, locals, used);
            mark_used_arms(&choice.arms, locals, used);
        },
        SyntaxExpr::MatchWhen(choice) => mark_used_when_arms(&choice.arms, locals, used),
        SyntaxExpr::Let { bindings, body } => {
            mark_used_bindings(bindings, locals, used);
            let ghost values_used = used@;
            let mut combined = copy_locals(locals);
            assert(names::local_views(combined@).len() == scope.len());
            push_binding_names(&mut combined, bindings);
            let mut nested = extend_flags(used, combined.len());
            let ghost extended = nested@;
            mark_used_locals(body, &combined, &mut nested);
            restore_flags(used, &nested);
            assert forall|i: int| 0 <= i < used.len() implies used@[i] == (extended[i] || uses(
                **body,
                names::local_views(combined@),
                i,
            )) by {
                assert(used@[i] == nested@[i]);
            }
            assert(marks(
                values_used,
                used@,
                |i: int| uses(**body, scope + names::named(binding_names(bindings@)), i),
            ));
        },
        SyntaxExpr::OperatorSection { left, right, .. } => {
            match left {
                Some(left) => mark_used_locals(left, locals, used),
                None => {},
            }
            match right {
                Some(right) => mark_used_locals(right, locals, used),
                None => {},
            }
        },
        SyntaxExpr::ComparisonChain { first, rest } => {
            mark_used_locals(first, locals, used);
            mark_used_links(rest, locals, used);
        },
        SyntaxExpr::OperatorApply { left, right, .. }
        | SyntaxExpr::Apply(left, right)
        | SyntaxExpr::Multiply(left, right)
        | SyntaxExpr::Divide(left, right)
        | SyntaxExpr::Add(left, right)
        | SyntaxExpr::Subtract(left, right)
        | SyntaxExpr::Append(left, right) => {
            mark_used_locals(left, locals, used);
            mark_used_locals(right, locals, used);
        },
    }
}

/// `true` when the guards or the first result of an `if` refer to local `i`.
pub open spec fn guarded_uses(
    choice: crate::ast::IfExpr,
    scope: Seq<LocalNameView>,
    i: int,
) -> bool {
    ||| guards_use(choice.guards@, branch(scope), i)
    ||| uses(
        *choice.then_result,
        enter(branch(scope), ast::guards_events(choice.guards@)).scope,
        i,
    )
}

pub fn mark_used_guard_branch(
    choice: &crate::ast::IfExpr,
    locals: &Vec<LocalName>,
    used: &mut Vec<bool>,
)
    requires
        locals.len() == old(used).len(),
    ensures
        marks(
            old(used)@,
            final(used)@,
            |i: int| guarded_uses(*choice, names::local_views(locals@), i),
        ),
    decreases choice, 1nat,
{
    mark_used_branch(choice, locals, used);
}

pub fn mark_used_branch(
    choice: &crate::ast::IfExpr,
    locals: &Vec<LocalName>,
    used: &mut Vec<bool>,
)
    requires
        locals.len() == old(used).len(),
    ensures
        marks(
            old(used)@,
            final(used)@,
            |i: int| guarded_uses(*choice, names::local_views(locals@), i),
        ),
    decreases choice, 0nat,
{
    let plans: Vec<BlockPlan> = Vec::new();
    let mut state = BranchScope::new(locals, used);
    let mut silent: Vec<Diagnostic> = Vec::new();
    visit_guards(&choice.guards, 0, false, &mut state, &mut silent, &plans);
    let ghost flags = state.used@;
    mark_used_locals(&choice.then_result, &state.locals, &mut state.used);
    restore_flags(used, &state.used);
    assert forall|i: int| 0 <= i < used.len() implies #[trigger] used@[i] == (old(used)@[i]
        || guarded_uses(*choice, names::local_views(locals@), i)) by {
        assert(flags[i] == (old(used)@[i] || guards_use(
            choice.guards@,
            branch(names::local_views(locals@)),
            i,
        )));
        assert(state.used@[i] == used@[i]);
    }
}

pub fn mark_used_pattern_guard_outcome_branch(
    arm: &MatchArm,
    locals: &Vec<LocalName>,
    used: &mut Vec<bool>,
)
    requires
        locals.len() == old(used).len(),
    ensures
        marks(old(used)@, final(used)@, |i: int| arm_uses(*arm, names::local_views(locals@), i)),
    decreases arm, 1nat,
{
    let plans: Vec<BlockPlan> = Vec::new();
    let mut state = BranchScope::new(locals, used);
    let ghost start = state.env();
    let mut silent: Vec<Diagnostic> = Vec::new();
    visit_branch_prefix(arm, false, &mut state, &mut silent, &plans);
    let ghost flags = state.used@;
    proof {
        let matched = enter(start, ast::pattern_events(arm.pattern));
        enter_extends(start, ast::pattern_events(arm.pattern));
        enter_extends(matched, ast::guards_events(arm.guards@));
    }
    mark_used_outcome_branch(&arm.outcome, &mut state);
    restore_flags(used, &state.used);
    assert forall|i: int| 0 <= i < used.len() implies #[trigger] used@[i] == (old(used)@[i]
        || arm_uses(*arm, names::local_views(locals@), i)) by {
        assert(flags[i] == (old(used)@[i] || prefix_uses(*arm, start, i)));
        assert(state.used@[i] == used@[i]);
    }
}

pub fn mark_used_when_branch(arm: &WhenArm, locals: &Vec<LocalName>, used: &mut Vec<bool>)
    requires
        locals.len() == old(used).len(),
    ensures
        marks(
            old(used)@,
            final(used)@,
            |i: int| when_arm_uses(*arm, names::local_views(locals@), i),
        ),
    decreases arm, 1nat,
{
    let plans: Vec<BlockPlan> = Vec::new();
    let mut state = BranchScope::new(locals, used);
    let ghost start = state.env();
    let mut silent: Vec<Diagnostic> = Vec::new();
    visit_guards(&arm.guards, 0, false, &mut state, &mut silent, &plans);
    let ghost flags = state.used@;
    proof {
        enter_extends(start, ast::guards_events(arm.guards@));
    }
    mark_used_outcome_branch(&arm.outcome, &mut state);
    restore_flags(used, &state.used);
    assert forall|i: int| 0 <= i < used.len() implies #[trigger] used@[i] == (old(used)@[i]
        || when_arm_uses(*arm, names::local_views(locals@), i)) by {
        assert(flags[i] == (old(used)@[i] || guards_use(arm.guards@, start, i)));
        assert(state.used@[i] == used@[i]);
    }
}

/// The scope after the pattern and the guards of a match arm.
pub open spec fn prefix_env(arm: MatchArm, env: Env) -> Env {
    enter(enter(env, ast::pattern_events(arm.pattern)), ast::guards_events(arm.guards@))
}

/// `true` when the pattern or the guards of a match arm refer to local `i`.
pub open spec fn prefix_uses(arm: MatchArm, env: Env, i: int) -> bool {
    ||| pattern_uses(arm.pattern, env, i)
    ||| guards_use(arm.guards@, enter(env, ast::pattern_events(arm.pattern)), i)
}

/// The warnings of the expressions in the pattern and the guards of an arm.
pub open spec fn prefix_warnings(arm: MatchArm, plans: Seq<PlanView>) -> Seq<DiagnosticView> {
    pattern_warnings(arm.pattern, arm.line as nat, plans) + guards_warnings(arm.guards@, arm.line as nat, plans)
}

/// Marks the locals of a branch that its outcome refers to.
pub fn mark_used_outcome_branch(outcome: &MatchOutcome, state: &mut BranchScope)
    requires
        old(state).wf(),
    ensures
        final(state).wf(),
        final(state).env() == old(state).env(),
        marks(
            old(state).used@,
            final(state).used@,
            |i: int| outcome_uses(*outcome, old(state).env().scope, i),
        ),
    decreases outcome, 1nat,
{
    match outcome {
        MatchOutcome::Result { expression, .. } => {
            mark_used_locals(expression, &state.locals, &mut state.used);
        },
        MatchOutcome::Nested(arms) => {
            mark_used_when_arms(arms, &state.locals, &mut state.used);
        },
    }
}

/// Marks the locals that an expression of a branch refers to, and reports its
/// own warnings when asked to.
fn visit_owned(
    expr: &SyntaxExpr,
    line: usize,
    warn: bool,
    state: &mut BranchScope,
    diagnostics: &mut Vec<Diagnostic>,
    plans: &Vec<BlockPlan>,
)
    requires
        old(state).wf(),
    ensures
        final(state).wf(),
        final(state).env() == old(state).env(),
        grows(
            old(state).used@,
            final(state).used@,
            |i: int|
                i < old(state).env().scope.len() && uses(*expr, old(state).env().scope, i),
        ),
        final(state).used.len() == old(state).used.len(),
        diagnostic::reports(final(diagnostics)@) == diagnostic::reports(old(diagnostics)@) + asked(
            warn,
            warnings(*expr, line as nat, plan_views(plans@)),
        ),
    decreases expr, 1nat,
{
    assert(state.env().scope.len() == state.used.len());
    mark_used_locals(expr, &state.locals, &mut state.used);
    if warn {
        analyze_expr_locals(expr, line, diagnostics, plans);
    } else {
        assert(diagnostic::reports(diagnostics@) =~= diagnostic::reports(old(diagnostics)@) + asked(
            warn,
            warnings(*expr, line as nat, plan_views(plans@)),
        ));
    }
}

fn visit_keys(
    items: &Vec<SyntaxKeyExpr>,
    line: usize,
    warn: bool,
    state: &mut BranchScope,
    diagnostics: &mut Vec<Diagnostic>,
    plans: &Vec<BlockPlan>,
)
    requires
        old(state).wf(),
    ensures
        final(state).wf(),
        final(state).env() == enter(old(state).env(), ast::keys_events(items@)),
        grows(
            old(state).used@,
            final(state).used@,
            |i: int| bounded_keys(items@, old(state).env(), i),
        ),
        diagnostic::reports(final(diagnostics)@) == diagnostic::reports(old(diagnostics)@) + asked(
            warn,
            keys_warnings(items@, line as nat, plan_views(plans@)),
        ),
    decreases items, 0nat,
{
    let ghost start = state.env();
    let ghost reported = diagnostic::reports(diagnostics@);
    let ghost flags = state.used@;
    let mut k: usize = 0;
    assert(diagnostic::reports(diagnostics@) =~= reported + asked(
        warn,
        keys_warnings(items@.take(0), line as nat, plan_views(plans@)),
    ));
    while k < items.len()
        invariant
            k <= items.len(),
            state.wf(),
            state.env() == enter(start, ast::keys_events(items@.take(k as int))),
            grows(flags, state.used@, |i: int| bounded_keys(items@.take(k as int), start, i)),
            diagnostic::reports(diagnostics@) == reported + asked(
                warn,
                keys_warnings(items@.take(k as int), line as nat, plan_views(plans@)),
            ),
        decreases items.len() - k,
    {
        let ghost done = items@.take(k as int);
        let ghost more = items@.take(k + 1);
        let ghost before = state.env();
        let ghost before_flags = state.used@;
        assert(more.drop_last() =~= done);
        assert(more.last() == items@[k as int]);
        match &items[k] {
            SyntaxKeyExpr::Atom(_) => {},
            SyntaxKeyExpr::Index(expr) => visit_owned(expr, line, warn, state, diagnostics, plans),
            SyntaxKeyExpr::PathIndex(expr) => visit_owned(expr, line, warn, state, diagnostics, plans),
        }
        proof {
            ast::keys_capture_nothing(done);
            ast::keys_capture_nothing(more);
            assert(key_warnings(more.last(), line as nat, plan_views(plans@)) == match more.last() {
                SyntaxKeyExpr::Atom(_) => Seq::empty(),
                SyntaxKeyExpr::Index(expr) => warnings(*expr, line as nat, plan_views(plans@)),
                SyntaxKeyExpr::PathIndex(expr) => warnings(*expr, line as nat, plan_views(plans@)),
            });
            grows_then(
                flags,
                before_flags,
                state.used@,
                |i: int| bounded_keys(done, start, i),
                |i: int| i < start.scope.len() && key_uses(more.last(), start.scope, i),
                |i: int| bounded_keys(more, start, i),
            );
        }
        assert(diagnostic::reports(diagnostics@) =~= reported + asked(
            warn,
            keys_warnings(more, line as nat, plan_views(plans@)),
        ));
        k = k + 1;
    }
    assert(items@.take(items.len() as int) =~= items@);
}

fn visit_patterns(
    items: &Vec<SyntaxPattern>,
    line: usize,
    warn: bool,
    state: &mut BranchScope,
    diagnostics: &mut Vec<Diagnostic>,
    plans: &Vec<BlockPlan>,
)
    requires
        old(state).wf(),
    ensures
        final(state).wf(),
        final(state).env() == enter(old(state).env(), ast::patterns_events(items@)),
        grows(
            old(state).used@,
            final(state).used@,
            |i: int| patterns_use(items@, old(state).env(), i),
        ),
        diagnostic::reports(final(diagnostics)@) == diagnostic::reports(old(diagnostics)@) + asked(
            warn,
            patterns_warnings(items@, line as nat, plan_views(plans@)),
        ),
    decreases items, 0nat,
{
    let ghost start = state.env();
    let ghost reported = diagnostic::reports(diagnostics@);
    let ghost flags = state.used@;
    let mut k: usize = 0;
    assert(diagnostic::reports(diagnostics@) =~= reported + asked(
        warn,
        patterns_warnings(items@.take(0), line as nat, plan_views(plans@)),
    ));
    while k < items.len()
        invariant
            k <= items.len(),
            state.wf(),
            state.env() == enter(start, ast::patterns_events(items@.take(k as int))),
            grows(flags, state.used@, |i: int| patterns_use(items@.take(k as int), start, i)),
            diagnostic::reports(diagnostics@) == reported + asked(
                warn,
                patterns_warnings(items@.take(k as int), line as nat, plan_views(plans@)),
            ),
        decreases items.len() - k,
    {
        let ghost done = items@.take(k as int);
        let ghost more = items@.take(k + 1);
        let ghost before = state.env();
        let ghost before_flags = state.used@;
        assert(more.drop_last() =~= done);
        assert(more.last() == items@[k as int]);
        visit_pattern(&items[k], line, warn, state, diagnostics, plans);
        proof {
            enter_concat(start, ast::patterns_events(done), ast::pattern_events(more.last()));
            patterns_use_bounded(done, start);
            grows_then(
                flags,
                before_flags,
                state.used@,
                |i: int| patterns_use(done, start, i),
                |i: int| pattern_uses(more.last(), before, i),
                |i: int| patterns_use(more, start, i),
            );
        }
        assert(diagnostic::reports(diagnostics@) =~= reported + asked(
            warn,
            patterns_warnings(more, line as nat, plan_views(plans@)),
        ));
        k = k + 1;
    }
    assert(items@.take(items.len() as int) =~= items@);
}

fn visit_entries(
    items: &Vec<SyntaxDictPatternEntry>,
    line: usize,
    warn: bool,
    state: &mut BranchScope,
    diagnostics: &mut Vec<Diagnostic>,
    plans: &Vec<BlockPlan>,
)
    requires
        old(state).wf(),
    ensures
        final(state).wf(),
        final(state).env() == enter(old(state).env(), ast::entries_events(items@)),
        grows(
            old(state).used@,
            final(state).used@,
            |i: int| entries_use(items@, old(state).env(), i),
        ),
        diagnostic::reports(final(diagnostics)@) == diagnostic::reports(old(diagnostics)@) + asked(
            warn,
            entries_warnings(items@, line as nat, plan_views(plans@)),
        ),
    decreases items, 0nat,
{
    let ghost start = state.env();
    let ghost reported = diagnostic::reports(diagnostics@);
    let ghost flags = state.used@;
    let mut k: usize = 0;
    assert(diagnostic::reports(diagnostics@) =~= reported + asked(
        warn,
        entries_warnings(items@.take(0), line as nat, plan_views(plans@)),
    ));
    while k < items.len()
        invariant
            k <= items.len(),
            state.wf(),
            state.env() == enter(start, ast::entries_events(items@.take(k as int))),
            grows(flags, state.used@, |i: int| entries_use(items@.take(k as int), start, i)),
            diagnostic::reports(diagnostics@) == reported + asked(
                warn,
                entries_warnings(items@.take(k as int), line as nat, plan_views(plans@)),
            ),
        decreases items.len() - k,
    {
        let ghost done = items@.take(k as int);
        let ghost more = items@.take(k + 1);
        let ghost before = state.env();
        let ghost before_flags = state.used@;
        assert(more.drop_last() =~= done);
        assert(more.last() == items@[k as int]);
        visit_keys(&items[k].path, line, warn, state, diagnostics, plans);
        proof {
            ast::keys_capture_nothing(more.last().path@);
        }
        let ghost key_flags = state.used@;
        visit_pattern(&items[k].pattern, line, warn, state, diagnostics, plans);
        proof {
            let a = ast::entries_events(done);
            let keys = ast::keys_events(more.last().path@);
            enter_concat(start, a, keys);
            enter_concat(start, a + keys, ast::pattern_events(more.last().pattern));
            entries_use_bounded(done, start);
            grows_then(
                flags,
                before_flags,
                key_flags,
                |i: int| entries_use(done, start, i),
                |i: int| bounded_keys(more.last().path@, before, i),
                |i: int|
                    entries_use(done, start, i) || bounded_keys(more.last().path@, before, i),
            );
            grows_then(
                flags,
                key_flags,
                state.used@,
                |i: int|
                    entries_use(done, start, i) || bounded_keys(more.last().path@, before, i),
                |i: int| pattern_uses(more.last().pattern, before, i),
                |i: int| entries_use(more, start, i),
            );
        }
        assert(diagnostic::reports(diagnostics@) =~= reported + asked(
            warn,
            entries_warnings(more, line as nat, plan_views(plans@)),
        ));
        k = k + 1;
    }
    assert(items@.take(items.len() as int) =~= items@);
}

fn visit_guards(
    items: &Vec<SyntaxGuardClause>,
    line: usize,
    warn: bool,
    state: &mut BranchScope,
    diagnostics: &mut Vec<Diagnostic>,
    plans: &Vec<BlockPlan>,
)
    requires
        old(state).wf(),
    ensures
        final(state).wf(),
        final(state).env() == enter(old(state).env(), ast::guards_events(items@)),
        grows(
            old(state).used@,
            final(state).used@,
            |i: int| guards_use(items@, old(state).env(), i),
        ),
        diagnostic::reports(final(diagnostics)@) == diagnostic::reports(old(diagnostics)@) + asked(
            warn,
            guards_warnings(items@, line as nat, plan_views(plans@)),
        ),
    decreases items, 0nat,
{
    let ghost start = state.env();
    let ghost reported = diagnostic::reports(diagnostics@);
    let ghost flags = state.used@;
    let mut k: usize = 0;
    assert(diagnostic::reports(diagnostics@) =~= reported + asked(
        warn,
        guards_warnings(items@.take(0), line as nat, plan_views(plans@)),
    ));
    while k < items.len()
        invariant
            k <= items.len(),
            state.wf(),
            state.env() == enter(start, ast::guards_events(items@.take(k as int))),
            grows(flags, state.used@, |i: int| guards_use(items@.take(k as int), start, i)),
            diagnostic::reports(diagnostics@) == reported + asked(
                warn,
                guards_warnings(items@.take(k as int), line as nat, plan_views(plans@)),
            ),
        decreases items.len() - k,
    {
        let ghost done = items@.take(k as int);
        let ghost more = items@.take(k + 1);
        let ghost before = state.env();
        let ghost before_flags = state.used@;
        assert(more.drop_last() =~= done);
        assert(more.last() == items@[k as int]);
        visit_guard(&items[k], line, warn, state, diagnostics, plans);
        proof {
            enter_concat(start, ast::guards_events(done), ast::guard_events(more.last()));
            guards_use_bounded(done, start);
            grows_then(
                flags,
                before_flags,
                state.used@,
                |i: int| guards_use(done, start, i),
                |i: int| guard_uses(more.last(), before, i),
                |i: int| guards_use(more, start, i),
            );
        }
        assert(diagnostic::reports(diagnostics@) =~= reported + asked(
            warn,
            guards_warnings(more, line as nat, plan_views(plans@)),
        ));
        k = k + 1;
    }
    assert(items@.take(items.len() as int) =~= items@);
}

/// `true` when a key of a pattern refers to local `i` of its scope.
pub open spec fn bounded_keys(keys: Seq<SyntaxKeyExpr>, env: Env, i: int) -> bool {
    i < env.scope.len() && keys_use(keys, env.scope, i)
}

/// Walks a guard clause: its expression, then its pattern.
fn visit_guard(
    guard: &SyntaxGuardClause,
    line: usize,
    warn: bool,
    state: &mut BranchScope,
    diagnostics: &mut Vec<Diagnostic>,
    plans: &Vec<BlockPlan>,
)
    requires
        old(state).wf(),
    ensures
        final(state).wf(),
        final(state).env() == enter(old(state).env(), ast::guard_events(*guard)),
        grows(
            old(state).used@,
            final(state).used@,
            |i: int| guard_uses(*guard, old(state).env(), i),
        ),
        diagnostic::reports(final(diagnostics)@) == diagnostic::reports(old(diagnostics)@) + asked(
            warn,
            guard_warnings(*guard, line as nat, plan_views(plans@)),
        ),
    decreases guard, 0nat,
{
    let ghost start = state.env();
    let ghost reported = diagnostic::reports(diagnostics@);
    let ghost flags = state.used@;
    match guard {
        SyntaxGuardClause::Pass => {},
        SyntaxGuardClause::Effect(expr) => {
            visit_owned(expr, line, warn, state, diagnostics, plans);
            proof {
                enter_expression(start, *expr, Seq::empty());
            }
        },
        SyntaxGuardClause::EffectBind { pattern, operation } => {
            visit_owned(operation, line, warn, state, diagnostics, plans);
            let ghost middle = state.used@;
            visit_pattern(pattern, line, warn, state, diagnostics, plans);
            proof {
                enter_expression(start, *operation, ast::pattern_events(*pattern));
                grows_then(
                    flags,
                    middle,
                    state.used@,
                    |i: int| i < start.scope.len() && uses(*operation, start.scope, i),
                    |i: int| pattern_uses(*pattern, start, i),
                    |i: int| guard_uses(*guard, start, i),
                );
            }
        },
        SyntaxGuardClause::ValueBind { pattern, value } => {
            visit_owned(value, line, warn, state, diagnostics, plans);
            let ghost middle = state.used@;
            visit_pattern(pattern, line, warn, state, diagnostics, plans);
            proof {
                enter_expression(start, *value, ast::pattern_events(*pattern));
                grows_then(
                    flags,
                    middle,
                    state.used@,
                    |i: int| i < start.scope.len() && uses(*value, start.scope, i),
                    |i: int| pattern_uses(*pattern, start, i),
                    |i: int| guard_uses(*guard, start, i),
                );
            }
        },
    }
    assert(diagnostic::reports(diagnostics@) =~= reported + asked(
        warn,
        guard_warnings(*guard, line as nat, plan_views(plans@)),
    ));
}

/// Walks a pattern in matching order.
fn visit_pattern(
    pattern: &SyntaxPattern,
    line: usize,
    warn: bool,
    state: &mut BranchScope,
    diagnostics: &mut Vec<Diagnostic>,
    plans: &Vec<BlockPlan>,
)
    requires
        old(state).wf(),
    ensures
        final(state).wf(),
        final(state).env() == enter(old(state).env(), ast::pattern_events(*pattern)),
        grows(
            old(state).used@,
            final(state).used@,
            |i: int| pattern_uses(*pattern, old(state).env(), i),
        ),
        diagnostic::reports(final(diagnostics)@) == diagnostic::reports(old(diagnostics)@) + asked(
            warn,
            pattern_warnings(*pattern, line as nat, plan_views(plans@)),
        ),
    decreases pattern, 0nat,
{
    let ghost start = state.env();
    let ghost reported = diagnostic::reports(diagnostics@);
    let ghost flags = state.used@;
    match &pattern.kind {
        SyntaxPatternKind::Capture(name) => {
            state.capture(name.as_str());
            proof {
                enter_capture(start, name@);
            }
        },
        SyntaxPatternKind::Wildcard | SyntaxPatternKind::Literal(_) => {},
        SyntaxPatternKind::List { prefix, middle, suffix } => {
            visit_patterns(prefix, line, warn, state, diagnostics, plans);
            let ghost prefix_flags = state.used@;
            let ghost after_prefix = state.env();
            let ghost inner_events = match middle {
                Some(inner) => ast::pattern_events(**inner),
                None => Seq::empty(),
            };
            match middle {
                Some(inner) => visit_pattern(inner, line, warn, state, diagnostics, plans),
                None => {},
            }
            let ghost middle_flags = state.used@;
            let ghost after_middle = state.env();
            visit_patterns(suffix, line, warn, state, diagnostics, plans);
            proof {
                let a = ast::patterns_events(prefix@);
                enter_concat(start, a, inner_events);
                enter_concat(start, a + inner_events, ast::patterns_events(suffix@));
                patterns_use_bounded(prefix@, start);
                enter_extends(after_prefix, inner_events);
                let f = |i: int| patterns_use(prefix@, start, i);
                let g = |i: int|
                    match middle {
                        Some(inner) => pattern_uses(**inner, after_prefix, i),
                        None => false,
                    };
                if let Some(inner) = middle {
                    pattern_uses_bounded(**inner, after_prefix);
                }
                let fg = |i: int| f(i) || g(i);
                grows_then(flags, prefix_flags, middle_flags, f, g, fg);
                grows_then(
                    flags,
                    middle_flags,
                    state.used@,
                    fg,
                    |i: int| patterns_use(suffix@, after_middle, i),
                    |i: int| pattern_uses(*pattern, start, i),
                );
            }
        },
        SyntaxPatternKind::Dict { entries, remainder } => {
            visit_entries(entries, line, warn, state, diagnostics, plans);
            let ghost entry_flags = state.used@;
            let ghost after_entries = state.env();
            let ghost inner_events = match remainder {
                Some(inner) => ast::pattern_events(**inner),
                None => Seq::empty(),
            };
            match remainder {
                Some(inner) => visit_pattern(inner, line, warn, state, diagnostics, plans),
                None => {},
            }
            proof {
                enter_concat(start, ast::entries_events(entries@), inner_events);
                entries_use_bounded(entries@, start);
                grows_then(
                    flags,
                    entry_flags,
                    state.used@,
                    |i: int| entries_use(entries@, start, i),
                    |i: int|
                        match remainder {
                            Some(inner) => pattern_uses(**inner, after_entries, i),
                            None => false,
                        },
                    |i: int| pattern_uses(*pattern, start, i),
                );
            }
        },
        SyntaxPatternKind::QuotedPath(path) => {
            visit_keys(path, line, warn, state, diagnostics, plans);
        },
        SyntaxPatternKind::Group(inner) => {
            visit_pattern(inner, line, warn, state, diagnostics, plans);
        },
        SyntaxPatternKind::As(left, right) => {
            visit_pattern(left, line, warn, state, diagnostics, plans);
            let ghost left_flags = state.used@;
            let ghost after_left = state.env();
            visit_pattern(right, line, warn, state, diagnostics, plans);
            proof {
                enter_concat(start, ast::pattern_events(**left), ast::pattern_events(**right));
                pattern_uses_bounded(**left, start);
                grows_then(
                    flags,
                    left_flags,
                    state.used@,
                    |i: int| pattern_uses(**left, start, i),
                    |i: int| pattern_uses(**right, after_left, i),
                    |i: int| pattern_uses(*pattern, start, i),
                );
            }
        },
        SyntaxPatternKind::View { view: owned, pattern: inner }
        | SyntaxPatternKind::Predicate { predicate: owned, pattern: inner } => {
            visit_owned(owned, line, warn, state, diagnostics, plans);
            let ghost owned_flags = state.used@;
            visit_pattern(inner, line, warn, state, diagnostics, plans);
            proof {
                enter_expression(start, **owned, ast::pattern_events(**inner));
                grows_then(
                    flags,
                    owned_flags,
                    state.used@,
                    |i: int| i < start.scope.len() && uses(**owned, start.scope, i),
                    |i: int| pattern_uses(**inner, start, i),
                    |i: int| pattern_uses(*pattern, start, i),
                );
            }
        },
        SyntaxPatternKind::Guarded { pattern: inner, guards } => {
            visit_pattern(inner, line, warn, state, diagnostics, plans);
            let ghost inner_flags = state.used@;
            let ghost after_inner = state.env();
            visit_guards(guards, line, warn, state, diagnostics, plans);
            proof {
                enter_concat(start, ast::pattern_events(**inner), ast::guards_events(guards@));
                pattern_uses_bounded(**inner, start);
                grows_then(
                    flags,
                    inner_flags,
                    state.used@,
                    |i: int| pattern_uses(**inner, start, i),
                    |i: int| guards_use(guards@, after_inner, i),
                    |i: int| pattern_uses(*pattern, start, i),
                );
            }
        },
    }
    assert(diagnostic::reports(diagnostics@) =~= reported + asked(
        warn,
        pattern_warnings(*pattern, line as nat, plan_views(plans@)),
    ));
}

/// Declares the abstract names of a `do` step.
fn declare_names(raws: &Vec<String>, state: &mut BranchScope)
    requires
        old(state).wf(),
    ensures
        final(state).wf(),
        final(state).env() == declare_all(old(state).env(), text::texts(raws@)),
        grows(old(state).used@, final(state).used@, |i: int| false),
{
    let ghost all = text::texts(raws@);
    let ghost start = state.env();
    let ghost flags = state.used@;
    let mut k: usize = 0;
    assert(all.take(0) =~= Seq::<Seq<char>>::empty());
    while k < raws.len()
        invariant
            k <= raws.len(),
            all == text::texts(raws@),
            state.wf(),
            state.env() == declare_all(start, all.take(k as int)),
            grows(flags, state.used@, |i: int| false),
        decreases raws.len() - k,
    {
        state.declare(raws[k].as_str());
        assert(all.take(k + 1).drop_last() =~= all.take(k as int));
        assert(all.take(k + 1).last() == raws@[k as int]@);
        k = k + 1;
    }
    assert(all.take(raws.len() as int) =~= all);
}

/// Walks one step of a `do` block.
fn visit_step(
    step: &DoStep,
    warn: bool,
    state: &mut BranchScope,
    diagnostics: &mut Vec<Diagnostic>,
    plans: &Vec<BlockPlan>,
)
    requires
        old(state).wf(),
    ensures
        final(state).wf(),
        final(state).env() == step_env(old(state).env(), *step),
        grows(
            old(state).used@,
            final(state).used@,
            |i: int| step_uses(*step, old(state).env(), i),
        ),
        diagnostic::reports(final(diagnostics)@) == diagnostic::reports(old(diagnostics)@) + asked(
            warn,
            step_warnings(*step, plan_views(plans@)),
        ),
    decreases step, 0nat,
{
    let ghost start = state.env();
    let ghost reported = diagnostic::reports(diagnostics@);
    let ghost flags = state.used@;
    let line = step.line;
    match &step.kind {
        DoStepKind::Abstract(raws) => {
            declare_names(raws, state);
        },
        DoStepKind::Bind { pattern, operation: owned }
        | DoStepKind::ValueBind { pattern, value: owned } => {
            visit_owned(owned, line, warn, state, diagnostics, plans);
            let ghost middle = state.used@;
            visit_pattern(pattern, line, warn, state, diagnostics, plans);
            proof {
                grows_then(
                    flags,
                    middle,
                    state.used@,
                    |i: int| i < start.scope.len() && uses(*owned, start.scope, i),
                    |i: int| pattern_uses(*pattern, start, i),
                    |i: int| step_uses(*step, start, i),
                );
            }
        },
        DoStepKind::Then(expr) => visit_owned(expr, line, warn, state, diagnostics, plans),
    }
    assert(diagnostic::reports(diagnostics@) =~= reported + asked(warn, step_warnings(*step, plan_views(plans@))));
}

/// `true` when a `do` block refers to local `i` of its scope.
pub open spec fn do_uses(block: DoExpr, scope: Seq<LocalNameView>, i: int) -> bool {
    ||| steps_use(block.steps@, branch(scope), i)
    ||| uses(*block.result, do_env(branch(scope), block.steps@).scope, i)
}

pub fn mark_used_do_locals(block: &DoExpr, locals: &Vec<LocalName>, used: &mut Vec<bool>)
    requires
        locals.len() == old(used).len(),
    ensures
        marks(old(used)@, final(used)@, |i: int| do_uses(*block, names::local_views(locals@), i)),
    decreases block, 0nat,
{
    let plans: Vec<BlockPlan> = Vec::new();
    let mut state = BranchScope::new(locals, used);
    let ghost start = state.env();
    let ghost flags = state.used@;
    let mut silent: Vec<Diagnostic> = Vec::new();
    let mut k: usize = 0;
    while k < block.steps.len()
        invariant
            k <= block.steps.len(),
            state.wf(),
            state.env() == do_env(start, block.steps@.take(k as int)),
            grows(flags, state.used@, |i: int| steps_use(block.steps@.take(k as int), start, i)),
        decreases block.steps.len() - k,
    {
        let ghost done = block.steps@.take(k as int);
        let ghost more = block.steps@.take(k + 1);
        let ghost before = state.env();
        let ghost before_flags = state.used@;
        assert(more.drop_last() =~= done);
        assert(more.last() == block.steps@[k as int]);
        visit_step(&block.steps[k], false, &mut state, &mut silent, &plans);
        proof {
            steps_use_bounded(done, start);
            grows_then(
                flags,
                before_flags,
                state.used@,
                |i: int| steps_use(done, start, i),
                |i: int| step_uses(more.last(), before, i),
                |i: int| steps_use(more, start, i),
            );
        }
        k = k + 1;
    }
    assert(block.steps@.take(block.steps.len() as int) =~= block.steps@);
    let ghost middle = state.used@;
    mark_used_locals(&block.result, &state.locals, &mut state.used);
    restore_flags(used, &state.used);
    assert forall|i: int| 0 <= i < used.len() implies #[trigger] used@[i] == (old(used)@[i]
        || do_uses(*block, names::local_views(locals@), i)) by {
        assert(middle[i] == (flags[i] || steps_use(block.steps@, start, i)));
        assert(state.used@[i] == used@[i]);
    }
}

/// The name of a borrowed alias.
pub open spec fn alias_view(alias: Option<&str>) -> Option<Seq<char>> {
    match alias {
        Some(name) => Some(name@),
        None => None,
    }
}

fn prior_in_keys(items: &Vec<SyntaxKeyExpr>, alias: Option<&str>, used: &mut bool)
    ensures
        *final(used) == (*old(used) || keys_prior(items@, alias_view(alias))),
    decreases items, 0nat,
{
    let mut k: usize = 0;
    while k < items.len()
        invariant
            k <= items.len(),
            *used == (*old(used) || keys_prior(items@.take(k as int), alias_view(alias))),
        decreases items.len() - k,
    {
        assert(items@.take(k + 1).drop_last() =~= items@.take(k as int));
        assert(items@.take(k + 1).last() == items@[k as int]);
        mark_used_prior_alias_in_key(&items[k], alias, used);
        k = k + 1;
    }
    assert(items@.take(items.len() as int) =~= items@);
}

fn prior_in_exprs(items: &Vec<SyntaxExpr>, alias: Option<&str>, used: &mut bool)
    ensures
        *final(used) == (*old(used) || exprs_prior(items@, alias_view(alias))),
    decreases items, 0nat,
{
    let mut k: usize = 0;
    while k < items.len()
        invariant
            k <= items.len(),
            *used == (*old(used) || exprs_prior(items@.take(k as int), alias_view(alias))),
        decreases items.len() - k,
    {
        assert(items@.take(k + 1).drop_last() =~= items@.take(k as int));
        assert(items@.take(k + 1).last() == items@[k as int]);
        mark_used_prior_alias(&items[k], alias, used);
        k = k + 1;
    }
    assert(items@.take(items.len() as int) =~= items@);
}

fn prior_in_bindings(items: &Vec<(String, SyntaxExpr)>, alias: Option<&str>, used: &mut bool)
    ensures
        *final(used) == (*old(used) || bindings_prior(items@, alias_view(alias))),
    decreases items, 0nat,
{
    let mut k: usize = 0;
    while k < items.len()
        invariant
            k <= items.len(),
            *used == (*old(used) || bindings_prior(items@.take(k as int), alias_view(alias))),
        decreases items.len() - k,
    {
        assert(items@.take(k + 1).drop_last() =~= items@.take(k as int));
        assert(items@.take(k + 1).last() == items@[k as int]);
        mark_used_prior_alias(&items[k].1, alias, used);
        k = k + 1;
    }
    assert(items@.take(items.len() as int) =~= items@);
}

fn prior_in_links(items: &Vec<(SyntaxOperator, SyntaxExpr)>, alias: Option<&str>, used: &mut bool)
    ensures
        *final(used) == (*old(used) || links_prior(items@, alias_view(alias))),
    decreases items, 0nat,
{
    let mut k: usize = 0;
    while k < items.len()
        invariant
            k <= items.len(),
            *used == (*old(used) || links_prior(items@.take(k as int), alias_view(alias))),
        decreases items.len() - k,
    {
        assert(items@.take(k + 1).drop_last() =~= items@.take(k as int));
        assert(items@.take(k + 1).last() == items@[k as int]);
        mark_used_prior_alias(&items[k].1, alias, used);
        k = k + 1;
    }
    assert(items@.take(items.len() as int) =~= items@);
}

fn prior_in_body(items: &Vec<ObjectBodyDefinition>, alias: Option<&str>, used: &mut bool)
    ensures
        *final(used) == (*old(used) || body_prior(items@, alias_view(alias))),
    decreases items, 0nat,
{
    let mut k: usize = 0;
    while k < items.len()
        invariant
            k <= items.len(),
            *used == (*old(used) || body_prior(items@.take(k as int), alias_view(alias))),
        decreases items.len() - k,
    {
        assert(items@.take(k + 1).drop_last() =~= items@.take(k as int));
        assert(items@.take(k + 1).last() == items@[k as int]);
        mark_used_body_item_prior_alias(&items[k], alias, used);
        k = k + 1;
    }
    assert(items@.take(items.len() as int) =~= items@);
}

fn prior_in_patterns(items: &Vec<SyntaxPattern>, alias: Option<&str>, used: &mut bool)
    ensures
        *final(used) == (*old(used) || patterns_prior(items@, alias_view(alias))),
    decreases items, 0nat,
{
    let mut k: usize = 0;
    while k < items.len()
        invariant
            k <= items.len(),
            *used == (*old(used) || patterns_prior(items@.take(k as int), alias_view(alias))),
        decreases items.len() - k,
    {
        assert(items@.take(k + 1).drop_last() =~= items@.take(k as int));
        assert(items@.take(k + 1).last() == items@[k as int]);
        prior_in_pattern(&items[k], alias, used);
        k = k + 1;
    }
    assert(items@.take(items.len() as int) =~= items@);
}

fn prior_in_entries(items: &Vec<SyntaxDictPatternEntry>, alias: Option<&str>, used: &mut bool)
    ensures
        *final(used) == (*old(used) || entries_prior(items@, alias_view(alias))),
    decreases items, 0nat,
{
    let mut k: usize = 0;
    while k < items.len()
        invariant
            k <= items.len(),
            *used == (*old(used) || entries_prior(items@.take(k as int), alias_view(alias))),
        decreases items.len() - k,
    {
        assert(items@.take(k + 1).drop_last() =~= items@.take(k as int));
        assert(items@.take(k + 1).last() == items@[k as int]);
        prior_in_keys(&items[k].path, alias, used);
        prior_in_pattern(&items[k].pattern, alias, used);
        k = k + 1;
    }
    assert(items@.take(items.len() as int) =~= items@);
}

fn prior_in_guards(items: &Vec<SyntaxGuardClause>, alias: Option<&str>, used: &mut bool)
    ensures
        *final(used) == (*old(used) || guards_prior(items@, alias_view(alias))),
    decreases items, 0nat,
{
    let mut k: usize = 0;
    while k < items.len()
        invariant
            k <= items.len(),
            *used == (*old(used) || guards_prior(items@.take(k as int), alias_view(alias))),
        decreases items.len() - k,
    {
        assert(items@.take(k + 1).drop_last() =~= items@.take(k as int));
        assert(items@.take(k + 1).last() == items@[k as int]);
        prior_in_guard(&items[k], alias, used);
        k = k + 1;
    }
    assert(items@.take(items.len() as int) =~= items@);
}

fn prior_in_steps(items: &Vec<DoStep>, alias: Option<&str>, used: &mut bool)
    ensures
        *final(used) == (*old(used) || steps_prior(items@, alias_view(alias))),
    decreases items, 0nat,
{
    let mut k: usize = 0;
    while k < items.len()
        invariant
            k <= items.len(),
            *used == (*old(used) || steps_prior(items@.take(k as int), alias_view(alias))),
        decreases items.len() - k,
    {
        assert(items@.take(k + 1).drop_last() =~= items@.take(k as int));
        assert(items@.take(k + 1).last() == items@[k as int]);
        assert(step_prior(items@[k as int], alias_view(alias)) == match step_expr(items@[k as int]) {
            Some(expr) => prior(expr, alias_view(alias)),
            None => false,
        });
        match do_step_expr(&items[k]) {
            Some(expr) => mark_used_prior_alias(expr, alias, used),
            None => {},
        }
        k = k + 1;
    }
    assert(items@.take(items.len() as int) =~= items@);
}

fn prior_in_when_arms(items: &Vec<WhenArm>, alias: Option<&str>, used: &mut bool)
    ensures
        *final(used) == (*old(used) || when_arms_prior(items@, alias_view(alias))),
    decreases items, 0nat,
{
    let mut k: usize = 0;
    while k < items.len()
        invariant
            k <= items.len(),
            *used == (*old(used) || when_arms_prior(items@.take(k as int), alias_view(alias))),
        decreases items.len() - k,
    {
        assert(items@.take(k + 1).drop_last() =~= items@.take(k as int));
        assert(items@.take(k + 1).last() == items@[k as int]);
        assert(when_arm_prior(items@[k as int], alias_view(alias)) == (guards_prior(
            items@[k as int].guards@,
            alias_view(alias),
        ) || outcome_prior(items@[k as int].outcome, alias_view(alias))));
        prior_in_guards(&items[k].guards, alias, used);
        mark_used_prior_alias_in_outcome(&items[k].outcome, alias, used);
        k = k + 1;
    }
    assert(items@.take(items.len() as int) =~= items@);
}

fn prior_in_arms(items: &Vec<MatchArm>, alias: Option<&str>, used: &mut bool)
    ensures
        *final(used) == (*old(used) || arms_prior(items@, alias_view(alias))),
    decreases items, 0nat,
{
    let mut k: usize = 0;
    while k < items.len()
        invariant
            k <= items.len(),
            *used == (*old(used) || arms_prior(items@.take(k as int), alias_view(alias))),
        decreases items.len() - k,
    {
        assert(items@.take(k + 1).drop_last() =~= items@.take(k as int));
        assert(items@.take(k + 1).last() == items@[k as int]);
        assert(arm_prior(items@[k as int], alias_view(alias)) == (pattern_prior(
            items@[k as int].pattern,
            alias_view(alias),
        ) || guards_prior(items@[k as int].guards@, alias_view(alias)) || outcome_prior(
            items@[k as int].outcome,
            alias_view(alias),
        )));
        prior_in_pattern(&items[k].pattern, alias, used);
        prior_in_guards(&items[k].guards, alias, used);
        mark_used_prior_alias_in_outcome(&items[k].outcome, alias, used);
        k = k + 1;
    }
    assert(items@.take(items.len() as int) =~= items@);
}

/// Records whether an expression refers to the prior value of an alias.
pub fn mark_used_prior_alias(expr: &SyntaxExpr, alias: Option<&str>, used: &mut bool)
    ensures
        *final(used) == (*old(used) || prior(*expr, alias_view(alias))),
    decreases expr, 0nat,
{
    match expr {
        SyntaxExpr::PriorName(name) => {
            if let Some(wanted) = alias {
                if same_text(name.as_str(), wanted) {
                    *used = true;
                }
            }
        },
        SyntaxExpr::Unit
        | SyntaxExpr::Embedded(_)
        | SyntaxExpr::Number(_)
        | SyntaxExpr::Text(_)
        | SyntaxExpr::Atom(_)
        | SyntaxExpr::Effect(_)
        | SyntaxExpr::Name(_) => {},
        SyntaxExpr::Escape(_, inner) => mark_used_prior_alias(inner, alias, used),
        SyntaxExpr::Access(base, parts) => {
            mark_used_prior_alias(base, alias, used);
            prior_in_keys(parts, alias, used);
        },
        SyntaxExpr::Object(object) => {
            match &object.name {
                Some(name) => mark_used_prior_alias(name, alias, used),
                None => {},
            }
            prior_in_exprs(&object.deps, alias, used);
            prior_in_body(&object.body, alias, used);
        },
        SyntaxExpr::With { base, body, .. } => {
            mark_used_prior_alias(base, alias, used);
            prior_in_body(body, alias, used);
        },
        SyntaxExpr::Using { namespace, body } => {
            mark_used_prior_alias(namespace, alias, used);
            mark_used_prior_alias(body, alias, used);
        },
        SyntaxExpr::PathDict(path, value) => {
            prior_in_keys(path, alias, used);
            mark_used_prior_alias(value, alias, used);
        },
        SyntaxExpr::TaggedConstructor(path) => prior_in_keys(path, alias, used),
        SyntaxExpr::DictUnion(items) | SyntaxExpr::List(items) | SyntaxExpr::Tuple(items) => {
            prior_in_exprs(items, alias, used);
        },
        SyntaxExpr::Lambda(_, body) => mark_used_prior_alias(body, alias, used),
        SyntaxExpr::Do(block) => {
            prior_in_steps(&block.steps, alias, used);
            mark_used_prior_alias(&block.result, alias, used);
        },
        SyntaxExpr::If(choice) => {
            prior_in_guards(&choice.guards, alias, used);
            mark_used_prior_alias(&choice.then_result, alias, used);
            mark_used_prior_alias(&choice.else_result, alias, used);
        },
        SyntaxExpr::Match(choice) => {
            mark_used_prior_alias(&choice.subject, alias, used);
            prior_in_arms(&choice.arms, alias, used);
        },
        SyntaxExpr::MatchWhen(choice) => prior_in_when_arms(&choice.arms, alias, used),
        SyntaxExpr::Let { bindings, body } => {
            prior_in_bindings(bindings, alias, used);
            mark_used_prior_alias(body, alias, used);
        },
        SyntaxExpr::OperatorSection { left, right, .. } => {
            match left {
                Some(left) => mark_used_prior_alias(left, alias, used),
                None => {},
            }
            match right {
                Some(right) => mark_used_prior_alias(right, alias, used),
                None => {},
            }
        },
        SyntaxExpr::ComparisonChain { first, rest } => {
            mark_used_prior_alias(first, alias, used);
            prior_in_links(rest, alias, used);
        },
        SyntaxExpr::OperatorApply { left, right, .. }
        | SyntaxExpr::Apply(left, right)
        | SyntaxExpr::Multiply(left, right)
        | SyntaxExpr::Divide(left, right)
        | SyntaxExpr::Add(left, right)
        | SyntaxExpr::Subtract(left, right)
        | SyntaxExpr::Append(left, right) => {
            mark_used_prior_alias(left, alias, used);
            mark_used_prior_alias(right, alias, used);
        },
    }
}

pub fn mark_used_prior_alias_in_key(key: &SyntaxKeyExpr, alias: Option<&str>, used: &mut bool)
    ensures
        *final(used) == (*old(used) || key_prior(*key, alias_view(alias))),
    decreases key, 0nat,
{
    match key {
        SyntaxKeyExpr::Atom(_) => {},
        SyntaxKeyExpr::Index(expr) => mark_used_prior_alias(expr, alias, used),
        SyntaxKeyExpr::PathIndex(expr) => mark_used_prior_alias(expr, alias, used),
    }
}

pub fn mark_used_body_item_prior_alias(
    item: &ObjectBodyDefinition,
    alias: Option<&str>,
    used: &mut bool,
)
    ensures
        *final(used) == (*old(used) || item_prior(*item, alias_view(alias))),
    decreases item, 0nat,
{
    match &item.kind {
        ObjectBodyDefinitionKind::Definition(definition) => match &definition.expr {
            Some(expr) => mark_used_prior_alias(expr, alias, used),
            None => {},
        },
        ObjectBodyDefinitionKind::Object(object) => {
            prior_in_exprs(&object.deps, alias, used);
            prior_in_body(&object.body, alias, used);
        },
        ObjectBodyDefinitionKind::Extend(extend) => prior_in_body(&extend.body, alias, used),
    }
}

fn prior_in_pattern(pattern: &SyntaxPattern, alias: Option<&str>, used: &mut bool)
    ensures
        *final(used) == (*old(used) || pattern_prior(*pattern, alias_view(alias))),
    decreases pattern, 0nat,
{
    match &pattern.kind {
        SyntaxPatternKind::Capture(_)
        | SyntaxPatternKind::Wildcard
        | SyntaxPatternKind::Literal(_) => {},
        SyntaxPatternKind::List { prefix, middle, suffix } => {
            prior_in_patterns(prefix, alias, used);
            match middle {
                Some(inner) => prior_in_pattern(inner, alias, used),
                None => {},
            }
            prior_in_patterns(suffix, alias, used);
        },
        SyntaxPatternKind::Dict { entries, remainder } => {
            prior_in_entries(entries, alias, used);
            match remainder {
                Some(inner) => prior_in_pattern(inner, alias, used),
                None => {},
            }
        },
        SyntaxPatternKind::QuotedPath(path) => prior_in_keys(path, alias, used),
        SyntaxPatternKind::Group(inner) => prior_in_pattern(inner, alias, used),
        SyntaxPatternKind::As(left, right) => {
            prior_in_pattern(left, alias, used);
            prior_in_pattern(right, alias, used);
        },
        SyntaxPatternKind::View { view: owned, pattern: inner }
        | SyntaxPatternKind::Predicate { predicate: owned, pattern: inner } => {
            mark_used_prior_alias(owned, alias, used);
            prior_in_pattern(inner, alias, used);
        },
        SyntaxPatternKind::Guarded { pattern: inner, guards } => {
            prior_in_pattern(inner, alias, used);
            prior_in_guards(guards, alias, used);
        },
    }
}

fn prior_in_guard(guard: &SyntaxGuardClause, alias: Option<&str>, used: &mut bool)
    ensures
        *final(used) == (*old(used) || guard_prior(*guard, alias_view(alias))),
    decreases guard, 0nat,
{
    match guard {
        SyntaxGuardClause::Pass => {},
        SyntaxGuardClause::Effect(expr) => mark_used_prior_alias(expr, alias, used),
        SyntaxGuardClause::EffectBind { pattern, operation: owned }
        | SyntaxGuardClause::ValueBind { pattern, value: owned } => {
            mark_used_prior_alias(owned, alias, used);
            prior_in_pattern(pattern, alias, used);
        },
    }
}

pub fn mark_used_prior_alias_in_outcome(
    outcome: &MatchOutcome,
    alias: Option<&str>,
    used: &mut bool,
)
    ensures
        *final(used) == (*old(used) || outcome_prior(*outcome, alias_view(alias))),
    decreases outcome, 0nat,
{
    match outcome {
        MatchOutcome::Result { expression, .. } => mark_used_prior_alias(expression, alias, used),
        MatchOutcome::Nested(arms) => prior_in_when_arms(arms, alias, used),
    }
}

/// Reports a local that is not used.
fn report_unused(raw: &str, line: usize, diagnostics: &mut Vec<Diagnostic>)
    ensures
        diagnostic::reports(final(diagnostics)@) == diagnostic::reports(old(diagnostics)@).push(
            diagnostic::warning_at(line as nat, unused_message(raw@)),
        ),
{
    let mut message = "unused local `".to_owned();
    message.append(raw);
    message.append("`");
    report(diagnostics, Diagnostic::warn(line, message.as_str()));
}

/// Reports the locals whose flags are unset, each on its own line.
fn warn_unused_at(
    locals: &Vec<LocalName>,
    used: &Vec<bool>,
    lines: &Vec<usize>,
    diagnostics: &mut Vec<Diagnostic>,
)
    requires
        locals.len() == used.len() == lines.len(),
    ensures
        diagnostic::reports(final(diagnostics)@) == diagnostic::reports(old(diagnostics)@) + unused(
            names::local_views(locals@),
            |k: int| used@[k],
            |k: int| lines@[k] as nat,
        ),
{
    let ghost scope = names::local_views(locals@);
    let ghost flags = |k: int| used@[k];
    let ghost rows = |k: int| lines@[k] as nat;
    let ghost reported = diagnostic::reports(diagnostics@);
    let mut k: usize = 0;
    assert(diagnostic::reports(diagnostics@) =~= reported + unused(scope.take(0), flags, rows));
    while k < locals.len()
        invariant
            k <= locals.len(),
            locals.len() == used.len() == lines.len(),
            scope == names::local_views(locals@),
            flags == (|k: int| used@[k]),
            rows == (|k: int| lines@[k] as nat),
            diagnostic::reports(diagnostics@) == reported + unused(
                scope.take(k as int),
                flags,
                rows,
            ),
        decreases locals.len() - k,
    {
        assert(scope.take(k + 1).drop_last() =~= scope.take(k as int));
        assert(scope.take(k + 1)[k as int] == locals@[k as int]@);
        let local = &locals[k];
        if !used[k] && local.canonical.is_some() && !local.suppress_unused_warning {
            report_unused(local.raw.as_str(), lines[k], diagnostics);
        }
        assert(diagnostic::reports(diagnostics@) =~= reported + unused(
            scope.take(k + 1),
            flags,
            rows,
        ));
        k = k + 1;
    }
    assert(scope.take(locals.len() as int) =~= scope);
}

proof fn unused_same(
    locals: Seq<LocalNameView>,
    f: spec_fn(int) -> bool,
    g: spec_fn(int) -> bool,
    p: spec_fn(int) -> nat,
    q: spec_fn(int) -> nat,
)
    requires
        forall|k: int| 0 <= k < locals.len() ==> #[trigger] f(k) == g(k),
        forall|k: int| 0 <= k < locals.len() ==> #[trigger] p(k) == q(k),
    ensures
        unused(locals, f, p) == unused(locals, g, q),
    decreases locals.len(),
{
    if locals.len() > 0 {
        unused_same(locals.drop_last(), f, g, p, q);
        assert(f(locals.len() - 1) == g(locals.len() - 1));
        assert(p(locals.len() - 1) == q(locals.len() - 1));
    }
}

/// Reports the locals whose flags are unset, all on one line.
pub fn warn_unused_branch_locals(
    locals: &Vec<LocalName>,
    used: &Vec<bool>,
    line: usize,
    diagnostics: &mut Vec<Diagnostic>,
)
    requires
        locals.len() == used.len(),
    ensures
        diagnostic::reports(final(diagnostics)@) == diagnostic::reports(old(diagnostics)@) + unused(
            names::local_views(locals@),
            |k: int| used@[k],
            |k: int| line as nat,
        ),
{
    let mut lines: Vec<usize> = Vec::new();
    while lines.len() < locals.len()
        invariant
            lines.len() <= locals.len(),
            forall|k: int| 0 <= k < lines.len() ==> lines[k] == line,
        decreases locals.len() - lines.len(),
    {
        lines.push(line);
    }
    warn_unused_at(locals, used, &lines, diagnostics);
    proof {
        unused_same(
            names::local_views(locals@),
            |k: int| used@[k],
            |k: int| used@[k],
            |k: int| lines@[k] as nat,
            |k: int| line as nat,
        );
    }
}

fn analyze_keys(
    items: &Vec<SyntaxKeyExpr>,
    line: usize,
    diagnostics: &mut Vec<Diagnostic>,
    plans: &Vec<BlockPlan>,
)
    ensures
        diagnostic::reports(final(diagnostics)@) == diagnostic::reports(old(diagnostics)@) + keys_warnings(
            items@, line as nat,
            plan_views(plans@),
        ),
    decreases items, 0nat,
{
    let ghost reported = diagnostic::reports(diagnostics@);
    let mut k: usize = 0;
    assert(diagnostic::reports(diagnostics@) =~= reported + keys_warnings(items@.take(0), line as nat, plan_views(plans@)));
    while k < items.len()
        invariant
            k <= items.len(),
            diagnostic::reports(diagnostics@) == reported + keys_warnings(items@.take(k as int), line as nat, plan_views(plans@)),
        decreases items.len() - k,
    {
        assert(items@.take(k + 1).drop_last() =~= items@.take(k as int));
        assert(items@.take(k + 1).last() == items@[k as int]);
        analyze_key_expr_locals(&items[k], line, diagnostics, plans);
        assert(diagnostic::reports(diagnostics@) =~= reported + keys_warnings(items@.take(k + 1), line as nat, plan_views(plans@)));
        k = k + 1;
    }
    assert(items@.take(items.len() as int) =~= items@);
}

fn analyze_exprs(
    items: &Vec<SyntaxExpr>,
    line: usize,
    diagnostics: &mut Vec<Diagnostic>,
    plans: &Vec<BlockPlan>,
)
    ensures
        diagnostic::reports(final(diagnostics)@) == diagnostic::reports(old(diagnostics)@) + exprs_warnings(
            items@, line as nat,
            plan_views(plans@),
        ),
    decreases items, 0nat,
{
    let ghost reported = diagnostic::reports(diagnostics@);
    let mut k: usize = 0;
    assert(diagnostic::reports(diagnostics@) =~= reported + exprs_warnings(items@.take(0), line as nat, plan_views(plans@)));
    while k < items.len()
        invariant
            k <= items.len(),
            diagnostic::reports(diagnostics@) == reported + exprs_warnings(items@.take(k as int), line as nat, plan_views(plans@)),
        decreases items.len() - k,
    {
        assert(items@.take(k + 1).drop_last() =~= items@.take(k as int));
        assert(items@.take(k + 1).last() == items@[k as int]);
        analyze_expr_locals(&items[k], line, diagnostics, plans);
        assert(diagnostic::reports(diagnostics@) =~= reported + exprs_warnings(items@.take(k + 1), line as nat, plan_views(plans@)));
        k = k + 1;
    }
    assert(items@.take(items.len() as int) =~= items@);
}

fn analyze_bindings(
    items: &Vec<(String, SyntaxExpr)>,
    line: usize,
    diagnostics: &mut Vec<Diagnostic>,
    plans: &Vec<BlockPlan>,
)
    ensures
        diagnostic::reports(final(diagnostics)@) == diagnostic::reports(old(diagnostics)@) + bindings_warnings(
            items@, line as nat,
            plan_views(plans@),
        ),
    decreases items, 0nat,
{
    let ghost reported = diagnostic::reports(diagnostics@);
    let mut k: usize = 0;
    assert(diagnostic::reports(diagnostics@) =~= reported + bindings_warnings(items@.take(0), line as nat, plan_views(plans@)));
    while k < items.len()
        invariant
            k <= items.len(),
            diagnostic::reports(diagnostics@) == reported + bindings_warnings(items@.take(k as int), line as nat, plan_views(plans@)),
        decreases items.len() - k,
    {
        assert(items@.take(k + 1).drop_last() =~= items@.take(k as int));
        assert(items@.take(k + 1).last() == items@[k as int]);
        analyze_expr_locals(&items[k].1, line, diagnostics, plans);
        assert(diagnostic::reports(diagnostics@) =~= reported + bindings_warnings(items@.take(k + 1), line as nat, plan_views(plans@)));
        k = k + 1;
    }
    assert(items@.take(items.len() as int) =~= items@);
}

fn analyze_links(
    items: &Vec<(SyntaxOperator, SyntaxExpr)>,
    line: usize,
    diagnostics: &mut Vec<Diagnostic>,
    plans: &Vec<BlockPlan>,
)
    ensures
        diagnostic::reports(final(diagnostics)@) == diagnostic::reports(old(diagnostics)@) + links_warnings(
            items@, line as nat,
            plan_views(plans@),
        ),
    decreases items, 0nat,
{
    let ghost reported = diagnostic::reports(diagnostics@);
    let mut k: usize = 0;
    assert(diagnostic::reports(diagnostics@) =~= reported + links_warnings(items@.take(0), line as nat, plan_views(plans@)));
    while k < items.len()
        invariant
            k <= items.len(),
            diagnostic::reports(diagnostics@) == reported + links_warnings(items@.take(k as int), line as nat, plan_views(plans@)),
        decreases items.len() - k,
    {
        assert(items@.take(k + 1).drop_last() =~= items@.take(k as int));
        assert(items@.take(k + 1).last() == items@[k as int]);
        analyze_expr_locals(&items[k].1, line, diagnostics, plans);
        assert(diagnostic::reports(diagnostics@) =~= reported + links_warnings(items@.take(k + 1), line as nat, plan_views(plans@)));
        k = k + 1;
    }
    assert(items@.take(items.len() as int) =~= items@);
}

fn analyze_when_arms(
    items: &Vec<WhenArm>,
    diagnostics: &mut Vec<Diagnostic>,
    plans: &Vec<BlockPlan>,
)
    ensures
        diagnostic::reports(final(diagnostics)@) == diagnostic::reports(old(diagnostics)@) + when_arms_warnings(
            items@,
            plan_views(plans@),
        ),
    decreases items, 0nat,
{
    let ghost reported = diagnostic::reports(diagnostics@);
    let mut k: usize = 0;
    assert(diagnostic::reports(diagnostics@) =~= reported + when_arms_warnings(items@.take(0), plan_views(plans@)));
    while k < items.len()
        invariant
            k <= items.len(),
            diagnostic::reports(diagnostics@) == reported + when_arms_warnings(items@.take(k as int), plan_views(plans@)),
        decreases items.len() - k,
    {
        assert(items@.take(k + 1).drop_last() =~= items@.take(k as int));
        assert(items@.take(k + 1).last() == items@[k as int]);
        analyze_when_branch_locals(&items[k], diagnostics, plans);
        assert(diagnostic::reports(diagnostics@) =~= reported + when_arms_warnings(items@.take(k + 1), plan_views(plans@)));
        k = k + 1;
    }
    assert(items@.take(items.len() as int) =~= items@);
}

fn analyze_arms(items: &Vec<MatchArm>, diagnostics: &mut Vec<Diagnostic>, plans: &Vec<BlockPlan>)
    ensures
        diagnostic::reports(final(diagnostics)@) == diagnostic::reports(old(diagnostics)@) + arms_warnings(
            items@,
            plan_views(plans@),
        ),
    decreases items, 0nat,
{
    let ghost reported = diagnostic::reports(diagnostics@);
    let mut k: usize = 0;
    assert(diagnostic::reports(diagnostics@) =~= reported + arms_warnings(items@.take(0), plan_views(plans@)));
    while k < items.len()
        invariant
            k <= items.len(),
            diagnostic::reports(diagnostics@) == reported + arms_warnings(items@.take(k as int), plan_views(plans@)),
        decreases items.len() - k,
    {
        assert(items@.take(k + 1).drop_last() =~= items@.take(k as int));
        assert(items@.take(k + 1).last() == items@[k as int]);
        analyze_pattern_guard_outcome_branch_locals(&items[k], diagnostics, plans);
        assert(diagnostic::reports(diagnostics@) =~= reported + arms_warnings(items@.take(k + 1), plan_views(plans@)));
        k = k + 1;
    }
    assert(items@.take(items.len() as int) =~= items@);
}

pub fn analyze_object_body_locals(
    items: &Vec<ObjectBodyDefinition>,
    diagnostics: &mut Vec<Diagnostic>,
    plans: &Vec<BlockPlan>,
)
    ensures
        diagnostic::reports(final(diagnostics)@) == diagnostic::reports(old(diagnostics)@) + body_warnings(
            items@,
            plan_views(plans@),
        ),
    decreases items, 0nat,
{
    let ghost reported = diagnostic::reports(diagnostics@);
    let mut k: usize = 0;
    assert(diagnostic::reports(diagnostics@) =~= reported + body_warnings(items@.take(0), plan_views(plans@)));
    while k < items.len()
        invariant
            k <= items.len(),
            diagnostic::reports(diagnostics@) == reported + body_warnings(items@.take(k as int), plan_views(plans@)),
        decreases items.len() - k,
    {
        assert(items@.take(k + 1).drop_last() =~= items@.take(k as int));
        assert(items@.take(k + 1).last() == items@[k as int]);
        analyze_body_item(&items[k], diagnostics, plans);
        assert(diagnostic::reports(diagnostics@) =~= reported + body_warnings(items@.take(k + 1), plan_views(plans@)));
        k = k + 1;
    }
    assert(items@.take(items.len() as int) =~= items@);
}

pub fn analyze_body_item(
    item: &ObjectBodyDefinition,
    diagnostics: &mut Vec<Diagnostic>,
    plans: &Vec<BlockPlan>,
)
    ensures
        diagnostic::reports(final(diagnostics)@) == diagnostic::reports(old(diagnostics)@)
            + item_warnings(*item, plan_views(plans@)),
    decreases item, 0nat,
{
    let ghost reported = diagnostic::reports(diagnostics@);
    let line = item.line;
    match &item.kind {
        ObjectBodyDefinitionKind::Definition(definition) => match &definition.expr {
            Some(expr) => analyze_expr_locals(expr, line, diagnostics, plans),
            None => {},
        },
        ObjectBodyDefinitionKind::Object(object) => {
            analyze_exprs(&object.deps, line, diagnostics, plans);
            match &object.alias {
                Some(alias) => warn_unused_with_alias(
                    alias.as_str(),
                    &object.body,
                    line,
                    diagnostics,
                ),
                None => {},
            }
            analyze_object_body_locals(&object.body, diagnostics, plans);
        },
        ObjectBodyDefinitionKind::Extend(extend) => {
            match &extend.alias {
                Some(alias) => warn_unused_with_alias(
                    alias.as_str(),
                    &extend.body,
                    line,
                    diagnostics,
                ),
                None => {},
            }
            analyze_object_body_locals(&extend.body, diagnostics, plans);
        },
    }
    assert(diagnostic::reports(diagnostics@) =~= reported + item_warnings(*item, plan_views(plans@)));
}

/// Warns about an object alias that the object's body never uses.
pub fn warn_unused_with_alias(
    alias: &str,
    body: &Vec<ObjectBodyDefinition>,
    line: usize,
    diagnostics: &mut Vec<Diagnostic>,
)
    ensures
        diagnostic::reports(final(diagnostics)@) == diagnostic::reports(old(diagnostics)@)
            + alias_name_warnings(alias@, body@, line as nat),
    decreases body, 1nat,
{
    let ghost reported = diagnostic::reports(diagnostics@);
    let local = local_name_metadata(alias);
    if same_text(alias, "self") || local.canonical.is_none() || local.suppress_unused_warning {
        assert(diagnostic::reports(diagnostics@) =~= reported + alias_name_warnings(
            alias@,
            body@,
            line as nat,
        ));
        return;
    }
    let mut locals: Vec<LocalName> = Vec::new();
    push_local(&mut locals, alias);
    assert(names::local_views(locals@) =~= seq![names::local_name(alias@)]);
    let mut used: Vec<bool> = Vec::new();
    used.push(false);
    mark_used_body_locals(body, &locals, &mut used);
    let mut used_alias: bool = used[0];
    let canonical: Option<&str> = match &local.canonical {
        Some(name) => Some(name.as_str()),
        None => None,
    };
    prior_in_body(body, canonical, &mut used_alias);
    if !used_alias {
        report_unused(alias, line, diagnostics);
    }
    assert(diagnostic::reports(diagnostics@) =~= reported + alias_name_warnings(
        alias@,
        body@,
        line as nat,
    ));
}

pub fn analyze_key_expr_locals(
    key: &SyntaxKeyExpr,
    line: usize,
    diagnostics: &mut Vec<Diagnostic>,
    plans: &Vec<BlockPlan>,
)
    ensures
        diagnostic::reports(final(diagnostics)@) == diagnostic::reports(old(diagnostics)@)
            + key_warnings(*key, line as nat, plan_views(plans@)),
    decreases key, 0nat,
{
    match key {
        SyntaxKeyExpr::Atom(_) => {
            assert(diagnostic::reports(diagnostics@) =~= diagnostic::reports(old(diagnostics)@)
                + key_warnings(*key, line as nat, plan_views(plans@)));
        },
        SyntaxKeyExpr::Index(expr) => analyze_expr_locals(expr, line, diagnostics, plans),
        SyntaxKeyExpr::PathIndex(expr) => analyze_expr_locals(expr, line, diagnostics, plans),
    }
}

/// Reports the locals of a definition that it never uses.
pub fn warn_unused_locals(
    expr: &SyntaxExpr,
    line: usize,
    diagnostics: &mut Vec<Diagnostic>,
    plans: &Vec<BlockPlan>,
)
    ensures
        diagnostic::reports(final(diagnostics)@) == diagnostic::reports(old(diagnostics)@)
            + warnings(*expr, line as nat, plan_views(plans@)),
{
    analyze_expr_locals(expr, line, diagnostics, plans);
}

pub fn analyze_expr_locals(
    expr: &SyntaxExpr,
    line: usize,
    diagnostics: &mut Vec<Diagnostic>,
    plans: &Vec<BlockPlan>,
)
    ensures
        diagnostic::reports(final(diagnostics)@) == diagnostic::reports(old(diagnostics)@)
            + warnings(*expr, line as nat, plan_views(plans@)),
    decreases expr, 0nat,
{
    let ghost reported = diagnostic::reports(diagnostics@);
    match expr {
        SyntaxExpr::Unit
        | SyntaxExpr::Embedded(_)
        | SyntaxExpr::Number(_)
        | SyntaxExpr::Text(_)
        | SyntaxExpr::Atom(_)
        | SyntaxExpr::Effect(_)
        | SyntaxExpr::Name(_)
        | SyntaxExpr::PriorName(_) => {},
        SyntaxExpr::Escape(_, inner) => analyze_expr_locals(inner, line, diagnostics, plans),
        SyntaxExpr::Access(base, parts) => {
            analyze_expr_locals(base, line, diagnostics, plans);
            analyze_keys(parts, line, diagnostics, plans);
        },
        SyntaxExpr::Object(object) => {
            match &object.name {
                Some(name) => analyze_expr_locals(name, line, diagnostics, plans),
                None => {},
            }
            analyze_exprs(&object.deps, line, diagnostics, plans);
            match &object.alias {
                Some(alias) => warn_unused_with_alias(
                    alias.as_str(),
                    &object.body,
                    line,
                    diagnostics,
                ),
                None => {},
            }
            analyze_object_body_locals(&object.body, diagnostics, plans);
        },
        SyntaxExpr::With { base, alias, body } => {
            analyze_expr_locals(base, line, diagnostics, plans);
            match alias {
                Some(alias) => warn_unused_with_alias(alias.as_str(), body, line, diagnostics),
                None => {},
            }
            analyze_object_body_locals(body, diagnostics, plans);
        },
        SyntaxExpr::Using { namespace, body } => {
            analyze_expr_locals(namespace, line, diagnostics, plans);
            analyze_expr_locals(body, line, diagnostics, plans);
        },
        SyntaxExpr::PathDict(path, value) => {
            analyze_keys(path, line, diagnostics, plans);
            analyze_expr_locals(value, line, diagnostics, plans);
        },
        SyntaxExpr::TaggedConstructor(path) => analyze_keys(path, line, diagnostics, plans),
        SyntaxExpr::DictUnion(items) | SyntaxExpr::List(items) | SyntaxExpr::Tuple(items) => {
            analyze_exprs(items, line, diagnostics, plans);
        },
        SyntaxExpr::Lambda(params, body) => {
            let mut locals: Vec<LocalName> = Vec::new();
            push_names(&mut locals, params);
            let ghost scope = names::named(text::texts(params@));
            assert(names::local_views(locals@) =~= scope);
            let none: Vec<bool> = Vec::new();
            let mut used = extend_flags(&none, locals.len());
            mark_used_locals(body, &locals, &mut used);
            warn_unused_branch_locals(&locals, &used, line, diagnostics);
            proof {
                unused_same(
                    scope,
                    |k: int| used@[k],
                    |k: int| uses(**body, scope, k),
                    |k: int| line as nat,
                    |k: int| line as nat,
                );
            }
            analyze_expr_locals(body, line, diagnostics, plans);
        },
        SyntaxExpr::Do(block) => analyze_do_expr_locals(block, diagnostics, plans),
        SyntaxExpr::If(choice) => {
            analyze_guard_branch_locals(choice, line, diagnostics, plans);
            analyze_expr_locals(&choice.else_result, line, diagnostics, plans);
        },
        SyntaxExpr::Match(choice) => {
            analyze_expr_locals(&choice.subject, line, diagnostics, plans);
            analyze_arms(&choice.arms, diagnostics, plans);
        },
        SyntaxExpr::MatchWhen(choice) => analyze_when_arms(&choice.arms, diagnostics, plans),
        SyntaxExpr::Let { bindings, body } => {
            let mut locals: Vec<LocalName> = Vec::new();
            push_binding_names(&mut locals, bindings);
            let ghost scope = names::named(binding_names(bindings@));
            assert(names::local_views(locals@) =~= scope);
            let none: Vec<bool> = Vec::new();
            let mut used = extend_flags(&none, locals.len());
            mark_used_locals(body, &locals, &mut used);
            warn_unused_branch_locals(&locals, &used, line, diagnostics);
            proof {
                unused_same(
                    scope,
                    |k: int| used@[k],
                    |k: int| uses(**body, scope, k),
                    |k: int| line as nat,
                    |k: int| line as nat,
                );
            }
            analyze_bindings(bindings, line, diagnostics, plans);
            analyze_expr_locals(body, line, diagnostics, plans);
        },
        SyntaxExpr::OperatorSection { left, right, .. } => {
            match left {
                Some(left) => analyze_expr_locals(left, line, diagnostics, plans),
                None => {},
            }
            match right {
                Some(right) => analyze_expr_locals(right, line, diagnostics, plans),
                None => {},
            }
        },
        SyntaxExpr::ComparisonChain { first, rest } => {
            analyze_expr_locals(first, line, diagnostics, plans);
            analyze_links(rest, line, diagnostics, plans);
        },
        SyntaxExpr::OperatorApply { left, right, .. }
        | SyntaxExpr::Apply(left, right)
        | SyntaxExpr::Multiply(left, right)
        | SyntaxExpr::Divide(left, right)
        | SyntaxExpr::Add(left, right)
        | SyntaxExpr::Subtract(left, right)
        | SyntaxExpr::Append(left, right) => {
            analyze_expr_locals(left, line, diagnostics, plans);
            analyze_expr_locals(right, line, diagnostics, plans);
        },
    }
    assert(diagnostic::reports(diagnostics@) =~= reported + warnings(*expr, line as nat, plan_views(plans@)));
}

/// The warnings of the guards and the first result of an `if`.
pub open spec fn guarded_warnings(
    choice: crate::ast::IfExpr,
    line: nat,
    plans: Seq<PlanView>,
) -> Seq<DiagnosticView> {
    let start = branch(Seq::empty());
    let inner = enter(start, ast::guards_events(choice.guards@)).scope;
    guards_warnings(choice.guards@, line, plans) + warnings(*choice.then_result, line, plans) + unused(
        inner,
        |k: int| guards_use(choice.guards@, start, k) || uses(*choice.then_result, inner, k),
        |k: int| line,
    )
}

pub fn analyze_guard_branch_locals(
    choice: &crate::ast::IfExpr,
    line: usize,
    diagnostics: &mut Vec<Diagnostic>,
    plans: &Vec<BlockPlan>,
)
    ensures
        diagnostic::reports(final(diagnostics)@) == diagnostic::reports(old(diagnostics)@)
            + guarded_warnings(*choice, line as nat, plan_views(plans@)),
    decreases choice, 1nat,
{
    analyze_branch_locals(choice, line, diagnostics, plans);
}

pub fn analyze_branch_locals(
    choice: &crate::ast::IfExpr,
    line: usize,
    diagnostics: &mut Vec<Diagnostic>,
    plans: &Vec<BlockPlan>,
)
    ensures
        diagnostic::reports(final(diagnostics)@) == diagnostic::reports(old(diagnostics)@)
            + guarded_warnings(*choice, line as nat, plan_views(plans@)),
    decreases choice, 0nat,
{
    let ghost reported = diagnostic::reports(diagnostics@);
    let mut state = BranchScope::empty();
    let ghost start = state.env();
    visit_guards(&choice.guards, line, true, &mut state, diagnostics, plans);
    let ghost flags = state.used@;
    let ghost inner = state.env().scope;
    mark_used_locals(&choice.then_result, &state.locals, &mut state.used);
    analyze_expr_locals(&choice.then_result, line, diagnostics, plans);
    warn_unused_branch_locals(&state.locals, &state.used, line, diagnostics);
    proof {
        assert(inner.len() == flags.len());
        assert forall|k: int| 0 <= k < inner.len() implies #[trigger] state.used@[k] == (guards_use(
            choice.guards@,
            start,
            k,
        ) || uses(*choice.then_result, inner, k)) by {
            assert(flags[k] == guards_use(choice.guards@, start, k));
        }
        unused_same(
            inner,
            |k: int| state.used@[k],
            |k: int| guards_use(choice.guards@, start, k) || uses(*choice.then_result, inner, k),
            |k: int| line as nat,
            |k: int| line as nat,
        );
    }
    assert(diagnostic::reports(diagnostics@) =~= reported + guarded_warnings(
        *choice,
        line as nat,
        plan_views(plans@),
    ));
}

pub fn analyze_pattern_guard_outcome_branch_locals(
    arm: &MatchArm,
    diagnostics: &mut Vec<Diagnostic>,
    plans: &Vec<BlockPlan>,
)
    ensures
        diagnostic::reports(final(diagnostics)@) == diagnostic::reports(old(diagnostics)@)
            + arm_warnings(*arm, plan_views(plans@)),
    decreases arm, 1nat,
{
    let ghost reported = diagnostic::reports(diagnostics@);
    let mut state = BranchScope::empty();
    let ghost start = state.env();
    visit_branch_prefix(arm, true, &mut state, diagnostics, plans);
    let ghost flags = state.used@;
    let ghost inner = state.env().scope;
    assert(inner.len() == flags.len());
    assert forall|k: int| 0 <= k < flags.len() implies #[trigger] flags[k] == prefix_uses(
        *arm,
        start,
        k,
    ) by {}
    analyze_outcome_branch_locals(&arm.outcome, arm.line, &mut state, diagnostics, plans);
    proof {
        unused_same(
            inner,
            |k: int| flags[k] || outcome_uses(arm.outcome, inner, k),
            |k: int|
                pattern_uses(arm.pattern, start, k) || guards_use(
                    arm.guards@,
                    enter(start, ast::pattern_events(arm.pattern)),
                    k,
                ) || outcome_uses(arm.outcome, inner, k),
            |k: int| arm.line as nat,
            |k: int| arm.line as nat,
        );
    }
    assert(diagnostic::reports(diagnostics@) =~= reported + arm_warnings(*arm, plan_views(plans@)));
}

pub fn analyze_when_branch_locals(
    arm: &WhenArm,
    diagnostics: &mut Vec<Diagnostic>,
    plans: &Vec<BlockPlan>,
)
    ensures
        diagnostic::reports(final(diagnostics)@) == diagnostic::reports(old(diagnostics)@)
            + when_arm_warnings(*arm, plan_views(plans@)),
    decreases arm, 1nat,
{
    let ghost reported = diagnostic::reports(diagnostics@);
    let mut state = BranchScope::empty();
    let ghost start = state.env();
    visit_guards(&arm.guards, arm.line, true, &mut state, diagnostics, plans);
    let ghost flags = state.used@;
    let ghost inner = state.env().scope;
    assert(inner.len() == flags.len());
    assert forall|k: int| 0 <= k < flags.len() implies #[trigger] flags[k] == guards_use(
        arm.guards@,
        start,
        k,
    ) by {}
    analyze_outcome_branch_locals(&arm.outcome, arm.line, &mut state, diagnostics, plans);
    proof {
        unused_same(
            inner,
            |k: int| flags[k] || outcome_uses(arm.outcome, inner, k),
            |k: int| guards_use(arm.guards@, start, k) || outcome_uses(arm.outcome, inner, k),
            |k: int| arm.line as nat,
            |k: int| arm.line as nat,
        );
    }
    assert(diagnostic::reports(diagnostics@) =~= reported + when_arm_warnings(*arm, plan_views(plans@)));
}

/// Analyses the outcome of a branch whose prefix has established its scope,
/// then reports the locals of the branch that stay unused.
pub fn analyze_outcome_branch_locals(
    outcome: &MatchOutcome,
    line: usize,
    state: &mut BranchScope,
    diagnostics: &mut Vec<Diagnostic>,
    plans: &Vec<BlockPlan>,
)
    requires
        old(state).wf(),
    ensures
        diagnostic::reports(final(diagnostics)@) == diagnostic::reports(old(diagnostics)@)
            + outcome_warnings(*outcome, plan_views(plans@)) + unused(
            old(state).env().scope,
            |k: int| old(state).used@[k] || outcome_uses(*outcome, old(state).env().scope, k),
            |k: int| line as nat,
        ),
        final(state).wf(),
        final(state).env() == old(state).env(),
    decreases outcome, 1nat,
{
    let ghost flags = state.used@;
    let ghost inner = state.env().scope;
    assert(inner.len() == flags.len());
    analyze_outcome_locals(outcome, &state.locals, &mut state.used, diagnostics, plans);
    warn_unused_branch_locals(&state.locals, &state.used, line, diagnostics);
    proof {
        unused_same(
            inner,
            |k: int| state.used@[k],
            |k: int| flags[k] || outcome_uses(*outcome, inner, k),
            |k: int| line as nat,
            |k: int| line as nat,
        );
    }
}

pub fn analyze_outcome_locals(
    outcome: &MatchOutcome,
    locals: &Vec<LocalName>,
    used: &mut Vec<bool>,
    diagnostics: &mut Vec<Diagnostic>,
    plans: &Vec<BlockPlan>,
)
    requires
        locals.len() == old(used).len(),
    ensures
        marks(
            old(used)@,
            final(used)@,
            |i: int| outcome_uses(*outcome, names::local_views(locals@), i),
        ),
        diagnostic::reports(final(diagnostics)@) == diagnostic::reports(old(diagnostics)@)
            + outcome_warnings(*outcome, plan_views(plans@)),
    decreases outcome, 0nat,
{
    match outcome {
        MatchOutcome::Result { line, expression, .. } => {
            mark_used_locals(expression, locals, used);
            analyze_expr_locals(expression, *line, diagnostics, plans);
        },
        MatchOutcome::Nested(arms) => {
            mark_used_when_arms(arms, locals, used);
            analyze_when_arms(arms, diagnostics, plans);
        },
    }
}

/// Walks the pattern and the guards of a match arm.
pub fn visit_branch_prefix(
    arm: &MatchArm,
    warn: bool,
    state: &mut BranchScope,
    diagnostics: &mut Vec<Diagnostic>,
    plans: &Vec<BlockPlan>,
)
    requires
        old(state).wf(),
    ensures
        final(state).wf(),
        final(state).env() == prefix_env(*arm, old(state).env()),
        grows(
            old(state).used@,
            final(state).used@,
            |i: int| prefix_uses(*arm, old(state).env(), i),
        ),
        diagnostic::reports(final(diagnostics)@) == diagnostic::reports(old(diagnostics)@) + asked(
            warn,
            prefix_warnings(*arm, plan_views(plans@)),
        ),
    decreases arm, 0nat,
{
    let ghost start = state.env();
    let ghost flags = state.used@;
    let ghost reported = diagnostic::reports(diagnostics@);
    visit_pattern(&arm.pattern, arm.line, warn, state, diagnostics, plans);
    let ghost middle = state.used@;
    let ghost matched = state.env();
    visit_guards(&arm.guards, arm.line, warn, state, diagnostics, plans);
    proof {
        pattern_uses_bounded(arm.pattern, start);
        grows_then(
            flags,
            middle,
            state.used@,
            |i: int| pattern_uses(arm.pattern, start, i),
            |i: int| guards_use(arm.guards@, matched, i),
            |i: int| prefix_uses(*arm, start, i),
        );
    }
    assert(diagnostic::reports(diagnostics@) =~= reported + asked(warn, prefix_warnings(*arm, plan_views(plans@))));
}

/// Reports the abstract names of a `do` block that its plan promotes, and the
/// locals that it never uses.
pub fn analyze_do_expr_locals(
    block: &DoExpr,
    diagnostics: &mut Vec<Diagnostic>,
    plans: &Vec<BlockPlan>,
)
    ensures
        diagnostic::reports(final(diagnostics)@) == diagnostic::reports(old(diagnostics)@)
            + do_warnings(*block, plan_views(plans@)),
    decreases block, 0nat,
{
    let ghost given = diagnostic::reports(diagnostics@);
    report_promotions(plans, block, diagnostics);
    let ghost reported = diagnostic::reports(diagnostics@);
    let mut state = BranchScope::empty();
    let ghost start = state.env();
    let mut lines: Vec<usize> = Vec::new();
    let mut k: usize = 0;
    assert(block.steps@.take(0) =~= Seq::<DoStep>::empty());
    assert(diagnostic::reports(diagnostics@) =~= reported + steps_warnings(block.steps@.take(0), plan_views(plans@)));
    while k < block.steps.len()
        invariant
            k <= block.steps.len(),
            start == branch(Seq::empty()),
            state.wf(),
            lines.len() == state.locals.len(),
            state.env() == do_env(start, block.steps@.take(k as int)),
            forall|i: int|
                0 <= i < lines.len() ==> lines@[i] == #[trigger] do_lines(
                    start,
                    block.steps@.take(k as int),
                )[i],
            do_lines(start, block.steps@.take(k as int)).len() == lines.len(),
            grows(
                Seq::<bool>::empty(),
                state.used@,
                |i: int| steps_use(block.steps@.take(k as int), start, i),
            ),
            diagnostic::reports(diagnostics@) == reported + steps_warnings(
                block.steps@.take(k as int),
                plan_views(plans@),
            ),
        decreases block.steps.len() - k,
    {
        let ghost done = block.steps@.take(k as int);
        let ghost more = block.steps@.take(k + 1);
        let ghost before = state.env();
        let ghost before_flags = state.used@;
        assert(more.drop_last() =~= done);
        assert(more.last() == block.steps@[k as int]);
        visit_step(&block.steps[k], true, &mut state, diagnostics, plans);
        proof {
            steps_use_bounded(done, start);
            step_env_extends(before, more.last());
            grows_then(
                Seq::empty(),
                before_flags,
                state.used@,
                |i: int| steps_use(done, start, i),
                |i: int| step_uses(more.last(), before, i),
                |i: int| steps_use(more, start, i),
            );
        }
        assert(state.env().scope.len() == state.locals.len());
        let line = block.steps[k].line;
        while lines.len() < state.locals.len()
            invariant
                lines.len() <= state.locals.len(),
                state.locals.len() == do_lines(start, more).len(),
                do_lines(start, done).len() <= lines.len(),
                do_lines(start, more) == do_lines(start, done) + Seq::new(
                    (state.locals.len() - do_lines(start, done).len()) as nat,
                    |i: int| line as nat,
                ),
                forall|i: int|
                    0 <= i < lines.len() ==> lines@[i] == #[trigger] do_lines(start, more)[i],
            decreases state.locals.len() - lines.len(),
        {
            lines.push(line);
        }
        assert(diagnostic::reports(diagnostics@) =~= reported + steps_warnings(more, plan_views(plans@)));
        k = k + 1;
    }
    assert(block.steps@.take(block.steps.len() as int) =~= block.steps@);
    let ghost flags = state.used@;
    let ghost inner = state.env().scope;
    assert(inner.len() == flags.len());
    mark_used_locals(&block.result, &state.locals, &mut state.used);
    analyze_expr_locals(&block.result, block.result_line, diagnostics, plans);
    warn_unused_at(&state.locals, &state.used, &lines, diagnostics);
    proof {
        let rows = do_lines(start, block.steps@);
        assert forall|k: int| 0 <= k < inner.len() implies #[trigger] state.used@[k] == (steps_use(
            block.steps@,
            start,
            k,
        ) || uses(*block.result, inner, k)) by {
            assert(flags[k] == steps_use(block.steps@, start, k));
        }
        unused_same(
            inner,
            |k: int| state.used@[k],
            |k: int| steps_use(block.steps@, start, k) || uses(*block.result, inner, k),
            |k: int| lines@[k] as nat,
            |k: int| rows[k],
        );
    }
    assert(diagnostic::reports(diagnostics@) =~= given + do_warnings(*block, plan_views(plans@)));
}

/// `true` when an expression among pattern events refers to local `i` of the
/// scope that the events before it have established.
pub open spec fn events_use(events: Seq<ast::ScopeEvent>, env: Env, i: int) -> bool
    decreases events.len(),
{
    if events.len() == 0 {
        false
    } else {
        let before = enter(env, events.drop_last()).scope;
        ||| events_use(events.drop_last(), env, i)
        ||| (match events.last() {
            ast::ScopeEvent::Expression(expr) => i < before.len() && uses(expr, before, i),
            ast::ScopeEvent::Capture(_) => false,
        })
    }
}

proof fn events_use_concat(
    left: Seq<ast::ScopeEvent>,
    right: Seq<ast::ScopeEvent>,
    env: Env,
    i: int,
)
    ensures
        events_use(left + right, env, i) == (events_use(left, env, i) || events_use(
            right,
            enter(env, left),
            i,
        )),
    decreases right.len(),
{
    if right.len() == 0 {
        assert(left + right =~= left);
    } else {
        events_use_concat(left, right.drop_last(), env, i);
        assert((left + right).drop_last() =~= left + right.drop_last());
        enter_concat(env, left, right.drop_last());
    }
}

proof fn events_use_one(expr: SyntaxExpr, env: Env, i: int)
    ensures
        events_use(seq![ast::ScopeEvent::Expression(expr)], env, i) == (i < env.scope.len()
            && uses(expr, env.scope, i)),
{
    let one = seq![ast::ScopeEvent::Expression(expr)];
    assert(one.drop_last() =~= Seq::<ast::ScopeEvent>::empty());
    reveal_with_fuel(events_use, 2);
}

proof fn keys_use_by_events(keys: Seq<SyntaxKeyExpr>, env: Env, i: int)
    ensures
        bounded_keys(keys, env, i) == events_use(ast::keys_events(keys), env, i),
    decreases keys.len(),
{
    if keys.len() > 0 {
        let rest = keys.drop_last();
        keys_use_by_events(rest, env, i);
        ast::keys_capture_nothing(rest);
        events_use_concat(ast::keys_events(rest), ast::key_events(keys.last()), env, i);
        assert(key_uses(keys.last(), env.scope, i) == match keys.last() {
            SyntaxKeyExpr::Atom(_) => false,
            SyntaxKeyExpr::Index(expr) => uses(*expr, env.scope, i),
            SyntaxKeyExpr::PathIndex(expr) => uses(*expr, env.scope, i),
        });
        match keys.last() {
            SyntaxKeyExpr::Atom(_) => {},
            SyntaxKeyExpr::Index(expr) => events_use_one(*expr, env, i),
            SyntaxKeyExpr::PathIndex(expr) => events_use_one(*expr, env, i),
        }
    }
}

/// What a pattern's expressions may refer to is decided event by event: each
/// sees the captures of the events before it, and no later ones.
pub proof fn pattern_uses_by_events(pattern: SyntaxPattern, env: Env, i: int)
    ensures
        pattern_uses(pattern, env, i) == events_use(ast::pattern_events(pattern), env, i),
    decreases pattern,
{
    match pattern.kind {
        SyntaxPatternKind::Capture(name) => {
            let one = seq![ast::ScopeEvent::Capture(name@)];
            assert(one.drop_last() =~= Seq::<ast::ScopeEvent>::empty());
            reveal_with_fuel(events_use, 2);
        },
        SyntaxPatternKind::Wildcard => {},
        SyntaxPatternKind::Literal(_) => {},
        SyntaxPatternKind::List { prefix, middle, suffix } => {
            let a = ast::patterns_events(prefix@);
            let b = match middle {
                Some(inner) => ast::pattern_events(*inner),
                None => Seq::empty(),
            };
            let c = ast::patterns_events(suffix@);
            patterns_use_by_events(prefix@, env, i);
            if let Some(inner) = middle {
                pattern_uses_by_events(*inner, enter(env, a), i);
            }
            patterns_use_by_events(suffix@, enter(enter(env, a), b), i);
            enter_concat(env, a, b);
            events_use_concat(a, b, env, i);
            events_use_concat(a + b, c, env, i);
        },
        SyntaxPatternKind::Dict { entries, remainder } => {
            let a = ast::entries_events(entries@);
            let b = match remainder {
                Some(inner) => ast::pattern_events(*inner),
                None => Seq::empty(),
            };
            entries_use_by_events(entries@, env, i);
            if let Some(inner) = remainder {
                pattern_uses_by_events(*inner, enter(env, a), i);
            }
            events_use_concat(a, b, env, i);
        },
        SyntaxPatternKind::QuotedPath(path) => keys_use_by_events(path@, env, i),
        SyntaxPatternKind::Group(inner) => pattern_uses_by_events(*inner, env, i),
        SyntaxPatternKind::As(left, right) => {
            let a = ast::pattern_events(*left);
            pattern_uses_by_events(*left, env, i);
            pattern_uses_by_events(*right, enter(env, a), i);
            events_use_concat(a, ast::pattern_events(*right), env, i);
        },
        SyntaxPatternKind::View { view, pattern: inner } => {
            pattern_uses_by_events(*inner, env, i);
            events_use_one(*view, env, i);
            enter_expression(env, *view, ast::pattern_events(*inner));
            events_use_concat(
                seq![ast::ScopeEvent::Expression(*view)],
                ast::pattern_events(*inner),
                env,
                i,
            );
        },
        SyntaxPatternKind::Predicate { predicate, pattern: inner } => {
            pattern_uses_by_events(*inner, env, i);
            events_use_one(*predicate, env, i);
            enter_expression(env, *predicate, ast::pattern_events(*inner));
            events_use_concat(
                seq![ast::ScopeEvent::Expression(*predicate)],
                ast::pattern_events(*inner),
                env,
                i,
            );
        },
        SyntaxPatternKind::Guarded { pattern: inner, guards } => {
            let a = ast::pattern_events(*inner);
            pattern_uses_by_events(*inner, env, i);
            guards_use_by_events(guards@, enter(env, a), i);
            events_use_concat(a, ast::guards_events(guards@), env, i);
        },
    }
}

proof fn patterns_use_by_events(items: Seq<SyntaxPattern>, env: Env, i: int)
    ensures
        patterns_use(items, env, i) == events_use(ast::patterns_events(items), env, i),
    decreases items,
{
    if items.len() > 0 {
        let a = ast::patterns_events(items.drop_last());
        patterns_use_by_events(items.drop_last(), env, i);
        pattern_uses_by_events(items.last(), enter(env, a), i);
        events_use_concat(a, ast::pattern_events(items.last()), env, i);
    }
}

proof fn entries_use_by_events(items: Seq<SyntaxDictPatternEntry>, env: Env, i: int)
    ensures
        entries_use(items, env, i) == events_use(ast::entries_events(items), env, i),
    decreases items,
{
    if items.len() > 0 {
        let entry = items.last();
        let a = ast::entries_events(items.drop_last());
        let k = ast::keys_events(entry.path@);
        entries_use_by_events(items.drop_last(), env, i);
        pattern_uses_by_events(entry.pattern, enter(env, a), i);
        keys_use_by_events(entry.path@, enter(env, a), i);
        ast::keys_capture_nothing(entry.path@);
        enter_concat(env, a, k);
        events_use_concat(a, k, env, i);
        events_use_concat(a + k, ast::pattern_events(entry.pattern), env, i);
        assert(keys_use(entry.path@, enter(env, a).scope, i) == keys_use(
            entry.path@,
            enter(env, a).scope,
            i,
        ));
    }
}

/// The same holds of guard clauses.
pub proof fn guards_use_by_events(items: Seq<SyntaxGuardClause>, env: Env, i: int)
    ensures
        guards_use(items, env, i) == events_use(ast::guards_events(items), env, i),
    decreases items,
{
    if items.len() > 0 {
        let a = ast::guards_events(items.drop_last());
        guards_use_by_events(items.drop_last(), env, i);
        guard_uses_by_events(items.last(), enter(env, a), i);
        events_use_concat(a, ast::guard_events(items.last()), env, i);
    }
}

proof fn guard_uses_by_events(guard: SyntaxGuardClause, env: Env, i: int)
    ensures
        guard_uses(guard, env, i) == events_use(ast::guard_events(guard), env, i),
    decreases guard,
{
    match guard {
        SyntaxGuardClause::Pass => {},
        SyntaxGuardClause::Effect(expr) => events_use_one(expr, env, i),
        SyntaxGuardClause::EffectBind { pattern, operation } => {
            pattern_uses_by_events(pattern, env, i);
            events_use_one(operation, env, i);
            enter_expression(env, operation, ast::pattern_events(pattern));
            events_use_concat(
                seq![ast::ScopeEvent::Expression(operation)],
                ast::pattern_events(pattern),
                env,
                i,
            );
        },
        SyntaxGuardClause::ValueBind { pattern, value } => {
            pattern_uses_by_events(pattern, env, i);
            events_use_one(value, env, i);
            enter_expression(env, value, ast::pattern_events(pattern));
            events_use_concat(
                seq![ast::ScopeEvent::Expression(value)],
                ast::pattern_events(pattern),
                env,
                i,
            );
        },
    }
}

/// `true` when a local deserves a warning: it has a name, does not ask for
/// silence, and is not used.
pub open spec fn deserves_warning(local: LocalNameView, used: bool) -> bool {
    !used && local.canonical is Some && !local.suppress
}

/// Each warning is about a local that deserves it.
pub proof fn warnings_are_deserved(
    locals: Seq<LocalNameView>,
    used: spec_fn(int) -> bool,
    line: spec_fn(int) -> nat,
    j: int,
)
    requires
        0 <= j < unused(locals, used, line).len(),
    ensures
        exists|k: int|
            0 <= k < locals.len() && deserves_warning(locals[k], #[trigger] used(k)) && unused(
                locals,
                used,
                line,
            )[j] == diagnostic::warning_at(line(k), unused_message(locals[k].raw)),
    decreases locals.len(),
{
    let k = locals.len() - 1;
    let before = unused(locals.drop_last(), used, line);
    if j < before.len() {
        warnings_are_deserved(locals.drop_last(), used, line, j);
        let w = choose|w: int|
            0 <= w < locals.drop_last().len() && deserves_warning(
                locals.drop_last()[w],
                #[trigger] used(w),
            ) && before[j] == diagnostic::warning_at(
                line(w),
                unused_message(locals.drop_last()[w].raw),
            );
        assert(deserves_warning(locals[w], used(w)));
    } else {
        assert(deserves_warning(locals[k], used(k)));
    }
}

/// Each local that deserves a warning gets one.
pub proof fn deserved_warnings_are_reported(
    locals: Seq<LocalNameView>,
    used: spec_fn(int) -> bool,
    line: spec_fn(int) -> nat,
    k: int,
)
    requires
        0 <= k < locals.len(),
        deserves_warning(locals[k], used(k)),
    ensures
        unused(locals, used, line).contains(
            diagnostic::warning_at(line(k), unused_message(locals[k].raw)),
        ),
    decreases locals.len(),
{
    let all = unused(locals, used, line);
    let before = unused(locals.drop_last(), used, line);
    let wanted = diagnostic::warning_at(line(k), unused_message(locals[k].raw));
    if k == locals.len() - 1 {
        assert(all[before.len() as int] == wanted);
    } else {
        deserved_warnings_are_reported(locals.drop_last(), used, line, k);
        let j = choose|j: int| 0 <= j < before.len() && before[j] == wanted;
        assert(all[j] == wanted);
    }
}

} // verus!
