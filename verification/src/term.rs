//! Syntax trees as terms: what a tree says, independent of how it is stored.

use vstd::prelude::*;
use crate::ast::{
    ConditionalMode, ConditionalResultMode, DefinitionDecl, DefinitionKind, DoStep, DoStepKind,
    MatchArm, MatchCommitment, MatchOutcome, ObjectBodyDefinition, ObjectBodyDefinitionKind,
    ObjectDecl, ObjectExtendDecl, ObjectRealization, SyntaxDictPatternEntry, SyntaxExpr,
    SyntaxGuardClause, SyntaxKeyExpr, SyntaxOperator, SyntaxPattern, SyntaxPatternKind,
    SyntaxPatternLiteral, WhenArm,
};
use crate::values::Value;

verus! {

/// A syntax tree by its parts.
pub enum Term {
    Text(Seq<char>),
    Size(nat),
    Flag(bool),
    Operator(SyntaxOperator),
    Data(Value),
    Node(Tag, Seq<Term>),
}

/// What a part of a syntax tree is.
pub enum Tag {
    Absent,
    Present,
    Many,
    Unit,
    Number,
    Literal,
    Atom,
    Effect,
    Name,
    PriorName,
    Escape,
    Access,
    Object,
    With,
    Using,
    PathDict,
    TaggedConstructor,
    DictUnion,
    List,
    Tuple,
    Lambda,
    Do,
    If,
    Match,
    MatchWhen,
    Let,
    Apply,
    OperatorApply,
    ComparisonChain,
    OperatorSection,
    Multiply,
    Divide,
    Add,
    Subtract,
    Append,
    KeyAtom,
    KeyIndex,
    KeyPathIndex,
    Capture,
    Wildcard,
    LiteralPattern,
    ListPattern,
    DictPattern,
    QuotedPath,
    Group,
    As,
    View,
    Predicate,
    Guarded,
    Entry,
    Pass,
    EffectClause,
    EffectBindClause,
    ValueBindClause,
    AbstractStep,
    BindStep,
    ValueBindStep,
    ThenStep,
    Step,
    Arm,
    WhenArm,
    Outcome,
    Nested,
    Binding,
    Link,
    Item,
    Definition,
    ObjectDeclaration,
    Extension,
}

pub open spec fn node(tag: Tag, parts: Seq<Term>) -> Term {
    Term::Node(tag, parts)
}

pub open spec fn many(parts: Seq<Term>) -> Term {
    Term::Node(Tag::Many, parts)
}

pub open spec fn maybe(part: Option<Term>) -> Term {
    match part {
        Some(part) => Term::Node(Tag::Present, seq![part]),
        None => Term::Node(Tag::Absent, Seq::empty()),
    }
}

/// Strings as terms.
pub open spec fn words(items: Seq<String>) -> Seq<Term> {
    items.map_values(|s: String| Term::Text(s@))
}

pub open spec fn maybe_word(item: Option<String>) -> Term {
    match item {
        Some(text) => maybe(Some(Term::Text(text@))),
        None => maybe(None),
    }
}

/// Spellings as terms.
pub open spec fn spelled(items: Seq<Seq<char>>) -> Seq<Term> {
    items.map_values(|s: Seq<char>| Term::Text(s))
}

pub open spec fn realization_term(realization: ObjectRealization) -> Term {
    Term::Flag(realization == ObjectRealization::Abstract)
}

pub open spec fn mode_term(mode: ConditionalMode) -> Term {
    Term::Flag(mode == ConditionalMode::Host)
}

pub open spec fn commitment_term(commitment: MatchCommitment) -> Term {
    Term::Flag(commitment == MatchCommitment::Open)
}

pub open spec fn result_mode_term(mode: ConditionalResultMode) -> Term {
    Term::Flag(mode == ConditionalResultMode::Tentative)
}

pub open spec fn kind_term(kind: DefinitionKind) -> Term {
    Term::Size(match kind {
        DefinitionKind::Introduce => 0,
        DefinitionKind::Override => 1,
        DefinitionKind::Update => 2,
    })
}

/// The term of an expression.
pub closed spec fn expr_term(expr: SyntaxExpr) -> Term
    decreases expr,
{
    match expr {
        SyntaxExpr::Unit => node(Tag::Unit, Seq::empty()),
        SyntaxExpr::Embedded(value) => Term::Data(value),
        SyntaxExpr::Number(number) => node(Tag::Number, seq![Term::Text(number.literal@)]),
        SyntaxExpr::Text(text) => node(Tag::Literal, seq![Term::Text(text@)]),
        SyntaxExpr::Atom(name) => node(Tag::Atom, seq![Term::Text(name@)]),
        SyntaxExpr::Effect(path) => node(Tag::Effect, words(path@)),
        SyntaxExpr::Name(name) => node(Tag::Name, seq![Term::Text(name@)]),
        SyntaxExpr::PriorName(name) => node(Tag::PriorName, seq![Term::Text(name@)]),
        SyntaxExpr::Escape(depth, inner) => node(
            Tag::Escape,
            seq![Term::Size(depth as nat), expr_term(*inner)],
        ),
        SyntaxExpr::Access(base, path) => node(
            Tag::Access,
            seq![expr_term(*base), many(keys_terms(path@))],
        ),
        SyntaxExpr::Object(object) => node(
            Tag::Object,
            seq![
                realization_term(object.realization),
                match object.name {
                    Some(name) => maybe(Some(expr_term(*name))),
                    None => maybe(None),
                },
                maybe_word(object.alias),
                many(exprs_terms(object.deps@)),
                many(items_terms(object.body@)),
            ],
        ),
        SyntaxExpr::With { base, alias, body } => node(
            Tag::With,
            seq![expr_term(*base), maybe_word(alias), many(items_terms(body@))],
        ),
        SyntaxExpr::Using { namespace, body } => node(
            Tag::Using,
            seq![expr_term(*namespace), expr_term(*body)],
        ),
        SyntaxExpr::PathDict(path, value) => node(
            Tag::PathDict,
            seq![many(keys_terms(path@)), expr_term(*value)],
        ),
        SyntaxExpr::TaggedConstructor(path) => node(Tag::TaggedConstructor, keys_terms(path@)),
        SyntaxExpr::DictUnion(items) => node(Tag::DictUnion, exprs_terms(items@)),
        SyntaxExpr::List(items) => node(Tag::List, exprs_terms(items@)),
        SyntaxExpr::Tuple(items) => node(Tag::Tuple, exprs_terms(items@)),
        SyntaxExpr::Lambda(params, body) => node(
            Tag::Lambda,
            seq![many(words(params@)), expr_term(*body)],
        ),
        SyntaxExpr::Do(block) => node(
            Tag::Do,
            seq![
                many(steps_terms(block.steps@)),
                Term::Size(block.result_line as nat),
                expr_term(*block.result),
            ],
        ),
        SyntaxExpr::If(choice) => node(
            Tag::If,
            seq![
                mode_term(choice.mode),
                many(guards_terms(choice.guards@)),
                result_mode_term(choice.then_mode),
                expr_term(*choice.then_result),
                expr_term(*choice.else_result),
            ],
        ),
        SyntaxExpr::Match(choice) => node(
            Tag::Match,
            seq![
                Term::Size(choice.line as nat),
                mode_term(choice.mode),
                commitment_term(choice.commitment),
                expr_term(*choice.subject),
                many(arms_terms(choice.arms@)),
            ],
        ),
        SyntaxExpr::MatchWhen(choice) => node(
            Tag::MatchWhen,
            seq![
                Term::Size(choice.line as nat),
                mode_term(choice.mode),
                commitment_term(choice.commitment),
                many(when_arms_terms(choice.arms@)),
            ],
        ),
        SyntaxExpr::Let { bindings, body } => node(
            Tag::Let,
            seq![many(bindings_terms(bindings@)), expr_term(*body)],
        ),
        SyntaxExpr::Apply(left, right) => node(
            Tag::Apply,
            seq![expr_term(*left), expr_term(*right)],
        ),
        SyntaxExpr::OperatorApply { operator, left, right } => node(
            Tag::OperatorApply,
            seq![Term::Operator(operator), expr_term(*left), expr_term(*right)],
        ),
        SyntaxExpr::ComparisonChain { first, rest } => node(
            Tag::ComparisonChain,
            seq![expr_term(*first), many(links_terms(rest@))],
        ),
        SyntaxExpr::OperatorSection { operator, left, right } => node(
            Tag::OperatorSection,
            seq![
                Term::Operator(operator),
                match left {
                    Some(left) => maybe(Some(expr_term(*left))),
                    None => maybe(None),
                },
                match right {
                    Some(right) => maybe(Some(expr_term(*right))),
                    None => maybe(None),
                },
            ],
        ),
        SyntaxExpr::Multiply(left, right) => node(
            Tag::Multiply,
            seq![expr_term(*left), expr_term(*right)],
        ),
        SyntaxExpr::Divide(left, right) => node(
            Tag::Divide,
            seq![expr_term(*left), expr_term(*right)],
        ),
        SyntaxExpr::Add(left, right) => node(
            Tag::Add,
            seq![expr_term(*left), expr_term(*right)],
        ),
        SyntaxExpr::Subtract(left, right) => node(
            Tag::Subtract,
            seq![expr_term(*left), expr_term(*right)],
        ),
        SyntaxExpr::Append(left, right) => node(
            Tag::Append,
            seq![expr_term(*left), expr_term(*right)],
        ),
    }
}

pub closed spec fn key_term(key: SyntaxKeyExpr) -> Term
    decreases key,
{
    match key {
        SyntaxKeyExpr::Atom(name) => node(Tag::KeyAtom, seq![Term::Text(name@)]),
        SyntaxKeyExpr::Index(expr) => node(Tag::KeyIndex, seq![expr_term(*expr)]),
        SyntaxKeyExpr::PathIndex(expr) => node(Tag::KeyPathIndex, seq![expr_term(*expr)]),
    }
}

pub open spec fn literal_term(literal: SyntaxPatternLiteral) -> Term {
    match literal {
        SyntaxPatternLiteral::Unit => node(Tag::Unit, Seq::empty()),
        SyntaxPatternLiteral::Number(number) => node(Tag::Number, seq![Term::Text(number.literal@)]),
        SyntaxPatternLiteral::Atom(name) => node(Tag::Atom, seq![Term::Text(name@)]),
        SyntaxPatternLiteral::Text(text) => node(Tag::Literal, seq![Term::Text(text@)]),
    }
}

/// The term of a pattern.
pub closed spec fn pattern_term(pattern: SyntaxPattern) -> Term
    decreases pattern,
{
    match pattern.kind {
        SyntaxPatternKind::Capture(name) => node(Tag::Capture, seq![Term::Text(name@)]),
        SyntaxPatternKind::Wildcard => node(Tag::Wildcard, Seq::empty()),
        SyntaxPatternKind::Literal(literal) => node(Tag::LiteralPattern, seq![literal_term(literal)]),
        SyntaxPatternKind::List { prefix, middle, suffix } => node(
            Tag::ListPattern,
            seq![
                many(patterns_terms(prefix@)),
                match middle {
                    Some(inner) => maybe(Some(pattern_term(*inner))),
                    None => maybe(None),
                },
                many(patterns_terms(suffix@)),
            ],
        ),
        SyntaxPatternKind::Dict { entries, remainder } => node(
            Tag::DictPattern,
            seq![
                many(entries_terms(entries@)),
                match remainder {
                    Some(inner) => maybe(Some(pattern_term(*inner))),
                    None => maybe(None),
                },
            ],
        ),
        SyntaxPatternKind::QuotedPath(path) => node(Tag::QuotedPath, keys_terms(path@)),
        SyntaxPatternKind::Group(inner) => node(Tag::Group, seq![pattern_term(*inner)]),
        SyntaxPatternKind::As(left, right) => node(
            Tag::As,
            seq![pattern_term(*left), pattern_term(*right)],
        ),
        SyntaxPatternKind::View { view, pattern } => node(
            Tag::View,
            seq![expr_term(*view), pattern_term(*pattern)],
        ),
        SyntaxPatternKind::Predicate { predicate, pattern } => node(
            Tag::Predicate,
            seq![expr_term(*predicate), pattern_term(*pattern)],
        ),
        SyntaxPatternKind::Guarded { pattern, guards } => node(
            Tag::Guarded,
            seq![pattern_term(*pattern), many(guards_terms(guards@))],
        ),
    }
}

pub closed spec fn entry_term(entry: SyntaxDictPatternEntry) -> Term
    decreases entry,
{
    node(
        Tag::Entry,
        seq![
            many(keys_terms(entry.path@)),
            Term::Flag(entry.optional),
            pattern_term(entry.pattern),
        ],
    )
}

pub closed spec fn guard_term(guard: SyntaxGuardClause) -> Term
    decreases guard,
{
    match guard {
        SyntaxGuardClause::Pass => node(Tag::Pass, Seq::empty()),
        SyntaxGuardClause::Effect(expr) => node(Tag::EffectClause, seq![expr_term(expr)]),
        SyntaxGuardClause::EffectBind { pattern, operation } => node(
            Tag::EffectBindClause,
            seq![pattern_term(pattern), expr_term(operation)],
        ),
        SyntaxGuardClause::ValueBind { pattern, value } => node(
            Tag::ValueBindClause,
            seq![pattern_term(pattern), expr_term(value)],
        ),
    }
}

pub closed spec fn step_kind_term(kind: DoStepKind) -> Term
    decreases kind,
{
    match kind {
        DoStepKind::Abstract(names) => node(Tag::AbstractStep, words(names@)),
        DoStepKind::Bind { pattern, operation } => node(
            Tag::BindStep,
            seq![pattern_term(pattern), expr_term(operation)],
        ),
        DoStepKind::ValueBind { pattern, value } => node(
            Tag::ValueBindStep,
            seq![pattern_term(pattern), expr_term(value)],
        ),
        DoStepKind::Then(expr) => node(Tag::ThenStep, seq![expr_term(expr)]),
    }
}

pub closed spec fn step_term(step: DoStep) -> Term
    decreases step,
{
    node(Tag::Step, seq![Term::Size(step.line as nat), step_kind_term(step.kind)])
}

pub closed spec fn outcome_term(outcome: MatchOutcome) -> Term
    decreases outcome,
{
    match outcome {
        MatchOutcome::Result { line, mode, expression } => node(
            Tag::Outcome,
            seq![Term::Size(line as nat), result_mode_term(mode), expr_term(expression)],
        ),
        MatchOutcome::Nested(arms) => node(Tag::Nested, when_arms_terms(arms@)),
    }
}

pub closed spec fn arm_term(arm: MatchArm) -> Term
    decreases arm,
{
    node(
        Tag::Arm,
        seq![
            Term::Size(arm.line as nat),
            pattern_term(arm.pattern),
            many(guards_terms(arm.guards@)),
            outcome_term(arm.outcome),
        ],
    )
}

pub closed spec fn when_arm_term(arm: WhenArm) -> Term
    decreases arm,
{
    node(
        Tag::WhenArm,
        seq![
            Term::Size(arm.line as nat),
            many(guards_terms(arm.guards@)),
            outcome_term(arm.outcome),
        ],
    )
}

pub closed spec fn binding_term(binding: (String, SyntaxExpr)) -> Term
    decreases binding,
{
    node(Tag::Binding, seq![Term::Text(binding.0@), expr_term(binding.1)])
}

pub closed spec fn link_term(link: (SyntaxOperator, SyntaxExpr)) -> Term
    decreases link,
{
    node(Tag::Link, seq![Term::Operator(link.0), expr_term(link.1)])
}

/// The term of a definition.
pub closed spec fn definition_term(definition: DefinitionDecl) -> Term
    decreases definition,
{
    node(
        Tag::Definition,
        seq![
            many(keys_terms(definition.target@)),
            many(words(definition.parameters@)),
            kind_term(definition.kind),
            match definition.expr {
                Some(expr) => maybe(Some(expr_term(expr))),
                None => maybe(None),
            },
        ],
    )
}

/// The term of an object declaration.
pub closed spec fn object_term(object: ObjectDecl) -> Term
    decreases object,
{
    node(
        Tag::ObjectDeclaration,
        seq![
            realization_term(object.realization),
            Term::Text(object.target@),
            maybe_word(object.alias),
            many(exprs_terms(object.deps@)),
            many(items_terms(object.body@)),
        ],
    )
}

/// The term of an object extension.
pub closed spec fn extend_term(extend: ObjectExtendDecl) -> Term
    decreases extend,
{
    node(
        Tag::Extension,
        seq![
            realization_term(extend.realization),
            Term::Text(extend.target@),
            maybe_word(extend.alias),
            many(items_terms(extend.body@)),
        ],
    )
}

pub closed spec fn item_term(item: ObjectBodyDefinition) -> Term
    decreases item,
{
    node(
        Tag::Item,
        seq![
            Term::Size(item.line as nat),
            match item.kind {
                ObjectBodyDefinitionKind::Definition(definition) => definition_term(definition),
                ObjectBodyDefinitionKind::Object(object) => object_term(object),
                ObjectBodyDefinitionKind::Extend(extend) => extend_term(extend),
            },
        ],
    )
}

pub open spec fn keys_terms(items: Seq<SyntaxKeyExpr>) -> Seq<Term>
    decreases items,
{
    if items.len() == 0 {
        Seq::empty()
    } else {
        keys_terms(items.drop_last()).push(key_term(items.last()))
    }
}

pub open spec fn exprs_terms(items: Seq<SyntaxExpr>) -> Seq<Term>
    decreases items,
{
    if items.len() == 0 {
        Seq::empty()
    } else {
        exprs_terms(items.drop_last()).push(expr_term(items.last()))
    }
}

pub open spec fn items_terms(items: Seq<ObjectBodyDefinition>) -> Seq<Term>
    decreases items,
{
    if items.len() == 0 {
        Seq::empty()
    } else {
        items_terms(items.drop_last()).push(item_term(items.last()))
    }
}

pub open spec fn steps_terms(items: Seq<DoStep>) -> Seq<Term>
    decreases items,
{
    if items.len() == 0 {
        Seq::empty()
    } else {
        steps_terms(items.drop_last()).push(step_term(items.last()))
    }
}

pub open spec fn guards_terms(items: Seq<SyntaxGuardClause>) -> Seq<Term>
    decreases items,
{
    if items.len() == 0 {
        Seq::empty()
    } else {
        guards_terms(items.drop_last()).push(guard_term(items.last()))
    }
}

pub open spec fn arms_terms(items: Seq<MatchArm>) -> Seq<Term>
    decreases items,
{
    if items.len() == 0 {
        Seq::empty()
    } else {
        arms_terms(items.drop_last()).push(arm_term(items.last()))
    }
}

pub open spec fn when_arms_terms(items: Seq<WhenArm>) -> Seq<Term>
    decreases items,
{
    if items.len() == 0 {
        Seq::empty()
    } else {
        when_arms_terms(items.drop_last()).push(when_arm_term(items.last()))
    }
}

pub open spec fn bindings_terms(items: Seq<(String, SyntaxExpr)>) -> Seq<Term>
    decreases items,
{
    if items.len() == 0 {
        Seq::empty()
    } else {
        bindings_terms(items.drop_last()).push(binding_term(items.last()))
    }
}

pub open spec fn links_terms(items: Seq<(SyntaxOperator, SyntaxExpr)>) -> Seq<Term>
    decreases items,
{
    if items.len() == 0 {
        Seq::empty()
    } else {
        links_terms(items.drop_last()).push(link_term(items.last()))
    }
}

pub open spec fn patterns_terms(items: Seq<SyntaxPattern>) -> Seq<Term>
    decreases items,
{
    if items.len() == 0 {
        Seq::empty()
    } else {
        patterns_terms(items.drop_last()).push(pattern_term(items.last()))
    }
}

pub open spec fn entries_terms(items: Seq<SyntaxDictPatternEntry>) -> Seq<Term>
    decreases items,
{
    if items.len() == 0 {
        Seq::empty()
    } else {
        entries_terms(items.drop_last()).push(entry_term(items.last()))
    }
}

pub proof fn keys_terms_push(items: Seq<SyntaxKeyExpr>, item: SyntaxKeyExpr)
    ensures
        keys_terms(items.push(item)) == keys_terms(items).push(key_term(item)),
        keys_terms(items).len() == items.len(),
    decreases items.len(),
{
    assert(items.push(item).drop_last() =~= items);
    if items.len() > 0 {
        keys_terms_push(items.drop_last(), items.last());
    }
}

pub proof fn exprs_terms_push(items: Seq<SyntaxExpr>, item: SyntaxExpr)
    ensures
        exprs_terms(items.push(item)) == exprs_terms(items).push(expr_term(item)),
        exprs_terms(items).len() == items.len(),
    decreases items.len(),
{
    assert(items.push(item).drop_last() =~= items);
    if items.len() > 0 {
        exprs_terms_push(items.drop_last(), items.last());
    }
}

pub proof fn items_terms_push(items: Seq<ObjectBodyDefinition>, item: ObjectBodyDefinition)
    ensures
        items_terms(items.push(item)) == items_terms(items).push(item_term(item)),
        items_terms(items).len() == items.len(),
    decreases items.len(),
{
    assert(items.push(item).drop_last() =~= items);
    if items.len() > 0 {
        items_terms_push(items.drop_last(), items.last());
    }
}

pub proof fn steps_terms_push(items: Seq<DoStep>, item: DoStep)
    ensures
        steps_terms(items.push(item)) == steps_terms(items).push(step_term(item)),
        steps_terms(items).len() == items.len(),
    decreases items.len(),
{
    assert(items.push(item).drop_last() =~= items);
    if items.len() > 0 {
        steps_terms_push(items.drop_last(), items.last());
    }
}

pub proof fn guards_terms_push(items: Seq<SyntaxGuardClause>, item: SyntaxGuardClause)
    ensures
        guards_terms(items.push(item)) == guards_terms(items).push(guard_term(item)),
        guards_terms(items).len() == items.len(),
    decreases items.len(),
{
    assert(items.push(item).drop_last() =~= items);
    if items.len() > 0 {
        guards_terms_push(items.drop_last(), items.last());
    }
}

pub proof fn arms_terms_push(items: Seq<MatchArm>, item: MatchArm)
    ensures
        arms_terms(items.push(item)) == arms_terms(items).push(arm_term(item)),
        arms_terms(items).len() == items.len(),
    decreases items.len(),
{
    assert(items.push(item).drop_last() =~= items);
    if items.len() > 0 {
        arms_terms_push(items.drop_last(), items.last());
    }
}

pub proof fn when_arms_terms_push(items: Seq<WhenArm>, item: WhenArm)
    ensures
        when_arms_terms(items.push(item)) == when_arms_terms(items).push(when_arm_term(item)),
        when_arms_terms(items).len() == items.len(),
    decreases items.len(),
{
    assert(items.push(item).drop_last() =~= items);
    if items.len() > 0 {
        when_arms_terms_push(items.drop_last(), items.last());
    }
}

pub proof fn bindings_terms_push(items: Seq<(String, SyntaxExpr)>, item: (String, SyntaxExpr))
    ensures
        bindings_terms(items.push(item)) == bindings_terms(items).push(binding_term(item)),
        bindings_terms(items).len() == items.len(),
    decreases items.len(),
{
    assert(items.push(item).drop_last() =~= items);
    if items.len() > 0 {
        bindings_terms_push(items.drop_last(), items.last());
    }
}

pub proof fn links_terms_push(items: Seq<(SyntaxOperator, SyntaxExpr)>, item: (SyntaxOperator, SyntaxExpr))
    ensures
        links_terms(items.push(item)) == links_terms(items).push(link_term(item)),
        links_terms(items).len() == items.len(),
    decreases items.len(),
{
    assert(items.push(item).drop_last() =~= items);
    if items.len() > 0 {
        links_terms_push(items.drop_last(), items.last());
    }
}

pub proof fn patterns_terms_push(items: Seq<SyntaxPattern>, item: SyntaxPattern)
    ensures
        patterns_terms(items.push(item)) == patterns_terms(items).push(pattern_term(item)),
        patterns_terms(items).len() == items.len(),
    decreases items.len(),
{
    assert(items.push(item).drop_last() =~= items);
    if items.len() > 0 {
        patterns_terms_push(items.drop_last(), items.last());
    }
}

pub proof fn entries_terms_push(items: Seq<SyntaxDictPatternEntry>, item: SyntaxDictPatternEntry)
    ensures
        entries_terms(items.push(item)) == entries_terms(items).push(entry_term(item)),
        entries_terms(items).len() == items.len(),
    decreases items.len(),
{
    assert(items.push(item).drop_last() =~= items);
    if items.len() > 0 {
        entries_terms_push(items.drop_last(), items.last());
    }
}

/// The term of an expression that may be left out.
pub open spec fn maybe_expr(expr: Option<Box<SyntaxExpr>>) -> Term {
    match expr {
        Some(expr) => maybe(Some(expr_term(*expr))),
        None => maybe(None),
    }
}

pub open spec fn perhaps_expr(expr: Option<SyntaxExpr>) -> Term {
    match expr {
        Some(expr) => maybe(Some(expr_term(expr))),
        None => maybe(None),
    }
}

/// The term of a pattern that may be left out.
pub open spec fn maybe_pattern(pattern: Option<Box<SyntaxPattern>>) -> Term {
    match pattern {
        Some(pattern) => maybe(Some(pattern_term(*pattern))),
        None => maybe(None),
    }
}

/// The term of what a member of an object declares.
pub open spec fn kind_shape(kind: ObjectBodyDefinitionKind) -> Term {
    match kind {
        ObjectBodyDefinitionKind::Definition(definition) => definition_term(definition),
        ObjectBodyDefinitionKind::Object(object) => object_term(object),
        ObjectBodyDefinitionKind::Extend(extend) => extend_term(extend),
    }
}

/// What the term of an expr is made of.
pub open spec fn expr_shape(expr: SyntaxExpr) -> Term {
    match expr {
        SyntaxExpr::Unit => node(Tag::Unit, Seq::empty()),
        SyntaxExpr::Embedded(value) => Term::Data(value),
        SyntaxExpr::Number(number) => node(Tag::Number, seq![Term::Text(number.literal@)]),
        SyntaxExpr::Text(text) => node(Tag::Literal, seq![Term::Text(text@)]),
        SyntaxExpr::Atom(name) => node(Tag::Atom, seq![Term::Text(name@)]),
        SyntaxExpr::Effect(path) => node(Tag::Effect, words(path@)),
        SyntaxExpr::Name(name) => node(Tag::Name, seq![Term::Text(name@)]),
        SyntaxExpr::PriorName(name) => node(Tag::PriorName, seq![Term::Text(name@)]),
        SyntaxExpr::Escape(depth, inner) => node(
            Tag::Escape,
            seq![Term::Size(depth as nat), expr_term(*inner)],
        ),
        SyntaxExpr::Access(base, path) => node(
            Tag::Access,
            seq![expr_term(*base), many(keys_terms(path@))],
        ),
        SyntaxExpr::Object(object) => node(
            Tag::Object,
            seq![
                realization_term(object.realization),
                maybe_expr(object.name),
                maybe_word(object.alias),
                many(exprs_terms(object.deps@)),
                many(items_terms(object.body@)),
            ],
        ),
        SyntaxExpr::With { base, alias, body } => node(
            Tag::With,
            seq![expr_term(*base), maybe_word(alias), many(items_terms(body@))],
        ),
        SyntaxExpr::Using { namespace, body } => node(
            Tag::Using,
            seq![expr_term(*namespace), expr_term(*body)],
        ),
        SyntaxExpr::PathDict(path, value) => node(
            Tag::PathDict,
            seq![many(keys_terms(path@)), expr_term(*value)],
        ),
        SyntaxExpr::TaggedConstructor(path) => node(Tag::TaggedConstructor, keys_terms(path@)),
        SyntaxExpr::DictUnion(items) => node(Tag::DictUnion, exprs_terms(items@)),
        SyntaxExpr::List(items) => node(Tag::List, exprs_terms(items@)),
        SyntaxExpr::Tuple(items) => node(Tag::Tuple, exprs_terms(items@)),
        SyntaxExpr::Lambda(params, body) => node(
            Tag::Lambda,
            seq![many(words(params@)), expr_term(*body)],
        ),
        SyntaxExpr::Do(block) => node(
            Tag::Do,
            seq![
                many(steps_terms(block.steps@)),
                Term::Size(block.result_line as nat),
                expr_term(*block.result),
            ],
        ),
        SyntaxExpr::If(choice) => node(
            Tag::If,
            seq![
                mode_term(choice.mode),
                many(guards_terms(choice.guards@)),
                result_mode_term(choice.then_mode),
                expr_term(*choice.then_result),
                expr_term(*choice.else_result),
            ],
        ),
        SyntaxExpr::Match(choice) => node(
            Tag::Match,
            seq![
                Term::Size(choice.line as nat),
                mode_term(choice.mode),
                commitment_term(choice.commitment),
                expr_term(*choice.subject),
                many(arms_terms(choice.arms@)),
            ],
        ),
        SyntaxExpr::MatchWhen(choice) => node(
            Tag::MatchWhen,
            seq![
                Term::Size(choice.line as nat),
                mode_term(choice.mode),
                commitment_term(choice.commitment),
                many(when_arms_terms(choice.arms@)),
            ],
        ),
        SyntaxExpr::Let { bindings, body } => node(
            Tag::Let,
            seq![many(bindings_terms(bindings@)), expr_term(*body)],
        ),
        SyntaxExpr::Apply(left, right) => node(
            Tag::Apply,
            seq![expr_term(*left), expr_term(*right)],
        ),
        SyntaxExpr::OperatorApply { operator, left, right } => node(
            Tag::OperatorApply,
            seq![Term::Operator(operator), expr_term(*left), expr_term(*right)],
        ),
        SyntaxExpr::ComparisonChain { first, rest } => node(
            Tag::ComparisonChain,
            seq![expr_term(*first), many(links_terms(rest@))],
        ),
        SyntaxExpr::OperatorSection { operator, left, right } => node(
            Tag::OperatorSection,
            seq![
                Term::Operator(operator),
                maybe_expr(left),
                maybe_expr(right),
            ],
        ),
        SyntaxExpr::Multiply(left, right) => node(
            Tag::Multiply,
            seq![expr_term(*left), expr_term(*right)],
        ),
        SyntaxExpr::Divide(left, right) => node(
            Tag::Divide,
            seq![expr_term(*left), expr_term(*right)],
        ),
        SyntaxExpr::Add(left, right) => node(
            Tag::Add,
            seq![expr_term(*left), expr_term(*right)],
        ),
        SyntaxExpr::Subtract(left, right) => node(
            Tag::Subtract,
            seq![expr_term(*left), expr_term(*right)],
        ),
        SyntaxExpr::Append(left, right) => node(
            Tag::Append,
            seq![expr_term(*left), expr_term(*right)],
        ),
    }
}

/// The term of an expr has its shape.
pub proof fn expr_def(expr: SyntaxExpr)
    ensures
        expr_term(expr) == expr_shape(expr),
{
    match expr {
        SyntaxExpr::Unit => {
            assert(expr_term(expr)->Node_1 =~= expr_shape(expr)->Node_1);
            assert(expr_term(expr) == expr_shape(expr));
        },
        SyntaxExpr::Embedded(..) => {
            assert(expr_term(expr)->Node_1 =~= expr_shape(expr)->Node_1);
            assert(expr_term(expr) == expr_shape(expr));
        },
        SyntaxExpr::Number(..) => {
            assert(expr_term(expr)->Node_1 =~= expr_shape(expr)->Node_1);
            assert(expr_term(expr) == expr_shape(expr));
        },
        SyntaxExpr::Text(..) => {
            assert(expr_term(expr)->Node_1 =~= expr_shape(expr)->Node_1);
            assert(expr_term(expr) == expr_shape(expr));
        },
        SyntaxExpr::Atom(..) => {
            assert(expr_term(expr)->Node_1 =~= expr_shape(expr)->Node_1);
            assert(expr_term(expr) == expr_shape(expr));
        },
        SyntaxExpr::Effect(..) => {
            assert(expr_term(expr)->Node_1 =~= expr_shape(expr)->Node_1);
            assert(expr_term(expr) == expr_shape(expr));
        },
        SyntaxExpr::Name(..) => {
            assert(expr_term(expr)->Node_1 =~= expr_shape(expr)->Node_1);
            assert(expr_term(expr) == expr_shape(expr));
        },
        SyntaxExpr::PriorName(..) => {
            assert(expr_term(expr)->Node_1 =~= expr_shape(expr)->Node_1);
            assert(expr_term(expr) == expr_shape(expr));
        },
        SyntaxExpr::Escape(..) => {
            assert(expr_term(expr)->Node_1 =~= expr_shape(expr)->Node_1);
            assert(expr_term(expr) == expr_shape(expr));
        },
        SyntaxExpr::Access(..) => {
            assert(expr_term(expr)->Node_1 =~= expr_shape(expr)->Node_1);
            assert(expr_term(expr) == expr_shape(expr));
        },
        SyntaxExpr::Object(..) => {
            assert(expr_term(expr)->Node_1 =~= expr_shape(expr)->Node_1);
            assert(expr_term(expr) == expr_shape(expr));
        },
        SyntaxExpr::With { .. } => {
            assert(expr_term(expr)->Node_1 =~= expr_shape(expr)->Node_1);
            assert(expr_term(expr) == expr_shape(expr));
        },
        SyntaxExpr::Using { .. } => {
            assert(expr_term(expr)->Node_1 =~= expr_shape(expr)->Node_1);
            assert(expr_term(expr) == expr_shape(expr));
        },
        SyntaxExpr::PathDict(..) => {
            assert(expr_term(expr)->Node_1 =~= expr_shape(expr)->Node_1);
            assert(expr_term(expr) == expr_shape(expr));
        },
        SyntaxExpr::TaggedConstructor(..) => {
            assert(expr_term(expr)->Node_1 =~= expr_shape(expr)->Node_1);
            assert(expr_term(expr) == expr_shape(expr));
        },
        SyntaxExpr::DictUnion(..) => {
            assert(expr_term(expr)->Node_1 =~= expr_shape(expr)->Node_1);
            assert(expr_term(expr) == expr_shape(expr));
        },
        SyntaxExpr::List(..) => {
            assert(expr_term(expr)->Node_1 =~= expr_shape(expr)->Node_1);
            assert(expr_term(expr) == expr_shape(expr));
        },
        SyntaxExpr::Tuple(..) => {
            assert(expr_term(expr)->Node_1 =~= expr_shape(expr)->Node_1);
            assert(expr_term(expr) == expr_shape(expr));
        },
        SyntaxExpr::Lambda(..) => {
            assert(expr_term(expr)->Node_1 =~= expr_shape(expr)->Node_1);
            assert(expr_term(expr) == expr_shape(expr));
        },
        SyntaxExpr::Do(..) => {
            assert(expr_term(expr)->Node_1 =~= expr_shape(expr)->Node_1);
            assert(expr_term(expr) == expr_shape(expr));
        },
        SyntaxExpr::If(..) => {
            assert(expr_term(expr)->Node_1 =~= expr_shape(expr)->Node_1);
            assert(expr_term(expr) == expr_shape(expr));
        },
        SyntaxExpr::Match(..) => {
            assert(expr_term(expr)->Node_1 =~= expr_shape(expr)->Node_1);
            assert(expr_term(expr) == expr_shape(expr));
        },
        SyntaxExpr::MatchWhen(..) => {
            assert(expr_term(expr)->Node_1 =~= expr_shape(expr)->Node_1);
            assert(expr_term(expr) == expr_shape(expr));
        },
        SyntaxExpr::Let { .. } => {
            assert(expr_term(expr)->Node_1 =~= expr_shape(expr)->Node_1);
            assert(expr_term(expr) == expr_shape(expr));
        },
        SyntaxExpr::Apply(..) => {
            assert(expr_term(expr)->Node_1 =~= expr_shape(expr)->Node_1);
            assert(expr_term(expr) == expr_shape(expr));
        },
        SyntaxExpr::OperatorApply { .. } => {
            assert(expr_term(expr)->Node_1 =~= expr_shape(expr)->Node_1);
            assert(expr_term(expr) == expr_shape(expr));
        },
        SyntaxExpr::ComparisonChain { .. } => {
            assert(expr_term(expr)->Node_1 =~= expr_shape(expr)->Node_1);
            assert(expr_term(expr) == expr_shape(expr));
        },
        SyntaxExpr::OperatorSection { .. } => {
            assert(expr_term(expr)->Node_1 =~= expr_shape(expr)->Node_1);
            assert(expr_term(expr) == expr_shape(expr));
        },
        SyntaxExpr::Multiply(..) => {
            assert(expr_term(expr)->Node_1 =~= expr_shape(expr)->Node_1);
            assert(expr_term(expr) == expr_shape(expr));
        },
        SyntaxExpr::Divide(..) => {
            assert(expr_term(expr)->Node_1 =~= expr_shape(expr)->Node_1);
            assert(expr_term(expr) == expr_shape(expr));
        },
        SyntaxExpr::Add(..) => {
            assert(expr_term(expr)->Node_1 =~= expr_shape(expr)->Node_1);
            assert(expr_term(expr) == expr_shape(expr));
        },
        SyntaxExpr::Subtract(..) => {
            assert(expr_term(expr)->Node_1 =~= expr_shape(expr)->Node_1);
            assert(expr_term(expr) == expr_shape(expr));
        },
        SyntaxExpr::Append(..) => {
            assert(expr_term(expr)->Node_1 =~= expr_shape(expr)->Node_1);
            assert(expr_term(expr) == expr_shape(expr));
        },
    }
}

/// What the term of a key is made of.
pub open spec fn key_shape(key: SyntaxKeyExpr) -> Term {
    match key {
        SyntaxKeyExpr::Atom(name) => node(Tag::KeyAtom, seq![Term::Text(name@)]),
        SyntaxKeyExpr::Index(expr) => node(Tag::KeyIndex, seq![expr_term(*expr)]),
        SyntaxKeyExpr::PathIndex(expr) => node(Tag::KeyPathIndex, seq![expr_term(*expr)]),
    }
}

/// The term of a key has its shape.
pub proof fn key_def(key: SyntaxKeyExpr)
    ensures
        key_term(key) == key_shape(key),
{
    match key {
        SyntaxKeyExpr::Atom(..) => {
            assert(key_term(key)->Node_1 =~= key_shape(key)->Node_1);
            assert(key_term(key) == key_shape(key));
        },
        SyntaxKeyExpr::Index(..) => {
            assert(key_term(key)->Node_1 =~= key_shape(key)->Node_1);
            assert(key_term(key) == key_shape(key));
        },
        SyntaxKeyExpr::PathIndex(..) => {
            assert(key_term(key)->Node_1 =~= key_shape(key)->Node_1);
            assert(key_term(key) == key_shape(key));
        },
    }
}

/// What the term of a pattern is made of.
pub open spec fn pattern_shape(pattern: SyntaxPattern) -> Term {
    match pattern.kind {
        SyntaxPatternKind::Capture(name) => node(Tag::Capture, seq![Term::Text(name@)]),
        SyntaxPatternKind::Wildcard => node(Tag::Wildcard, Seq::empty()),
        SyntaxPatternKind::Literal(literal) => node(Tag::LiteralPattern, seq![literal_term(literal)]),
        SyntaxPatternKind::List { prefix, middle, suffix } => node(
            Tag::ListPattern,
            seq![
                many(patterns_terms(prefix@)),
                maybe_pattern(middle),
                many(patterns_terms(suffix@)),
            ],
        ),
        SyntaxPatternKind::Dict { entries, remainder } => node(
            Tag::DictPattern,
            seq![
                many(entries_terms(entries@)),
                maybe_pattern(remainder),
            ],
        ),
        SyntaxPatternKind::QuotedPath(path) => node(Tag::QuotedPath, keys_terms(path@)),
        SyntaxPatternKind::Group(inner) => node(Tag::Group, seq![pattern_term(*inner)]),
        SyntaxPatternKind::As(left, right) => node(
            Tag::As,
            seq![pattern_term(*left), pattern_term(*right)],
        ),
        SyntaxPatternKind::View { view, pattern } => node(
            Tag::View,
            seq![expr_term(*view), pattern_term(*pattern)],
        ),
        SyntaxPatternKind::Predicate { predicate, pattern } => node(
            Tag::Predicate,
            seq![expr_term(*predicate), pattern_term(*pattern)],
        ),
        SyntaxPatternKind::Guarded { pattern, guards } => node(
            Tag::Guarded,
            seq![pattern_term(*pattern), many(guards_terms(guards@))],
        ),
    }
}

/// The term of a pattern has its shape.
pub proof fn pattern_def(pattern: SyntaxPattern)
    ensures
        pattern_term(pattern) == pattern_shape(pattern),
{
    match pattern.kind {
        SyntaxPatternKind::Capture(..) => {
            assert(pattern_term(pattern)->Node_1 =~= pattern_shape(pattern)->Node_1);
            assert(pattern_term(pattern) == pattern_shape(pattern));
        },
        SyntaxPatternKind::Wildcard => {
            assert(pattern_term(pattern)->Node_1 =~= pattern_shape(pattern)->Node_1);
            assert(pattern_term(pattern) == pattern_shape(pattern));
        },
        SyntaxPatternKind::Literal(..) => {
            assert(pattern_term(pattern)->Node_1 =~= pattern_shape(pattern)->Node_1);
            assert(pattern_term(pattern) == pattern_shape(pattern));
        },
        SyntaxPatternKind::List { .. } => {
            assert(pattern_term(pattern)->Node_1 =~= pattern_shape(pattern)->Node_1);
            assert(pattern_term(pattern) == pattern_shape(pattern));
        },
        SyntaxPatternKind::Dict { .. } => {
            assert(pattern_term(pattern)->Node_1 =~= pattern_shape(pattern)->Node_1);
            assert(pattern_term(pattern) == pattern_shape(pattern));
        },
        SyntaxPatternKind::QuotedPath(..) => {
            assert(pattern_term(pattern)->Node_1 =~= pattern_shape(pattern)->Node_1);
            assert(pattern_term(pattern) == pattern_shape(pattern));
        },
        SyntaxPatternKind::Group(..) => {
            assert(pattern_term(pattern)->Node_1 =~= pattern_shape(pattern)->Node_1);
            assert(pattern_term(pattern) == pattern_shape(pattern));
        },
        SyntaxPatternKind::As(..) => {
            assert(pattern_term(pattern)->Node_1 =~= pattern_shape(pattern)->Node_1);
            assert(pattern_term(pattern) == pattern_shape(pattern));
        },
        SyntaxPatternKind::View { .. } => {
            assert(pattern_term(pattern)->Node_1 =~= pattern_shape(pattern)->Node_1);
            assert(pattern_term(pattern) == pattern_shape(pattern));
        },
        SyntaxPatternKind::Predicate { .. } => {
            assert(pattern_term(pattern)->Node_1 =~= pattern_shape(pattern)->Node_1);
            assert(pattern_term(pattern) == pattern_shape(pattern));
        },
        SyntaxPatternKind::Guarded { .. } => {
            assert(pattern_term(pattern)->Node_1 =~= pattern_shape(pattern)->Node_1);
            assert(pattern_term(pattern) == pattern_shape(pattern));
        },
    }
}

/// What the term of an entry is made of.
pub open spec fn entry_shape(entry: SyntaxDictPatternEntry) -> Term {
    node(
        Tag::Entry,
        seq![
            many(keys_terms(entry.path@)),
            Term::Flag(entry.optional),
            pattern_term(entry.pattern),
        ],
    )
}

/// The term of an entry has its shape.
pub proof fn entry_def(entry: SyntaxDictPatternEntry)
    ensures
        entry_term(entry) == entry_shape(entry),
{
    assert(entry_term(entry)->Node_1 =~= entry_shape(entry)->Node_1);
}

/// What the term of a guard is made of.
pub open spec fn guard_shape(guard: SyntaxGuardClause) -> Term {
    match guard {
        SyntaxGuardClause::Pass => node(Tag::Pass, Seq::empty()),
        SyntaxGuardClause::Effect(expr) => node(Tag::EffectClause, seq![expr_term(expr)]),
        SyntaxGuardClause::EffectBind { pattern, operation } => node(
            Tag::EffectBindClause,
            seq![pattern_term(pattern), expr_term(operation)],
        ),
        SyntaxGuardClause::ValueBind { pattern, value } => node(
            Tag::ValueBindClause,
            seq![pattern_term(pattern), expr_term(value)],
        ),
    }
}

/// The term of a guard has its shape.
pub proof fn guard_def(guard: SyntaxGuardClause)
    ensures
        guard_term(guard) == guard_shape(guard),
{
    match guard {
        SyntaxGuardClause::Pass => {
            assert(guard_term(guard)->Node_1 =~= guard_shape(guard)->Node_1);
            assert(guard_term(guard) == guard_shape(guard));
        },
        SyntaxGuardClause::Effect(..) => {
            assert(guard_term(guard)->Node_1 =~= guard_shape(guard)->Node_1);
            assert(guard_term(guard) == guard_shape(guard));
        },
        SyntaxGuardClause::EffectBind { .. } => {
            assert(guard_term(guard)->Node_1 =~= guard_shape(guard)->Node_1);
            assert(guard_term(guard) == guard_shape(guard));
        },
        SyntaxGuardClause::ValueBind { .. } => {
            assert(guard_term(guard)->Node_1 =~= guard_shape(guard)->Node_1);
            assert(guard_term(guard) == guard_shape(guard));
        },
    }
}

/// What the term of a step kind is made of.
pub open spec fn step_kind_shape(kind: DoStepKind) -> Term {
    match kind {
        DoStepKind::Abstract(names) => node(Tag::AbstractStep, words(names@)),
        DoStepKind::Bind { pattern, operation } => node(
            Tag::BindStep,
            seq![pattern_term(pattern), expr_term(operation)],
        ),
        DoStepKind::ValueBind { pattern, value } => node(
            Tag::ValueBindStep,
            seq![pattern_term(pattern), expr_term(value)],
        ),
        DoStepKind::Then(expr) => node(Tag::ThenStep, seq![expr_term(expr)]),
    }
}

/// The term of a step kind has its shape.
pub proof fn step_kind_def(kind: DoStepKind)
    ensures
        step_kind_term(kind) == step_kind_shape(kind),
{
    match kind {
        DoStepKind::Abstract(..) => {
            assert(step_kind_term(kind)->Node_1 =~= step_kind_shape(kind)->Node_1);
            assert(step_kind_term(kind) == step_kind_shape(kind));
        },
        DoStepKind::Bind { .. } => {
            assert(step_kind_term(kind)->Node_1 =~= step_kind_shape(kind)->Node_1);
            assert(step_kind_term(kind) == step_kind_shape(kind));
        },
        DoStepKind::ValueBind { .. } => {
            assert(step_kind_term(kind)->Node_1 =~= step_kind_shape(kind)->Node_1);
            assert(step_kind_term(kind) == step_kind_shape(kind));
        },
        DoStepKind::Then(..) => {
            assert(step_kind_term(kind)->Node_1 =~= step_kind_shape(kind)->Node_1);
            assert(step_kind_term(kind) == step_kind_shape(kind));
        },
    }
}

/// What the term of a step is made of.
pub open spec fn step_shape(step: DoStep) -> Term {
    node(Tag::Step, seq![Term::Size(step.line as nat), step_kind_term(step.kind)])
}

/// The term of a step has its shape.
pub proof fn step_def(step: DoStep)
    ensures
        step_term(step) == step_shape(step),
{
    assert(step_term(step)->Node_1 =~= step_shape(step)->Node_1);
}

/// What the term of an outcome is made of.
pub open spec fn outcome_shape(outcome: MatchOutcome) -> Term {
    match outcome {
        MatchOutcome::Result { line, mode, expression } => node(
            Tag::Outcome,
            seq![Term::Size(line as nat), result_mode_term(mode), expr_term(expression)],
        ),
        MatchOutcome::Nested(arms) => node(Tag::Nested, when_arms_terms(arms@)),
    }
}

/// The term of an outcome has its shape.
pub proof fn outcome_def(outcome: MatchOutcome)
    ensures
        outcome_term(outcome) == outcome_shape(outcome),
{
    match outcome {
        MatchOutcome::Result { .. } => {
            assert(outcome_term(outcome)->Node_1 =~= outcome_shape(outcome)->Node_1);
            assert(outcome_term(outcome) == outcome_shape(outcome));
        },
        MatchOutcome::Nested(..) => {
            assert(outcome_term(outcome)->Node_1 =~= outcome_shape(outcome)->Node_1);
            assert(outcome_term(outcome) == outcome_shape(outcome));
        },
    }
}

/// What the term of an arm is made of.
pub open spec fn arm_shape(arm: MatchArm) -> Term {
    node(
        Tag::Arm,
        seq![
            Term::Size(arm.line as nat),
            pattern_term(arm.pattern),
            many(guards_terms(arm.guards@)),
            outcome_term(arm.outcome),
        ],
    )
}

/// The term of an arm has its shape.
pub proof fn arm_def(arm: MatchArm)
    ensures
        arm_term(arm) == arm_shape(arm),
{
    assert(arm_term(arm)->Node_1 =~= arm_shape(arm)->Node_1);
}

/// What the term of a when arm is made of.
pub open spec fn when_arm_shape(arm: WhenArm) -> Term {
    node(
        Tag::WhenArm,
        seq![
            Term::Size(arm.line as nat),
            many(guards_terms(arm.guards@)),
            outcome_term(arm.outcome),
        ],
    )
}

/// The term of a when arm has its shape.
pub proof fn when_arm_def(arm: WhenArm)
    ensures
        when_arm_term(arm) == when_arm_shape(arm),
{
    assert(when_arm_term(arm)->Node_1 =~= when_arm_shape(arm)->Node_1);
}

/// What the term of a binding is made of.
pub open spec fn binding_shape(binding: (String, SyntaxExpr)) -> Term {
    node(Tag::Binding, seq![Term::Text(binding.0@), expr_term(binding.1)])
}

/// The term of a binding has its shape.
pub proof fn binding_def(binding: (String, SyntaxExpr))
    ensures
        binding_term(binding) == binding_shape(binding),
{
    assert(binding_term(binding)->Node_1 =~= binding_shape(binding)->Node_1);
}

/// What the term of a link is made of.
pub open spec fn link_shape(link: (SyntaxOperator, SyntaxExpr)) -> Term {
    node(Tag::Link, seq![Term::Operator(link.0), expr_term(link.1)])
}

/// The term of a link has its shape.
pub proof fn link_def(link: (SyntaxOperator, SyntaxExpr))
    ensures
        link_term(link) == link_shape(link),
{
    assert(link_term(link)->Node_1 =~= link_shape(link)->Node_1);
}

/// What the term of a definition is made of.
pub open spec fn definition_shape(definition: DefinitionDecl) -> Term {
    node(
        Tag::Definition,
        seq![
            many(keys_terms(definition.target@)),
            many(words(definition.parameters@)),
            kind_term(definition.kind),
            perhaps_expr(definition.expr),
        ],
    )
}

/// The term of a definition has its shape.
pub proof fn definition_def(definition: DefinitionDecl)
    ensures
        definition_term(definition) == definition_shape(definition),
{
    assert(definition_term(definition)->Node_1 =~= definition_shape(definition)->Node_1);
}

/// What the term of an object is made of.
pub open spec fn object_shape(object: ObjectDecl) -> Term {
    node(
        Tag::ObjectDeclaration,
        seq![
            realization_term(object.realization),
            Term::Text(object.target@),
            maybe_word(object.alias),
            many(exprs_terms(object.deps@)),
            many(items_terms(object.body@)),
        ],
    )
}

/// The term of an object has its shape.
pub proof fn object_def(object: ObjectDecl)
    ensures
        object_term(object) == object_shape(object),
{
    assert(object_term(object)->Node_1 =~= object_shape(object)->Node_1);
}

/// What the term of an extend is made of.
pub open spec fn extend_shape(extend: ObjectExtendDecl) -> Term {
    node(
        Tag::Extension,
        seq![
            realization_term(extend.realization),
            Term::Text(extend.target@),
            maybe_word(extend.alias),
            many(items_terms(extend.body@)),
        ],
    )
}

/// The term of an extend has its shape.
pub proof fn extend_def(extend: ObjectExtendDecl)
    ensures
        extend_term(extend) == extend_shape(extend),
{
    assert(extend_term(extend)->Node_1 =~= extend_shape(extend)->Node_1);
}

/// What the term of an item is made of.
pub open spec fn item_shape(item: ObjectBodyDefinition) -> Term {
    node(
        Tag::Item,
        seq![
            Term::Size(item.line as nat),
            kind_shape(item.kind),
        ],
    )
}

/// The term of an item has its shape.
pub proof fn item_def(item: ObjectBodyDefinition)
    ensures
        item_term(item) == item_shape(item),
{
    match item.kind {
        ObjectBodyDefinitionKind::Definition(..) => {
            assert(item_term(item)->Node_1 =~= item_shape(item)->Node_1);
            assert(item_term(item) == item_shape(item));
        },
        ObjectBodyDefinitionKind::Object(..) => {
            assert(item_term(item)->Node_1 =~= item_shape(item)->Node_1);
            assert(item_term(item) == item_shape(item));
        },
        ObjectBodyDefinitionKind::Extend(..) => {
            assert(item_term(item)->Node_1 =~= item_shape(item)->Node_1);
            assert(item_term(item) == item_shape(item));
        },
    }
}

/// The terms of keys, one by one.
pub proof fn keys_terms_at(items: Seq<SyntaxKeyExpr>)
    ensures
        keys_terms(items).len() == items.len(),
        forall|k: int|
            0 <= k < items.len() ==> #[trigger] keys_terms(items)[k] == key_term(
                items[k],
            ),
    decreases items.len(),
{
    if items.len() > 0 {
        keys_terms_at(items.drop_last());
        assert forall|k: int| 0 <= k < items.len() implies #[trigger] keys_terms(items)[k]
            == key_term(items[k]) by {
            if k < items.len() - 1 {
                assert(items.drop_last()[k] == items[k]);
                assert(keys_terms(items)[k] == keys_terms(items.drop_last())[k]);
            }
        }
    }
}

/// The terms of two lists of keys in a row.
pub proof fn keys_terms_add(left: Seq<SyntaxKeyExpr>, right: Seq<SyntaxKeyExpr>)
    ensures
        keys_terms(left + right) == keys_terms(left) + keys_terms(right),
{
    keys_terms_at(left);
    keys_terms_at(right);
    keys_terms_at(left + right);
    let all = keys_terms(left + right);
    assert(all =~= keys_terms(left) + keys_terms(right)) by {
        assert forall|k: int| 0 <= k < all.len() implies all[k] == (keys_terms(left)
            + keys_terms(right))[k] by {
            assert(all[k] == key_term((left + right)[k]));
        }
    }
}

/// The terms of patterns, one by one.
pub proof fn patterns_terms_at(items: Seq<SyntaxPattern>)
    ensures
        patterns_terms(items).len() == items.len(),
        forall|k: int|
            0 <= k < items.len() ==> #[trigger] patterns_terms(items)[k] == pattern_term(
                items[k],
            ),
    decreases items.len(),
{
    if items.len() > 0 {
        patterns_terms_at(items.drop_last());
        assert forall|k: int| 0 <= k < items.len() implies #[trigger] patterns_terms(items)[k]
            == pattern_term(items[k]) by {
            if k < items.len() - 1 {
                assert(items.drop_last()[k] == items[k]);
                assert(patterns_terms(items)[k] == patterns_terms(items.drop_last())[k]);
            }
        }
    }
}

/// The terms of two lists of patterns in a row.
pub proof fn patterns_terms_add(left: Seq<SyntaxPattern>, right: Seq<SyntaxPattern>)
    ensures
        patterns_terms(left + right) == patterns_terms(left) + patterns_terms(right),
{
    patterns_terms_at(left);
    patterns_terms_at(right);
    patterns_terms_at(left + right);
    let all = patterns_terms(left + right);
    assert(all =~= patterns_terms(left) + patterns_terms(right)) by {
        assert forall|k: int| 0 <= k < all.len() implies all[k] == (patterns_terms(left)
            + patterns_terms(right))[k] by {
            assert(all[k] == pattern_term((left + right)[k]));
        }
    }
}

/// An expression, with what its term is made of.
pub(crate) fn formed(expr: SyntaxExpr) -> (same: SyntaxExpr)
    ensures
        same == expr,
        expr_term(same) == expr_shape(same),
{
    proof {
        expr_def(expr);
    }
    expr
}

/// A key, with what its term is made of.
pub(crate) fn formed_key(key: SyntaxKeyExpr) -> (same: SyntaxKeyExpr)
    ensures
        same == key,
        key_term(same) == key_shape(same),
{
    proof {
        key_def(key);
    }
    key
}

} // verus!
