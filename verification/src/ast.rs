//! Syntax trees of the `g0` language.

use vstd::prelude::*;
use crate::diagnostic::Diagnostic;
use crate::number::Number;
use crate::values::{Builtin, Value};

verus! {

#[derive(Debug, PartialEq, Eq)]
pub struct ParsedSource {
    pub declarations: Vec<Declaration>,
    pub diagnostics: Vec<Diagnostic>,
}

#[derive(Debug, PartialEq, Eq)]
pub struct Declaration {
    pub line: usize,
    pub kind: DeclarationKind,
    /// A source-inspection aid, not parser input retained by the syntax tree.
    pub preview: String,
}

#[derive(Debug, PartialEq, Eq)]
pub enum DeclarationKind {
    Language(LanguageDecl),
    Import(ImportDecl),
    Abstract(Vec<String>),
    Unique(Vec<String>),
    Object(ObjectDecl),
    Extend(ObjectExtendDecl),
    Definition(DefinitionDecl),
    Unknown,
}

#[derive(Debug, Clone, PartialEq, Eq)]
pub struct LanguageDecl {
    pub base: String,
    pub extensions: Vec<String>,
}

#[derive(Debug, Clone, PartialEq, Eq)]
pub struct ImportDecl {
    pub reference: ImportReference,
    pub binary: bool,
    pub placement: ImportPlacement,
}

#[derive(Debug, PartialEq, Eq)]
pub struct ObjectDecl {
    pub realization: ObjectRealization,
    pub target: String,
    pub alias: Option<String>,
    pub deps: Vec<SyntaxExpr>,
    pub body: Vec<ObjectBodyDefinition>,
}

#[derive(Debug, Clone, Copy, PartialEq, Eq, Structural)]
pub enum ObjectRealization {
    Instance,
    Abstract,
}

#[derive(Debug, PartialEq, Eq)]
pub struct ObjectBodyDefinition {
    pub line: usize,
    pub kind: ObjectBodyDefinitionKind,
}

#[derive(Debug, PartialEq, Eq)]
pub enum ObjectBodyDefinitionKind {
    Definition(DefinitionDecl),
    Object(ObjectDecl),
    Extend(ObjectExtendDecl),
}

#[derive(Debug, PartialEq, Eq)]
pub struct ObjectExtendDecl {
    pub realization: ObjectRealization,
    pub target: String,
    pub alias: Option<String>,
    pub body: Vec<ObjectBodyDefinition>,
}

#[derive(Debug, PartialEq, Eq)]
pub struct ObjectExpr {
    pub realization: ObjectRealization,
    pub name: Option<Box<SyntaxExpr>>,
    pub alias: Option<String>,
    pub deps: Vec<SyntaxExpr>,
    pub body: Vec<ObjectBodyDefinition>,
}

#[derive(Debug, PartialEq, Eq)]
pub struct DoExpr {
    pub steps: Vec<DoStep>,
    pub result_line: usize,
    pub result: Box<SyntaxExpr>,
}

#[derive(Debug, PartialEq, Eq)]
pub struct DoStep {
    pub line: usize,
    pub kind: DoStepKind,
}

/// An affine source pattern owned by the built-in front end.
///
/// Pattern structure is expanded within `g_syntax`; it is never reified as a
/// core or evaluator value.
#[derive(Debug, PartialEq, Eq)]
pub struct SyntaxPattern {
    pub kind: SyntaxPatternKind,
}

#[derive(Debug, PartialEq, Eq)]
pub struct SyntaxDictPatternEntry {
    pub path: Vec<SyntaxKeyExpr>,
    pub optional: bool,
    pub pattern: SyntaxPattern,
}

#[derive(Debug, PartialEq, Eq)]
pub enum SyntaxGuardClause {
    Pass,
    Effect(SyntaxExpr),
    EffectBind {
        pattern: SyntaxPattern,
        operation: SyntaxExpr,
    },
    ValueBind {
        pattern: SyntaxPattern,
        value: SyntaxExpr,
    },
}

#[derive(Debug, PartialEq, Eq)]
pub struct IfExpr {
    pub mode: ConditionalMode,
    pub guards: Vec<SyntaxGuardClause>,
    pub then_mode: ConditionalResultMode,
    pub then_result: Box<SyntaxExpr>,
    pub else_result: Box<SyntaxExpr>,
}

#[derive(Debug, Clone, Copy, PartialEq, Eq, Structural)]
pub enum ConditionalMode {
    Pure,
    Host,
}

#[derive(Debug, Clone, Copy, PartialEq, Eq, Structural)]
pub enum MatchCommitment {
    Cut,
    Open,
}

#[derive(Debug, Clone, Copy, PartialEq, Eq, Structural)]
pub enum ConditionalResultMode {
    Ordinary,
    Tentative,
}

#[derive(Debug, PartialEq, Eq)]
pub struct MatchExpr {
    pub line: usize,
    pub mode: ConditionalMode,
    pub commitment: MatchCommitment,
    pub subject: Box<SyntaxExpr>,
    pub arms: Vec<MatchArm>,
}

#[derive(Debug, PartialEq, Eq)]
pub struct MatchWhenExpr {
    pub line: usize,
    pub mode: ConditionalMode,
    pub commitment: MatchCommitment,
    pub arms: Vec<WhenArm>,
}

#[derive(Debug, PartialEq, Eq)]
pub struct MatchArm {
    pub line: usize,
    pub pattern: SyntaxPattern,
    pub guards: Vec<SyntaxGuardClause>,
    pub outcome: MatchOutcome,
}

#[derive(Debug, PartialEq, Eq)]
pub struct WhenArm {
    pub line: usize,
    pub guards: Vec<SyntaxGuardClause>,
    pub outcome: MatchOutcome,
}

#[derive(Debug, PartialEq, Eq)]
pub enum MatchOutcome {
    Result {
        line: usize,
        mode: ConditionalResultMode,
        expression: SyntaxExpr,
    },
    Nested(Vec<WhenArm>),
}

#[derive(Debug, PartialEq, Eq)]
pub enum SyntaxPatternKind {
    Capture(String),
    Wildcard,
    Literal(SyntaxPatternLiteral),
    List {
        prefix: Vec<SyntaxPattern>,
        middle: Option<Box<SyntaxPattern>>,
        suffix: Vec<SyntaxPattern>,
    },
    Dict {
        entries: Vec<SyntaxDictPatternEntry>,
        remainder: Option<Box<SyntaxPattern>>,
    },
    QuotedPath(Vec<SyntaxKeyExpr>),
    Group(Box<SyntaxPattern>),
    As(Box<SyntaxPattern>, Box<SyntaxPattern>),
    View {
        view: Box<SyntaxExpr>,
        pattern: Box<SyntaxPattern>,
    },
    Predicate {
        predicate: Box<SyntaxExpr>,
        pattern: Box<SyntaxPattern>,
    },
    Guarded {
        pattern: Box<SyntaxPattern>,
        guards: Vec<SyntaxGuardClause>,
    },
}

#[derive(Debug, PartialEq, Eq)]
pub enum SyntaxPatternLiteral {
    Unit,
    Number(Number),
    Atom(String),
    Text(String),
}

#[derive(Debug, PartialEq, Eq)]
pub enum DoStepKind {
    Abstract(Vec<String>),
    Bind {
        pattern: SyntaxPattern,
        operation: SyntaxExpr,
    },
    ValueBind {
        pattern: SyntaxPattern,
        value: SyntaxExpr,
    },
    Then(SyntaxExpr),
}

#[derive(Debug, Clone, PartialEq, Eq)]
pub enum ImportReference {
    Local(String),
    Builtin(String),
}

#[derive(Debug, Clone, PartialEq, Eq)]
pub enum ImportPlacement {
    Inline,
    As(String),
    At(String),
}

#[derive(Debug, PartialEq, Eq)]
pub struct DefinitionDecl {
    pub target: Vec<SyntaxKeyExpr>,
    pub parameters: Vec<String>,
    pub kind: DefinitionKind,
    pub expr: Option<SyntaxExpr>,
}

#[derive(Debug, Clone, Copy, PartialEq, Eq, Structural)]
pub enum DefinitionKind {
    Introduce,
    Override,
    Update,
}

#[derive(Debug, PartialEq, Eq)]
pub enum SyntaxExpr {
    Unit,
    /// Closed semantic data inserted by a source transformation.
    Embedded(Value),
    Number(Number),
    Text(String),
    Atom(String),
    Effect(Vec<String>),
    Name(String),
    PriorName(String),
    Escape(usize, Box<SyntaxExpr>),
    Access(Box<SyntaxExpr>, Vec<SyntaxKeyExpr>),
    Object(ObjectExpr),
    With {
        base: Box<SyntaxExpr>,
        alias: Option<String>,
        body: Vec<ObjectBodyDefinition>,
    },
    Using {
        namespace: Box<SyntaxExpr>,
        body: Box<SyntaxExpr>,
    },
    /// A dictionary containing one defined path. Braces may be omitted for
    /// path-tagged data such as `tag:value` or `[first, second]:value`.
    PathDict(Vec<SyntaxKeyExpr>, Box<SyntaxExpr>),
    /// A function that places its argument at one defined dictionary path.
    TaggedConstructor(Vec<SyntaxKeyExpr>),
    DictUnion(Vec<SyntaxExpr>),
    List(Vec<SyntaxExpr>),
    Tuple(Vec<SyntaxExpr>),
    Lambda(Vec<String>, Box<SyntaxExpr>),
    Do(DoExpr),
    If(IfExpr),
    Match(MatchExpr),
    MatchWhen(MatchWhenExpr),
    Let {
        bindings: Vec<(String, SyntaxExpr)>,
        body: Box<SyntaxExpr>,
    },
    Apply(Box<SyntaxExpr>, Box<SyntaxExpr>),
    OperatorApply {
        operator: SyntaxOperator,
        left: Box<SyntaxExpr>,
        right: Box<SyntaxExpr>,
    },
    ComparisonChain {
        first: Box<SyntaxExpr>,
        rest: Vec<(SyntaxOperator, SyntaxExpr)>,
    },
    OperatorSection {
        operator: SyntaxOperator,
        left: Option<Box<SyntaxExpr>>,
        right: Option<Box<SyntaxExpr>>,
    },
    Multiply(Box<SyntaxExpr>, Box<SyntaxExpr>),
    Divide(Box<SyntaxExpr>, Box<SyntaxExpr>),
    Add(Box<SyntaxExpr>, Box<SyntaxExpr>),
    Subtract(Box<SyntaxExpr>, Box<SyntaxExpr>),
    Append(Box<SyntaxExpr>, Box<SyntaxExpr>),
}

#[derive(Debug, Clone, Copy, PartialEq, Eq, Structural)]
pub enum SyntaxOperator {
    Builtin(Builtin),
    BoolAnd,
    BoolOr,
    PipeForward,
    PipeBackward,
    ApplicativeForward,
    ApplicativeBackward,
    ComposeForward,
    ComposeBackward,
    EffectBind,
    KleisliCompose,
    EffectThen,
}

#[derive(Debug, PartialEq, Eq)]
pub enum SyntaxKeyExpr {
    Atom(String),
    Index(Box<SyntaxExpr>),
    PathIndex(Box<SyntaxExpr>),
}

/// A step of path syntax before its bracketed lists are spread.
#[derive(Debug, PartialEq, Eq)]
pub enum PathSuffix {
    Single(SyntaxKeyExpr),
    Expand(Vec<SyntaxKeyExpr>),
}

/// What a pattern does to its scope at one step of matching.
#[derive(Debug)]
pub enum SyntaxPatternScopeEvent<'a> {
    Expression(&'a SyntaxExpr),
    Capture(&'a str),
}

/// The model of a scope event.
pub enum ScopeEvent {
    Expression(SyntaxExpr),
    Capture(Seq<char>),
}

impl<'a> View for SyntaxPatternScopeEvent<'a> {
    type V = ScopeEvent;

    open spec fn view(&self) -> ScopeEvent {
        match *self {
            SyntaxPatternScopeEvent::Expression(expr) => ScopeEvent::Expression(*expr),
            SyntaxPatternScopeEvent::Capture(name) => ScopeEvent::Capture(name@),
        }
    }
}

/// The models of a list of scope events.
pub open spec fn events_of(events: Seq<SyntaxPatternScopeEvent>) -> Seq<ScopeEvent> {
    events.map_values(|e: SyntaxPatternScopeEvent| e@)
}

/// The scope events of a key: the expression that computes it, if any.
pub open spec fn key_events(key: SyntaxKeyExpr) -> Seq<ScopeEvent> {
    match key {
        SyntaxKeyExpr::Atom(_) => Seq::empty(),
        SyntaxKeyExpr::Index(expr) => seq![ScopeEvent::Expression(*expr)],
        SyntaxKeyExpr::PathIndex(expr) => seq![ScopeEvent::Expression(*expr)],
    }
}

pub open spec fn keys_events(keys: Seq<SyntaxKeyExpr>) -> Seq<ScopeEvent>
    decreases keys.len(),
{
    if keys.len() == 0 {
        Seq::empty()
    } else {
        keys_events(keys.drop_last()) + key_events(keys.last())
    }
}

/// The scope events of a pattern, in matching order.
///
/// Each expression is evaluated at its semantic match step. Later expressions
/// may therefore use captures established by earlier subpatterns, while views
/// and predicates cannot see the captures of their own inner pattern.
pub open spec fn pattern_events(pattern: SyntaxPattern) -> Seq<ScopeEvent>
    decreases pattern,
{
    match pattern.kind {
        SyntaxPatternKind::Capture(name) => seq![ScopeEvent::Capture(name@)],
        SyntaxPatternKind::Wildcard => Seq::empty(),
        SyntaxPatternKind::Literal(_) => Seq::empty(),
        SyntaxPatternKind::List { prefix, middle, suffix } => {
            patterns_events(prefix@) + (match middle {
                Some(inner) => pattern_events(*inner),
                None => Seq::empty(),
            }) + patterns_events(suffix@)
        },
        SyntaxPatternKind::Dict { entries, remainder } => {
            entries_events(entries@) + (match remainder {
                Some(inner) => pattern_events(*inner),
                None => Seq::empty(),
            })
        },
        SyntaxPatternKind::QuotedPath(path) => keys_events(path@),
        SyntaxPatternKind::Group(inner) => pattern_events(*inner),
        SyntaxPatternKind::As(left, right) => pattern_events(*left) + pattern_events(*right),
        SyntaxPatternKind::View { view, pattern } => {
            seq![ScopeEvent::Expression(*view)] + pattern_events(*pattern)
        },
        SyntaxPatternKind::Predicate { predicate, pattern } => {
            seq![ScopeEvent::Expression(*predicate)] + pattern_events(*pattern)
        },
        SyntaxPatternKind::Guarded { pattern, guards } => {
            pattern_events(*pattern) + guards_events(guards@)
        },
    }
}

pub open spec fn patterns_events(patterns: Seq<SyntaxPattern>) -> Seq<ScopeEvent>
    decreases patterns,
{
    if patterns.len() == 0 {
        Seq::empty()
    } else {
        patterns_events(patterns.drop_last()) + pattern_events(patterns.last())
    }
}

pub open spec fn entries_events(entries: Seq<SyntaxDictPatternEntry>) -> Seq<ScopeEvent>
    decreases entries,
{
    if entries.len() == 0 {
        Seq::empty()
    } else {
        entries_events(entries.drop_last()) + keys_events(entries.last().path@) + pattern_events(
            entries.last().pattern,
        )
    }
}

/// The scope events of a guard clause: its expression, then its pattern.
pub open spec fn guard_events(guard: SyntaxGuardClause) -> Seq<ScopeEvent>
    decreases guard,
{
    match guard {
        SyntaxGuardClause::Pass => Seq::empty(),
        SyntaxGuardClause::Effect(expr) => seq![ScopeEvent::Expression(expr)],
        SyntaxGuardClause::EffectBind { pattern, operation } => {
            seq![ScopeEvent::Expression(operation)] + pattern_events(pattern)
        },
        SyntaxGuardClause::ValueBind { pattern, value } => {
            seq![ScopeEvent::Expression(value)] + pattern_events(pattern)
        },
    }
}

pub open spec fn guards_events(guards: Seq<SyntaxGuardClause>) -> Seq<ScopeEvent>
    decreases guards,
{
    if guards.len() == 0 {
        Seq::empty()
    } else {
        guards_events(guards.drop_last()) + guard_events(guards.last())
    }
}

/// The captures among a list of events, in order.
pub open spec fn captured(events: Seq<ScopeEvent>) -> Seq<Seq<char>>
    decreases events.len(),
{
    if events.len() == 0 {
        Seq::empty()
    } else {
        match events.last() {
            ScopeEvent::Capture(name) => captured(events.drop_last()).push(name),
            ScopeEvent::Expression(_) => captured(events.drop_last()),
        }
    }
}

/// The names that a pattern captures, in binding order.
pub open spec fn pattern_captures(pattern: SyntaxPattern) -> Seq<Seq<char>> {
    captured(pattern_events(pattern))
}

/// `true` when a pattern matches every value.
pub open spec fn irrefutable(pattern: SyntaxPattern) -> bool
    decreases pattern,
{
    match pattern.kind {
        SyntaxPatternKind::Capture(_) => true,
        SyntaxPatternKind::Wildcard => true,
        SyntaxPatternKind::Group(inner) => irrefutable(*inner),
        SyntaxPatternKind::As(left, right) => irrefutable(*left) && irrefutable(*right),
        _ => false,
    }
}

/// One primitive step of a recursive `do` block: the source capture that it
/// introduces, or `None` for a step private to the compiler.
pub type Step = Option<Seq<char>>;

/// The steps that bind the captures of an irrefutable input.
pub open spec fn irrefutable_steps(captures: Seq<Seq<char>>) -> Seq<Step> {
    let named = captures.map_values(|name: Seq<char>| Some(name));
    if captures.len() == 1 {
        named
    } else {
        seq![None::<Seq<char>>] + named
    }
}

/// The steps of binding a value to a pattern.
pub open spec fn value_steps(pattern: SyntaxPattern) -> Seq<Step>
    decreases pattern, 1nat,
{
    if irrefutable(pattern) {
        irrefutable_steps(pattern_captures(pattern))
    } else {
        seq![None::<Seq<char>>] + match_steps(pattern)
    }
}

/// The steps of matching a value against a pattern.
pub open spec fn match_steps(pattern: SyntaxPattern) -> Seq<Step>
    decreases pattern, 0nat,
{
    match pattern.kind {
        SyntaxPatternKind::Capture(name) => seq![Some(name@)],
        SyntaxPatternKind::Wildcard => Seq::empty(),
        SyntaxPatternKind::Literal(_) => seq![None],
        SyntaxPatternKind::QuotedPath(_) => seq![None],
        SyntaxPatternKind::Group(inner) => match_steps(*inner),
        SyntaxPatternKind::As(left, right) => match_steps(*left) + match_steps(*right),
        SyntaxPatternKind::View { view, pattern } => seq![None] + match_steps(*pattern),
        SyntaxPatternKind::Predicate { predicate, pattern } => seq![None] + match_steps(*pattern),
        SyntaxPatternKind::Guarded { pattern, guards } => {
            match_steps(*pattern) + guards_steps(guards@)
        },
        SyntaxPatternKind::List { prefix, middle, suffix } => {
            seq![None] + prefix_steps(prefix@) + private_steps(2 * suffix@.len()) + (match middle {
                Some(inner) => value_steps(*inner),
                None => seq![None],
            }) + suffix_steps(suffix@)
        },
        SyntaxPatternKind::Dict { entries, remainder } => {
            seq![None] + entries_steps(entries@) + (match remainder {
                Some(inner) => value_steps(*inner),
                None => seq![None],
            })
        },
    }
}

/// A number of steps private to the compiler.
pub open spec fn private_steps(count: nat) -> Seq<Step> {
    Seq::new(count, |i: int| None::<Seq<char>>)
}

/// Each prefix item is taken off the list, then bound.
pub open spec fn prefix_steps(patterns: Seq<SyntaxPattern>) -> Seq<Step>
    decreases patterns, 0nat,
{
    if patterns.len() == 0 {
        Seq::empty()
    } else {
        prefix_steps(patterns.drop_last()) + seq![None] + value_steps(patterns.last())
    }
}

/// Each suffix item has been taken off the list before it is matched.
pub open spec fn suffix_steps(patterns: Seq<SyntaxPattern>) -> Seq<Step>
    decreases patterns, 0nat,
{
    if patterns.len() == 0 {
        Seq::empty()
    } else {
        suffix_steps(patterns.drop_last()) + match_steps(patterns.last())
    }
}

/// Each entry is taken out of the dictionary, then bound.
pub open spec fn entries_steps(entries: Seq<SyntaxDictPatternEntry>) -> Seq<Step>
    decreases entries, 0nat,
{
    if entries.len() == 0 {
        Seq::empty()
    } else {
        entries_steps(entries.drop_last()) + seq![None] + value_steps(entries.last().pattern)
    }
}

/// The steps of a guard clause.
pub open spec fn guard_steps(guard: SyntaxGuardClause) -> Seq<Step>
    decreases guard, 0nat,
{
    match guard {
        SyntaxGuardClause::Pass => Seq::empty(),
        SyntaxGuardClause::Effect(_) => seq![None],
        SyntaxGuardClause::EffectBind { pattern, operation } => value_steps(pattern),
        SyntaxGuardClause::ValueBind { pattern, value } => value_steps(pattern),
    }
}

pub open spec fn guards_steps(guards: Seq<SyntaxGuardClause>) -> Seq<Step>
    decreases guards, 0nat,
{
    if guards.len() == 0 {
        Seq::empty()
    } else {
        guards_steps(guards.drop_last()) + guard_steps(guards.last())
    }
}

/// The models of a list of recorded steps.
pub open spec fn steps_of(steps: Seq<Option<&str>>) -> Seq<Step> {
    steps.map_values(|s: Option<&str>| match s {
        Some(name) => Some(name@),
        None => None,
    })
}

impl ObjectBodyDefinition {
    pub fn definition(&self) -> (result: Option<&DefinitionDecl>)
        ensures
            match result {
                Some(definition) => self.kind == ObjectBodyDefinitionKind::Definition(*definition),
                None => !(self.kind is Definition),
            },
    {
        match &self.kind {
            ObjectBodyDefinitionKind::Definition(definition) => Some(definition),
            ObjectBodyDefinitionKind::Object(_) | ObjectBodyDefinitionKind::Extend(_) => None,
        }
    }

    pub fn object(&self) -> (result: Option<&ObjectDecl>)
        ensures
            match result {
                Some(object) => self.kind == ObjectBodyDefinitionKind::Object(*object),
                None => !(self.kind is Object),
            },
    {
        match &self.kind {
            ObjectBodyDefinitionKind::Object(object) => Some(object),
            ObjectBodyDefinitionKind::Definition(_) | ObjectBodyDefinitionKind::Extend(_) => None,
        }
    }

    pub fn extend(&self) -> (result: Option<&ObjectExtendDecl>)
        ensures
            match result {
                Some(extend) => self.kind == ObjectBodyDefinitionKind::Extend(*extend),
                None => !(self.kind is Extend),
            },
    {
        match &self.kind {
            ObjectBodyDefinitionKind::Extend(extend) => Some(extend),
            ObjectBodyDefinitionKind::Definition(_) | ObjectBodyDefinitionKind::Object(_) => None,
        }
    }
}

fn push_event<'a>(
    events: &mut Vec<SyntaxPatternScopeEvent<'a>>,
    event: SyntaxPatternScopeEvent<'a>,
)
    ensures
        events_of(final(events)@) == events_of(old(events)@) + seq![event@],
{
    events.push(event);
    assert(events_of(events@) =~= events_of(old(events)@) + seq![event@]);
}

fn push_step<'a>(steps: &mut Vec<Option<&'a str>>, step: Option<&'a str>)
    ensures
        steps_of(final(steps)@) == steps_of(old(steps)@) + seq![
            match step {
                Some(name) => Some(name@),
                None => None,
            },
        ],
{
    steps.push(step);
    let ghost model: Step = match step {
        Some(name) => Some(name@),
        None => None,
    };
    assert(steps_of(steps@) =~= steps_of(old(steps)@) + seq![model]);
}

impl SyntaxPattern {
    pub fn capture(name: &str) -> (pattern: Self)
        ensures
            pattern.kind matches SyntaxPatternKind::Capture(captured) && captured@ == name@,
    {
        SyntaxPattern { kind: SyntaxPatternKind::Capture(name.to_owned()) }
    }

    pub fn wildcard() -> (pattern: Self)
        ensures
            pattern.kind == SyntaxPatternKind::Wildcard,
    {
        SyntaxPattern { kind: SyntaxPatternKind::Wildcard }
    }

    /// Records source captures in their semantic binding order.
    pub fn visit_captures<'a>(&'a self, names: &mut Vec<&'a str>)
        ensures
            views(final(names)@) == views(old(names)@) + pattern_captures(*self),
    {
        let mut events: Vec<SyntaxPatternScopeEvent<'a>> = Vec::new();
        assert(events_of(events@) =~= Seq::<ScopeEvent>::empty());
        self.visit_scope_events(&mut events);
        let ghost model = pattern_events(*self);
        assert(events_of(events@) =~= model);
        assert(model.take(0) =~= Seq::<ScopeEvent>::empty());
        assert(views(names@) =~= views(old(names)@) + captured(model.take(0)));
        let mut i: usize = 0;
        while i < events.len()
            invariant
                i <= events.len(),
                events_of(events@) == model,
                views(names@) == views(old(names)@) + captured(model.take(i as int)),
            decreases events.len() - i,
        {
            assert(model[i as int] == events@[i as int]@);
            assert(model.take(i + 1).drop_last() =~= model.take(i as int));
            let ghost before = names@;
            match &events[i] {
                SyntaxPatternScopeEvent::Capture(name) => {
                    names.push(*name);
                    assert(views(names@) =~= views(before).push(name@));
                },
                SyntaxPatternScopeEvent::Expression(_) => {},
            }
            assert(views(names@) =~= views(old(names)@) + captured(model.take(i + 1)));
            i = i + 1;
        }
        assert(model.take(model.len() as int) =~= model);
    }

    /// Records pattern-owned expressions and captures in matching order.
    pub fn visit_scope_events<'a>(&'a self, events: &mut Vec<SyntaxPatternScopeEvent<'a>>)
        ensures
            events_of(final(events)@) == events_of(old(events)@) + pattern_events(*self),
        decreases self,
    {
        match &self.kind {
            SyntaxPatternKind::Capture(name) => {
                push_event(events, SyntaxPatternScopeEvent::Capture(name.as_str()));
            },
            SyntaxPatternKind::Wildcard | SyntaxPatternKind::Literal(_) => {},
            SyntaxPatternKind::List { prefix, middle, suffix } => {
                visit_patterns_scope(prefix, events);
                match middle {
                    Some(pattern) => pattern.visit_scope_events(events),
                    None => {},
                }
                visit_patterns_scope(suffix, events);
            },
            SyntaxPatternKind::Dict { entries, remainder } => {
                visit_entries_scope(entries, events);
                match remainder {
                    Some(pattern) => pattern.visit_scope_events(events),
                    None => {},
                }
            },
            SyntaxPatternKind::QuotedPath(path) => {
                visit_keys_scope(path, events);
            },
            SyntaxPatternKind::Group(pattern) => {
                pattern.visit_scope_events(events);
            },
            SyntaxPatternKind::As(left, right) => {
                left.visit_scope_events(events);
                right.visit_scope_events(events);
            },
            SyntaxPatternKind::View { view, pattern } => {
                push_event(events, SyntaxPatternScopeEvent::Expression(view));
                pattern.visit_scope_events(events);
            },
            SyntaxPatternKind::Predicate { predicate, pattern } => {
                push_event(events, SyntaxPatternScopeEvent::Expression(predicate));
                pattern.visit_scope_events(events);
            },
            SyntaxPatternKind::Guarded { pattern, guards } => {
                pattern.visit_scope_events(events);
                visit_guards_scope(guards, events);
            },
        }
        assert(events_of(events@) =~= events_of(old(events)@) + pattern_events(*self));
    }

    pub fn captures<'a>(&'a self) -> (names: Vec<&'a str>)
        ensures
            views(names@) == pattern_captures(*self),
    {
        let mut names: Vec<&'a str> = Vec::new();
        self.visit_captures(&mut names);
        assert(views(names@) =~= pattern_captures(*self));
        names
    }

    pub fn is_irrefutable(&self) -> (b: bool)
        ensures
            b == irrefutable(*self),
        decreases self,
    {
        match &self.kind {
            SyntaxPatternKind::Capture(_) | SyntaxPatternKind::Wildcard => true,
            SyntaxPatternKind::Group(pattern) => pattern.is_irrefutable(),
            SyntaxPatternKind::As(left, right) => {
                let left_holds = left.is_irrefutable();
                let right_holds = right.is_irrefutable();
                left_holds && right_holds
            },
            _ => false,
        }
    }

    /// Records the primitive steps of a recursive `do` block that binds this
    /// pattern.
    pub fn visit_primitive_events<'a>(&'a self, steps: &mut Vec<Option<&'a str>>)
        ensures
            steps_of(final(steps)@) == steps_of(old(steps)@) + value_steps(*self),
        decreases self, 2nat,
    {
        self.visit_value_events(steps);
    }

    pub fn visit_value_events<'a>(&'a self, steps: &mut Vec<Option<&'a str>>)
        ensures
            steps_of(final(steps)@) == steps_of(old(steps)@) + value_steps(*self),
        decreases self, 1nat,
    {
        if self.is_irrefutable() {
            self.visit_irrefutable_input_events(steps);
        } else {
            push_step(steps, None);
            self.visit_match_events(steps);
            assert(steps_of(steps@) =~= steps_of(old(steps)@) + value_steps(*self));
        }
    }

    pub fn visit_irrefutable_input_events<'a>(&'a self, steps: &mut Vec<Option<&'a str>>)
        ensures
            steps_of(final(steps)@) == steps_of(old(steps)@) + irrefutable_steps(
                pattern_captures(*self),
            ),
    {
        let captures = self.captures();
        let ghost names = pattern_captures(*self);
        let ghost named = names.map_values(|name: Seq<char>| Some(name));
        let ghost lead: Seq<Step> = if names.len() == 1 {
            Seq::empty()
        } else {
            seq![None::<Seq<char>>]
        };
        assert(captures.len() == views(captures@).len());
        if captures.len() != 1 {
            push_step(steps, None);
        }
        assert(steps_of(steps@) =~= steps_of(old(steps)@) + lead + named.take(0));
        let mut i: usize = 0;
        while i < captures.len()
            invariant
                i <= captures.len(),
                names == views(captures@),
                named == names.map_values(|name: Seq<char>| Some(name)),
                steps_of(steps@) == steps_of(old(steps)@) + lead + named.take(i as int),
            decreases captures.len() - i,
        {
            push_step(steps, Some(captures[i]));
            assert(names[i as int] == captures@[i as int]@);
            assert(named.take(i + 1) =~= named.take(i as int).push(Some(captures@[i as int]@)));
            assert(steps_of(steps@) =~= steps_of(old(steps)@) + lead + named.take(i + 1));
            i = i + 1;
        }
        assert(named.take(named.len() as int) =~= named);
        assert(steps_of(steps@) =~= steps_of(old(steps)@) + irrefutable_steps(names));
    }

    pub fn visit_match_events<'a>(&'a self, steps: &mut Vec<Option<&'a str>>)
        ensures
            steps_of(final(steps)@) == steps_of(old(steps)@) + match_steps(*self),
        decreases self, 0nat,
    {
        match &self.kind {
            SyntaxPatternKind::Capture(name) => push_step(steps, Some(name.as_str())),
            SyntaxPatternKind::Wildcard => {},
            SyntaxPatternKind::Literal(_) | SyntaxPatternKind::QuotedPath(_) => {
                push_step(steps, None)
            },
            SyntaxPatternKind::Group(pattern) => pattern.visit_match_events(steps),
            SyntaxPatternKind::As(left, right) => {
                left.visit_match_events(steps);
                right.visit_match_events(steps);
            },
            SyntaxPatternKind::View { pattern, .. } => {
                push_step(steps, None);
                pattern.visit_match_events(steps);
            },
            SyntaxPatternKind::Predicate { pattern, .. } => {
                push_step(steps, None);
                pattern.visit_match_events(steps);
            },
            SyntaxPatternKind::Guarded { pattern, guards } => {
                pattern.visit_match_events(steps);
                visit_guards_primitive(guards, steps);
            },
            SyntaxPatternKind::List { prefix, middle, suffix } => {
                push_step(steps, None);
                visit_prefix_match(prefix, steps);
                push_private_steps(suffix.len(), steps);
                match middle {
                    Some(pattern) => pattern.visit_value_events(steps),
                    None => push_step(steps, None),
                }
                visit_suffix_match(suffix, steps);
            },
            SyntaxPatternKind::Dict { entries, remainder } => {
                push_step(steps, None);
                visit_entries_match(entries, steps);
                match remainder {
                    Some(pattern) => pattern.visit_value_events(steps),
                    None => push_step(steps, None),
                }
            },
        }
        assert(steps_of(steps@) =~= steps_of(old(steps)@) + match_steps(*self));
    }
}

impl SyntaxGuardClause {
    pub fn visit_scope_events<'a>(&'a self, events: &mut Vec<SyntaxPatternScopeEvent<'a>>)
        ensures
            events_of(final(events)@) == events_of(old(events)@) + guard_events(*self),
        decreases self,
    {
        match self {
            SyntaxGuardClause::Pass => {},
            SyntaxGuardClause::Effect(expr) => {
                push_event(events, SyntaxPatternScopeEvent::Expression(expr));
            },
            SyntaxGuardClause::EffectBind { pattern, operation } => {
                push_event(events, SyntaxPatternScopeEvent::Expression(operation));
                pattern.visit_scope_events(events);
            },
            SyntaxGuardClause::ValueBind { pattern, value } => {
                push_event(events, SyntaxPatternScopeEvent::Expression(value));
                pattern.visit_scope_events(events);
            },
        }
        assert(events_of(events@) =~= events_of(old(events)@) + guard_events(*self));
    }

    pub fn visit_primitive_events<'a>(&'a self, steps: &mut Vec<Option<&'a str>>)
        ensures
            steps_of(final(steps)@) == steps_of(old(steps)@) + guard_steps(*self),
        decreases self, 0nat,
    {
        match self {
            SyntaxGuardClause::Pass => {},
            SyntaxGuardClause::Effect(_) => push_step(steps, None),
            SyntaxGuardClause::EffectBind { pattern, .. } => pattern.visit_primitive_events(steps),
            SyntaxGuardClause::ValueBind { pattern, .. } => pattern.visit_primitive_events(steps),
        }
        assert(steps_of(steps@) =~= steps_of(old(steps)@) + guard_steps(*self));
    }
}

pub fn visit_key_scope_events<'a>(
    key: &'a SyntaxKeyExpr,
    events: &mut Vec<SyntaxPatternScopeEvent<'a>>,
)
    ensures
        events_of(final(events)@) == events_of(old(events)@) + key_events(*key),
{
    match key {
        SyntaxKeyExpr::Atom(_) => {
            assert(events_of(events@) =~= events_of(old(events)@) + key_events(*key));
        },
        SyntaxKeyExpr::Index(expr) | SyntaxKeyExpr::PathIndex(expr) => {
            push_event(events, SyntaxPatternScopeEvent::Expression(expr));
        },
    }
}

fn visit_keys_scope<'a>(items: &'a Vec<SyntaxKeyExpr>, events: &mut Vec<SyntaxPatternScopeEvent<'a>>)
    ensures
        events_of(final(events)@) == events_of(old(events)@) + keys_events(items@),
{
    let mut i: usize = 0;
    assert(events_of(events@) =~= events_of(old(events)@) + keys_events(items@.take(0)));
    while i < items.len()
        invariant
            i <= items.len(),
            events_of(events@) == events_of(old(events)@) + keys_events(items@.take(i as int)),
        decreases items.len() - i,
    {
        assert(items@.take(i + 1).drop_last() =~= items@.take(i as int));
        assert(items@.take(i + 1).last() == items@[i as int]);
        visit_key_scope_events(&items[i], events);
        assert(events_of(events@) =~= events_of(old(events)@) + keys_events(items@.take(i + 1)));
        i = i + 1;
    }
    assert(items@.take(items.len() as int) =~= items@);
}

fn visit_patterns_scope<'a>(items: &'a Vec<SyntaxPattern>, events: &mut Vec<SyntaxPatternScopeEvent<'a>>)
    ensures
        events_of(final(events)@) == events_of(old(events)@) + patterns_events(items@),
    decreases items,
{
    let mut i: usize = 0;
    assert(events_of(events@) =~= events_of(old(events)@) + patterns_events(items@.take(0)));
    while i < items.len()
        invariant
            i <= items.len(),
            events_of(events@) == events_of(old(events)@) + patterns_events(items@.take(i as int)),
        decreases items.len() - i,
    {
        assert(items@.take(i + 1).drop_last() =~= items@.take(i as int));
        assert(items@.take(i + 1).last() == items@[i as int]);
        items[i].visit_scope_events(events);
        assert(events_of(events@) =~= events_of(old(events)@) + patterns_events(items@.take(i + 1)));
        i = i + 1;
    }
    assert(items@.take(items.len() as int) =~= items@);
}

fn visit_entries_scope<'a>(items: &'a Vec<SyntaxDictPatternEntry>, events: &mut Vec<SyntaxPatternScopeEvent<'a>>)
    ensures
        events_of(final(events)@) == events_of(old(events)@) + entries_events(items@),
    decreases items,
{
    let mut i: usize = 0;
    assert(events_of(events@) =~= events_of(old(events)@) + entries_events(items@.take(0)));
    while i < items.len()
        invariant
            i <= items.len(),
            events_of(events@) == events_of(old(events)@) + entries_events(items@.take(i as int)),
        decreases items.len() - i,
    {
        assert(items@.take(i + 1).drop_last() =~= items@.take(i as int));
        assert(items@.take(i + 1).last() == items@[i as int]);
        visit_keys_scope(&items[i].path, events);
        items[i].pattern.visit_scope_events(events);
        assert(events_of(events@) =~= events_of(old(events)@) + entries_events(items@.take(i + 1)));
        i = i + 1;
    }
    assert(items@.take(items.len() as int) =~= items@);
}

fn visit_guards_scope<'a>(items: &'a Vec<SyntaxGuardClause>, events: &mut Vec<SyntaxPatternScopeEvent<'a>>)
    ensures
        events_of(final(events)@) == events_of(old(events)@) + guards_events(items@),
    decreases items,
{
    let mut i: usize = 0;
    assert(events_of(events@) =~= events_of(old(events)@) + guards_events(items@.take(0)));
    while i < items.len()
        invariant
            i <= items.len(),
            events_of(events@) == events_of(old(events)@) + guards_events(items@.take(i as int)),
        decreases items.len() - i,
    {
        assert(items@.take(i + 1).drop_last() =~= items@.take(i as int));
        assert(items@.take(i + 1).last() == items@[i as int]);
        items[i].visit_scope_events(events);
        assert(events_of(events@) =~= events_of(old(events)@) + guards_events(items@.take(i + 1)));
        i = i + 1;
    }
    assert(items@.take(items.len() as int) =~= items@);
}

fn visit_guards_primitive<'a>(items: &'a Vec<SyntaxGuardClause>, steps: &mut Vec<Option<&'a str>>)
    ensures
        steps_of(final(steps)@) == steps_of(old(steps)@) + guards_steps(items@),
    decreases items, 0nat,
{
    let mut i: usize = 0;
    assert(steps_of(steps@) =~= steps_of(old(steps)@) + guards_steps(items@.take(0)));
    while i < items.len()
        invariant
            i <= items.len(),
            steps_of(steps@) == steps_of(old(steps)@) + guards_steps(items@.take(i as int)),
        decreases items.len() - i,
    {
        assert(items@.take(i + 1).drop_last() =~= items@.take(i as int));
        assert(items@.take(i + 1).last() == items@[i as int]);
        items[i].visit_primitive_events(steps);
        assert(steps_of(steps@) =~= steps_of(old(steps)@) + guards_steps(items@.take(i + 1)));
        i = i + 1;
    }
    assert(items@.take(items.len() as int) =~= items@);
}

fn visit_prefix_match<'a>(items: &'a Vec<SyntaxPattern>, steps: &mut Vec<Option<&'a str>>)
    ensures
        steps_of(final(steps)@) == steps_of(old(steps)@) + prefix_steps(items@),
    decreases items, 0nat,
{
    let mut i: usize = 0;
    assert(steps_of(steps@) =~= steps_of(old(steps)@) + prefix_steps(items@.take(0)));
    while i < items.len()
        invariant
            i <= items.len(),
            steps_of(steps@) == steps_of(old(steps)@) + prefix_steps(items@.take(i as int)),
        decreases items.len() - i,
    {
        assert(items@.take(i + 1).drop_last() =~= items@.take(i as int));
        assert(items@.take(i + 1).last() == items@[i as int]);
        push_step(steps, None);
        items[i].visit_value_events(steps);
        assert(steps_of(steps@) =~= steps_of(old(steps)@) + prefix_steps(items@.take(i + 1)));
        i = i + 1;
    }
    assert(items@.take(items.len() as int) =~= items@);
}

fn visit_suffix_match<'a>(items: &'a Vec<SyntaxPattern>, steps: &mut Vec<Option<&'a str>>)
    ensures
        steps_of(final(steps)@) == steps_of(old(steps)@) + suffix_steps(items@),
    decreases items, 0nat,
{
    let mut i: usize = 0;
    assert(steps_of(steps@) =~= steps_of(old(steps)@) + suffix_steps(items@.take(0)));
    while i < items.len()
        invariant
            i <= items.len(),
            steps_of(steps@) == steps_of(old(steps)@) + suffix_steps(items@.take(i as int)),
        decreases items.len() - i,
    {
        assert(items@.take(i + 1).drop_last() =~= items@.take(i as int));
        assert(items@.take(i + 1).last() == items@[i as int]);
        items[i].visit_match_events(steps);
        assert(steps_of(steps@) =~= steps_of(old(steps)@) + suffix_steps(items@.take(i + 1)));
        i = i + 1;
    }
    assert(items@.take(items.len() as int) =~= items@);
}

fn visit_entries_match<'a>(items: &'a Vec<SyntaxDictPatternEntry>, steps: &mut Vec<Option<&'a str>>)
    ensures
        steps_of(final(steps)@) == steps_of(old(steps)@) + entries_steps(items@),
    decreases items, 0nat,
{
    let mut i: usize = 0;
    assert(steps_of(steps@) =~= steps_of(old(steps)@) + entries_steps(items@.take(0)));
    while i < items.len()
        invariant
            i <= items.len(),
            steps_of(steps@) == steps_of(old(steps)@) + entries_steps(items@.take(i as int)),
        decreases items.len() - i,
    {
        assert(items@.take(i + 1).drop_last() =~= items@.take(i as int));
        assert(items@.take(i + 1).last() == items@[i as int]);
        push_step(steps, None);
        items[i].pattern.visit_value_events(steps);
        assert(steps_of(steps@) =~= steps_of(old(steps)@) + entries_steps(items@.take(i + 1)));
        i = i + 1;
    }
    assert(items@.take(items.len() as int) =~= items@);
}

/// Records two private steps for each of `count` items.
fn push_private_steps(count: usize, steps: &mut Vec<Option<&str>>)
    ensures
        steps_of(final(steps)@) == steps_of(old(steps)@) + private_steps(2 * count as nat),
{
    let mut i: usize = 0;
    assert(steps_of(steps@) =~= steps_of(old(steps)@) + private_steps(0));
    while i < count
        invariant
            i <= count,
            steps_of(steps@) == steps_of(old(steps)@) + private_steps(2 * i as nat),
        decreases count - i,
    {
        push_step(steps, None);
        push_step(steps, None);
        i = i + 1;
        assert(steps_of(steps@) =~= steps_of(old(steps)@) + private_steps(2 * i as nat));
    }
}

/// The views of a list of borrowed strings.
pub open spec fn views(names: Seq<&str>) -> Seq<Seq<char>> {
    names.map_values(|name: &str| name@)
}

/// The operators whose chains compare neighbouring operands.
pub open spec fn comparison(operator: SyntaxOperator) -> bool {
    ||| operator == SyntaxOperator::Builtin(Builtin::Greater)
    ||| operator == SyntaxOperator::Builtin(Builtin::GreaterEqual)
    ||| operator == SyntaxOperator::Builtin(Builtin::Equal)
    ||| operator == SyntaxOperator::Builtin(Builtin::NotEqual)
    ||| operator == SyntaxOperator::Builtin(Builtin::LessEqual)
    ||| operator == SyntaxOperator::Builtin(Builtin::Less)
}

pub fn is_comparison_operator(operator: SyntaxOperator) -> (b: bool)
    ensures
        b == comparison(operator),
{
    match operator {
        SyntaxOperator::Builtin(builtin) => match builtin {
            Builtin::Greater
            | Builtin::GreaterEqual
            | Builtin::Equal
            | Builtin::NotEqual
            | Builtin::LessEqual
            | Builtin::Less => true,
            _ => false,
        },
        _ => false,
    }
}

/// The keys of a list of path steps, with bracketed lists spread in place.
pub open spec fn flattened(suffixes: Seq<PathSuffix>) -> Seq<SyntaxKeyExpr>
    decreases suffixes.len(),
{
    if suffixes.len() == 0 {
        Seq::empty()
    } else {
        flattened(suffixes.drop_last()) + (match suffixes.last() {
            PathSuffix::Single(part) => seq![part],
            PathSuffix::Expand(items) => items@,
        })
    }
}

pub fn flatten_path_suffixes(suffixes: Vec<PathSuffix>) -> (parts: Vec<SyntaxKeyExpr>)
    ensures
        parts@ == flattened(suffixes@),
{
    let mut remaining = suffixes;
    let mut reversed: Vec<PathSuffix> = Vec::new();
    while remaining.len() > 0
        invariant
            reversed.len() + remaining.len() == suffixes.len(),
            remaining@ == suffixes@.take(remaining.len() as int),
            forall|j: int|
                0 <= j < reversed.len() ==> reversed[j] == suffixes[suffixes.len() - 1 - j],
        decreases remaining.len(),
    {
        match remaining.pop() {
            Some(suffix) => reversed.push(suffix),
            None => {},
        }
        assert(remaining@ =~= suffixes@.take(remaining.len() as int));
    }
    let mut parts: Vec<SyntaxKeyExpr> = Vec::new();
    assert(suffixes@.take(0) =~= Seq::<PathSuffix>::empty());
    while reversed.len() > 0
        invariant
            reversed.len() <= suffixes.len(),
            forall|j: int|
                0 <= j < reversed.len() ==> reversed[j] == suffixes[suffixes.len() - 1 - j],
            parts@ == flattened(suffixes@.take(suffixes.len() - reversed.len())),
        decreases reversed.len(),
    {
        let ghost done = suffixes.len() - reversed.len();
        assert(suffixes@.take(done + 1).drop_last() =~= suffixes@.take(done));
        match reversed.pop() {
            Some(PathSuffix::Single(part)) => {
                parts.push(part);
            },
            Some(PathSuffix::Expand(items)) => {
                let mut rest = items;
                parts.append(&mut rest);
            },
            None => {},
        }
        assert(parts@ =~= flattened(suffixes@.take(done + 1)));
    }
    assert(suffixes@.take(suffixes.len() as int) =~= suffixes@);
    parts
}

/// Captures are collected event by event.
pub proof fn captured_concat(left: Seq<ScopeEvent>, right: Seq<ScopeEvent>)
    ensures
        captured(left + right) == captured(left) + captured(right),
    decreases right.len(),
{
    if right.len() == 0 {
        assert(left + right =~= left);
    } else {
        captured_concat(left, right.drop_last());
        assert((left + right).drop_last() =~= left + right.drop_last());
        assert(captured(left + right) =~= captured(left) + captured(right));
    }
}

/// The captures among a list of primitive steps, in order.
pub open spec fn step_captures(steps: Seq<Step>) -> Seq<Seq<char>>
    decreases steps.len(),
{
    if steps.len() == 0 {
        Seq::empty()
    } else {
        match steps.last() {
            Some(name) => step_captures(steps.drop_last()).push(name),
            None => step_captures(steps.drop_last()),
        }
    }
}

proof fn step_captures_concat(left: Seq<Step>, right: Seq<Step>)
    ensures
        step_captures(left + right) == step_captures(left) + step_captures(right),
    decreases right.len(),
{
    if right.len() == 0 {
        assert(left + right =~= left);
    } else {
        step_captures_concat(left, right.drop_last());
        assert((left + right).drop_last() =~= left + right.drop_last());
        assert(step_captures(left + right) =~= step_captures(left) + step_captures(right));
    }
}

proof fn private_steps_capture_nothing(count: nat)
    ensures
        step_captures(private_steps(count)) == Seq::<Seq<char>>::empty(),
    decreases count,
{
    if count > 0 {
        private_steps_capture_nothing((count - 1) as nat);
        assert(private_steps(count).drop_last() =~= private_steps((count - 1) as nat));
    }
}

proof fn one_private_step()
    ensures
        step_captures(seq![None::<Seq<char>>]) == Seq::<Seq<char>>::empty(),
{
    let one = seq![None::<Seq<char>>];
    assert(one.drop_last() =~= Seq::<Step>::empty());
    reveal_with_fuel(step_captures, 2);
}

proof fn named_steps(names: Seq<Seq<char>>)
    ensures
        step_captures(names.map_values(|name: Seq<char>| Some(name))) == names,
    decreases names.len(),
{
    let steps = names.map_values(|name: Seq<char>| Some(name));
    if names.len() > 0 {
        named_steps(names.drop_last());
        assert(steps.drop_last() =~= names.drop_last().map_values(|name: Seq<char>| Some(name)));
        assert(step_captures(steps) =~= names);
    } else {
        assert(step_captures(steps) =~= names);
    }
}

pub proof fn keys_capture_nothing(keys: Seq<SyntaxKeyExpr>)
    ensures
        captured(keys_events(keys)) == Seq::<Seq<char>>::empty(),
    decreases keys.len(),
{
    if keys.len() > 0 {
        keys_capture_nothing(keys.drop_last());
        captured_concat(keys_events(keys.drop_last()), key_events(keys.last()));
        reveal_with_fuel(captured, 2);
    }
}

pub proof fn event_capture(name: Seq<char>)
    ensures
        captured(seq![ScopeEvent::Capture(name)]) == seq![name],
{
    let one = seq![ScopeEvent::Capture(name)];
    assert(one.drop_last() =~= Seq::<ScopeEvent>::empty());
    reveal_with_fuel(captured, 2);
    assert(captured(one) =~= seq![name]);
}

pub proof fn event_expression(expr: SyntaxExpr)
    ensures
        captured(seq![ScopeEvent::Expression(expr)]) == Seq::<Seq<char>>::empty(),
{
    let one = seq![ScopeEvent::Expression(expr)];
    assert(one.drop_last() =~= Seq::<ScopeEvent>::empty());
    reveal_with_fuel(captured, 2);
}

/// The primitive steps that bind a pattern introduce its captures, all of
/// them and in the order in which matching establishes them.
pub proof fn steps_bind_the_captures(pattern: SyntaxPattern)
    ensures
        step_captures(value_steps(pattern)) == pattern_captures(pattern),
        step_captures(match_steps(pattern)) == pattern_captures(pattern),
    decreases pattern,
{
    let none = seq![None::<Seq<char>>];
    one_private_step();
    match pattern.kind {
        SyntaxPatternKind::Capture(name) => {
            event_capture(name@);
            let one: Seq<Step> = seq![Some(name@)];
            assert(one.drop_last() =~= Seq::<Step>::empty());
            reveal_with_fuel(step_captures, 2);
            assert(step_captures(one) =~= seq![name@]);
        },
        SyntaxPatternKind::Wildcard => {},
        SyntaxPatternKind::Literal(_) => {},
        SyntaxPatternKind::QuotedPath(path) => {
            keys_capture_nothing(path@);
        },
        SyntaxPatternKind::Group(inner) => {
            steps_bind_the_captures(*inner);
        },
        SyntaxPatternKind::As(left, right) => {
            steps_bind_the_captures(*left);
            steps_bind_the_captures(*right);
            captured_concat(pattern_events(*left), pattern_events(*right));
            step_captures_concat(match_steps(*left), match_steps(*right));
        },
        SyntaxPatternKind::View { view, pattern } => {
            steps_bind_the_captures(*pattern);
            event_expression(*view);
            captured_concat(seq![ScopeEvent::Expression(*view)], pattern_events(*pattern));
            step_captures_concat(none, match_steps(*pattern));
        },
        SyntaxPatternKind::Predicate { predicate, pattern } => {
            steps_bind_the_captures(*pattern);
            event_expression(*predicate);
            captured_concat(seq![ScopeEvent::Expression(*predicate)], pattern_events(*pattern));
            step_captures_concat(none, match_steps(*pattern));
        },
        SyntaxPatternKind::Guarded { pattern, guards } => {
            steps_bind_the_captures(*pattern);
            guards_bind_the_captures(guards@);
            captured_concat(pattern_events(*pattern), guards_events(guards@));
            step_captures_concat(match_steps(*pattern), guards_steps(guards@));
        },
        SyntaxPatternKind::List { prefix, middle, suffix } => {
            let (inner_events, inner_steps) = match middle {
                Some(inner) => (pattern_events(*inner), value_steps(*inner)),
                None => (Seq::empty(), none),
            };
            if let Some(inner) = middle {
                steps_bind_the_captures(*inner);
            }
            lists_bind_the_captures(prefix@);
            lists_bind_the_captures(suffix@);
            private_steps_capture_nothing(2 * suffix@.len());
            captured_concat(patterns_events(prefix@), inner_events);
            captured_concat(patterns_events(prefix@) + inner_events, patterns_events(suffix@));
            let a = none + prefix_steps(prefix@);
            let b = a + private_steps(2 * suffix@.len());
            let c = b + inner_steps;
            step_captures_concat(none, prefix_steps(prefix@));
            step_captures_concat(a, private_steps(2 * suffix@.len()));
            step_captures_concat(b, inner_steps);
            step_captures_concat(c, suffix_steps(suffix@));
            assert(step_captures(match_steps(pattern)) =~= pattern_captures(pattern));
        },
        SyntaxPatternKind::Dict { entries, remainder } => {
            let (inner_events, inner_steps) = match remainder {
                Some(inner) => (pattern_events(*inner), value_steps(*inner)),
                None => (Seq::empty(), none),
            };
            if let Some(inner) = remainder {
                steps_bind_the_captures(*inner);
            }
            entries_bind_the_captures(entries@);
            captured_concat(entries_events(entries@), inner_events);
            step_captures_concat(none, entries_steps(entries@));
            step_captures_concat(none + entries_steps(entries@), inner_steps);
            assert(step_captures(match_steps(pattern)) =~= pattern_captures(pattern));
        },
    }
    assert(step_captures(match_steps(pattern)) =~= pattern_captures(pattern));
    let names = pattern_captures(pattern);
    let named = names.map_values(|name: Seq<char>| Some(name));
    named_steps(names);
    step_captures_concat(none, named);
    step_captures_concat(none, match_steps(pattern));
    assert(step_captures(value_steps(pattern)) =~= pattern_captures(pattern));
}

proof fn lists_bind_the_captures(patterns: Seq<SyntaxPattern>)
    ensures
        step_captures(prefix_steps(patterns)) == captured(patterns_events(patterns)),
        step_captures(suffix_steps(patterns)) == captured(patterns_events(patterns)),
    decreases patterns,
{
    if patterns.len() > 0 {
        let none = seq![None::<Seq<char>>];
        one_private_step();
        let rest = patterns.drop_last();
        lists_bind_the_captures(rest);
        steps_bind_the_captures(patterns.last());
        captured_concat(patterns_events(rest), pattern_events(patterns.last()));
        step_captures_concat(prefix_steps(rest), none);
        step_captures_concat(prefix_steps(rest) + none, value_steps(patterns.last()));
        step_captures_concat(suffix_steps(rest), match_steps(patterns.last()));
        assert(step_captures(prefix_steps(patterns)) =~= captured(patterns_events(patterns)));
    }
}

proof fn entries_bind_the_captures(entries: Seq<SyntaxDictPatternEntry>)
    ensures
        step_captures(entries_steps(entries)) == captured(entries_events(entries)),
    decreases entries,
{
    if entries.len() > 0 {
        let none = seq![None::<Seq<char>>];
        one_private_step();
        let rest = entries.drop_last();
        let entry = entries.last();
        entries_bind_the_captures(rest);
        steps_bind_the_captures(entry.pattern);
        keys_capture_nothing(entry.path@);
        captured_concat(entries_events(rest), keys_events(entry.path@));
        captured_concat(
            entries_events(rest) + keys_events(entry.path@),
            pattern_events(entry.pattern),
        );
        step_captures_concat(entries_steps(rest), none);
        step_captures_concat(entries_steps(rest) + none, value_steps(entry.pattern));
        assert(step_captures(entries_steps(entries)) =~= captured(entries_events(entries)));
    }
}

proof fn guards_bind_the_captures(guards: Seq<SyntaxGuardClause>)
    ensures
        step_captures(guards_steps(guards)) == captured(guards_events(guards)),
    decreases guards,
{
    if guards.len() > 0 {
        let rest = guards.drop_last();
        guards_bind_the_captures(rest);
        guard_binds_the_captures(guards.last());
        captured_concat(guards_events(rest), guard_events(guards.last()));
        step_captures_concat(guards_steps(rest), guard_steps(guards.last()));
    }
}

proof fn guard_binds_the_captures(guard: SyntaxGuardClause)
    ensures
        step_captures(guard_steps(guard)) == captured(guard_events(guard)),
    decreases guard,
{
    match guard {
        SyntaxGuardClause::Pass => {},
        SyntaxGuardClause::Effect(expr) => {
            one_private_step();
            event_expression(expr);
        },
        SyntaxGuardClause::EffectBind { pattern, operation } => {
            steps_bind_the_captures(pattern);
            event_expression(operation);
            captured_concat(seq![ScopeEvent::Expression(operation)], pattern_events(pattern));
            assert(step_captures(guard_steps(guard)) =~= captured(guard_events(guard)));
        },
        SyntaxGuardClause::ValueBind { pattern, value } => {
            steps_bind_the_captures(pattern);
            event_expression(value);
            captured_concat(seq![ScopeEvent::Expression(value)], pattern_events(pattern));
            assert(step_captures(guard_steps(guard)) =~= captured(guard_events(guard)));
        },
    }
}

/// A pattern that matches every value owns no expressions.
pub proof fn irrefutable_patterns_own_no_expressions(pattern: SyntaxPattern)
    requires
        irrefutable(pattern),
    ensures
        forall|i: int|
            0 <= i < pattern_events(pattern).len() ==> #[trigger] pattern_events(
                pattern,
            )[i] is Capture,
    decreases pattern,
{
    match pattern.kind {
        SyntaxPatternKind::Group(inner) => irrefutable_patterns_own_no_expressions(*inner),
        SyntaxPatternKind::As(left, right) => {
            irrefutable_patterns_own_no_expressions(*left);
            irrefutable_patterns_own_no_expressions(*right);
            let l = pattern_events(*left);
            let r = pattern_events(*right);
            assert forall|i: int| 0 <= i < pattern_events(pattern).len() implies
                #[trigger] pattern_events(pattern)[i] is Capture by {
                if i < l.len() {
                    assert(pattern_events(pattern)[i] == l[i]);
                } else {
                    assert(pattern_events(pattern)[i] == r[i - l.len()]);
                }
            }
        },
        _ => {},
    }
}

/// Spreading path steps keeps every key and their order, however the steps
/// are divided.
pub proof fn flattening_keeps_order(left: Seq<PathSuffix>, right: Seq<PathSuffix>)
    ensures
        flattened(left + right) == flattened(left) + flattened(right),
    decreases right.len(),
{
    if right.len() == 0 {
        assert(left + right =~= left);
        assert(flattened(left + right) =~= flattened(left) + flattened(right));
    } else {
        flattening_keeps_order(left, right.drop_last());
        assert((left + right).drop_last() =~= left + right.drop_last());
        assert(flattened(left + right) =~= flattened(left) + flattened(right));
    }
}

} // verus!
