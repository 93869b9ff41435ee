//! File-wide checks that require more context than one lexical resolver owns.
//!
//! Ordinary local-to-local shadowing remains a resolver invariant. This pass
//! indexes only source-written namespace introductions and global-root uses so
//! that local/global conflicts do not depend on declaration order.

use vstd::prelude::*;
use vstd::string::StringExecFns;
use crate::analysis;
use crate::analysis::fulfills_abstract;
use crate::ast::{
    Declaration, DeclarationKind, DefinitionDecl, DoExpr, DoStep, DoStepKind, ImportPlacement,
    MatchArm, MatchOutcome, ObjectBodyDefinition, ObjectBodyDefinitionKind, ObjectDecl,
    ObjectExtendDecl, SyntaxDictPatternEntry, SyntaxExpr, SyntaxGuardClause, SyntaxKeyExpr,
    SyntaxOperator, SyntaxPattern, SyntaxPatternKind, WhenArm,
};
use crate::diagnostic;
use crate::diagnostic::{report, Diagnostic, DiagnosticView};
use crate::names;
use crate::names::local_name_metadata;
use crate::text;
use crate::text::{push_decimal, same_text, split_dots};

verus! {

/// A map from names to numbers.
pub struct NameMap {
    entries: Vec<(String, usize)>,
}

pub closed spec fn map_of(entries: Seq<(String, usize)>) -> Map<Seq<char>, nat>
    decreases entries.len(),
{
    if entries.len() == 0 {
        Map::empty()
    } else {
        map_of(entries.drop_last()).insert(entries.last().0@, entries.last().1 as nat)
    }
}

impl View for NameMap {
    type V = Map<Seq<char>, nat>;

    closed spec fn view(&self) -> Map<Seq<char>, nat> {
        map_of(self.entries@)
    }
}

impl NameMap {
    pub fn new() -> (map: Self)
        ensures
            map@ == Map::<Seq<char>, nat>::empty(),
    {
        NameMap { entries: Vec::new() }
    }

    pub fn get(&self, name: &str) -> (value: Option<usize>)
        ensures
            match value {
                Some(value) => self@.dom().contains(name@) && self@[name@] == value,
                None => !self@.dom().contains(name@),
            },
    {
        let ghost all = self.entries@;
        let mut i: usize = self.entries.len();
        assert(all.take(i as int) =~= all);
        while i > 0
            invariant
                i <= self.entries.len(),
                all == self.entries@,
                self@.dom().contains(name@) == map_of(all.take(i as int)).dom().contains(name@),
                self@.dom().contains(name@) ==> self@[name@] == map_of(all.take(i as int))[name@],
            decreases i,
        {
            i = i - 1;
            assert(all.take(i + 1).drop_last() =~= all.take(i as int));
            if same_text(self.entries[i].0.as_str(), name) {
                return Some(self.entries[i].1);
            }
        }
        None
    }

    pub fn insert(&mut self, name: &str, value: usize)
        ensures
            final(self)@ == old(self)@.insert(name@, value as nat),
    {
        self.entries.push((name.to_owned(), value));
        assert(self.entries@.drop_last() =~= old(self).entries@);
    }

    /// Adds an entry unless the name has one.
    pub fn insert_first(&mut self, name: &str, value: usize)
        ensures
            final(self)@ == first_kept(old(self)@, name@, value as nat),
    {
        if self.get(name).is_none() {
            self.insert(name, value);
        }
    }
}

/// A map with an entry added unless the name has one.
pub open spec fn first_kept(
    map: Map<Seq<char>, nat>,
    name: Seq<char>,
    value: nat,
) -> Map<Seq<char>, nat> {
    if map.dom().contains(name) {
        map
    } else {
        map.insert(name, value)
    }
}

pub struct Namespace {
    pub children: NameMap,
    pub introduced: NameMap,
    pub used: NameMap,
}

pub struct ResolutionScope {
    pub definitions: usize,
    pub lookup: usize,
    pub object_alias: Option<String>,
    pub parent: Option<usize>,
}

pub struct SourceBinder {
    pub raw: String,
    pub canonical: String,
    pub line: usize,
    pub visible_namespaces: Vec<usize>,
}

/// The names that a file introduces and uses, and the locals that it binds.
pub struct FileNameAnalysis {
    pub namespaces: Vec<Namespace>,
    pub scopes: Vec<ResolutionScope>,
    pub binders: Vec<SourceBinder>,
}

/// The children of a namespace, and the first line on which each of its names
/// is introduced and used.
pub struct Space {
    pub children: Map<Seq<char>, nat>,
    pub introduced: Map<Seq<char>, nat>,
    pub used: Map<Seq<char>, nat>,
}

/// Where a scope defines names, where it looks them up, and its parent.
pub struct Scope {
    pub definitions: nat,
    pub lookup: nat,
    pub alias: Option<Seq<char>>,
    pub parent: Option<nat>,
}

/// A local that the source binds, with the namespaces it could conflict with.
pub struct Binder {
    pub raw: Seq<char>,
    pub canonical: Seq<char>,
    pub line: nat,
    pub visible: Seq<nat>,
}

/// The model of the names of a file.
pub struct Names {
    pub spaces: Seq<Space>,
    pub scopes: Seq<Scope>,
    pub binders: Seq<Binder>,
}

impl View for Namespace {
    type V = Space;

    open spec fn view(&self) -> Space {
        Space { children: self.children@, introduced: self.introduced@, used: self.used@ }
    }
}

impl View for ResolutionScope {
    type V = Scope;

    open spec fn view(&self) -> Scope {
        Scope {
            definitions: self.definitions as nat,
            lookup: self.lookup as nat,
            alias: match self.object_alias {
                Some(name) => Some(name@),
                None => None,
            },
            parent: match self.parent {
                Some(parent) => Some(parent as nat),
                None => None,
            },
        }
    }
}

impl View for SourceBinder {
    type V = Binder;

    open spec fn view(&self) -> Binder {
        Binder {
            raw: self.raw@,
            canonical: self.canonical@,
            line: self.line as nat,
            visible: self.visible_namespaces@.map_values(|id: usize| id as nat),
        }
    }
}

impl View for FileNameAnalysis {
    type V = Names;

    open spec fn view(&self) -> Names {
        Names {
            spaces: self.namespaces@.map_values(|n: Namespace| n@),
            scopes: self.scopes@.map_values(|s: ResolutionScope| s@),
            binders: self.binders@.map_values(|b: SourceBinder| b@),
        }
    }
}

/// Every identifier refers to something that exists, and scopes are nested.
pub open spec fn wf(n: Names) -> bool {
    &&& forall|s: int|
        0 <= s < n.scopes.len() ==> {
            &&& (#[trigger] n.scopes[s]).definitions < n.spaces.len()
            &&& n.scopes[s].lookup < n.spaces.len()
            &&& n.scopes[s].parent matches Some(parent) ==> parent < s
        }
    &&& forall|k: int, name: Seq<char>|
        0 <= k < n.spaces.len() && (#[trigger] n.spaces[k].children.dom().contains(name))
            ==> n.spaces[k].children[name] < n.spaces.len()
    &&& forall|b: int, j: int|
        0 <= b < n.binders.len() && 0 <= j < n.binders[b].visible.len() ==> (
        #[trigger] n.binders[b].visible[j]) < n.spaces.len()
}

/// Nothing that a file has introduced, used or bound is ever forgotten.
pub open spec fn accumulates(a: Names, b: Names) -> bool {
    &&& a.spaces.len() <= b.spaces.len()
    &&& a.scopes.len() <= b.scopes.len()
    &&& a.binders.len() <= b.binders.len()
    &&& forall|s: int| 0 <= s < a.scopes.len() ==> #[trigger] b.scopes[s] == a.scopes[s]
    &&& forall|i: int| 0 <= i < a.binders.len() ==> #[trigger] b.binders[i] == a.binders[i]
    &&& forall|k: int|
        0 <= k < a.spaces.len() ==> {
            &&& a.spaces[k].introduced.submap_of((#[trigger] b.spaces[k]).introduced)
            &&& a.spaces[k].used.submap_of(b.spaces[k].used)
            &&& a.spaces[k].children.submap_of(b.spaces[k].children)
        }
}

proof fn submap_trans(a: Map<Seq<char>, nat>, b: Map<Seq<char>, nat>, c: Map<Seq<char>, nat>)
    requires
        a.submap_of(b),
        b.submap_of(c),
    ensures
        a.submap_of(c),
{
    assert forall|k: Seq<char>| #[trigger] a.dom().contains(k) implies c.dom().contains(k) && a[k]
        == c[k] by {
        assert(b.dom().contains(k));
        assert(c.dom().contains(k));
    }
}

pub proof fn accumulates_trans(a: Names, b: Names, c: Names)
    requires
        accumulates(a, b),
        accumulates(b, c),
    ensures
        accumulates(a, c),
{
    assert forall|s: int| 0 <= s < a.scopes.len() implies #[trigger] c.scopes[s] == a.scopes[s] by {
        assert(b.scopes[s] == a.scopes[s]);
    }
    assert forall|i: int| 0 <= i < a.binders.len() implies #[trigger] c.binders[i]
        == a.binders[i] by {
        assert(b.binders[i] == a.binders[i]);
    }
    assert forall|k: int| 0 <= k < a.spaces.len() implies {
        &&& a.spaces[k].introduced.submap_of((#[trigger] c.spaces[k]).introduced)
        &&& a.spaces[k].used.submap_of(c.spaces[k].used)
        &&& a.spaces[k].children.submap_of(c.spaces[k].children)
    } by {
        let (x, y, z) = (a.spaces[k], b.spaces[k], c.spaces[k]);
        submap_trans(x.introduced, y.introduced, z.introduced);
        submap_trans(x.used, y.used, z.used);
        submap_trans(x.children, y.children, z.children);
    }
}

/// The state `n` with one more empty namespace.
pub open spec fn with_space(n: Names) -> Names {
    Names {
        spaces: n.spaces.push(
            Space { children: Map::empty(), introduced: Map::empty(), used: Map::empty() },
        ),
        ..n
    }
}

/// The state after looking up, or creating, a child namespace, and the child.
pub open spec fn child_of(n: Names, parent: nat, name: Seq<char>) -> (Names, nat) {
    let space = n.spaces[parent as int];
    if space.children.dom().contains(name) {
        (n, space.children[name])
    } else {
        let child = n.spaces.len();
        let grown = with_space(n);
        (
            Names {
                spaces: grown.spaces.update(
                    parent as int,
                    Space { children: space.children.insert(name, child), ..space },
                ),
                ..grown
            },
            child,
        )
    }
}

/// The state after introducing a name, and the name's own namespace.
pub open spec fn introduced(n: Names, space: nat, name: Seq<char>, line: nat) -> (Names, nat) {
    let old_space = n.spaces[space as int];
    let marked = Names {
        spaces: n.spaces.update(
            space as int,
            Space { introduced: first_kept(old_space.introduced, name, line), ..old_space },
        ),
        ..n
    };
    child_of(marked, space, name)
}

/// The state after introducing every component of a path.
pub open spec fn introduced_path(
    n: Names,
    start: nat,
    path: Seq<Seq<char>>,
    line: nat,
) -> (Names, nat)
    decreases path.len(),
{
    if path.len() == 0 {
        (n, start)
    } else {
        let (before, space) = introduced_path(n, start, path.drop_last(), line);
        introduced(before, space, path.last(), line)
    }
}

/// The state after making sure that the namespaces of a path exist.
pub open spec fn ensured_path(n: Names, start: nat, path: Seq<Seq<char>>) -> (Names, nat)
    decreases path.len(),
{
    if path.len() == 0 {
        (n, start)
    } else {
        let (before, space) = ensured_path(n, start, path.drop_last());
        child_of(before, space, path.last())
    }
}

/// The leading components of a definition target that are written out.
pub open spec fn static_prefix(path: Seq<SyntaxKeyExpr>) -> Seq<Seq<char>>
    decreases path.len(),
{
    if path.len() == 0 {
        Seq::empty()
    } else {
        match path[0] {
            SyntaxKeyExpr::Atom(name) => seq![name@] + static_prefix(path.skip(1)),
            _ => Seq::empty(),
        }
    }
}

/// The namespaces that a local of `scope` could conflict with, the nearest
/// first, after those already seen.
pub open spec fn visible_from(scopes: Seq<Scope>, scope: nat, seen: Seq<nat>) -> Seq<nat>
    decreases scope,
{
    let current = scopes[scope as int];
    let now = if seen.contains(current.lookup) {
        seen
    } else {
        seen.push(current.lookup)
    };
    match current.parent {
        Some(parent) => if parent < scope {
            visible_from(scopes, parent, now)
        } else {
            now
        },
        None => now,
    }
}

/// The scope `depth` levels out, or the outermost one.
pub open spec fn escaped(scopes: Seq<Scope>, scope: nat, depth: nat) -> nat
    decreases depth,
{
    if depth == 0 {
        scope
    } else {
        match scopes[scope as int].parent {
            Some(parent) => escaped(scopes, parent, (depth - 1) as nat),
            None => scope,
        }
    }
}

/// The state after binding a local.
pub open spec fn bound(
    n: Names,
    raw: Seq<char>,
    canonical: Seq<char>,
    line: nat,
    scope: nat,
) -> Names {
    Names {
        binders: n.binders.push(
            Binder { raw, canonical, line, visible: visible_from(n.scopes, scope, Seq::empty()) },
        ),
        ..n
    }
}

/// A walk through one definition: the names of the file, the locals in scope,
/// and the abstract names that captures may fulfil.
pub struct Walk {
    pub names: Names,
    pub locals: Seq<Seq<char>>,
    pub unresolved: Seq<Seq<char>>,
}

/// The walk after visiting something that only changes the names of the file.
pub open spec fn looked(w: Walk, n: Names) -> Walk {
    Walk { names: n, ..w }
}

/// The walk after a binding spelled `raw`. The spelling `_` binds nothing.
pub open spec fn pushed(w: Walk, raw: Seq<char>, line: nat, scope: nat) -> Walk {
    match names::canonical_name(raw) {
        Some(canonical) => Walk {
            names: bound(w.names, raw, canonical, line, scope),
            locals: w.locals.push(canonical),
            ..w
        },
        None => w,
    }
}

/// The walk after a list of bindings.
pub open spec fn pushed_all(w: Walk, raws: Seq<Seq<char>>, line: nat, scope: nat) -> Walk
    decreases raws.len(),
{
    if raws.len() == 0 {
        w
    } else {
        pushed(pushed_all(w, raws.drop_last(), line, scope), raws.last(), line, scope)
    }
}

/// The walk after a capture, which may fulfil an abstract name.
pub open spec fn caught(w: Walk, raw: Seq<char>, line: nat, scope: nat) -> Walk {
    let k = analysis::last_index(w.unresolved, names::canonical_name(raw));
    if k >= 0 {
        Walk { unresolved: w.unresolved.remove(k), ..w }
    } else {
        pushed(w, raw, line, scope)
    }
}

/// The walk after an abstract declaration.
pub open spec fn declared(w: Walk, raw: Seq<char>, line: nat, scope: nat) -> Walk {
    let after = pushed(w, raw, line, scope);
    match names::canonical_name(raw) {
        Some(canonical) => Walk { unresolved: after.unresolved.push(canonical), ..after },
        None => after,
    }
}

pub open spec fn declared_all(w: Walk, raws: Seq<Seq<char>>, line: nat, scope: nat) -> Walk
    decreases raws.len(),
{
    if raws.len() == 0 {
        w
    } else {
        declared(declared_all(w, raws.drop_last(), line, scope), raws.last(), line, scope)
    }
}

/// The state after a use of `name`. Locals, the object alias, and the special
/// references are no uses of a namespace.
pub open spec fn name_used(
    n: Names,
    name: Seq<char>,
    line: nat,
    scope: nat,
    locals: Seq<Seq<char>>,
) -> Names {
    let current = n.scopes[scope as int];
    if name == "module"@ || name == "self"@ || locals.contains(name) || current.alias == Some(
        name,
    ) {
        n
    } else {
        let space = n.spaces[current.lookup as int];
        Names {
            spaces: n.spaces.update(
                current.lookup as int,
                Space { used: first_kept(space.used, name, line), ..space },
            ),
            ..n
        }
    }
}

/// How an object body is entered: as an object, or as the dictionary of a
/// `with` expression.
#[derive(Debug, Clone, Copy, PartialEq, Eq, Structural)]
pub enum BodyScopeKind {
    Object,
    Dictionary,
}

/// The state after entering an object body: its scope, and its alias if that
/// has a name.
pub open spec fn entered(
    n: Names,
    alias: Option<Seq<char>>,
    line: nat,
    parent: nat,
    space: nat,
    kind: BodyScopeKind,
) -> Names {
    let canonical = match alias {
        Some(raw) => names::canonical_name(raw),
        None => None,
    };
    let lookup = if kind == BodyScopeKind::Object && canonical is None {
        space
    } else if kind == BodyScopeKind::Dictionary && canonical == Some("self"@) {
        space
    } else {
        n.scopes[parent as int].lookup
    };
    let opened = Names {
        scopes: n.scopes.push(
            Scope { definitions: space, lookup, alias: canonical, parent: Some(parent) },
        ),
        ..n
    };
    match canonical {
        Some(name) => bound(opened, alias->0, name, line, n.scopes.len()),
        None => opened,
    }
}

/// The view of an optional alias.
pub open spec fn alias_of(alias: Option<String>) -> Option<Seq<char>> {
    match alias {
        Some(name) => Some(name@),
        None => None,
    }
}

/// The state after visiting an expression.
pub open spec fn n_expr(
    n: Names,
    expr: SyntaxExpr,
    line: nat,
    scope: nat,
    locals: Seq<Seq<char>>,
) -> Names
    decreases expr,
{
    match expr {
        SyntaxExpr::Unit => n,
        SyntaxExpr::Embedded(_) => n,
        SyntaxExpr::Number(_) => n,
        SyntaxExpr::Text(_) => n,
        SyntaxExpr::Atom(_) => n,
        SyntaxExpr::Effect(_) => n,
        SyntaxExpr::PriorName(_) => n,
        SyntaxExpr::Name(name) => name_used(n, name@, line, scope, locals),
        SyntaxExpr::Escape(depth, inner) => {
            n_expr(n, *inner, line, escaped(n.scopes, scope, depth as nat), locals)
        },
        SyntaxExpr::Access(base, path) => {
            n_keys(n_expr(n, *base, line, scope, locals), path@, line, scope, locals)
        },
        SyntaxExpr::Object(object) => {
            let a = match object.name {
                Some(name) => n_expr(n, *name, line, scope, locals),
                None => n,
            };
            let b = n_exprs(a, object.deps@, line, scope, locals);
            let c = with_space(b);
            let d = entered(
                c,
                alias_of(object.alias),
                line,
                scope,
                b.spaces.len(),
                BodyScopeKind::Object,
            );
            n_items(d, object.body@, c.scopes.len(), locals)
        },
        SyntaxExpr::With { base, alias, body } => {
            let b = n_expr(n, *base, line, scope, locals);
            let c = with_space(b);
            let d = entered(
                c,
                alias_of(alias),
                line,
                scope,
                b.spaces.len(),
                BodyScopeKind::Dictionary,
            );
            n_items(d, body@, c.scopes.len(), locals)
        },
        SyntaxExpr::Using { namespace, body } => {
            n_expr(n_expr(n, *namespace, line, scope, locals), *body, line, scope, locals)
        },
        SyntaxExpr::PathDict(path, value) => {
            n_expr(n_keys(n, path@, line, scope, locals), *value, line, scope, locals)
        },
        SyntaxExpr::TaggedConstructor(path) => n_keys(n, path@, line, scope, locals),
        SyntaxExpr::DictUnion(items) => n_exprs(n, items@, line, scope, locals),
        SyntaxExpr::List(items) => n_exprs(n, items@, line, scope, locals),
        SyntaxExpr::Tuple(items) => n_exprs(n, items@, line, scope, locals),
        SyntaxExpr::Lambda(params, body) => {
            let w = pushed_all(start(n, locals), text::texts(params@), line, scope);
            n_expr(w.names, *body, line, scope, w.locals)
        },
        SyntaxExpr::Do(block) => {
            let w = n_steps(start(n, locals), block.steps@, scope);
            n_expr(w.names, *block.result, block.result_line as nat, scope, w.locals)
        },
        SyntaxExpr::If(choice) => {
            let w = n_guards(start(n, locals), choice.guards@, line, scope);
            let a = n_expr(w.names, *choice.then_result, line, scope, w.locals);
            n_expr(a, *choice.else_result, line, scope, locals)
        },
        SyntaxExpr::Match(choice) => {
            n_arms(n_expr(n, *choice.subject, line, scope, locals), choice.arms@, scope, locals)
        },
        SyntaxExpr::MatchWhen(choice) => n_when_arms(n, choice.arms@, scope, locals),
        SyntaxExpr::Let { bindings, body } => {
            let a = n_bindings(n, bindings@, line, scope, locals);
            let w = pushed_all(
                start(a, locals),
                analysis::binding_names(bindings@),
                line,
                scope,
            );
            n_expr(w.names, *body, line, scope, w.locals)
        },
        SyntaxExpr::OperatorSection { operator, left, right } => {
            let a = match left {
                Some(left) => n_expr(n, *left, line, scope, locals),
                None => n,
            };
            match right {
                Some(right) => n_expr(a, *right, line, scope, locals),
                None => a,
            }
        },
        SyntaxExpr::ComparisonChain { first, rest } => {
            n_links(n_expr(n, *first, line, scope, locals), rest@, line, scope, locals)
        },
        SyntaxExpr::OperatorApply { operator, left, right } => {
            n_expr(n_expr(n, *left, line, scope, locals), *right, line, scope, locals)
        },
        SyntaxExpr::Apply(left, right) => {
            n_expr(n_expr(n, *left, line, scope, locals), *right, line, scope, locals)
        },
        SyntaxExpr::Multiply(left, right) => {
            n_expr(n_expr(n, *left, line, scope, locals), *right, line, scope, locals)
        },
        SyntaxExpr::Divide(left, right) => {
            n_expr(n_expr(n, *left, line, scope, locals), *right, line, scope, locals)
        },
        SyntaxExpr::Add(left, right) => {
            n_expr(n_expr(n, *left, line, scope, locals), *right, line, scope, locals)
        },
        SyntaxExpr::Subtract(left, right) => {
            n_expr(n_expr(n, *left, line, scope, locals), *right, line, scope, locals)
        },
        SyntaxExpr::Append(left, right) => {
            n_expr(n_expr(n, *left, line, scope, locals), *right, line, scope, locals)
        },
    }
}

/// A walk that starts with no abstract names.
pub open spec fn start(n: Names, locals: Seq<Seq<char>>) -> Walk {
    Walk { names: n, locals, unresolved: Seq::empty() }
}

pub open spec fn n_key(
    n: Names,
    key: SyntaxKeyExpr,
    line: nat,
    scope: nat,
    locals: Seq<Seq<char>>,
) -> Names
    decreases key,
{
    match key {
        SyntaxKeyExpr::Atom(_) => n,
        SyntaxKeyExpr::Index(expr) => n_expr(n, *expr, line, scope, locals),
        SyntaxKeyExpr::PathIndex(expr) => n_expr(n, *expr, line, scope, locals),
    }
}

pub open spec fn n_keys(
    n: Names,
    items: Seq<SyntaxKeyExpr>,
    line: nat,
    scope: nat,
    locals: Seq<Seq<char>>,
) -> Names
    decreases items,
{
    if items.len() == 0 {
        n
    } else {
        let before = n_keys(n, items.drop_last(), line, scope, locals);
        n_key(before, items.last(), line, scope, locals)
    }
}

pub open spec fn n_exprs(
    n: Names,
    items: Seq<SyntaxExpr>,
    line: nat,
    scope: nat,
    locals: Seq<Seq<char>>,
) -> Names
    decreases items,
{
    if items.len() == 0 {
        n
    } else {
        let before = n_exprs(n, items.drop_last(), line, scope, locals);
        n_expr(before, items.last(), line, scope, locals)
    }
}

pub open spec fn n_bindings(
    n: Names,
    items: Seq<(String, SyntaxExpr)>,
    line: nat,
    scope: nat,
    locals: Seq<Seq<char>>,
) -> Names
    decreases items,
{
    if items.len() == 0 {
        n
    } else {
        let before = n_bindings(n, items.drop_last(), line, scope, locals);
        n_expr(before, items.last().1, line, scope, locals)
    }
}

pub open spec fn n_links(
    n: Names,
    items: Seq<(SyntaxOperator, SyntaxExpr)>,
    line: nat,
    scope: nat,
    locals: Seq<Seq<char>>,
) -> Names
    decreases items,
{
    if items.len() == 0 {
        n
    } else {
        let before = n_links(n, items.drop_last(), line, scope, locals);
        n_expr(before, items.last().1, line, scope, locals)
    }
}

pub open spec fn n_items(
    n: Names,
    items: Seq<ObjectBodyDefinition>,
    scope: nat,
    locals: Seq<Seq<char>>,
) -> Names
    decreases items,
{
    if items.len() == 0 {
        n
    } else {
        let before = n_items(n, items.drop_last(), scope, locals);
        n_item(before, items.last(), scope, locals)
    }
}

pub open spec fn n_when_arms(
    n: Names,
    items: Seq<WhenArm>,
    scope: nat,
    locals: Seq<Seq<char>>,
) -> Names
    decreases items,
{
    if items.len() == 0 {
        n
    } else {
        let before = n_when_arms(n, items.drop_last(), scope, locals);
        n_when_arm(before, items.last(), scope, locals)
    }
}

pub open spec fn n_arms(
    n: Names,
    items: Seq<MatchArm>,
    scope: nat,
    locals: Seq<Seq<char>>,
) -> Names
    decreases items,
{
    if items.len() == 0 {
        n
    } else {
        let before = n_arms(n, items.drop_last(), scope, locals);
        n_arm(before, items.last(), scope, locals)
    }
}

pub open spec fn n_patterns(
    w: Walk,
    items: Seq<SyntaxPattern>,
    line: nat,
    scope: nat,
) -> Walk
    decreases items,
{
    if items.len() == 0 {
        w
    } else {
        n_pattern(n_patterns(w, items.drop_last(), line, scope), items.last(), line, scope)
    }
}

pub open spec fn n_guards(
    w: Walk,
    items: Seq<SyntaxGuardClause>,
    line: nat,
    scope: nat,
) -> Walk
    decreases items,
{
    if items.len() == 0 {
        w
    } else {
        n_guard(n_guards(w, items.drop_last(), line, scope), items.last(), line, scope)
    }
}

pub open spec fn n_steps(
    w: Walk,
    items: Seq<DoStep>,
    scope: nat,
) -> Walk
    decreases items,
{
    if items.len() == 0 {
        w
    } else {
        n_step(n_steps(w, items.drop_last(), scope), items.last(), scope)
    }
}

pub open spec fn n_entries(
    w: Walk,
    items: Seq<SyntaxDictPatternEntry>,
    line: nat,
    scope: nat,
) -> Walk
    decreases items,
{
    if items.len() == 0 {
        w
    } else {
        let before = n_entries(w, items.drop_last(), line, scope);
        n_pattern(
            looked(before, n_keys(before.names, items.last().path@, line, scope, before.locals)),
            items.last().pattern,
            line,
            scope,
        )
    }
}

/// The walk after visiting a pattern, in matching order.
pub open spec fn n_pattern(w: Walk, pattern: SyntaxPattern, line: nat, scope: nat) -> Walk
    decreases pattern,
{
    match pattern.kind {
        SyntaxPatternKind::Capture(name) => caught(w, name@, line, scope),
        SyntaxPatternKind::Wildcard => w,
        SyntaxPatternKind::Literal(_) => w,
        SyntaxPatternKind::List { prefix, middle, suffix } => {
            let a = n_patterns(w, prefix@, line, scope);
            let b = match middle {
                Some(inner) => n_pattern(a, *inner, line, scope),
                None => a,
            };
            n_patterns(b, suffix@, line, scope)
        },
        SyntaxPatternKind::Dict { entries, remainder } => {
            let a = n_entries(w, entries@, line, scope);
            match remainder {
                Some(inner) => n_pattern(a, *inner, line, scope),
                None => a,
            }
        },
        SyntaxPatternKind::QuotedPath(path) => looked(w, n_keys(w.names, path@, line, scope, w.locals)),
        SyntaxPatternKind::Group(inner) => n_pattern(w, *inner, line, scope),
        SyntaxPatternKind::As(left, right) => {
            n_pattern(n_pattern(w, *left, line, scope), *right, line, scope)
        },
        SyntaxPatternKind::View { view, pattern } => {
            n_pattern(looked(w, n_expr(w.names, *view, line, scope, w.locals)), *pattern, line, scope)
        },
        SyntaxPatternKind::Predicate { predicate, pattern } => {
            n_pattern(looked(w, n_expr(w.names, *predicate, line, scope, w.locals)), *pattern, line, scope)
        },
        SyntaxPatternKind::Guarded { pattern, guards } => {
            n_guards(n_pattern(w, *pattern, line, scope), guards@, line, scope)
        },
    }
}

pub open spec fn n_guard(w: Walk, guard: SyntaxGuardClause, line: nat, scope: nat) -> Walk
    decreases guard,
{
    match guard {
        SyntaxGuardClause::Pass => w,
        SyntaxGuardClause::Effect(expr) => looked(w, n_expr(w.names, expr, line, scope, w.locals)),
        SyntaxGuardClause::EffectBind { pattern, operation } => {
            n_pattern(looked(w, n_expr(w.names, operation, line, scope, w.locals)), pattern, line, scope)
        },
        SyntaxGuardClause::ValueBind { pattern, value } => {
            n_pattern(looked(w, n_expr(w.names, value, line, scope, w.locals)), pattern, line, scope)
        },
    }
}

pub open spec fn n_step(w: Walk, step: DoStep, scope: nat) -> Walk
    decreases step,
{
    let line = step.line as nat;
    match step.kind {
        DoStepKind::Abstract(raws) => declared_all(w, text::texts(raws@), line, scope),
        DoStepKind::Bind { pattern, operation } => {
            n_pattern(looked(w, n_expr(w.names, operation, line, scope, w.locals)), pattern, line, scope)
        },
        DoStepKind::ValueBind { pattern, value } => {
            n_pattern(looked(w, n_expr(w.names, value, line, scope, w.locals)), pattern, line, scope)
        },
        DoStepKind::Then(expr) => looked(w, n_expr(w.names, expr, line, scope, w.locals)),
    }
}

pub open spec fn n_outcome(
    n: Names,
    outcome: MatchOutcome,
    scope: nat,
    locals: Seq<Seq<char>>,
) -> Names
    decreases outcome,
{
    match outcome {
        MatchOutcome::Result { line, mode, expression } => {
            n_expr(n, expression, line as nat, scope, locals)
        },
        MatchOutcome::Nested(arms) => n_when_arms(n, arms@, scope, locals),
    }
}

pub open spec fn n_when_arm(
    n: Names,
    arm: WhenArm,
    scope: nat,
    locals: Seq<Seq<char>>,
) -> Names
    decreases arm,
{
    let w = n_guards(start(n, locals), arm.guards@, arm.line as nat, scope);
    n_outcome(w.names, arm.outcome, scope, w.locals)
}

pub open spec fn n_arm(n: Names, arm: MatchArm, scope: nat, locals: Seq<Seq<char>>) -> Names
    decreases arm,
{
    let line = arm.line as nat;
    let a = n_pattern(start(n, locals), arm.pattern, line, scope);
    let w = n_guards(a, arm.guards@, line, scope);
    n_outcome(w.names, arm.outcome, scope, w.locals)
}

/// The state after visiting a definition.
pub open spec fn n_definition(
    n: Names,
    definition: DefinitionDecl,
    line: nat,
    scope: nat,
    locals: Seq<Seq<char>>,
) -> Names
    decreases definition,
{
    let (a, _) = introduced_path(
        n,
        n.scopes[scope as int].definitions,
        static_prefix(definition.target@),
        line,
    );
    let b = n_keys(a, definition.target@, line, scope, locals);
    match definition.expr {
        Some(expr) => n_expr(b, expr, line, scope, locals),
        None => b,
    }
}

/// The state after visiting an object declaration.
pub open spec fn n_object(
    n: Names,
    object: ObjectDecl,
    line: nat,
    scope: nat,
    locals: Seq<Seq<char>>,
) -> Names
    decreases object,
{
    let a = n_exprs(n, object.deps@, line, scope, locals);
    let (b, space) = introduced_path(
        a,
        a.scopes[scope as int].definitions,
        text::dotted(object.target@),
        line,
    );
    let c = entered(b, alias_of(object.alias), line, scope, space, BodyScopeKind::Object);
    n_items(c, object.body@, b.scopes.len(), locals)
}

/// The state after visiting the extension of an object.
pub open spec fn n_extend(
    n: Names,
    extend: ObjectExtendDecl,
    line: nat,
    scope: nat,
    locals: Seq<Seq<char>>,
) -> Names
    decreases extend,
{
    let (b, space) = ensured_path(
        n,
        n.scopes[scope as int].definitions,
        text::dotted(extend.target@),
    );
    let c = entered(b, alias_of(extend.alias), line, scope, space, BodyScopeKind::Object);
    n_items(c, extend.body@, b.scopes.len(), locals)
}

pub open spec fn n_item(
    n: Names,
    item: ObjectBodyDefinition,
    scope: nat,
    locals: Seq<Seq<char>>,
) -> Names
    decreases item,
{
    let line = item.line as nat;
    match item.kind {
        ObjectBodyDefinitionKind::Definition(definition) => {
            n_definition(n, definition, line, scope, locals)
        },
        ObjectBodyDefinitionKind::Object(object) => n_object(n, object, line, scope, locals),
        ObjectBodyDefinitionKind::Extend(extend) => n_extend(n, extend, line, scope, locals),
    }
}

/// The state after introducing a list of static paths.
pub open spec fn n_paths(n: Names, paths: Seq<Seq<char>>, line: nat, scope: nat) -> Names
    decreases paths.len(),
{
    if paths.len() == 0 {
        n
    } else {
        let before = n_paths(n, paths.drop_last(), line, scope);
        introduced_path(
            before,
            before.scopes[scope as int].definitions,
            text::dotted(paths.last()),
            line,
        ).0
    }
}

/// The state after visiting a declaration.
pub open spec fn n_declaration(n: Names, declaration: Declaration, scope: nat) -> Names {
    let line = declaration.line as nat;
    match declaration.kind {
        DeclarationKind::Import(import) => match import.placement {
            ImportPlacement::As(target) => n_paths(n, seq![target@], line, scope),
            _ => n,
        },
        DeclarationKind::Abstract(paths) => n_paths(n, text::texts(paths@), line, scope),
        DeclarationKind::Unique(paths) => n_paths(n, text::texts(paths@), line, scope),
        DeclarationKind::Object(object) => n_object(n, object, line, scope, Seq::empty()),
        DeclarationKind::Extend(extend) => n_extend(n, extend, line, scope, Seq::empty()),
        DeclarationKind::Definition(definition) => {
            n_definition(n, definition, line, scope, Seq::empty())
        },
        DeclarationKind::Language(_) => n,
        DeclarationKind::Unknown => n,
    }
}

/// The state after visiting every declaration of a file.
pub open spec fn n_file(declarations: Seq<Declaration>) -> Names
    decreases declarations.len(),
{
    if declarations.len() == 0 {
        root()
    } else {
        n_declaration(n_file(declarations.drop_last()), declarations.last(), 0)
    }
}

/// The state before any declaration: one namespace and the scope of the file.
pub open spec fn root() -> Names {
    Names {
        spaces: seq![
            Space { children: Map::empty(), introduced: Map::empty(), used: Map::empty() },
        ],
        scopes: seq![Scope { definitions: 0, lookup: 0, alias: None, parent: None }],
        binders: Seq::empty(),
    }
}

/// The first of the visible namespaces that introduces a name, by line.
pub open spec fn introduction(n: Names, visible: Seq<nat>, name: Seq<char>) -> Option<nat>
    decreases visible.len(),
{
    if visible.len() == 0 {
        None
    } else if n.spaces[visible[0] as int].introduced.dom().contains(name) {
        Some(n.spaces[visible[0] as int].introduced[name])
    } else {
        introduction(n, visible.skip(1), name)
    }
}

/// The first of the visible namespaces that uses a name, by line.
pub open spec fn first_use(n: Names, visible: Seq<nat>, name: Seq<char>) -> Option<nat>
    decreases visible.len(),
{
    if visible.len() == 0 {
        None
    } else if n.spaces[visible[0] as int].used.dom().contains(name) {
        Some(n.spaces[visible[0] as int].used[name])
    } else {
        first_use(n, visible.skip(1), name)
    }
}

pub open spec fn defined_message(raw: Seq<char>, canonical: Seq<char>, line: nat) -> Seq<char> {
    "local `"@ + raw + "` shadows external `"@ + canonical + "` defined on line "@ + text::decimal(
        line,
    )
}

pub open spec fn used_message(raw: Seq<char>, canonical: Seq<char>, line: nat) -> Seq<char> {
    "local `"@ + raw + "` shadows external `"@ + canonical + "` used by this file on line "@
        + text::decimal(line)
}

/// What is reported about one local: a conflict with a name that a visible
/// namespace introduces, else with one that the file uses from it.
pub open spec fn conflict(n: Names, binder: Binder) -> Seq<DiagnosticView> {
    match introduction(n, binder.visible, binder.canonical) {
        Some(line) => seq![
            diagnostic::error_at(binder.line, defined_message(binder.raw, binder.canonical, line)),
        ],
        None => match first_use(n, binder.visible, binder.canonical) {
            Some(line) => seq![
                diagnostic::error_at(binder.line, used_message(binder.raw, binder.canonical, line)),
            ],
            None => Seq::empty(),
        },
    }
}

/// What is reported about a list of locals, in binding order.
pub open spec fn conflicts(n: Names, binders: Seq<Binder>) -> Seq<DiagnosticView>
    decreases binders.len(),
{
    if binders.len() == 0 {
        Seq::empty()
    } else {
        conflicts(n, binders.drop_last()) + conflict(n, binders.last())
    }
}

/// The state stays well formed, and nothing is forgotten.
#[verifier::opaque]
pub open spec fn grown(a: Names, b: Names) -> bool {
    wf(b) && accumulates(a, b)
}

pub proof fn grown_same(a: Names)
    requires
        wf(a),
    ensures
        grown(a, a),
{
    reveal(grown);
}

pub proof fn grown_trans(a: Names, b: Names, c: Names)
    requires
        grown(a, b),
        grown(b, c),
    ensures
        grown(a, c),
{
    reveal(grown);
    accumulates_trans(a, b, c);
}

/// A well formed state has its scopes and namespaces where they are named.
pub proof fn grown_bounds(a: Names, b: Names)
    requires
        grown(a, b),
    ensures
        wf(b),
        a.scopes.len() <= b.scopes.len(),
        a.spaces.len() <= b.spaces.len(),
{
    reveal(grown);
}

proof fn with_space_grows(n: Names)
    requires
        wf(n),
    ensures
        grown(n, with_space(n)),
{
    reveal(grown);
    let after = with_space(n);
    assert forall|k: int, name: Seq<char>|
        0 <= k < after.spaces.len() && (#[trigger] after.spaces[k].children.dom().contains(
            name,
        )) implies after.spaces[k].children[name] < after.spaces.len() by {
        if k < n.spaces.len() {
            assert(n.spaces[k].children.dom().contains(name));
        }
    }
    assert forall|b: int, j: int|
        0 <= b < after.binders.len() && 0 <= j < after.binders[b].visible.len() implies (
    #[trigger] after.binders[b].visible[j]) < after.spaces.len() by {
        assert(n.binders[b].visible[j] < n.spaces.len());
    }
}

proof fn space_update_grows(n: Names, k: int, space: Space)
    requires
        wf(n),
        0 <= k < n.spaces.len(),
        n.spaces[k].introduced.submap_of(space.introduced),
        n.spaces[k].used.submap_of(space.used),
        n.spaces[k].children.submap_of(space.children),
        forall|name: Seq<char>| #[trigger]
            space.children.dom().contains(name) ==> space.children[name] < n.spaces.len(),
    ensures
        grown(n, Names { spaces: n.spaces.update(k, space), ..n }),
{
    reveal(grown);
    let after = Names { spaces: n.spaces.update(k, space), ..n };
    assert forall|i: int, name: Seq<char>|
        0 <= i < after.spaces.len() && (#[trigger] after.spaces[i].children.dom().contains(
            name,
        )) implies after.spaces[i].children[name] < after.spaces.len() by {
        if i != k {
            assert(n.spaces[i].children.dom().contains(name));
        }
    }
    assert forall|b: int, j: int|
        0 <= b < after.binders.len() && 0 <= j < after.binders[b].visible.len() implies (
    #[trigger] after.binders[b].visible[j]) < after.spaces.len() by {
        assert(n.binders[b].visible[j] < n.spaces.len());
    }
}

proof fn child_grows(n: Names, parent: nat, name: Seq<char>)
    requires
        wf(n),
        parent < n.spaces.len(),
    ensures
        grown(n, child_of(n, parent, name).0),
        child_of(n, parent, name).1 < child_of(n, parent, name).0.spaces.len(),
{
    let space = n.spaces[parent as int];
    if space.children.dom().contains(name) {
        grown_same(n);
    } else {
        let mid = with_space(n);
        with_space_grows(n);
        grown_bounds(n, mid);
        assert(mid.spaces[parent as int] == space);
        let next = Space { children: space.children.insert(name, n.spaces.len()), ..space };
        assert forall|x: Seq<char>| #[trigger] next.children.dom().contains(x) implies
            next.children[x] < mid.spaces.len() by {
            if x != name {
                assert(n.spaces[parent as int].children.dom().contains(x));
            }
        }
        space_update_grows(mid, parent as int, next);
        grown_trans(n, mid, child_of(n, parent, name).0);
    }
}

proof fn introduced_grows(n: Names, space: nat, name: Seq<char>, line: nat)
    requires
        wf(n),
        space < n.spaces.len(),
    ensures
        grown(n, introduced(n, space, name, line).0),
        introduced(n, space, name, line).1 < introduced(n, space, name, line).0.spaces.len(),
{
    let before = n.spaces[space as int];
    let next = Space { introduced: first_kept(before.introduced, name, line), ..before };
    assert forall|x: Seq<char>| #[trigger] next.children.dom().contains(x) implies
        next.children[x] < n.spaces.len() by {
        assert(n.spaces[space as int].children.dom().contains(x));
    }
    space_update_grows(n, space as int, next);
    let mid = Names { spaces: n.spaces.update(space as int, next), ..n };
    grown_bounds(n, mid);
    child_grows(mid, space, name);
    grown_trans(n, mid, introduced(n, space, name, line).0);
}

proof fn used_grows(n: Names, name: Seq<char>, line: nat, scope: nat, locals: Seq<Seq<char>>)
    requires
        wf(n),
        scope < n.scopes.len(),
    ensures
        grown(n, name_used(n, name, line, scope, locals)),
{
    grown_same(n);
    let current = n.scopes[scope as int];
    let space = n.spaces[current.lookup as int];
    let next = Space { used: first_kept(space.used, name, line), ..space };
    assert forall|x: Seq<char>| #[trigger] next.children.dom().contains(x) implies
        next.children[x] < n.spaces.len() by {
        assert(n.spaces[current.lookup as int].children.dom().contains(x));
    }
    space_update_grows(n, current.lookup as int, next);
}

proof fn visible_exist(n: Names, scope: nat, seen: Seq<nat>)
    requires
        wf(n),
        scope < n.scopes.len(),
        forall|j: int| 0 <= j < seen.len() ==> #[trigger] seen[j] < n.spaces.len(),
    ensures
        forall|j: int|
            0 <= j < visible_from(n.scopes, scope, seen).len() ==> #[trigger] visible_from(
                n.scopes,
                scope,
                seen,
            )[j] < n.spaces.len(),
    decreases scope,
{
    let current = n.scopes[scope as int];
    let now = if seen.contains(current.lookup) {
        seen
    } else {
        seen.push(current.lookup)
    };
    assert forall|j: int| 0 <= j < now.len() implies #[trigger] now[j] < n.spaces.len() by {
        if j < seen.len() {
            assert(seen[j] < n.spaces.len());
        }
    }
    match current.parent {
        Some(parent) => {
            visible_exist(n, parent, now);
            assert(visible_from(n.scopes, scope, seen) == visible_from(n.scopes, parent, now));
        },
        None => {
            assert(visible_from(n.scopes, scope, seen) == now);
        },
    }
}

proof fn bound_grows(n: Names, raw: Seq<char>, canonical: Seq<char>, line: nat, scope: nat)
    requires
        wf(n),
        scope < n.scopes.len(),
    ensures
        grown(n, bound(n, raw, canonical, line, scope)),
{
    reveal(grown);
    visible_exist(n, scope, Seq::empty());
    let after = bound(n, raw, canonical, line, scope);
    assert forall|b: int, j: int|
        0 <= b < after.binders.len() && 0 <= j < after.binders[b].visible.len() implies (
    #[trigger] after.binders[b].visible[j]) < after.spaces.len() by {
        if b < n.binders.len() {
            assert(n.binders[b].visible[j] < n.spaces.len());
        }
    }
    assert forall|k: int, name: Seq<char>|
        0 <= k < after.spaces.len() && (#[trigger] after.spaces[k].children.dom().contains(
            name,
        )) implies after.spaces[k].children[name] < after.spaces.len() by {
        assert(n.spaces[k].children.dom().contains(name));
    }
}

proof fn scope_grows(n: Names, scope: Scope)
    requires
        wf(n),
        scope.definitions < n.spaces.len(),
        scope.lookup < n.spaces.len(),
        scope.parent matches Some(parent) ==> parent < n.scopes.len(),
    ensures
        grown(n, Names { scopes: n.scopes.push(scope), ..n }),
{
    reveal(grown);
    let after = Names { scopes: n.scopes.push(scope), ..n };
    assert forall|b: int, j: int|
        0 <= b < after.binders.len() && 0 <= j < after.binders[b].visible.len() implies (
    #[trigger] after.binders[b].visible[j]) < after.spaces.len() by {
        assert(n.binders[b].visible[j] < n.spaces.len());
    }
    assert forall|k: int, name: Seq<char>|
        0 <= k < after.spaces.len() && (#[trigger] after.spaces[k].children.dom().contains(
            name,
        )) implies after.spaces[k].children[name] < after.spaces.len() by {
        assert(n.spaces[k].children.dom().contains(name));
    }
}

proof fn escaped_exists(n: Names, scope: nat, depth: nat)
    requires
        wf(n),
        scope < n.scopes.len(),
    ensures
        escaped(n.scopes, scope, depth) < n.scopes.len(),
    decreases depth,
{
    if depth > 0 {
        if let Some(parent) = n.scopes[scope as int].parent {
            escaped_exists(n, parent, (depth - 1) as nat);
        }
    }
}

/// The names in a list of strings contain a name.
fn contains_text(items: &Vec<String>, name: &str) -> (found: bool)
    ensures
        found == text::texts(items@).contains(name@),
{
    let mut i: usize = 0;
    while i < items.len()
        invariant
            i <= items.len(),
            forall|j: int| 0 <= j < i ==> items@[j]@ != name@,
        decreases items.len() - i,
    {
        if same_text(items[i].as_str(), name) {
            assert(text::texts(items@)[i as int] == name@);
            return true;
        }
        i = i + 1;
    }
    assert forall|j: int| 0 <= j < text::texts(items@).len() implies text::texts(items@)[j]
        != name@ by {
        assert(items@[j]@ != name@);
    }
    false
}

fn contains_id(items: &Vec<usize>, id: usize) -> (found: bool)
    ensures
        found == items@.contains(id),
{
    let mut i: usize = 0;
    while i < items.len()
        invariant
            i <= items.len(),
            forall|j: int| 0 <= j < i ==> items@[j] != id,
        decreases items.len() - i,
    {
        if items[i] == id {
            assert(items@[i as int] == id);
            return true;
        }
        i = i + 1;
    }
    false
}

/// The identifiers of a list, as numbers.
pub open spec fn ids(items: Seq<usize>) -> Seq<nat> {
    items.map_values(|id: usize| id as nat)
}

proof fn ids_contain(items: Seq<usize>, id: usize)
    ensures
        ids(items).contains(id as nat) == items.contains(id),
{
    if items.contains(id) {
        let j = choose|j: int| 0 <= j < items.len() && items[j] == id;
        assert(ids(items)[j] == id as nat);
    }
    if ids(items).contains(id as nat) {
        let j = choose|j: int| 0 <= j < ids(items).len() && ids(items)[j] == id as nat;
        assert(items[j] == id);
    }
}

/// Shortens a list of names to the length it had.
fn truncate_names(names: &mut Vec<String>, len: usize)
    requires
        len <= old(names).len(),
    ensures
        final(names)@ == old(names)@.take(len as int),
{
    names.truncate(len);
    assert(names@ =~= old(names)@.take(len as int));
}

/// How an object body is entered.
pub struct BodyScopeSpec<'a> {
    pub alias: Option<&'a str>,
    pub line: usize,
    pub parent: usize,
    pub namespace: usize,
    pub kind: BodyScopeKind,
}

impl Namespace {
    pub fn new() -> (space: Self)
        ensures
            space@ == (Space {
                children: Map::empty(),
                introduced: Map::empty(),
                used: Map::empty(),
            }),
    {
        Namespace { children: NameMap::new(), introduced: NameMap::new(), used: NameMap::new() }
    }
}

impl FileNameAnalysis {
    /// The state before any declaration.
    pub fn new() -> (analysis: Self)
        ensures
            analysis@ == root(),
            wf(analysis@),
    {
        let mut namespaces: Vec<Namespace> = Vec::new();
        namespaces.push(Namespace::new());
        let mut scopes: Vec<ResolutionScope> = Vec::new();
        scopes.push(ResolutionScope { definitions: 0, lookup: 0, object_alias: None, parent: None });
        let analysis = FileNameAnalysis { namespaces, scopes, binders: Vec::new() };
        assert(analysis@.spaces =~= root().spaces);
        assert(analysis@.scopes =~= root().scopes);
        assert(analysis@.binders =~= root().binders);
        analysis
    }

    pub fn push_namespace(&mut self) -> (id: usize)
        requires
            wf(old(self)@),
        ensures
            final(self)@ == with_space(old(self)@),
            id == old(self)@.spaces.len(),
            grown(old(self)@, final(self)@),
    {
        let id = self.namespaces.len();
        self.namespaces.push(Namespace::new());
        proof {
            with_space_grows(old(self)@);
            assert(self@.spaces =~= with_space(old(self)@).spaces);
        }
        id
    }

    pub fn push_scope(&mut self, scope: ResolutionScope) -> (id: usize)
        requires
            wf(old(self)@),
            scope@.definitions < old(self)@.spaces.len(),
            scope@.lookup < old(self)@.spaces.len(),
            scope@.parent matches Some(parent) ==> parent < old(self)@.scopes.len(),
        ensures
            final(self)@ == (Names { scopes: old(self)@.scopes.push(scope@), ..old(self)@ }),
            id == old(self)@.scopes.len(),
            grown(old(self)@, final(self)@),
    {
        let id = self.scopes.len();
        self.scopes.push(scope);
        proof {
            scope_grows(old(self)@, scope@);
            assert(self@.scopes =~= old(self)@.scopes.push(scope@));
        }
        id
    }

    /// Finds, or creates, the namespace of a name.
    pub fn child_namespace(&mut self, parent: usize, name: &str) -> (id: usize)
        requires
            wf(old(self)@),
            parent < old(self)@.spaces.len(),
        ensures
            (final(self)@, id as nat) == child_of(old(self)@, parent as nat, name@),
            id < final(self)@.spaces.len(),
            grown(old(self)@, final(self)@),
    {
        proof {
            child_grows(self@, parent as nat, name@);
            assert(self@.spaces[parent as int] == self.namespaces@[parent as int]@);
        }
        if let Some(id) = self.namespaces[parent].children.get(name) {
            return id;
        }
        let id = self.push_namespace();
        let ghost mid = self.namespaces@;
        self.namespaces[parent].children.insert(name, id);
        proof {
            let target = child_of(old(self)@, parent as nat, name@).0.spaces;
            assert forall|i: int| 0 <= i < target.len() implies self@.spaces[i] == target[i] by {
                assert(with_space(old(self)@).spaces[i] == mid[i]@);
            }
            assert(self@.spaces =~= target);
            assert(self@.scopes =~= old(self)@.scopes);
            assert(self@.binders =~= old(self)@.binders);
        }
        id
    }

    pub fn introduce_name(&mut self, namespace: usize, name: &str, line: usize) -> (id: usize)
        requires
            wf(old(self)@),
            namespace < old(self)@.spaces.len(),
        ensures
            (final(self)@, id as nat) == introduced(old(self)@, namespace as nat, name@, line as nat),
            id < final(self)@.spaces.len(),
            grown(old(self)@, final(self)@),
    {
        proof {
            introduced_grows(self@, namespace as nat, name@, line as nat);
        }
        let ghost before = self@;
        let ghost space = self.namespaces@[namespace as int]@;
        let ghost next = Space {
            introduced: first_kept(space.introduced, name@, line as nat),
            ..space
        };
        self.namespaces[namespace].introduced.insert_first(name, line);
        proof {
            let mid = Names { spaces: before.spaces.update(namespace as int, next), ..before };
            assert(self@.spaces =~= mid.spaces);
            assert(self@.scopes =~= mid.scopes);
            assert(self@.binders =~= mid.binders);
            assert forall|x: Seq<char>| #[trigger] next.children.dom().contains(x) implies
                next.children[x] < before.spaces.len() by {
                assert(before.spaces[namespace as int].children.dom().contains(x));
            }
            space_update_grows(before, namespace as int, next);
            grown_bounds(before, self@);
        }
        self.child_namespace(namespace, name)
    }

    /// Introduces the components of a definition target that are written out.
    pub fn introduce_definition_path(
        &mut self,
        start: usize,
        path: &Vec<SyntaxKeyExpr>,
        line: usize,
    ) -> (id: usize)
        requires
            wf(old(self)@),
            start < old(self)@.spaces.len(),
        ensures
            (final(self)@, id as nat) == introduced_path(
                old(self)@,
                start as nat,
                static_prefix(path@),
                line as nat,
            ),
            id < final(self)@.spaces.len(),
            grown(old(self)@, final(self)@),
    {
        let ghost all = static_prefix(path@);
        let mut namespace = start;
        let mut k: usize = 0;
        assert(all.take(0) =~= Seq::<Seq<char>>::empty());
        assert(path@.skip(0) =~= path@);
        assert(all.skip(0) =~= all);
        proof {
            grown_same(self@);
        }
        loop
            invariant_except_break
                k <= path.len(),
                k <= all.len(),
                all.skip(k as int) == static_prefix(path@.skip(k as int)),
                (self@, namespace as nat) == introduced_path(
                    old(self)@,
                    start as nat,
                    all.take(k as int),
                    line as nat,
                ),
                namespace < self@.spaces.len(),
                grown(old(self)@, self@),
            ensures
                (self@, namespace as nat) == introduced_path(
                    old(self)@,
                    start as nat,
                    all,
                    line as nat,
                ),
                namespace < self@.spaces.len(),
                grown(old(self)@, self@),
            decreases path.len() - k,
        {
            if k == path.len() {
                assert(path@.skip(k as int).len() == 0);
                assert(all.skip(k as int).len() == 0);
                assert(all.take(k as int) =~= all);
                break ;
            }
            let ghost rest = path@.skip(k as int);
            assert(rest[0] == path@[k as int]);
            assert(rest.skip(1) =~= path@.skip(k + 1));
            match &path[k] {
                SyntaxKeyExpr::Atom(name) => {
                    let ghost before = self@;
                    proof {
                        grown_bounds(old(self)@, self@);
                        assert(all.skip(k as int) == seq![name@] + static_prefix(rest.skip(1)));
                        assert(all.skip(k as int)[0] == name@);
                        assert(all.skip(k + 1) =~= all.skip(k as int).skip(1));
                        assert(all.skip(k + 1) =~= static_prefix(path@.skip(k + 1)));
                        assert(all.take(k + 1).drop_last() =~= all.take(k as int));
                        assert(all.take(k + 1).last() == name@);
                    }
                    namespace = self.introduce_name(namespace, name.as_str(), line);
                    proof {
                        grown_trans(old(self)@, before, self@);
                    }
                },
                _ => {
                    assert(all.skip(k as int).len() == 0);
                    assert(all.take(k as int) =~= all);
                    break ;
                },
            }
            k = k + 1;
        }
        namespace
    }

    /// Introduces every component of a static path.
    pub fn introduce_static_path(&mut self, start: usize, path: &str, line: usize) -> (id: usize)
        requires
            wf(old(self)@),
            start < old(self)@.spaces.len(),
        ensures
            (final(self)@, id as nat) == introduced_path(
                old(self)@,
                start as nat,
                text::dotted(path@),
                line as nat,
            ),
            id < final(self)@.spaces.len(),
            grown(old(self)@, final(self)@),
    {
        let parts = split_dots(path);
        let ghost all = text::texts(parts@);
        let mut namespace = start;
        let mut k: usize = 0;
        assert(all.take(0) =~= Seq::<Seq<char>>::empty());
        proof {
            grown_same(self@);
        }
        while k < parts.len()
            invariant
                k <= parts.len(),
                all == text::texts(parts@),
                (self@, namespace as nat) == introduced_path(
                    old(self)@,
                    start as nat,
                    all.take(k as int),
                    line as nat,
                ),
                namespace < self@.spaces.len(),
                grown(old(self)@, self@),
            decreases parts.len() - k,
        {
            let ghost before = self@;
            proof {
                grown_bounds(old(self)@, self@);
                assert(all.take(k + 1).drop_last() =~= all.take(k as int));
                assert(all.take(k + 1).last() == parts@[k as int]@);
            }
            namespace = self.introduce_name(namespace, parts[k].as_str(), line);
            proof {
                grown_trans(old(self)@, before, self@);
            }
            k = k + 1;
        }
        assert(all.take(parts.len() as int) =~= all);
        namespace
    }

    /// Makes sure that the namespaces of a static path exist.
    pub fn ensure_static_path(&mut self, start: usize, path: &str) -> (id: usize)
        requires
            wf(old(self)@),
            start < old(self)@.spaces.len(),
        ensures
            (final(self)@, id as nat) == ensured_path(
                old(self)@,
                start as nat,
                text::dotted(path@),
            ),
            id < final(self)@.spaces.len(),
            grown(old(self)@, final(self)@),
    {
        let parts = split_dots(path);
        let ghost all = text::texts(parts@);
        let mut namespace = start;
        let mut k: usize = 0;
        assert(all.take(0) =~= Seq::<Seq<char>>::empty());
        proof {
            grown_same(self@);
        }
        while k < parts.len()
            invariant
                k <= parts.len(),
                all == text::texts(parts@),
                (self@, namespace as nat) == ensured_path(
                    old(self)@,
                    start as nat,
                    all.take(k as int),
                ),
                namespace < self@.spaces.len(),
                grown(old(self)@, self@),
            decreases parts.len() - k,
        {
            let ghost before = self@;
            proof {
                grown_bounds(old(self)@, self@);
                assert(all.take(k + 1).drop_last() =~= all.take(k as int));
                assert(all.take(k + 1).last() == parts@[k as int]@);
            }
            namespace = self.child_namespace(namespace, parts[k].as_str());
            proof {
                grown_trans(old(self)@, before, self@);
            }
            k = k + 1;
        }
        assert(all.take(parts.len() as int) =~= all);
        namespace
    }

    /// The namespaces that a local of a scope could conflict with.
    pub fn visible_namespaces(&self, scope: usize) -> (visible: Vec<usize>)
        requires
            wf(self@),
            scope < self@.scopes.len(),
        ensures
            ids(visible@) == visible_from(self@.scopes, scope as nat, Seq::empty()),
    {
        let mut visible: Vec<usize> = Vec::new();
        let mut scope = scope;
        let ghost first = scope as nat;
        assert(ids(visible@) =~= Seq::<nat>::empty());
        loop
            invariant_except_break
                wf(self@),
                scope < self@.scopes.len(),
                visible_from(self@.scopes, scope as nat, ids(visible@)) == visible_from(
                    self@.scopes,
                    first,
                    Seq::empty(),
                ),
            ensures
                ids(visible@) == visible_from(self@.scopes, first, Seq::empty()),
            decreases scope,
        {
            let ghost before = visible@;
            assert(self@.scopes[scope as int] == self.scopes@[scope as int]@);
            let lookup = self.scopes[scope].lookup;
            proof {
                ids_contain(visible@, lookup);
            }
            if !contains_id(&visible, lookup) {
                visible.push(lookup);
                assert(ids(visible@) =~= ids(before).push(lookup as nat));
            }
            match self.scopes[scope].parent {
                Some(parent) => {
                    scope = parent;
                },
                None => {
                    break ;
                },
            }
        }
        visible
    }

    /// The scope some levels out, or the outermost one.
    pub fn escape_scope(&self, scope: usize, depth: usize) -> (outer: usize)
        requires
            wf(self@),
            scope < self@.scopes.len(),
        ensures
            outer == escaped(self@.scopes, scope as nat, depth as nat),
            outer < self@.scopes.len(),
    {
        let mut current = scope;
        let mut left = depth;
        while left > 0
            invariant
                wf(self@),
                current < self@.scopes.len(),
                escaped(self@.scopes, current as nat, left as nat) == escaped(
                    self@.scopes,
                    scope as nat,
                    depth as nat,
                ),
            decreases left,
        {
            assert(self@.scopes[current as int] == self.scopes@[current as int]@);
            match self.scopes[current].parent {
                Some(parent) => {
                    current = parent;
                },
                None => {
                    return current;
                },
            }
            left = left - 1;
        }
        current
    }

    pub fn record_binder_with_raw(
        &mut self,
        raw: &str,
        canonical: String,
        line: usize,
        scope: usize,
    )
        requires
            wf(old(self)@),
            scope < old(self)@.scopes.len(),
        ensures
            final(self)@ == bound(old(self)@, raw@, canonical@, line as nat, scope as nat),
            grown(old(self)@, final(self)@),
    {
        let visible_namespaces = self.visible_namespaces(scope);
        let binder = SourceBinder { raw: raw.to_owned(), canonical, line, visible_namespaces };
        self.binders.push(binder);
        proof {
            bound_grows(old(self)@, raw@, canonical@, line as nat, scope as nat);
            assert(binder@.visible =~= ids(visible_namespaces@));
            assert(self@.binders =~= old(self)@.binders.push(binder@));
        }
    }

    /// Binds a local that the source spells, and returns its name.
    pub fn push_source_local(
        &mut self,
        raw: &str,
        line: usize,
        scope: usize,
        locals: &mut Vec<String>,
    ) -> (name: Option<String>)
        requires
            wf(old(self)@),
            scope < old(self)@.scopes.len(),
        ensures
            ({
                let w = pushed(
                    start(old(self)@, text::texts(old(locals)@)),
                    raw@,
                    line as nat,
                    scope as nat,
                );
                &&& final(self)@ == w.names
                &&& text::texts(final(locals)@) == w.locals
            }),
            match name {
                Some(name) => names::canonical_name(raw@) == Some(name@),
                None => names::canonical_name(raw@) is None,
            },
            grown(old(self)@, final(self)@),
            old(locals)@.is_prefix_of(final(locals)@),
    {
        let local = local_name_metadata(raw);
        assert(local@.canonical == names::canonical_name(raw@));
        match local.canonical {
            Some(canonical) => {
                self.record_binder_with_raw(raw, canonical.clone(), line, scope);
                locals.push(canonical.clone());
                assert(text::texts(locals@) =~= text::texts(old(locals)@).push(canonical@));
                Some(canonical)
            },
            None => {
                proof {
                    grown_same(self@);
                }
                None
            },
        }
    }

    /// Records the use of a name that is no local.
    pub fn record_name_use(&mut self, name: &str, line: usize, scope: usize, locals: &Vec<String>)
        requires
            wf(old(self)@),
            scope < old(self)@.scopes.len(),
        ensures
            final(self)@ == name_used(
                old(self)@,
                name@,
                line as nat,
                scope as nat,
                text::texts(locals@),
            ),
            grown(old(self)@, final(self)@),
    {
        proof {
            used_grows(self@, name@, line as nat, scope as nat, text::texts(locals@));
            assert(self@.scopes[scope as int] == self.scopes@[scope as int]@);
        }
        if same_text(name, "module") || same_text(name, "self") || contains_text(locals, name) {
            return ;
        }
        if let Some(alias) = &self.scopes[scope].object_alias {
            if same_text(alias.as_str(), name) {
                return ;
            }
        }
        let namespace = self.scopes[scope].lookup;
        let ghost space = self.namespaces@[namespace as int]@;
        let ghost next = Space { used: first_kept(space.used, name@, line as nat), ..space };
        self.namespaces[namespace].used.insert_first(name, line);
        proof {
            assert(self@.spaces =~= old(self)@.spaces.update(namespace as int, next));
            assert(self@.scopes =~= old(self)@.scopes);
            assert(self@.binders =~= old(self)@.binders);
        }
    }

    /// Records the use of the root of a static path.
    pub fn record_static_path_use(
        &mut self,
        path: &str,
        line: usize,
        scope: usize,
        locals: &Vec<String>,
    )
        requires
            wf(old(self)@),
            scope < old(self)@.scopes.len(),
        ensures
            final(self)@ == name_used(
                old(self)@,
                text::dotted(path@)[0],
                line as nat,
                scope as nat,
                text::texts(locals@),
            ),
            grown(old(self)@, final(self)@),
    {
        let parts = split_dots(path);
        assert(text::texts(parts@)[0] == parts@[0]@);
        self.record_name_use(parts[0].as_str(), line, scope, locals);
    }

    /// Enters an object body: opens its scope and binds its alias.
    pub fn enter_body(&mut self, spec: &BodyScopeSpec<'_>) -> (scope: usize)
        requires
            wf(old(self)@),
            spec.parent < old(self)@.scopes.len(),
            spec.namespace < old(self)@.spaces.len(),
        ensures
            final(self)@ == entered(
                old(self)@,
                match spec.alias {
                    Some(alias) => Some(alias@),
                    None => None,
                },
                spec.line as nat,
                spec.parent as nat,
                spec.namespace as nat,
                spec.kind,
            ),
            scope == old(self)@.scopes.len(),
            scope < final(self)@.scopes.len(),
            grown(old(self)@, final(self)@),
    {
        let canonical: Option<String> = match spec.alias {
            Some(raw) => local_name_metadata(raw).canonical,
            None => None,
        };
        assert(self@.scopes[spec.parent as int] == self.scopes@[spec.parent as int]@);
        let parent_lookup = self.scopes[spec.parent].lookup;
        let inner = match &canonical {
            None => spec.kind == BodyScopeKind::Object,
            Some(name) => spec.kind == BodyScopeKind::Dictionary && same_text(
                name.as_str(),
                "self",
            ),
        };
        let lookup = if inner {
            spec.namespace
        } else {
            parent_lookup
        };
        let object_alias = match &canonical {
            Some(name) => Some(name.clone()),
            None => None,
        };
        let scope = self.push_scope(
            ResolutionScope {
                definitions: spec.namespace,
                lookup,
                object_alias,
                parent: Some(spec.parent),
            },
        );
        let ghost opened = self@;
        proof {
            grown_bounds(old(self)@, opened);
        }
        if let Some(name) = canonical {
            if let Some(raw) = spec.alias {
                self.record_binder_with_raw(raw, name, spec.line, scope);
                proof {
                    grown_trans(old(self)@, opened, self@);
                    grown_bounds(opened, self@);
                }
            }
        }
        scope
    }

    pub fn visit_keys(
        &mut self,
        items: &Vec<SyntaxKeyExpr>,
        line: usize,
        scope: usize,
        locals: &mut Vec<String>,
    )
        requires
            wf(old(self)@),
            scope < old(self)@.scopes.len(),
        ensures
            final(self)@ == n_keys(old(self)@, items@, line as nat, scope as nat, text::texts(old(locals)@)),
            grown(old(self)@, final(self)@),
            final(locals)@ == old(locals)@,
        decreases items, 0nat,
    {
        let ghost first = self@;
        let ghost scoped = text::texts(locals@);
        let mut k: usize = 0;
        assert(items@.take(0) =~= Seq::empty());
        proof {
            grown_same(first);
        }
        while k < items.len()
            invariant
                k <= items.len(),
                scope < first.scopes.len(),
                first == old(self)@,
                locals@ == old(locals)@,
                scoped == text::texts(locals@),
                grown(first, self@),
                self@ == n_keys(first, items@.take(k as int), line as nat, scope as nat, scoped),
            decreases items.len() - k,
        {
            let ghost before = self@;
            proof {
                grown_bounds(first, before);
                assert(items@.take(k + 1).drop_last() =~= items@.take(k as int));
                assert(items@.take(k + 1).last() == items@[k as int]);
            }
            self.visit_key_expr(&items[k], line, scope, locals);
            proof {
                grown_trans(first, before, self@);
            }
            k = k + 1;
        }
        assert(items@.take(items.len() as int) =~= items@);
    }

    pub fn visit_exprs(
        &mut self,
        items: &Vec<SyntaxExpr>,
        line: usize,
        scope: usize,
        locals: &mut Vec<String>,
    )
        requires
            wf(old(self)@),
            scope < old(self)@.scopes.len(),
        ensures
            final(self)@ == n_exprs(old(self)@, items@, line as nat, scope as nat, text::texts(old(locals)@)),
            grown(old(self)@, final(self)@),
            final(locals)@ == old(locals)@,
        decreases items, 0nat,
    {
        let ghost first = self@;
        let ghost scoped = text::texts(locals@);
        let mut k: usize = 0;
        assert(items@.take(0) =~= Seq::empty());
        proof {
            grown_same(first);
        }
        while k < items.len()
            invariant
                k <= items.len(),
                scope < first.scopes.len(),
                first == old(self)@,
                locals@ == old(locals)@,
                scoped == text::texts(locals@),
                grown(first, self@),
                self@ == n_exprs(first, items@.take(k as int), line as nat, scope as nat, scoped),
            decreases items.len() - k,
        {
            let ghost before = self@;
            proof {
                grown_bounds(first, before);
                assert(items@.take(k + 1).drop_last() =~= items@.take(k as int));
                assert(items@.take(k + 1).last() == items@[k as int]);
            }
            self.visit_expr(&items[k], line, scope, locals);
            proof {
                grown_trans(first, before, self@);
            }
            k = k + 1;
        }
        assert(items@.take(items.len() as int) =~= items@);
    }

    pub fn visit_bindings(
        &mut self,
        items: &Vec<(String, SyntaxExpr)>,
        line: usize,
        scope: usize,
        locals: &mut Vec<String>,
    )
        requires
            wf(old(self)@),
            scope < old(self)@.scopes.len(),
        ensures
            final(self)@ == n_bindings(old(self)@, items@, line as nat, scope as nat, text::texts(old(locals)@)),
            grown(old(self)@, final(self)@),
            final(locals)@ == old(locals)@,
        decreases items, 0nat,
    {
        let ghost first = self@;
        let ghost scoped = text::texts(locals@);
        let mut k: usize = 0;
        assert(items@.take(0) =~= Seq::empty());
        proof {
            grown_same(first);
        }
        while k < items.len()
            invariant
                k <= items.len(),
                scope < first.scopes.len(),
                first == old(self)@,
                locals@ == old(locals)@,
                scoped == text::texts(locals@),
                grown(first, self@),
                self@ == n_bindings(first, items@.take(k as int), line as nat, scope as nat, scoped),
            decreases items.len() - k,
        {
            let ghost before = self@;
            proof {
                grown_bounds(first, before);
                assert(items@.take(k + 1).drop_last() =~= items@.take(k as int));
                assert(items@.take(k + 1).last() == items@[k as int]);
            }
            self.visit_expr(&items[k].1, line, scope, locals);
            proof {
                grown_trans(first, before, self@);
            }
            k = k + 1;
        }
        assert(items@.take(items.len() as int) =~= items@);
    }

    pub fn visit_links(
        &mut self,
        items: &Vec<(SyntaxOperator, SyntaxExpr)>,
        line: usize,
        scope: usize,
        locals: &mut Vec<String>,
    )
        requires
            wf(old(self)@),
            scope < old(self)@.scopes.len(),
        ensures
            final(self)@ == n_links(old(self)@, items@, line as nat, scope as nat, text::texts(old(locals)@)),
            grown(old(self)@, final(self)@),
            final(locals)@ == old(locals)@,
        decreases items, 0nat,
    {
        let ghost first = self@;
        let ghost scoped = text::texts(locals@);
        let mut k: usize = 0;
        assert(items@.take(0) =~= Seq::empty());
        proof {
            grown_same(first);
        }
        while k < items.len()
            invariant
                k <= items.len(),
                scope < first.scopes.len(),
                first == old(self)@,
                locals@ == old(locals)@,
                scoped == text::texts(locals@),
                grown(first, self@),
                self@ == n_links(first, items@.take(k as int), line as nat, scope as nat, scoped),
            decreases items.len() - k,
        {
            let ghost before = self@;
            proof {
                grown_bounds(first, before);
                assert(items@.take(k + 1).drop_last() =~= items@.take(k as int));
                assert(items@.take(k + 1).last() == items@[k as int]);
            }
            self.visit_expr(&items[k].1, line, scope, locals);
            proof {
                grown_trans(first, before, self@);
            }
            k = k + 1;
        }
        assert(items@.take(items.len() as int) =~= items@);
    }

    pub fn visit_items(
        &mut self,
        items: &Vec<ObjectBodyDefinition>,
        scope: usize,
        locals: &mut Vec<String>,
    )
        requires
            wf(old(self)@),
            scope < old(self)@.scopes.len(),
        ensures
            final(self)@ == n_items(old(self)@, items@, scope as nat, text::texts(old(locals)@)),
            grown(old(self)@, final(self)@),
            final(locals)@ == old(locals)@,
        decreases items, 0nat,
    {
        let ghost first = self@;
        let ghost scoped = text::texts(locals@);
        let mut k: usize = 0;
        assert(items@.take(0) =~= Seq::empty());
        proof {
            grown_same(first);
        }
        while k < items.len()
            invariant
                k <= items.len(),
                scope < first.scopes.len(),
                first == old(self)@,
                locals@ == old(locals)@,
                scoped == text::texts(locals@),
                grown(first, self@),
                self@ == n_items(first, items@.take(k as int), scope as nat, scoped),
            decreases items.len() - k,
        {
            let ghost before = self@;
            proof {
                grown_bounds(first, before);
                assert(items@.take(k + 1).drop_last() =~= items@.take(k as int));
                assert(items@.take(k + 1).last() == items@[k as int]);
            }
            self.visit_item(&items[k], scope, locals);
            proof {
                grown_trans(first, before, self@);
            }
            k = k + 1;
        }
        assert(items@.take(items.len() as int) =~= items@);
    }

    pub fn visit_when_arms(
        &mut self,
        items: &Vec<WhenArm>,
        scope: usize,
        locals: &mut Vec<String>,
    )
        requires
            wf(old(self)@),
            scope < old(self)@.scopes.len(),
        ensures
            final(self)@ == n_when_arms(old(self)@, items@, scope as nat, text::texts(old(locals)@)),
            grown(old(self)@, final(self)@),
            final(locals)@ == old(locals)@,
        decreases items, 0nat,
    {
        let ghost first = self@;
        let ghost scoped = text::texts(locals@);
        let mut k: usize = 0;
        assert(items@.take(0) =~= Seq::empty());
        proof {
            grown_same(first);
        }
        while k < items.len()
            invariant
                k <= items.len(),
                scope < first.scopes.len(),
                first == old(self)@,
                locals@ == old(locals)@,
                scoped == text::texts(locals@),
                grown(first, self@),
                self@ == n_when_arms(first, items@.take(k as int), scope as nat, scoped),
            decreases items.len() - k,
        {
            let ghost before = self@;
            proof {
                grown_bounds(first, before);
                assert(items@.take(k + 1).drop_last() =~= items@.take(k as int));
                assert(items@.take(k + 1).last() == items@[k as int]);
            }
            self.visit_when_arm(&items[k], scope, locals);
            proof {
                grown_trans(first, before, self@);
            }
            k = k + 1;
        }
        assert(items@.take(items.len() as int) =~= items@);
    }

    pub fn visit_arms(
        &mut self,
        items: &Vec<MatchArm>,
        scope: usize,
        locals: &mut Vec<String>,
    )
        requires
            wf(old(self)@),
            scope < old(self)@.scopes.len(),
        ensures
            final(self)@ == n_arms(old(self)@, items@, scope as nat, text::texts(old(locals)@)),
            grown(old(self)@, final(self)@),
            final(locals)@ == old(locals)@,
        decreases items, 0nat,
    {
        let ghost first = self@;
        let ghost scoped = text::texts(locals@);
        let mut k: usize = 0;
        assert(items@.take(0) =~= Seq::empty());
        proof {
            grown_same(first);
        }
        while k < items.len()
            invariant
                k <= items.len(),
                scope < first.scopes.len(),
                first == old(self)@,
                locals@ == old(locals)@,
                scoped == text::texts(locals@),
                grown(first, self@),
                self@ == n_arms(first, items@.take(k as int), scope as nat, scoped),
            decreases items.len() - k,
        {
            let ghost before = self@;
            proof {
                grown_bounds(first, before);
                assert(items@.take(k + 1).drop_last() =~= items@.take(k as int));
                assert(items@.take(k + 1).last() == items@[k as int]);
            }
            self.visit_arm(&items[k], scope, locals);
            proof {
                grown_trans(first, before, self@);
            }
            k = k + 1;
        }
        assert(items@.take(items.len() as int) =~= items@);
    }

    pub fn visit_key_expr(
        &mut self,
        key: &SyntaxKeyExpr,
        line: usize,
        scope: usize,
        locals: &mut Vec<String>,
    )
        requires
            wf(old(self)@),
            scope < old(self)@.scopes.len(),
        ensures
            final(self)@ == n_key(old(self)@, *key, line as nat, scope as nat, text::texts(old(locals)@)),
            grown(old(self)@, final(self)@),
            final(locals)@ == old(locals)@,
        decreases key, 0nat,
    {
        match key {
            SyntaxKeyExpr::Atom(_) => {
                proof {
                    grown_same(self@);
                }
            },
            SyntaxKeyExpr::Index(expr) => {
                self.visit_expr(expr, line, scope, locals);
            },
            SyntaxKeyExpr::PathIndex(expr) => {
                self.visit_expr(expr, line, scope, locals);
            },
        }
    }

    pub fn visit_expr(
        &mut self,
        expr: &SyntaxExpr,
        line: usize,
        scope: usize,
        locals: &mut Vec<String>,
    )
        requires
            wf(old(self)@),
            scope < old(self)@.scopes.len(),
        ensures
            final(self)@ == n_expr(old(self)@, *expr, line as nat, scope as nat, text::texts(old(locals)@)),
            grown(old(self)@, final(self)@),
            final(locals)@ == old(locals)@,
        decreases expr, 0nat,
    {
        let ghost first = self@;
        let ghost scoped = text::texts(locals@);
        proof {
            grown_same(first);
        }
        match expr {
            SyntaxExpr::Embedded(_) => {},
            SyntaxExpr::Number(_) => {},
            SyntaxExpr::Text(_) => {},
            SyntaxExpr::Atom(_) => {},
            SyntaxExpr::Effect(_) => {},
            SyntaxExpr::PriorName(_) => {},
            SyntaxExpr::Unit => {},
            SyntaxExpr::Name(name) => {
                self.record_name_use(name.as_str(), line, scope, locals);
            },
            SyntaxExpr::Escape(depth, inner) => {
                let escaped = self.escape_scope(scope, *depth);
                self.visit_expr(inner, line, escaped, locals);
            },
            SyntaxExpr::Access(base, path) => {
                self.visit_expr(base, line, scope, locals);
                let ghost mid = self@;
                proof {
                    grown_bounds(first, mid);
                }
                self.visit_keys(path, line, scope, locals);
                proof {
                    grown_trans(first, mid, self@);
                }
            },
            SyntaxExpr::Object(object) => {
                if let Some(name) = &object.name {
                    self.visit_expr(name, line, scope, locals);
                }
                let ghost a = self@;
                proof {
                    grown_bounds(first, a);
                }
                self.visit_exprs(&object.deps, line, scope, locals);
                let ghost b = self@;
                proof {
                    grown_trans(first, a, b);
                    grown_bounds(first, b);
                }
                let namespace = self.push_namespace();
                let ghost c = self@;
                proof {
                    grown_trans(first, b, c);
                    grown_bounds(first, c);
                }
                let alias = match &object.alias {
                    Some(alias) => Some(alias.as_str()),
                    None => None,
                };
                let inner = self.enter_body(
                    &BodyScopeSpec {
                        alias,
                        line,
                        parent: scope,
                        namespace,
                        kind: BodyScopeKind::Object,
                    },
                );
                let ghost d = self@;
                proof {
                    grown_trans(first, c, d);
                    grown_bounds(first, d);
                }
                self.visit_items(&object.body, inner, locals);
                proof {
                    grown_trans(first, d, self@);
                }
            },
            SyntaxExpr::With { base, alias, body } => {
                self.visit_expr(base, line, scope, locals);
                let ghost b = self@;
                proof {
                    grown_bounds(first, b);
                }
                let namespace = self.push_namespace();
                let ghost c = self@;
                proof {
                    grown_trans(first, b, c);
                    grown_bounds(first, c);
                }
                let spelled = match alias {
                    Some(alias) => Some(alias.as_str()),
                    None => None,
                };
                let inner = self.enter_body(
                    &BodyScopeSpec {
                        alias: spelled,
                        line,
                        parent: scope,
                        namespace,
                        kind: BodyScopeKind::Dictionary,
                    },
                );
                let ghost d = self@;
                proof {
                    grown_trans(first, c, d);
                    grown_bounds(first, d);
                }
                self.visit_items(body, inner, locals);
                proof {
                    grown_trans(first, d, self@);
                }
            },
            SyntaxExpr::Using { namespace, body } => {
                self.visit_expr(namespace, line, scope, locals);
                let ghost mid = self@;
                proof {
                    grown_bounds(first, mid);
                }
                self.visit_expr(body, line, scope, locals);
                proof {
                    grown_trans(first, mid, self@);
                }
            },
            SyntaxExpr::PathDict(path, value) => {
                self.visit_keys(path, line, scope, locals);
                let ghost mid = self@;
                proof {
                    grown_bounds(first, mid);
                }
                self.visit_expr(value, line, scope, locals);
                proof {
                    grown_trans(first, mid, self@);
                }
            },
            SyntaxExpr::TaggedConstructor(path) => {
                self.visit_keys(path, line, scope, locals);
            },
            SyntaxExpr::DictUnion(items) => {
                self.visit_exprs(items, line, scope, locals);
            },
            SyntaxExpr::List(items) => {
                self.visit_exprs(items, line, scope, locals);
            },
            SyntaxExpr::Tuple(items) => {
                self.visit_exprs(items, line, scope, locals);
            },
            SyntaxExpr::Lambda(params, body) => {
                let base_len = locals.len();
                let ghost kept = locals@;
                self.push_source_locals(params, line, scope, locals);
                let ghost mid = self@;
                let ghost wide = locals@;
                proof {
                    grown_bounds(first, mid);
                }
                self.visit_expr(body, line, scope, locals);
                proof {
                    grown_trans(first, mid, self@);
                }
                truncate_names(locals, base_len);
                assert(locals@ =~= kept);
            },
            SyntaxExpr::Do(block) => {
                self.visit_do_expr(block, scope, locals);
            },
            SyntaxExpr::If(choice) => {
                let base_len = locals.len();
                let ghost kept = locals@;
                let mut unresolved: Vec<String> = Vec::new();
                assert(text::texts(unresolved@) =~= Seq::<Seq<char>>::empty());
                self.visit_guards(&choice.guards, line, scope, locals, &mut unresolved);
                let ghost a = self@;
                proof {
                    grown_bounds(first, a);
                }
                self.visit_expr(&choice.then_result, line, scope, locals);
                let ghost b = self@;
                proof {
                    grown_trans(first, a, b);
                    grown_bounds(first, b);
                }
                truncate_names(locals, base_len);
                assert(locals@ =~= kept);
                self.visit_expr(&choice.else_result, line, scope, locals);
                proof {
                    grown_trans(first, b, self@);
                }
            },
            SyntaxExpr::Match(choice) => {
                self.visit_expr(&choice.subject, line, scope, locals);
                let ghost mid = self@;
                proof {
                    grown_bounds(first, mid);
                }
                self.visit_arms(&choice.arms, scope, locals);
                proof {
                    grown_trans(first, mid, self@);
                }
            },
            SyntaxExpr::MatchWhen(choice) => {
                self.visit_when_arms(&choice.arms, scope, locals);
            },
            SyntaxExpr::Let { bindings, body } => {
                self.visit_bindings(bindings, line, scope, locals);
                let ghost a = self@;
                proof {
                    grown_bounds(first, a);
                }
                let base_len = locals.len();
                let ghost kept = locals@;
                self.push_binding_names(bindings, line, scope, locals);
                let ghost b = self@;
                proof {
                    grown_trans(first, a, b);
                    grown_bounds(first, b);
                }
                self.visit_expr(body, line, scope, locals);
                proof {
                    grown_trans(first, b, self@);
                }
                truncate_names(locals, base_len);
                assert(locals@ =~= kept);
            },
            SyntaxExpr::OperatorSection { operator: _, left, right } => {
                if let Some(left) = left {
                    self.visit_expr(left, line, scope, locals);
                }
                let ghost mid = self@;
                proof {
                    grown_bounds(first, mid);
                }
                if let Some(right) = right {
                    self.visit_expr(right, line, scope, locals);
                    proof {
                        grown_trans(first, mid, self@);
                    }
                }
            },
            SyntaxExpr::ComparisonChain { first: head, rest } => {
                self.visit_expr(head, line, scope, locals);
                let ghost mid = self@;
                proof {
                    grown_bounds(first, mid);
                }
                self.visit_links(rest, line, scope, locals);
                proof {
                    grown_trans(first, mid, self@);
                }
            },
            SyntaxExpr::OperatorApply { operator: _, left, right } => {
                self.visit_expr(left, line, scope, locals);
                let ghost mid = self@;
                proof {
                    grown_bounds(first, mid);
                }
                self.visit_expr(right, line, scope, locals);
                proof {
                    grown_trans(first, mid, self@);
                }
            },
            SyntaxExpr::Apply(left, right) => {
                self.visit_expr(left, line, scope, locals);
                let ghost mid = self@;
                proof {
                    grown_bounds(first, mid);
                }
                self.visit_expr(right, line, scope, locals);
                proof {
                    grown_trans(first, mid, self@);
                }
            },
            SyntaxExpr::Multiply(left, right) => {
                self.visit_expr(left, line, scope, locals);
                let ghost mid = self@;
                proof {
                    grown_bounds(first, mid);
                }
                self.visit_expr(right, line, scope, locals);
                proof {
                    grown_trans(first, mid, self@);
                }
            },
            SyntaxExpr::Divide(left, right) => {
                self.visit_expr(left, line, scope, locals);
                let ghost mid = self@;
                proof {
                    grown_bounds(first, mid);
                }
                self.visit_expr(right, line, scope, locals);
                proof {
                    grown_trans(first, mid, self@);
                }
            },
            SyntaxExpr::Add(left, right) => {
                self.visit_expr(left, line, scope, locals);
                let ghost mid = self@;
                proof {
                    grown_bounds(first, mid);
                }
                self.visit_expr(right, line, scope, locals);
                proof {
                    grown_trans(first, mid, self@);
                }
            },
            SyntaxExpr::Subtract(left, right) => {
                self.visit_expr(left, line, scope, locals);
                let ghost mid = self@;
                proof {
                    grown_bounds(first, mid);
                }
                self.visit_expr(right, line, scope, locals);
                proof {
                    grown_trans(first, mid, self@);
                }
            },
            SyntaxExpr::Append(left, right) => {
                self.visit_expr(left, line, scope, locals);
                let ghost mid = self@;
                proof {
                    grown_bounds(first, mid);
                }
                self.visit_expr(right, line, scope, locals);
                proof {
                    grown_trans(first, mid, self@);
                }
            },
        }
    }

    pub fn visit_do_expr(
        &mut self,
        block: &DoExpr,
        scope: usize,
        locals: &mut Vec<String>,
    )
        requires
            wf(old(self)@),
            scope < old(self)@.scopes.len(),
        ensures
            final(self)@ == ({
                let w = n_steps(
                    start(old(self)@, text::texts(old(locals)@)),
                    block.steps@,
                    scope as nat,
                );
                n_expr(w.names, *block.result, block.result_line as nat, scope as nat, w.locals)
            }),
            grown(old(self)@, final(self)@),
            final(locals)@ == old(locals)@,
        decreases block, 0nat,
    {
        let ghost first = self@;
        let base_len = locals.len();
        let ghost kept = locals@;
        let mut unresolved: Vec<String> = Vec::new();
        assert(text::texts(unresolved@) =~= Seq::<Seq<char>>::empty());
        self.visit_steps(&block.steps, scope, locals, &mut unresolved);
        let ghost mid = self@;
        proof {
            grown_bounds(first, mid);
        }
        self.visit_expr(&block.result, block.result_line, scope, locals);
        proof {
            grown_trans(first, mid, self@);
        }
        truncate_names(locals, base_len);
        assert(locals@ =~= kept);
    }

    pub fn visit_outcome(
        &mut self,
        outcome: &MatchOutcome,
        scope: usize,
        locals: &mut Vec<String>,
    )
        requires
            wf(old(self)@),
            scope < old(self)@.scopes.len(),
        ensures
            final(self)@ == n_outcome(old(self)@, *outcome, scope as nat, text::texts(old(locals)@)),
            grown(old(self)@, final(self)@),
            final(locals)@ == old(locals)@,
        decreases outcome, 0nat,
    {
        match outcome {
            MatchOutcome::Result { line, mode: _, expression } => {
                self.visit_expr(expression, *line, scope, locals);
            },
            MatchOutcome::Nested(arms) => {
                self.visit_when_arms(arms, scope, locals);
            },
        }
    }

    pub fn visit_when_arm(
        &mut self,
        arm: &WhenArm,
        scope: usize,
        locals: &mut Vec<String>,
    )
        requires
            wf(old(self)@),
            scope < old(self)@.scopes.len(),
        ensures
            final(self)@ == n_when_arm(old(self)@, *arm, scope as nat, text::texts(old(locals)@)),
            grown(old(self)@, final(self)@),
            final(locals)@ == old(locals)@,
        decreases arm, 0nat,
    {
        let ghost first = self@;
        let base_len = locals.len();
        let ghost kept = locals@;
        let mut unresolved: Vec<String> = Vec::new();
        assert(text::texts(unresolved@) =~= Seq::<Seq<char>>::empty());
        self.visit_guards(&arm.guards, arm.line, scope, locals, &mut unresolved);
        let ghost mid = self@;
        proof {
            grown_bounds(first, mid);
        }
        self.visit_outcome(&arm.outcome, scope, locals);
        proof {
            grown_trans(first, mid, self@);
        }
        truncate_names(locals, base_len);
        assert(locals@ =~= kept);
    }

    pub fn visit_arm(
        &mut self,
        arm: &MatchArm,
        scope: usize,
        locals: &mut Vec<String>,
    )
        requires
            wf(old(self)@),
            scope < old(self)@.scopes.len(),
        ensures
            final(self)@ == n_arm(old(self)@, *arm, scope as nat, text::texts(old(locals)@)),
            grown(old(self)@, final(self)@),
            final(locals)@ == old(locals)@,
        decreases arm, 0nat,
    {
        let ghost first = self@;
        let base_len = locals.len();
        let ghost kept = locals@;
        let mut unresolved: Vec<String> = Vec::new();
        assert(text::texts(unresolved@) =~= Seq::<Seq<char>>::empty());
        self.visit_pattern(&arm.pattern, arm.line, scope, locals, &mut unresolved);
        let ghost a = self@;
        proof {
            grown_bounds(first, a);
        }
        self.visit_guards(&arm.guards, arm.line, scope, locals, &mut unresolved);
        let ghost mid = self@;
        proof {
            grown_trans(first, a, mid);
            grown_bounds(first, mid);
        }
        self.visit_outcome(&arm.outcome, scope, locals);
        proof {
            grown_trans(first, mid, self@);
        }
        truncate_names(locals, base_len);
        assert(locals@ =~= kept);
    }

    pub fn visit_definition(
        &mut self,
        definition: &DefinitionDecl,
        line: usize,
        scope: usize,
        locals: &mut Vec<String>,
    )
        requires
            wf(old(self)@),
            scope < old(self)@.scopes.len(),
        ensures
            final(self)@ == n_definition(old(self)@, *definition, line as nat, scope as nat, text::texts(old(locals)@)),
            grown(old(self)@, final(self)@),
            final(locals)@ == old(locals)@,
        decreases definition, 0nat,
    {
        let ghost first = self@;
        assert(self@.scopes[scope as int] == self.scopes@[scope as int]@);
        let definitions = self.scopes[scope].definitions;
        self.introduce_definition_path(definitions, &definition.target, line);
        let ghost a = self@;
        proof {
            grown_bounds(first, a);
        }
        self.visit_keys(&definition.target, line, scope, locals);
        let ghost b = self@;
        proof {
            grown_trans(first, a, b);
            grown_bounds(first, b);
        }
        if let Some(expr) = &definition.expr {
            self.visit_expr(expr, line, scope, locals);
            proof {
                grown_trans(first, b, self@);
            }
        }
    }

    pub fn visit_object_declaration(
        &mut self,
        object: &ObjectDecl,
        line: usize,
        scope: usize,
        locals: &mut Vec<String>,
    )
        requires
            wf(old(self)@),
            scope < old(self)@.scopes.len(),
        ensures
            final(self)@ == n_object(old(self)@, *object, line as nat, scope as nat, text::texts(old(locals)@)),
            grown(old(self)@, final(self)@),
            final(locals)@ == old(locals)@,
        decreases object, 0nat,
    {
        let ghost first = self@;
        self.visit_exprs(&object.deps, line, scope, locals);
        let ghost a = self@;
        proof {
            grown_bounds(first, a);
            assert(self@.scopes[scope as int] == self.scopes@[scope as int]@);
        }
        let definitions = self.scopes[scope].definitions;
        let namespace = self.introduce_static_path(definitions, object.target.as_str(), line);
        let ghost b = self@;
        proof {
            grown_trans(first, a, b);
            grown_bounds(first, b);
        }
        let alias = match &object.alias {
            Some(alias) => Some(alias.as_str()),
            None => None,
        };
        let inner = self.enter_body(
            &BodyScopeSpec { alias, line, parent: scope, namespace, kind: BodyScopeKind::Object },
        );
        let ghost c = self@;
        proof {
            grown_trans(first, b, c);
            grown_bounds(first, c);
        }
        self.visit_items(&object.body, inner, locals);
        proof {
            grown_trans(first, c, self@);
        }
    }

    pub fn visit_extend_declaration(
        &mut self,
        extend: &ObjectExtendDecl,
        line: usize,
        scope: usize,
        locals: &mut Vec<String>,
    )
        requires
            wf(old(self)@),
            scope < old(self)@.scopes.len(),
        ensures
            final(self)@ == n_extend(old(self)@, *extend, line as nat, scope as nat, text::texts(old(locals)@)),
            grown(old(self)@, final(self)@),
            final(locals)@ == old(locals)@,
        decreases extend, 0nat,
    {
        let ghost first = self@;
        assert(self@.scopes[scope as int] == self.scopes@[scope as int]@);
        let definitions = self.scopes[scope].definitions;
        let namespace = self.ensure_static_path(definitions, extend.target.as_str());
        let ghost b = self@;
        proof {
            grown_bounds(first, b);
        }
        let alias = match &extend.alias {
            Some(alias) => Some(alias.as_str()),
            None => None,
        };
        let inner = self.enter_body(
            &BodyScopeSpec { alias, line, parent: scope, namespace, kind: BodyScopeKind::Object },
        );
        let ghost c = self@;
        proof {
            grown_trans(first, b, c);
            grown_bounds(first, c);
        }
        self.visit_items(&extend.body, inner, locals);
        proof {
            grown_trans(first, c, self@);
        }
    }

    pub fn visit_item(
        &mut self,
        item: &ObjectBodyDefinition,
        scope: usize,
        locals: &mut Vec<String>,
    )
        requires
            wf(old(self)@),
            scope < old(self)@.scopes.len(),
        ensures
            final(self)@ == n_item(old(self)@, *item, scope as nat, text::texts(old(locals)@)),
            grown(old(self)@, final(self)@),
            final(locals)@ == old(locals)@,
        decreases item, 0nat,
    {
        match &item.kind {
            ObjectBodyDefinitionKind::Definition(definition) => {
                self.visit_definition(definition, item.line, scope, locals);
            },
            ObjectBodyDefinitionKind::Object(object) => {
                self.visit_object_declaration(object, item.line, scope, locals);
            },
            ObjectBodyDefinitionKind::Extend(extend) => {
                self.visit_extend_declaration(extend, item.line, scope, locals);
            },
        }
    }

    pub fn push_source_locals(
        &mut self,
        items: &Vec<String>,
        line: usize,
        scope: usize,
        locals: &mut Vec<String>,
    )
        requires
            wf(old(self)@),
            scope < old(self)@.scopes.len(),
        ensures
            ({
                let w = pushed_all(
                    start(old(self)@, text::texts(old(locals)@)),
                    text::texts(items@),
                    line as nat,
                    scope as nat,
                );
                &&& final(self)@ == w.names
                &&& text::texts(final(locals)@) == w.locals
            }),
            grown(old(self)@, final(self)@),
            old(locals)@.is_prefix_of(final(locals)@),
    {
        let ghost first = self@;
        let ghost all = text::texts(items@);
        let ghost begin = start(first, text::texts(locals@));
        let mut k: usize = 0;
        assert(all.take(0) =~= Seq::empty());
        proof {
            grown_same(first);
        }
        while k < items.len()
            invariant
                k <= items.len(),
                scope < first.scopes.len(),
                first == old(self)@,
                all == text::texts(items@),
                begin == start(first, text::texts(old(locals)@)),
                grown(first, self@),
                old(locals)@.is_prefix_of(locals@),
                ({
                    let w = pushed_all(begin, all.take(k as int), line as nat, scope as nat);
                    &&& self@ == w.names
                    &&& text::texts(locals@) == w.locals
                }),
            decreases items.len() - k,
        {
            let ghost before = self@;
            let ghost had = locals@;
            proof {
                grown_bounds(first, before);
                assert(all.take(k + 1).drop_last() =~= all.take(k as int));
                assert(all.take(k + 1).last() == items@[k as int]@);
            }
            self.push_source_local(items[k].as_str(), line, scope, locals);
            proof {
                grown_trans(first, before, self@);
            }
            k = k + 1;
        }
        assert(all.take(items.len() as int) =~= all);
    }

    pub fn push_binding_names(
        &mut self,
        items: &Vec<(String, SyntaxExpr)>,
        line: usize,
        scope: usize,
        locals: &mut Vec<String>,
    )
        requires
            wf(old(self)@),
            scope < old(self)@.scopes.len(),
        ensures
            ({
                let w = pushed_all(
                    start(old(self)@, text::texts(old(locals)@)),
                    analysis::binding_names(items@),
                    line as nat,
                    scope as nat,
                );
                &&& final(self)@ == w.names
                &&& text::texts(final(locals)@) == w.locals
            }),
            grown(old(self)@, final(self)@),
            old(locals)@.is_prefix_of(final(locals)@),
    {
        let ghost first = self@;
        let ghost all = analysis::binding_names(items@);
        let ghost begin = start(first, text::texts(locals@));
        let mut k: usize = 0;
        assert(all.take(0) =~= Seq::empty());
        proof {
            grown_same(first);
        }
        while k < items.len()
            invariant
                k <= items.len(),
                scope < first.scopes.len(),
                first == old(self)@,
                all == analysis::binding_names(items@),
                begin == start(first, text::texts(old(locals)@)),
                grown(first, self@),
                old(locals)@.is_prefix_of(locals@),
                ({
                    let w = pushed_all(begin, all.take(k as int), line as nat, scope as nat);
                    &&& self@ == w.names
                    &&& text::texts(locals@) == w.locals
                }),
            decreases items.len() - k,
        {
            let ghost before = self@;
            let ghost had = locals@;
            proof {
                grown_bounds(first, before);
                assert(all.take(k + 1).drop_last() =~= all.take(k as int));
                assert(all.take(k + 1).last() == items@[k as int].0@);
            }
            self.push_source_local(items[k].0.as_str(), line, scope, locals);
            proof {
                grown_trans(first, before, self@);
            }
            k = k + 1;
        }
        assert(all.take(items.len() as int) =~= all);
    }

    pub fn visit_patterns(
        &mut self,
        items: &Vec<SyntaxPattern>,
        line: usize,
        scope: usize,
        locals: &mut Vec<String>,
        unresolved: &mut Vec<String>,
    )
        requires
            wf(old(self)@),
            scope < old(self)@.scopes.len(),
        ensures
            walk_of(final(self)@, final(locals)@, final(unresolved)@) == n_patterns(walk_of(old(self)@, old(locals)@, old(unresolved)@), items@, line as nat, scope as nat),
            grown(old(self)@, final(self)@),
            old(locals)@.is_prefix_of(final(locals)@),
        decreases items, 0nat,
    {
        let ghost first = self@;
        let ghost begin = walk_of(self@, locals@, unresolved@);
        let mut k: usize = 0;
        assert(items@.take(0) =~= Seq::empty());
        proof {
            grown_same(first);
        }
        while k < items.len()
            invariant
                k <= items.len(),
                scope < first.scopes.len(),
                first == old(self)@,
                begin == walk_of(old(self)@, old(locals)@, old(unresolved)@),
                grown(first, self@),
                old(locals)@.is_prefix_of(locals@),
                walk_of(self@, locals@, unresolved@) == n_patterns(
                    begin,
                    items@.take(k as int),
                    line as nat, scope as nat,
                ),
            decreases items.len() - k,
        {
            let ghost before = self@;
            proof {
                grown_bounds(first, before);
                assert(items@.take(k + 1).drop_last() =~= items@.take(k as int));
                assert(items@.take(k + 1).last() == items@[k as int]);
            }
            self.visit_pattern(&items[k], line, scope, locals, unresolved);
            proof {
                grown_trans(first, before, self@);
            }
            k = k + 1;
        }
        assert(items@.take(items.len() as int) =~= items@);
    }

    pub fn visit_guards(
        &mut self,
        items: &Vec<SyntaxGuardClause>,
        line: usize,
        scope: usize,
        locals: &mut Vec<String>,
        unresolved: &mut Vec<String>,
    )
        requires
            wf(old(self)@),
            scope < old(self)@.scopes.len(),
        ensures
            walk_of(final(self)@, final(locals)@, final(unresolved)@) == n_guards(walk_of(old(self)@, old(locals)@, old(unresolved)@), items@, line as nat, scope as nat),
            grown(old(self)@, final(self)@),
            old(locals)@.is_prefix_of(final(locals)@),
        decreases items, 0nat,
    {
        let ghost first = self@;
        let ghost begin = walk_of(self@, locals@, unresolved@);
        let mut k: usize = 0;
        assert(items@.take(0) =~= Seq::empty());
        proof {
            grown_same(first);
        }
        while k < items.len()
            invariant
                k <= items.len(),
                scope < first.scopes.len(),
                first == old(self)@,
                begin == walk_of(old(self)@, old(locals)@, old(unresolved)@),
                grown(first, self@),
                old(locals)@.is_prefix_of(locals@),
                walk_of(self@, locals@, unresolved@) == n_guards(
                    begin,
                    items@.take(k as int),
                    line as nat, scope as nat,
                ),
            decreases items.len() - k,
        {
            let ghost before = self@;
            proof {
                grown_bounds(first, before);
                assert(items@.take(k + 1).drop_last() =~= items@.take(k as int));
                assert(items@.take(k + 1).last() == items@[k as int]);
            }
            self.visit_guard(&items[k], line, scope, locals, unresolved);
            proof {
                grown_trans(first, before, self@);
            }
            k = k + 1;
        }
        assert(items@.take(items.len() as int) =~= items@);
    }

    pub fn visit_steps(
        &mut self,
        items: &Vec<DoStep>,
        scope: usize,
        locals: &mut Vec<String>,
        unresolved: &mut Vec<String>,
    )
        requires
            wf(old(self)@),
            scope < old(self)@.scopes.len(),
        ensures
            walk_of(final(self)@, final(locals)@, final(unresolved)@) == n_steps(walk_of(old(self)@, old(locals)@, old(unresolved)@), items@, scope as nat),
            grown(old(self)@, final(self)@),
            old(locals)@.is_prefix_of(final(locals)@),
        decreases items, 0nat,
    {
        let ghost first = self@;
        let ghost begin = walk_of(self@, locals@, unresolved@);
        let mut k: usize = 0;
        assert(items@.take(0) =~= Seq::empty());
        proof {
            grown_same(first);
        }
        while k < items.len()
            invariant
                k <= items.len(),
                scope < first.scopes.len(),
                first == old(self)@,
                begin == walk_of(old(self)@, old(locals)@, old(unresolved)@),
                grown(first, self@),
                old(locals)@.is_prefix_of(locals@),
                walk_of(self@, locals@, unresolved@) == n_steps(
                    begin,
                    items@.take(k as int),
                    scope as nat,
                ),
            decreases items.len() - k,
        {
            let ghost before = self@;
            proof {
                grown_bounds(first, before);
                assert(items@.take(k + 1).drop_last() =~= items@.take(k as int));
                assert(items@.take(k + 1).last() == items@[k as int]);
            }
            self.visit_step(&items[k], scope, locals, unresolved);
            proof {
                grown_trans(first, before, self@);
            }
            k = k + 1;
        }
        assert(items@.take(items.len() as int) =~= items@);
    }

    pub fn visit_entries(
        &mut self,
        items: &Vec<SyntaxDictPatternEntry>,
        line: usize,
        scope: usize,
        locals: &mut Vec<String>,
        unresolved: &mut Vec<String>,
    )
        requires
            wf(old(self)@),
            scope < old(self)@.scopes.len(),
        ensures
            walk_of(final(self)@, final(locals)@, final(unresolved)@) == n_entries(walk_of(old(self)@, old(locals)@, old(unresolved)@), items@, line as nat, scope as nat),
            grown(old(self)@, final(self)@),
            old(locals)@.is_prefix_of(final(locals)@),
        decreases items, 0nat,
    {
        let ghost first = self@;
        let ghost begin = walk_of(self@, locals@, unresolved@);
        let mut k: usize = 0;
        assert(items@.take(0) =~= Seq::empty());
        proof {
            grown_same(first);
        }
        while k < items.len()
            invariant
                k <= items.len(),
                scope < first.scopes.len(),
                first == old(self)@,
                begin == walk_of(old(self)@, old(locals)@, old(unresolved)@),
                grown(first, self@),
                old(locals)@.is_prefix_of(locals@),
                walk_of(self@, locals@, unresolved@) == n_entries(
                    begin,
                    items@.take(k as int),
                    line as nat, scope as nat,
                ),
            decreases items.len() - k,
        {
            let ghost before = self@;
            proof {
                grown_bounds(first, before);
                assert(items@.take(k + 1).drop_last() =~= items@.take(k as int));
                assert(items@.take(k + 1).last() == items@[k as int]);
            }
            self.visit_keys(&items[k].path, line, scope, locals);
            let ghost mid = self@;
            proof {
                grown_bounds(before, mid);
            }
            self.visit_pattern(&items[k].pattern, line, scope, locals, unresolved);
            proof {
                grown_trans(before, mid, self@);
            }
            proof {
                grown_trans(first, before, self@);
            }
            k = k + 1;
        }
        assert(items@.take(items.len() as int) =~= items@);
    }

    pub fn visit_pattern(
        &mut self,
        pattern: &SyntaxPattern,
        line: usize,
        scope: usize,
        locals: &mut Vec<String>,
        unresolved: &mut Vec<String>,
    )
        requires
            wf(old(self)@),
            scope < old(self)@.scopes.len(),
        ensures
            walk_of(final(self)@, final(locals)@, final(unresolved)@) == n_pattern(walk_of(old(self)@, old(locals)@, old(unresolved)@), *pattern, line as nat, scope as nat),
            grown(old(self)@, final(self)@),
            old(locals)@.is_prefix_of(final(locals)@),
        decreases pattern, 0nat,
    {
        let ghost first = self@;
        proof {
            grown_same(first);
        }
        match &pattern.kind {
            SyntaxPatternKind::Capture(name) => {
                if !fulfills_abstract(name.as_str(), unresolved) {
                    self.push_source_local(name.as_str(), line, scope, locals);
                }
            },
            SyntaxPatternKind::Wildcard => {},
            SyntaxPatternKind::Literal(_) => {},
            SyntaxPatternKind::List { prefix, middle, suffix } => {
                self.visit_patterns(prefix, line, scope, locals, unresolved);
                let ghost a = self@;
                proof {
                    grown_bounds(first, a);
                }
                if let Some(inner) = middle {
                    self.visit_pattern(inner, line, scope, locals, unresolved);
                    proof {
                        grown_trans(first, a, self@);
                    }
                }
                let ghost b = self@;
                proof {
                    grown_bounds(first, b);
                }
                self.visit_patterns(suffix, line, scope, locals, unresolved);
                proof {
                    grown_trans(first, b, self@);
                }
            },
            SyntaxPatternKind::Dict { entries, remainder } => {
                self.visit_entries(entries, line, scope, locals, unresolved);
                let ghost a = self@;
                proof {
                    grown_bounds(first, a);
                }
                if let Some(inner) = remainder {
                    self.visit_pattern(inner, line, scope, locals, unresolved);
                    proof {
                        grown_trans(first, a, self@);
                    }
                }
            },
            SyntaxPatternKind::QuotedPath(path) => {
                self.visit_keys(path, line, scope, locals);
            },
            SyntaxPatternKind::Group(inner) => {
                self.visit_pattern(inner, line, scope, locals, unresolved);
            },
            SyntaxPatternKind::As(left, right) => {
                self.visit_pattern(left, line, scope, locals, unresolved);
                let ghost mid = self@;
                proof {
                    grown_bounds(first, mid);
                }
                self.visit_pattern(right, line, scope, locals, unresolved);
                proof {
                    grown_trans(first, mid, self@);
                }
            },
            SyntaxPatternKind::View { view, pattern } => {
                self.visit_expr(view, line, scope, locals);
                let ghost mid = self@;
                proof {
                    grown_bounds(first, mid);
                }
                self.visit_pattern(pattern, line, scope, locals, unresolved);
                proof {
                    grown_trans(first, mid, self@);
                }
            },
            SyntaxPatternKind::Predicate { predicate, pattern } => {
                self.visit_expr(predicate, line, scope, locals);
                let ghost mid = self@;
                proof {
                    grown_bounds(first, mid);
                }
                self.visit_pattern(pattern, line, scope, locals, unresolved);
                proof {
                    grown_trans(first, mid, self@);
                }
            },
            SyntaxPatternKind::Guarded { pattern, guards } => {
                self.visit_pattern(pattern, line, scope, locals, unresolved);
                let ghost mid = self@;
                proof {
                    grown_bounds(first, mid);
                }
                self.visit_guards(guards, line, scope, locals, unresolved);
                proof {
                    grown_trans(first, mid, self@);
                }
            },
        }
    }

    pub fn visit_guard(
        &mut self,
        guard: &SyntaxGuardClause,
        line: usize,
        scope: usize,
        locals: &mut Vec<String>,
        unresolved: &mut Vec<String>,
    )
        requires
            wf(old(self)@),
            scope < old(self)@.scopes.len(),
        ensures
            walk_of(final(self)@, final(locals)@, final(unresolved)@) == n_guard(walk_of(old(self)@, old(locals)@, old(unresolved)@), *guard, line as nat, scope as nat),
            grown(old(self)@, final(self)@),
            old(locals)@.is_prefix_of(final(locals)@),
        decreases guard, 0nat,
    {
        let ghost first = self@;
        proof {
            grown_same(first);
        }
        match guard {
            SyntaxGuardClause::Pass => {},
            SyntaxGuardClause::Effect(expr) => {
                self.visit_expr(expr, line, scope, locals);
            },
            SyntaxGuardClause::EffectBind { pattern, operation } => {
                self.visit_expr(operation, line, scope, locals);
                let ghost mid = self@;
                proof {
                    grown_bounds(first, mid);
                }
                self.visit_pattern(pattern, line, scope, locals, unresolved);
                proof {
                    grown_trans(first, mid, self@);
                }
            },
            SyntaxGuardClause::ValueBind { pattern, value } => {
                self.visit_expr(value, line, scope, locals);
                let ghost mid = self@;
                proof {
                    grown_bounds(first, mid);
                }
                self.visit_pattern(pattern, line, scope, locals, unresolved);
                proof {
                    grown_trans(first, mid, self@);
                }
            },
        }
    }

    pub fn visit_step(
        &mut self,
        step: &DoStep,
        scope: usize,
        locals: &mut Vec<String>,
        unresolved: &mut Vec<String>,
    )
        requires
            wf(old(self)@),
            scope < old(self)@.scopes.len(),
        ensures
            walk_of(final(self)@, final(locals)@, final(unresolved)@) == n_step(walk_of(old(self)@, old(locals)@, old(unresolved)@), *step, scope as nat),
            grown(old(self)@, final(self)@),
            old(locals)@.is_prefix_of(final(locals)@),
        decreases step, 0nat,
    {
        let ghost first = self@;
        match &step.kind {
            DoStepKind::Abstract(raws) => {
                self.declare_locals(raws, step.line, scope, locals, unresolved);
            },
            DoStepKind::Bind { pattern, operation } => {
                self.visit_expr(operation, step.line, scope, locals);
                let ghost mid = self@;
                proof {
                    grown_bounds(first, mid);
                }
                self.visit_pattern(pattern, step.line, scope, locals, unresolved);
                proof {
                    grown_trans(first, mid, self@);
                }
            },
            DoStepKind::ValueBind { pattern, value } => {
                self.visit_expr(value, step.line, scope, locals);
                let ghost mid = self@;
                proof {
                    grown_bounds(first, mid);
                }
                self.visit_pattern(pattern, step.line, scope, locals, unresolved);
                proof {
                    grown_trans(first, mid, self@);
                }
            },
            DoStepKind::Then(expr) => {
                self.visit_expr(expr, step.line, scope, locals);
            },
        }
    }

    /// Declares abstract names, which later captures may fulfil.
    pub fn declare_locals(
        &mut self,
        items: &Vec<String>,
        line: usize,
        scope: usize,
        locals: &mut Vec<String>,
        unresolved: &mut Vec<String>,
    )
        requires
            wf(old(self)@),
            scope < old(self)@.scopes.len(),
        ensures
            walk_of(final(self)@, final(locals)@, final(unresolved)@) == declared_all(
                walk_of(old(self)@, old(locals)@, old(unresolved)@),
                text::texts(items@),
                line as nat,
                scope as nat,
            ),
            grown(old(self)@, final(self)@),
            old(locals)@.is_prefix_of(final(locals)@),
    {
        let ghost first = self@;
        let ghost all = text::texts(items@);
        let ghost begin = walk_of(self@, locals@, unresolved@);
        let mut k: usize = 0;
        assert(all.take(0) =~= Seq::empty());
        proof {
            grown_same(first);
        }
        while k < items.len()
            invariant
                k <= items.len(),
                scope < first.scopes.len(),
                first == old(self)@,
                all == text::texts(items@),
                begin == walk_of(old(self)@, old(locals)@, old(unresolved)@),
                grown(first, self@),
                old(locals)@.is_prefix_of(locals@),
                walk_of(self@, locals@, unresolved@) == declared_all(
                    begin,
                    all.take(k as int),
                    line as nat,
                    scope as nat,
                ),
            decreases items.len() - k,
        {
            let ghost before = self@;
            let ghost had = unresolved@;
            proof {
                grown_bounds(first, before);
                assert(all.take(k + 1).drop_last() =~= all.take(k as int));
                assert(all.take(k + 1).last() == items@[k as int]@);
            }
            if let Some(name) = self.push_source_local(items[k].as_str(), line, scope, locals) {
                let ghost canonical = name@;
                unresolved.push(name);
                assert(text::texts(unresolved@) =~= text::texts(had).push(canonical));
            }
            proof {
                grown_trans(first, before, self@);
            }
            k = k + 1;
        }
        assert(all.take(items.len() as int) =~= all);
    }

    fn introduce_paths(&mut self, paths: &Vec<String>, line: usize, scope: usize)
        requires
            wf(old(self)@),
            scope < old(self)@.scopes.len(),
        ensures
            final(self)@ == n_paths(old(self)@, text::texts(paths@), line as nat, scope as nat),
            grown(old(self)@, final(self)@),
    {
        let ghost first = self@;
        let ghost all = text::texts(paths@);
        let mut k: usize = 0;
        assert(all.take(0) =~= Seq::empty());
        proof {
            grown_same(first);
        }
        while k < paths.len()
            invariant
                k <= paths.len(),
                scope < first.scopes.len(),
                first == old(self)@,
                all == text::texts(paths@),
                grown(first, self@),
                self@ == n_paths(first, all.take(k as int), line as nat, scope as nat),
            decreases paths.len() - k,
        {
            let ghost before = self@;
            proof {
                grown_bounds(first, before);
                assert(all.take(k + 1).drop_last() =~= all.take(k as int));
                assert(all.take(k + 1).last() == paths@[k as int]@);
                assert(self@.scopes[scope as int] == self.scopes@[scope as int]@);
            }
            let definitions = self.scopes[scope].definitions;
            self.introduce_static_path(definitions, paths[k].as_str(), line);
            proof {
                grown_trans(first, before, self@);
            }
            k = k + 1;
        }
        assert(all.take(paths.len() as int) =~= all);
    }

    pub fn visit_declaration(&mut self, declaration: &Declaration, scope: usize)
        requires
            wf(old(self)@),
            scope < old(self)@.scopes.len(),
        ensures
            final(self)@ == n_declaration(old(self)@, *declaration, scope as nat),
            grown(old(self)@, final(self)@),
    {
        let line = declaration.line;
        let mut locals: Vec<String> = Vec::new();
        assert(text::texts(locals@) =~= Seq::<Seq<char>>::empty());
        proof {
            grown_same(self@);
        }
        match &declaration.kind {
            DeclarationKind::Import(import) => {
                if let ImportPlacement::As(target) = &import.placement {
                    assert(self@.scopes[scope as int] == self.scopes@[scope as int]@);
                    let definitions = self.scopes[scope].definitions;
                    proof {
                        reveal_with_fuel(n_paths, 2);
                        assert(seq![target@].drop_last() =~= Seq::<Seq<char>>::empty());
                    }
                    self.introduce_static_path(definitions, target.as_str(), line);
                }
            },
            DeclarationKind::Abstract(paths) => {
                self.introduce_paths(paths, line, scope);
            },
            DeclarationKind::Unique(paths) => {
                self.introduce_paths(paths, line, scope);
            },
            DeclarationKind::Object(object) => {
                self.visit_object_declaration(object, line, scope, &mut locals);
            },
            DeclarationKind::Extend(extend) => {
                self.visit_extend_declaration(extend, line, scope, &mut locals);
            },
            DeclarationKind::Definition(definition) => {
                self.visit_definition(definition, line, scope, &mut locals);
            },
            DeclarationKind::Language(_) => {},
            DeclarationKind::Unknown => {},
        }
    }

    fn introduction_line(&self, visible: &Vec<usize>, name: &str) -> (line: Option<usize>)
        requires
            forall|j: int| 0 <= j < visible@.len() ==> #[trigger] visible@[j] < self@.spaces.len(),
        ensures
            match line {
                Some(line) => introduction(self@, ids(visible@), name@) == Some(line as nat),
                None => introduction(self@, ids(visible@), name@) is None,
            },
    {
        let ghost all = ids(visible@);
        let mut k: usize = 0;
        assert(all.skip(0) =~= all);
        while k < visible.len()
            invariant
                k <= visible.len(),
                all == ids(visible@),
                forall|j: int|
                    0 <= j < visible@.len() ==> #[trigger] visible@[j] < self@.spaces.len(),
                introduction(self@, all, name@) == introduction(self@, all.skip(k as int), name@),
            decreases visible.len() - k,
        {
            assert(all.skip(k as int).skip(1) =~= all.skip(k + 1));
            assert(all.skip(k as int)[0] == visible@[k as int]);
            assert(self@.spaces[visible@[k as int] as int] == self.namespaces@[visible@[k as int] as int]@);
            if let Some(line) = self.namespaces[visible[k]].introduced.get(name) {
                return Some(line);
            }
            k = k + 1;
        }
        None
    }

    fn use_line(&self, visible: &Vec<usize>, name: &str) -> (line: Option<usize>)
        requires
            forall|j: int| 0 <= j < visible@.len() ==> #[trigger] visible@[j] < self@.spaces.len(),
        ensures
            match line {
                Some(line) => first_use(self@, ids(visible@), name@) == Some(line as nat),
                None => first_use(self@, ids(visible@), name@) is None,
            },
    {
        let ghost all = ids(visible@);
        let mut k: usize = 0;
        assert(all.skip(0) =~= all);
        while k < visible.len()
            invariant
                k <= visible.len(),
                all == ids(visible@),
                forall|j: int|
                    0 <= j < visible@.len() ==> #[trigger] visible@[j] < self@.spaces.len(),
                first_use(self@, all, name@) == first_use(self@, all.skip(k as int), name@),
            decreases visible.len() - k,
        {
            assert(all.skip(k as int).skip(1) =~= all.skip(k + 1));
            assert(all.skip(k as int)[0] == visible@[k as int]);
            assert(self@.spaces[visible@[k as int] as int] == self.namespaces@[visible@[k as int] as int]@);
            if let Some(line) = self.namespaces[visible[k]].used.get(name) {
                return Some(line);
            }
            k = k + 1;
        }
        None
    }

    /// Reports every local that conflicts with a name of a visible namespace.
    pub fn finish(&self) -> (diagnostics: Vec<Diagnostic>)
        requires
            wf(self@),
        ensures
            diagnostic::reports(diagnostics@) == conflicts(self@, self@.binders),
    {
        let mut diagnostics: Vec<Diagnostic> = Vec::new();
        let ghost all = self@.binders;
        let mut k: usize = 0;
        assert(all.take(0) =~= Seq::empty());
        assert(diagnostic::reports(diagnostics@) =~= Seq::empty());
        while k < self.binders.len()
            invariant
                k <= self.binders.len(),
                wf(self@),
                all == self@.binders,
                diagnostic::reports(diagnostics@) == conflicts(self@, all.take(k as int)),
            decreases self.binders.len() - k,
        {
            let binder = &self.binders[k];
            proof {
                assert(all.take(k + 1).drop_last() =~= all.take(k as int));
                assert(all.take(k + 1).last() == binder@);
                assert(all[k as int] == binder@);
                assert(binder@.visible =~= ids(binder.visible_namespaces@));
                assert forall|j: int| 0 <= j < binder.visible_namespaces@.len() implies
                    #[trigger] binder.visible_namespaces@[j] < self@.spaces.len() by {
                    assert(self@.binders[k as int].visible[j] < self@.spaces.len());
                }
            }
            let ghost had = diagnostic::reports(diagnostics@);
            match self.introduction_line(&binder.visible_namespaces, binder.canonical.as_str()) {
                Some(line) => {
                    let message = conflict_message(
                        binder.raw.as_str(),
                        binder.canonical.as_str(),
                        "` defined on line ",
                        line,
                    );
                    report(&mut diagnostics, Diagnostic::error(binder.line, message.as_str()));
                    assert(diagnostic::reports(diagnostics@) =~= had + conflict(self@, binder@));
                },
                None => {
                    match self.use_line(&binder.visible_namespaces, binder.canonical.as_str()) {
                        Some(line) => {
                            let message = conflict_message(
                                binder.raw.as_str(),
                                binder.canonical.as_str(),
                                "` used by this file on line ",
                                line,
                            );
                            report(
                                &mut diagnostics,
                                Diagnostic::error(binder.line, message.as_str()),
                            );
                            assert(diagnostic::reports(diagnostics@) =~= had + conflict(
                                self@,
                                binder@,
                            ));
                        },
                        None => {
                            assert(had =~= had + conflict(self@, binder@));
                        },
                    }
                },
            }
            k = k + 1;
        }
        assert(all.take(self.binders.len() as int) =~= all);
        diagnostics
    }

    /// Visits every declaration of a file and reports its conflicts.
    pub fn analyze(declarations: &Vec<Declaration>) -> (diagnostics: Vec<Diagnostic>)
        ensures
            ({
                let n = n_file(declarations@);
                diagnostic::reports(diagnostics@) == conflicts(n, n.binders)
            }),
    {
        let mut names = FileNameAnalysis::new();
        let mut k: usize = 0;
        assert(declarations@.take(0) =~= Seq::empty());
        while k < declarations.len()
            invariant
                k <= declarations.len(),
                wf(names@),
                0 < names@.scopes.len(),
                names@ == n_file(declarations@.take(k as int)),
            decreases declarations.len() - k,
        {
            assert(declarations@.take(k + 1).drop_last() =~= declarations@.take(k as int));
            assert(declarations@.take(k + 1).last() == declarations@[k as int]);
            let ghost before = names@;
            names.visit_declaration(&declarations[k], 0);
            proof {
                grown_bounds(before, names@);
            }
            k = k + 1;
        }
        assert(declarations@.take(declarations.len() as int) =~= declarations@);
        names.finish()
    }
}

/// The walk that a state and two scopes make up.
pub open spec fn walk_of(n: Names, locals: Seq<String>, unresolved: Seq<String>) -> Walk {
    Walk { names: n, locals: text::texts(locals), unresolved: text::texts(unresolved) }
}

fn conflict_message(raw: &str, canonical: &str, what: &str, line: usize) -> (message: String)
    ensures
        message@ == "local `"@ + raw@ + "` shadows external `"@ + canonical@ + what@
            + text::decimal(line as nat),
{
    let mut message = "local `".to_owned();
    message.append(raw);
    message.append("` shadows external `");
    message.append(canonical);
    message.append(what);
    push_decimal(&mut message, line);
    message
}

/// Reports the locals of a file that shadow a name which a namespace around
/// them introduces, or which the file uses from it.
pub fn check_file_global_local_shadowing(declarations: &Vec<Declaration>) -> (diagnostics: Vec<
    Diagnostic,
>)
    ensures
        ({
            let n = n_file(declarations@);
            diagnostic::reports(diagnostics@) == conflicts(n, n.binders)
        }),
{
    FileNameAnalysis::analyze(declarations)
}

proof fn pushed_grows(w: Walk, raw: Seq<char>, line: nat, scope: nat)
    requires
        wf(w.names),
        scope < w.names.scopes.len(),
    ensures
        grown(w.names, pushed(w, raw, line, scope).names),
{
    grown_same(w.names);
    if let Some(canonical) = names::canonical_name(raw) {
        bound_grows(w.names, raw, canonical, line, scope);
    }
}

proof fn pushed_all_grows(w: Walk, raws: Seq<Seq<char>>, line: nat, scope: nat)
    requires
        wf(w.names),
        scope < w.names.scopes.len(),
    ensures
        grown(w.names, pushed_all(w, raws, line, scope).names),
    decreases raws.len(),
{
    grown_same(w.names);
    if raws.len() > 0 {
        pushed_all_grows(w, raws.drop_last(), line, scope);
        let mid = pushed_all(w, raws.drop_last(), line, scope);
        grown_bounds(w.names, mid.names);
        pushed_grows(mid, raws.last(), line, scope);
        grown_trans(w.names, mid.names, pushed(mid, raws.last(), line, scope).names);
    }
}

proof fn declared_all_grows(w: Walk, raws: Seq<Seq<char>>, line: nat, scope: nat)
    requires
        wf(w.names),
        scope < w.names.scopes.len(),
    ensures
        grown(w.names, declared_all(w, raws, line, scope).names),
    decreases raws.len(),
{
    grown_same(w.names);
    if raws.len() > 0 {
        declared_all_grows(w, raws.drop_last(), line, scope);
        let mid = declared_all(w, raws.drop_last(), line, scope);
        grown_bounds(w.names, mid.names);
        pushed_grows(mid, raws.last(), line, scope);
        grown_trans(w.names, mid.names, pushed(mid, raws.last(), line, scope).names);
    }
}

proof fn introduced_path_grows(n: Names, first: nat, path: Seq<Seq<char>>, line: nat)
    requires
        wf(n),
        first < n.spaces.len(),
    ensures
        grown(n, introduced_path(n, first, path, line).0),
        introduced_path(n, first, path, line).1 < introduced_path(n, first, path, line).0.spaces.len(),
    decreases path.len(),
{
    grown_same(n);
    if path.len() > 0 {
        introduced_path_grows(n, first, path.drop_last(), line);
        let (mid, space) = introduced_path(n, first, path.drop_last(), line);
        grown_bounds(n, mid);
        introduced_grows(mid, space, path.last(), line);
        grown_trans(n, mid, introduced(mid, space, path.last(), line).0);
    }
}

proof fn ensured_path_grows(n: Names, first: nat, path: Seq<Seq<char>>)
    requires
        wf(n),
        first < n.spaces.len(),
    ensures
        grown(n, ensured_path(n, first, path).0),
        ensured_path(n, first, path).1 < ensured_path(n, first, path).0.spaces.len(),
    decreases path.len(),
{
    grown_same(n);
    if path.len() > 0 {
        ensured_path_grows(n, first, path.drop_last());
        let (mid, space) = ensured_path(n, first, path.drop_last());
        grown_bounds(n, mid);
        child_grows(mid, space, path.last());
        grown_trans(n, mid, child_of(mid, space, path.last()).0);
    }
}

proof fn entered_grows(
    n: Names,
    alias: Option<Seq<char>>,
    line: nat,
    parent: nat,
    space: nat,
    kind: BodyScopeKind,
)
    requires
        wf(n),
        parent < n.scopes.len(),
        space < n.spaces.len(),
    ensures
        grown(n, entered(n, alias, line, parent, space, kind)),
        n.scopes.len() < entered(n, alias, line, parent, space, kind).scopes.len(),
{
    let canonical = match alias {
        Some(raw) => names::canonical_name(raw),
        None => None,
    };
    let lookup = if kind == BodyScopeKind::Object && canonical is None {
        space
    } else if kind == BodyScopeKind::Dictionary && canonical == Some("self"@) {
        space
    } else {
        n.scopes[parent as int].lookup
    };
    let scope = Scope { definitions: space, lookup, alias: canonical, parent: Some(parent) };
    let opened = Names { scopes: n.scopes.push(scope), ..n };
    scope_grows(n, scope);
    grown_bounds(n, opened);
    if let Some(name) = canonical {
        bound_grows(opened, alias->0, name, line, n.scopes.len());
        grown_trans(n, opened, entered(n, alias, line, parent, space, kind));
    }
}

proof fn keys_grow(
    n: Names,
    x: Seq<SyntaxKeyExpr>,
    line: nat,
    scope: nat,
    locals: Seq<Seq<char>>,
)
    requires
        wf(n),
        scope < n.scopes.len(),
    ensures
        grown(n, n_keys(n, x, line, scope, locals)),
    decreases x,
{
    grown_same(n);
    if x.len() > 0 {
        keys_grow(n, x.drop_last(), line, scope, locals);
        let mid = n_keys(n, x.drop_last(), line, scope, locals);
        grown_bounds(n, mid);
        key_grows(mid, x.last(), line, scope, locals);
        grown_trans(n, mid, n_keys(n, x, line, scope, locals));
    }
}

proof fn exprs_grow(
    n: Names,
    x: Seq<SyntaxExpr>,
    line: nat,
    scope: nat,
    locals: Seq<Seq<char>>,
)
    requires
        wf(n),
        scope < n.scopes.len(),
    ensures
        grown(n, n_exprs(n, x, line, scope, locals)),
    decreases x,
{
    grown_same(n);
    if x.len() > 0 {
        exprs_grow(n, x.drop_last(), line, scope, locals);
        let mid = n_exprs(n, x.drop_last(), line, scope, locals);
        grown_bounds(n, mid);
        expr_grows(mid, x.last(), line, scope, locals);
        grown_trans(n, mid, n_exprs(n, x, line, scope, locals));
    }
}

proof fn bindings_grow(
    n: Names,
    x: Seq<(String, SyntaxExpr)>,
    line: nat,
    scope: nat,
    locals: Seq<Seq<char>>,
)
    requires
        wf(n),
        scope < n.scopes.len(),
    ensures
        grown(n, n_bindings(n, x, line, scope, locals)),
    decreases x,
{
    grown_same(n);
    if x.len() > 0 {
        bindings_grow(n, x.drop_last(), line, scope, locals);
        let mid = n_bindings(n, x.drop_last(), line, scope, locals);
        grown_bounds(n, mid);
        expr_grows(mid, x.last().1, line, scope, locals);
        grown_trans(n, mid, n_bindings(n, x, line, scope, locals));
    }
}

proof fn links_grow(
    n: Names,
    x: Seq<(SyntaxOperator, SyntaxExpr)>,
    line: nat,
    scope: nat,
    locals: Seq<Seq<char>>,
)
    requires
        wf(n),
        scope < n.scopes.len(),
    ensures
        grown(n, n_links(n, x, line, scope, locals)),
    decreases x,
{
    grown_same(n);
    if x.len() > 0 {
        links_grow(n, x.drop_last(), line, scope, locals);
        let mid = n_links(n, x.drop_last(), line, scope, locals);
        grown_bounds(n, mid);
        expr_grows(mid, x.last().1, line, scope, locals);
        grown_trans(n, mid, n_links(n, x, line, scope, locals));
    }
}

proof fn items_grow(
    n: Names,
    x: Seq<ObjectBodyDefinition>,
    scope: nat,
    locals: Seq<Seq<char>>,
)
    requires
        wf(n),
        scope < n.scopes.len(),
    ensures
        grown(n, n_items(n, x, scope, locals)),
    decreases x,
{
    grown_same(n);
    if x.len() > 0 {
        items_grow(n, x.drop_last(), scope, locals);
        let mid = n_items(n, x.drop_last(), scope, locals);
        grown_bounds(n, mid);
        item_grows(mid, x.last(), scope, locals);
        grown_trans(n, mid, n_items(n, x, scope, locals));
    }
}

proof fn when_arms_grow(
    n: Names,
    x: Seq<WhenArm>,
    scope: nat,
    locals: Seq<Seq<char>>,
)
    requires
        wf(n),
        scope < n.scopes.len(),
    ensures
        grown(n, n_when_arms(n, x, scope, locals)),
    decreases x,
{
    grown_same(n);
    if x.len() > 0 {
        when_arms_grow(n, x.drop_last(), scope, locals);
        let mid = n_when_arms(n, x.drop_last(), scope, locals);
        grown_bounds(n, mid);
        when_arm_grows(mid, x.last(), scope, locals);
        grown_trans(n, mid, n_when_arms(n, x, scope, locals));
    }
}

proof fn arms_grow(
    n: Names,
    x: Seq<MatchArm>,
    scope: nat,
    locals: Seq<Seq<char>>,
)
    requires
        wf(n),
        scope < n.scopes.len(),
    ensures
        grown(n, n_arms(n, x, scope, locals)),
    decreases x,
{
    grown_same(n);
    if x.len() > 0 {
        arms_grow(n, x.drop_last(), scope, locals);
        let mid = n_arms(n, x.drop_last(), scope, locals);
        grown_bounds(n, mid);
        arm_grows(mid, x.last(), scope, locals);
        grown_trans(n, mid, n_arms(n, x, scope, locals));
    }
}

proof fn patterns_grow(
    w: Walk,
    x: Seq<SyntaxPattern>,
    line: nat,
    scope: nat,
)
    requires
        wf(w.names),
        scope < w.names.scopes.len(),
    ensures
        grown(w.names, n_patterns(w, x, line, scope).names),
    decreases x,
{
    let n = w.names;
    grown_same(n);
    if x.len() > 0 {
        patterns_grow(w, x.drop_last(), line, scope);
        let mid = n_patterns(w, x.drop_last(), line, scope);
        grown_bounds(n, mid.names);
        pattern_grows(mid, x.last(), line, scope);
        grown_trans(n, mid.names, n_patterns(w, x, line, scope).names);
    }
}

proof fn guards_grow(
    w: Walk,
    x: Seq<SyntaxGuardClause>,
    line: nat,
    scope: nat,
)
    requires
        wf(w.names),
        scope < w.names.scopes.len(),
    ensures
        grown(w.names, n_guards(w, x, line, scope).names),
    decreases x,
{
    let n = w.names;
    grown_same(n);
    if x.len() > 0 {
        guards_grow(w, x.drop_last(), line, scope);
        let mid = n_guards(w, x.drop_last(), line, scope);
        grown_bounds(n, mid.names);
        guard_grows(mid, x.last(), line, scope);
        grown_trans(n, mid.names, n_guards(w, x, line, scope).names);
    }
}

proof fn steps_grow(
    w: Walk,
    x: Seq<DoStep>,
    scope: nat,
)
    requires
        wf(w.names),
        scope < w.names.scopes.len(),
    ensures
        grown(w.names, n_steps(w, x, scope).names),
    decreases x,
{
    let n = w.names;
    grown_same(n);
    if x.len() > 0 {
        steps_grow(w, x.drop_last(), scope);
        let mid = n_steps(w, x.drop_last(), scope);
        grown_bounds(n, mid.names);
        step_grows(mid, x.last(), scope);
        grown_trans(n, mid.names, n_steps(w, x, scope).names);
    }
}

proof fn entries_grow(
    w: Walk,
    x: Seq<SyntaxDictPatternEntry>,
    line: nat,
    scope: nat,
)
    requires
        wf(w.names),
        scope < w.names.scopes.len(),
    ensures
        grown(w.names, n_entries(w, x, line, scope).names),
    decreases x,
{
    let n = w.names;
    grown_same(n);
    if x.len() > 0 {
        entries_grow(w, x.drop_last(), line, scope);
        let mid = n_entries(w, x.drop_last(), line, scope);
        grown_bounds(n, mid.names);
        keys_grow(mid.names, x.last().path@, line, scope, mid.locals);
        let keyed = looked(mid, n_keys(mid.names, x.last().path@, line, scope, mid.locals));
        grown_bounds(mid.names, keyed.names);
        pattern_grows(keyed, x.last().pattern, line, scope);
        grown_trans(mid.names, keyed.names, n_entries(w, x, line, scope).names);
        grown_trans(n, mid.names, n_entries(w, x, line, scope).names);
    }
}

proof fn key_grows(
    n: Names,
    x: SyntaxKeyExpr,
    line: nat,
    scope: nat,
    locals: Seq<Seq<char>>,
)
    requires
        wf(n),
        scope < n.scopes.len(),
    ensures
        grown(n, n_key(n, x, line, scope, locals)),
    decreases x,
{
    grown_same(n);
    match x {
        SyntaxKeyExpr::Atom(_) => {},
        SyntaxKeyExpr::Index(expr) => {
            expr_grows(n, *expr, line, scope, locals);
        },
        SyntaxKeyExpr::PathIndex(expr) => {
            expr_grows(n, *expr, line, scope, locals);
        },
    }
}

proof fn expr_grows(
    n: Names,
    x: SyntaxExpr,
    line: nat,
    scope: nat,
    locals: Seq<Seq<char>>,
)
    requires
        wf(n),
        scope < n.scopes.len(),
    ensures
        grown(n, n_expr(n, x, line, scope, locals)),
    decreases x,
{
    grown_same(n);
    match x {
        SyntaxExpr::Name(name) => {
            used_grows(n, name@, line, scope, locals);
        },
        SyntaxExpr::Escape(depth, inner) => {
            escaped_exists(n, scope, depth as nat);
            expr_grows(n, *inner, line, escaped(n.scopes, scope, depth as nat), locals);
        },
        SyntaxExpr::Access(base, path) => {
            expr_grows(n, *base, line, scope, locals);
            let mid = n_expr(n, *base, line, scope, locals);
            grown_bounds(n, mid);
            keys_grow(mid, path@, line, scope, locals);
            grown_trans(n, mid, n_keys(mid, path@, line, scope, locals));
        },
        SyntaxExpr::Object(object) => {
            let a = match object.name {
                Some(name) => n_expr(n, *name, line, scope, locals),
                None => n,
            };
            if let Some(name) = object.name {
                expr_grows(n, *name, line, scope, locals);
            }
            grown_bounds(n, a);
            exprs_grow(a, object.deps@, line, scope, locals);
            let b = n_exprs(a, object.deps@, line, scope, locals);
            grown_trans(n, a, b);
            grown_bounds(n, b);
            with_space_grows(b);
            let c = with_space(b);
            grown_trans(n, b, c);
            grown_bounds(n, c);
            let alias = alias_of(object.alias);
            entered_grows(c, alias, line, scope, b.spaces.len(), BodyScopeKind::Object);
            let d = entered(c, alias, line, scope, b.spaces.len(), BodyScopeKind::Object);
            grown_trans(n, c, d);
            grown_bounds(n, d);
            items_grow(d, object.body@, c.scopes.len(), locals);
            grown_trans(n, d, n_items(d, object.body@, c.scopes.len(), locals));
        },
        SyntaxExpr::With { base, alias, body } => {
            expr_grows(n, *base, line, scope, locals);
            let b = n_expr(n, *base, line, scope, locals);
            grown_bounds(n, b);
            with_space_grows(b);
            let c = with_space(b);
            grown_trans(n, b, c);
            grown_bounds(n, c);
            let spelled = alias_of(alias);
            entered_grows(c, spelled, line, scope, b.spaces.len(), BodyScopeKind::Dictionary);
            let d = entered(c, spelled, line, scope, b.spaces.len(), BodyScopeKind::Dictionary);
            grown_trans(n, c, d);
            grown_bounds(n, d);
            items_grow(d, body@, c.scopes.len(), locals);
            grown_trans(n, d, n_items(d, body@, c.scopes.len(), locals));
        },
        SyntaxExpr::Using { namespace, body } => {
            expr_grows(n, *namespace, line, scope, locals);
            let mid = n_expr(n, *namespace, line, scope, locals);
            grown_bounds(n, mid);
            expr_grows(mid, *body, line, scope, locals);
            grown_trans(n, mid, n_expr(mid, *body, line, scope, locals));
        },
        SyntaxExpr::PathDict(path, value) => {
            keys_grow(n, path@, line, scope, locals);
            let mid = n_keys(n, path@, line, scope, locals);
            grown_bounds(n, mid);
            expr_grows(mid, *value, line, scope, locals);
            grown_trans(n, mid, n_expr(mid, *value, line, scope, locals));
        },
        SyntaxExpr::TaggedConstructor(path) => {
            keys_grow(n, path@, line, scope, locals);
        },
        SyntaxExpr::DictUnion(items) => {
            exprs_grow(n, items@, line, scope, locals);
        },
        SyntaxExpr::List(items) => {
            exprs_grow(n, items@, line, scope, locals);
        },
        SyntaxExpr::Tuple(items) => {
            exprs_grow(n, items@, line, scope, locals);
        },
        SyntaxExpr::Lambda(params, body) => {
            let begin = start(n, locals);
            let w = pushed_all(begin, text::texts(params@), line, scope);
            pushed_all_grows(begin, text::texts(params@), line, scope);
            grown_bounds(n, w.names);
            expr_grows(w.names, *body, line, scope, w.locals);
            grown_trans(n, w.names, n_expr(w.names, *body, line, scope, w.locals));
        },
        SyntaxExpr::Do(block) => {
            let begin = start(n, locals);
            let w = n_steps(begin, block.steps@, scope);
            let end = block.result_line as nat;
            steps_grow(begin, block.steps@, scope);
            grown_bounds(n, w.names);
            expr_grows(w.names, *block.result, end, scope, w.locals);
            grown_trans(n, w.names, n_expr(w.names, *block.result, end, scope, w.locals));
        },
        SyntaxExpr::If(choice) => {
            let begin = start(n, locals);
            let w = n_guards(begin, choice.guards@, line, scope);
            guards_grow(begin, choice.guards@, line, scope);
            grown_bounds(n, w.names);
            expr_grows(w.names, *choice.then_result, line, scope, w.locals);
            let a = n_expr(w.names, *choice.then_result, line, scope, w.locals);
            grown_trans(n, w.names, a);
            grown_bounds(n, a);
            expr_grows(a, *choice.else_result, line, scope, locals);
            grown_trans(n, a, n_expr(a, *choice.else_result, line, scope, locals));
        },
        SyntaxExpr::Match(choice) => {
            expr_grows(n, *choice.subject, line, scope, locals);
            let mid = n_expr(n, *choice.subject, line, scope, locals);
            grown_bounds(n, mid);
            arms_grow(mid, choice.arms@, scope, locals);
            grown_trans(n, mid, n_arms(mid, choice.arms@, scope, locals));
        },
        SyntaxExpr::MatchWhen(choice) => {
            when_arms_grow(n, choice.arms@, scope, locals);
        },
        SyntaxExpr::Let { bindings, body } => {
            bindings_grow(n, bindings@, line, scope, locals);
            let a = n_bindings(n, bindings@, line, scope, locals);
            grown_bounds(n, a);
            let begin = start(a, locals);
            let w = pushed_all(begin, analysis::binding_names(bindings@), line, scope);
            pushed_all_grows(begin, analysis::binding_names(bindings@), line, scope);
            grown_trans(n, a, w.names);
            grown_bounds(n, w.names);
            expr_grows(w.names, *body, line, scope, w.locals);
            grown_trans(n, w.names, n_expr(w.names, *body, line, scope, w.locals));
        },
        SyntaxExpr::OperatorSection { operator, left, right } => {
            let mid = match left {
                Some(left) => n_expr(n, *left, line, scope, locals),
                None => n,
            };
            if let Some(left) = left {
                expr_grows(n, *left, line, scope, locals);
            }
            grown_bounds(n, mid);
            if let Some(right) = right {
                expr_grows(mid, *right, line, scope, locals);
                grown_trans(n, mid, n_expr(mid, *right, line, scope, locals));
            }
        },
        SyntaxExpr::ComparisonChain { first, rest } => {
            expr_grows(n, *first, line, scope, locals);
            let mid = n_expr(n, *first, line, scope, locals);
            grown_bounds(n, mid);
            links_grow(mid, rest@, line, scope, locals);
            grown_trans(n, mid, n_links(mid, rest@, line, scope, locals));
        },
        SyntaxExpr::OperatorApply { operator, left, right } => {
            expr_grows(n, *left, line, scope, locals);
            let mid = n_expr(n, *left, line, scope, locals);
            grown_bounds(n, mid);
            expr_grows(mid, *right, line, scope, locals);
            grown_trans(n, mid, n_expr(mid, *right, line, scope, locals));
        },
        SyntaxExpr::Apply(left, right) => {
            expr_grows(n, *left, line, scope, locals);
            let mid = n_expr(n, *left, line, scope, locals);
            grown_bounds(n, mid);
            expr_grows(mid, *right, line, scope, locals);
            grown_trans(n, mid, n_expr(mid, *right, line, scope, locals));
        },
        SyntaxExpr::Multiply(left, right) => {
            expr_grows(n, *left, line, scope, locals);
            let mid = n_expr(n, *left, line, scope, locals);
            grown_bounds(n, mid);
            expr_grows(mid, *right, line, scope, locals);
            grown_trans(n, mid, n_expr(mid, *right, line, scope, locals));
        },
        SyntaxExpr::Divide(left, right) => {
            expr_grows(n, *left, line, scope, locals);
            let mid = n_expr(n, *left, line, scope, locals);
            grown_bounds(n, mid);
            expr_grows(mid, *right, line, scope, locals);
            grown_trans(n, mid, n_expr(mid, *right, line, scope, locals));
        },
        SyntaxExpr::Add(left, right) => {
            expr_grows(n, *left, line, scope, locals);
            let mid = n_expr(n, *left, line, scope, locals);
            grown_bounds(n, mid);
            expr_grows(mid, *right, line, scope, locals);
            grown_trans(n, mid, n_expr(mid, *right, line, scope, locals));
        },
        SyntaxExpr::Subtract(left, right) => {
            expr_grows(n, *left, line, scope, locals);
            let mid = n_expr(n, *left, line, scope, locals);
            grown_bounds(n, mid);
            expr_grows(mid, *right, line, scope, locals);
            grown_trans(n, mid, n_expr(mid, *right, line, scope, locals));
        },
        SyntaxExpr::Append(left, right) => {
            expr_grows(n, *left, line, scope, locals);
            let mid = n_expr(n, *left, line, scope, locals);
            grown_bounds(n, mid);
            expr_grows(mid, *right, line, scope, locals);
            grown_trans(n, mid, n_expr(mid, *right, line, scope, locals));
        },
        _ => {},
    }
}

proof fn pattern_grows(
    w: Walk,
    x: SyntaxPattern,
    line: nat,
    scope: nat,
)
    requires
        wf(w.names),
        scope < w.names.scopes.len(),
    ensures
        grown(w.names, n_pattern(w, x, line, scope).names),
    decreases x,
{
    let n = w.names;
    grown_same(n);
    match x.kind {
        SyntaxPatternKind::Capture(name) => {
            pushed_grows(w, name@, line, scope);
        },
        SyntaxPatternKind::Wildcard => {},
        SyntaxPatternKind::Literal(_) => {},
        SyntaxPatternKind::List { prefix, middle, suffix } => {
            patterns_grow(w, prefix@, line, scope);
            let a = n_patterns(w, prefix@, line, scope);
            grown_bounds(n, a.names);
            let b = match middle {
                Some(inner) => n_pattern(a, *inner, line, scope),
                None => a,
            };
            if let Some(inner) = middle {
                pattern_grows(a, *inner, line, scope);
                grown_trans(n, a.names, b.names);
            }
            grown_bounds(n, b.names);
            patterns_grow(b, suffix@, line, scope);
            grown_trans(n, b.names, n_patterns(b, suffix@, line, scope).names);
        },
        SyntaxPatternKind::Dict { entries, remainder } => {
            entries_grow(w, entries@, line, scope);
            let a = n_entries(w, entries@, line, scope);
            grown_bounds(n, a.names);
            if let Some(inner) = remainder {
                pattern_grows(a, *inner, line, scope);
                grown_trans(n, a.names, n_pattern(a, *inner, line, scope).names);
            }
        },
        SyntaxPatternKind::QuotedPath(path) => {
            keys_grow(n, path@, line, scope, w.locals);
        },
        SyntaxPatternKind::Group(inner) => {
            pattern_grows(w, *inner, line, scope);
        },
        SyntaxPatternKind::As(left, right) => {
            pattern_grows(w, *left, line, scope);
            let mid = n_pattern(w, *left, line, scope);
            grown_bounds(n, mid.names);
            pattern_grows(mid, *right, line, scope);
            grown_trans(n, mid.names, n_pattern(mid, *right, line, scope).names);
        },
        SyntaxPatternKind::View { view, pattern } => {
            expr_grows(n, *view, line, scope, w.locals);
            let mid = looked(w, n_expr(w.names, *view, line, scope, w.locals));
            grown_bounds(n, mid.names);
            pattern_grows(mid, *pattern, line, scope);
            grown_trans(n, mid.names, n_pattern(mid, *pattern, line, scope).names);
        },
        SyntaxPatternKind::Predicate { predicate, pattern } => {
            expr_grows(n, *predicate, line, scope, w.locals);
            let mid = looked(w, n_expr(w.names, *predicate, line, scope, w.locals));
            grown_bounds(n, mid.names);
            pattern_grows(mid, *pattern, line, scope);
            grown_trans(n, mid.names, n_pattern(mid, *pattern, line, scope).names);
        },
        SyntaxPatternKind::Guarded { pattern, guards } => {
            pattern_grows(w, *pattern, line, scope);
            let mid = n_pattern(w, *pattern, line, scope);
            grown_bounds(n, mid.names);
            guards_grow(mid, guards@, line, scope);
            grown_trans(n, mid.names, n_guards(mid, guards@, line, scope).names);
        },
    }
}

proof fn guard_grows(
    w: Walk,
    x: SyntaxGuardClause,
    line: nat,
    scope: nat,
)
    requires
        wf(w.names),
        scope < w.names.scopes.len(),
    ensures
        grown(w.names, n_guard(w, x, line, scope).names),
    decreases x,
{
    let n = w.names;
    grown_same(n);
    match x {
        SyntaxGuardClause::Pass => {},
        SyntaxGuardClause::Effect(expr) => {
            expr_grows(n, expr, line, scope, w.locals);
        },
        SyntaxGuardClause::EffectBind { pattern, operation } => {
            expr_grows(n, operation, line, scope, w.locals);
            let mid = looked(w, n_expr(w.names, operation, line, scope, w.locals));
            grown_bounds(n, mid.names);
            pattern_grows(mid, pattern, line, scope);
            grown_trans(n, mid.names, n_pattern(mid, pattern, line, scope).names);
        },
        SyntaxGuardClause::ValueBind { pattern, value } => {
            expr_grows(n, value, line, scope, w.locals);
            let mid = looked(w, n_expr(w.names, value, line, scope, w.locals));
            grown_bounds(n, mid.names);
            pattern_grows(mid, pattern, line, scope);
            grown_trans(n, mid.names, n_pattern(mid, pattern, line, scope).names);
        },
    }
}

proof fn step_grows(
    w: Walk,
    x: DoStep,
    scope: nat,
)
    requires
        wf(w.names),
        scope < w.names.scopes.len(),
    ensures
        grown(w.names, n_step(w, x, scope).names),
    decreases x,
{
    let n = w.names;
    grown_same(n);
    let line = x.line as nat;
    match x.kind {
        DoStepKind::Abstract(raws) => {
            declared_all_grows(w, text::texts(raws@), line, scope);
        },
        DoStepKind::Bind { pattern, operation } => {
            expr_grows(n, operation, line, scope, w.locals);
            let mid = looked(w, n_expr(w.names, operation, line, scope, w.locals));
            grown_bounds(n, mid.names);
            pattern_grows(mid, pattern, line, scope);
            grown_trans(n, mid.names, n_pattern(mid, pattern, line, scope).names);
        },
        DoStepKind::ValueBind { pattern, value } => {
            expr_grows(n, value, line, scope, w.locals);
            let mid = looked(w, n_expr(w.names, value, line, scope, w.locals));
            grown_bounds(n, mid.names);
            pattern_grows(mid, pattern, line, scope);
            grown_trans(n, mid.names, n_pattern(mid, pattern, line, scope).names);
        },
        DoStepKind::Then(expr) => {
            expr_grows(n, expr, line, scope, w.locals);
        },
    }
}

proof fn outcome_grows(
    n: Names,
    x: MatchOutcome,
    scope: nat,
    locals: Seq<Seq<char>>,
)
    requires
        wf(n),
        scope < n.scopes.len(),
    ensures
        grown(n, n_outcome(n, x, scope, locals)),
    decreases x,
{
    grown_same(n);
    match x {
        MatchOutcome::Result { line, mode, expression } => {
            expr_grows(n, expression, line as nat, scope, locals);
        },
        MatchOutcome::Nested(arms) => {
            when_arms_grow(n, arms@, scope, locals);
        },
    }
}

proof fn when_arm_grows(
    n: Names,
    x: WhenArm,
    scope: nat,
    locals: Seq<Seq<char>>,
)
    requires
        wf(n),
        scope < n.scopes.len(),
    ensures
        grown(n, n_when_arm(n, x, scope, locals)),
    decreases x,
{
    grown_same(n);
    let line = x.line as nat;
    let begin = start(n, locals);
    let w = n_guards(begin, x.guards@, line, scope);
    guards_grow(begin, x.guards@, line, scope);
    grown_bounds(n, w.names);
    outcome_grows(w.names, x.outcome, scope, w.locals);
    grown_trans(n, w.names, n_outcome(w.names, x.outcome, scope, w.locals));
}

proof fn arm_grows(
    n: Names,
    x: MatchArm,
    scope: nat,
    locals: Seq<Seq<char>>,
)
    requires
        wf(n),
        scope < n.scopes.len(),
    ensures
        grown(n, n_arm(n, x, scope, locals)),
    decreases x,
{
    grown_same(n);
    let line = x.line as nat;
    let begin = start(n, locals);
    let a = n_pattern(begin, x.pattern, line, scope);
    pattern_grows(begin, x.pattern, line, scope);
    grown_bounds(n, a.names);
    let w = n_guards(a, x.guards@, line, scope);
    guards_grow(a, x.guards@, line, scope);
    grown_trans(n, a.names, w.names);
    grown_bounds(n, w.names);
    outcome_grows(w.names, x.outcome, scope, w.locals);
    grown_trans(n, w.names, n_outcome(w.names, x.outcome, scope, w.locals));
}

proof fn definition_grows(
    n: Names,
    x: DefinitionDecl,
    line: nat,
    scope: nat,
    locals: Seq<Seq<char>>,
)
    requires
        wf(n),
        scope < n.scopes.len(),
    ensures
        grown(n, n_definition(n, x, line, scope, locals)),
    decreases x,
{
    grown_same(n);
    let space = n.scopes[scope as int].definitions;
    let a = introduced_path(n, space, static_prefix(x.target@), line).0;
    introduced_path_grows(n, space, static_prefix(x.target@), line);
    grown_bounds(n, a);
    let b = n_keys(a, x.target@, line, scope, locals);
    keys_grow(a, x.target@, line, scope, locals);
    grown_trans(n, a, b);
    grown_bounds(n, b);
    if let Some(expr) = x.expr {
        expr_grows(b, expr, line, scope, locals);
        grown_trans(n, b, n_expr(b, expr, line, scope, locals));
    }
}

proof fn object_grows(
    n: Names,
    x: ObjectDecl,
    line: nat,
    scope: nat,
    locals: Seq<Seq<char>>,
)
    requires
        wf(n),
        scope < n.scopes.len(),
    ensures
        grown(n, n_object(n, x, line, scope, locals)),
    decreases x,
{
    grown_same(n);
    let a = n_exprs(n, x.deps@, line, scope, locals);
    exprs_grow(n, x.deps@, line, scope, locals);
    grown_bounds(n, a);
    let first = a.scopes[scope as int].definitions;
    let (b, space) = introduced_path(a, first, text::dotted(x.target@), line);
    introduced_path_grows(a, first, text::dotted(x.target@), line);
    grown_trans(n, a, b);
    grown_bounds(n, b);
    let c = entered(b, alias_of(x.alias), line, scope, space, BodyScopeKind::Object);
    entered_grows(b, alias_of(x.alias), line, scope, space, BodyScopeKind::Object);
    grown_trans(n, b, c);
    grown_bounds(n, c);
    items_grow(c, x.body@, b.scopes.len(), locals);
    grown_trans(n, c, n_items(c, x.body@, b.scopes.len(), locals));
}

proof fn extend_grows(
    n: Names,
    x: ObjectExtendDecl,
    line: nat,
    scope: nat,
    locals: Seq<Seq<char>>,
)
    requires
        wf(n),
        scope < n.scopes.len(),
    ensures
        grown(n, n_extend(n, x, line, scope, locals)),
    decreases x,
{
    grown_same(n);
    let first = n.scopes[scope as int].definitions;
    let (b, space) = ensured_path(n, first, text::dotted(x.target@));
    ensured_path_grows(n, first, text::dotted(x.target@));
    grown_bounds(n, b);
    let c = entered(b, alias_of(x.alias), line, scope, space, BodyScopeKind::Object);
    entered_grows(b, alias_of(x.alias), line, scope, space, BodyScopeKind::Object);
    grown_trans(n, b, c);
    grown_bounds(n, c);
    items_grow(c, x.body@, b.scopes.len(), locals);
    grown_trans(n, c, n_items(c, x.body@, b.scopes.len(), locals));
}

proof fn item_grows(
    n: Names,
    x: ObjectBodyDefinition,
    scope: nat,
    locals: Seq<Seq<char>>,
)
    requires
        wf(n),
        scope < n.scopes.len(),
    ensures
        grown(n, n_item(n, x, scope, locals)),
    decreases x,
{
    grown_same(n);
    let line = x.line as nat;
    match x.kind {
        ObjectBodyDefinitionKind::Definition(definition) => {
            definition_grows(n, definition, line, scope, locals);
        },
        ObjectBodyDefinitionKind::Object(object) => {
            object_grows(n, object, line, scope, locals);
        },
        ObjectBodyDefinitionKind::Extend(extend) => {
            extend_grows(n, extend, line, scope, locals);
        },
    }
}

proof fn paths_grow(n: Names, paths: Seq<Seq<char>>, line: nat, scope: nat)
    requires
        wf(n),
        scope < n.scopes.len(),
    ensures
        grown(n, n_paths(n, paths, line, scope)),
    decreases paths.len(),
{
    grown_same(n);
    if paths.len() > 0 {
        paths_grow(n, paths.drop_last(), line, scope);
        let mid = n_paths(n, paths.drop_last(), line, scope);
        grown_bounds(n, mid);
        let first = mid.scopes[scope as int].definitions;
        introduced_path_grows(mid, first, text::dotted(paths.last()), line);
        grown_trans(n, mid, introduced_path(mid, first, text::dotted(paths.last()), line).0);
    }
}

/// A declaration only adds to what a file introduces, uses and binds.
pub proof fn declaration_grows(n: Names, declaration: Declaration, scope: nat)
    requires
        wf(n),
        scope < n.scopes.len(),
    ensures
        grown(n, n_declaration(n, declaration, scope)),
{
    grown_same(n);
    let line = declaration.line as nat;
    match declaration.kind {
        DeclarationKind::Import(import) => {
            if let ImportPlacement::As(target) = import.placement {
                paths_grow(n, seq![target@], line, scope);
            }
        },
        DeclarationKind::Abstract(paths) => {
            paths_grow(n, text::texts(paths@), line, scope);
        },
        DeclarationKind::Unique(paths) => {
            paths_grow(n, text::texts(paths@), line, scope);
        },
        DeclarationKind::Object(object) => {
            object_grows(n, object, line, scope, Seq::empty());
        },
        DeclarationKind::Extend(extend) => {
            extend_grows(n, extend, line, scope, Seq::empty());
        },
        DeclarationKind::Definition(definition) => {
            definition_grows(n, definition, line, scope, Seq::empty());
        },
        _ => {},
    }
}

/// The names of a file contain those of each of its beginnings.
pub proof fn file_grows(declarations: Seq<Declaration>, k: int)
    requires
        0 <= k <= declarations.len(),
    ensures
        grown(n_file(declarations.take(k)), n_file(declarations)),
        wf(n_file(declarations)),
        0 < n_file(declarations).scopes.len(),
    decreases declarations.len(),
{
    if declarations.len() == 0 {
        assert(declarations.take(k) =~= declarations);
        grown_same(root());
    } else {
        let rest = declarations.drop_last();
        file_grows(rest, if k < declarations.len() {
            k
        } else {
            0
        });
        declaration_grows(n_file(rest), declarations.last(), 0);
        grown_bounds(n_file(rest), n_file(declarations));
        if k < declarations.len() {
            assert(rest.take(k) =~= declarations.take(k));
            grown_trans(n_file(declarations.take(k)), n_file(rest), n_file(declarations));
        } else {
            assert(declarations.take(k) =~= declarations);
            grown_same(n_file(declarations));
        }
    }
}

/// A name is introduced for a local exactly when one of the namespaces that
/// the local sees introduces it, and likewise for uses.
pub proof fn conflicting_namespaces(n: Names, visible: Seq<nat>, name: Seq<char>)
    ensures
        introduction(n, visible, name) is Some <==> exists|j: int|
            0 <= j < visible.len() && (#[trigger] n.spaces[visible[j] as int]).introduced.dom()
                .contains(name),
        first_use(n, visible, name) is Some <==> exists|j: int|
            0 <= j < visible.len() && (#[trigger] n.spaces[visible[j] as int]).used.dom().contains(
                name,
            ),
    decreases visible.len(),
{
    if visible.len() > 0 {
        let rest = visible.skip(1);
        conflicting_namespaces(n, rest, name);
        if introduction(n, visible, name) is Some {
            if n.spaces[visible[0] as int].introduced.dom().contains(name) {
            } else {
                let j = choose|j: int|
                    0 <= j < rest.len() && (#[trigger] n.spaces[rest[j] as int]).introduced.dom()
                        .contains(name);
                assert(n.spaces[visible[j + 1] as int].introduced.dom().contains(name));
            }
        }
        if first_use(n, visible, name) is Some {
            if n.spaces[visible[0] as int].used.dom().contains(name) {
            } else {
                let j = choose|j: int|
                    0 <= j < rest.len() && (#[trigger] n.spaces[rest[j] as int]).used.dom()
                        .contains(name);
                assert(n.spaces[visible[j + 1] as int].used.dom().contains(name));
            }
        }
        if exists|j: int|
            0 <= j < visible.len() && (#[trigger] n.spaces[visible[j] as int]).introduced.dom()
                .contains(name) {
            let j = choose|j: int|
                0 <= j < visible.len() && (#[trigger] n.spaces[visible[j] as int]).introduced.dom()
                    .contains(name);
            if j > 0 {
                assert(n.spaces[rest[j - 1] as int].introduced.dom().contains(name));
            }
        }
        if exists|j: int|
            0 <= j < visible.len() && (#[trigger] n.spaces[visible[j] as int]).used.dom().contains(
                name,
            ) {
            let j = choose|j: int|
                0 <= j < visible.len() && (#[trigger] n.spaces[visible[j] as int]).used.dom()
                    .contains(name);
            if j > 0 {
                assert(n.spaces[rest[j - 1] as int].used.dom().contains(name));
            }
        }
    }
}

/// A local that a beginning of a file binds is reported at the end of the file
/// whenever a namespace that it sees introduces its name anywhere in the file.
pub proof fn later_introductions_conflict(
    declarations: Seq<Declaration>,
    k: int,
    i: int,
    j: int,
)
    requires
        0 <= k <= declarations.len(),
        0 <= i < n_file(declarations.take(k)).binders.len(),
        ({
            let binder = n_file(declarations.take(k)).binders[i];
            &&& 0 <= j < binder.visible.len()
            &&& n_file(declarations).spaces[binder.visible[j] as int].introduced.dom().contains(
                binder.canonical,
            )
        }),
    ensures
        ({
            let n = n_file(declarations);
            let binder = n_file(declarations.take(k)).binders[i];
            &&& i < n.binders.len()
            &&& n.binders[i] == binder
            &&& conflict(n, binder).len() == 1
        }),
{
    file_grows(declarations, k);
    reveal(grown);
    let n = n_file(declarations);
    let binder = n_file(declarations.take(k)).binders[i];
    assert(n.binders[i] == binder);
    conflicting_namespaces(n, binder.visible, binder.canonical);
    assert(n.spaces[binder.visible[j] as int].introduced.dom().contains(binder.canonical));
}

/// A conflict that is reported for a beginning of a file is reported for the
/// whole file.
pub proof fn conflicts_persist(declarations: Seq<Declaration>, k: int, i: int)
    requires
        0 <= k <= declarations.len(),
        0 <= i < n_file(declarations.take(k)).binders.len(),
        ({
            let n = n_file(declarations.take(k));
            conflict(n, n.binders[i]).len() == 1
        }),
    ensures
        ({
            let n = n_file(declarations);
            &&& i < n.binders.len()
            &&& n.binders[i] == n_file(declarations.take(k)).binders[i]
            &&& conflict(n, n.binders[i]).len() == 1
        }),
{
    file_grows(declarations, k);
    file_grows(declarations.take(k), 0);
    reveal(grown);
    let a = n_file(declarations.take(k));
    let n = n_file(declarations);
    let binder = a.binders[i];
    assert(n.binders[i] == binder);
    conflicting_namespaces(a, binder.visible, binder.canonical);
    conflicting_namespaces(n, binder.visible, binder.canonical);
    let name = binder.canonical;
    if introduction(a, binder.visible, name) is Some {
        let j = choose|j: int|
            0 <= j < binder.visible.len() && (
            #[trigger] a.spaces[binder.visible[j] as int]).introduced.dom().contains(name);
        assert(a.binders[i].visible[j] < a.spaces.len());
        assert(n.spaces[binder.visible[j] as int].introduced.dom().contains(name));
    } else {
        let j = choose|j: int|
            0 <= j < binder.visible.len() && (
            #[trigger] a.spaces[binder.visible[j] as int]).used.dom().contains(name);
        assert(a.binders[i].visible[j] < a.spaces.len());
        assert(n.spaces[binder.visible[j] as int].used.dom().contains(name));
    }
}

} // verus!
