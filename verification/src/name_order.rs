//! Conflicts between locals and external names do not depend on the order of
//! the declarations of a file.
//!
//! The numbers of namespaces depend on that order. The address of a namespace
//! does not: the names that lead to it from the namespace of the file, or from
//! the body of an object expression, which belongs to one declaration.

use vstd::multiset::Multiset;
use vstd::prelude::*;
use crate::ast::{
    Declaration, DeclarationKind, DefinitionDecl, DoStep, DoStepKind, ImportPlacement, MatchArm,
    MatchOutcome, ObjectBodyDefinition, ObjectBodyDefinitionKind, ObjectDecl, ObjectExtendDecl,
    SyntaxDictPatternEntry, SyntaxExpr, SyntaxGuardClause, SyntaxKeyExpr, SyntaxOperator,
    SyntaxPattern, SyntaxPatternKind, WhenArm,
};
use crate::analysis;
use crate::name_analysis;
use crate::name_analysis::{Binder, BodyScopeKind, Names, Scope, Space, Walk};
use crate::names;
use crate::text;

verus! {

/// Where a namespace is: the declaration that owns its outermost namespace, or
/// zero for the file, which of the owner's it is, and the names that lead on.
pub struct Address {
    pub owner: nat,
    pub slot: nat,
    pub path: Seq<Seq<char>>,
}

/// The address of the namespace of a file.
pub open spec fn home() -> Address {
    Address { owner: 0, slot: 0, path: Seq::empty() }
}

pub open spec fn below(a: Address, name: Seq<char>) -> Address {
    Address { path: a.path.push(name), ..a }
}

pub open spec fn above(a: Address) -> Address {
    Address { path: a.path.drop_last(), ..a }
}

pub open spec fn fresh(owner: nat, slot: nat) -> Address {
    Address { owner, slot, path: Seq::empty() }
}

/// The namespace `k` leads to `c` by the last name of its address.
pub open spec fn leads(n: Names, at: Seq<Address>, k: int, c: int) -> bool {
    let name = at[c].path.last();
    &&& 0 <= k < at.len()
    &&& at[k] == above(at[c])
    &&& n.spaces[k].children.dom().contains(name)
    &&& n.spaces[k].children[name] == c
}

pub open spec fn has_parent(n: Names, at: Seq<Address>, c: int) -> bool {
    exists|k: int| #[trigger] leads(n, at, k, c)
}

/// Every namespace has an address of its own, and children have the addresses
/// below those of their parents.
#[verifier::opaque]
pub open spec fn charted(n: Names, at: Seq<Address>) -> bool {
    &&& name_analysis::wf(n)
    &&& at.len() == n.spaces.len()
    &&& forall|i: int, j: int| 0 <= i < j < at.len() ==> #[trigger] at[i] != #[trigger] at[j]
    &&& forall|c: int|
        0 <= c < at.len() && (#[trigger] at[c]).path.len() > 0 ==> has_parent(n, at, c)
    &&& forall|k: int, name: Seq<char>|
        0 <= k < at.len() && (#[trigger] n.spaces[k].children.dom().contains(name))
            ==> at[n.spaces[k].children[name] as int] == below(at[k], name)
}

/// What is introduced where.
pub open spec fn introductions(n: Names, at: Seq<Address>) -> Set<(Address, Seq<char>)> {
    Set::new(
        |p: (Address, Seq<char>)|
            exists|k: int|
                0 <= k < at.len() && #[trigger] at[k] == p.0
                    && n.spaces[k].introduced.dom().contains(p.1),
    )
}

/// What is used from where.
pub open spec fn uses(n: Names, at: Seq<Address>) -> Set<(Address, Seq<char>)> {
    Set::new(
        |p: (Address, Seq<char>)|
            exists|k: int|
                0 <= k < at.len() && #[trigger] at[k] == p.0 && n.spaces[k].used.dom().contains(
                    p.1,
                ),
    )
}

/// A local with the addresses that it could conflict with.
pub struct Local {
    pub raw: Seq<char>,
    pub canonical: Seq<char>,
    pub line: nat,
    pub visible: Seq<Address>,
}

pub open spec fn addresses(at: Seq<Address>, ids: Seq<nat>) -> Seq<Address> {
    ids.map_values(|id: nat| at[id as int])
}

pub open spec fn local_of(at: Seq<Address>, b: Binder) -> Local {
    Local {
        raw: b.raw,
        canonical: b.canonical,
        line: b.line,
        visible: addresses(at, b.visible),
    }
}

pub open spec fn locals_of(n: Names, at: Seq<Address>) -> Seq<Local> {
    n.binders.map_values(|b: Binder| local_of(at, b))
}

/// The same addresses, introductions, uses and locals, whatever else changed.
pub open spec fn keeps(n: Names, at: Seq<Address>, m: Names, to: Seq<Address>) -> bool {
    &&& charted(m, to)
    &&& at.len() <= to.len()
    &&& to.take(at.len() as int) == at
    &&& introductions(m, to) == introductions(n, at)
    &&& uses(m, to) == uses(n, at)
    &&& locals_of(m, to) == locals_of(n, at)
}

proof fn locals_stay(n: Names, at: Seq<Address>, to: Seq<Address>)
    requires
        charted(n, at),
        at.len() <= to.len(),
        to.take(at.len() as int) == at,
    ensures
        locals_of(n, to) == locals_of(n, at),
{
    reveal(charted);
    assert forall|b: int| 0 <= b < n.binders.len() implies local_of(to, #[trigger] n.binders[b])
        == local_of(at, n.binders[b]) by {
        let ids = n.binders[b].visible;
        assert forall|j: int| 0 <= j < ids.len() implies #[trigger] to[ids[j] as int]
            == at[ids[j] as int] by {
            assert(n.binders[b].visible[j] < n.spaces.len());
            assert(to.take(at.len() as int)[ids[j] as int] == to[ids[j] as int]);
        }
        assert(addresses(to, ids) =~= addresses(at, ids));
    }
    assert(locals_of(n, to) =~= locals_of(n, at));
}

/// A namespace without a parent, at an address that is new.
proof fn chart_space(n: Names, at: Seq<Address>, a: Address)
    requires
        charted(n, at),
        !at.contains(a),
        a.path.len() == 0,
    ensures
        keeps(n, at, name_analysis::with_space(n), at.push(a)),
{
    reveal(charted);
    let m = name_analysis::with_space(n);
    let to = at.push(a);
    assert(to.take(at.len() as int) =~= at);
    assert forall|k: int| 0 <= k < n.spaces.len() implies #[trigger] m.spaces[k] == n.spaces[k] by {}
    assert forall|i: int, j: int| 0 <= i < j < to.len() implies #[trigger] to[i] != #[trigger]
        to[j] by {
        if j == at.len() {
            assert(at.contains(at[i]));
        }
    }
    assert forall|c: int| 0 <= c < to.len() && (#[trigger] to[c]).path.len() > 0 implies has_parent(
        m,
        to,
        c,
    ) by {
        assert(at[c] == to[c]);
        assert(has_parent(n, at, c));
        let k = choose|k: int| #[trigger] leads(n, at, k, c);
        assert(leads(m, to, k, c));
    }
    assert(name_analysis::wf(m)) by {
        assert forall|k: int, name: Seq<char>|
            0 <= k < m.spaces.len() && (#[trigger] m.spaces[k].children.dom().contains(
                name,
            )) implies m.spaces[k].children[name] < m.spaces.len() by {
            if k < n.spaces.len() {
                assert(n.spaces[k].children.dom().contains(name));
            }
        }
    }
    assert forall|k: int, name: Seq<char>|
        0 <= k < to.len() && (#[trigger] m.spaces[k].children.dom().contains(
            name,
        )) implies to[m.spaces[k].children[name] as int] == below(to[k], name) by {
        if k < n.spaces.len() {
            assert(n.spaces[k].children.dom().contains(name));
        }
    }
    assert(charted(m, to));
    assert forall|p: (Address, Seq<char>)| #[trigger] introductions(m, to).contains(p)
        == introductions(n, at).contains(p) by {
        if introductions(m, to).contains(p) {
            let k = choose|k: int|
                0 <= k < to.len() && #[trigger] to[k] == p.0
                    && m.spaces[k].introduced.dom().contains(p.1);
            assert(at[k] == p.0);
        }
        if introductions(n, at).contains(p) {
            let k = choose|k: int|
                0 <= k < at.len() && #[trigger] at[k] == p.0
                    && n.spaces[k].introduced.dom().contains(p.1);
            assert(to[k] == p.0);
        }
    }
    assert(introductions(m, to) =~= introductions(n, at));
    assert forall|p: (Address, Seq<char>)| #[trigger] uses(m, to).contains(p) == uses(
        n,
        at,
    ).contains(p) by {
        if uses(m, to).contains(p) {
            let k = choose|k: int|
                0 <= k < to.len() && #[trigger] to[k] == p.0 && m.spaces[k].used.dom().contains(
                    p.1,
                );
            assert(at[k] == p.0);
        }
        if uses(n, at).contains(p) {
            let k = choose|k: int|
                0 <= k < at.len() && #[trigger] at[k] == p.0 && n.spaces[k].used.dom().contains(
                    p.1,
                );
            assert(to[k] == p.0);
        }
    }
    assert(uses(m, to) =~= uses(n, at));
    locals_stay(n, at, to);
    assert(locals_of(m, to) =~= locals_of(n, to));
}

/// The addresses after looking up, or creating, a child.
pub open spec fn child_chart(
    n: Names,
    at: Seq<Address>,
    parent: nat,
    name: Seq<char>,
) -> Seq<Address> {
    if n.spaces[parent as int].children.dom().contains(name) {
        at
    } else {
        at.push(below(at[parent as int], name))
    }
}

/// A namespace has a child exactly when the address below it is taken.
proof fn child_taken(n: Names, at: Seq<Address>, parent: nat, name: Seq<char>)
    requires
        charted(n, at),
        parent < at.len(),
    ensures
        n.spaces[parent as int].children.dom().contains(name) == at.contains(
            below(at[parent as int], name),
        ),
        n.spaces[parent as int].children.dom().contains(name)
            ==> n.spaces[parent as int].children[name] < at.len(),
{
    reveal(charted);
    let a = below(at[parent as int], name);
    if n.spaces[parent as int].children.dom().contains(name) {
        let c = n.spaces[parent as int].children[name] as int;
        assert(at[c] == a);
    }
    if at.contains(a) {
        let c = choose|c: int| 0 <= c < at.len() && at[c] == a;
        assert(at[c].path.len() > 0);
        assert(has_parent(n, at, c));
        let k = choose|k: int| #[trigger] leads(n, at, k, c);
        assert(a.path.drop_last() =~= at[parent as int].path);
        assert(above(a) == at[parent as int]);
        assert(at[k] == at[parent as int]);
        assert(k == parent);
        assert(a.path.last() == name);
    }
}

proof fn chart_child(n: Names, at: Seq<Address>, parent: nat, name: Seq<char>)
    requires
        charted(n, at),
        parent < at.len(),
    ensures
        ({
            let (m, child) = name_analysis::child_of(n, parent, name);
            let to = child_chart(n, at, parent, name);
            &&& keeps(n, at, m, to)
            &&& child < to.len()
            &&& to[child as int] == below(at[parent as int], name)
            &&& m.scopes == n.scopes
        }),
{
    child_taken(n, at, parent, name);
    let (m, child) = name_analysis::child_of(n, parent, name);
    let to = child_chart(n, at, parent, name);
    let a = below(at[parent as int], name);
    if n.spaces[parent as int].children.dom().contains(name) {
        reveal(charted);
        assert(at.take(at.len() as int) =~= at);
    } else {
        reveal(charted);
        assert(to.take(at.len() as int) =~= at);
        assert(child == at.len());
        assert(forall|k: int| 0 <= k < at.len() ==> to[k] == at[k]);
        assert forall|k: int| 0 <= k < n.spaces.len() implies (#[trigger] m.spaces[k]).introduced
            == n.spaces[k].introduced && m.spaces[k].used == n.spaces[k].used && (k != parent
            ==> m.spaces[k] == n.spaces[k]) by {}
        assert(m.spaces[parent as int].children == n.spaces[parent as int].children.insert(
            name,
            child,
        ));
        assert(m.spaces[at.len() as int].children =~= Map::empty());
        assert forall|i: int, j: int| 0 <= i < j < to.len() implies #[trigger] to[i] != #[trigger]
            to[j] by {
            if j == at.len() {
                assert(at.contains(at[i]));
            }
        }
        assert forall|c: int| 0 <= c < to.len() && (
        #[trigger] to[c]).path.len() > 0 implies has_parent(m, to, c) by {
            if c < at.len() {
                assert(at[c] == to[c]);
                assert(has_parent(n, at, c));
                let k = choose|k: int| #[trigger] leads(n, at, k, c);
                if k == parent && at[c].path.last() == name {
                    assert(false);
                }
                assert(leads(m, to, k, c));
            } else {
                assert(a.path.drop_last() =~= at[parent as int].path);
                assert(leads(m, to, parent as int, c));
            }
        }
        assert(name_analysis::wf(m)) by {
            assert forall|k: int, x: Seq<char>|
                0 <= k < m.spaces.len() && (#[trigger] m.spaces[k].children.dom().contains(
                    x,
                )) implies m.spaces[k].children[x] < m.spaces.len() by {
                if k < n.spaces.len() && !(k == parent && x == name) {
                    assert(n.spaces[k].children.dom().contains(x));
                }
            }
        }
        assert forall|k: int, x: Seq<char>|
            0 <= k < to.len() && (#[trigger] m.spaces[k].children.dom().contains(
                x,
            )) implies to[m.spaces[k].children[x] as int] == below(to[k], x) by {
            if k < n.spaces.len() && !(k == parent && x == name) {
                assert(n.spaces[k].children.dom().contains(x));
            }
        }
        assert(charted(m, to));
        assert forall|p: (Address, Seq<char>)| #[trigger] introductions(m, to).contains(p)
            == introductions(n, at).contains(p) by {
            if introductions(m, to).contains(p) {
                let k = choose|k: int|
                    0 <= k < to.len() && #[trigger] to[k] == p.0
                        && m.spaces[k].introduced.dom().contains(p.1);
                assert(at[k] == p.0);
            }
            if introductions(n, at).contains(p) {
                let k = choose|k: int|
                    0 <= k < at.len() && #[trigger] at[k] == p.0
                        && n.spaces[k].introduced.dom().contains(p.1);
                assert(to[k] == p.0);
            }
        }
        assert(introductions(m, to) =~= introductions(n, at));
        assert forall|p: (Address, Seq<char>)| #[trigger] uses(m, to).contains(p) == uses(
            n,
            at,
        ).contains(p) by {
            if uses(m, to).contains(p) {
                let k = choose|k: int|
                    0 <= k < to.len() && #[trigger] to[k] == p.0
                        && m.spaces[k].used.dom().contains(p.1);
                assert(at[k] == p.0);
            }
            if uses(n, at).contains(p) {
                let k = choose|k: int|
                    0 <= k < at.len() && #[trigger] at[k] == p.0
                        && n.spaces[k].used.dom().contains(p.1);
                assert(to[k] == p.0);
            }
        }
        assert(uses(m, to) =~= uses(n, at));
        locals_stay(n, at, to);
        assert(locals_of(m, to) =~= locals_of(n, to));
    }
}

/// The state after a name is marked as introduced.
pub open spec fn marked(n: Names, space: nat, name: Seq<char>, line: nat) -> Names {
    let s = n.spaces[space as int];
    Names {
        spaces: n.spaces.update(
            space as int,
            Space { introduced: name_analysis::first_kept(s.introduced, name, line), ..s },
        ),
        ..n
    }
}

/// The state after a name is marked as used.
pub open spec fn noted(n: Names, space: nat, name: Seq<char>, line: nat) -> Names {
    let s = n.spaces[space as int];
    Names {
        spaces: n.spaces.update(
            space as int,
            Space { used: name_analysis::first_kept(s.used, name, line), ..s },
        ),
        ..n
    }
}

/// A state whose namespaces have the same children as another's is charted
/// alike.
proof fn chart_same(n: Names, at: Seq<Address>, m: Names)
    requires
        charted(n, at),
        m.spaces.len() == n.spaces.len(),
        forall|k: int|
            0 <= k < n.spaces.len() ==> (#[trigger] m.spaces[k]).children == n.spaces[k].children,
        name_analysis::wf(m),
    ensures
        charted(m, at),
{
    reveal(charted);
    assert forall|c: int| 0 <= c < at.len() && (#[trigger] at[c]).path.len() > 0 implies has_parent(
        m,
        at,
        c,
    ) by {
        assert(has_parent(n, at, c));
        let k = choose|k: int| #[trigger] leads(n, at, k, c);
        assert(leads(m, at, k, c));
    }
    assert forall|k: int, name: Seq<char>|
        0 <= k < at.len() && (#[trigger] m.spaces[k].children.dom().contains(
            name,
        )) implies at[m.spaces[k].children[name] as int] == below(at[k], name) by {
        assert(n.spaces[k].children.dom().contains(name));
    }
}

proof fn same_children_wf(n: Names, m: Names)
    requires
        name_analysis::wf(n),
        m.spaces.len() == n.spaces.len(),
        m.scopes == n.scopes,
        m.binders == n.binders,
        forall|k: int|
            0 <= k < n.spaces.len() ==> (#[trigger] m.spaces[k]).children == n.spaces[k].children,
    ensures
        name_analysis::wf(m),
{
    assert forall|k: int, name: Seq<char>|
        0 <= k < m.spaces.len() && (#[trigger] m.spaces[k].children.dom().contains(
            name,
        )) implies m.spaces[k].children[name] < m.spaces.len() by {
        assert(n.spaces[k].children.dom().contains(name));
    }
}

proof fn chart_mark(n: Names, at: Seq<Address>, space: nat, name: Seq<char>, line: nat)
    requires
        charted(n, at),
        space < at.len(),
    ensures
        ({
            let m = marked(n, space, name, line);
            &&& charted(m, at)
            &&& introductions(m, at) == introductions(n, at).insert((at[space as int], name))
            &&& uses(m, at) == uses(n, at)
            &&& locals_of(m, at) == locals_of(n, at)
        }),
{
    let m = marked(n, space, name, line);
    reveal(charted);
    same_children_wf(n, m);
    chart_same(n, at, m);
    assert forall|p: (Address, Seq<char>)| #[trigger] introductions(m, at).contains(p)
        == introductions(n, at).insert((at[space as int], name)).contains(p) by {
        if introductions(m, at).contains(p) {
            let k = choose|k: int|
                0 <= k < at.len() && #[trigger] at[k] == p.0
                    && m.spaces[k].introduced.dom().contains(p.1);
            if !n.spaces[k].introduced.dom().contains(p.1) {
                assert(k == space && p.1 == name);
            }
        }
        if introductions(n, at).contains(p) {
            let k = choose|k: int|
                0 <= k < at.len() && #[trigger] at[k] == p.0
                    && n.spaces[k].introduced.dom().contains(p.1);
            assert(at[k] == p.0 && m.spaces[k].introduced.dom().contains(p.1));
        }
        if p == (at[space as int], name) {
            assert(m.spaces[space as int].introduced.dom().contains(name));
        }
    }
    assert(introductions(m, at) =~= introductions(n, at).insert((at[space as int], name)));
    assert forall|p: (Address, Seq<char>)| #[trigger] uses(m, at).contains(p) == uses(
        n,
        at,
    ).contains(p) by {
        if uses(m, at).contains(p) {
            let k = choose|k: int|
                0 <= k < at.len() && #[trigger] at[k] == p.0 && m.spaces[k].used.dom().contains(
                    p.1,
                );
            assert(at[k] == p.0 && n.spaces[k].used.dom().contains(p.1));
        }
        if uses(n, at).contains(p) {
            let k = choose|k: int|
                0 <= k < at.len() && #[trigger] at[k] == p.0 && n.spaces[k].used.dom().contains(
                    p.1,
                );
            assert(at[k] == p.0 && m.spaces[k].used.dom().contains(p.1));
        }
    }
    assert(uses(m, at) =~= uses(n, at));
}

proof fn chart_use(n: Names, at: Seq<Address>, space: nat, name: Seq<char>, line: nat)
    requires
        charted(n, at),
        space < at.len(),
    ensures
        ({
            let m = noted(n, space, name, line);
            &&& charted(m, at)
            &&& introductions(m, at) == introductions(n, at)
            &&& uses(m, at) == uses(n, at).insert((at[space as int], name))
            &&& locals_of(m, at) == locals_of(n, at)
        }),
{
    let m = noted(n, space, name, line);
    reveal(charted);
    same_children_wf(n, m);
    chart_same(n, at, m);
    assert forall|p: (Address, Seq<char>)| #[trigger] uses(m, at).contains(p) == uses(
        n,
        at,
    ).insert((at[space as int], name)).contains(p) by {
        if uses(m, at).contains(p) {
            let k = choose|k: int|
                0 <= k < at.len() && #[trigger] at[k] == p.0 && m.spaces[k].used.dom().contains(
                    p.1,
                );
            if !n.spaces[k].used.dom().contains(p.1) {
                assert(k == space && p.1 == name);
            }
        }
        if uses(n, at).contains(p) {
            let k = choose|k: int|
                0 <= k < at.len() && #[trigger] at[k] == p.0 && n.spaces[k].used.dom().contains(
                    p.1,
                );
            assert(at[k] == p.0 && m.spaces[k].used.dom().contains(p.1));
        }
        if p == (at[space as int], name) {
            assert(m.spaces[space as int].used.dom().contains(name));
        }
    }
    assert(uses(m, at) =~= uses(n, at).insert((at[space as int], name)));
    assert forall|p: (Address, Seq<char>)| #[trigger] introductions(m, at).contains(p)
        == introductions(n, at).contains(p) by {
        if introductions(m, at).contains(p) {
            let k = choose|k: int|
                0 <= k < at.len() && #[trigger] at[k] == p.0
                    && m.spaces[k].introduced.dom().contains(p.1);
            assert(at[k] == p.0 && n.spaces[k].introduced.dom().contains(p.1));
        }
        if introductions(n, at).contains(p) {
            let k = choose|k: int|
                0 <= k < at.len() && #[trigger] at[k] == p.0
                    && n.spaces[k].introduced.dom().contains(p.1);
            assert(at[k] == p.0 && m.spaces[k].introduced.dom().contains(p.1));
        }
    }
    assert(introductions(m, at) =~= introductions(n, at));
}

/// A run of a declaration behind others, beside a run of it by itself.
pub struct Twin {
    /// The names of the file before the declaration.
    pub base: Names,
    pub base_at: Seq<Address>,
    /// The names of the file so far.
    pub full: Names,
    pub full_at: Seq<Address>,
    /// The names of the declaration by itself so far.
    pub low: Names,
    pub low_at: Seq<Address>,
    pub owner: nat,
}

/// Two runs with the same beginning.
pub open spec fn akin(t: Twin, u: Twin) -> bool {
    &&& u.base == t.base
    &&& u.base_at == t.base_at
    &&& u.owner == t.owner
    &&& t.low.scopes.len() <= u.low.scopes.len()
}

/// The scope of the file for a scope of the declaration by itself.
pub open spec fn lifted(t: Twin, scope: nat) -> nat {
    if scope == 0 {
        0
    } else {
        (scope - 1 + t.base.scopes.len()) as nat
    }
}

/// Two scopes that see the same addresses.
pub open spec fn scopes_match(t: Twin, s: int) -> bool {
    let a = t.full.scopes[lifted(t, s as nat) as int];
    let b = t.low.scopes[s];
    &&& t.full_at[a.definitions as int] == t.low_at[b.definitions as int]
    &&& t.full_at[a.lookup as int] == t.low_at[b.lookup as int]
    &&& a.alias == b.alias
    &&& match b.parent {
        Some(parent) => a.parent == Some(lifted(t, parent)),
        None => a.parent is None,
    }
}

/// Every address of the declaration by itself is one of the file, and what the
/// declaration adds to the file is what it holds by itself.
#[verifier::opaque]
pub open spec fn tracks(t: Twin) -> bool {
    &&& charted(t.full, t.full_at)
    &&& charted(t.low, t.low_at)
    &&& t.owner > 0
    &&& t.base.scopes.len() > 0
    &&& t.low.scopes.len() > 0
    &&& t.full.scopes.len() == t.base.scopes.len() + t.low.scopes.len() - 1
    &&& forall|k: int|
        0 <= k < t.full_at.len() && (#[trigger] t.full_at[k]).owner == t.owner
            ==> t.full_at[k].slot < t.low_at.len()
    &&& forall|k: int|
        0 <= k < t.low_at.len() ==> t.full_at.contains(#[trigger] t.low_at[k])
    &&& forall|s: int|
        #![trigger t.low.scopes[s]]
        0 <= s < t.low.scopes.len() ==> scopes_match(t, s)
    &&& introductions(t.full, t.full_at) == introductions(t.base, t.base_at).union(
        introductions(t.low, t.low_at),
    )
    &&& uses(t.full, t.full_at) == uses(t.base, t.base_at).union(uses(t.low, t.low_at))
    &&& locals_of(t.full, t.full_at) == locals_of(t.base, t.base_at) + locals_of(t.low, t.low_at)
    &&& addressed(t.low_at, t.owner)
    &&& rooted(t.full_at)
    &&& forall|k: int|
        0 <= k < t.full_at.len() ==> owned(t.base_at, t.owner, #[trigger] t.full_at[k])
}

/// An address belongs to a declaration, or to those before it.
pub open spec fn owned(at: Seq<Address>, owner: nat, a: Address) -> bool {
    a.owner == owner || exists|j: int| 0 <= j < at.len() && (#[trigger] at[j]).owner == a.owner
}

/// An address without names is that of the file, or the declaration's own.
pub open spec fn addressed(at: Seq<Address>, owner: nat) -> bool {
    &&& at.len() > 0
    &&& at[0] == home()
    &&& forall|k: int|
        0 < k < at.len() && (#[trigger] at[k]).path.len() == 0 ==> at[k] == fresh(owner, k as nat)
}

/// The address of the file comes first.
pub open spec fn rooted(at: Seq<Address>) -> bool {
    at.len() > 0 && at[0] == home()
}

/// A longer list of addresses keeps what scopes see.
proof fn scopes_stay(t: Twin, u: Twin)
    requires
        tracks(t),
        u.base == t.base,
        u.full.scopes == t.full.scopes,
        u.low.scopes == t.low.scopes,
        t.full_at.len() <= u.full_at.len(),
        u.full_at.take(t.full_at.len() as int) == t.full_at,
        t.low_at.len() <= u.low_at.len(),
        u.low_at.take(t.low_at.len() as int) == t.low_at,
    ensures
        forall|s: int|
            #![trigger u.low.scopes[s]]
            0 <= s < u.low.scopes.len() ==> scopes_match(u, s),
{
    reveal(tracks);
    reveal(charted);
    assert forall|s: int|
        #![trigger u.low.scopes[s]]
        0 <= s < u.low.scopes.len() implies scopes_match(u, s) by {
        let b = t.low.scopes[s];
        assert(scopes_match(t, s));
        let g = lifted(t, s as nat) as int;
        let a = t.full.scopes[g];
        assert(0 <= g < t.full.scopes.len());
        assert(u.low_at[b.definitions as int] == u.low_at.take(t.low_at.len() as int)[
            b.definitions as int]);
        assert(u.low_at[b.lookup as int] == u.low_at.take(t.low_at.len() as int)[b.lookup as int]);
        assert(u.full_at[a.definitions as int] == u.full_at.take(t.full_at.len() as int)[
            a.definitions as int]);
        assert(u.full_at[a.lookup as int] == u.full_at.take(t.full_at.len() as int)[
            a.lookup as int]);
    }
}

/// Both runs enter a namespace of their own.
proof fn space_tracks(t: Twin) -> (u: Twin)
    requires
        tracks(t),
    ensures
        tracks(u),
        akin(t, u),
        u.full == name_analysis::with_space(t.full),
        u.low == name_analysis::with_space(t.low),
        u.full_at[t.full.spaces.len() as int] == u.low_at[t.low.spaces.len() as int],
{
    reveal(tracks);
    let a = fresh(t.owner, t.low_at.len());
    assert(t.low_at.len() == t.low.spaces.len() && t.full_at.len() == t.full.spaces.len()) by {
        reveal(charted);
    }
    if t.full_at.contains(a) {
        let k = choose|k: int| 0 <= k < t.full_at.len() && t.full_at[k] == a;
        assert(t.full_at[k].slot < t.low_at.len());
    }
    if t.low_at.contains(a) {
        let k = choose|k: int| 0 <= k < t.low_at.len() && t.low_at[k] == a;
        assert(t.full_at.contains(t.low_at[k]));
    }
    chart_space(t.full, t.full_at, a);
    chart_space(t.low, t.low_at, a);
    let u = Twin {
        full: name_analysis::with_space(t.full),
        full_at: t.full_at.push(a),
        low: name_analysis::with_space(t.low),
        low_at: t.low_at.push(a),
        ..t
    };
    scopes_stay(t, u);
    assert forall|k: int| 0 <= k < u.low_at.len() implies u.full_at.contains(
        #[trigger] u.low_at[k],
    ) by {
        if k < t.low_at.len() {
            assert(t.full_at.contains(t.low_at[k]));
            let j = choose|j: int| 0 <= j < t.full_at.len() && t.full_at[j] == t.low_at[k];
            assert(u.full_at[j] == u.low_at[k]);
        } else {
            assert(u.full_at[t.full_at.len() as int] == u.low_at[k]);
        }
    }
    assert forall|k: int|
        0 <= k < u.full_at.len() && (#[trigger] u.full_at[k]).owner == u.owner implies u.full_at[k].slot
        < u.low_at.len() by {
        if k < t.full_at.len() {
            assert(t.full_at[k] == u.full_at[k]);
        }
    }
    assert forall|k: int| 0 <= k < u.full_at.len() implies owned(
        u.base_at,
        u.owner,
        #[trigger] u.full_at[k],
    ) by {
        if k < t.full_at.len() {
            assert(owned(t.base_at, t.owner, t.full_at[k]));
        }
    }
    u
}

/// Both runs look up, or create, a child.
proof fn child_tracks(t: Twin, parent: nat, low_parent: nat, name: Seq<char>) -> (u: Twin)
    requires
        tracks(t),
        parent < t.full_at.len(),
        low_parent < t.low_at.len(),
        t.full_at[parent as int] == t.low_at[low_parent as int],
    ensures
        tracks(u),
        akin(t, u),
        u.full == name_analysis::child_of(t.full, parent, name).0,
        u.low == name_analysis::child_of(t.low, low_parent, name).0,
        u.full.scopes == t.full.scopes,
        u.low.scopes == t.low.scopes,
        name_analysis::child_of(t.full, parent, name).1 < u.full_at.len(),
        name_analysis::child_of(t.low, low_parent, name).1 < u.low_at.len(),
        u.full_at[name_analysis::child_of(t.full, parent, name).1 as int]
            == u.low_at[name_analysis::child_of(t.low, low_parent, name).1 as int],
{
    reveal(tracks);
    let a = below(t.full_at[parent as int], name);
    chart_child(t.full, t.full_at, parent, name);
    chart_child(t.low, t.low_at, low_parent, name);
    child_taken(t.full, t.full_at, parent, name);
    child_taken(t.low, t.low_at, low_parent, name);
    let u = Twin {
        full: name_analysis::child_of(t.full, parent, name).0,
        full_at: child_chart(t.full, t.full_at, parent, name),
        low: name_analysis::child_of(t.low, low_parent, name).0,
        low_at: child_chart(t.low, t.low_at, low_parent, name),
        ..t
    };
    scopes_stay(t, u);
    assert(u.full_at.contains(a)) by {
        let c = name_analysis::child_of(t.full, parent, name).1;
        assert(u.full_at[c as int] == a);
    }
    assert forall|k: int| 0 <= k < u.low_at.len() implies u.full_at.contains(
        #[trigger] u.low_at[k],
    ) by {
        if k < t.low_at.len() {
            assert(u.low_at[k] == t.low_at[k]);
            assert(t.full_at.contains(t.low_at[k]));
            let j = choose|j: int| 0 <= j < t.full_at.len() && t.full_at[j] == t.low_at[k];
            assert(u.full_at[j] == u.low_at[k]);
        }
    }
    assert forall|k: int|
        0 <= k < u.full_at.len() && (#[trigger] u.full_at[k]).owner == u.owner implies u.full_at[k].slot
        < u.low_at.len() by {
        if k < t.full_at.len() {
            assert(t.full_at[k] == u.full_at[k]);
        } else {
            assert(t.full_at[parent as int].owner == t.owner);
        }
    }
    assert forall|k: int| 0 <= k < u.full_at.len() implies owned(
        u.base_at,
        u.owner,
        #[trigger] u.full_at[k],
    ) by {
        if k < t.full_at.len() {
            assert(owned(t.base_at, t.owner, t.full_at[k]));
        } else {
            assert(owned(t.base_at, t.owner, t.full_at[parent as int]));
        }
    }
    u
}

/// Where a scope of the two runs defines names and looks them up.
proof fn scope_spots(t: Twin, s: nat)
    requires
        tracks(t),
        s < t.low.scopes.len(),
    ensures
        ({
            let a = t.full.scopes[lifted(t, s) as int];
            let b = t.low.scopes[s as int];
            &&& lifted(t, s) < t.full.scopes.len()
            &&& a.definitions < t.full_at.len()
            &&& b.definitions < t.low_at.len()
            &&& t.full_at[a.definitions as int] == t.low_at[b.definitions as int]
            &&& a.lookup < t.full_at.len()
            &&& b.lookup < t.low_at.len()
            &&& t.full_at[a.lookup as int] == t.low_at[b.lookup as int]
            &&& a.alias == b.alias
            &&& match b.parent {
                Some(parent) => a.parent == Some(lifted(t, parent)) && parent < s,
                None => a.parent is None,
            }
            &&& t.full_at.len() == t.full.spaces.len()
            &&& t.low_at.len() == t.low.spaces.len()
            &&& t.full.scopes.len() == lifted(t, t.low.scopes.len())
            &&& t.low.scopes.len() > 0
            &&& t.base.scopes.len() > 0
        }),
{
    reveal(tracks);
    reveal(charted);
    assert(scopes_match(t, s as int)) by {
        assert(t.low.scopes[s as int] == t.low.scopes[s as int]);
    }
    let a = t.full.scopes[lifted(t, s) as int];
    let b = t.low.scopes[s as int];
}

/// Both runs introduce a name, without its namespace.
proof fn mark_tracks(t: Twin, space: nat, low_space: nat, name: Seq<char>, line: nat) -> (u: Twin)
    requires
        tracks(t),
        space < t.full_at.len(),
        low_space < t.low_at.len(),
        t.full_at[space as int] == t.low_at[low_space as int],
    ensures
        tracks(u),
        akin(t, u),
        u.full == marked(t.full, space, name, line),
        u.low == marked(t.low, low_space, name, line),
        u.full_at == t.full_at,
        u.low_at == t.low_at,
{
    reveal(tracks);
    chart_mark(t.full, t.full_at, space, name, line);
    chart_mark(t.low, t.low_at, low_space, name, line);
    let u = Twin {
        full: marked(t.full, space, name, line),
        low: marked(t.low, low_space, name, line),
        ..t
    };
    assert(u.full_at.take(t.full_at.len() as int) =~= t.full_at);
    assert(u.low_at.take(t.low_at.len() as int) =~= t.low_at);
    scopes_stay(t, u);
    assert(introductions(u.full, u.full_at) =~= introductions(u.base, u.base_at).union(
        introductions(u.low, u.low_at),
    ));
    u
}

/// Both runs use a name of a namespace.
proof fn note_tracks(t: Twin, space: nat, low_space: nat, name: Seq<char>, line: nat) -> (u: Twin)
    requires
        tracks(t),
        space < t.full_at.len(),
        low_space < t.low_at.len(),
        t.full_at[space as int] == t.low_at[low_space as int],
    ensures
        tracks(u),
        akin(t, u),
        u.full == noted(t.full, space, name, line),
        u.low == noted(t.low, low_space, name, line),
{
    reveal(tracks);
    chart_use(t.full, t.full_at, space, name, line);
    chart_use(t.low, t.low_at, low_space, name, line);
    let u = Twin {
        full: noted(t.full, space, name, line),
        low: noted(t.low, low_space, name, line),
        ..t
    };
    assert(u.full_at.take(t.full_at.len() as int) =~= t.full_at);
    assert(u.low_at.take(t.low_at.len() as int) =~= t.low_at);
    scopes_stay(t, u);
    assert(uses(u.full, u.full_at) =~= uses(u.base, u.base_at).union(uses(u.low, u.low_at)));
    u
}

/// Both runs introduce a name and enter its namespace.
proof fn introduced_tracks(
    t: Twin,
    space: nat,
    low_space: nat,
    name: Seq<char>,
    line: nat,
) -> (u: Twin)
    requires
        tracks(t),
        space < t.full_at.len(),
        low_space < t.low_at.len(),
        t.full_at[space as int] == t.low_at[low_space as int],
    ensures
        ({
            let (m, c) = name_analysis::introduced(t.full, space, name, line);
            let (l, d) = name_analysis::introduced(t.low, low_space, name, line);
            &&& tracks(u)
            &&& akin(t, u)
            &&& u.full == m
            &&& u.low == l
            &&& u.full.scopes == t.full.scopes
            &&& u.low.scopes == t.low.scopes
            &&& c < u.full_at.len()
            &&& d < u.low_at.len()
            &&& u.full_at[c as int] == u.low_at[d as int]
        }),
{
    let a = mark_tracks(t, space, low_space, name, line);
    child_tracks(a, space, low_space, name)
}

proof fn introduced_path_tracks(
    t: Twin,
    start: nat,
    low_start: nat,
    path: Seq<Seq<char>>,
    line: nat,
) -> (u: Twin)
    requires
        tracks(t),
        start < t.full_at.len(),
        low_start < t.low_at.len(),
        t.full_at[start as int] == t.low_at[low_start as int],
    ensures
        ({
            let (m, c) = name_analysis::introduced_path(t.full, start, path, line);
            let (l, d) = name_analysis::introduced_path(t.low, low_start, path, line);
            &&& tracks(u)
            &&& akin(t, u)
            &&& u.full == m
            &&& u.low == l
            &&& u.full.scopes == t.full.scopes
            &&& u.low.scopes == t.low.scopes
            &&& c < u.full_at.len()
            &&& d < u.low_at.len()
            &&& u.full_at[c as int] == u.low_at[d as int]
        }),
    decreases path.len(),
{
    if path.len() == 0 {
        t
    } else {
        let a = introduced_path_tracks(t, start, low_start, path.drop_last(), line);
        let c = name_analysis::introduced_path(t.full, start, path.drop_last(), line).1;
        let d = name_analysis::introduced_path(t.low, low_start, path.drop_last(), line).1;
        introduced_tracks(a, c, d, path.last(), line)
    }
}

proof fn ensured_path_tracks(
    t: Twin,
    start: nat,
    low_start: nat,
    path: Seq<Seq<char>>,
) -> (u: Twin)
    requires
        tracks(t),
        start < t.full_at.len(),
        low_start < t.low_at.len(),
        t.full_at[start as int] == t.low_at[low_start as int],
    ensures
        ({
            let (m, c) = name_analysis::ensured_path(t.full, start, path);
            let (l, d) = name_analysis::ensured_path(t.low, low_start, path);
            &&& tracks(u)
            &&& akin(t, u)
            &&& u.full == m
            &&& u.low == l
            &&& u.full.scopes == t.full.scopes
            &&& u.low.scopes == t.low.scopes
            &&& c < u.full_at.len()
            &&& d < u.low_at.len()
            &&& u.full_at[c as int] == u.low_at[d as int]
        }),
    decreases path.len(),
{
    if path.len() == 0 {
        t
    } else {
        let a = ensured_path_tracks(t, start, low_start, path.drop_last());
        let c = name_analysis::ensured_path(t.full, start, path.drop_last()).1;
        let d = name_analysis::ensured_path(t.low, low_start, path.drop_last()).1;
        child_tracks(a, c, d, path.last())
    }
}

/// Scopes that escape in both runs stay beside each other.
proof fn escaped_matches(t: Twin, scope: nat, depth: nat)
    requires
        tracks(t),
        scope < t.low.scopes.len(),
    ensures
        ({
            let s = name_analysis::escaped(t.low.scopes, scope, depth);
            &&& s < t.low.scopes.len()
            &&& name_analysis::escaped(t.full.scopes, lifted(t, scope), depth) == lifted(t, s)
        }),
    decreases depth,
{
    if depth > 0 {
        scope_spots(t, scope);
        if let Some(parent) = t.low.scopes[scope as int].parent {
            escaped_matches(t, parent, (depth - 1) as nat);
        }
    }
}

/// The namespaces that a local sees have the same addresses in both runs.
proof fn visible_matches(t: Twin, scope: nat, seen: Seq<nat>, low_seen: Seq<nat>)
    requires
        tracks(t),
        scope < t.low.scopes.len(),
        addresses(t.full_at, seen) == addresses(t.low_at, low_seen),
        forall|j: int| 0 <= j < seen.len() ==> #[trigger] seen[j] < t.full_at.len(),
        forall|j: int| 0 <= j < low_seen.len() ==> #[trigger] low_seen[j] < t.low_at.len(),
    ensures
        ({
            let v = name_analysis::visible_from(t.full.scopes, lifted(t, scope), seen);
            let w = name_analysis::visible_from(t.low.scopes, scope, low_seen);
            &&& addresses(t.full_at, v) == addresses(t.low_at, w)
            &&& forall|j: int| 0 <= j < v.len() ==> #[trigger] v[j] < t.full_at.len()
            &&& forall|j: int| 0 <= j < w.len() ==> #[trigger] w[j] < t.low_at.len()
        }),
    decreases scope,
{
    scope_spots(t, scope);
    let a = t.full.scopes[lifted(t, scope) as int];
    let b = t.low.scopes[scope as int];
    let x = t.full_at[a.lookup as int];
    assert(addresses(t.full_at, seen).len() == seen.len());
    assert(addresses(t.low_at, low_seen).len() == low_seen.len());
    assert(seen.contains(a.lookup) == low_seen.contains(b.lookup)) by {
        reveal(tracks);
        reveal(charted);
        if seen.contains(a.lookup) {
            let j = choose|j: int| 0 <= j < seen.len() && seen[j] == a.lookup;
            assert(addresses(t.full_at, seen)[j] == x);
            assert(addresses(t.low_at, low_seen)[j] == t.low_at[low_seen[j] as int]);
            assert(low_seen[j] < t.low_at.len());
            assert(low_seen[j] == b.lookup);
        }
        if low_seen.contains(b.lookup) {
            let j = choose|j: int| 0 <= j < low_seen.len() && low_seen[j] == b.lookup;
            assert(addresses(t.low_at, low_seen)[j] == x);
            assert(addresses(t.full_at, seen)[j] == t.full_at[seen[j] as int]);
            assert(seen[j] < t.full_at.len());
            assert(seen[j] == a.lookup);
        }
    }
    let now = if seen.contains(a.lookup) {
        seen
    } else {
        seen.push(a.lookup)
    };
    let low_now = if low_seen.contains(b.lookup) {
        low_seen
    } else {
        low_seen.push(b.lookup)
    };
    assert(addresses(t.full_at, now) == addresses(t.low_at, low_now)) by {
        if !seen.contains(a.lookup) {
            assert(addresses(t.full_at, now) =~= addresses(t.full_at, seen).push(x));
            assert(addresses(t.low_at, low_now) =~= addresses(t.low_at, low_seen).push(x));
        }
    }
    if let Some(parent) = b.parent {
        visible_matches(t, parent, now, low_now);
        assert(lifted(t, parent) < lifted(t, scope));
        assert(name_analysis::visible_from(t.full.scopes, lifted(t, scope), seen)
            == name_analysis::visible_from(t.full.scopes, lifted(t, parent), now));
        assert(name_analysis::visible_from(t.low.scopes, scope, low_seen)
            == name_analysis::visible_from(t.low.scopes, parent, low_now));
    } else {
        assert(name_analysis::visible_from(t.full.scopes, lifted(t, scope), seen) == now);
        assert(name_analysis::visible_from(t.low.scopes, scope, low_seen) == low_now);
    }
}

/// Both runs bind a local.
proof fn bound_tracks(
    t: Twin,
    raw: Seq<char>,
    canonical: Seq<char>,
    line: nat,
    scope: nat,
) -> (u: Twin)
    requires
        tracks(t),
        scope < t.low.scopes.len(),
    ensures
        tracks(u),
        akin(t, u),
        u.full == name_analysis::bound(t.full, raw, canonical, line, lifted(t, scope)),
        u.low == name_analysis::bound(t.low, raw, canonical, line, scope),
{
    let u = Twin {
        full: name_analysis::bound(t.full, raw, canonical, line, lifted(t, scope)),
        low: name_analysis::bound(t.low, raw, canonical, line, scope),
        ..t
    };
    scope_spots(t, scope);
    assert(addresses(t.full_at, Seq::empty()) =~= addresses(t.low_at, Seq::empty()));
    visible_matches(t, scope, Seq::empty(), Seq::empty());
    reveal(tracks);
    assert(u.full.binders.drop_last() =~= t.full.binders);
    assert(u.low.binders.drop_last() =~= t.low.binders);
    bound_charted(t.full, t.full_at, u.full);
    bound_charted(t.low, t.low_at, u.low);
    assert(u.full_at.take(t.full_at.len() as int) =~= t.full_at);
    assert(u.low_at.take(t.low_at.len() as int) =~= t.low_at);
    scopes_stay(t, u);
    assert(locals_of(u.full, u.full_at) =~= locals_of(u.base, u.base_at) + locals_of(
        u.low,
        u.low_at,
    )) by {
        let x = local_of(u.full_at, u.full.binders.last());
        assert(x == local_of(u.low_at, u.low.binders.last()));
        assert(locals_of(u.full, u.full_at) =~= locals_of(t.full, t.full_at).push(x));
        assert(locals_of(u.low, u.low_at) =~= locals_of(t.low, t.low_at).push(x));
    }
    u
}

/// One more local leaves the namespaces as they are.
proof fn bound_charted(n: Names, at: Seq<Address>, m: Names)
    requires
        charted(n, at),
        m.spaces == n.spaces,
        m.scopes == n.scopes,
        m.binders.len() == n.binders.len() + 1,
        m.binders.drop_last() == n.binders,
        forall|j: int|
            0 <= j < m.binders.last().visible.len() ==> #[trigger] m.binders.last().visible[j]
                < at.len(),
    ensures
        charted(m, at),
        introductions(m, at) == introductions(n, at),
        uses(m, at) == uses(n, at),
{
    reveal(charted);
    assert forall|b: int, j: int|
        0 <= b < m.binders.len() && 0 <= j < m.binders[b].visible.len() implies (
    #[trigger] m.binders[b].visible[j]) < m.spaces.len() by {
        if b < n.binders.len() {
            assert(m.binders.drop_last()[b] == m.binders[b]);
            assert(n.binders[b].visible[j] < n.spaces.len());
        } else {
            assert(m.binders.last().visible[j] < at.len());
        }
    }
    assert(name_analysis::wf(m));
    chart_same(n, at, m);
    assert(introductions(m, at) =~= introductions(n, at));
    assert(uses(m, at) =~= uses(n, at));
}

/// Both runs enter an object body.
proof fn entered_tracks(
    t: Twin,
    alias: Option<Seq<char>>,
    line: nat,
    parent: nat,
    space: nat,
    low_space: nat,
    kind: BodyScopeKind,
) -> (u: Twin)
    requires
        tracks(t),
        parent < t.low.scopes.len(),
        space < t.full_at.len(),
        low_space < t.low_at.len(),
        t.full_at[space as int] == t.low_at[low_space as int],
    ensures
        tracks(u),
        akin(t, u),
        u.full == name_analysis::entered(t.full, alias, line, lifted(t, parent), space, kind),
        u.low == name_analysis::entered(t.low, alias, line, parent, low_space, kind),
        t.low.scopes.len() < u.low.scopes.len(),
        lifted(t, t.low.scopes.len()) == t.full.scopes.len(),
{
    scope_spots(t, parent);
    let canonical = match alias {
        Some(raw) => names::canonical_name(raw),
        None => None,
    };
    let own = (kind == BodyScopeKind::Object && canonical is None) || (kind
        == BodyScopeKind::Dictionary && canonical == Some("self"@));
    let scope = Scope {
        definitions: space,
        lookup: if own {
            space
        } else {
            t.full.scopes[lifted(t, parent) as int].lookup
        },
        alias: canonical,
        parent: Some(lifted(t, parent)),
    };
    let low_scope = Scope {
        definitions: low_space,
        lookup: if own {
            low_space
        } else {
            t.low.scopes[parent as int].lookup
        },
        alias: canonical,
        parent: Some(parent),
    };
    let u = Twin {
        full: Names { scopes: t.full.scopes.push(scope), ..t.full },
        low: Names { scopes: t.low.scopes.push(low_scope), ..t.low },
        ..t
    };
    assert(tracks(u)) by {
        reveal(tracks);
        scope_charted(t.full, t.full_at, scope);
        scope_charted(t.low, t.low_at, low_scope);
        assert forall|s: int|
            #![trigger u.low.scopes[s]]
            0 <= s < u.low.scopes.len() implies scopes_match(u, s) by {
            if s < t.low.scopes.len() {
                scope_spots(t, s as nat);
                assert(u.full.scopes[lifted(t, s as nat) as int] == t.full.scopes[lifted(
                    t,
                    s as nat,
                ) as int]);
                assert(u.low.scopes[s] == t.low.scopes[s]);
            } else {
                assert(u.full.scopes[lifted(t, s as nat) as int] == scope);
                assert(u.low.scopes[s] == low_scope);
            }
        }
        assert(locals_of(u.full, u.full_at) =~= locals_of(t.full, t.full_at));
        assert(locals_of(u.low, u.low_at) =~= locals_of(t.low, t.low_at));
    }
    match canonical {
        Some(name) => bound_tracks(u, alias->0, name, line, t.low.scopes.len()),
        None => u,
    }
}

/// One more scope leaves the namespaces as they are.
proof fn scope_charted(n: Names, at: Seq<Address>, scope: Scope)
    requires
        charted(n, at),
        scope.definitions < at.len(),
        scope.lookup < at.len(),
        scope.parent matches Some(parent) && parent < n.scopes.len(),
    ensures
        ({
            let m = Names { scopes: n.scopes.push(scope), ..n };
            &&& charted(m, at)
            &&& introductions(m, at) == introductions(n, at)
            &&& uses(m, at) == uses(n, at)
        }),
{
    reveal(charted);
    let m = Names { scopes: n.scopes.push(scope), ..n };
    assert(name_analysis::wf(m)) by {
        assert forall|s: int| 0 <= s < m.scopes.len() implies {
            &&& (#[trigger] m.scopes[s]).definitions < m.spaces.len()
            &&& m.scopes[s].lookup < m.spaces.len()
            &&& m.scopes[s].parent matches Some(parent) ==> parent < s
        } by {
            if s < n.scopes.len() {
                assert(m.scopes[s] == n.scopes[s]);
            }
        }
    }
    chart_same(n, at, m);
    assert(introductions(m, at) =~= introductions(n, at));
    assert(uses(m, at) =~= uses(n, at));
}

/// Both runs use a name.
proof fn name_used_tracks(
    t: Twin,
    name: Seq<char>,
    line: nat,
    scope: nat,
    locals: Seq<Seq<char>>,
) -> (u: Twin)
    requires
        tracks(t),
        scope < t.low.scopes.len(),
    ensures
        tracks(u),
        akin(t, u),
        u.full == name_analysis::name_used(t.full, name, line, lifted(t, scope), locals),
        u.low == name_analysis::name_used(t.low, name, line, scope, locals),
{
    scope_spots(t, scope);
    let a = t.full.scopes[lifted(t, scope) as int];
    let b = t.low.scopes[scope as int];
    if name == "module"@ || name == "self"@ || locals.contains(name) || a.alias == Some(name) {
        t
    } else {
        note_tracks(t, a.lookup, b.lookup, name, line)
    }
}

/// A walk in both runs.
pub struct Stroll {
    pub t: Twin,
    pub locals: Seq<Seq<char>>,
    pub unresolved: Seq<Seq<char>>,
}

pub open spec fn full_walk(w: Stroll) -> Walk {
    Walk { names: w.t.full, locals: w.locals, unresolved: w.unresolved }
}

pub open spec fn low_walk(w: Stroll) -> Walk {
    Walk { names: w.t.low, locals: w.locals, unresolved: w.unresolved }
}

proof fn pushed_tracks(w: Stroll, raw: Seq<char>, line: nat, scope: nat) -> (u: Stroll)
    requires
        tracks(w.t),
        scope < w.t.low.scopes.len(),
    ensures
        tracks(u.t),
        akin(w.t, u.t),
        full_walk(u) == name_analysis::pushed(full_walk(w), raw, line, lifted(w.t, scope)),
        low_walk(u) == name_analysis::pushed(low_walk(w), raw, line, scope),
{
    match names::canonical_name(raw) {
        Some(canonical) => Stroll {
            t: bound_tracks(w.t, raw, canonical, line, scope),
            locals: w.locals.push(canonical),
            ..w
        },
        None => w,
    }
}

proof fn pushed_all_track(w: Stroll, raws: Seq<Seq<char>>, line: nat, scope: nat) -> (u: Stroll)
    requires
        tracks(w.t),
        scope < w.t.low.scopes.len(),
    ensures
        tracks(u.t),
        akin(w.t, u.t),
        full_walk(u) == name_analysis::pushed_all(full_walk(w), raws, line, lifted(w.t, scope)),
        low_walk(u) == name_analysis::pushed_all(low_walk(w), raws, line, scope),
    decreases raws.len(),
{
    if raws.len() == 0 {
        w
    } else {
        let a = pushed_all_track(w, raws.drop_last(), line, scope);
        pushed_tracks(a, raws.last(), line, scope)
    }
}

proof fn caught_tracks(w: Stroll, raw: Seq<char>, line: nat, scope: nat) -> (u: Stroll)
    requires
        tracks(w.t),
        scope < w.t.low.scopes.len(),
    ensures
        tracks(u.t),
        akin(w.t, u.t),
        full_walk(u) == name_analysis::caught(full_walk(w), raw, line, lifted(w.t, scope)),
        low_walk(u) == name_analysis::caught(low_walk(w), raw, line, scope),
{
    let k = analysis::last_index(w.unresolved, names::canonical_name(raw));
    if k >= 0 {
        Stroll { unresolved: w.unresolved.remove(k), ..w }
    } else {
        pushed_tracks(w, raw, line, scope)
    }
}

proof fn declared_tracks(w: Stroll, raw: Seq<char>, line: nat, scope: nat) -> (u: Stroll)
    requires
        tracks(w.t),
        scope < w.t.low.scopes.len(),
    ensures
        tracks(u.t),
        akin(w.t, u.t),
        full_walk(u) == name_analysis::declared(full_walk(w), raw, line, lifted(w.t, scope)),
        low_walk(u) == name_analysis::declared(low_walk(w), raw, line, scope),
{
    let a = pushed_tracks(w, raw, line, scope);
    match names::canonical_name(raw) {
        Some(canonical) => Stroll { unresolved: a.unresolved.push(canonical), ..a },
        None => a,
    }
}

proof fn declared_all_track(w: Stroll, raws: Seq<Seq<char>>, line: nat, scope: nat) -> (u: Stroll)
    requires
        tracks(w.t),
        scope < w.t.low.scopes.len(),
    ensures
        tracks(u.t),
        akin(w.t, u.t),
        full_walk(u) == name_analysis::declared_all(full_walk(w), raws, line, lifted(w.t, scope)),
        low_walk(u) == name_analysis::declared_all(low_walk(w), raws, line, scope),
    decreases raws.len(),
{
    if raws.len() == 0 {
        w
    } else {
        let a = declared_all_track(w, raws.drop_last(), line, scope);
        declared_tracks(a, raws.last(), line, scope)
    }
}

/// A walk of both runs that starts with no abstract names.
pub open spec fn begun(t: Twin, locals: Seq<Seq<char>>) -> Stroll {
    Stroll { t, locals, unresolved: Seq::empty() }
}

/// The state after an object body with a namespace of its own.
pub open spec fn with_body(
    n: Names,
    alias: Option<Seq<char>>,
    body: Seq<ObjectBodyDefinition>,
    line: nat,
    scope: nat,
    locals: Seq<Seq<char>>,
    kind: BodyScopeKind,
) -> Names {
    let c = name_analysis::with_space(n);
    let d = name_analysis::entered(c, alias, line, scope, n.spaces.len(), kind);
    name_analysis::n_items(d, body, c.scopes.len(), locals)
}

proof fn expr_tracks(t: Twin, expr: SyntaxExpr, line: nat, scope: nat, locals: Seq<Seq<char>>) -> (u: Twin)
    requires
        tracks(t),
        scope < t.low.scopes.len(),
    ensures
        tracks(u),
        akin(t, u),
        u.full == name_analysis::n_expr(t.full, expr, line, lifted(t, scope), locals),
        u.low == name_analysis::n_expr(t.low, expr, line, scope, locals),
    decreases expr, 1nat,
{
    match expr {
        SyntaxExpr::Unit => t,
        SyntaxExpr::Embedded(_) => t,
        SyntaxExpr::Number(_) => t,
        SyntaxExpr::Text(_) => t,
        SyntaxExpr::Atom(_) => t,
        SyntaxExpr::Effect(_) => t,
        SyntaxExpr::PriorName(_) => t,
        SyntaxExpr::Name(name) => name_used_tracks(t, name@, line, scope, locals),
        SyntaxExpr::Escape(depth, inner) => {
            escaped_matches(t, scope, depth as nat);
            let out = name_analysis::escaped(t.low.scopes, scope, depth as nat);
            expr_tracks(t, *inner, line, out, locals)
        },
        SyntaxExpr::Access(base, path) => {
            let a = expr_tracks(t, *base, line, scope, locals);
            keys_track(a, path@, line, scope, locals)
        },
        SyntaxExpr::Object(object) => {
            let a = match object.name {
                Some(name) => expr_tracks(t, *name, line, scope, locals),
                None => t,
            };
            let b = exprs_track(a, object.deps@, line, scope, locals);
            body_tracks(
                b,
                name_analysis::alias_of(object.alias),
                object.body@,
                line,
                scope,
                locals,
                BodyScopeKind::Object,
            )
        },
        SyntaxExpr::With { base, alias, body } => {
            let b = expr_tracks(t, *base, line, scope, locals);
            body_tracks(
                b,
                name_analysis::alias_of(alias),
                body@,
                line,
                scope,
                locals,
                BodyScopeKind::Dictionary,
            )
        },
        SyntaxExpr::Using { namespace, body } => {
            let a = expr_tracks(t, *namespace, line, scope, locals);
            expr_tracks(a, *body, line, scope, locals)
        },
        SyntaxExpr::PathDict(path, value) => {
            let a = keys_track(t, path@, line, scope, locals);
            expr_tracks(a, *value, line, scope, locals)
        },
        SyntaxExpr::TaggedConstructor(path) => keys_track(t, path@, line, scope, locals),
        SyntaxExpr::DictUnion(items) => exprs_track(t, items@, line, scope, locals),
        SyntaxExpr::List(items) => exprs_track(t, items@, line, scope, locals),
        SyntaxExpr::Tuple(items) => exprs_track(t, items@, line, scope, locals),
        SyntaxExpr::Lambda(params, body) => {
            let w = pushed_all_track(begun(t, locals), text::texts(params@), line, scope);
            expr_tracks(w.t, *body, line, scope, w.locals)
        },
        SyntaxExpr::Do(block) => {
            let w = steps_track(begun(t, locals), block.steps@, scope);
            expr_tracks(w.t, *block.result, block.result_line as nat, scope, w.locals)
        },
        SyntaxExpr::If(choice) => {
            let w = guards_track(begun(t, locals), choice.guards@, line, scope);
            let a = expr_tracks(w.t, *choice.then_result, line, scope, w.locals);
            expr_tracks(a, *choice.else_result, line, scope, locals)
        },
        SyntaxExpr::Match(choice) => {
            let a = expr_tracks(t, *choice.subject, line, scope, locals);
            arms_track(a, choice.arms@, scope, locals)
        },
        SyntaxExpr::MatchWhen(choice) => when_arms_track(t, choice.arms@, scope, locals),
        SyntaxExpr::Let { bindings, body } => {
            let a = bindings_track(t, bindings@, line, scope, locals);
            let w = pushed_all_track(
                begun(a, locals),
                analysis::binding_names(bindings@),
                line,
                scope,
            );
            expr_tracks(w.t, *body, line, scope, w.locals)
        },
        SyntaxExpr::OperatorSection { operator, left, right } => {
            let a = match left {
                Some(left) => expr_tracks(t, *left, line, scope, locals),
                None => t,
            };
            match right {
                Some(right) => expr_tracks(a, *right, line, scope, locals),
                None => a,
            }
        },
        SyntaxExpr::ComparisonChain { first, rest } => {
            let a = expr_tracks(t, *first, line, scope, locals);
            links_track(a, rest@, line, scope, locals)
        },
        SyntaxExpr::OperatorApply { operator, left, right } => {
            let a = expr_tracks(t, *left, line, scope, locals);
            expr_tracks(a, *right, line, scope, locals)
        },
        SyntaxExpr::Apply(left, right) => {
            let a = expr_tracks(t, *left, line, scope, locals);
            expr_tracks(a, *right, line, scope, locals)
        },
        SyntaxExpr::Multiply(left, right) => {
            let a = expr_tracks(t, *left, line, scope, locals);
            expr_tracks(a, *right, line, scope, locals)
        },
        SyntaxExpr::Divide(left, right) => {
            let a = expr_tracks(t, *left, line, scope, locals);
            expr_tracks(a, *right, line, scope, locals)
        },
        SyntaxExpr::Add(left, right) => {
            let a = expr_tracks(t, *left, line, scope, locals);
            expr_tracks(a, *right, line, scope, locals)
        },
        SyntaxExpr::Subtract(left, right) => {
            let a = expr_tracks(t, *left, line, scope, locals);
            expr_tracks(a, *right, line, scope, locals)
        },
        SyntaxExpr::Append(left, right) => {
            let a = expr_tracks(t, *left, line, scope, locals);
            expr_tracks(a, *right, line, scope, locals)
        },
    }
}

proof fn body_tracks(
    t: Twin,
    alias: Option<Seq<char>>,
    body: Seq<ObjectBodyDefinition>,
    line: nat,
    scope: nat,
    locals: Seq<Seq<char>>,
    kind: BodyScopeKind,
) -> (u: Twin)
    requires
        tracks(t),
        scope < t.low.scopes.len(),
    ensures
        tracks(u),
        akin(t, u),
        u.full == with_body(t.full, alias, body, line, lifted(t, scope), locals, kind),
        u.low == with_body(t.low, alias, body, line, scope, locals, kind),
    decreases body, 2nat,
{
    scope_spots(t, scope);
    let c = space_tracks(t);
    scope_spots(c, scope);
    let d = entered_tracks(
        c,
        alias,
        line,
        scope,
        t.full.spaces.len(),
        t.low.spaces.len(),
        kind,
    );
    items_track(d, body, c.low.scopes.len(), locals)
}

proof fn key_tracks(t: Twin, key: SyntaxKeyExpr, line: nat, scope: nat, locals: Seq<Seq<char>>) -> (u: Twin)
    requires
        tracks(t),
        scope < t.low.scopes.len(),
    ensures
        tracks(u),
        akin(t, u),
        u.full == name_analysis::n_key(t.full, key, line, lifted(t, scope), locals),
        u.low == name_analysis::n_key(t.low, key, line, scope, locals),
    decreases key, 1nat,
{
    match key {
        SyntaxKeyExpr::Atom(_) => t,
        SyntaxKeyExpr::Index(expr) => expr_tracks(t, *expr, line, scope, locals),
        SyntaxKeyExpr::PathIndex(expr) => expr_tracks(t, *expr, line, scope, locals),
    }
}

proof fn keys_track(t: Twin, items: Seq<SyntaxKeyExpr>, line: nat, scope: nat, locals: Seq<Seq<char>>) -> (u: Twin)
    requires
        tracks(t),
        scope < t.low.scopes.len(),
    ensures
        tracks(u),
        akin(t, u),
        u.full == name_analysis::n_keys(t.full, items, line, lifted(t, scope), locals),
        u.low == name_analysis::n_keys(t.low, items, line, scope, locals),
    decreases items, 1nat,
{
    if items.len() == 0 {
        t
    } else {
        let a = keys_track(t, items.drop_last(), line, scope, locals);
        key_tracks(a, items.last(), line, scope, locals)
    }
}

proof fn exprs_track(t: Twin, items: Seq<SyntaxExpr>, line: nat, scope: nat, locals: Seq<Seq<char>>) -> (u: Twin)
    requires
        tracks(t),
        scope < t.low.scopes.len(),
    ensures
        tracks(u),
        akin(t, u),
        u.full == name_analysis::n_exprs(t.full, items, line, lifted(t, scope), locals),
        u.low == name_analysis::n_exprs(t.low, items, line, scope, locals),
    decreases items, 1nat,
{
    if items.len() == 0 {
        t
    } else {
        let a = exprs_track(t, items.drop_last(), line, scope, locals);
        expr_tracks(a, items.last(), line, scope, locals)
    }
}

proof fn bindings_track(t: Twin, items: Seq<(String, SyntaxExpr)>, line: nat, scope: nat, locals: Seq<Seq<char>>) -> (u: Twin)
    requires
        tracks(t),
        scope < t.low.scopes.len(),
    ensures
        tracks(u),
        akin(t, u),
        u.full == name_analysis::n_bindings(t.full, items, line, lifted(t, scope), locals),
        u.low == name_analysis::n_bindings(t.low, items, line, scope, locals),
    decreases items, 1nat,
{
    if items.len() == 0 {
        t
    } else {
        let a = bindings_track(t, items.drop_last(), line, scope, locals);
        expr_tracks(a, items.last().1, line, scope, locals)
    }
}

proof fn links_track(t: Twin, items: Seq<(SyntaxOperator, SyntaxExpr)>, line: nat, scope: nat, locals: Seq<Seq<char>>) -> (u: Twin)
    requires
        tracks(t),
        scope < t.low.scopes.len(),
    ensures
        tracks(u),
        akin(t, u),
        u.full == name_analysis::n_links(t.full, items, line, lifted(t, scope), locals),
        u.low == name_analysis::n_links(t.low, items, line, scope, locals),
    decreases items, 1nat,
{
    if items.len() == 0 {
        t
    } else {
        let a = links_track(t, items.drop_last(), line, scope, locals);
        expr_tracks(a, items.last().1, line, scope, locals)
    }
}

proof fn items_track(t: Twin, items: Seq<ObjectBodyDefinition>, scope: nat, locals: Seq<Seq<char>>) -> (u: Twin)
    requires
        tracks(t),
        scope < t.low.scopes.len(),
    ensures
        tracks(u),
        akin(t, u),
        u.full == name_analysis::n_items(t.full, items, lifted(t, scope), locals),
        u.low == name_analysis::n_items(t.low, items, scope, locals),
    decreases items, 1nat,
{
    if items.len() == 0 {
        t
    } else {
        let a = items_track(t, items.drop_last(), scope, locals);
        item_tracks(a, items.last(), scope, locals)
    }
}

proof fn when_arms_track(t: Twin, items: Seq<WhenArm>, scope: nat, locals: Seq<Seq<char>>) -> (u: Twin)
    requires
        tracks(t),
        scope < t.low.scopes.len(),
    ensures
        tracks(u),
        akin(t, u),
        u.full == name_analysis::n_when_arms(t.full, items, lifted(t, scope), locals),
        u.low == name_analysis::n_when_arms(t.low, items, scope, locals),
    decreases items, 1nat,
{
    if items.len() == 0 {
        t
    } else {
        let a = when_arms_track(t, items.drop_last(), scope, locals);
        when_arm_tracks(a, items.last(), scope, locals)
    }
}

proof fn arms_track(t: Twin, items: Seq<MatchArm>, scope: nat, locals: Seq<Seq<char>>) -> (u: Twin)
    requires
        tracks(t),
        scope < t.low.scopes.len(),
    ensures
        tracks(u),
        akin(t, u),
        u.full == name_analysis::n_arms(t.full, items, lifted(t, scope), locals),
        u.low == name_analysis::n_arms(t.low, items, scope, locals),
    decreases items, 1nat,
{
    if items.len() == 0 {
        t
    } else {
        let a = arms_track(t, items.drop_last(), scope, locals);
        arm_tracks(a, items.last(), scope, locals)
    }
}

proof fn patterns_track(w: Stroll, items: Seq<SyntaxPattern>, line: nat, scope: nat) -> (u: Stroll)
    requires
        tracks(w.t),
        scope < w.t.low.scopes.len(),
    ensures
        tracks(u.t),
        akin(w.t, u.t),
        full_walk(u) == name_analysis::n_patterns(full_walk(w), items, line, lifted(w.t, scope)),
        low_walk(u) == name_analysis::n_patterns(low_walk(w), items, line, scope),
    decreases items, 1nat,
{
    if items.len() == 0 {
        w
    } else {
        let a = patterns_track(w, items.drop_last(), line, scope);
        pattern_tracks(a, items.last(), line, scope)
    }
}

proof fn guards_track(w: Stroll, items: Seq<SyntaxGuardClause>, line: nat, scope: nat) -> (u: Stroll)
    requires
        tracks(w.t),
        scope < w.t.low.scopes.len(),
    ensures
        tracks(u.t),
        akin(w.t, u.t),
        full_walk(u) == name_analysis::n_guards(full_walk(w), items, line, lifted(w.t, scope)),
        low_walk(u) == name_analysis::n_guards(low_walk(w), items, line, scope),
    decreases items, 1nat,
{
    if items.len() == 0 {
        w
    } else {
        let a = guards_track(w, items.drop_last(), line, scope);
        guard_tracks(a, items.last(), line, scope)
    }
}

proof fn steps_track(w: Stroll, items: Seq<DoStep>, scope: nat) -> (u: Stroll)
    requires
        tracks(w.t),
        scope < w.t.low.scopes.len(),
    ensures
        tracks(u.t),
        akin(w.t, u.t),
        full_walk(u) == name_analysis::n_steps(full_walk(w), items, lifted(w.t, scope)),
        low_walk(u) == name_analysis::n_steps(low_walk(w), items, scope),
    decreases items, 1nat,
{
    if items.len() == 0 {
        w
    } else {
        let a = steps_track(w, items.drop_last(), scope);
        step_tracks(a, items.last(), scope)
    }
}

proof fn entries_track(w: Stroll, items: Seq<SyntaxDictPatternEntry>, line: nat, scope: nat) -> (u: Stroll)
    requires
        tracks(w.t),
        scope < w.t.low.scopes.len(),
    ensures
        tracks(u.t),
        akin(w.t, u.t),
        full_walk(u) == name_analysis::n_entries(full_walk(w), items, line, lifted(w.t, scope)),
        low_walk(u) == name_analysis::n_entries(low_walk(w), items, line, scope),
    decreases items, 1nat,
{
    if items.len() == 0 {
        w
    } else {
        let a = entries_track(w, items.drop_last(), line, scope);
        let b = keys_track(a.t, items.last().path@, line, scope, a.locals);
        pattern_tracks(Stroll { t: b, ..a }, items.last().pattern, line, scope)
    }
}

proof fn pattern_tracks(w: Stroll, pattern: SyntaxPattern, line: nat, scope: nat) -> (u: Stroll)
    requires
        tracks(w.t),
        scope < w.t.low.scopes.len(),
    ensures
        tracks(u.t),
        akin(w.t, u.t),
        full_walk(u) == name_analysis::n_pattern(full_walk(w), pattern, line, lifted(w.t, scope)),
        low_walk(u) == name_analysis::n_pattern(low_walk(w), pattern, line, scope),
    decreases pattern, 1nat,
{
    match pattern.kind {
        SyntaxPatternKind::Capture(name) => caught_tracks(w, name@, line, scope),
        SyntaxPatternKind::Wildcard => w,
        SyntaxPatternKind::Literal(_) => w,
        SyntaxPatternKind::List { prefix, middle, suffix } => {
            let a = patterns_track(w, prefix@, line, scope);
            let b = match middle {
                Some(inner) => pattern_tracks(a, *inner, line, scope),
                None => a,
            };
            patterns_track(b, suffix@, line, scope)
        },
        SyntaxPatternKind::Dict { entries, remainder } => {
            let a = entries_track(w, entries@, line, scope);
            match remainder {
                Some(inner) => pattern_tracks(a, *inner, line, scope),
                None => a,
            }
        },
        SyntaxPatternKind::QuotedPath(path) => {
            Stroll { t: keys_track(w.t, path@, line, scope, w.locals), ..w }
        },
        SyntaxPatternKind::Group(inner) => pattern_tracks(w, *inner, line, scope),
        SyntaxPatternKind::As(left, right) => {
            let a = pattern_tracks(w, *left, line, scope);
            pattern_tracks(a, *right, line, scope)
        },
        SyntaxPatternKind::View { view, pattern } => {
            let a = expr_tracks(w.t, *view, line, scope, w.locals);
            pattern_tracks(Stroll { t: a, ..w }, *pattern, line, scope)
        },
        SyntaxPatternKind::Predicate { predicate, pattern } => {
            let a = expr_tracks(w.t, *predicate, line, scope, w.locals);
            pattern_tracks(Stroll { t: a, ..w }, *pattern, line, scope)
        },
        SyntaxPatternKind::Guarded { pattern, guards } => {
            let a = pattern_tracks(w, *pattern, line, scope);
            guards_track(a, guards@, line, scope)
        },
    }
}

proof fn guard_tracks(w: Stroll, guard: SyntaxGuardClause, line: nat, scope: nat) -> (u: Stroll)
    requires
        tracks(w.t),
        scope < w.t.low.scopes.len(),
    ensures
        tracks(u.t),
        akin(w.t, u.t),
        full_walk(u) == name_analysis::n_guard(full_walk(w), guard, line, lifted(w.t, scope)),
        low_walk(u) == name_analysis::n_guard(low_walk(w), guard, line, scope),
    decreases guard, 1nat,
{
    match guard {
        SyntaxGuardClause::Pass => w,
        SyntaxGuardClause::Effect(expr) => {
            Stroll { t: expr_tracks(w.t, expr, line, scope, w.locals), ..w }
        },
        SyntaxGuardClause::EffectBind { pattern, operation } => {
            let a = expr_tracks(w.t, operation, line, scope, w.locals);
            pattern_tracks(Stroll { t: a, ..w }, pattern, line, scope)
        },
        SyntaxGuardClause::ValueBind { pattern, value } => {
            let a = expr_tracks(w.t, value, line, scope, w.locals);
            pattern_tracks(Stroll { t: a, ..w }, pattern, line, scope)
        },
    }
}

proof fn step_tracks(w: Stroll, step: DoStep, scope: nat) -> (u: Stroll)
    requires
        tracks(w.t),
        scope < w.t.low.scopes.len(),
    ensures
        tracks(u.t),
        akin(w.t, u.t),
        full_walk(u) == name_analysis::n_step(full_walk(w), step, lifted(w.t, scope)),
        low_walk(u) == name_analysis::n_step(low_walk(w), step, scope),
    decreases step, 1nat,
{
    let line = step.line as nat;
    match step.kind {
        DoStepKind::Abstract(raws) => declared_all_track(w, text::texts(raws@), line, scope),
        DoStepKind::Bind { pattern, operation } => {
            let a = expr_tracks(w.t, operation, line, scope, w.locals);
            pattern_tracks(Stroll { t: a, ..w }, pattern, line, scope)
        },
        DoStepKind::ValueBind { pattern, value } => {
            let a = expr_tracks(w.t, value, line, scope, w.locals);
            pattern_tracks(Stroll { t: a, ..w }, pattern, line, scope)
        },
        DoStepKind::Then(expr) => {
            Stroll { t: expr_tracks(w.t, expr, line, scope, w.locals), ..w }
        },
    }
}

proof fn outcome_tracks(t: Twin, outcome: MatchOutcome, scope: nat, locals: Seq<Seq<char>>) -> (u: Twin)
    requires
        tracks(t),
        scope < t.low.scopes.len(),
    ensures
        tracks(u),
        akin(t, u),
        u.full == name_analysis::n_outcome(t.full, outcome, lifted(t, scope), locals),
        u.low == name_analysis::n_outcome(t.low, outcome, scope, locals),
    decreases outcome, 1nat,
{
    match outcome {
        MatchOutcome::Result { line, mode, expression } => {
            expr_tracks(t, expression, line as nat, scope, locals)
        },
        MatchOutcome::Nested(arms) => when_arms_track(t, arms@, scope, locals),
    }
}

proof fn when_arm_tracks(t: Twin, arm: WhenArm, scope: nat, locals: Seq<Seq<char>>) -> (u: Twin)
    requires
        tracks(t),
        scope < t.low.scopes.len(),
    ensures
        tracks(u),
        akin(t, u),
        u.full == name_analysis::n_when_arm(t.full, arm, lifted(t, scope), locals),
        u.low == name_analysis::n_when_arm(t.low, arm, scope, locals),
    decreases arm, 1nat,
{
    let w = guards_track(begun(t, locals), arm.guards@, arm.line as nat, scope);
    outcome_tracks(w.t, arm.outcome, scope, w.locals)
}

proof fn arm_tracks(t: Twin, arm: MatchArm, scope: nat, locals: Seq<Seq<char>>) -> (u: Twin)
    requires
        tracks(t),
        scope < t.low.scopes.len(),
    ensures
        tracks(u),
        akin(t, u),
        u.full == name_analysis::n_arm(t.full, arm, lifted(t, scope), locals),
        u.low == name_analysis::n_arm(t.low, arm, scope, locals),
    decreases arm, 1nat,
{
    let line = arm.line as nat;
    let a = pattern_tracks(begun(t, locals), arm.pattern, line, scope);
    let w = guards_track(a, arm.guards@, line, scope);
    outcome_tracks(w.t, arm.outcome, scope, w.locals)
}

proof fn definition_tracks(t: Twin, definition: DefinitionDecl, line: nat, scope: nat, locals: Seq<Seq<char>>) -> (u: Twin)
    requires
        tracks(t),
        scope < t.low.scopes.len(),
    ensures
        tracks(u),
        akin(t, u),
        u.full == name_analysis::n_definition(t.full, definition, line, lifted(t, scope), locals),
        u.low == name_analysis::n_definition(t.low, definition, line, scope, locals),
    decreases definition, 1nat,
{
    scope_spots(t, scope);
    let a = introduced_path_tracks(
        t,
        t.full.scopes[lifted(t, scope) as int].definitions,
        t.low.scopes[scope as int].definitions,
        name_analysis::static_prefix(definition.target@),
        line,
    );
    let b = keys_track(a, definition.target@, line, scope, locals);
    match definition.expr {
        Some(expr) => expr_tracks(b, expr, line, scope, locals),
        None => b,
    }
}

proof fn object_tracks(t: Twin, object: ObjectDecl, line: nat, scope: nat, locals: Seq<Seq<char>>) -> (u: Twin)
    requires
        tracks(t),
        scope < t.low.scopes.len(),
    ensures
        tracks(u),
        akin(t, u),
        u.full == name_analysis::n_object(t.full, object, line, lifted(t, scope), locals),
        u.low == name_analysis::n_object(t.low, object, line, scope, locals),
    decreases object, 1nat,
{
    let a = exprs_track(t, object.deps@, line, scope, locals);
    scope_spots(a, scope);
    let path = text::dotted(object.target@);
    let full_start = a.full.scopes[lifted(t, scope) as int].definitions;
    let low_start = a.low.scopes[scope as int].definitions;
    let b = introduced_path_tracks(a, full_start, low_start, path, line);
    let c = entered_tracks(
        b,
        name_analysis::alias_of(object.alias),
        line,
        scope,
        name_analysis::introduced_path(a.full, full_start, path, line).1,
        name_analysis::introduced_path(a.low, low_start, path, line).1,
        BodyScopeKind::Object,
    );
    items_track(c, object.body@, b.low.scopes.len(), locals)
}

proof fn extend_tracks(t: Twin, extend: ObjectExtendDecl, line: nat, scope: nat, locals: Seq<Seq<char>>) -> (u: Twin)
    requires
        tracks(t),
        scope < t.low.scopes.len(),
    ensures
        tracks(u),
        akin(t, u),
        u.full == name_analysis::n_extend(t.full, extend, line, lifted(t, scope), locals),
        u.low == name_analysis::n_extend(t.low, extend, line, scope, locals),
    decreases extend, 1nat,
{
    scope_spots(t, scope);
    let path = text::dotted(extend.target@);
    let full_start = t.full.scopes[lifted(t, scope) as int].definitions;
    let low_start = t.low.scopes[scope as int].definitions;
    let b = ensured_path_tracks(t, full_start, low_start, path);
    let c = entered_tracks(
        b,
        name_analysis::alias_of(extend.alias),
        line,
        scope,
        name_analysis::ensured_path(t.full, full_start, path).1,
        name_analysis::ensured_path(t.low, low_start, path).1,
        BodyScopeKind::Object,
    );
    items_track(c, extend.body@, b.low.scopes.len(), locals)
}

proof fn item_tracks(t: Twin, item: ObjectBodyDefinition, scope: nat, locals: Seq<Seq<char>>) -> (u: Twin)
    requires
        tracks(t),
        scope < t.low.scopes.len(),
    ensures
        tracks(u),
        akin(t, u),
        u.full == name_analysis::n_item(t.full, item, lifted(t, scope), locals),
        u.low == name_analysis::n_item(t.low, item, scope, locals),
    decreases item, 1nat,
{
    let line = item.line as nat;
    match item.kind {
        ObjectBodyDefinitionKind::Definition(definition) => {
            definition_tracks(t, definition, line, scope, locals)
        },
        ObjectBodyDefinitionKind::Object(object) => {
            object_tracks(t, object, line, scope, locals)
        },
        ObjectBodyDefinitionKind::Extend(extend) => {
            extend_tracks(t, extend, line, scope, locals)
        },
    }
}

proof fn paths_track(t: Twin, paths: Seq<Seq<char>>, line: nat, scope: nat) -> (u: Twin)
    requires
        tracks(t),
        scope < t.low.scopes.len(),
    ensures
        tracks(u),
        akin(t, u),
        u.full == name_analysis::n_paths(t.full, paths, line, lifted(t, scope)),
        u.low == name_analysis::n_paths(t.low, paths, line, scope),
    decreases paths.len(),
{
    if paths.len() == 0 {
        t
    } else {
        let a = paths_track(t, paths.drop_last(), line, scope);
        scope_spots(a, scope);
        introduced_path_tracks(
            a,
            a.full.scopes[lifted(t, scope) as int].definitions,
            a.low.scopes[scope as int].definitions,
            text::dotted(paths.last()),
            line,
        )
    }
}

proof fn declaration_tracks(t: Twin, declaration: Declaration, scope: nat) -> (u: Twin)
    requires
        tracks(t),
        scope < t.low.scopes.len(),
    ensures
        tracks(u),
        akin(t, u),
        u.full == name_analysis::n_declaration(t.full, declaration, lifted(t, scope)),
        u.low == name_analysis::n_declaration(t.low, declaration, scope),
{
    let line = declaration.line as nat;
    match declaration.kind {
        DeclarationKind::Import(import) => match import.placement {
            ImportPlacement::As(target) => paths_track(t, seq![target@], line, scope),
            _ => t,
        },
        DeclarationKind::Abstract(paths) => paths_track(t, text::texts(paths@), line, scope),
        DeclarationKind::Unique(paths) => paths_track(t, text::texts(paths@), line, scope),
        DeclarationKind::Object(object) => object_tracks(t, object, line, scope, Seq::empty()),
        DeclarationKind::Extend(extend) => extend_tracks(t, extend, line, scope, Seq::empty()),
        DeclarationKind::Definition(definition) => {
            definition_tracks(t, definition, line, scope, Seq::empty())
        },
        DeclarationKind::Language(_) => t,
        DeclarationKind::Unknown => t,
    }
}

/// The names of a declaration by itself.
pub open spec fn alone(declaration: Declaration) -> Names {
    name_analysis::n_declaration(name_analysis::root(), declaration, 0)
}

/// The addresses of a declaration by itself.
pub open spec fn sound(declaration: Declaration, owner: nat, at: Seq<Address>) -> bool {
    charted(alone(declaration), at) && addressed(at, owner)
}

pub open spec fn chart_of(declaration: Declaration, owner: nat) -> Seq<Address> {
    choose|at: Seq<Address>| sound(declaration, owner, at)
}

/// The addresses of one state agree at a namespace.
proof fn charts_agree(n: Names, at: Seq<Address>, bt: Seq<Address>, owner: nat, k: int)
    requires
        charted(n, at),
        charted(n, bt),
        addressed(at, owner),
        addressed(bt, owner),
        0 <= k < at.len(),
    ensures
        at[k] == bt[k],
    decreases at[k].path.len(),
{
    reveal(charted);
    if at[k].path.len() > 0 {
        assert(has_parent(n, at, k));
        let j = choose|j: int| #[trigger] leads(n, at, j, k);
        charts_agree(n, at, bt, owner, j);
        let name = at[k].path.last();
        assert(n.spaces[j].children.dom().contains(name));
        assert(at[k] == below(at[j], name));
        assert(bt[k] == below(bt[j], name));
    } else if bt[k].path.len() > 0 {
        assert(has_parent(n, bt, k));
        let j = choose|j: int| #[trigger] leads(n, bt, j, k);
        let name = bt[k].path.last();
        assert(n.spaces[j].children.dom().contains(name));
        assert(at[k] == below(at[j], name));
    }
}

proof fn chart_is_unique(n: Names, at: Seq<Address>, bt: Seq<Address>, owner: nat)
    requires
        charted(n, at),
        charted(n, bt),
        addressed(at, owner),
        addressed(bt, owner),
    ensures
        at == bt,
{
    assert(at.len() == bt.len()) by {
        reveal(charted);
    }
    assert forall|k: int| 0 <= k < at.len() implies at[k] == bt[k] by {
        charts_agree(n, at, bt, owner, k);
    }
    assert(at =~= bt);
}

proof fn root_charted()
    ensures
        charted(name_analysis::root(), seq![home()]),
        introductions(name_analysis::root(), seq![home()]) == Set::<(
            Address,
            Seq<char>,
        )>::empty(),
        uses(name_analysis::root(), seq![home()]) == Set::<(Address, Seq<char>)>::empty(),
        locals_of(name_analysis::root(), seq![home()]) == Seq::<Local>::empty(),
{
    reveal(charted);
    let n = name_analysis::root();
    let at = seq![home()];
    assert(at[0].path.len() == 0);
    assert(introductions(n, at) =~= Set::empty());
    assert(uses(n, at) =~= Set::empty());
    assert(locals_of(n, at) =~= Seq::empty());
}

/// The run of a declaration behind others holds what they hold, and what the
/// declaration holds by itself.
proof fn declaration_adds(
    n: Names,
    at: Seq<Address>,
    declaration: Declaration,
    owner: nat,
) -> (to: Seq<Address>)
    requires
        charted(n, at),
        at.len() > 0,
        at[0] == home(),
        n.scopes.len() > 0,
        n.scopes[0] == name_analysis::root().scopes[0],
        owner > 0,
        forall|k: int| 0 <= k < at.len() ==> (#[trigger] at[k]).owner != owner,
    ensures
        ({
            let m = name_analysis::n_declaration(n, declaration, 0);
            let part = alone(declaration);
            let chart = chart_of(declaration, owner);
            &&& charted(m, to)
            &&& to.len() > 0
            &&& to[0] == home()
            &&& introductions(m, to) == introductions(n, at).union(introductions(part, chart))
            &&& uses(m, to) == uses(n, at).union(uses(part, chart))
            &&& locals_of(m, to) == locals_of(n, at) + locals_of(part, chart)
            &&& sound(declaration, owner, chart)
            &&& forall|k: int| 0 <= k < to.len() ==> owned(at, owner, #[trigger] to[k])
        }),
{
    root_charted();
    let t = Twin {
        base: n,
        base_at: at,
        full: n,
        full_at: at,
        low: name_analysis::root(),
        low_at: seq![home()],
        owner,
    };
    assert(tracks(t)) by {
        reveal(tracks);
        reveal(charted);
        assert(at.contains(at[0]));
        assert forall|s: int|
            #![trigger t.low.scopes[s]]
            0 <= s < t.low.scopes.len() implies scopes_match(t, s) by {
            assert(s == 0);
        }
        assert(introductions(n, at) =~= introductions(n, at).union(Set::empty()));
        assert(uses(n, at) =~= uses(n, at).union(Set::empty()));
        assert(locals_of(n, at) =~= locals_of(n, at) + Seq::empty());
    }
    let u = declaration_tracks(t, declaration, 0);
    assert(sound(declaration, owner, u.low_at)) by {
        reveal(tracks);
    }
    let chart = chart_of(declaration, owner);
    chart_is_unique(alone(declaration), u.low_at, chart, owner);
    reveal(tracks);
    u.full_at
}

/// The declarations of a file in another order.
pub open spec fn reordered(declarations: Seq<Declaration>, order: Seq<int>) -> Seq<Declaration> {
    order.map_values(|i: int| declarations[i])
}

/// The introductions of declarations by themselves.
pub open spec fn all_introductions(declarations: Seq<Declaration>, order: Seq<int>) -> Set<
    (Address, Seq<char>),
> {
    Set::new(
        |p: (Address, Seq<char>)|
            exists|k: int|
                0 <= k < order.len() && introductions(
                    alone(declarations[#[trigger] order[k]]),
                    chart_of(declarations[order[k]], (order[k] + 1) as nat),
                ).contains(p),
    )
}

/// The uses of declarations by themselves.
pub open spec fn all_uses(declarations: Seq<Declaration>, order: Seq<int>) -> Set<
    (Address, Seq<char>),
> {
    Set::new(
        |p: (Address, Seq<char>)|
            exists|k: int|
                0 <= k < order.len() && uses(
                    alone(declarations[#[trigger] order[k]]),
                    chart_of(declarations[order[k]], (order[k] + 1) as nat),
                ).contains(p),
    )
}

/// The locals of a declaration by itself.
pub open spec fn own_locals(declarations: Seq<Declaration>, i: int) -> Seq<Local> {
    locals_of(alone(declarations[i]), chart_of(declarations[i], (i + 1) as nat))
}

pub open spec fn all_locals(declarations: Seq<Declaration>, order: Seq<int>) -> Seq<Local>
    decreases order.len(),
{
    if order.len() == 0 {
        Seq::empty()
    } else {
        all_locals(declarations, order.drop_last()) + own_locals(declarations, order.last())
    }
}

/// An order holds places of declarations, none of them twice.
pub open spec fn places(declarations: Seq<Declaration>, order: Seq<int>) -> bool {
    &&& order.no_duplicates()
    &&& forall|k: int| 0 <= k < order.len() ==> 0 <= #[trigger] order[k] < declarations.len()
}

/// A file holds what its declarations hold by themselves.
#[verifier::opaque]
pub open spec fn composed(
    declarations: Seq<Declaration>,
    order: Seq<int>,
    at: Seq<Address>,
) -> bool {
    let n = name_analysis::n_file(reordered(declarations, order));
    &&& charted(n, at)
    &&& at.len() > 0
    &&& at[0] == home()
    &&& introductions(n, at) == all_introductions(declarations, order)
    &&& uses(n, at) == all_uses(declarations, order)
    &&& locals_of(n, at) == all_locals(declarations, order)
}

/// The introductions of one more declaration.
proof fn all_introductions_push(declarations: Seq<Declaration>, order: Seq<int>)
    requires
        order.len() > 0,
    ensures
        all_introductions(declarations, order) == all_introductions(
            declarations,
            order.drop_last(),
        ).union(
            introductions(
                alone(declarations[order.last()]),
                chart_of(declarations[order.last()], (order.last() + 1) as nat),
            ),
        ),
{
    let rest = order.drop_last();
    let own = introductions(
        alone(declarations[order.last()]),
        chart_of(declarations[order.last()], (order.last() + 1) as nat),
    );
    let whole = all_introductions(declarations, order);
    let split = all_introductions(declarations, rest).union(own);
    assert forall|p: (Address, Seq<char>)| #[trigger] whole.contains(p) == split.contains(p) by {
        if whole.contains(p) {
            let k = choose|k: int|
                0 <= k < order.len() && introductions(
                    alone(declarations[#[trigger] order[k]]),
                    chart_of(declarations[order[k]], (order[k] + 1) as nat),
                ).contains(p);
            if k < rest.len() {
                assert(rest[k] == order[k]);
            }
        }
        if all_introductions(declarations, rest).contains(p) {
            let k = choose|k: int|
                0 <= k < rest.len() && introductions(
                    alone(declarations[#[trigger] rest[k]]),
                    chart_of(declarations[rest[k]], (rest[k] + 1) as nat),
                ).contains(p);
            assert(order[k] == rest[k]);
        }
        if own.contains(p) {
            assert(order[order.len() - 1] == order.last());
        }
    }
    assert(whole =~= split);
}

/// The uses of one more declaration.
proof fn all_uses_push(declarations: Seq<Declaration>, order: Seq<int>)
    requires
        order.len() > 0,
    ensures
        all_uses(declarations, order) == all_uses(declarations, order.drop_last()).union(
            uses(
                alone(declarations[order.last()]),
                chart_of(declarations[order.last()], (order.last() + 1) as nat),
            ),
        ),
{
    let rest = order.drop_last();
    let own = uses(
        alone(declarations[order.last()]),
        chart_of(declarations[order.last()], (order.last() + 1) as nat),
    );
    let whole = all_uses(declarations, order);
    let split = all_uses(declarations, rest).union(own);
    assert forall|p: (Address, Seq<char>)| #[trigger] whole.contains(p) == split.contains(p) by {
        if whole.contains(p) {
            let k = choose|k: int|
                0 <= k < order.len() && uses(
                    alone(declarations[#[trigger] order[k]]),
                    chart_of(declarations[order[k]], (order[k] + 1) as nat),
                ).contains(p);
            if k < rest.len() {
                assert(rest[k] == order[k]);
            }
        }
        if all_uses(declarations, rest).contains(p) {
            let k = choose|k: int|
                0 <= k < rest.len() && uses(
                    alone(declarations[#[trigger] rest[k]]),
                    chart_of(declarations[rest[k]], (rest[k] + 1) as nat),
                ).contains(p);
            assert(order[k] == rest[k]);
        }
        if own.contains(p) {
            assert(order[order.len() - 1] == order.last());
        }
    }
    assert(whole =~= split);
}

/// An address belongs to the file or to one of the declarations of an order.
pub open spec fn belongs(order: Seq<int>, a: Address) -> bool {
    a.owner == 0 || exists|k: int| 0 <= k < order.len() && a.owner == (#[trigger] order[k]) + 1
}

/// The addresses of a file, whatever the order of its declarations.
proof fn file_composed(declarations: Seq<Declaration>, order: Seq<int>) -> (at: Seq<Address>)
    requires
        places(declarations, order),
    ensures
        composed(declarations, order, at),
        forall|k: int| 0 <= k < at.len() ==> belongs(order, #[trigger] at[k]),
    decreases order.len(),
{
    let whole = reordered(declarations, order);
    if order.len() == 0 {
        reveal(composed);
        let at = seq![home()];
        root_charted();
        assert(whole =~= Seq::empty());
        assert(all_introductions(declarations, order) =~= Set::empty());
        assert(all_uses(declarations, order) =~= Set::empty());
        at
    } else {
        let rest = order.drop_last();
        let last = order.last();
        assert(places(declarations, rest)) by {
            assert forall|k: int| 0 <= k < rest.len() implies 0 <= #[trigger] rest[k]
                < declarations.len() by {
                assert(order[k] == rest[k]);
            }
        }
        let from = file_composed(declarations, rest);
        let shorter = reordered(declarations, rest);
        assert(whole.drop_last() =~= shorter);
        assert(whole.last() == declarations[last]);
        let n = name_analysis::n_file(shorter);
        assert(n.scopes.len() > 0 && n.scopes[0] == name_analysis::root().scopes[0]) by {
            name_analysis::file_grows(shorter, 0);
            assert(shorter.take(0) =~= Seq::empty());
            reveal(name_analysis::grown);
            assert(n.scopes[0] == name_analysis::root().scopes[0]);
        }
        let owner = (last + 1) as nat;
        assert(order[order.len() - 1] == last);
        assert forall|k: int| 0 <= k < from.len() implies (#[trigger] from[k]).owner != owner by {
            assert(belongs(rest, from[k]));
            if from[k].owner != 0 {
                let j = choose|j: int|
                    0 <= j < rest.len() && from[k].owner == (#[trigger] rest[j]) + 1;
                assert(rest[j] == order[j]);
                assert(order[j] != order[order.len() - 1]);
            }
        }
        reveal(composed);
        let at = declaration_adds(n, from, declarations[last], owner);
        all_introductions_push(declarations, order);
        all_uses_push(declarations, order);
        assert(composed(declarations, order, at));
        assert forall|k: int| 0 <= k < at.len() implies belongs(order, #[trigger] at[k]) by {
            assert(owned(from, owner, at[k]));
            if at[k].owner == owner {
                assert(at[k].owner == order[order.len() - 1] + 1);
            } else {
                let j = choose|j: int|
                    0 <= j < from.len() && (#[trigger] from[j]).owner == at[k].owner;
                assert(belongs(rest, from[j]));
                if from[j].owner != 0 {
                    let i = choose|i: int|
                        0 <= i < rest.len() && from[j].owner == (#[trigger] rest[i]) + 1;
                    assert(order[i] == rest[i]);
                }
            }
        }
        at
    }
}

/// The locals that conflict with an external name, each with the line of its
/// error.
pub open spec fn shadowing(n: Names, binders: Seq<Binder>) -> Multiset<(nat, Seq<char>)>
    decreases binders.len(),
{
    if binders.len() == 0 {
        Multiset::empty()
    } else {
        let before = shadowing(n, binders.drop_last());
        let last = binders.last();
        if name_analysis::conflict(n, last).len() > 0 {
            before.insert((last.line, last.raw))
        } else {
            before
        }
    }
}

/// What a message about a local begins with.
pub open spec fn shadowing_message(raw: Seq<char>, canonical: Seq<char>) -> Seq<char> {
    "local `"@ + raw + "` shadows external `"@ + canonical + "` "@
}

/// There is one error for each local that conflicts, at its line, and it names
/// the local.
pub proof fn conflicts_name_their_locals(n: Names, binders: Seq<Binder>)
    ensures
        name_analysis::conflicts(n, binders).len() == shadowing(n, binders).len(),
        forall|k: int|
            0 <= k < binders.len() ==> {
                let found = name_analysis::conflict(n, #[trigger] binders[k]);
                &&& found.len() <= 1
                &&& found.len() == 1 ==> found[0].line == binders[k].line
                    && shadowing_message(binders[k].raw, binders[k].canonical).is_prefix_of(
                    found[0].message,
                )
            },
    decreases binders.len(),
{
    if binders.len() > 0 {
        conflicts_name_their_locals(n, binders.drop_last());
        let last = binders.last();
        assert forall|k: int| 0 <= k < binders.len() implies {
            let found = name_analysis::conflict(n, #[trigger] binders[k]);
            &&& found.len() <= 1
            &&& found.len() == 1 ==> found[0].line == binders[k].line && shadowing_message(
                binders[k].raw,
                binders[k].canonical,
            ).is_prefix_of(found[0].message)
        } by {
            if k < binders.len() - 1 {
                assert(binders.drop_last()[k] == binders[k]);
            } else {
                message_begins(n, last);
            }
        }
    }
}

proof fn message_begins(n: Names, b: Binder)
    ensures
        ({
            let found = name_analysis::conflict(n, b);
            &&& found.len() <= 1
            &&& found.len() == 1 ==> found[0].line == b.line && shadowing_message(
                b.raw,
                b.canonical,
            ).is_prefix_of(found[0].message)
        }),
{
    reveal_strlit("local `");
    reveal_strlit("` shadows external `");
    reveal_strlit("` ");
    reveal_strlit("` defined on line ");
    reveal_strlit("` used by this file on line ");
    let start = shadowing_message(b.raw, b.canonical);
    let found = name_analysis::conflict(n, b);
    if found.len() == 1 {
        let message = found[0].message;
        assert(message.len() >= start.len());
        assert(message.take(start.len() as int) =~= start);
        assert(start.is_prefix_of(message));
    }
}

/// A local meets an external name at one of the addresses that it sees.
pub open spec fn hit(
    local: Local,
    introduced: Set<(Address, Seq<char>)>,
    used: Set<(Address, Seq<char>)>,
) -> bool {
    exists|j: int|
        0 <= j < local.visible.len() && (introduced.contains(
            (#[trigger] local.visible[j], local.canonical),
        ) || used.contains((local.visible[j], local.canonical)))
}

/// The locals that meet an external name.
pub open spec fn heard(
    locals: Seq<Local>,
    introduced: Set<(Address, Seq<char>)>,
    used: Set<(Address, Seq<char>)>,
) -> Multiset<(nat, Seq<char>)>
    decreases locals.len(),
{
    if locals.len() == 0 {
        Multiset::empty()
    } else {
        let before = heard(locals.drop_last(), introduced, used);
        let last = locals.last();
        if hit(last, introduced, used) {
            before.insert((last.line, last.raw))
        } else {
            before
        }
    }
}

/// A local conflicts exactly when it meets an external name.
proof fn conflict_hits(n: Names, at: Seq<Address>, b: int)
    requires
        charted(n, at),
        0 <= b < n.binders.len(),
    ensures
        (name_analysis::conflict(n, n.binders[b]).len() > 0) == hit(
            local_of(at, n.binders[b]),
            introductions(n, at),
            uses(n, at),
        ),
{
    reveal(charted);
    let binder = n.binders[b];
    let local = local_of(at, binder);
    let name = binder.canonical;
    let visible = binder.visible;
    name_analysis::conflicting_namespaces(n, visible, name);
    assert forall|j: int| 0 <= j < visible.len() implies #[trigger] local.visible[j]
        == at[visible[j] as int] && visible[j] < at.len() && introductions(n, at).contains(
        (at[visible[j] as int], name),
    ) == n.spaces[visible[j] as int].introduced.dom().contains(name) && uses(n, at).contains(
        (at[visible[j] as int], name),
    ) == n.spaces[visible[j] as int].used.dom().contains(name) by {
        let id = visible[j] as int;
        assert(n.binders[b].visible[j] < n.spaces.len());
        let p = (at[id], name);
        if introductions(n, at).contains(p) {
            let k = choose|k: int|
                0 <= k < at.len() && #[trigger] at[k] == p.0
                    && n.spaces[k].introduced.dom().contains(p.1);
            assert(k == id);
        }
        if uses(n, at).contains(p) {
            let k = choose|k: int|
                0 <= k < at.len() && #[trigger] at[k] == p.0 && n.spaces[k].used.dom().contains(
                    p.1,
                );
            assert(k == id);
        }
        assert(at[id] == p.0);
    }
    assert(local.visible.len() == visible.len());
    if name_analysis::introduction(n, visible, name) is Some {
        let j = choose|j: int|
            0 <= j < visible.len() && (
            #[trigger] n.spaces[visible[j] as int]).introduced.dom().contains(name);
        assert(introductions(n, at).contains((local.visible[j], name)));
    }
    if name_analysis::first_use(n, visible, name) is Some {
        let j = choose|j: int|
            0 <= j < visible.len() && (#[trigger] n.spaces[visible[j] as int]).used.dom().contains(
                name,
            );
        assert(uses(n, at).contains((local.visible[j], name)));
    }
    if hit(local, introductions(n, at), uses(n, at)) {
        let j = choose|j: int|
            0 <= j < local.visible.len() && (introductions(n, at).contains(
                (#[trigger] local.visible[j], local.canonical),
            ) || uses(n, at).contains((local.visible[j], local.canonical)));
        assert(n.spaces[visible[j] as int] == n.spaces[visible[j] as int]);
    }
}

proof fn shadowing_is_heard(n: Names, at: Seq<Address>, k: int)
    requires
        charted(n, at),
        0 <= k <= n.binders.len(),
    ensures
        shadowing(n, n.binders.take(k)) == heard(
            locals_of(n, at).take(k),
            introductions(n, at),
            uses(n, at),
        ),
    decreases k,
{
    if k > 0 {
        shadowing_is_heard(n, at, k - 1);
        conflict_hits(n, at, k - 1);
        assert(n.binders.take(k).drop_last() =~= n.binders.take(k - 1));
        assert(locals_of(n, at).take(k).drop_last() =~= locals_of(n, at).take(k - 1));
        assert(n.binders.take(k).last() == n.binders[k - 1]);
        assert(locals_of(n, at).take(k).last() == local_of(at, n.binders[k - 1]));
    }
}

proof fn heard_sum(
    a: Seq<Local>,
    b: Seq<Local>,
    introduced: Set<(Address, Seq<char>)>,
    used: Set<(Address, Seq<char>)>,
)
    ensures
        heard(a + b, introduced, used) == heard(a, introduced, used).add(
            heard(b, introduced, used),
        ),
    decreases b.len(),
{
    if b.len() == 0 {
        assert(a + b =~= a);
        assert(heard(a, introduced, used) =~= heard(a, introduced, used).add(Multiset::empty()));
    } else {
        heard_sum(a, b.drop_last(), introduced, used);
        assert((a + b).drop_last() =~= a + b.drop_last());
        assert((a + b).last() == b.last());
        let x = (b.last().line, b.last().raw);
        let before = heard(a, introduced, used);
        let rest = heard(b.drop_last(), introduced, used);
        assert(before.add(rest).insert(x) =~= before.add(rest.insert(x)));
    }
}

/// A sum over an order.
pub open spec fn summed(
    order: Seq<int>,
    f: spec_fn(int) -> Multiset<(nat, Seq<char>)>,
) -> Multiset<(nat, Seq<char>)>
    decreases order.len(),
{
    if order.len() == 0 {
        Multiset::empty()
    } else {
        summed(order.drop_last(), f).add(f(order.last()))
    }
}

proof fn summed_remove(
    order: Seq<int>,
    f: spec_fn(int) -> Multiset<(nat, Seq<char>)>,
    k: int,
)
    requires
        0 <= k < order.len(),
    ensures
        summed(order, f) == summed(order.remove(k), f).add(f(order[k])),
    decreases order.len(),
{
    if k == order.len() - 1 {
        assert(order.remove(k) =~= order.drop_last());
    } else {
        let rest = order.drop_last();
        summed_remove(rest, f, k);
        assert(order.remove(k).drop_last() =~= rest.remove(k));
        assert(order.remove(k).last() == order.last());
        let x = summed(rest.remove(k), f);
        assert(x.add(f(order[k])).add(f(order.last())) =~= x.add(f(order.last())).add(
            f(order[k]),
        ));
    }
}

proof fn summed_alike(
    a: Seq<int>,
    b: Seq<int>,
    f: spec_fn(int) -> Multiset<(nat, Seq<char>)>,
)
    requires
        a.no_duplicates(),
        b.no_duplicates(),
        forall|x: int| #[trigger] a.contains(x) == b.contains(x),
    ensures
        summed(a, f) == summed(b, f),
    decreases a.len(),
{
    if a.len() == 0 {
        if b.len() > 0 {
            assert(b.contains(b[0]));
            assert(a.contains(b[0]));
        }
    } else {
        let x = a.last();
        assert(a.contains(x)) by {
            assert(a[a.len() - 1] == x);
        }
        let k = choose|k: int| 0 <= k < b.len() && b[k] == x;
        let rest = a.drop_last();
        let other = b.remove(k);
        assert forall|i: int, j: int|
            0 <= i < other.len() && 0 <= j < other.len() && i != j implies other[i] != other[j] by {
            let p = if i < k {
                i
            } else {
                i + 1
            };
            let q = if j < k {
                j
            } else {
                j + 1
            };
            assert(b[p] != b[q]);
        }
        assert forall|y: int| #[trigger] rest.contains(y) == other.contains(y) by {
            if rest.contains(y) {
                let i = choose|i: int| 0 <= i < rest.len() && rest[i] == y;
                assert(a[i] == y);
                assert(y != x) by {
                    assert(a[i] != a[a.len() - 1]);
                }
                assert(a.contains(y));
                let j = choose|j: int| 0 <= j < b.len() && b[j] == y;
                if j < k {
                    assert(other[j] == y);
                } else {
                    assert(other[j - 1] == y);
                }
            }
            if other.contains(y) {
                let j = choose|j: int| 0 <= j < other.len() && other[j] == y;
                let q = if j < k {
                    j
                } else {
                    j + 1
                };
                assert(b[q] == y);
                assert(b[q] != b[k]);
                assert(b.contains(y));
                assert(a.contains(y));
                let i = choose|i: int| 0 <= i < a.len() && a[i] == y;
                assert(rest[i] == y);
            }
        }
        summed_alike(rest, other, f);
        summed_remove(b, f, k);
    }
}

proof fn locals_summed(
    declarations: Seq<Declaration>,
    order: Seq<int>,
    introduced: Set<(Address, Seq<char>)>,
    used: Set<(Address, Seq<char>)>,
)
    ensures
        heard(all_locals(declarations, order), introduced, used) == summed(
            order,
            |i: int| heard(own_locals(declarations, i), introduced, used),
        ),
    decreases order.len(),
{
    if order.len() > 0 {
        locals_summed(declarations, order.drop_last(), introduced, used);
        heard_sum(
            all_locals(declarations, order.drop_last()),
            own_locals(declarations, order.last()),
            introduced,
            used,
        );
    }
}

/// The places of declarations as they stand.
pub open spec fn as_they_stand(declarations: Seq<Declaration>) -> Seq<int> {
    Seq::new(declarations.len(), |k: int| k)
}

/// What conflicts in a file, by what its declarations hold by themselves.
proof fn shadowing_summed(declarations: Seq<Declaration>, order: Seq<int>)
    requires
        places(declarations, order),
    ensures
        ({
            let n = name_analysis::n_file(reordered(declarations, order));
            let introduced = all_introductions(declarations, order);
            let used = all_uses(declarations, order);
            shadowing(n, n.binders) == summed(
                order,
                |i: int| heard(own_locals(declarations, i), introduced, used),
            )
        }),
{
    let at = file_composed(declarations, order);
    reveal(composed);
    let n = name_analysis::n_file(reordered(declarations, order));
    shadowing_is_heard(n, at, n.binders.len() as int);
    assert(n.binders.take(n.binders.len() as int) =~= n.binders);
    assert(locals_of(n, at).take(n.binders.len() as int) =~= locals_of(n, at));
    locals_summed(
        declarations,
        order,
        all_introductions(declarations, order),
        all_uses(declarations, order),
    );
}

/// Every place occurs in an order that holds as many places as there are.
proof fn order_holds_all(declarations: Seq<Declaration>, order: Seq<int>, i: int)
    requires
        places(declarations, order),
        order.len() == declarations.len(),
        0 <= i < declarations.len(),
    ensures
        order.contains(i),
{
    let n = declarations.len() as int;
    let all = vstd::set_lib::set_int_range(0, n);
    vstd::set_lib::lemma_int_range(0, n);
    order.unique_seq_to_set();
    let held = order.to_set();
    assert(held.finite()) by {
        vstd::seq_lib::seq_to_set_is_finite(order);
    }
    assert forall|x: int| #[trigger] held.contains(x) implies all.contains(x) by {
        let k = choose|k: int| 0 <= k < order.len() && order[k] == x;
        assert(0 <= order[k] < declarations.len());
    }
    vstd::set_lib::lemma_subset_equality(held, all);
    assert(held.contains(i));
}

/// The order of the declarations of a file does not change which locals
/// conflict, nor the lines at which that is reported.
pub proof fn declaration_order_keeps_conflicts(declarations: Seq<Declaration>, order: Seq<int>)
    requires
        places(declarations, order),
        order.len() == declarations.len(),
    ensures
        ({
            let n = name_analysis::n_file(declarations);
            let m = name_analysis::n_file(reordered(declarations, order));
            shadowing(n, n.binders) == shadowing(m, m.binders)
        }),
{
    let same = as_they_stand(declarations);
    assert(reordered(declarations, same) =~= declarations);
    assert(places(declarations, same));
    assert forall|x: int| #[trigger] same.contains(x) == order.contains(x) by {
        if same.contains(x) {
            order_holds_all(declarations, order, x);
        }
        if order.contains(x) {
            let k = choose|k: int| 0 <= k < order.len() && order[k] == x;
            assert(0 <= order[k] < declarations.len());
            assert(same[x] == x);
        }
    }
    shadowing_summed(declarations, same);
    shadowing_summed(declarations, order);
    contributions_alike(declarations, same, order);
    let introduced = all_introductions(declarations, order);
    let used = all_uses(declarations, order);
    summed_alike(same, order, |i: int| heard(own_locals(declarations, i), introduced, used));
}

proof fn contributions_alike(declarations: Seq<Declaration>, a: Seq<int>, b: Seq<int>)
    requires
        forall|x: int| #[trigger] a.contains(x) == b.contains(x),
    ensures
        all_introductions(declarations, a) == all_introductions(declarations, b),
        all_uses(declarations, a) == all_uses(declarations, b),
{
    contributions_within(declarations, a, b);
    contributions_within(declarations, b, a);
    assert(all_introductions(declarations, a) =~= all_introductions(declarations, b));
    assert(all_uses(declarations, a) =~= all_uses(declarations, b));
}

proof fn contributions_within(declarations: Seq<Declaration>, a: Seq<int>, b: Seq<int>)
    requires
        forall|x: int| #[trigger] a.contains(x) ==> b.contains(x),
    ensures
        all_introductions(declarations, a).subset_of(all_introductions(declarations, b)),
        all_uses(declarations, a).subset_of(all_uses(declarations, b)),
{
    assert forall|p: (Address, Seq<char>)| #[trigger]
        all_introductions(declarations, a).contains(p) implies all_introductions(
        declarations,
        b,
    ).contains(p) by {
        let k = choose|k: int|
            0 <= k < a.len() && introductions(
                alone(declarations[#[trigger] a[k]]),
                chart_of(declarations[a[k]], (a[k] + 1) as nat),
            ).contains(p);
        assert(a.contains(a[k]));
        let j = choose|j: int| 0 <= j < b.len() && b[j] == a[k];
        assert(b[j] == a[k]);
    }
    assert forall|p: (Address, Seq<char>)| #[trigger]
        all_uses(declarations, a).contains(p) implies all_uses(declarations, b).contains(p) by {
        let k = choose|k: int|
            0 <= k < a.len() && uses(
                alone(declarations[#[trigger] a[k]]),
                chart_of(declarations[a[k]], (a[k] + 1) as nat),
            ).contains(p);
        assert(a.contains(a[k]));
        let j = choose|j: int| 0 <= j < b.len() && b[j] == a[k];
        assert(b[j] == a[k]);
    }
}

} // verus!
