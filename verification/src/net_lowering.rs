//! The locals that code takes from around it.
//!
//! A function becomes code with inputs: first the locals that its body takes
//! from around it, in ascending order, then its parameters.

use vstd::prelude::*;
use crate::values::{BindingId, ResolvedExpr, ResolvedPathPart};

verus! {

/// The ids of locals.
pub open spec fn ids_in(locals: Seq<BindingId>) -> Set<nat> {
    Set::new(|id: nat| exists|k: int| 0 <= k < locals.len() && (#[trigger] locals[k]).0 == id)
}

/// The locals that code uses and does not bind.
pub open spec fn free(code: ResolvedExpr) -> Set<nat>
    decreases code,
{
    match code {
        ResolvedExpr::Embedded(_) => Set::empty(),
        ResolvedExpr::Provided(_) => Set::empty(),
        ResolvedExpr::Local(id) => Set::empty().insert(id.0 as nat),
        ResolvedExpr::List(items) => free_all(items@),
        ResolvedExpr::Access { base, path } => free(*base).union(free_path(path@)),
        ResolvedExpr::Lambda(params, body) => free(*body).difference(ids_in(params@)),
        ResolvedExpr::Apply(function, arguments) => free(*function).union(free_all(arguments@)),
    }
}

pub open spec fn free_all(items: Seq<ResolvedExpr>) -> Set<nat>
    decreases items,
{
    if items.len() == 0 {
        Set::empty()
    } else {
        free_all(items.drop_last()).union(free(items.last()))
    }
}

pub open spec fn free_path(path: Seq<ResolvedPathPart>) -> Set<nat>
    decreases path,
{
    if path.len() == 0 {
        Set::empty()
    } else {
        free_path(path.drop_last()).union(free_step(path.last()))
    }
}

pub open spec fn free_step(part: ResolvedPathPart) -> Set<nat>
    decreases part,
{
    match part {
        ResolvedPathPart::Key(_) => Set::empty(),
        ResolvedPathPart::Index(code) => free(code),
        ResolvedPathPart::PathIndex(code) => free(code),
    }
}

/// Locals in ascending order, none of them twice.
pub open spec fn ascending(locals: Seq<BindingId>) -> bool {
    forall|i: int, j: int|
        0 <= i < j < locals.len() ==> (#[trigger] locals[i]).0 < (#[trigger] locals[j]).0
}

/// Adds a local to an ascending list.
fn insert(locals: &mut Vec<BindingId>, id: BindingId)
    requires
        ascending(old(locals)@),
    ensures
        ascending(final(locals)@),
        ids_in(final(locals)@) == ids_in(old(locals)@).insert(id.0 as nat),
{
    let ghost before = locals@;
    let mut k: usize = 0;
    while k < locals.len() && locals[k].0 < id.0
        invariant
            locals@ == before,
            k <= locals.len(),
            forall|i: int| 0 <= i < k ==> (#[trigger] before[i]).0 < id.0,
        decreases locals.len() - k,
    {
        k = k + 1;
    }
    if k < locals.len() && locals[k].0 == id.0 {
        assert(ids_in(before).contains(id.0 as nat)) by {
            assert(before[k as int].0 == id.0);
        }
        assert(ids_in(locals@) =~= ids_in(before).insert(id.0 as nat));
        return;
    }
    locals.insert(k, id);
    let ghost after = locals@;
    proof {
        assert(after =~= before.insert(k as int, id));
        assert forall|n: nat| ids_in(after).contains(n) == ids_in(before).insert(
            id.0 as nat,
        ).contains(n) by {
            if ids_in(after).contains(n) && n != id.0 {
                let i = choose|i: int| 0 <= i < after.len() && (#[trigger] after[i]).0 == n;
                if i < k {
                    assert(before[i].0 == n);
                } else {
                    assert(before[i - 1].0 == n);
                }
            }
            if ids_in(before).contains(n) {
                let i = choose|i: int| 0 <= i < before.len() && (#[trigger] before[i]).0 == n;
                if i < k {
                    assert(after[i].0 == n);
                } else {
                    assert(after[i + 1].0 == n);
                }
            }
            assert(after[k as int].0 == id.0);
        }
        assert(ids_in(after) =~= ids_in(before).insert(id.0 as nat));
        assert forall|i: int, j: int| 0 <= i < j < after.len() implies (#[trigger] after[i]).0 < (
        #[trigger] after[j]).0 by {
            if j < k {
                assert(before[i].0 < before[j].0);
            } else if j == k {
                assert(before[i].0 < id.0);
            } else if i < k {
                assert(before[i].0 < before[j - 1].0);
            } else if i == k {
                if j - 1 > k {
                    assert(before[k as int].0 < before[j - 1].0);
                }
                assert(id.0 < before[j - 1].0);
            } else {
                assert(before[i - 1].0 < before[j - 1].0);
            }
        }
    }
}

/// Adds locals to an ascending list.
fn insert_all(locals: &mut Vec<BindingId>, more: &Vec<BindingId>)
    requires
        ascending(old(locals)@),
    ensures
        ascending(final(locals)@),
        ids_in(final(locals)@) == ids_in(old(locals)@).union(ids_in(more@)),
{
    let ghost before = ids_in(locals@);
    let mut k: usize = 0;
    assert(before.union(ids_in(more@.take(0))) =~= before);
    while k < more.len()
        invariant
            k <= more.len(),
            ascending(locals@),
            ids_in(locals@) == before.union(ids_in(more@.take(k as int))),
        decreases more.len() - k,
    {
        let ghost shorter = more@.take(k as int);
        let ghost longer = more@.take(k + 1);
        insert(locals, more[k]);
        proof {
            assert forall|n: nat| ids_in(longer).contains(n) == ids_in(shorter).insert(
                more@[k as int].0 as nat,
            ).contains(n) by {
                if ids_in(longer).contains(n) {
                    let i = choose|i: int| 0 <= i < longer.len() && (#[trigger] longer[i]).0 == n;
                    if i < k {
                        assert(shorter[i].0 == n);
                    }
                }
                if ids_in(shorter).contains(n) {
                    let i = choose|i: int| 0 <= i < shorter.len() && (#[trigger] shorter[i]).0 == n;
                    assert(longer[i].0 == n);
                }
                assert(longer[k as int] == more@[k as int]);
            }
            assert(ids_in(longer) =~= ids_in(shorter).insert(more@[k as int].0 as nat));
            assert(before.union(ids_in(shorter)).insert(more@[k as int].0 as nat) =~= before.union(
                ids_in(longer),
            ));
        }
        k = k + 1;
    }
    assert(more@.take(more@.len() as int) =~= more@);
}

/// Whether a list holds a local.
fn holds(locals: &Vec<BindingId>, id: BindingId) -> (b: bool)
    ensures
        b == ids_in(locals@).contains(id.0 as nat),
{
    let mut k: usize = 0;
    while k < locals.len()
        invariant
            k <= locals.len(),
            forall|i: int| 0 <= i < k ==> (#[trigger] locals@[i]).0 != id.0,
        decreases locals.len() - k,
    {
        if locals[k].0 == id.0 {
            assert(locals@[k as int].0 == id.0);
            return true;
        }
        k = k + 1;
    }
    false
}

/// The locals of an ascending list that another list does not hold.
fn without(locals: &Vec<BindingId>, bound: &Vec<BindingId>) -> (rest: Vec<BindingId>)
    requires
        ascending(locals@),
    ensures
        ascending(rest@),
        ids_in(rest@) == ids_in(locals@).difference(ids_in(bound@)),
{
    let mut rest: Vec<BindingId> = Vec::new();
    let mut k: usize = 0;
    assert(ids_in(rest@) =~= ids_in(locals@.take(0)).difference(ids_in(bound@)));
    while k < locals.len()
        invariant
            k <= locals.len(),
            ascending(rest@),
            ids_in(rest@) == ids_in(locals@.take(k as int)).difference(ids_in(bound@)),
        decreases locals.len() - k,
    {
        let ghost shorter = locals@.take(k as int);
        let ghost longer = locals@.take(k + 1);
        let ghost held = ids_in(rest@);
        proof {
            assert forall|n: nat| ids_in(longer).contains(n) == ids_in(shorter).insert(
                locals@[k as int].0 as nat,
            ).contains(n) by {
                if ids_in(longer).contains(n) {
                    let i = choose|i: int| 0 <= i < longer.len() && (#[trigger] longer[i]).0 == n;
                    if i < k {
                        assert(shorter[i].0 == n);
                    }
                }
                if ids_in(shorter).contains(n) {
                    let i = choose|i: int| 0 <= i < shorter.len() && (#[trigger] shorter[i]).0 == n;
                    assert(longer[i].0 == n);
                }
                assert(longer[k as int] == locals@[k as int]);
            }
            assert(ids_in(longer) =~= ids_in(shorter).insert(locals@[k as int].0 as nat));
        }
        if !holds(bound, locals[k]) {
            insert(&mut rest, locals[k]);
        }
        assert(ids_in(rest@) =~= ids_in(longer).difference(ids_in(bound@)));
        k = k + 1;
    }
    assert(locals@.take(locals@.len() as int) =~= locals@);
    rest
}

/// The locals that code uses and does not bind, in ascending order.
pub fn free_bindings(code: &ResolvedExpr) -> (found: Vec<BindingId>)
    ensures
        ascending(found@),
        ids_in(found@) == free(*code),
    decreases code,
{
    match code {
        ResolvedExpr::Embedded(_) => nothing(),
        ResolvedExpr::Provided(_) => nothing(),
        ResolvedExpr::Local(id) => {
            let mut found = nothing();
            insert(&mut found, *id);
            found
        },
        ResolvedExpr::List(items) => free_in_all(items),
        ResolvedExpr::Access { base, path } => {
            let mut found = free_bindings(base);
            let more = free_in_path(path);
            insert_all(&mut found, &more);
            found
        },
        ResolvedExpr::Lambda(params, body) => {
            let found = free_bindings(body);
            without(&found, params)
        },
        ResolvedExpr::Apply(function, arguments) => {
            let mut found = free_bindings(function);
            let more = free_in_all(arguments);
            insert_all(&mut found, &more);
            found
        },
    }
}

fn nothing() -> (found: Vec<BindingId>)
    ensures
        ascending(found@),
        ids_in(found@) == Set::<nat>::empty(),
{
    let found: Vec<BindingId> = Vec::new();
    assert(ids_in(found@) =~= Set::<nat>::empty());
    found
}

fn free_in_all(items: &Vec<ResolvedExpr>) -> (found: Vec<BindingId>)
    ensures
        ascending(found@),
        ids_in(found@) == free_all(items@),
    decreases items,
{
    let mut found = nothing();
    let mut k: usize = 0;
    assert(items@.take(0) =~= Seq::empty());
    while k < items.len()
        invariant
            k <= items.len(),
            ascending(found@),
            ids_in(found@) == free_all(items@.take(k as int)),
        decreases items.len() - k,
    {
        assert(items@.take(k + 1).drop_last() =~= items@.take(k as int));
        let more = free_bindings(&items[k]);
        insert_all(&mut found, &more);
        k = k + 1;
    }
    assert(items@.take(items@.len() as int) =~= items@);
    found
}

fn free_in_path(path: &Vec<ResolvedPathPart>) -> (found: Vec<BindingId>)
    ensures
        ascending(found@),
        ids_in(found@) == free_path(path@),
    decreases path,
{
    let mut found = nothing();
    let mut k: usize = 0;
    assert(path@.take(0) =~= Seq::empty());
    while k < path.len()
        invariant
            k <= path.len(),
            ascending(found@),
            ids_in(found@) == free_path(path@.take(k as int)),
        decreases path.len() - k,
    {
        assert(path@.take(k + 1).drop_last() =~= path@.take(k as int));
        let ghost held = ids_in(found@);
        match &path[k] {
            ResolvedPathPart::Key(_) => {
                assert(held.union(Set::<nat>::empty()) =~= held);
            },
            ResolvedPathPart::Index(code) => {
                let more = free_bindings(code);
                insert_all(&mut found, &more);
            },
            ResolvedPathPart::PathIndex(code) => {
                let more = free_bindings(code);
                insert_all(&mut found, &more);
            },
        }
        assert(path@.take(k + 1).last() == path@[k as int]);
        assert(ids_in(found@) =~= held.union(free_step(path@[k as int])));
        k = k + 1;
    }
    assert(path@.take(path@.len() as int) =~= path@);
    found
}

/// The inputs of a function.
#[derive(Debug, PartialEq, Eq)]
pub struct CodeInputs {
    /// The locals that the body takes from around the function.
    pub captures: Vec<BindingId>,
    /// The captures, then the parameters.
    pub inputs: Vec<BindingId>,
    pub arity: usize,
}

/// What the code of a function takes.
pub fn lower_code(parameters: &Vec<BindingId>, body: &ResolvedExpr) -> (code: CodeInputs)
    ensures
        ascending(code.captures@),
        ids_in(code.captures@) == free(*body).difference(ids_in(parameters@)),
        code.inputs@ == code.captures@ + parameters@,
        code.arity == parameters@.len(),
{
    let used = free_bindings(body);
    let captures = without(&used, parameters);
    let mut inputs: Vec<BindingId> = Vec::new();
    push_all(&mut inputs, &captures);
    push_all(&mut inputs, parameters);
    assert(inputs@ =~= captures@ + parameters@);
    CodeInputs { captures, inputs, arity: parameters.len() }
}

fn push_all(locals: &mut Vec<BindingId>, more: &Vec<BindingId>)
    ensures
        final(locals)@ == old(locals)@ + more@,
{
    let ghost before = locals@;
    let mut k: usize = 0;
    assert(locals@ =~= before + more@.take(0));
    while k < more.len()
        invariant
            k <= more.len(),
            locals@ == before + more@.take(k as int),
        decreases more.len() - k,
    {
        locals.push(more[k]);
        assert(locals@ =~= before + more@.take(k + 1));
        k = k + 1;
    }
    assert(more@.take(more@.len() as int) =~= more@);
}

/// Whether code uses no local that it does not bind.
pub fn is_closed(code: &ResolvedExpr) -> (b: bool)
    ensures
        b == (free(*code) == Set::<nat>::empty()),
{
    let found = free_bindings(code);
    if found.len() > 0 {
        assert(ids_in(found@).contains(found@[0].0 as nat));
        false
    } else {
        assert(ids_in(found@) =~= Set::<nat>::empty());
        true
    }
}

/// A body needs nothing beyond the inputs of its code: a function over all of
/// them is closed.
pub proof fn inputs_close_code(parameters: Seq<BindingId>, captures: Seq<BindingId>, body: ResolvedExpr)
    requires
        ids_in(captures) == free(body).difference(ids_in(parameters)),
    ensures
        free(body).subset_of(ids_in(captures + parameters)),
        free(body).difference(ids_in(captures + parameters)) == Set::<nat>::empty(),
{
    let all = captures + parameters;
    assert forall|n: nat| free(body).contains(n) implies ids_in(all).contains(n) by {
        if ids_in(parameters).contains(n) {
            let i = choose|i: int| 0 <= i < parameters.len() && (#[trigger] parameters[i]).0 == n;
            assert(all[captures.len() + i].0 == n);
        } else {
            assert(ids_in(captures).contains(n));
            let i = choose|i: int| 0 <= i < captures.len() && (#[trigger] captures[i]).0 == n;
            assert(all[i].0 == n);
        }
    }
    assert(free(body).difference(ids_in(all)) =~= Set::<nat>::empty());
}

} // verus!
