//! Which locals code depends on.

use vstd::prelude::*;
use crate::net_lowering;
use crate::net_reading;
use crate::net_reading::{leveled, leveled_all, leveled_part, leveled_path, numbered, Code};
use crate::net_steps;
use crate::values;
use crate::values::{BindingId, ResolvedExpr, ResolvedPathPart};

verus! {

/// Locals have the same code.
pub open spec fn same_on(a: Map<nat, Code>, b: Map<nat, Code>, locals: Set<nat>) -> bool {
    forall|n: nat| #[trigger] locals.contains(n) ==> a[n] == b[n]
}

proof fn narrower(a: Map<nat, Code>, b: Map<nat, Code>, some: Set<nat>, more: Set<nat>)
    requires
        same_on(a, b, more),
        some.subset_of(more),
    ensures
        same_on(a, b, some),
{
    assert forall|n: nat| #[trigger] some.contains(n) implies a[n] == b[n] by {
        assert(more.contains(n));
    }
}

proof fn numbering_agrees(
    a: Map<nat, Code>,
    b: Map<nat, Code>,
    params: Seq<BindingId>,
    level: nat,
    locals: Set<nat>,
)
    requires
        same_on(a, b, locals.difference(net_lowering::ids_in(params))),
    ensures
        same_on(
            numbered(a, values::ids(params), level),
            numbered(b, values::ids(params), level),
            locals,
        ),
{
    let ids = values::ids(params);
    net_steps::ids_as_set(params);
    assert forall|n: nat| #[trigger] locals.contains(n) implies numbered(a, ids, level)[n]
        == numbered(b, ids, level)[n] by {
        net_reading::numbered_locals(a, ids, level, n);
        net_reading::numbered_locals(b, ids, level, n);
        net_reading::first_of_found(ids, n);
        if !ids.contains(n) {
            assert(!ids.to_set().contains(n));
            assert(locals.difference(net_lowering::ids_in(params)).contains(n));
        }
    }
}

proof fn others_do_not_matter(a: Map<nat, Code>, b: Map<nat, Code>, level: nat, code: ResolvedExpr)
    requires
        same_on(a, b, net_lowering::free(code)),
    ensures
        leveled(a, level, code) == leveled(b, level, code),
    decreases code,
{
    match code {
        ResolvedExpr::Embedded(_) => {},
        ResolvedExpr::Provided(_) => {},
        ResolvedExpr::Local(id) => {
            assert(net_lowering::free(code).contains(id.0 as nat));
        },
        ResolvedExpr::List(items) => {
            others_do_not_matter_to_all(a, b, level, items@);
        },
        ResolvedExpr::Access { base, path } => {
            narrower(a, b, net_lowering::free(*base), net_lowering::free(code));
            narrower(a, b, net_lowering::free_path(path@), net_lowering::free(code));
            others_do_not_matter(a, b, level, *base);
            others_do_not_matter_to_path(a, b, level, path@);
        },
        ResolvedExpr::Lambda(params, body) => {
            let ids = values::ids(params@);
            numbering_agrees(a, b, params@, level, net_lowering::free(*body));
            others_do_not_matter(
                numbered(a, ids, level),
                numbered(b, ids, level),
                level + params@.len(),
                *body,
            );
        },
        ResolvedExpr::Apply(function, arguments) => {
            narrower(a, b, net_lowering::free(*function), net_lowering::free(code));
            narrower(a, b, net_lowering::free_all(arguments@), net_lowering::free(code));
            others_do_not_matter(a, b, level, *function);
            others_do_not_matter_to_all(a, b, level, arguments@);
        },
    }
}

proof fn others_do_not_matter_to_all(
    a: Map<nat, Code>,
    b: Map<nat, Code>,
    level: nat,
    items: Seq<ResolvedExpr>,
)
    requires
        same_on(a, b, net_lowering::free_all(items)),
    ensures
        leveled_all(a, level, items) == leveled_all(b, level, items),
    decreases items,
{
    if items.len() > 0 {
        narrower(a, b, net_lowering::free_all(items.drop_last()), net_lowering::free_all(items));
        narrower(a, b, net_lowering::free(items.last()), net_lowering::free_all(items));
        others_do_not_matter_to_all(a, b, level, items.drop_last());
        others_do_not_matter(a, b, level, items.last());
    }
}

proof fn others_do_not_matter_to_path(
    a: Map<nat, Code>,
    b: Map<nat, Code>,
    level: nat,
    path: Seq<ResolvedPathPart>,
)
    requires
        same_on(a, b, net_lowering::free_path(path)),
    ensures
        leveled_path(a, level, path) == leveled_path(b, level, path),
    decreases path,
{
    if path.len() > 0 {
        narrower(a, b, net_lowering::free_path(path.drop_last()), net_lowering::free_path(path));
        narrower(a, b, net_lowering::free_step(path.last()), net_lowering::free_path(path));
        others_do_not_matter_to_path(a, b, level, path.drop_last());
        others_do_not_matter_to_part(a, b, level, path.last());
    }
}

proof fn others_do_not_matter_to_part(
    a: Map<nat, Code>,
    b: Map<nat, Code>,
    level: nat,
    part: ResolvedPathPart,
)
    requires
        same_on(a, b, net_lowering::free_step(part)),
    ensures
        leveled_part(a, level, part) == leveled_part(b, level, part),
    decreases part,
{
    match part {
        ResolvedPathPart::Key(_) => {},
        ResolvedPathPart::Index(code) => {
            others_do_not_matter(a, b, level, code);
        },
        ResolvedPathPart::PathIndex(code) => {
            others_do_not_matter(a, b, level, code);
        },
    }
}

proof fn free_ones_matter(
    a: Map<nat, Code>,
    b: Map<nat, Code>,
    level: nat,
    code: ResolvedExpr,
    id: nat,
)
    requires
        net_lowering::free(code).contains(id),
        a[id] != b[id],
    ensures
        leveled(a, level, code) != leveled(b, level, code),
    decreases code,
{
    match code {
        ResolvedExpr::Embedded(_) => {},
        ResolvedExpr::Provided(_) => {},
        ResolvedExpr::Local(_) => {},
        ResolvedExpr::List(items) => {
            free_ones_matter_to_all(a, b, level, items@, id);
        },
        ResolvedExpr::Access { base, path } => {
            if net_lowering::free(*base).contains(id) {
                free_ones_matter(a, b, level, *base, id);
            } else {
                free_ones_matter_to_path(a, b, level, path@, id);
            }
        },
        ResolvedExpr::Lambda(params, body) => {
            let ids = values::ids(params@);
            net_steps::ids_as_set(params@);
            net_reading::numbered_locals(a, ids, level, id);
            net_reading::numbered_locals(b, ids, level, id);
            net_reading::first_of_found(ids, id);
            if ids.contains(id) {
                assert(ids.to_set().contains(id));
            }
            free_ones_matter(
                numbered(a, ids, level),
                numbered(b, ids, level),
                level + params@.len(),
                *body,
                id,
            );
        },
        ResolvedExpr::Apply(function, arguments) => {
            if net_lowering::free(*function).contains(id) {
                free_ones_matter(a, b, level, *function, id);
            } else {
                free_ones_matter_to_all(a, b, level, arguments@, id);
            }
        },
    }
}

proof fn lengths_of_all(a: Map<nat, Code>, level: nat, items: Seq<ResolvedExpr>)
    ensures
        leveled_all(a, level, items).len() == items.len(),
    decreases items.len(),
{
    if items.len() > 0 {
        lengths_of_all(a, level, items.drop_last());
    }
}

proof fn free_ones_matter_to_all(
    a: Map<nat, Code>,
    b: Map<nat, Code>,
    level: nat,
    items: Seq<ResolvedExpr>,
    id: nat,
)
    requires
        net_lowering::free_all(items).contains(id),
        a[id] != b[id],
    ensures
        leveled_all(a, level, items) != leveled_all(b, level, items),
        items.len() > 0,
    decreases items,
{
    let front = items.drop_last();
    let x = leveled_all(a, level, items);
    let y = leveled_all(b, level, items);
    assert(x.drop_last() =~= leveled_all(a, level, front));
    assert(y.drop_last() =~= leveled_all(b, level, front));
    if net_lowering::free(items.last()).contains(id) {
        free_ones_matter(a, b, level, items.last(), id);
        assert(x.last() != y.last());
    } else {
        free_ones_matter_to_all(a, b, level, front, id);
    }
}

proof fn free_ones_matter_to_path(
    a: Map<nat, Code>,
    b: Map<nat, Code>,
    level: nat,
    path: Seq<ResolvedPathPart>,
    id: nat,
)
    requires
        net_lowering::free_path(path).contains(id),
        a[id] != b[id],
    ensures
        leveled_path(a, level, path) != leveled_path(b, level, path),
    decreases path,
{
    let front = path.drop_last();
    let p = leveled_path(a, level, front);
    let q = leveled_path(b, level, front);
    let r = leveled_part(a, level, path.last());
    let s = leveled_part(b, level, path.last());
    lengths_of_path(a, b, level, front);
    assert(r.len() == s.len());
    assert((p + r).take(p.len() as int) =~= p);
    assert((q + s).take(q.len() as int) =~= q);
    assert((p + r).skip(p.len() as int) =~= r);
    assert((q + s).skip(q.len() as int) =~= s);
    if net_lowering::free_step(path.last()).contains(id) {
        match path.last() {
            ResolvedPathPart::Key(_) => {},
            ResolvedPathPart::Index(code) => {
                free_ones_matter(a, b, level, code, id);
                assert(r[0] != s[0]);
            },
            ResolvedPathPart::PathIndex(code) => {
                free_ones_matter(a, b, level, code, id);
                assert(r[0] != s[0]);
            },
        }
    } else {
        free_ones_matter_to_path(a, b, level, front, id);
    }
}

proof fn lengths_of_path(
    a: Map<nat, Code>,
    b: Map<nat, Code>,
    level: nat,
    path: Seq<ResolvedPathPart>,
)
    ensures
        leveled_path(a, level, path).len() == leveled_path(b, level, path).len(),
    decreases path.len(),
{
    if path.len() > 0 {
        lengths_of_path(a, b, level, path.drop_last());
        let part = path.last();
        assert(leveled_part(a, level, part).len() == leveled_part(b, level, part).len());
    }
}

/// The free locals of code are those that it depends on: it is the same
/// wherever they are the same, and it changes with any of them.
pub proof fn free_locals_are_those_that_matter(
    a: Map<nat, Code>,
    b: Map<nat, Code>,
    level: nat,
    code: ResolvedExpr,
)
    ensures
        leveled(a, level, code) == leveled(b, level, code) <==> same_on(
            a,
            b,
            net_lowering::free(code),
        ),
{
    let free = net_lowering::free(code);
    if same_on(a, b, free) {
        others_do_not_matter(a, b, level, code);
    } else {
        let id = choose|n: nat| #[trigger] free.contains(n) && a[n] != b[n];
        free_ones_matter(a, b, level, code, id);
    }
}

} // verus!
