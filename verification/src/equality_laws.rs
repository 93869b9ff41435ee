//! Equality of keys and values goes both ways.

use vstd::prelude::*;
use crate::decimal;
use crate::equality;
use crate::equality::{alike, alike_code, alike_key, alike_part};
use crate::number;
use crate::values::{Key, ResolvedExpr, ResolvedPathPart, Value};

verus! {

/// Two literals spell the same number both ways.
pub proof fn same_number_symmetric(a: Seq<char>, b: Seq<char>)
    requires
        number::same_number(a, b),
    ensures
        number::same_number(b, a),
{
    decimal::scaled_symmetric(
        number::mantissa(a),
        number::scale(a),
        number::mantissa(b),
        number::scale(b),
    );
}

/// Keys that are the same are so both ways.
pub proof fn alike_key_symmetric(a: Key, b: Key)
    requires
        alike_key(a, b),
    ensures
        alike_key(b, a),
    decreases a,
{
    match (a, b) {
        (Key::Number(x), Key::Number(y)) => {
            same_number_symmetric(x.literal@, y.literal@);
        },
        (Key::List(x), Key::List(y)) => {
            assert forall|i: int| 0 <= i < y@.len() implies alike_key(#[trigger] y@[i], x@[i]) by {
                assert(alike_key(x@[i], y@[i]));
                alike_key_symmetric(x@[i], y@[i]);
            }
        },
        (Key::Dict(x), Key::Dict(y)) => {
            assert forall|j: int| 0 <= j < y@.len() implies equality::key_entry_in(
                #[trigger] y@[j],
                x@,
            ) by {
                assert(equality::key_entry_of(x@, y@[j]));
                let i = choose|i: int|
                    0 <= i < x@.len() && alike_key((#[trigger] x@[i]).0, y@[j].0) && alike_key(
                        x@[i].1,
                        y@[j].1,
                    );
                alike_key_symmetric(x@[i].0, y@[j].0);
                alike_key_symmetric(x@[i].1, y@[j].1);
            }
            assert forall|i: int| 0 <= i < x@.len() implies equality::key_entry_of(
                y@,
                #[trigger] x@[i],
            ) by {
                assert(equality::key_entry_in(x@[i], y@));
                let j = choose|j: int|
                    0 <= j < y@.len() && alike_key(x@[i].0, (#[trigger] y@[j]).0) && alike_key(
                        x@[i].1,
                        y@[j].1,
                    );
                alike_key_symmetric(x@[i].0, y@[j].0);
                alike_key_symmetric(x@[i].1, y@[j].1);
            }
        },
        _ => {},
    }
}

/// Values that are the same are so both ways, whatever the order of the entries
/// of their dictionaries.
pub proof fn alike_symmetric(a: Value, b: Value)
    requires
        alike(a, b),
    ensures
        alike(b, a),
    decreases a,
{
    match (a, b) {
        (Value::Atom(x), Value::Atom(y)) => {
            alike_key_symmetric(x, y);
        },
        (Value::Number(x), Value::Number(y)) => {
            same_number_symmetric(x.literal@, y.literal@);
        },
        (Value::List(x), Value::List(y)) => {
            assert forall|i: int| 0 <= i < y@.len() implies alike(#[trigger] y@[i], x@[i]) by {
                assert(alike(x@[i], y@[i]));
                alike_symmetric(x@[i], y@[i]);
            }
        },
        (Value::Dict(x), Value::Dict(y)) => {
            assert forall|j: int| 0 <= j < y@.len() implies equality::entry_in(
                #[trigger] y@[j],
                x@,
            ) by {
                assert(equality::entry_of(x@, y@[j]));
                let i = choose|i: int|
                    0 <= i < x@.len() && alike_key((#[trigger] x@[i]).0, y@[j].0) && alike(
                        x@[i].1,
                        y@[j].1,
                    );
                alike_key_symmetric(x@[i].0, y@[j].0);
                alike_symmetric(x@[i].1, y@[j].1);
            }
            assert forall|i: int| 0 <= i < x@.len() implies equality::entry_of(
                y@,
                #[trigger] x@[i],
            ) by {
                assert(equality::entry_in(x@[i], y@));
                let j = choose|j: int|
                    0 <= j < y@.len() && alike_key(x@[i].0, (#[trigger] y@[j]).0) && alike(
                        x@[i].1,
                        y@[j].1,
                    );
                alike_key_symmetric(x@[i].0, y@[j].0);
                alike_symmetric(x@[i].1, y@[j].1);
            }
        },
        (Value::Lazy(_), Value::Lazy(_)) => {
            let x = *(a->Lazy_0);
            let y = *(b->Lazy_0);
            alike_code_symmetric(x, y);
        },
        _ => {},
    }
}

/// Code that is the same is so both ways.
pub proof fn alike_code_symmetric(a: ResolvedExpr, b: ResolvedExpr)
    requires
        alike_code(a, b),
    ensures
        alike_code(b, a),
    decreases a,
{
    match (a, b) {
        (ResolvedExpr::Embedded(x), ResolvedExpr::Embedded(y)) => {
            alike_symmetric(x, y);
        },
        (ResolvedExpr::Provided(x), ResolvedExpr::Provided(y)) => {
            alike_symmetric(x, y);
        },
        (ResolvedExpr::List(x), ResolvedExpr::List(y)) => {
            alike_codes_symmetric(x@, y@);
        },
        (
            ResolvedExpr::Access { base: x, path: p },
            ResolvedExpr::Access { base: y, path: q },
        ) => {
            alike_code_symmetric(*x, *y);
            alike_parts_symmetric(p@, q@);
        },
        (ResolvedExpr::Lambda(_, x), ResolvedExpr::Lambda(_, y)) => {
            alike_code_symmetric(*x, *y);
        },
        (ResolvedExpr::Apply(x, p), ResolvedExpr::Apply(y, q)) => {
            alike_code_symmetric(*x, *y);
            alike_codes_symmetric(p@, q@);
        },
        _ => {},
    }
}

proof fn alike_codes_symmetric(a: Seq<ResolvedExpr>, b: Seq<ResolvedExpr>)
    requires
        equality::alike_codes(a, b),
    ensures
        equality::alike_codes(b, a),
    decreases a,
{
    assert forall|i: int| 0 <= i < b.len() implies alike_code(#[trigger] b[i], a[i]) by {
        assert(alike_code(a[i], b[i]));
        alike_code_symmetric(a[i], b[i]);
    }
}

proof fn alike_parts_symmetric(a: Seq<ResolvedPathPart>, b: Seq<ResolvedPathPart>)
    requires
        equality::alike_parts(a, b),
    ensures
        equality::alike_parts(b, a),
    decreases a,
{
    assert forall|i: int| 0 <= i < b.len() implies alike_part(#[trigger] b[i], a[i]) by {
        assert(alike_part(a[i], b[i]));
        alike_part_symmetric(a[i], b[i]);
    }
}

proof fn alike_part_symmetric(a: ResolvedPathPart, b: ResolvedPathPart)
    requires
        alike_part(a, b),
    ensures
        alike_part(b, a),
    decreases a,
{
    match (a, b) {
        (ResolvedPathPart::Key(x), ResolvedPathPart::Key(y)) => {
            alike_key_symmetric(x, y);
        },
        (ResolvedPathPart::Index(x), ResolvedPathPart::Index(y)) => {
            alike_code_symmetric(x, y);
        },
        (ResolvedPathPart::PathIndex(x), ResolvedPathPart::PathIndex(y)) => {
            alike_code_symmetric(x, y);
        },
        _ => {},
    }
}

} // verus!
