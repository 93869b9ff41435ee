//! When keys, values and code are the same: numbers by what they spell, and
//! dictionaries whatever the order of their entries.

use vstd::prelude::*;
use crate::number;
use crate::text;
use crate::text::same_text;
use crate::values::{BindingId, Key, ResolvedExpr, ResolvedPathPart, Value};

verus! {

/// Two keys are the same.
pub open spec fn alike_key(a: Key, b: Key) -> bool
    decreases a, 0nat,
{
    match (a, b) {
        (Key::Atom(x), Key::Atom(y)) => x@ == y@,
        (Key::Number(x), Key::Number(y)) => number::same_number(x.literal@, y.literal@),
        (Key::Binary(x), Key::Binary(y)) => x@ == y@,
        (Key::AbstractGlobalPath(x), Key::AbstractGlobalPath(y)) => text::texts(x@)
            == text::texts(y@),
        (Key::List(x), Key::List(y)) => alike_keys(x@, y@),
        (Key::Dict(x), Key::Dict(y)) => alike_key_entries(x@, y@),
        _ => false,
    }
}

/// Keys that are the same one by one.
pub open spec fn alike_keys(a: Seq<Key>, b: Seq<Key>) -> bool
    decreases a, 0nat,
{
    a.len() == b.len() && forall|i: int|
        0 <= i < a.len() ==> alike_key(#[trigger] a[i], b[i])
}

/// Dictionaries are the same when each of them holds every entry of the other,
/// in any order.
pub open spec fn alike_key_entries(a: Seq<(Key, Key)>, b: Seq<(Key, Key)>) -> bool
    decreases a, 1nat,
{
    &&& forall|i: int| 0 <= i < a.len() ==> key_entry_in(#[trigger] a[i], b)
    &&& forall|j: int| 0 <= j < b.len() ==> key_entry_of(a, #[trigger] b[j])
}

/// An entry of one dictionary that another holds.
pub open spec fn key_entry_in(entry: (Key, Key), b: Seq<(Key, Key)>) -> bool
    decreases entry, 0nat,
{
    exists|j: int|
        0 <= j < b.len() && alike_key(entry.0, (#[trigger] b[j]).0) && alike_key(entry.1, b[j].1)
}

/// An entry that a dictionary holds.
pub open spec fn key_entry_of(a: Seq<(Key, Key)>, entry: (Key, Key)) -> bool
    decreases a, 0nat,
{
    exists|i: int|
        0 <= i < a.len() && alike_key((#[trigger] a[i]).0, entry.0) && alike_key(a[i].1, entry.1)
}

/// Two values are the same.
pub open spec fn alike(a: Value, b: Value) -> bool
    decreases a, 0nat,
{
    match (a, b) {
        (Value::Unit, Value::Unit) => true,
        (Value::Atom(x), Value::Atom(y)) => alike_key(x, y),
        (Value::Number(x), Value::Number(y)) => number::same_number(x.literal@, y.literal@),
        (Value::Binary(x), Value::Binary(y)) => x@ == y@,
        (Value::List(x), Value::List(y)) => alike_values(x@, y@),
        (Value::Dict(x), Value::Dict(y)) => alike_entries(x@, y@),
        (Value::Builtin(x), Value::Builtin(y)) => x == y,
        (Value::Error(x), Value::Error(y)) => x@ == y@,
        (Value::Lazy(x), Value::Lazy(y)) => alike_code(*x, *y),
        _ => false,
    }
}

/// Values that are the same one by one.
pub open spec fn alike_values(a: Seq<Value>, b: Seq<Value>) -> bool
    decreases a, 0nat,
{
    a.len() == b.len() && forall|i: int|
        0 <= i < a.len() ==> alike(#[trigger] a[i], b[i])
}

/// Dictionaries are the same when each of them holds every entry of the other,
/// in any order.
pub open spec fn alike_entries(a: Seq<(Key, Value)>, b: Seq<(Key, Value)>) -> bool
    decreases a, 1nat,
{
    &&& forall|i: int| 0 <= i < a.len() ==> entry_in(#[trigger] a[i], b)
    &&& forall|j: int| 0 <= j < b.len() ==> entry_of(a, #[trigger] b[j])
}

/// An entry of one dictionary that another holds.
pub open spec fn entry_in(entry: (Key, Value), b: Seq<(Key, Value)>) -> bool
    decreases entry, 0nat,
{
    exists|j: int|
        0 <= j < b.len() && alike_key(entry.0, (#[trigger] b[j]).0) && alike(entry.1, b[j].1)
}

/// An entry that a dictionary holds.
pub open spec fn entry_of(a: Seq<(Key, Value)>, entry: (Key, Value)) -> bool
    decreases a, 0nat,
{
    exists|i: int|
        0 <= i < a.len() && alike_key((#[trigger] a[i]).0, entry.0) && alike(a[i].1, entry.1)
}

/// Two pieces of code are the same.
pub open spec fn alike_code(a: ResolvedExpr, b: ResolvedExpr) -> bool
    decreases a, 0nat,
{
    match (a, b) {
        (ResolvedExpr::Embedded(x), ResolvedExpr::Embedded(y)) => alike(x, y),
        (ResolvedExpr::Provided(x), ResolvedExpr::Provided(y)) => alike(x, y),
        (ResolvedExpr::Local(x), ResolvedExpr::Local(y)) => x == y,
        (ResolvedExpr::List(x), ResolvedExpr::List(y)) => alike_codes(x@, y@),
        (
            ResolvedExpr::Access { base: x, path: p },
            ResolvedExpr::Access { base: y, path: q },
        ) => alike_code(*x, *y) && alike_parts(p@, q@),
        (ResolvedExpr::Lambda(p, x), ResolvedExpr::Lambda(q, y)) => p@ == q@ && alike_code(*x, *y),
        (ResolvedExpr::Apply(x, p), ResolvedExpr::Apply(y, q)) => alike_code(*x, *y)
            && alike_codes(p@, q@),
        _ => false,
    }
}

/// Code that is the same piece by piece.
pub open spec fn alike_codes(a: Seq<ResolvedExpr>, b: Seq<ResolvedExpr>) -> bool
    decreases a, 0nat,
{
    a.len() == b.len() && forall|i: int|
        0 <= i < a.len() ==> alike_code(#[trigger] a[i], b[i])
}

/// Two steps of a path are the same.
pub open spec fn alike_part(a: ResolvedPathPart, b: ResolvedPathPart) -> bool
    decreases a, 0nat,
{
    match (a, b) {
        (ResolvedPathPart::Key(x), ResolvedPathPart::Key(y)) => alike_key(x, y),
        (ResolvedPathPart::Index(x), ResolvedPathPart::Index(y)) => alike_code(x, y),
        (ResolvedPathPart::PathIndex(x), ResolvedPathPart::PathIndex(y)) => alike_code(x, y),
        _ => false,
    }
}

/// Paths that are the same step by step.
pub open spec fn alike_parts(a: Seq<ResolvedPathPart>, b: Seq<ResolvedPathPart>) -> bool
    decreases a, 0nat,
{
    a.len() == b.len() && forall|i: int|
        0 <= i < a.len() ==> alike_part(#[trigger] a[i], b[i])
}

/// Every key is the same as itself.
pub proof fn alike_key_reflexive(a: Key)
    ensures
        alike_key(a, a),
    decreases a,
{
    match a {
        Key::Number(x) => {
            number::same_number_reflexive(x.literal@);
        },
        Key::List(x) => {
            keys_reflexive(x@);
        },
        Key::Dict(x) => {
            key_entries_reflexive(x@);
        },
        _ => {},
    }
}

proof fn keys_reflexive(a: Seq<Key>)
    ensures
        alike_keys(a, a),
    decreases a,
{
    assert forall|i: int| 0 <= i < a.len() implies alike_key(#[trigger] a[i], a[i]) by {
        alike_key_reflexive(a[i]);
    }
}

proof fn key_entries_reflexive(a: Seq<(Key, Key)>)
    ensures
        alike_key_entries(a, a),
    decreases a,
{
    assert forall|i: int| 0 <= i < a.len() implies key_entry_in(#[trigger] a[i], a) && key_entry_of(
        a,
        a[i],
    ) by {
        alike_key_reflexive(a[i].0);
        alike_key_reflexive(a[i].1);
    }
}

/// Every value is the same as itself.
pub proof fn alike_reflexive(a: Value)
    ensures
        alike(a, a),
    decreases a,
{
    match a {
        Value::Atom(x) => {
            alike_key_reflexive(x);
        },
        Value::Number(x) => {
            number::same_number_reflexive(x.literal@);
        },
        Value::List(x) => {
            values_reflexive(x@);
        },
        Value::Dict(x) => {
            entries_reflexive(x@);
        },
        Value::Lazy(_) => {
            let code = *(a->Lazy_0);
            code_reflexive(code);
        },
        _ => {},
    }
}

proof fn values_reflexive(a: Seq<Value>)
    ensures
        alike_values(a, a),
    decreases a,
{
    assert forall|i: int| 0 <= i < a.len() implies alike(#[trigger] a[i], a[i]) by {
        alike_reflexive(a[i]);
    }
}

proof fn entries_reflexive(a: Seq<(Key, Value)>)
    ensures
        alike_entries(a, a),
    decreases a,
{
    assert forall|i: int| 0 <= i < a.len() implies entry_in(#[trigger] a[i], a) && entry_of(
        a,
        a[i],
    ) by {
        alike_key_reflexive(a[i].0);
        alike_reflexive(a[i].1);
    }
}

proof fn code_reflexive(a: ResolvedExpr)
    ensures
        alike_code(a, a),
    decreases a,
{
    match a {
        ResolvedExpr::Embedded(x) => {
            alike_reflexive(x);
        },
        ResolvedExpr::Provided(x) => {
            alike_reflexive(x);
        },
        ResolvedExpr::Local(_) => {},
        ResolvedExpr::List(x) => {
            codes_reflexive(x@);
        },
        ResolvedExpr::Access { base, path } => {
            code_reflexive(*base);
            parts_reflexive(path@);
        },
        ResolvedExpr::Lambda(_, body) => {
            code_reflexive(*body);
        },
        ResolvedExpr::Apply(function, arguments) => {
            code_reflexive(*function);
            codes_reflexive(arguments@);
        },
    }
}

proof fn codes_reflexive(a: Seq<ResolvedExpr>)
    ensures
        alike_codes(a, a),
    decreases a,
{
    assert forall|i: int| 0 <= i < a.len() implies alike_code(#[trigger] a[i], a[i]) by {
        code_reflexive(a[i]);
    }
}

proof fn part_reflexive(a: ResolvedPathPart)
    ensures
        alike_part(a, a),
    decreases a,
{
    match a {
        ResolvedPathPart::Key(x) => {
            alike_key_reflexive(x);
        },
        ResolvedPathPart::Index(x) => {
            code_reflexive(x);
        },
        ResolvedPathPart::PathIndex(x) => {
            code_reflexive(x);
        },
    }
}

proof fn parts_reflexive(a: Seq<ResolvedPathPart>)
    ensures
        alike_parts(a, a),
    decreases a,
{
    assert forall|i: int| 0 <= i < a.len() implies alike_part(#[trigger] a[i], a[i]) by {
        part_reflexive(a[i]);
    }
}

/// Whether two byte strings are the same.
fn same_bytes(a: &Vec<u8>, b: &Vec<u8>) -> (same: bool)
    ensures
        same == (a@ == b@),
{
    if a.len() != b.len() {
        return false;
    }
    let mut k: usize = 0;
    while k < a.len()
        invariant
            k <= a.len(),
            a.len() == b.len(),
            forall|i: int| 0 <= i < k ==> a@[i] == b@[i],
        decreases a.len() - k,
    {
        if a[k] != b[k] {
            assert(a@[k as int] != b@[k as int]);
            return false;
        }
        k = k + 1;
    }
    assert(a@ =~= b@);
    true
}

/// Whether two paths spell the same names.
fn same_names(a: &Vec<String>, b: &Vec<String>) -> (same: bool)
    ensures
        same == (text::texts(a@) == text::texts(b@)),
{
    if a.len() != b.len() {
        assert(text::texts(a@).len() != text::texts(b@).len());
        return false;
    }
    let mut k: usize = 0;
    while k < a.len()
        invariant
            k <= a.len(),
            a.len() == b.len(),
            forall|i: int| 0 <= i < k ==> text::texts(a@)[i] == text::texts(b@)[i],
        decreases a.len() - k,
    {
        if !same_text(a[k].as_str(), b[k].as_str()) {
            assert(text::texts(a@)[k as int] != text::texts(b@)[k as int]);
            return false;
        }
        k = k + 1;
    }
    assert(text::texts(a@) =~= text::texts(b@));
    true
}

/// Whether two lists hold the same locals.
fn same_places(a: &Vec<BindingId>, b: &Vec<BindingId>) -> (same: bool)
    ensures
        same == (a@ == b@),
{
    if a.len() != b.len() {
        assert(a@.len() != b@.len());
        return false;
    }
    let mut k: usize = 0;
    while k < a.len()
        invariant
            k <= a.len(),
            a.len() == b.len(),
            forall|i: int| 0 <= i < k ==> a@[i] == b@[i],
        decreases a.len() - k,
    {
        if a[k].0 != b[k].0 {
            assert(a@[k as int] != b@[k as int]);
            return false;
        }
        k = k + 1;
    }
    assert(a@ =~= b@);
    true
}

/// Whether keys are the same one by one.
fn same_keys(a: &Vec<Key>, b: &Vec<Key>) -> (same: bool)
    ensures
        same == alike_keys(a@, b@),
    decreases a,
{
    if a.len() != b.len() {
        return false;
    }
    let mut k: usize = 0;
    while k < a.len()
        invariant
            k <= a.len(),
            a.len() == b.len(),
            forall|i: int| 0 <= i < k ==> alike_key(#[trigger] a@[i], b@[i]),
        decreases a.len() - k,
    {
        assert(decreases_to!(a => a@[k as int]));
        if !same_key(&a[k], &b[k]) {
            assert(!alike_key(a@[k as int], b@[k as int]));
            return false;
        }
        k = k + 1;
    }
    true
}

/// Whether two dictionaries are the same.
fn same_key_entries(a: &Vec<(Key, Key)>, b: &Vec<(Key, Key)>) -> (same: bool)
    ensures
        same == alike_key_entries(a@, b@),
    decreases a,
{
    let mut k: usize = 0;
    while k < a.len()
        invariant
            k <= a.len(),
            forall|i: int|
                0 <= i < k ==> key_entry_in(#[trigger] a@[i], b@),
        decreases a.len() - k,
    {
        let mut found = false;
        let mut n: usize = 0;
        while n < b.len() && !found
            invariant
                k < a.len(),
                n <= b.len(),
                found ==> key_entry_in(a@[k as int], b@),
                !found ==> forall|j: int|
                    0 <= j < n ==> !(alike_key(a@[k as int].0, (#[trigger] b@[j]).0)
                        && alike_key(a@[k as int].1, b@[j].1)),
            decreases b.len() - n + if found { 0int } else { 1 },
        {
            assert(decreases_to!(a => a@[k as int]));
            if same_key(&a[k].0, &b[n].0) && same_key(&a[k].1, &b[n].1) {
                assert(b@[n as int] == b@[n as int]);
                found = true;
            } else {
                n = n + 1;
            }
        }
        if !found {
            assert(a@[k as int] == a@[k as int]);
            return false;
        }
        k = k + 1;
    }
    let mut k: usize = 0;
    while k < b.len()
        invariant
            k <= b.len(),
            forall|j: int|
                0 <= j < k ==> key_entry_of(a@, #[trigger] b@[j]),
        decreases b.len() - k,
    {
        let mut found = false;
        let mut n: usize = 0;
        while n < a.len() && !found
            invariant
                k < b.len(),
                n <= a.len(),
                found ==> key_entry_of(a@, b@[k as int]),
                !found ==> forall|i: int|
                    0 <= i < n ==> !(alike_key((#[trigger] a@[i]).0, b@[k as int].0)
                        && alike_key(a@[i].1, b@[k as int].1)),
            decreases a.len() - n + if found { 0int } else { 1 },
        {
            assert(decreases_to!(a => a@[n as int]));
            if same_key(&a[n].0, &b[k].0) && same_key(&a[n].1, &b[k].1) {
                assert(a@[n as int] == a@[n as int]);
                found = true;
            } else {
                n = n + 1;
            }
        }
        if !found {
            assert(b@[k as int] == b@[k as int]);
            return false;
        }
        k = k + 1;
    }
    true
}

/// Whether values are the same one by one.
fn same_values(a: &Vec<Value>, b: &Vec<Value>) -> (same: bool)
    ensures
        same == alike_values(a@, b@),
    decreases a,
{
    if a.len() != b.len() {
        return false;
    }
    let mut k: usize = 0;
    while k < a.len()
        invariant
            k <= a.len(),
            a.len() == b.len(),
            forall|i: int| 0 <= i < k ==> alike(#[trigger] a@[i], b@[i]),
        decreases a.len() - k,
    {
        assert(decreases_to!(a => a@[k as int]));
        if !same_value(&a[k], &b[k]) {
            assert(!alike(a@[k as int], b@[k as int]));
            return false;
        }
        k = k + 1;
    }
    true
}

/// Whether two dictionaries are the same.
fn same_entries(a: &Vec<(Key, Value)>, b: &Vec<(Key, Value)>) -> (same: bool)
    ensures
        same == alike_entries(a@, b@),
    decreases a,
{
    let mut k: usize = 0;
    while k < a.len()
        invariant
            k <= a.len(),
            forall|i: int|
                0 <= i < k ==> entry_in(#[trigger] a@[i], b@),
        decreases a.len() - k,
    {
        let mut found = false;
        let mut n: usize = 0;
        while n < b.len() && !found
            invariant
                k < a.len(),
                n <= b.len(),
                found ==> entry_in(a@[k as int], b@),
                !found ==> forall|j: int|
                    0 <= j < n ==> !(alike_key(a@[k as int].0, (#[trigger] b@[j]).0)
                        && alike(a@[k as int].1, b@[j].1)),
            decreases b.len() - n + if found { 0int } else { 1 },
        {
            assert(decreases_to!(a => a@[k as int]));
            if same_key(&a[k].0, &b[n].0) && same_value(&a[k].1, &b[n].1) {
                assert(b@[n as int] == b@[n as int]);
                found = true;
            } else {
                n = n + 1;
            }
        }
        if !found {
            assert(a@[k as int] == a@[k as int]);
            return false;
        }
        k = k + 1;
    }
    let mut k: usize = 0;
    while k < b.len()
        invariant
            k <= b.len(),
            forall|j: int|
                0 <= j < k ==> entry_of(a@, #[trigger] b@[j]),
        decreases b.len() - k,
    {
        let mut found = false;
        let mut n: usize = 0;
        while n < a.len() && !found
            invariant
                k < b.len(),
                n <= a.len(),
                found ==> entry_of(a@, b@[k as int]),
                !found ==> forall|i: int|
                    0 <= i < n ==> !(alike_key((#[trigger] a@[i]).0, b@[k as int].0)
                        && alike(a@[i].1, b@[k as int].1)),
            decreases a.len() - n + if found { 0int } else { 1 },
        {
            assert(decreases_to!(a => a@[n as int]));
            if same_key(&a[n].0, &b[k].0) && same_value(&a[n].1, &b[k].1) {
                assert(a@[n as int] == a@[n as int]);
                found = true;
            } else {
                n = n + 1;
            }
        }
        if !found {
            assert(b@[k as int] == b@[k as int]);
            return false;
        }
        k = k + 1;
    }
    true
}

/// Whether code is the same piece by piece.
fn same_codes(a: &Vec<ResolvedExpr>, b: &Vec<ResolvedExpr>) -> (same: bool)
    ensures
        same == alike_codes(a@, b@),
    decreases a,
{
    if a.len() != b.len() {
        return false;
    }
    let mut k: usize = 0;
    while k < a.len()
        invariant
            k <= a.len(),
            a.len() == b.len(),
            forall|i: int| 0 <= i < k ==> alike_code(#[trigger] a@[i], b@[i]),
        decreases a.len() - k,
    {
        assert(decreases_to!(a => a@[k as int]));
        if !same_code(&a[k], &b[k]) {
            assert(!alike_code(a@[k as int], b@[k as int]));
            return false;
        }
        k = k + 1;
    }
    true
}

/// Whether paths are the same step by step.
fn same_parts(a: &Vec<ResolvedPathPart>, b: &Vec<ResolvedPathPart>) -> (same: bool)
    ensures
        same == alike_parts(a@, b@),
    decreases a,
{
    if a.len() != b.len() {
        return false;
    }
    let mut k: usize = 0;
    while k < a.len()
        invariant
            k <= a.len(),
            a.len() == b.len(),
            forall|i: int| 0 <= i < k ==> alike_part(#[trigger] a@[i], b@[i]),
        decreases a.len() - k,
    {
        assert(decreases_to!(a => a@[k as int]));
        if !same_part(&a[k], &b[k]) {
            assert(!alike_part(a@[k as int], b@[k as int]));
            return false;
        }
        k = k + 1;
    }
    true
}

/// Whether two keys are the same.
pub fn same_key(a: &Key, b: &Key) -> (same: bool)
    ensures
        same == alike_key(*a, *b),
    decreases a,
{
    match (a, b) {
        (Key::Atom(x), Key::Atom(y)) => same_text(x.as_str(), y.as_str()),
        (Key::Number(x), Key::Number(y)) => x.same(y),
        (Key::Binary(x), Key::Binary(y)) => same_bytes(x, y),
        (Key::AbstractGlobalPath(x), Key::AbstractGlobalPath(y)) => same_names(x, y),
        (Key::List(x), Key::List(y)) => same_keys(x, y),
        (Key::Dict(x), Key::Dict(y)) => same_key_entries(x, y),
        _ => false,
    }
}

/// Whether two values are the same.
pub fn same_value(a: &Value, b: &Value) -> (same: bool)
    ensures
        same == alike(*a, *b),
    decreases a,
{
    match (a, b) {
        (Value::Unit, Value::Unit) => true,
        (Value::Atom(x), Value::Atom(y)) => same_key(x, y),
        (Value::Number(x), Value::Number(y)) => x.same(y),
        (Value::Binary(x), Value::Binary(y)) => same_bytes(x, y),
        (Value::List(x), Value::List(y)) => same_values(x, y),
        (Value::Dict(x), Value::Dict(y)) => same_entries(x, y),
        (Value::Builtin(x), Value::Builtin(y)) => *x == *y,
        (Value::Error(x), Value::Error(y)) => same_text(x.as_str(), y.as_str()),
        (Value::Lazy(x), Value::Lazy(y)) => same_code(x, y),
        _ => false,
    }
}

/// Whether two pieces of code are the same.
pub fn same_code(a: &ResolvedExpr, b: &ResolvedExpr) -> (same: bool)
    ensures
        same == alike_code(*a, *b),
    decreases a,
{
    match (a, b) {
        (ResolvedExpr::Embedded(x), ResolvedExpr::Embedded(y)) => same_value(x, y),
        (ResolvedExpr::Provided(x), ResolvedExpr::Provided(y)) => same_value(x, y),
        (ResolvedExpr::Local(x), ResolvedExpr::Local(y)) => x.0 == y.0,
        (ResolvedExpr::List(x), ResolvedExpr::List(y)) => same_codes(x, y),
        (
            ResolvedExpr::Access { base: x, path: p },
            ResolvedExpr::Access { base: y, path: q },
        ) => same_code(x, y) && same_parts(p, q),
        (ResolvedExpr::Lambda(p, x), ResolvedExpr::Lambda(q, y)) => same_places(p, q)
            && same_code(x, y),
        (ResolvedExpr::Apply(x, p), ResolvedExpr::Apply(y, q)) => same_code(x, y) && same_codes(
            p,
            q,
        ),
        _ => false,
    }
}

/// Whether two steps of a path are the same.
pub fn same_part(a: &ResolvedPathPart, b: &ResolvedPathPart) -> (same: bool)
    ensures
        same == alike_part(*a, *b),
    decreases a,
{
    match (a, b) {
        (ResolvedPathPart::Key(x), ResolvedPathPart::Key(y)) => same_key(x, y),
        (ResolvedPathPart::Index(x), ResolvedPathPart::Index(y)) => same_code(x, y),
        (ResolvedPathPart::PathIndex(x), ResolvedPathPart::PathIndex(y)) => same_code(x, y),
        _ => false,
    }
}

impl PartialEq for Key {
    fn eq(&self, other: &Self) -> (same: bool) {
        same_key(self, other)
    }
}

impl vstd::std_specs::cmp::PartialEqSpecImpl for Key {
    open spec fn obeys_eq_spec() -> bool {
        true
    }

    open spec fn eq_spec(&self, other: &Self) -> bool {
        alike_key(*self, *other)
    }
}

impl PartialEq for Value {
    fn eq(&self, other: &Self) -> (same: bool) {
        same_value(self, other)
    }
}

impl vstd::std_specs::cmp::PartialEqSpecImpl for Value {
    open spec fn obeys_eq_spec() -> bool {
        true
    }

    open spec fn eq_spec(&self, other: &Self) -> bool {
        alike(*self, *other)
    }
}

impl PartialEq for ResolvedExpr {
    fn eq(&self, other: &Self) -> (same: bool) {
        same_code(self, other)
    }
}

impl vstd::std_specs::cmp::PartialEqSpecImpl for ResolvedExpr {
    open spec fn obeys_eq_spec() -> bool {
        true
    }

    open spec fn eq_spec(&self, other: &Self) -> bool {
        alike_code(*self, *other)
    }
}

impl PartialEq for ResolvedPathPart {
    fn eq(&self, other: &Self) -> (same: bool) {
        same_part(self, other)
    }
}

impl vstd::std_specs::cmp::PartialEqSpecImpl for ResolvedPathPart {
    open spec fn obeys_eq_spec() -> bool {
        true
    }

    open spec fn eq_spec(&self, other: &Self) -> bool {
        alike_part(*self, *other)
    }
}

} // verus!
