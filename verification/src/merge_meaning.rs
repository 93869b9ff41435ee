//! What definitions hold after several values were placed in them.

use vstd::prelude::*;
use crate::definitions;
use crate::imports;
use crate::lowered_meaning;
use crate::semantics;
use crate::semantics::{
    diverges, keys, listed, meaning, name_keys, reach, replaced, sound, updating, value, Model,
};
use crate::text;
use crate::values;
use crate::values::{Builtin, Form, Key, Shape, Value};

verus! {

/// A value and where it is placed.
pub struct Leaf {
    pub path: Seq<Form>,
    pub held: Form,
}

/// The values in a dictionary and in those nested in it, in order. A dictionary
/// that is empty is a value of its own.
pub open spec fn leaves(prefix: Seq<Form>, entries: Seq<(Key, Value)>) -> Seq<Leaf>
    decreases entries,
{
    if entries.len() == 0 {
        Seq::empty()
    } else {
        let (key, item) = entries.last();
        let path = prefix.push(values::key_form(key));
        leaves(prefix, entries.drop_last()) + match item {
            Value::Dict(nested) => if nested@.len() > 0 {
                leaves(path, nested@)
            } else {
                seq![Leaf { path, held: values::value_form(item) }]
            },
            _ => seq![Leaf { path, held: values::value_form(item) }],
        }
    }
}

/// The keys of a dictionary, and of those nested in it, are names.
pub open spec fn keyed_by_names(entries: Seq<(Key, Value)>) -> bool
    decreases entries,
{
    entries.len() == 0 || {
        let (key, item) = entries.last();
        &&& keyed_by_names(entries.drop_last())
        &&& key is Atom || key is AbstractGlobalPath
        &&& item matches Value::Dict(nested) ==> keyed_by_names(nested@)
    }
}

/// A value with leaves placed in it, one after the other.
pub open spec fn filled<D>(m: Model<D>, base: D, all: Seq<Leaf>) -> D
    decreases all.len(),
{
    if all.len() == 0 {
        base
    } else {
        replaced(
            m,
            filled(m, base, all.drop_last()),
            all.last().path,
            value(m, all.last().held),
        )
    }
}

proof fn filling_in_turn<D>(m: Model<D>, base: D, first: Seq<Leaf>, second: Seq<Leaf>)
    ensures
        filled(m, base, first + second) == filled(m, filled(m, base, first), second),
    decreases second.len(),
{
    if second.len() == 0 {
        assert(first + second =~= first);
    } else {
        filling_in_turn(m, base, first, second.drop_last());
        assert((first + second).drop_last() =~= first + second.drop_last());
        assert((first + second).last() == second.last());
    }
}

/// A path of values stands for a path of keys.
spec fn spells<D>(m: Model<D>, codes: Seq<Form>, path: Seq<Form>) -> bool {
    &&& codes.len() == path.len()
    &&& forall|i: int| 0 <= i < path.len() ==> value(m, #[trigger] codes[i]) == (m.key)(path[i])
}

proof fn spelled_list<D>(m: Model<D>, codes: Seq<Form>, path: Seq<Form>)
    requires
        spells(m, codes, path),
    ensures
        listed(m, codes) == keys(m, path),
    decreases path.len(),
{
    if path.len() == 0 {
        assert(keys(m, path) =~= listed(m, codes));
    } else {
        let front = codes.drop_last();
        let short = path.drop_last();
        assert forall|i: int| 0 <= i < short.len() implies value(m, #[trigger] front[i]) == (m.key)(
            short[i],
        ) by {
            assert(front[i] == codes[i]);
        }
        spelled_list(m, front, short);
        assert(value(m, codes[codes.len() - 1]) == (m.key)(path[path.len() - 1]));
        assert(listed(m, codes) =~= keys(m, path));
    }
}

proof fn value_of_placed<D>(m: Model<D>, codes: Seq<Form>, path: Seq<Form>, held: Form, old: Form)
    requires
        sound(m),
        spells(m, codes, path),
    ensures
        value(m, definitions::placed(values::shaped(Shape::List, codes), held, old)) == replaced(
            m,
            value(m, old),
            path,
            value(m, held),
        ),
{
    let env = Map::<nat, D>::empty();
    let list = values::shaped(Shape::List, codes);
    let a = values::embedded_form(list);
    let b = values::provided_form(held);
    let c = values::provided_form(old);
    semantics::meaning_of_value(m, env, list);
    semantics::meaning_of_value(m, env, held);
    semantics::meaning_of_value(m, env, old);
    assert(list->Node_1 == codes);
    assert(value(m, list) == (m.list)(listed(m, codes)));
    spelled_list(m, codes, path);
    semantics::value_of_lazy(m, values::call_form(Builtin::DictUpdate, seq![a, b, c]));
    semantics::meaning_of_call(m, env, Builtin::DictUpdate, seq![a, b, c]);
    semantics::meanings_of_three(m, env, a, b, c);
    reveal(semantics::holds_entries);
    assert(value(m, definitions::placed(list, held, old)) == updating(
        m,
        path,
        value(m, held),
        value(m, old),
    ));
}

/// Merging a dictionary places its leaves.
proof fn merging_fills<D>(
    m: Model<D>,
    old: Form,
    codes: Seq<Form>,
    path: Seq<Form>,
    entries: Seq<(Key, Value)>,
)
    requires
        sound(m),
        spells(m, codes, path),
        keyed_by_names(entries),
    ensures
        value(m, definitions::merged(old, codes, entries)) == filled(
            m,
            value(m, old),
            leaves(path, entries),
        ),
    decreases entries,
{
    if entries.len() > 0 {
        let front = entries.drop_last();
        let (key, item) = entries.last();
        merging_fills(m, old, codes, path, front);
        let before = definitions::merged(old, codes, front);
        let code = values::key_value_form(key);
        let more = codes.push(code);
        let longer = path.push(values::key_form(key));
        assert(code->Node_1[0] == values::key_form(key));
        assert(value(m, code) == (m.key)(values::key_form(key)));
        assert(spells(m, more, longer)) by {
            assert forall|i: int| 0 <= i < longer.len() implies value(m, #[trigger] more[i]) == (
            m.key)(longer[i]) by {
                if i < path.len() {
                    assert(more[i] == codes[i]);
                }
            }
        }
        let leaf = seq![Leaf { path: longer, held: values::value_form(item) }];
        assert(leaf.drop_last() =~= Seq::empty());
        reveal_with_fuel(filled, 2);
        match item {
            Value::Dict(nested) => {
                if nested@.len() > 0 {
                    merging_fills(m, before, more, longer, nested@);
                    filling_in_turn(
                        m,
                        value(m, old),
                        leaves(path, front),
                        leaves(longer, nested@),
                    );
                } else {
                    value_of_placed(m, more, longer, values::value_form(item), before);
                    filling_in_turn(m, value(m, old), leaves(path, front), leaf);
                }
            },
            _ => {
                value_of_placed(m, more, longer, values::value_form(item), before);
                filling_in_turn(m, value(m, old), leaves(path, front), leaf);
            },
        }
    }
}

/// No later leaf lies along the path of one, nor that along theirs.
pub open spec fn stays(all: Seq<Leaf>, i: int) -> bool {
    forall|j: int| i < j < all.len() ==> diverges((#[trigger] all[j]).path, all[i].path)
}

/// Every leaf lies apart from a path.
pub open spec fn apart(all: Seq<Leaf>, path: Seq<Form>) -> bool {
    forall|j: int| 0 <= j < all.len() ==> diverges((#[trigger] all[j]).path, path)
}

/// Each leaf that stays is found, and what lies apart from all of them stays
/// what it was.
pub open spec fn holds_leaves<D>(m: Model<D>, before: D, after: D, all: Seq<Leaf>) -> bool {
    &&& forall|i: int|
        0 <= i < all.len() && stays(all, i) ==> reach(m, after, (#[trigger] all[i]).path) == value(
            m,
            all[i].held,
        )
    &&& forall|path: Seq<Form>|
        apart(all, path) ==> #[trigger] reach(m, after, path) == reach(m, before, path)
}

proof fn filling_holds<D>(m: Model<D>, base: D, all: Seq<Leaf>)
    requires
        sound(m),
    ensures
        holds_leaves(m, base, filled(m, base, all), all),
    decreases all.len(),
{
    if all.len() > 0 {
        let front = all.drop_last();
        let last = all.last();
        filling_holds(m, base, front);
        let before = filled(m, base, front);
        let after = filled(m, base, all);
        let v = value(m, last.held);
        assert forall|i: int| 0 <= i < all.len() && stays(all, i) implies reach(
            m,
            after,
            (#[trigger] all[i]).path,
        ) == value(m, all[i].held) by {
            if i < front.len() {
                assert(front[i] == all[i]);
                assert(stays(front, i)) by {
                    assert forall|j: int| i < j < front.len() implies diverges(
                        (#[trigger] front[j]).path,
                        front[i].path,
                    ) by {
                        assert(front[j] == all[j]);
                    }
                }
                assert(diverges(all[all.len() - 1].path, all[i].path));
                semantics::replacing_keeps(m, before, last.path, all[i].path, v);
            } else {
                semantics::replaced_is_reached(m, before, last.path, v);
            }
        }
        assert forall|path: Seq<Form>| apart(all, path) implies #[trigger] reach(m, after, path)
            == reach(m, base, path) by {
            assert(apart(front, path)) by {
                assert forall|j: int| 0 <= j < front.len() implies diverges(
                    (#[trigger] front[j]).path,
                    path,
                ) by {
                    assert(front[j] == all[j]);
                }
            }
            assert(diverges(all[all.len() - 1].path, path));
            semantics::replacing_keeps(m, before, last.path, path, v);
        }
    }
}

/// A dictionary that is merged into definitions is found in them: each of its
/// values, and those of the dictionaries nested in it, at its own path. Names
/// that it does not hold keep their values, also beside its own.
pub proof fn merged_entries_are_found<D>(
    m: Model<D>,
    old: Form,
    entries: Seq<(Key, Value)>,
    item: Value,
)
    requires
        sound(m),
        item matches Value::Dict(held) && held@ == entries,
        keyed_by_names(entries),
    ensures
        holds_leaves(
            m,
            value(m, old),
            value(m, definitions::merged_value(old, item)),
            leaves(Seq::empty(), entries),
        ),
{
    merging_fills(m, old, Seq::empty(), Seq::empty(), entries);
    filling_holds(m, value(m, old), leaves(Seq::empty(), entries));
}

/// Names that are unique to a module, at their paths.
pub open spec fn unique_leaves(names: Seq<Seq<char>>, origin: Seq<Seq<char>>) -> Seq<Leaf> {
    names.map_values(
        |name: Seq<char>|
            Leaf { path: name_keys(text::dotted(name)), held: imports::global_form(origin, name) },
    )
}

/// Each of the names that a module declares unique is a value of its own there,
/// and other names keep their values.
pub proof fn unique_names_are_found<D>(
    m: Model<D>,
    names: Seq<Seq<char>>,
    origin: Seq<Seq<char>>,
    old: Form,
)
    requires
        sound(m),
    ensures
        holds_leaves(
            m,
            value(m, old),
            value(m, imports::unique_form(names, origin, old)),
            unique_leaves(names, origin),
        ),
{
    unique_names_fill(m, names, origin, old);
    filling_holds(m, value(m, old), unique_leaves(names, origin));
}

proof fn unique_names_fill<D>(
    m: Model<D>,
    names: Seq<Seq<char>>,
    origin: Seq<Seq<char>>,
    old: Form,
)
    requires
        sound(m),
    ensures
        value(m, imports::unique_form(names, origin, old)) == filled(
            m,
            value(m, old),
            unique_leaves(names, origin),
        ),
    decreases names.len(),
{
    if names.len() > 0 {
        let front = names.drop_last();
        let name = names.last();
        unique_names_fill(m, front, origin, old);
        let all = unique_leaves(names, origin);
        assert(all.drop_last() =~= unique_leaves(front, origin));
        let parts = text::dotted(name);
        let codes = parts.map_values(|part: Seq<char>| values::atom_form(part));
        let path = name_keys(parts);
        assert(spells(m, codes, path)) by {
            assert forall|i: int| 0 <= i < path.len() implies value(m, #[trigger] codes[i]) == (
            m.key)(path[i]) by {
                semantics::value_of_atom(m, parts[i]);
            }
        }
        value_of_placed(
            m,
            codes,
            path,
            imports::global_form(origin, name),
            imports::unique_form(front, origin, old),
        );
    }
}

} // verus!
