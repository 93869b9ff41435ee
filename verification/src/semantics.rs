//! What code means to an evaluator.
//!
//! An evaluator gives every piece of code a meaning. A model is such an
//! evaluator as far as the code of a front end depends on it: functions are
//! applied, dictionaries are read and updated by keys, assertions hold or fail,
//! and objects have a specification and members. The meaning of code in a model
//! follows from the meanings of its parts.

use vstd::prelude::*;
use crate::values;
use crate::values::{Builtin, Form, Shape};

verus! {

/// An evaluator, over the meanings `D`.
#[verifier::reject_recursive_types(D)]
pub struct Model<D> {
    /// What a key is.
    pub key: spec_fn(Form) -> D,
    /// What other data is.
    pub datum: spec_fn(Form) -> D,
    pub operation: spec_fn(Builtin) -> D,
    pub list: spec_fn(Seq<D>) -> D,
    pub empty: D,
    /// What a dictionary holds where it holds nothing.
    pub absent: D,
    /// What a dictionary holds at a key.
    pub at: spec_fn(D, D) -> D,
    /// A dictionary with one entry replaced.
    pub put: spec_fn(D, D, D) -> D,
    /// What a value holds along a path.
    pub along: spec_fn(D, D) -> D,
    pub apply: spec_fn(D, Seq<D>) -> D,
    /// The function that a lambda is, where its locals are given.
    pub closure: spec_fn(Map<nat, D>, Form) -> D,
    pub is_defined: spec_fn(D) -> bool,
    pub is_undefined: spec_fn(D) -> bool,
    /// What an assertion that fails gives.
    pub failure: spec_fn(D) -> D,
    /// The members that an object takes from those it depends on.
    pub inherited: spec_fn(D) -> D,
}

/// The locals that code names. Values name none.
pub open spec fn mentioned(form: Form) -> Set<nat>
    decreases form,
{
    match form {
        Form::Node(Shape::Local, parts) => if parts.len() == 1 && parts[0] is Size {
            Set::empty().insert(parts[0]->Size_0)
        } else {
            Set::empty()
        },
        Form::Node(Shape::Embedded, _) => Set::empty(),
        Form::Node(Shape::Provided, _) => Set::empty(),
        Form::Node(_, parts) => mentioned_in(parts),
        _ => Set::empty(),
    }
}

pub open spec fn mentioned_in(parts: Seq<Form>) -> Set<nat>
    decreases parts,
{
    if parts.len() == 0 {
        Set::empty()
    } else {
        mentioned_in(parts.drop_last()).union(mentioned(parts.last()))
    }
}

/// The meaning of code whose locals are given.
pub open spec fn meaning<D>(m: Model<D>, env: Map<nat, D>, form: Form) -> D
    decreases form, 1nat,
{
    match form {
        Form::Node(Shape::Embedded, parts) => if parts.len() == 1 {
            value(m, parts[0])
        } else {
            m.absent
        },
        Form::Node(Shape::Provided, parts) => if parts.len() == 1 {
            value(m, parts[0])
        } else {
            m.absent
        },
        Form::Node(Shape::Local, parts) => if parts.len() == 1 && parts[0] is Size
            && env.contains_key(parts[0]->Size_0) {
            env[parts[0]->Size_0]
        } else {
            m.absent
        },
        Form::Node(Shape::ListCode, parts) => (m.list)(meanings(m, env, parts)),
        Form::Node(Shape::Access, parts) => if parts.len() == 2 {
            match parts[1] {
                Form::Node(Shape::Many, steps) => walked(m, env, meaning(m, env, parts[0]), steps),
                _ => m.absent,
            }
        } else {
            m.absent
        },
        Form::Node(Shape::Lambda, parts) => (m.closure)(env.restrict(mentioned(form)), form),
        Form::Node(Shape::Apply, parts) => if parts.len() == 2 {
            match parts[1] {
                Form::Node(Shape::Many, arguments) => (m.apply)(
                    meaning(m, env, parts[0]),
                    meanings(m, env, arguments),
                ),
                _ => m.absent,
            }
        } else {
            m.absent
        },
        _ => m.absent,
    }
}

pub open spec fn meanings<D>(m: Model<D>, env: Map<nat, D>, parts: Seq<Form>) -> Seq<D>
    decreases parts, 0nat,
{
    if parts.len() == 0 {
        Seq::empty()
    } else {
        meanings(m, env, parts.drop_last()).push(meaning(m, env, parts.last()))
    }
}

/// What the steps of a path reach from a value.
pub open spec fn walked<D>(m: Model<D>, env: Map<nat, D>, base: D, steps: Seq<Form>) -> D
    decreases steps, 0nat,
{
    if steps.len() == 0 {
        base
    } else {
        let before = walked(m, env, base, steps.drop_last());
        stepped(m, env, before, steps.last())
    }
}

pub open spec fn stepped<D>(m: Model<D>, env: Map<nat, D>, base: D, part: Form) -> D
    decreases part, 0nat,
{
    match part {
        Form::Node(Shape::PartKey, parts) => if parts.len() == 1 {
            (m.at)(base, (m.key)(parts[0]))
        } else {
            m.absent
        },
        Form::Node(Shape::PartIndex, parts) => if parts.len() == 1 {
            (m.at)(base, meaning(m, env, parts[0]))
        } else {
            m.absent
        },
        Form::Node(Shape::PartPathIndex, parts) => if parts.len() == 1 {
            (m.along)(base, meaning(m, env, parts[0]))
        } else {
            m.absent
        },
        _ => m.absent,
    }
}

/// What a value is. One that was not demanded is what its code means.
pub open spec fn value<D>(m: Model<D>, form: Form) -> D
    decreases form, 0nat,
{
    match form {
        Form::Node(Shape::Lazy, parts) => if parts.len() == 1 {
            meaning(m, Map::empty(), parts[0])
        } else {
            m.absent
        },
        Form::Node(Shape::Atom, parts) => if parts.len() == 1 {
            (m.key)(parts[0])
        } else {
            m.absent
        },
        Form::Node(Shape::Number, parts) => (m.key)(Form::Node(Shape::KeyNumber, parts)),
        Form::Node(Shape::Binary, parts) => (m.key)(Form::Node(Shape::KeyBinary, parts)),
        Form::Node(Shape::Builtin, parts) => if parts.len() == 1 && parts[0] is Operation {
            (m.operation)(parts[0]->Operation_0)
        } else {
            m.absent
        },
        Form::Node(Shape::List, parts) => (m.list)(listed(m, parts)),
        Form::Node(Shape::Dict, parts) => held(m, parts),
        _ => (m.datum)(form),
    }
}

pub open spec fn listed<D>(m: Model<D>, parts: Seq<Form>) -> Seq<D>
    decreases parts, 0nat,
{
    if parts.len() == 0 {
        Seq::empty()
    } else {
        listed(m, parts.drop_last()).push(value(m, parts.last()))
    }
}

/// The dictionary with the given entries.
pub open spec fn held<D>(m: Model<D>, entries: Seq<Form>) -> D
    decreases entries, 0nat,
{
    if entries.len() == 0 {
        m.empty
    } else {
        let before = held(m, entries.drop_last());
        match entries.last() {
            Form::Node(_, pair) => if pair.len() == 2 {
                (m.put)(before, (m.key)(pair[0]), value(m, pair[1]))
            } else {
                before
            },
            _ => before,
        }
    }
}

/// The locals with those of a function given.
pub open spec fn bound<D>(env: Map<nat, D>, ids: Seq<nat>, arguments: Seq<D>) -> Map<nat, D>
    decreases ids.len(),
{
    if ids.len() == 0 {
        env
    } else {
        bound(env, ids.drop_last(), arguments.drop_last()).insert(ids.last(), arguments.last())
    }
}

/// The key that a name is.
pub open spec fn named<D>(m: Model<D>, name: Seq<char>) -> D {
    (m.key)(values::atom_key(name))
}

/// What a value holds along keys.
pub open spec fn reach<D>(m: Model<D>, base: D, path: Seq<Form>) -> D
    decreases path.len(),
{
    if path.len() == 0 {
        base
    } else {
        reach(m, (m.at)(base, (m.key)(path[0])), path.skip(1))
    }
}

/// A value with what it holds along keys replaced.
pub open spec fn replaced<D>(m: Model<D>, base: D, path: Seq<Form>, new: D) -> D
    decreases path.len(),
{
    if path.len() == 0 {
        new
    } else {
        let k = (m.key)(path[0]);
        (m.put)(base, k, replaced(m, (m.at)(base, k), path.skip(1), new))
    }
}

pub open spec fn keys<D>(m: Model<D>, path: Seq<Form>) -> Seq<D> {
    path.map_values(|k: Form| (m.key)(k))
}

/// Neither path leads along the other.
pub open spec fn diverges(p: Seq<Form>, q: Seq<Form>) -> bool {
    exists|i: int|
        0 <= i < p.len() && i < q.len() && #[trigger] p[i] != q[i] && p.take(i) == q.take(i)
}

/// An application of a builtin.
pub open spec fn call<D>(m: Model<D>, builtin: Builtin, arguments: Seq<D>) -> D {
    (m.apply)((m.operation)(builtin), arguments)
}

/// An object with a name, dependencies and definitions.
pub open spec fn object<D>(m: Model<D>, name: D, deps: D, defs: D) -> D {
    call(m, Builtin::ObjectInstanceFromParts, seq![name, deps, defs])
}

/// The specification of an object.
pub open spec fn spec_of<D>(m: Model<D>, object: D) -> D {
    call(m, Builtin::ObjectSpec, seq![object])
}

/// What updating a dictionary along keys gives.
pub open spec fn updating<D>(m: Model<D>, path: Seq<Form>, new: D, base: D) -> D {
    call(m, Builtin::DictUpdate, seq![(m.list)(keys(m, path)), new, base])
}

/// What a dictionary of one entry is.
pub open spec fn single<D>(m: Model<D>, key: Form, held: D) -> D {
    call(m, Builtin::DictSingleton, seq![(m.key)(key), held])
}

/// What two dictionaries together are.
pub open spec fn united<D>(m: Model<D>, x: D, y: D) -> D {
    call(m, Builtin::DictUnion, seq![x, y])
}

/// What an annotated value is.
pub open spec fn annotated<D>(m: Model<D>, annotation: D, guarded: D) -> D {
    call(m, Builtin::Anno, seq![annotation, guarded])
}

/// Functions are applied by giving their locals.
#[verifier::opaque]
pub open spec fn applies<D>(m: Model<D>) -> bool {
    &&& forall|env: Map<nat, D>, ids: Seq<nat>, body: Form, arguments: Seq<D>|
        ids.len() == arguments.len() ==> #[trigger] (m.apply)(
            (m.closure)(env, values::lambda_form(ids, body)),
            arguments,
        ) == meaning(m, bound(env, ids, arguments), body)
    &&& forall|f: D, first: Seq<D>, second: Seq<D>|
        #[trigger] (m.apply)((m.apply)(f, first), second) == (m.apply)(f, first + second)
}

/// Dictionaries hold what was put into them last.
#[verifier::opaque]
pub open spec fn holds_entries<D>(m: Model<D>) -> bool {
    &&& forall|d: D, a: Form, b: Form, v: D|
        #[trigger] (m.at)((m.put)(d, (m.key)(a), v), (m.key)(b)) == if a == b {
            v
        } else {
            (m.at)(d, (m.key)(b))
        }
    &&& forall|a: Form| #[trigger] (m.at)(m.empty, (m.key)(a)) == m.absent
    &&& (m.is_undefined)(m.absent)
    &&& forall|d: D, path: Seq<Form>|
        #[trigger] (m.along)(d, (m.list)(keys(m, path))) == reach(m, d, path)
    &&& forall|path: Seq<Form>, v: D, d: D|
        #[trigger] updating(m, path, v, d) == replaced(m, d, path, v)
    &&& forall|a: Form, v: D|
        #[trigger] single(m, a, v) == (m.put)(m.empty, (m.key)(a), v)
    &&& forall|x: D, y: D, a: Form|
        #![trigger (m.at)(united(m, x, y), (m.key)(a))]
        {
            let both = (m.at)(united(m, x, y), (m.key)(a));
            &&& (m.is_undefined)((m.at)(x, (m.key)(a))) ==> both == (m.at)(y, (m.key)(a))
            &&& (m.is_undefined)((m.at)(y, (m.key)(a))) ==> both == (m.at)(x, (m.key)(a))
        }
}

/// Assertions that hold give the value that they guard, and others fail.
#[verifier::opaque]
pub open spec fn asserts<D>(m: Model<D>) -> bool {
    &&& forall|payload: D, v: D|
        {
            let held = (m.at)(payload, named(m, "value"@));
            let new = single(m, values::atom_key("assert_undefined"@), payload);
            let found = #[trigger] annotated(
                m,
                single(m, values::atom_key("assert_undefined"@), payload),
                v,
            );
            &&& (m.is_undefined)(held) ==> found == v
            &&& (m.is_defined)(held) ==> found == (m.failure)(new)
        }
    &&& forall|payload: D, v: D|
        {
            let held = (m.at)(payload, named(m, "value"@));
            let known = single(m, values::atom_key("assert_defined"@), payload);
            let found = #[trigger] annotated(
                m,
                single(m, values::atom_key("assert_defined"@), payload),
                v,
            );
            &&& (m.is_defined)(held) ==> found == v
            &&& (m.is_undefined)(held) ==> found == (m.failure)(known)
        }
}

/// An object has the parts that it is made from, and the members that its
/// definitions give: from those that it inherits, and from the object itself.
#[verifier::opaque]
pub open spec fn makes_objects<D>(m: Model<D>) -> bool {
    &&& forall|name: D, deps: D, defs: D|
        {
            let found = #[trigger] object(m, name, deps, defs);
            &&& (m.at)(spec_of(m, found), named(m, "name"@)) == name
            &&& (m.at)(spec_of(m, found), named(m, "deps"@)) == deps
            &&& (m.at)(spec_of(m, found), named(m, "defs"@)) == defs
        }
    &&& forall|name: D, deps: D, defs: D, k: Form|
        k != values::atom_key("spec"@) ==> #[trigger] (m.at)(
            object(m, name, deps, defs),
            (m.key)(k),
        ) == (m.at)(
            (m.apply)(defs, seq![(m.inherited)(deps), object(m, name, deps, defs)]),
            (m.key)(k),
        )
    &&& (m.inherited)((m.list)(Seq::empty())) == m.empty
}

/// A model does what its builtins are for.
pub open spec fn sound<D>(m: Model<D>) -> bool {
    applies(m) && holds_entries(m) && asserts(m) && makes_objects(m)
}

/// What applying code means.
pub proof fn meaning_of_apply<D>(m: Model<D>, env: Map<nat, D>, f: Form, arguments: Seq<Form>)
    ensures
        meaning(m, env, values::apply_form(f, arguments)) == (m.apply)(
            meaning(m, env, f),
            meanings(m, env, arguments),
        ),
{
    let form = values::apply_form(f, arguments);
    let parts = form->Node_1;
    assert(parts[0] == f);
    assert(parts[1] == Form::Node(Shape::Many, arguments));
}

pub proof fn meanings_of_one<D>(m: Model<D>, env: Map<nat, D>, a: Form)
    ensures
        meanings(m, env, seq![a]) == seq![meaning(m, env, a)],
{
    assert(seq![a].drop_last() =~= Seq::empty());
    reveal_with_fuel(meanings, 2);
    assert(meanings(m, env, seq![a]) =~= seq![meaning(m, env, a)]);
}

pub proof fn meanings_of_two<D>(m: Model<D>, env: Map<nat, D>, a: Form, b: Form)
    ensures
        meanings(m, env, seq![a, b]) == seq![meaning(m, env, a), meaning(m, env, b)],
{
    assert(seq![a, b].drop_last() =~= seq![a]);
    meanings_of_one(m, env, a);
    assert(meanings(m, env, seq![a, b]) =~= seq![meaning(m, env, a), meaning(m, env, b)]);
}

pub proof fn meanings_of_three<D>(m: Model<D>, env: Map<nat, D>, a: Form, b: Form, c: Form)
    ensures
        meanings(m, env, seq![a, b, c]) == seq![
            meaning(m, env, a),
            meaning(m, env, b),
            meaning(m, env, c),
        ],
{
    assert(seq![a, b, c].drop_last() =~= seq![a, b]);
    meanings_of_two(m, env, a, b);
    assert(meanings(m, env, seq![a, b, c]) =~= seq![
        meaning(m, env, a),
        meaning(m, env, b),
        meaning(m, env, c),
    ]);
}

/// What a call of a builtin means.
pub proof fn meaning_of_call<D>(m: Model<D>, env: Map<nat, D>, b: Builtin, arguments: Seq<Form>)
    ensures
        meaning(m, env, values::call_form(b, arguments)) == call(
            m,
            b,
            meanings(m, env, arguments),
        ),
{
    let f = values::embedded_form(values::builtin_form(b));
    meaning_of_apply(m, env, f, arguments);
    assert(f->Node_1[0] == values::builtin_form(b));
    let v = values::builtin_form(b);
    assert(v->Node_1[0] == Form::Operation(b));
    assert(value(m, v) == (m.operation)(b));
    assert(meaning(m, env, f) == (m.operation)(b));
}

pub proof fn meaning_of_value<D>(m: Model<D>, env: Map<nat, D>, v: Form)
    ensures
        meaning(m, env, values::provided_form(v)) == value(m, v),
        meaning(m, env, values::embedded_form(v)) == value(m, v),
{
    assert(values::provided_form(v)->Node_1[0] == v);
    assert(values::embedded_form(v)->Node_1[0] == v);
}

pub proof fn value_of_lazy<D>(m: Model<D>, code: Form)
    ensures
        value(m, values::lazy_form(code)) == meaning(m, Map::empty(), code),
{
    assert(values::lazy_form(code)->Node_1[0] == code);
}

pub proof fn value_of_atom<D>(m: Model<D>, name: Seq<char>)
    ensures
        value(m, values::atom_form(name)) == named(m, name),
{
    assert(values::atom_form(name)->Node_1[0] == values::atom_key(name));
}

pub proof fn meaning_of_local<D>(m: Model<D>, env: Map<nat, D>, id: nat)
    ensures
        env.contains_key(id) ==> meaning(m, env, values::local_form(id)) == env[id],
        mentioned(values::local_form(id)) == Set::<nat>::empty().insert(id),
{
    assert(values::local_form(id)->Node_1[0] == Form::Size(id));
}

/// The keys of names.
pub open spec fn name_keys(names: Seq<Seq<char>>) -> Seq<Form> {
    names.map_values(|name: Seq<char>| values::atom_key(name))
}

/// A path reaches further by one key.
pub proof fn reach_more<D>(m: Model<D>, base: D, path: Seq<Form>)
    requires
        path.len() > 0,
    ensures
        reach(m, base, path) == (m.at)(reach(m, base, path.drop_last()), (m.key)(path.last())),
    decreases path.len(),
{
    if path.len() == 1 {
        assert(path.skip(1) =~= Seq::empty());
        assert(path.drop_last() =~= Seq::empty());
        reveal_with_fuel(reach, 2);
    } else {
        let next = (m.at)(base, (m.key)(path[0]));
        reach_more(m, next, path.skip(1));
        assert(path.skip(1).drop_last() =~= path.drop_last().skip(1));
    }
}

/// A path by names reaches what their keys reach.
pub proof fn walking_names<D>(m: Model<D>, env: Map<nat, D>, base: D, names: Seq<Seq<char>>)
    ensures
        walked(m, env, base, values::steps_form(names)) == reach(m, base, name_keys(names)),
    decreases names.len(),
{
    let steps = values::steps_form(names);
    let path = name_keys(names);
    if names.len() > 0 {
        walking_names(m, env, base, names.drop_last());
        assert(steps.drop_last() =~= values::steps_form(names.drop_last()));
        assert(path.drop_last() =~= name_keys(names.drop_last()));
        reach_more(m, base, path);
        let part = values::step_form(names.last());
        assert(steps.last() == part);
        assert(part->Node_1[0] == values::atom_key(names.last()));
        let before = walked(m, env, base, steps.drop_last());
        assert(stepped(m, env, before, part) == (m.at)(before, named(m, names.last())));
        assert(path.last() == values::atom_key(names.last()));
    }
}

/// What an access by names means.
pub proof fn meaning_of_access<D>(m: Model<D>, env: Map<nat, D>, base: Form, names: Seq<Seq<char>>)
    ensures
        meaning(m, env, values::access_form(base, values::steps_form(names))) == reach(
            m,
            meaning(m, env, base),
            name_keys(names),
        ),
{
    let form = values::access_form(base, values::steps_form(names));
    assert(form->Node_1[0] == base);
    assert(form->Node_1[1] == Form::Node(Shape::Many, values::steps_form(names)));
    walking_names(m, env, meaning(m, env, base), names);
}

/// What a list of names, as code or as a value, means.
pub proof fn meaning_of_names<D>(m: Model<D>, env: Map<nat, D>, names: Seq<Seq<char>>)
    ensures
        meaning(m, env, values::list_form(values::atoms_form(names))) == (m.list)(
            keys(m, name_keys(names)),
        ),
        value(
            m,
            values::shaped(
                Shape::List,
                names.map_values(|name: Seq<char>| values::atom_form(name)),
            ),
        ) == (m.list)(keys(m, name_keys(names))),
{
    names_listed(m, env, names);
}

proof fn names_listed<D>(m: Model<D>, env: Map<nat, D>, names: Seq<Seq<char>>)
    ensures
        meanings(m, env, values::atoms_form(names)) == keys(m, name_keys(names)),
        listed(m, names.map_values(|name: Seq<char>| values::atom_form(name))) == keys(
            m,
            name_keys(names),
        ),
    decreases names.len(),
{
    let codes = values::atoms_form(names);
    let items = names.map_values(|name: Seq<char>| values::atom_form(name));
    let all = keys(m, name_keys(names));
    if names.len() == 0 {
        assert(codes =~= Seq::empty());
        assert(items =~= Seq::empty());
        assert(all =~= Seq::empty());
    } else {
        let front = names.drop_last();
        names_listed(m, env, front);
        assert(codes.drop_last() =~= values::atoms_form(front));
        assert(items.drop_last() =~= front.map_values(|name: Seq<char>| values::atom_form(name)));
        assert(all.drop_last() =~= keys(m, name_keys(front)));
        let last = names.last();
        assert(codes.last() == values::embedded_form(values::atom_form(last)));
        meaning_of_value(m, env, values::atom_form(last));
        value_of_atom(m, last);
        assert(all =~= all.drop_last().push(named(m, last)));
    }
}

/// What was replaced is what is found there.
pub proof fn replaced_is_reached<D>(m: Model<D>, base: D, path: Seq<Form>, new: D)
    requires
        holds_entries(m),
    ensures
        reach(m, replaced(m, base, path, new), path) == new,
    decreases path.len(),
{
    reveal(holds_entries);
    if path.len() > 0 {
        let k = (m.key)(path[0]);
        replaced_is_reached(m, (m.at)(base, k), path.skip(1), new);
    }
}

/// What lies elsewhere stays.
pub proof fn replacing_keeps<D>(m: Model<D>, base: D, path: Seq<Form>, other: Seq<Form>, new: D)
    requires
        holds_entries(m),
        diverges(path, other),
    ensures
        reach(m, replaced(m, base, path, new), other) == reach(m, base, other),
    decreases path.len(),
{
    reveal(holds_entries);
    let i = choose|i: int|
        0 <= i < path.len() && i < other.len() && #[trigger] path[i] != other[i] && path.take(i)
            == other.take(i);
    let k = (m.key)(path[0]);
    if i > 0 {
        assert(path.take(i)[0] == path[0]);
        assert(other.take(i)[0] == other[0]);
        let p = path.skip(1);
        let q = other.skip(1);
        assert(p[i - 1] != q[i - 1]);
        assert(p.take(i - 1) =~= path.take(i).skip(1));
        assert(q.take(i - 1) =~= other.take(i).skip(1));
        assert(diverges(p, q));
        replacing_keeps(m, (m.at)(base, k), p, q, new);
    }
}

/// Locals that are not named by code do not matter to it.
pub open spec fn agree<D>(a: Map<nat, D>, b: Map<nat, D>, ids: Set<nat>) -> bool {
    forall|n: nat| #[trigger]
        ids.contains(n) ==> a.contains_key(n) == b.contains_key(n) && (a.contains_key(n) ==> a[n]
            == b[n])
}

pub proof fn meaning_depends_on_named<D>(
    m: Model<D>,
    a: Map<nat, D>,
    b: Map<nat, D>,
    form: Form,
)
    requires
        agree(a, b, mentioned(form)),
    ensures
        meaning(m, a, form) == meaning(m, b, form),
    decreases form, 1nat,
{
    match form {
        Form::Node(Shape::Local, parts) => {
            if parts.len() == 1 && parts[0] is Size {
                let n = parts[0]->Size_0;
                assert(mentioned(form).contains(n));
            }
        },
        Form::Node(Shape::ListCode, parts) => {
            node_mentions(Shape::ListCode, parts);
            meanings_depend_on_named(m, a, b, parts);
        },
        Form::Node(Shape::Access, parts) => {
            if parts.len() == 2 {
                parts_mentioned(parts);
                node_mentions(Shape::Access, parts);
                agree_within(a, b, mentioned(parts[0]), mentioned(form));
                meaning_depends_on_named(m, a, b, parts[0]);
                if let Form::Node(Shape::Many, steps) = parts[1] {
                    node_mentions(Shape::Many, steps);
                    agree_within(a, b, mentioned(parts[1]), mentioned(form));
                    walking_depends_on_named(m, a, b, meaning(m, a, parts[0]), steps);
                }
            }
        },
        Form::Node(Shape::Lambda, parts) => {
            assert(a.restrict(mentioned(form)) =~= b.restrict(mentioned(form))) by {
                let x = a.restrict(mentioned(form));
                let y = b.restrict(mentioned(form));
                assert forall|n: nat| #[trigger] x.contains_key(n) == y.contains_key(n) && (
                x.contains_key(n) ==> x[n] == y[n]) by {
                    if mentioned(form).contains(n) {
                    }
                }
            }
        },
        Form::Node(Shape::Apply, parts) => {
            if parts.len() == 2 {
                parts_mentioned(parts);
                node_mentions(Shape::Apply, parts);
                agree_within(a, b, mentioned(parts[0]), mentioned(form));
                meaning_depends_on_named(m, a, b, parts[0]);
                if let Form::Node(Shape::Many, arguments) = parts[1] {
                    node_mentions(Shape::Many, arguments);
                    agree_within(a, b, mentioned(parts[1]), mentioned(form));
                    meanings_depend_on_named(m, a, b, arguments);
                }
            }
        },
        _ => {},
    }
}

/// A list names what its parts name.
proof fn parts_mentioned(parts: Seq<Form>)
    ensures
        forall|i: int|
            0 <= i < parts.len() ==> mentioned(#[trigger] parts[i]).subset_of(mentioned_in(parts)),
    decreases parts.len(),
{
    if parts.len() > 0 {
        let front = parts.drop_last();
        parts_mentioned(front);
        assert forall|i: int| 0 <= i < parts.len() implies mentioned(
            #[trigger] parts[i],
        ).subset_of(mentioned_in(parts)) by {
            if i < front.len() {
                assert(front[i] == parts[i]);
                assert(mentioned(front[i]).subset_of(mentioned_in(front)));
            }
        }
    }
}

proof fn agree_within<D>(a: Map<nat, D>, b: Map<nat, D>, few: Set<nat>, many: Set<nat>)
    requires
        agree(a, b, many),
        few.subset_of(many),
    ensures
        agree(a, b, few),
{
    assert forall|n: nat| #[trigger] few.contains(n) implies a.contains_key(n) == b.contains_key(n)
        && (a.contains_key(n) ==> a[n] == b[n]) by {
        assert(many.contains(n));
    }
}

proof fn node_mentions(shape: Shape, parts: Seq<Form>)
    ensures
        shape != Shape::Local && shape != Shape::Embedded && shape != Shape::Provided ==> mentioned(Form::Node(shape, parts)) == mentioned_in(parts),
{
}

proof fn meanings_depend_on_named<D>(
    m: Model<D>,
    a: Map<nat, D>,
    b: Map<nat, D>,
    parts: Seq<Form>,
)
    requires
        agree(a, b, mentioned_in(parts)),
    ensures
        meanings(m, a, parts) == meanings(m, b, parts),
    decreases parts, 0nat,
{
    if parts.len() > 0 {
        agree_within(a, b, mentioned_in(parts.drop_last()), mentioned_in(parts));
        agree_within(a, b, mentioned(parts.last()), mentioned_in(parts));
        meanings_depend_on_named(m, a, b, parts.drop_last());
        meaning_depends_on_named(m, a, b, parts.last());
    }
}

proof fn walking_depends_on_named<D>(
    m: Model<D>,
    a: Map<nat, D>,
    b: Map<nat, D>,
    base: D,
    steps: Seq<Form>,
)
    requires
        agree(a, b, mentioned_in(steps)),
    ensures
        walked(m, a, base, steps) == walked(m, b, base, steps),
    decreases steps, 0nat,
{
    if steps.len() > 0 {
        agree_within(a, b, mentioned_in(steps.drop_last()), mentioned_in(steps));
        agree_within(a, b, mentioned(steps.last()), mentioned_in(steps));
        walking_depends_on_named(m, a, b, base, steps.drop_last());
        step_depends_on_named(m, a, b, walked(m, a, base, steps.drop_last()), steps.last());
    }
}

proof fn step_depends_on_named<D>(
    m: Model<D>,
    a: Map<nat, D>,
    b: Map<nat, D>,
    base: D,
    part: Form,
)
    requires
        agree(a, b, mentioned(part)),
    ensures
        stepped(m, a, base, part) == stepped(m, b, base, part),
    decreases part, 0nat,
{
    if let Form::Node(shape, parts) = part {
        if (shape == Shape::PartIndex || shape == Shape::PartPathIndex) && parts.len() == 1 {
            parts_mentioned(parts);
            node_mentions(shape, parts);
            agree_within(a, b, mentioned(parts[0]), mentioned(part));
            meaning_depends_on_named(m, a, b, parts[0]);
        }
    }
}

} // verus!
