//! What the operations that the compiler builds do when they are run.
//!
//! An operation runs in a state, and gives any number of results in order of
//! preference, each with the state that it leaves.

use vstd::prelude::*;
use crate::compiler_values;
use crate::lowered_meaning;
use crate::semantics;
use crate::semantics::{
    annotated, call, meaning, meanings, name_keys, named, reach, single, sound, value, Model,
};
use crate::values;
use crate::values::{Builtin, Form, Shape};

verus! {

/// How operations run.
#[verifier::reject_recursive_types(D)]
#[verifier::reject_recursive_types(S)]
pub struct Runs<D, S> {
    /// The results of an operation in a state, and the states after them.
    pub results: spec_fn(D, S) -> Seq<(D, S)>,
    /// The state of an operation that is run for its value.
    pub initial: S,
    /// What the heap holds.
    pub heap: spec_fn(S, D) -> D,
    pub stored: spec_fn(S, D, D) -> S,
    /// A task that was started, and the state after that.
    pub handle: spec_fn(S, D) -> D,
    pub started: spec_fn(S, D) -> S,
}

/// The effect of a path.
pub open spec fn effect<D>(m: Model<D>, path: Seq<Seq<char>>) -> D {
    value(m, compiler_values::effect_form(path))
}

pub open spec fn unit<D>(m: Model<D>) -> D {
    value(m, values::unit_form())
}

/// The operation that returns a value.
pub open spec fn returning<D>(m: Model<D>, v: D) -> D {
    (m.apply)(effect(m, seq!["r"@]), seq![v])
}

/// An operation, and one that depends on its result.
pub open spec fn sequenced<D>(m: Model<D>, operation: D, next: D) -> D {
    (m.apply)(effect(m, seq!["seq"@]), seq![operation, next])
}

/// Two operations, the second one where the first is of no use.
pub open spec fn either<D>(m: Model<D>, a: D, b: D) -> D {
    (m.apply)(effect(m, seq!["alt"@]), seq![a, b])
}

/// The first result of an operation only.
pub open spec fn committed<D>(m: Model<D>, a: D) -> D {
    (m.apply)(effect(m, seq!["cut"@]), seq![a])
}

pub open spec fn failing<D>(m: Model<D>) -> D {
    effect(m, seq!["fail"@])
}

pub open spec fn loading<D>(m: Model<D>, place: D) -> D {
    (m.apply)(effect(m, seq!["heap"@, "get"@]), seq![place])
}

pub open spec fn storing<D>(m: Model<D>, place: D, v: D) -> D {
    (m.apply)(effect(m, seq!["heap"@, "set"@]), seq![place, v])
}

pub open spec fn starting<D>(m: Model<D>, task: D) -> D {
    (m.apply)(effect(m, seq!["task"@, "new"@]), seq![task])
}

pub open spec fn unit_checked<D>(m: Model<D>, about: D, v: D, target: D) -> D {
    call(m, Builtin::AssertUnit, seq![about, v, target])
}

pub open spec fn equated<D>(m: Model<D>, a: D, b: D) -> D {
    call(m, Builtin::Equal, seq![a, b])
}

pub open spec fn listing<D>(m: Model<D>, operation: D) -> D {
    call(m, Builtin::ListEffect, seq![operation])
}

/// What a list of one result is to the code that ran an operation.
pub open spec fn selected<D>(m: Model<D>, selector: Builtin, v: D) -> D {
    call(m, selector, seq![(m.list)(seq![v])])
}

/// The results of what depends on results.
pub open spec fn chained<D, S>(m: Model<D>, x: Runs<D, S>, from: Seq<(D, S)>, next: D) -> Seq<(D, S)>
    decreases from.len(),
{
    if from.len() == 0 {
        Seq::empty()
    } else {
        chained(m, x, from.drop_last(), next) + (x.results)(
            (m.apply)(next, seq![from.last().0]),
            from.last().1,
        )
    }
}

/// The results without their states.
pub open spec fn found<D, S>(from: Seq<(D, S)>) -> Seq<D> {
    from.map_values(|result: (D, S)| result.0)
}

/// Operations run as their effects promise.
#[verifier::opaque]
pub open spec fn runs<D, S>(m: Model<D>, x: Runs<D, S>) -> bool {
    &&& forall|v: D, s: S| #[trigger] (x.results)(returning(m, v), s) == seq![(v, s)]
    &&& forall|a: D, f: D, s: S|
        #[trigger] (x.results)(sequenced(m, a, f), s) == chained(m, x, (x.results)(a, s), f)
    &&& forall|a: D, b: D, s: S|
        #[trigger] (x.results)(either(m, a, b), s) == (x.results)(a, s) + (x.results)(b, s)
    &&& forall|a: D, s: S|
        #[trigger] (x.results)(committed(m, a), s) == if (x.results)(a, s).len() == 0 {
            Seq::empty()
        } else {
            seq![(x.results)(a, s)[0]]
        }
    &&& forall|s: S| #[trigger] (x.results)(failing(m), s) == Seq::<(D, S)>::empty()
    &&& forall|about: D, target: D|
        #[trigger] unit_checked(m, about, unit(m), target) == target
    &&& forall|a: D, b: D, s: S|
        #[trigger] (x.results)(equated(m, a, b), s) == if a == b {
            seq![(unit(m), s)]
        } else {
            Seq::empty()
        }
    &&& forall|a: D| #[trigger] listing(m, a) == (m.list)(found((x.results)(a, x.initial)))
    &&& forall|v: D| #[trigger] selected(m, Builtin::MatchResult, v) == v
    &&& forall|v: D| #[trigger] selected(m, Builtin::IfResult, v) == v
}

/// The heap holds what was stored last, and starting a task gives a handle.
#[verifier::opaque]
pub open spec fn remembers<D, S>(m: Model<D>, x: Runs<D, S>) -> bool {
    &&& forall|p: D, s: S| #[trigger] (x.results)(loading(m, p), s) == seq![((x.heap)(s, p), s)]
    &&& forall|p: D, v: D, s: S|
        #[trigger] (x.results)(storing(m, p, v), s) == seq![(unit(m), (x.stored)(s, p, v))]
    &&& forall|p: D, v: D, s: S| #[trigger] (x.heap)((x.stored)(s, p, v), p) == v
    &&& forall|t: D, s: S|
        #[trigger] (x.results)(starting(m, t), s) == seq![((x.handle)(s, t), (x.started)(s, t))]
    &&& forall|t: D, s: S| #[trigger] (x.handle)(s, t) != m.empty
}

/// An effect is found in the interface along its path.
pub proof fn effects_are_found_in_the_interface<D>(m: Model<D>, path: Seq<Seq<char>>, api: D)
    requires
        sound(m),
    ensures
        (m.apply)((m.at)(effect(m, path), named(m, "eff"@)), seq![api]) == reach(
            m,
            api,
            name_keys(path),
        ),
{
    let body = values::access_form(values::local_form(0), values::steps_form(path));
    let pick = values::lambda_form(seq![0], body);
    let none = Map::<nat, D>::empty();
    let code = compiler_values::singleton("eff"@, pick);
    semantics::value_of_lazy(m, code);
    lowered_meaning::meaning_of_singleton(m, none, "eff"@, pick);
    reveal(semantics::holds_entries);
    let f = meaning(m, none, pick);
    assert(effect(m, path) == single(m, values::atom_key("eff"@), f));
    assert((m.at)(effect(m, path), named(m, "eff"@)) == f);
    lowered_meaning::beta(m, none, seq![0], body, seq![api]);
    lowered_meaning::bound_one(none, 0, api);
    semantics::meaning_of_access(m, none.insert(0, api), values::local_form(0), path);
    semantics::meaning_of_local(m, none.insert(0, api), 0);
}

/// What performing an effect means.
proof fn meaning_of_effect<D>(
    m: Model<D>,
    env: Map<nat, D>,
    path: Seq<Seq<char>>,
    arguments: Seq<Form>,
)
    ensures
        meaning(m, env, compiler_values::effect_call_form(path, arguments)) == (m.apply)(
            effect(m, path),
            meanings(m, env, arguments),
        ),
{
    let f = values::embedded_form(compiler_values::effect_form(path));
    semantics::meaning_of_apply(m, env, f, arguments);
    semantics::meaning_of_value(m, env, compiler_values::effect_form(path));
}

proof fn meaning_of_give<D>(m: Model<D>, env: Map<nat, D>, v: Form)
    ensures
        meaning(m, env, compiler_values::give(v)) == returning(m, meaning(m, env, v)),
{
    meaning_of_effect(m, env, seq!["r"@], seq![v]);
    semantics::meanings_of_one(m, env, v);
}

proof fn meaning_of_seq<D>(m: Model<D>, env: Map<nat, D>, a: Form, f: Form)
    ensures
        meaning(m, env, compiler_values::perform("seq"@, seq![a, f])) == sequenced(
            m,
            meaning(m, env, a),
            meaning(m, env, f),
        ),
{
    meaning_of_effect(m, env, seq!["seq"@], seq![a, f]);
    semantics::meanings_of_two(m, env, a, f);
}

proof fn meaning_of_alt<D>(m: Model<D>, env: Map<nat, D>, a: Form, b: Form)
    ensures
        meaning(m, env, compiler_values::perform("alt"@, seq![a, b])) == either(
            m,
            meaning(m, env, a),
            meaning(m, env, b),
        ),
{
    meaning_of_effect(m, env, seq!["alt"@], seq![a, b]);
    semantics::meanings_of_two(m, env, a, b);
}

proof fn meaning_of_cut<D>(m: Model<D>, env: Map<nat, D>, a: Form)
    ensures
        meaning(m, env, compiler_values::perform("cut"@, seq![a])) == committed(
            m,
            meaning(m, env, a),
        ),
{
    meaning_of_effect(m, env, seq!["cut"@], seq![a]);
    semantics::meanings_of_one(m, env, a);
}

/// Every result is unit.
pub open spec fn only_units<D, S>(m: Model<D>, from: Seq<(D, S)>) -> bool {
    forall|i: int| 0 <= i < from.len() ==> (#[trigger] from[i]).0 == unit(m)
}

/// What follows each of some results, from the state that it left.
pub open spec fn followed<D, S>(x: Runs<D, S>, from: Seq<(D, S)>, next: D) -> Seq<(D, S)>
    decreases from.len(),
{
    if from.len() == 0 {
        Seq::empty()
    } else {
        followed(x, from.drop_last(), next) + (x.results)(next, from.last().1)
    }
}

proof fn chained_units<D, S>(m: Model<D>, x: Runs<D, S>, from: Seq<(D, S)>, f: D, next: D)
    requires
        only_units(m, from),
        (m.apply)(f, seq![unit(m)]) == next,
    ensures
        chained(m, x, from, f) == followed(x, from, next),
    decreases from.len(),
{
    if from.len() > 0 {
        let front = from.drop_last();
        assert forall|i: int| 0 <= i < front.len() implies (#[trigger] front[i]).0 == unit(m) by {
            assert(front[i] == from[i]);
        }
        chained_units(m, x, front, f, next);
        assert(from[from.len() - 1] == from.last());
    }
}

/// An operation with unit results, and what follows it.
proof fn running_then<D, S>(
    m: Model<D>,
    x: Runs<D, S>,
    env: Map<nat, D>,
    operation: Form,
    next: Form,
    about: Seq<char>,
    id: nat,
    s: S,
)
    requires
        sound(m),
        runs(m, x),
        only_units(m, (x.results)(meaning(m, env, operation), s)),
    ensures
        (x.results)(
            meaning(m, env, compiler_values::then_form(operation, next, about, id)),
            s,
        ) == followed(
            x,
            (x.results)(meaning(m, env, operation), s),
            meaning(m, env.insert(id, unit(m)), next),
        ),
{
    reveal(runs);
    let shown = values::embedded_form(values::text_form(about));
    let here = values::local_form(id);
    let body = compiler_values::assert_unit_form(about, here, next);
    let f = values::lambda_form(seq![id], body);
    meaning_of_seq(m, env, operation, f);
    let inner = env.insert(id, unit(m));
    lowered_meaning::beta(m, env, seq![id], body, seq![unit(m)]);
    lowered_meaning::bound_one(env, id, unit(m));
    semantics::meaning_of_call(m, inner, Builtin::AssertUnit, seq![shown, here, next]);
    semantics::meanings_of_three(m, inner, shown, here, next);
    semantics::meaning_of_local(m, inner, id);
    let after = meaning(m, inner, next);
    assert(meaning(m, inner, body) == unit_checked(m, meaning(m, inner, shown), unit(m), after));
    chained_units(
        m,
        x,
        (x.results)(meaning(m, env, operation), s),
        meaning(m, env, f),
        after,
    );
}

proof fn returned<D, S>(m: Model<D>, x: Runs<D, S>, from: Seq<(D, S)>, v: D)
    requires
        runs(m, x),
    ensures
        followed(x, from, returning(m, v)).len() == from.len(),
        forall|i: int|
            0 <= i < from.len() ==> #[trigger] followed(x, from, returning(m, v))[i] == (
                v,
                from[i].1,
            ),
    decreases from.len(),
{
    reveal(runs);
    if from.len() > 0 {
        let front = from.drop_last();
        returned(m, x, front, v);
        let all = followed(x, from, returning(m, v));
        let some = followed(x, front, returning(m, v));
        assert(all == some + seq![(v, from.last().1)]);
        assert forall|i: int| 0 <= i < from.len() implies #[trigger] all[i] == (v, from[i].1) by {
            if i < front.len() {
                assert(all[i] == some[i]);
            }
        }
    }
}

/// The results that an operation on a condition has: one unit result where it
/// succeeds, which leaves the state as it was, and none where it does not.
pub open spec fn decided<D, S>(m: Model<D>, s: S, succeeds: bool) -> Seq<(D, S)> {
    if succeeds {
        seq![(unit(m), s)]
    } else {
        Seq::empty()
    }
}

/// `not` succeeds where its condition fails, fails where it succeeds, and
/// keeps none of its changes.
pub proof fn not_succeeds_where_its_condition_fails<D, S>(
    m: Model<D>,
    x: Runs<D, S>,
    condition: D,
    s: S,
)
    requires
        sound(m),
        runs(m, x),
        only_units(m, (x.results)(condition, s)),
    ensures
        (x.results)(
            (m.apply)(value(m, compiler_values::not_form()), seq![condition]),
            s,
        ) == decided(m, s, (x.results)(condition, s).len() == 0),
{
    let none = Map::<nat, D>::empty();
    let env = none.insert(0, condition);
    let here = values::local_form(0);
    let refused = compiler_values::give(
        values::embedded_form(compiler_values::effect_form(seq!["fail"@])),
    );
    let about = "`not` condition"@;
    let first = compiler_values::then_form(here, refused, about, 1);
    let done = compiler_values::give(compiler_values::unit_code());
    let second = compiler_values::give(done);
    let both = compiler_values::perform("alt"@, seq![first, second]);
    let pick = compiler_values::perform("cut"@, seq![both]);
    let run = values::lambda_form(seq![2], values::local_form(2));
    let body = compiler_values::perform("seq"@, seq![pick, run]);
    semantics::value_of_lazy(m, values::lambda_form(seq![0], body));
    lowered_meaning::beta(m, none, seq![0], body, seq![condition]);
    lowered_meaning::bound_one(none, 0, condition);
    semantics::meaning_of_local(m, env, 0);
    meaning_of_seq(m, env, pick, run);
    meaning_of_cut(m, env, both);
    meaning_of_alt(m, env, first, second);
    meaning_of_give(m, env, done);
    meaning_of_give(m, env, compiler_values::unit_code());
    semantics::meaning_of_value(m, env, values::unit_form());
    let given = (x.results)(condition, s);
    let inner = env.insert(1, unit(m));
    running_then(m, x, env, here, refused, about, 1, s);
    meaning_of_give(
        m,
        inner,
        values::embedded_form(compiler_values::effect_form(seq!["fail"@])),
    );
    semantics::meaning_of_value(m, inner, compiler_values::effect_form(seq!["fail"@]));
    returned(m, x, given, failing(m));
    reveal(runs);
    let a = meaning(m, env, first);
    let b = returning(m, returning(m, unit(m)));
    let tried = (x.results)(either(m, a, b), s);
    assert(tried == followed(x, given, returning(m, failing(m))) + seq![
        (returning(m, unit(m)), s),
    ]);
    let kept = (x.results)(committed(m, either(m, a, b)), s);
    assert(kept == seq![tried[0]]);
    let f = meaning(m, env, run);
    let op = tried[0].0;
    lowered_meaning::beta(m, env, seq![2], values::local_form(2), seq![op]);
    lowered_meaning::bound_one(env, 2, op);
    semantics::meaning_of_local(m, env.insert(2, op), 2);
    assert(kept.drop_last() =~= Seq::empty());
    reveal_with_fuel(chained, 2);
    assert(chained(m, x, kept, f) =~= (x.results)(op, tried[0].1));
}

/// `could` succeeds where its condition does, and keeps none of its changes.
pub proof fn could_succeeds_where_its_condition_does<D, S>(
    m: Model<D>,
    x: Runs<D, S>,
    condition: D,
    s: S,
)
    requires
        sound(m),
        runs(m, x),
        only_units(m, (x.results)(condition, s)),
    ensures
        (x.results)(
            (m.apply)(
                value(m, compiler_values::could_form(compiler_values::not_form())),
                seq![condition],
            ),
            s,
        ) == decided(m, s, (x.results)(condition, s).len() > 0),
{
    let none = Map::<nat, D>::empty();
    let env = none.insert(0, condition);
    let not = compiler_values::not_form();
    let here = values::local_form(0);
    let inner = values::apply_form(values::embedded_form(not), seq![here]);
    let body = values::apply_form(values::embedded_form(not), seq![inner]);
    semantics::value_of_lazy(m, values::lambda_form(seq![0], body));
    lowered_meaning::beta(m, none, seq![0], body, seq![condition]);
    lowered_meaning::bound_one(none, 0, condition);
    semantics::meaning_of_local(m, env, 0);
    semantics::meaning_of_apply(m, env, values::embedded_form(not), seq![inner]);
    semantics::meanings_of_one(m, env, inner);
    semantics::meaning_of_apply(m, env, values::embedded_form(not), seq![here]);
    semantics::meanings_of_one(m, env, here);
    semantics::meaning_of_value(m, env, not);
    not_succeeds_where_its_condition_fails(m, x, condition, s);
    not_succeeds_where_its_condition_fails(
        m,
        x,
        (m.apply)(value(m, not), seq![condition]),
        s,
    );
}

/// What running an operation for its value means.
proof fn meaning_of_runner<D>(m: Model<D>, selector: Builtin, operation: D)
    requires
        sound(m),
    ensures
        (m.apply)(value(m, compiler_values::runner_form(selector)), seq![operation]) == call(
            m,
            selector,
            seq![listing(m, operation)],
        ),
{
    let none = Map::<nat, D>::empty();
    let env = none.insert(0, operation);
    let here = values::local_form(0);
    let all = values::call_form(Builtin::ListEffect, seq![here]);
    let body = values::call_form(selector, seq![all]);
    semantics::value_of_lazy(m, values::lambda_form(seq![0], body));
    lowered_meaning::beta(m, none, seq![0], body, seq![operation]);
    lowered_meaning::bound_one(none, 0, operation);
    semantics::meaning_of_local(m, env, 0);
    semantics::meaning_of_call(m, env, selector, seq![all]);
    semantics::meanings_of_one(m, env, all);
    semantics::meaning_of_call(m, env, Builtin::ListEffect, seq![here]);
    semantics::meanings_of_one(m, env, here);
}

/// An operation with one result is run for that result.
pub proof fn running_gives_the_result<D, S>(
    m: Model<D>,
    x: Runs<D, S>,
    selector: Builtin,
    operation: D,
)
    requires
        sound(m),
        runs(m, x),
        selector == Builtin::IfResult || selector == Builtin::MatchResult,
        (x.results)(operation, x.initial).len() == 1,
    ensures
        (m.apply)(value(m, compiler_values::runner_form(selector)), seq![operation])
            == (x.results)(operation, x.initial)[0].0,
{
    reveal(runs);
    meaning_of_runner(m, selector, operation);
    let v = (x.results)(operation, x.initial)[0].0;
    assert(found((x.results)(operation, x.initial)) =~= seq![v]);
    assert(selected(m, selector, v) == v);
}

/// A match has the value of its first arm that succeeds. Where none does it is
/// an error that names the line.
pub proof fn matches_take_the_first_result<D, S>(
    m: Model<D>,
    x: Runs<D, S>,
    env: Map<nat, D>,
    search: Form,
    line: nat,
)
    requires
        sound(m),
        runs(m, x),
    ensures
        ({
            let tried = (x.results)(meaning(m, env, search), x.initial);
            let error = values::shaped(
                Shape::Error,
                seq![Form::Text(compiler_values::exhausted_message(line))],
            );
            meaning(m, env, compiler_values::pure_match_form(search, line)) == if tried.len() > 0 {
                tried[0].0
            } else {
                value(m, error)
            }
        }),
{
    let error = values::shaped(
        Shape::Error,
        seq![Form::Text(compiler_values::exhausted_message(line))],
    );
    let last = compiler_values::give(values::embedded_form(error));
    let both = compiler_values::perform("alt"@, seq![search, last]);
    let pick = compiler_values::perform("cut"@, seq![both]);
    let runner = compiler_values::runner_form(Builtin::MatchResult);
    semantics::meaning_of_apply(m, env, values::embedded_form(runner), seq![pick]);
    semantics::meanings_of_one(m, env, pick);
    semantics::meaning_of_value(m, env, runner);
    meaning_of_cut(m, env, both);
    meaning_of_alt(m, env, search, last);
    meaning_of_give(m, env, values::embedded_form(error));
    semantics::meaning_of_value(m, env, error);
    reveal(runs);
    let a = meaning(m, env, search);
    let b = returning(m, value(m, error));
    let tried = (x.results)(either(m, a, b), x.initial);
    assert(tried == (x.results)(a, x.initial) + seq![(value(m, error), x.initial)]);
    let op = committed(m, either(m, a, b));
    assert((x.results)(op, x.initial) == seq![tried[0]]);
    running_gives_the_result(m, x, Builtin::MatchResult, op);
}

/// The place of a field of the state that a guard owns.
pub open spec fn place<D>(m: Model<D>, guard: D, field: Seq<char>) -> D {
    (m.list)(seq![guard, named(m, field)])
}

proof fn meaning_of_place<D>(m: Model<D>, env: Map<nat, D>, field: Seq<char>)
    requires
        env.contains_key(0),
    ensures
        meaning(m, env, compiler_values::state_form(field)) == place(m, env[0], field),
{
    let guard = values::local_form(0);
    let name = values::embedded_form(values::atom_form(field));
    semantics::meaning_of_local(m, env, 0);
    semantics::meaning_of_value(m, env, values::atom_form(field));
    semantics::value_of_atom(m, field);
    semantics::meanings_of_two(m, env, guard, name);
    let form = compiler_values::state_form(field);
    assert(form->Node_1 == seq![guard, name]);
}

/// The entries of a dictionary.
pub open spec fn entries<D>(m: Model<D>, dict: D) -> D {
    (m.apply)(effect(m, seq!["dict_items"@]), seq![dict])
}

/// An operation for each item of a list.
pub open spec fn mapping<D>(m: Model<D>, f: D, items: Seq<D>) -> D {
    call(m, Builtin::EffectMap, seq![f, (m.list)(items)])
}

/// The results of operations on items, one after the other.
pub open spec fn mapped<D, S>(m: Model<D>, x: Runs<D, S>, f: D, items: Seq<D>, s: S) -> (Seq<D>, S)
    decreases items.len(),
{
    if items.len() == 0 {
        (Seq::empty(), s)
    } else {
        let (done, after) = mapped(m, x, f, items.drop_last(), s);
        let last = (x.results)((m.apply)(f, seq![items.last()]), after)[0];
        (done.push(last.0), last.1)
    }
}

/// Each of these operations has one result.
pub open spec fn once_each<D, S>(m: Model<D>, x: Runs<D, S>, f: D, items: Seq<D>, s: S) -> bool
    decreases items.len(),
{
    items.len() == 0 || {
        let front = items.drop_last();
        let after = mapped(m, x, f, front, s).1;
        &&& once_each(m, x, f, front, s)
        &&& (x.results)((m.apply)(f, seq![items.last()]), after).len() == 1
    }
}

/// Mapping runs the operations one after the other.
#[verifier::opaque]
pub open spec fn maps<D, S>(m: Model<D>, x: Runs<D, S>) -> bool {
    forall|f: D, items: Seq<D>, s: S|
        once_each(m, x, f, items, s) ==> #[trigger] (x.results)(mapping(m, f, items), s) == seq![
            ((m.list)(mapped(m, x, f, items, s).0), mapped(m, x, f, items, s).1),
        ]
}

/// A task runs the value of an entry.
pub open spec fn runs_entry<D, S>(m: Model<D>, x: Runs<D, S>, task: D, entry: D) -> bool {
    forall|s: S|
        only_units(m, (x.results)((m.at)(entry, named(m, "value"@)), s)) ==> #[trigger] (x.results)(
            task,
            s,
        ) == (x.results)((m.at)(entry, named(m, "value"@)), s)
}

/// What is launched for an entry is a task that runs its value. The record has
/// the key of the entry and the handle of the task.
pub open spec fn launches<D, S>(m: Model<D>, x: Runs<D, S>, f: D, entry: D, s: S) -> bool {
    exists|task: D| #[trigger]
        runs_entry(m, x, task, entry) && {
            let given = (x.results)((m.apply)(f, seq![entry]), s);
            &&& given.len() == 1
            &&& given[0].1 == (x.started)(s, task)
            &&& (m.at)(given[0].0, named(m, "key"@)) == (m.at)(entry, named(m, "key"@))
            &&& (m.at)(given[0].0, named(m, "task"@)) == (x.handle)(s, task)
        }
}

proof fn entry_names_differ()
    ensures
        values::atom_key("key"@) != values::atom_key("task"@),
{
    reveal_strlit("key");
    reveal_strlit("task");
    assert("key"@.len() == 3 && "task"@.len() == 4);
    lowered_meaning::keys_of_names("key"@, "task"@);
}

/// What a record of a task holds.
proof fn meaning_of_record<D>(m: Model<D>, env: Map<nat, D>, entry: D, handle: D)
    requires
        sound(m),
        env.contains_key(3),
        env[3] == entry,
        env.contains_key(5),
        env[5] == handle,
    ensures
        ({
            let record = meaning(
                m,
                env,
                values::call_form(
                    Builtin::DictUnion,
                    seq![
                        compiler_values::singleton(
                            "key"@,
                            compiler_values::member(values::local_form(3), "key"@),
                        ),
                        compiler_values::singleton("task"@, values::local_form(5)),
                    ],
                ),
            );
            &&& (m.at)(record, named(m, "key"@)) == (m.at)(entry, named(m, "key"@))
            &&& (m.at)(record, named(m, "task"@)) == handle
        }),
{
    reveal(semantics::holds_entries);
    entry_names_differ();
    let own = compiler_values::member(values::local_form(3), "key"@);
    let a = compiler_values::singleton("key"@, own);
    let b = compiler_values::singleton("task"@, values::local_form(5));
    semantics::meaning_of_local(m, env, 3);
    semantics::meaning_of_local(m, env, 5);
    lowered_meaning::meaning_of_member(m, env, values::local_form(3), "key"@);
    lowered_meaning::meaning_of_singleton(m, env, "key"@, own);
    lowered_meaning::meaning_of_singleton(m, env, "task"@, values::local_form(5));
    semantics::meaning_of_call(m, env, Builtin::DictUnion, seq![a, b]);
    semantics::meanings_of_two(m, env, a, b);
    let x = meaning(m, env, a);
    let y = meaning(m, env, b);
    assert((m.at)(x, named(m, "task"@)) == m.absent);
    assert((m.at)(y, named(m, "key"@)) == m.absent);
    assert((m.at)(x, named(m, "key"@)) == (m.at)(entry, named(m, "key"@)));
    assert((m.at)(y, named(m, "task"@)) == handle);
    let both = semantics::united(m, x, y);
    assert((m.at)(both, named(m, "key"@)) == (m.at)(x, named(m, "key"@)));
    assert((m.at)(both, named(m, "task"@)) == (m.at)(y, named(m, "task"@)));
}

proof fn launching<D, S>(m: Model<D>, x: Runs<D, S>, env: Map<nat, D>, entry: D, s: S)
    requires
        sound(m),
        runs(m, x),
        remembers(m, x),
    ensures
        launches(m, x, meaning(m, env, compiler_values::launcher_form()), entry, s),
{
    let held = compiler_values::member(values::local_form(3), "value"@);
    let done = compiler_values::give(compiler_values::unit_code());
    let about = "`refl.*` task result"@;
    let job = compiler_values::then_form(held, done, about, 4);
    let start = compiler_values::effect_call_form(seq!["task"@, "new"@], seq![job]);
    let record = values::call_form(
        Builtin::DictUnion,
        seq![
            compiler_values::singleton(
                "key"@,
                compiler_values::member(values::local_form(3), "key"@),
            ),
            compiler_values::singleton("task"@, values::local_form(5)),
        ],
    );
    let noted = compiler_values::give(record);
    let f = values::lambda_form(seq![5], noted);
    let body = compiler_values::perform("seq"@, seq![start, f]);
    let e = env.insert(3, entry);
    lowered_meaning::beta(m, env, seq![3], body, seq![entry]);
    lowered_meaning::bound_one(env, 3, entry);
    semantics::meaning_of_local(m, e, 3);
    lowered_meaning::meaning_of_member(m, e, values::local_form(3), "value"@);
    meaning_of_seq(m, e, start, f);
    meaning_of_effect(m, e, seq!["task"@, "new"@], seq![job]);
    semantics::meanings_of_one(m, e, job);
    let task = meaning(m, e, job);
    let operation = (m.at)(entry, named(m, "value"@));
    assert(runs_entry(m, x, task, entry)) by {
        assert forall|s: S| only_units(m, (x.results)(operation, s)) implies #[trigger] (x.results)(
            task,
            s,
        ) == (x.results)(operation, s) by {
            running_then(m, x, e, held, done, about, 4, s);
            let inner = e.insert(4, unit(m));
            meaning_of_give(m, inner, compiler_values::unit_code());
            semantics::meaning_of_value(m, inner, values::unit_form());
            returned(m, x, (x.results)(operation, s), unit(m));
            assert((x.results)(task, s) =~= (x.results)(operation, s));
        }
    }
    reveal(runs);
    reveal(remembers);
    assert(meaning(m, e, start) == starting(m, task));
    let handle = (x.handle)(s, task);
    let inside = e.insert(5, handle);
    lowered_meaning::beta(m, e, seq![5], noted, seq![handle]);
    lowered_meaning::bound_one(e, 5, handle);
    meaning_of_give(m, inside, record);
    meaning_of_record(m, inside, entry, handle);
    let first = seq![(handle, (x.started)(s, task))];
    assert((x.results)(starting(m, task), s) == first);
    assert(first.drop_last() =~= Seq::empty());
    reveal_with_fuel(chained, 2);
    let g = meaning(m, e, f);
    assert(chained(m, x, first, g) =~= (x.results)(
        (m.apply)(g, seq![handle]),
        (x.started)(s, task),
    ));
}

/// An operation launches whatever entry it is given.
pub open spec fn launches_all<D, S>(m: Model<D>, x: Runs<D, S>, f: D) -> bool {
    forall|entry: D, s: S| #[trigger] launches(m, x, f, entry, s)
}

/// The results of a task that launches entries one after the other and stores
/// their records with the guard.
pub open spec fn recorded<D, S>(
    m: Model<D>,
    x: Runs<D, S>,
    f: D,
    guard: D,
    items: Seq<D>,
    s: S,
) -> Seq<(D, S)> {
    let (records, after) = mapped(m, x, f, items, s);
    seq![(unit(m), (x.stored)(after, place(m, guard, "tasks"@), (m.list)(records)))]
}

/// The entries of `refl` are these.
pub open spec fn holds_entries<D, S>(
    m: Model<D>,
    x: Runs<D, S>,
    definitions: D,
    items: Seq<D>,
    s: S,
) -> bool {
    (x.results)(entries(m, (m.at)(definitions, named(m, "refl"@))), s) == seq![
        ((m.list)(items), s),
    ]
}

/// A task that launches each entry of `refl`, in order, and stores the records.
pub open spec fn scans<D, S>(m: Model<D>, x: Runs<D, S>, task: D, guard: D, definitions: D) -> bool {
    forall|items: Seq<D>, s: S|
        #[trigger] holds_entries(m, x, definitions, items, s) ==> exists|f: D|
            #[trigger] launches_all(m, x, f) && (x.results)(task, s) == recorded(
                m,
                x,
                f,
                guard,
                items,
                s,
            )
}

proof fn launching_all<D, S>(m: Model<D>, x: Runs<D, S>, f: D, items: Seq<D>, s: S)
    requires
        launches_all(m, x, f),
    ensures
        once_each(m, x, f, items, s),
    decreases items.len(),
{
    if items.len() > 0 {
        launching_all(m, x, f, items.drop_last(), s);
        let after = mapped(m, x, f, items.drop_last(), s).1;
        assert(launches(m, x, f, items.last(), after));
    }
}

proof fn one_after_one<D, S>(m: Model<D>, x: Runs<D, S>, a: D, f: D, v: D, s: S, after: S)
    requires
        runs(m, x),
        (x.results)(a, s) == seq![(v, after)],
    ensures
        (x.results)(sequenced(m, a, f), s) == (x.results)((m.apply)(f, seq![v]), after),
{
    reveal(runs);
    let from = seq![(v, after)];
    assert(from.drop_last() =~= Seq::empty());
    reveal_with_fuel(chained, 2);
    assert(chained(m, x, from, f) =~= (x.results)((m.apply)(f, seq![v]), after));
}

proof fn scanning<D, S>(m: Model<D>, x: Runs<D, S>, env: Map<nat, D>)
    requires
        sound(m),
        runs(m, x),
        remembers(m, x),
        maps(m, x),
        env.contains_key(0),
        env.contains_key(1),
    ensures
        scans(m, x, meaning(m, env, compiler_values::scanner_form()), env[0], env[1]),
{
    let guard = env[0];
    let defs = env[1];
    let listed = compiler_values::perform(
        "dict_items"@,
        seq![compiler_values::member(values::local_form(1), "refl"@)],
    );
    let launcher = compiler_values::launcher_form();
    let each = values::call_form(Builtin::EffectMap, seq![launcher, values::local_form(6)]);
    let kept = compiler_values::effect_call_form(
        seq!["heap"@, "set"@],
        seq![compiler_values::state_form("tasks"@), values::local_form(7)],
    );
    let store = values::lambda_form(seq![7], kept);
    let work = compiler_values::perform("seq"@, seq![each, store]);
    let body = compiler_values::perform("cut"@, seq![work]);
    let scan = values::lambda_form(seq![6], body);
    let task = meaning(m, env, compiler_values::scanner_form());
    meaning_of_seq(m, env, listed, scan);
    lowered_meaning::meaning_of_member(m, env, values::local_form(1), "refl"@);
    semantics::meaning_of_local(m, env, 1);
    let inner_listed = compiler_values::member(values::local_form(1), "refl"@);
    meaning_of_effect(m, env, seq!["dict_items"@], seq![inner_listed]);
    semantics::meanings_of_one(m, env, inner_listed);
    let source = entries(m, (m.at)(defs, named(m, "refl"@)));
    assert(meaning(m, env, listed) == source);
    assert forall|items: Seq<D>, s: S|
        #[trigger] holds_entries(m, x, defs, items, s) implies exists|f: D|
        #[trigger] launches_all(m, x, f) && (x.results)(task, s) == recorded(
            m,
            x,
            f,
            guard,
            items,
            s,
        ) by {
        let all = (m.list)(items);
        let e = env.insert(6, all);
        let f = meaning(m, e, launcher);
        assert(launches_all(m, x, f)) by {
            assert forall|entry: D, s: S| #[trigger] launches(m, x, f, entry, s) by {
                launching(m, x, e, entry, s);
            }
        }
        let (records, after) = mapped(m, x, f, items, s);
        one_after_one(m, x, source, meaning(m, env, scan), all, s, s);
        lowered_meaning::beta(m, env, seq![6], body, seq![all]);
        lowered_meaning::bound_one(env, 6, all);
        meaning_of_cut(m, e, work);
        meaning_of_seq(m, e, each, store);
        semantics::meaning_of_call(
            m,
            e,
            Builtin::EffectMap,
            seq![launcher, values::local_form(6)],
        );
        semantics::meanings_of_two(m, e, launcher, values::local_form(6));
        semantics::meaning_of_local(m, e, 6);
        assert(meaning(m, e, each) == mapping(m, f, items));
        launching_all(m, x, f, items, s);
        reveal(maps);
        let done = (m.list)(records);
        one_after_one(m, x, mapping(m, f, items), meaning(m, e, store), done, s, after);
        let g = e.insert(7, done);
        lowered_meaning::beta(m, e, seq![7], kept, seq![done]);
        lowered_meaning::bound_one(e, 7, done);
        let where_to = compiler_values::state_form("tasks"@);
        meaning_of_effect(
            m,
            g,
            seq!["heap"@, "set"@],
            seq![where_to, values::local_form(7)],
        );
        semantics::meanings_of_two(m, g, where_to, values::local_form(7));
        semantics::meaning_of_local(m, g, 7);
        meaning_of_place(m, g, "tasks"@);
        assert(meaning(m, g, kept) == storing(m, place(m, guard, "tasks"@), done));
        reveal(remembers);
        reveal(runs);
        let last = (x.results)(storing(m, place(m, guard, "tasks"@), done), after);
        assert((x.results)(meaning(m, e, work), s) == last);
        assert((x.results)(task, s) =~= last);
        assert((x.results)(task, s) == recorded(m, x, f, guard, items, s));
    }
}

/// Demanding what is annotated starts the tasks of the definitions around it
/// the first time, and does nothing after that.
pub open spec fn claims<D, S>(
    m: Model<D>,
    x: Runs<D, S>,
    operation: D,
    guard: D,
    definitions: D,
    s: S,
) -> bool {
    let claim = place(m, guard, "claim"@);
    if (x.heap)(s, claim) == m.empty {
        exists|task: D| #[trigger]
            scans(m, x, task, guard, definitions) && (x.results)(operation, s) == seq![
                (unit(m), (x.stored)((x.started)(s, task), claim, (x.handle)(s, task))),
            ]
    } else {
        (x.results)(operation, s) == seq![(unit(m), s)]
    }
}

proof fn claiming<D, S>(m: Model<D>, x: Runs<D, S>, env: Map<nat, D>, s: S)
    requires
        sound(m),
        runs(m, x),
        remembers(m, x),
        maps(m, x),
        env.contains_key(0),
        env.contains_key(1),
    ensures
        claims(
            m,
            x,
            meaning(m, env, compiler_values::ensure_tasks_form()),
            env[0],
            env[1],
            s,
        ),
{
    let guard = env[0];
    let field = compiler_values::state_form("claim"@);
    let claim = place(m, guard, "claim"@);
    let read = compiler_values::effect_call_form(seq!["heap"@, "get"@], seq![field]);
    let nothing = values::embedded_form(values::empty_dict_form());
    let test = values::call_form(Builtin::Equal, seq![values::local_form(9), nothing]);
    let launch = compiler_values::launch_form();
    let about = "automatic reflection boundary claim test"@;
    let first = compiler_values::then_form(test, launch, about, 10);
    let second = compiler_values::give(compiler_values::unit_code());
    let both = compiler_values::perform("alt"@, seq![first, second]);
    let decide = values::lambda_form(seq![9], both);
    let work = compiler_values::perform("seq"@, seq![read, decide]);
    meaning_of_cut(m, env, work);
    meaning_of_seq(m, env, read, decide);
    meaning_of_effect(m, env, seq!["heap"@, "get"@], seq![field]);
    semantics::meanings_of_one(m, env, field);
    meaning_of_place(m, env, "claim"@);
    let h = (x.heap)(s, claim);
    assert((x.results)(meaning(m, env, read), s) == seq![(h, s)]) by {
        reveal(remembers);
        assert(meaning(m, env, read) == loading(m, claim));
    }
    one_after_one(m, x, meaning(m, env, read), meaning(m, env, decide), h, s, s);
    let e = env.insert(9, h);
    lowered_meaning::beta(m, env, seq![9], both, seq![h]);
    lowered_meaning::bound_one(env, 9, h);
    meaning_of_alt(m, e, first, second);
    meaning_of_give(m, e, compiler_values::unit_code());
    semantics::meaning_of_value(m, e, values::unit_form());
    semantics::meaning_of_call(m, e, Builtin::Equal, seq![values::local_form(9), nothing]);
    semantics::meanings_of_two(m, e, values::local_form(9), nothing);
    semantics::meaning_of_local(m, e, 9);
    semantics::meaning_of_value(m, e, values::empty_dict_form());
    assert(values::empty_dict_form()->Node_1 =~= Seq::empty());
    assert(value(m, values::empty_dict_form()) == m.empty);
    let tested = (x.results)(meaning(m, e, test), s);
    assert(tested == if h == m.empty {
        seq![(unit(m), s)]
    } else {
        Seq::empty()
    }) by {
        reveal(runs);
        assert(meaning(m, e, test) == equated(m, h, m.empty));
    }
    running_then(m, x, e, test, launch, about, 10, s);
    let g = e.insert(10, unit(m));
    let scanner = compiler_values::scanner_form();
    let task = meaning(m, g, scanner);
    scanning(m, x, g);
    let start = compiler_values::effect_call_form(seq!["task"@, "new"@], seq![scanner]);
    let kept = compiler_values::effect_call_form(
        seq!["heap"@, "set"@],
        seq![field, values::local_form(8)],
    );
    let mark = values::lambda_form(seq![8], kept);
    meaning_of_seq(m, g, start, mark);
    meaning_of_effect(m, g, seq!["task"@, "new"@], seq![scanner]);
    semantics::meanings_of_one(m, g, scanner);
    let handle = (x.handle)(s, task);
    let begun = (x.started)(s, task);
    assert((x.results)(meaning(m, g, start), s) == seq![(handle, begun)]) by {
        reveal(remembers);
        assert(meaning(m, g, start) == starting(m, task));
    }
    one_after_one(m, x, meaning(m, g, start), meaning(m, g, mark), handle, s, begun);
    let k = g.insert(8, handle);
    lowered_meaning::beta(m, g, seq![8], kept, seq![handle]);
    lowered_meaning::bound_one(g, 8, handle);
    meaning_of_effect(m, k, seq!["heap"@, "set"@], seq![field, values::local_form(8)]);
    semantics::meanings_of_two(m, k, field, values::local_form(8));
    semantics::meaning_of_local(m, k, 8);
    meaning_of_place(m, k, "claim"@);
    let launched = (x.results)(meaning(m, g, launch), s);
    assert(launched == seq![(unit(m), (x.stored)(begun, claim, handle))]) by {
        reveal(remembers);
        assert(meaning(m, k, kept) == storing(m, claim, handle));
    }
    reveal(runs);
    let operation = meaning(m, env, compiler_values::ensure_tasks_form());
    let tried = (x.results)(meaning(m, e, both), s);
    if h == m.empty {
        assert(tested.drop_last() =~= Seq::empty());
        reveal_with_fuel(followed, 2);
        assert(followed(x, tested, meaning(m, g, launch)) =~= launched);
        assert(tried[0] == launched[0]);
        assert((x.results)(operation, s) == seq![launched[0]]);
        assert(seq![launched[0]] =~= launched);
    } else {
        assert(tried =~= seq![(unit(m), s)]);
    }
}

/// What an annotator gives is its target, annotated with an operation under
/// `refl` that starts the reflection tasks of the definitions once per guard.
pub open spec fn annotates<D, S>(
    m: Model<D>,
    x: Runs<D, S>,
    given: D,
    guard: D,
    definitions: D,
    target: D,
) -> bool {
    exists|operation: D|
        given == annotated(m, #[trigger] single(m, values::atom_key("refl"@), operation), target)
            && forall|s: S| #[trigger] claims(m, x, operation, guard, definitions, s)
}

/// An annotator guards its target with the tasks of the definitions around it.
pub proof fn annotators_start_reflection_tasks_once<D, S>(
    m: Model<D>,
    x: Runs<D, S>,
    guard: D,
    definitions: D,
    target: D,
)
    requires
        sound(m),
        runs(m, x),
        remembers(m, x),
        maps(m, x),
    ensures
        annotates(
            m,
            x,
            (m.apply)(
                value(m, compiler_values::annotator_form()),
                seq![guard, definitions, target],
            ),
            guard,
            definitions,
            target,
        ),
{
    let none = Map::<nat, D>::empty();
    let e = none.insert(0, guard).insert(1, definitions).insert(2, target);
    let work = compiler_values::ensure_tasks_form();
    let note = compiler_values::singleton("refl"@, work);
    let body = values::call_form(Builtin::Anno, seq![note, values::local_form(2)]);
    semantics::value_of_lazy(m, values::lambda_form(seq![0, 1, 2], body));
    lowered_meaning::beta(m, none, seq![0, 1, 2], body, seq![guard, definitions, target]);
    lowered_meaning::bound_three(none, 0, 1, 2, guard, definitions, target);
    semantics::meaning_of_call(m, e, Builtin::Anno, seq![note, values::local_form(2)]);
    semantics::meanings_of_two(m, e, note, values::local_form(2));
    semantics::meaning_of_local(m, e, 2);
    lowered_meaning::meaning_of_singleton(m, e, "refl"@, work);
    let operation = meaning(m, e, work);
    assert forall|s: S| #[trigger] claims(m, x, operation, guard, definitions, s) by {
        claiming(m, x, e, s);
    }
    let noted = single(m, values::atom_key("refl"@), operation);
    assert((m.apply)(
        value(m, compiler_values::annotator_form()),
        seq![guard, definitions, target],
    ) == annotated(m, noted, target));
}

/// Once the tasks of a guard were started they are not started again.
pub proof fn claimed_guards_start_nothing<D, S>(
    m: Model<D>,
    x: Runs<D, S>,
    operation: D,
    guard: D,
    definitions: D,
    s: S,
)
    requires
        remembers(m, x),
        forall|s: S| #[trigger] claims(m, x, operation, guard, definitions, s),
        (x.heap)(s, place(m, guard, "claim"@)) == m.empty,
    ensures
        (x.results)(operation, s).len() == 1,
        ({
            let after = (x.results)(operation, s)[0].1;
            (x.results)(operation, after) == seq![(unit(m), after)]
        }),
{
    reveal(remembers);
    assert(claims(m, x, operation, guard, definitions, s));
    let after = (x.results)(operation, s)[0].1;
    assert(claims(m, x, operation, guard, definitions, after));
}

} // verus!
