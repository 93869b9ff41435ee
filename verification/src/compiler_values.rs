//! Closed values owned by the compiler: its built-in modules, the helpers that
//! lowered code calls, and the effects that it names.
//!
//! Each helper is built once, as closed code that the evaluator demands, and
//! is shared from then on.

use vstd::prelude::*;
use crate::text;
use crate::text::{push_decimal, same_text};
use crate::values;
use crate::values::{
    key_step, key_steps, one, three, two, BindingId, Builtin, Form, Key, ResolvedExpr,
    ResolverContext, Shape, Value,
};

verus! {

/// A built-in module: its value, and its definitions as an object.
#[derive(Debug, PartialEq, Eq)]
pub struct BuiltinModule {
    pub value: Value,
    pub definitions: Value,
}

/// Effect values, each built once.
#[derive(Debug, PartialEq, Eq)]
pub struct EffectValues {
    pub entries: Vec<(Vec<String>, Value)>,
}

/// The closed values of the compiler.
#[derive(Debug, PartialEq, Eq)]
pub struct GCompilerValues {
    pub math: BuiltinModule,
    pub list: BuiltinModule,
    pub std_module: BuiltinModule,
    pub empty_object_defs: Value,
    pub constant_object_defs: Value,
    pub reflection_annotator: Value,
    pub pure_if_runner: Value,
    pub pure_match_runner: Value,
    pub macro_environment: Value,
    pub effects: EffectValues,
}

/// A dictionary of one entry, in code.
pub open spec fn singleton(key: Seq<char>, value: Form) -> Form {
    values::call_form(
        Builtin::DictSingleton,
        seq![values::embedded_form(values::atom_form(key)), value],
    )
}

/// An access by one name, in code.
pub open spec fn member(base: Form, name: Seq<char>) -> Form {
    values::access_form(base, seq![values::step_form(name)])
}

/// The effect that a path names: a function of the effect interface.
pub open spec fn effect_form(path: Seq<Seq<char>>) -> Form {
    values::lazy_form(
        values::call_form(
            Builtin::DictSingleton,
            seq![
                values::embedded_form(values::atom_form("eff"@)),
                values::lambda_form(
                    seq![0],
                    values::access_form(values::local_form(0), values::steps_form(path)),
                ),
            ],
        ),
    )
}

/// An effect applied to arguments.
pub open spec fn effect_call_form(path: Seq<Seq<char>>, arguments: Seq<Form>) -> Form {
    values::apply_form(values::embedded_form(effect_form(path)), arguments)
}

/// An effect of one name applied to arguments.
pub open spec fn perform(name: Seq<char>, arguments: Seq<Form>) -> Form {
    effect_call_form(seq![name], arguments)
}

/// The effect that returns a value.
pub open spec fn give(value: Form) -> Form {
    perform("r"@, seq![value])
}

pub open spec fn unit_code() -> Form {
    values::embedded_form(values::unit_form())
}

/// A check that a value is unit, before another value.
pub open spec fn assert_unit_form(about: Seq<char>, value: Form, target: Form) -> Form {
    values::call_form(
        Builtin::AssertUnit,
        seq![values::embedded_form(values::text_form(about)), value, target],
    )
}

/// An operation whose result must be unit, and what follows it. The local
/// `id` holds the result.
pub open spec fn then_form(operation: Form, next: Form, about: Seq<char>, id: nat) -> Form {
    perform(
        "seq"@,
        seq![
            operation,
            values::lambda_form(
                seq![id],
                assert_unit_form(about, values::local_form(id), next),
            ),
        ],
    )
}

/// Every effect value is the effect of its path.
pub open spec fn effects_hold(entries: Seq<(Vec<String>, Value)>) -> bool {
    forall|k: int|
        0 <= k < entries.len() ==> values::value_form((#[trigger] entries[k]).1) == effect_form(
            text::texts(entries[k].0@),
        )
}

fn same_path(left: &Vec<String>, right: &Vec<String>) -> (same: bool)
    ensures
        same == (text::texts(left@) == text::texts(right@)),
{
    let ghost a = text::texts(left@);
    let ghost b = text::texts(right@);
    assert(a.len() == left.len() && b.len() == right.len());
    if left.len() != right.len() {
        return false;
    }
    let mut k: usize = 0;
    while k < left.len()
        invariant
            k <= left.len(),
            left.len() == right.len(),
            a == text::texts(left@),
            b == text::texts(right@),
            a.len() == left.len(),
            b.len() == right.len(),
            forall|j: int| 0 <= j < k ==> a[j] == b[j],
        decreases left.len() - k,
    {
        assert(a[k as int] == left@[k as int]@ && b[k as int] == right@[k as int]@);
        if !same_text(left[k].as_str(), right[k].as_str()) {
            return false;
        }
        k = k + 1;
    }
    assert(a =~= b);
    true
}

/// A path of one name.
pub fn single(name: &str) -> (path: Vec<String>)
    ensures
        text::texts(path@) == seq![name@],
{
    let mut path: Vec<String> = Vec::new();
    path.push(name.to_owned());
    assert(text::texts(path@) =~= seq![name@]);
    path
}

/// A path of two names.
pub fn pair(first: &str, second: &str) -> (path: Vec<String>)
    ensures
        text::texts(path@) == seq![first@, second@],
{
    let mut path: Vec<String> = Vec::new();
    path.push(first.to_owned());
    path.push(second.to_owned());
    assert(text::texts(path@) =~= seq![first@, second@]);
    path
}

impl EffectValues {
    pub fn new() -> (effects: Self)
        ensures
            effects_hold(effects.entries@),
            effects.entries@.len() == 0,
    {
        EffectValues { entries: Vec::new() }
    }
}

/// The value of an effect. It is built when it is first asked for.
pub fn effect_path_value_with_cache(cache: &mut EffectValues, path: &Vec<String>) -> (value: Value)
    requires
        effects_hold(old(cache).entries@),
    ensures
        effects_hold(final(cache).entries@),
        values::value_form(value) == effect_form(text::texts(path@)),
        old(cache).entries@.len() <= final(cache).entries@.len(),
        final(cache).entries@.take(old(cache).entries@.len() as int) == old(cache).entries@,
{
    let mut k: usize = 0;
    assert(cache.entries@.take(cache.entries@.len() as int) =~= cache.entries@);
    while k < cache.entries.len()
        invariant
            k <= cache.entries.len(),
            effects_hold(cache.entries@),
            cache.entries@ == old(cache).entries@,
            cache.entries@.take(cache.entries@.len() as int) == cache.entries@,
        decreases cache.entries.len() - k,
    {
        if same_path(&cache.entries[k].0, path) {
            assert(values::value_form(cache.entries@[k as int].1) == effect_form(
                text::texts(cache.entries@[k as int].0@),
            ));
            return cache.entries[k].1.copy();
        }
        k = k + 1;
    }
    let value = build_effect_path_value(path);
    let copy = value.copy();
    let mut own: Vec<String> = Vec::new();
    let mut j: usize = 0;
    while j < path.len()
        invariant
            j <= path.len(),
            own.len() == j,
            forall|i: int| 0 <= i < j ==> (#[trigger] own@[i])@ == path@[i]@,
        decreases path.len() - j,
    {
        own.push(path[j].clone());
        j = j + 1;
    }
    assert(text::texts(own@) =~= text::texts(path@));
    let ghost had = cache.entries@;
    cache.entries.push((own, value));
    proof {
        assert(cache.entries@.take(had.len() as int) =~= had);
        assert forall|i: int| 0 <= i < cache.entries@.len() implies values::value_form(
            (#[trigger] cache.entries@[i]).1,
        ) == effect_form(text::texts(cache.entries@[i].0@)) by {
            if i < had.len() {
                assert(cache.entries@[i] == had[i]);
            }
        }
    }
    copy
}

pub fn effect_path_value(cache: &mut EffectValues, path: &Vec<String>) -> (value: Value)
    requires
        effects_hold(old(cache).entries@),
    ensures
        effects_hold(final(cache).entries@),
        values::value_form(value) == effect_form(text::texts(path@)),
{
    effect_path_value_with_cache(cache, path)
}

pub fn effect_value(cache: &mut EffectValues, name: &str) -> (value: Value)
    requires
        effects_hold(old(cache).entries@),
    ensures
        effects_hold(final(cache).entries@),
        values::value_form(value) == effect_form(seq![name@]),
{
    let path = single(name);
    effect_path_value(cache, &path)
}

/// The value of closed code, left for the evaluator to compute when it is
/// demanded.
pub fn evaluate_closed(expression: ResolvedExpr) -> (value: Value)
    ensures
        values::value_form(value) == values::lazy_form(values::code_form(expression)),
{
    Value::lazy(expression)
}

/// Values as provided code.
pub open spec fn provided_all(items: Seq<Form>) -> Seq<Form> {
    items.map_values(|item: Form| values::provided_form(item))
}

/// A closed function applied to values.
pub fn apply_closed(function: Value, arguments: Vec<Value>) -> (value: Value)
    ensures
        values::value_form(value) == values::lazy_form(
            values::apply_form(
                values::embedded_form(values::value_form(function)),
                provided_all(values::values_form(arguments@)),
            ),
        ),
{
    let ghost told = provided_all(values::values_form(arguments@));
    let mut list: Vec<ResolvedExpr> = Vec::new();
    let mut k: usize = 0;
    proof {
        values::values_form_push(arguments@, Value::Unit);
        values::no_forms();
        assert(list@ =~= Seq::empty());
        assert(values::codes_form(list@) =~= told.take(0));
    }
    while k < arguments.len()
        invariant
            k <= arguments.len(),
            told == provided_all(values::values_form(arguments@)),
            told.len() == arguments.len(),
            values::codes_form(list@) == told.take(k as int),
        decreases arguments.len() - k,
    {
        let code = ResolvedExpr::provided(arguments[k].copy());
        proof {
            values::codes_form_push(list@, code);
            values_form_at(arguments@, k as int);
            assert(told[k as int] == values::provided_form(values::value_form(
                arguments@[k as int],
            )));
            assert(told.take(k + 1) =~= told.take(k as int).push(told[k as int]));
        }
        list.push(code);
        k = k + 1;
    }
    assert(told.take(arguments.len() as int) =~= told);
    evaluate_closed(ResolvedExpr::apply(ResolvedExpr::embedded(function), list))
}

/// The form of one value of a list.
pub proof fn values_form_at(items: Seq<Value>, k: int)
    requires
        0 <= k < items.len(),
    ensures
        values::values_form(items).len() == items.len(),
        values::values_form(items)[k] == values::value_form(items[k]),
    decreases items.len(),
{
    let front = items.drop_last();
    values::values_form_push(front, items.last());
    assert(front.push(items.last()) =~= items);
    if k < items.len() - 1 {
        values_form_at(front, k);
    }
}

pub fn apply_builtin(builtin: Builtin, arguments: Vec<ResolvedExpr>) -> (code: ResolvedExpr)
    ensures
        values::code_form(code) == values::call_form(builtin, values::codes_form(arguments@)),
{
    ResolvedExpr::apply(ResolvedExpr::embedded(Value::builtin(builtin)), arguments)
}

pub fn effect_path_call(
    cache: &mut EffectValues,
    path: &Vec<String>,
    arguments: Vec<ResolvedExpr>,
) -> (code: ResolvedExpr)
    requires
        effects_hold(old(cache).entries@),
    ensures
        effects_hold(final(cache).entries@),
        values::code_form(code) == effect_call_form(
            text::texts(path@),
            values::codes_form(arguments@),
        ),
{
    let effect = effect_path_value_with_cache(cache, path);
    ResolvedExpr::apply(ResolvedExpr::embedded(effect), arguments)
}

pub fn effect_call(cache: &mut EffectValues, name: &str, arguments: Vec<ResolvedExpr>) -> (code:
    ResolvedExpr)
    requires
        effects_hold(old(cache).entries@),
    ensures
        effects_hold(final(cache).entries@),
        values::code_form(code) == perform(name@, values::codes_form(arguments@)),
{
    let path = single(name);
    effect_path_call(cache, &path, arguments)
}

pub fn assert_unit(diagnostic_context: &str, value: ResolvedExpr, target: ResolvedExpr) -> (code:
    ResolvedExpr)
    ensures
        values::code_form(code) == assert_unit_form(
            diagnostic_context@,
            values::code_form(value),
            values::code_form(target),
        ),
{
    apply_builtin(
        Builtin::AssertUnit,
        three(
            ResolvedExpr::embedded(Value::binary_from_text(diagnostic_context)),
            value,
            target,
        ),
    )
}

/// One local, as the parameters of a function.
fn only(id: BindingId) -> (params: Vec<BindingId>)
    ensures
        params@ == seq![id],
        values::ids(params@) == seq![id.0 as nat],
{
    let mut params: Vec<BindingId> = Vec::new();
    params.push(id);
    assert(values::ids(params@) =~= seq![id.0 as nat]);
    params
}

/// Two locals, as the parameters of a function.
pub fn both(a: BindingId, b: BindingId) -> (params: Vec<BindingId>)
    ensures
        params@ == seq![a, b],
        values::ids(params@) == seq![a.0 as nat, b.0 as nat],
{
    let mut params = only(a);
    params.push(b);
    assert(values::ids(params@) =~= seq![a.0 as nat, b.0 as nat]);
    params
}

/// An operation whose result must be unit, and what follows it.
pub fn effect_then(
    cache: &mut EffectValues,
    operation: ResolvedExpr,
    next: ResolvedExpr,
    diagnostic_context: &str,
    locals: &mut ResolverContext,
) -> (code: ResolvedExpr)
    requires
        effects_hold(old(cache).entries@),
        old(locals).next < usize::MAX,
    ensures
        effects_hold(final(cache).entries@),
        final(locals).names@ == old(locals).names@,
        final(locals).next == old(locals).next + 1,
        values::code_form(code) == then_form(
            values::code_form(operation),
            values::code_form(next),
            diagnostic_context@,
            old(locals).next as nat,
        ),
{
    let base = locals.len();
    let result = locals.push_internal_binding("<effect-result>");
    let continuation = ResolvedExpr::lambda(
        only(result),
        assert_unit(diagnostic_context, ResolvedExpr::local(result), next),
    );
    locals.truncate(base);
    assert(locals.names@ =~= old(locals).names@);
    effect_call(cache, "seq", two(operation, continuation))
}

pub fn build_effect_path_value(path: &Vec<String>) -> (value: Value)
    ensures
        values::value_form(value) == effect_form(text::texts(path@)),
{
    let mut locals = ResolverContext::new();
    let api = locals.push_internal_binding("<effect-api>");
    let body = ResolvedExpr::access(ResolvedExpr::local(api), key_steps(path));
    let effect = apply_builtin(
        Builtin::DictSingleton,
        two(
            ResolvedExpr::embedded(Value::atom("eff")),
            ResolvedExpr::lambda(only(api), body),
        ),
    );
    evaluate_closed(effect)
}

/// Succeeds exactly when its condition fails.
pub open spec fn not_form() -> Form {
    values::lazy_form(
        values::lambda_form(
            seq![0],
            perform(
                "seq"@,
                seq![
                    perform(
                        "cut"@,
                        seq![
                            perform(
                                "alt"@,
                                seq![
                                    then_form(
                                        values::local_form(0),
                                        give(values::embedded_form(effect_form(seq!["fail"@]))),
                                        "`not` condition"@,
                                        1,
                                    ),
                                    give(give(unit_code())),
                                ],
                            ),
                        ],
                    ),
                    values::lambda_form(seq![2], values::local_form(2)),
                ],
            ),
        ),
    )
}

pub fn build_not(cache: &mut EffectValues) -> (value: Value)
    requires
        effects_hold(old(cache).entries@),
    ensures
        effects_hold(final(cache).entries@),
        values::value_form(value) == not_form(),
{
    let mut locals = ResolverContext::new();
    let condition = locals.push_internal_binding("<not-condition>");
    let fail_path = single("fail");
    let fail_operation = ResolvedExpr::embedded(effect_path_value_with_cache(cache, &fail_path));
    let true_operation = effect_call(cache, "r", one(ResolvedExpr::embedded(Value::unit())));
    let returned_failure = effect_call(cache, "r", one(fail_operation));
    let fail_if_condition_succeeds = effect_then(
        cache,
        ResolvedExpr::local(condition),
        returned_failure,
        "`not` condition",
        &mut locals,
    );
    let succeed_if_condition_fails = effect_call(cache, "r", one(true_operation));
    let alternate = effect_call(
        cache,
        "alt",
        two(fail_if_condition_succeeds, succeed_if_condition_fails),
    );
    let select_operation = effect_call(cache, "cut", one(alternate));
    let selected = locals.push_internal_binding("<selected-operation>");
    let run_selected_operation = ResolvedExpr::lambda(
        only(selected),
        ResolvedExpr::local(selected),
    );
    let body = effect_call(cache, "seq", two(select_operation, run_selected_operation));
    evaluate_closed(ResolvedExpr::lambda(only(condition), body))
}

/// Succeeds exactly when its condition does, and keeps none of its changes.
pub open spec fn could_form(not: Form) -> Form {
    values::lazy_form(
        values::lambda_form(
            seq![0],
            values::apply_form(
                values::embedded_form(not),
                seq![values::apply_form(values::embedded_form(not), seq![values::local_form(0)])],
            ),
        ),
    )
}

pub fn build_could(not: Value) -> (value: Value)
    ensures
        values::value_form(value) == could_form(values::value_form(not)),
{
    let mut locals = ResolverContext::new();
    let condition = locals.push_internal_binding("<could-condition>");
    let inner = ResolvedExpr::apply(
        ResolvedExpr::embedded(not.copy()),
        one(ResolvedExpr::local(condition)),
    );
    evaluate_closed(
        ResolvedExpr::lambda(
            only(condition),
            ResolvedExpr::apply(ResolvedExpr::embedded(not), one(inner)),
        ),
    )
}

/// Runs an operation for its list of results, and selects one.
pub open spec fn runner_form(selector: Builtin) -> Form {
    values::lazy_form(
        values::lambda_form(
            seq![0],
            values::call_form(
                selector,
                seq![values::call_form(Builtin::ListEffect, seq![values::local_form(0)])],
            ),
        ),
    )
}

pub fn build_pure_conditional_runner(selector: Builtin) -> (value: Value)
    requires
        selector == Builtin::IfResult || selector == Builtin::MatchResult,
    ensures
        values::value_form(value) == runner_form(selector),
{
    let mut locals = ResolverContext::new();
    let operation = locals.push_internal_binding("<conditional-operation>");
    let results = apply_builtin(Builtin::ListEffect, one(ResolvedExpr::local(operation)));
    let selected = apply_builtin(selector, one(results));
    evaluate_closed(ResolvedExpr::lambda(only(operation), selected))
}

/// A dictionary of one entry.
pub fn singleton_code(key: &str, value: ResolvedExpr) -> (code: ResolvedExpr)
    ensures
        values::code_form(code) == singleton(key@, values::code_form(value)),
{
    apply_builtin(
        Builtin::DictSingleton,
        two(ResolvedExpr::embedded(Value::atom(key)), value),
    )
}

/// An access by one name.
pub fn member_code(base: ResolvedExpr, name: &str) -> (code: ResolvedExpr)
    ensures
        values::code_form(code) == member(values::code_form(base), name@),
{
    ResolvedExpr::access(base, key_step(name))
}

/// A check that a name is not defined yet, before its value.
pub open spec fn assertion_form(tag: Seq<char>, name: Seq<char>, prior: Form, value: Form) -> Form {
    values::call_form(
        Builtin::Anno,
        seq![
            singleton(
                tag,
                values::call_form(
                    Builtin::DictUnion,
                    seq![
                        singleton("name"@, values::embedded_form(values::text_form(name))),
                        singleton("value"@, prior),
                    ],
                ),
            ),
            value,
        ],
    )
}

pub fn assertion_code(tag: &str, name: &str, prior: ResolvedExpr, value: ResolvedExpr) -> (code:
    ResolvedExpr)
    ensures
        values::code_form(code) == assertion_form(
            tag@,
            name@,
            values::code_form(prior),
            values::code_form(value),
        ),
{
    let payload = apply_builtin(
        Builtin::DictUnion,
        two(
            singleton_code("name", ResolvedExpr::embedded(Value::binary_from_text(name))),
            singleton_code("value", prior),
        ),
    );
    apply_builtin(Builtin::Anno, two(singleton_code(tag, payload), value))
}

/// An update of a dictionary at the path of one name.
pub open spec fn update_form(name: Seq<char>, value: Form, base: Form) -> Form {
    values::call_form(
        Builtin::DictUpdate,
        seq![
            values::list_form(seq![values::embedded_form(values::atom_form(name))]),
            value,
            base,
        ],
    )
}

pub fn update_code(name: &str, value: ResolvedExpr, base: ResolvedExpr) -> (code: ResolvedExpr)
    ensures
        values::code_form(code) == update_form(
            name@,
            values::code_form(value),
            values::code_form(base),
        ),
{
    apply_builtin(
        Builtin::DictUpdate,
        three(
            ResolvedExpr::list(one(ResolvedExpr::embedded(Value::atom(name)))),
            value,
            base,
        ),
    )
}

/// Extends an environment with the language of a file. The extension asserts
/// that the environment names no language yet.
pub open spec fn macro_environment_form() -> Form {
    values::lazy_form(
        values::lambda_form(
            seq![0, 1],
            values::call_form(
                Builtin::ObjectWithDefs,
                seq![
                    values::local_form(0),
                    values::lambda_form(
                        seq![2, 3],
                        update_form(
                            "language"@,
                            assertion_form(
                                "assert_undefined"@,
                                "language"@,
                                member(values::local_form(2), "language"@),
                                values::local_form(1),
                            ),
                            values::local_form(2),
                        ),
                    ),
                ],
            ),
        ),
    )
}

pub fn build_macro_environment() -> (value: Value)
    ensures
        values::value_form(value) == macro_environment_form(),
{
    let mut locals = ResolverContext::new();
    let environment_parameter = locals.push_internal_binding("<macro-environment>");
    let language_parameter = locals.push_internal_binding("<macro-language>");
    let prior = locals.push_internal_binding("<macro-environment-prior>");
    let final_environment = locals.push_internal_binding("<macro-environment-final>");
    let prior_language = member_code(ResolvedExpr::local(prior), "language");
    let language = assertion_code(
        "assert_undefined",
        "language",
        prior_language,
        ResolvedExpr::local(language_parameter),
    );
    let extended = update_code("language", language, ResolvedExpr::local(prior));
    let definitions = ResolvedExpr::lambda(both(prior, final_environment), extended);
    let result = apply_builtin(
        Builtin::ObjectWithDefs,
        two(ResolvedExpr::local(environment_parameter), definitions),
    );
    evaluate_closed(
        ResolvedExpr::lambda(both(environment_parameter, language_parameter), result),
    )
}

/// The definitions of an object that declares nothing.
pub open spec fn empty_defs_form() -> Form {
    values::lazy_form(
        values::lambda_form(
            seq![0, 1],
            update_form(
                "spec"@,
                values::embedded_form(values::empty_dict_form()),
                values::local_form(0),
            ),
        ),
    )
}

pub fn build_empty_object_defs() -> (value: Value)
    ensures
        values::value_form(value) == empty_defs_form(),
{
    let mut locals = ResolverContext::new();
    let prior_self = locals.push_internal_binding("<object-prior-self>");
    let final_self = locals.push_internal_binding("<object-final-self>");
    let without_spec = update_code(
        "spec",
        ResolvedExpr::embedded(Value::empty_dict()),
        ResolvedExpr::local(prior_self),
    );
    evaluate_closed(ResolvedExpr::lambda(both(prior_self, final_self), without_spec))
}

/// The definitions of an object that is a given value.
pub open spec fn constant_defs_form() -> Form {
    values::lazy_form(values::lambda_form(seq![0, 1, 2], values::local_form(0)))
}

pub fn build_constant_object_defs() -> (value: Value)
    ensures
        values::value_form(value) == constant_defs_form(),
{
    let mut locals = ResolverContext::new();
    let value = locals.push_internal_binding("<constant-object-definitions>");
    let prior_self = locals.push_internal_binding("<object-prior-self>");
    let final_self = locals.push_internal_binding("<object-final-self>");
    let mut params = both(value, prior_self);
    params.push(final_self);
    assert(values::ids(params@) =~= seq![0nat, 1nat, 2nat]);
    evaluate_closed(ResolvedExpr::lambda(params, ResolvedExpr::local(value)))
}

/// The place of a field of the state that a guard owns.
pub open spec fn state_form(field: Seq<char>) -> Form {
    values::list_form(
        seq![values::local_form(0), values::embedded_form(values::atom_form(field))],
    )
}

fn state_path(guard: BindingId, field: &str) -> (code: ResolvedExpr)
    requires
        guard.0 == 0,
    ensures
        values::code_form(code) == state_form(field@),
{
    ResolvedExpr::list(
        two(ResolvedExpr::local(guard), ResolvedExpr::embedded(Value::atom(field))),
    )
}

/// Starts one reflection task, and records its key and handle.
pub open spec fn launcher_form() -> Form {
    values::lambda_form(
        seq![3],
        perform(
            "seq"@,
            seq![
                effect_call_form(
                    seq!["task"@, "new"@],
                    seq![
                        then_form(
                            member(values::local_form(3), "value"@),
                            give(unit_code()),
                            "`refl.*` task result"@,
                            4,
                        ),
                    ],
                ),
                values::lambda_form(
                    seq![5],
                    give(
                        values::call_form(
                            Builtin::DictUnion,
                            seq![
                                singleton("key"@, member(values::local_form(3), "key"@)),
                                singleton("task"@, values::local_form(5)),
                            ],
                        ),
                    ),
                ),
            ],
        ),
    )
}

/// Starts a task for each entry of `refl`, and stores their records.
pub open spec fn scanner_form() -> Form {
    perform(
        "seq"@,
        seq![
            perform("dict_items"@, seq![member(values::local_form(1), "refl"@)]),
            values::lambda_form(
                seq![6],
                perform(
                    "cut"@,
                    seq![
                        perform(
                            "seq"@,
                            seq![
                                values::call_form(
                                    Builtin::EffectMap,
                                    seq![launcher_form(), values::local_form(6)],
                                ),
                                values::lambda_form(
                                    seq![7],
                                    effect_call_form(
                                        seq!["heap"@, "set"@],
                                        seq![state_form("tasks"@), values::local_form(7)],
                                    ),
                                ),
                            ],
                        ),
                    ],
                ),
            ),
        ],
    )
}

/// Starts the scanner, and remembers that it was started.
pub open spec fn launch_form() -> Form {
    perform(
        "seq"@,
        seq![
            effect_call_form(seq!["task"@, "new"@], seq![scanner_form()]),
            values::lambda_form(
                seq![8],
                effect_call_form(
                    seq!["heap"@, "set"@],
                    seq![state_form("claim"@), values::local_form(8)],
                ),
            ),
        ],
    )
}

/// Starts the scanner unless it was started before.
pub open spec fn ensure_tasks_form() -> Form {
    perform(
        "cut"@,
        seq![
            perform(
                "seq"@,
                seq![
                    effect_call_form(seq!["heap"@, "get"@], seq![state_form("claim"@)]),
                    values::lambda_form(
                        seq![9],
                        perform(
                            "alt"@,
                            seq![
                                then_form(
                                    values::call_form(
                                        Builtin::Equal,
                                        seq![
                                            values::local_form(9),
                                            values::embedded_form(values::empty_dict_form()),
                                        ],
                                    ),
                                    launch_form(),
                                    "automatic reflection boundary claim test"@,
                                    10,
                                ),
                                give(unit_code()),
                            ],
                        ),
                    ),
                ],
            ),
        ],
    )
}

/// Annotates a target so that demanding it starts the reflection tasks of the
/// definitions around it, once per guard.
pub open spec fn annotator_form() -> Form {
    values::lazy_form(
        values::lambda_form(
            seq![0, 1, 2],
            values::call_form(
                Builtin::Anno,
                seq![singleton("refl"@, ensure_tasks_form()), values::local_form(2)],
            ),
        ),
    )
}

/// The code that starts one reflection task.
fn build_launcher(cache: &mut EffectValues, locals: &mut ResolverContext, item: BindingId) -> (code:
    ResolvedExpr)
    requires
        effects_hold(old(cache).entries@),
        old(locals).next == 4,
        item.0 == 3,
    ensures
        effects_hold(final(cache).entries@),
        final(locals).next == 6,
        values::code_form(code) == launcher_form(),
{
    let done = effect_call(cache, "r", one(ResolvedExpr::embedded(Value::unit())));
    let require_unit = effect_then(
        cache,
        member_code(ResolvedExpr::local(item), "value"),
        done,
        "`refl.*` task result",
        locals,
    );
    let handle = locals.push_internal_binding("<reflection-task-handle>");
    let task_record = apply_builtin(
        Builtin::DictUnion,
        two(
            singleton_code("key", member_code(ResolvedExpr::local(item), "key")),
            singleton_code("task", ResolvedExpr::local(handle)),
        ),
    );
    let task_new = pair("task", "new");
    let start = effect_path_call(cache, &task_new, one(require_unit));
    let record = effect_call(cache, "r", one(task_record));
    let launch_item = effect_call(
        cache,
        "seq",
        two(start, ResolvedExpr::lambda(only(handle), record)),
    );
    ResolvedExpr::lambda(only(item), launch_item)
}

/// The code that starts a task for each entry of `refl`.
fn build_scanner(
    cache: &mut EffectValues,
    locals: &mut ResolverContext,
    guard: BindingId,
    final_defs: BindingId,
) -> (code: ResolvedExpr)
    requires
        effects_hold(old(cache).entries@),
        old(locals).next == 3,
        guard.0 == 0,
        final_defs.0 == 1,
    ensures
        effects_hold(final(cache).entries@),
        final(locals).next == 8,
        values::code_form(code) == scanner_form(),
{
    let final_refl = member_code(ResolvedExpr::local(final_defs), "refl");
    let item = locals.push_internal_binding("<reflection-item>");
    let launcher = build_launcher(cache, locals, item);
    let items = locals.push_internal_binding("<reflection-items>");
    let mapped = ResolvedExpr::apply(
        ResolvedExpr::embedded(Value::builtin(Builtin::EffectMap)),
        two(launcher, ResolvedExpr::local(items)),
    );
    let records = locals.push_internal_binding("<reflection-task-records>");
    let heap_set = pair("heap", "set");
    let store_records = effect_path_call(
        cache,
        &heap_set,
        two(state_path(guard, "tasks"), ResolvedExpr::local(records)),
    );
    let map_then_store = effect_call(
        cache,
        "seq",
        two(mapped, ResolvedExpr::lambda(only(records), store_records)),
    );
    let map_and_store = effect_call(cache, "cut", one(map_then_store));
    let entries = effect_call(cache, "dict_items", one(final_refl));
    effect_call(cache, "seq", two(entries, ResolvedExpr::lambda(only(items), map_and_store)))
}

pub fn build_reflection_annotator(cache: &mut EffectValues) -> (value: Value)
    requires
        effects_hold(old(cache).entries@),
    ensures
        effects_hold(final(cache).entries@),
        values::value_form(value) == annotator_form(),
{
    let mut locals = ResolverContext::new();
    let guard = locals.push_internal_binding("<reflection-guard>");
    let final_defs = locals.push_internal_binding("<reflection-final-definitions>");
    let target = locals.push_internal_binding("<reflection-target>");
    let scanner = build_scanner(cache, &mut locals, guard, final_defs);
    let scanner_handle = locals.push_internal_binding("<reflection-scanner-handle>");
    let task_new = pair("task", "new");
    let heap_set = pair("heap", "set");
    let heap_get = pair("heap", "get");
    let start = effect_path_call(cache, &task_new, one(scanner));
    let remember = effect_path_call(
        cache,
        &heap_set,
        two(state_path(guard, "claim"), ResolvedExpr::local(scanner_handle)),
    );
    let launch_and_remember = effect_call(
        cache,
        "seq",
        two(start, ResolvedExpr::lambda(only(scanner_handle), remember)),
    );
    assert(values::code_form(launch_and_remember) == launch_form());
    let existing = locals.push_internal_binding("<reflection-claim>");
    let guard_is_empty = ResolvedExpr::apply(
        ResolvedExpr::embedded(Value::builtin(Builtin::Equal)),
        two(ResolvedExpr::local(existing), ResolvedExpr::embedded(Value::empty_dict())),
    );
    let start_if_missing = effect_then(
        cache,
        guard_is_empty,
        launch_and_remember,
        "automatic reflection boundary claim test",
        &mut locals,
    );
    let already_started = effect_call(cache, "r", one(ResolvedExpr::embedded(Value::unit())));
    let choose = effect_call(cache, "alt", two(start_if_missing, already_started));
    let claim = effect_path_call(cache, &heap_get, one(state_path(guard, "claim")));
    let check = effect_call(cache, "seq", two(claim, ResolvedExpr::lambda(only(existing), choose)));
    let ensure_tasks = effect_call(cache, "cut", one(check));
    assert(values::code_form(ensure_tasks) == ensure_tasks_form());
    let annotated = apply_builtin(
        Builtin::Anno,
        two(singleton_code("refl", ensure_tasks), ResolvedExpr::local(target)),
    );
    let mut params = both(guard, final_defs);
    params.push(target);
    assert(values::ids(params@) =~= seq![0nat, 1nat, 2nat]);
    evaluate_closed(ResolvedExpr::lambda(params, annotated))
}

/// Adds an entry to a dictionary that is being built.
fn insert(entries: &mut Vec<(Key, Value)>, name: &str, value: Value)
    ensures
        values::entries_form(final(entries)@) == values::entries_form(old(entries)@).push(
            values::entry_form(values::atom_key(name@), values::value_form(value)),
        ),
{
    let entry = (values::name_as_key(name), value);
    proof {
        values::entries_form_push(entries@, entry);
    }
    entries.push(entry);
}

/// The entries of a dictionary of builtins.
pub open spec fn builtin_entry(name: Seq<char>, builtin: Builtin) -> Form {
    values::entry_form(values::atom_key(name), values::builtin_form(builtin))
}

pub open spec fn math_form() -> Form {
    values::shaped(
        Shape::Dict,
        seq![builtin_entry("floor"@, Builtin::Floor), builtin_entry("mod"@, Builtin::Mod)],
    )
}

pub open spec fn list_module_form() -> Form {
    values::shaped(
        Shape::Dict,
        seq![
            builtin_entry("slice"@, Builtin::Slice),
            builtin_entry("split"@, Builtin::ListSplit),
            builtin_entry("split_end"@, Builtin::ListSplitEnd),
            builtin_entry("map"@, Builtin::ListMap),
            builtin_entry("concat"@, Builtin::ListConcat),
            builtin_entry("len"@, Builtin::ListLen),
            builtin_entry("at"@, Builtin::ListAt),
            builtin_entry("head"@, Builtin::ListHead),
            builtin_entry("tail"@, Builtin::ListTail),
            builtin_entry("pure"@, Builtin::ListEffect),
        ],
    )
}

pub open spec fn std_form() -> Form {
    values::shaped(
        Shape::Dict,
        seq![
            builtin_entry("anno"@, Builtin::Anno),
            builtin_entry("seq"@, Builtin::Sequence),
            builtin_entry("spark"@, Builtin::Spark),
            builtin_entry("interaction_net"@, Builtin::InteractionNet),
            builtin_entry("net_arity"@, Builtin::NetArity),
            builtin_entry("object_from_dict"@, Builtin::ObjectFromDict),
            values::entry_form(values::atom_key("not"@), not_form()),
            values::entry_form(values::atom_key("could"@), could_form(not_form())),
            values::entry_form(values::atom_key("math"@), math_form()),
            values::entry_form(values::atom_key("list"@), list_module_form()),
            values::entry_form(
                values::atom_key("eff"@),
                values::shaped(Shape::Dict, seq![builtin_entry("map"@, Builtin::EffectMap)]),
            ),
        ],
    )
}

/// The definitions of an object that is a given value.
pub open spec fn constant_defs_of(value: Form) -> Form {
    values::lazy_form(
        values::apply_form(
            values::embedded_form(constant_defs_form()),
            seq![values::provided_form(value)],
        ),
    )
}

/// A module holds its value and the definitions of an object that is it.
pub open spec fn module_holds(module: BuiltinModule, form: Form) -> bool {
    values::value_form(module.value) == form && values::value_form(module.definitions)
        == constant_defs_of(form)
}

impl GCompilerValues {
    /// Every value is the one that its name promises.
    pub open spec fn wf(&self) -> bool {
        &&& module_holds(self.math, math_form())
        &&& module_holds(self.list, list_module_form())
        &&& module_holds(self.std_module, std_form())
        &&& values::value_form(self.empty_object_defs) == empty_defs_form()
        &&& values::value_form(self.constant_object_defs) == constant_defs_form()
        &&& values::value_form(self.reflection_annotator) == annotator_form()
        &&& values::value_form(self.pure_if_runner) == runner_form(Builtin::IfResult)
        &&& values::value_form(self.pure_match_runner) == runner_form(Builtin::MatchResult)
        &&& values::value_form(self.macro_environment) == macro_environment_form()
        &&& effects_hold(self.effects.entries@)
    }

    pub fn build() -> (compiler: Self)
        ensures
            compiler.wf(),
    {
        let mut effects = EffectValues::new();
        let not = build_not(&mut effects);
        let could = build_could(not.copy());
        let constant_object_defs = build_constant_object_defs();
        let math_value = build_math();
        let list_value = build_list();
        let std_value = build_std(not, could, math_value.copy(), list_value.copy());
        let reflection_annotator = build_reflection_annotator(&mut effects);
        GCompilerValues {
            math: make_module(&constant_object_defs, math_value),
            list: make_module(&constant_object_defs, list_value),
            std_module: make_module(&constant_object_defs, std_value),
            empty_object_defs: build_empty_object_defs(),
            constant_object_defs,
            reflection_annotator,
            pure_if_runner: build_pure_conditional_runner(Builtin::IfResult),
            pure_match_runner: build_pure_conditional_runner(Builtin::MatchResult),
            macro_environment: build_macro_environment(),
            effects,
        }
    }

    pub fn pure_conditional_runner(&self, selector: Builtin) -> (runner: &Value)
        requires
            self.wf(),
            selector == Builtin::IfResult || selector == Builtin::MatchResult,
        ensures
            values::value_form(*runner) == runner_form(selector),
    {
        match selector {
            Builtin::IfResult => &self.pure_if_runner,
            _ => &self.pure_match_runner,
        }
    }
}

fn build_math() -> (value: Value)
    ensures
        values::value_form(value) == math_form(),
{
    let mut entries: Vec<(Key, Value)> = Vec::new();
    proof {
        values::no_forms();
        assert(entries@ =~= Seq::empty());
    }
    insert(&mut entries, "floor", Value::builtin(Builtin::Floor));
    insert(&mut entries, "mod", Value::builtin(Builtin::Mod));
    assert(values::entries_form(entries@) =~= math_form()->Node_1);
    Value::dict(entries)
}

fn build_list() -> (value: Value)
    ensures
        values::value_form(value) == list_module_form(),
{
    let mut entries: Vec<(Key, Value)> = Vec::new();
    proof {
        values::no_forms();
        assert(entries@ =~= Seq::empty());
    }
    insert(&mut entries, "slice", Value::builtin(Builtin::Slice));
    insert(&mut entries, "split", Value::builtin(Builtin::ListSplit));
    insert(&mut entries, "split_end", Value::builtin(Builtin::ListSplitEnd));
    insert(&mut entries, "map", Value::builtin(Builtin::ListMap));
    insert(&mut entries, "concat", Value::builtin(Builtin::ListConcat));
    insert(&mut entries, "len", Value::builtin(Builtin::ListLen));
    insert(&mut entries, "at", Value::builtin(Builtin::ListAt));
    insert(&mut entries, "head", Value::builtin(Builtin::ListHead));
    insert(&mut entries, "tail", Value::builtin(Builtin::ListTail));
    insert(&mut entries, "pure", Value::builtin(Builtin::ListEffect));
    assert(values::entries_form(entries@) =~= list_module_form()->Node_1);
    Value::dict(entries)
}

fn build_std(not: Value, could: Value, math: Value, list: Value) -> (value: Value)
    requires
        values::value_form(not) == not_form(),
        values::value_form(could) == could_form(not_form()),
        values::value_form(math) == math_form(),
        values::value_form(list) == list_module_form(),
    ensures
        values::value_form(value) == std_form(),
{
    let mut eff: Vec<(Key, Value)> = Vec::new();
    let mut entries: Vec<(Key, Value)> = Vec::new();
    proof {
        values::no_forms();
        assert(entries@ =~= Seq::empty());
        assert(eff@ =~= entries@);
    }
    insert(&mut eff, "map", Value::builtin(Builtin::EffectMap));
    assert(values::entries_form(eff@) =~= seq![builtin_entry("map"@, Builtin::EffectMap)]);
    insert(&mut entries, "anno", Value::builtin(Builtin::Anno));
    insert(&mut entries, "seq", Value::builtin(Builtin::Sequence));
    insert(&mut entries, "spark", Value::builtin(Builtin::Spark));
    insert(&mut entries, "interaction_net", Value::builtin(Builtin::InteractionNet));
    insert(&mut entries, "net_arity", Value::builtin(Builtin::NetArity));
    insert(&mut entries, "object_from_dict", Value::builtin(Builtin::ObjectFromDict));
    insert(&mut entries, "not", not);
    insert(&mut entries, "could", could);
    insert(&mut entries, "math", math);
    insert(&mut entries, "list", list);
    insert(&mut entries, "eff", Value::dict(eff));
    assert(values::entries_form(entries@) =~= std_form()->Node_1);
    Value::dict(entries)
}

/// One value, as a list.
fn sole(value: Value) -> (list: Vec<Value>)
    ensures
        provided_all(values::values_form(list@)) == seq![
            values::provided_form(values::value_form(value)),
        ],
{
    let mut list: Vec<Value> = Vec::new();
    proof {
        values::values_form_push(list@, value);
    }
    list.push(value);
    assert(provided_all(values::values_form(list@)) =~= seq![
        values::provided_form(values::value_form(value)),
    ]);
    list
}

fn make_module(constant_object_defs: &Value, value: Value) -> (module: BuiltinModule)
    requires
        values::value_form(*constant_object_defs) == constant_defs_form(),
    ensures
        module_holds(module, values::value_form(value)),
{
    BuiltinModule {
        definitions: apply_closed(constant_object_defs.copy(), sole(value.copy())),
        value,
    }
}

/// The built-in module of a name.
pub open spec fn module_named(name: Seq<char>) -> Option<Form> {
    if name == "math"@ {
        Some(math_form())
    } else if name == "list"@ {
        Some(list_module_form())
    } else if name == "std"@ || name == "prelude"@ {
        Some(std_form())
    } else {
        None
    }
}

pub fn builtin_module(compiler: &GCompilerValues, name: &str) -> (module: Option<BuiltinModule>)
    requires
        compiler.wf(),
    ensures
        match module {
            Some(module) => module_named(name@) matches Some(form) && module_holds(module, form),
            None => module_named(name@) is None,
        },
{
    if same_text(name, "math") {
        Some(copy_module(&compiler.math))
    } else if same_text(name, "list") {
        Some(copy_module(&compiler.list))
    } else if same_text(name, "std") || same_text(name, "prelude") {
        Some(copy_module(&compiler.std_module))
    } else {
        None
    }
}

fn copy_module(module: &BuiltinModule) -> (copy: BuiltinModule)
    ensures
        copy == *module,
{
    BuiltinModule { value: module.value.copy(), definitions: module.definitions.copy() }
}

/// The entries of a dictionary.
pub fn value_dict(value: &Value) -> (found: Option<&Vec<(Key, Value)>>)
    ensures
        match found {
            Some(entries) => value is Dict && values::value_form(*value) == values::shaped(
                Shape::Dict,
                values::entries_form(entries@),
            ),
            None => !(value is Dict),
        },
{
    proof {
        if value is Dict {
            values::dict_form_def(*value);
        }
    }
    match value {
        Value::Dict(entries) => Some(&**entries),
        _ => None,
    }
}

/// The entries of the built-in list module.
pub fn builtin_list_module(compiler: &GCompilerValues) -> (value: Value)
    requires
        compiler.wf(),
    ensures
        values::value_form(value) == list_module_form(),
{
    compiler.list.value.copy()
}

pub fn empty_object_defs(compiler: &GCompilerValues) -> (value: Value)
    requires
        compiler.wf(),
    ensures
        values::value_form(value) == empty_defs_form(),
{
    compiler.empty_object_defs.copy()
}

pub fn constant_object_defs(compiler: &GCompilerValues, value: Value) -> (defs: Value)
    requires
        compiler.wf(),
    ensures
        values::value_form(defs) == constant_defs_of(values::value_form(value)),
{
    apply_closed(compiler.constant_object_defs.copy(), sole(value))
}

/// The annotator applied to its guard and its definitions.
pub open spec fn annotator_of(guard: Form, final_defs: Form) -> Form {
    values::apply_form(values::embedded_form(annotator_form()), seq![guard, final_defs])
}

pub fn reflection_annotator_resolved(
    compiler: &GCompilerValues,
    guard: ResolvedExpr,
    final_defs: ResolvedExpr,
) -> (code: ResolvedExpr)
    requires
        compiler.wf(),
    ensures
        values::code_form(code) == annotator_of(
            values::code_form(guard),
            values::code_form(final_defs),
        ),
{
    ResolvedExpr::apply(
        ResolvedExpr::embedded(compiler.reflection_annotator.copy()),
        two(guard, final_defs),
    )
}

pub fn reflection_annotator_value(compiler: &GCompilerValues, guard: Value, final_defs: Value) -> (value:
    Value)
    requires
        compiler.wf(),
    ensures
        values::value_form(value) == values::lazy_form(
            annotator_of(
                values::provided_form(values::value_form(guard)),
                values::provided_form(values::value_form(final_defs)),
            ),
        ),
{
    evaluate_closed(
        reflection_annotator_resolved(
            compiler,
            ResolvedExpr::provided(guard),
            ResolvedExpr::provided(final_defs),
        ),
    )
}

pub fn run_pure_conditional_resolved(compiler: &GCompilerValues, operation: ResolvedExpr) -> (code:
    ResolvedExpr)
    requires
        compiler.wf(),
    ensures
        values::code_form(code) == values::apply_form(
            values::embedded_form(runner_form(Builtin::IfResult)),
            seq![values::code_form(operation)],
        ),
{
    ResolvedExpr::apply(
        ResolvedExpr::embedded(compiler.pure_conditional_runner(Builtin::IfResult).copy()),
        one(operation),
    )
}

/// The message of a match none of whose arms succeeds.
pub open spec fn exhausted_message(line: nat) -> Seq<char> {
    "match exhausted on line "@ + text::decimal(line)
}

/// A match that is run for its value. Where no arm succeeds it is an error.
pub open spec fn pure_match_form(search: Form, line: nat) -> Form {
    values::apply_form(
        values::embedded_form(runner_form(Builtin::MatchResult)),
        seq![
            perform(
                "cut"@,
                seq![
                    perform(
                        "alt"@,
                        seq![
                            search,
                            give(
                                values::embedded_form(
                                    values::shaped(
                                        Shape::Error,
                                        seq![Form::Text(exhausted_message(line))],
                                    ),
                                ),
                            ),
                        ],
                    ),
                ],
            ),
        ],
    )
}

pub fn run_pure_match_resolved(compiler: &mut GCompilerValues, search: ResolvedExpr, line: usize) -> (code:
    ResolvedExpr)
    requires
        old(compiler).wf(),
    ensures
        final(compiler).wf(),
        values::code_form(code) == pure_match_form(values::code_form(search), line as nat),
{
    let mut message = "match exhausted on line ".to_owned();
    push_decimal(&mut message, line);
    let runner = compiler.pure_conditional_runner(Builtin::MatchResult).copy();
    let exhausted = effect_call(
        &mut compiler.effects,
        "r",
        one(ResolvedExpr::embedded(Value::error(message.as_str()))),
    );
    let alternate = effect_call(&mut compiler.effects, "alt", two(search, exhausted));
    let operation = effect_call(&mut compiler.effects, "cut", one(alternate));
    ResolvedExpr::apply(ResolvedExpr::embedded(runner), one(operation))
}

pub fn run_pure_open_match_resolved(operation: ResolvedExpr) -> (code: ResolvedExpr)
    ensures
        values::code_form(code) == values::call_form(
            Builtin::ListEffect,
            seq![values::code_form(operation)],
        ),
{
    apply_builtin(Builtin::ListEffect, one(operation))
}

/// An environment with the language of a file.
pub open spec fn macro_environment_of(base: Form, language: Form) -> Form {
    values::lazy_form(
        values::apply_form(
            values::embedded_form(macro_environment_form()),
            seq![values::provided_form(base), values::provided_form(language)],
        ),
    )
}

/// Extends the macro environment of a file with its language.
pub fn macro_environment(compiler: &GCompilerValues, base: Value, language: Value) -> (value: Value)
    requires
        compiler.wf(),
    ensures
        values::value_form(value) == macro_environment_of(
            values::value_form(base),
            values::value_form(language),
        ),
{
    let mut arguments: Vec<Value> = Vec::new();
    proof {
        values::values_form_push(arguments@, base);
        values::values_form_push(arguments@.push(base), language);
    }
    arguments.push(base);
    arguments.push(language);
    assert(provided_all(values::values_form(arguments@)) =~= seq![
        values::provided_form(values::value_form(base)),
        values::provided_form(values::value_form(language)),
    ]);
    apply_closed(compiler.macro_environment.copy(), arguments)
}

} // verus!
