//! What definitions, objects and imports mean once they are lowered.

use vstd::prelude::*;
use crate::ast::{DefinitionDecl, DefinitionKind, ImportDecl, ImportPlacement, ImportReference};
use crate::compiler_values;
use crate::definitions;
use crate::definitions::{DefinitionTarget, NameScope, ResolvedRoot, TargetForm};
use crate::imports;
use crate::imports::{CompileContext, ImportPlan};
use crate::merge_meaning;
use crate::objects;
use crate::semantics;
use crate::semantics::{
    annotated, bound, call, keys, meaning, meanings, mentioned, name_keys, named, object, reach,
    replaced, single, sound, spec_of, united, updating, value, walked, Model,
};
use crate::text;
use crate::values;
use crate::values::{Builtin, Form, ResolvedExpr, Shape};

verus! {

/// Applying a function is giving its locals.
pub proof fn beta<D>(
    m: Model<D>,
    env: Map<nat, D>,
    ids: Seq<nat>,
    body: Form,
    arguments: Seq<D>,
)
    requires
        semantics::applies(m),
        ids.len() == arguments.len(),
    ensures
        (m.apply)(meaning(m, env, values::lambda_form(ids, body)), arguments) == meaning(
            m,
            bound(env, ids, arguments),
            body,
        ),
{
    reveal(semantics::applies);
    let lambda = values::lambda_form(ids, body);
    let own = mentioned(lambda);
    let kept = env.restrict(own);
    let parts = lambda->Node_1;
    assert(parts[1] == body);
    assert(parts.drop_last().push(parts[1]) =~= parts);
    assert(parts.last() == body);
    assert(mentioned(body).subset_of(own)) by {
        assert(own == semantics::mentioned_in(parts));
        assert(semantics::mentioned_in(parts) == semantics::mentioned_in(parts.drop_last()).union(
            mentioned(body),
        ));
    }
    restricting(env, own, ids, arguments, mentioned(body));
    semantics::meaning_depends_on_named(
        m,
        bound(kept, ids, arguments),
        bound(env, ids, arguments),
        body,
    );
}

proof fn restricting<D>(
    env: Map<nat, D>,
    own: Set<nat>,
    ids: Seq<nat>,
    arguments: Seq<D>,
    named: Set<nat>,
)
    requires
        named.subset_of(own),
        ids.len() == arguments.len(),
    ensures
        semantics::agree(bound(env.restrict(own), ids, arguments), bound(env, ids, arguments), named),
    decreases ids.len(),
{
    let x = bound(env.restrict(own), ids, arguments);
    let y = bound(env, ids, arguments);
    if ids.len() > 0 {
        restricting(env, own, ids.drop_last(), arguments.drop_last(), named);
    }
    assert forall|n: nat| #[trigger] named.contains(n) implies x.contains_key(n) == y.contains_key(
        n,
    ) && (x.contains_key(n) ==> x[n] == y[n]) by {
        assert(own.contains(n));
    }
}

pub proof fn bound_one<D>(env: Map<nat, D>, i: nat, a: D)
    ensures
        bound(env, seq![i], seq![a]) == env.insert(i, a),
{
    assert(seq![i].drop_last() =~= Seq::empty());
    assert(seq![a].drop_last() =~= Seq::empty());
    reveal_with_fuel(bound, 2);
}

pub proof fn bound_two<D>(env: Map<nat, D>, i: nat, j: nat, a: D, b: D)
    ensures
        bound(env, seq![i, j], seq![a, b]) == env.insert(i, a).insert(j, b),
{
    assert(seq![i, j].drop_last() =~= seq![i]);
    assert(seq![a, b].drop_last() =~= seq![a]);
    bound_one(env, i, a);
}

pub proof fn bound_three<D>(env: Map<nat, D>, i: nat, j: nat, k: nat, a: D, b: D, c: D)
    ensures
        bound(env, seq![i, j, k], seq![a, b, c]) == env.insert(i, a).insert(j, b).insert(k, c),
{
    assert(seq![i, j, k].drop_last() =~= seq![i, j]);
    assert(seq![a, b, c].drop_last() =~= seq![a, b]);
    bound_two(env, i, j, a, b);
}

/// What a dictionary of one name means.
pub proof fn meaning_of_singleton<D>(m: Model<D>, env: Map<nat, D>, name: Seq<char>, held: Form)
    ensures
        meaning(m, env, compiler_values::singleton(name, held)) == single(
            m,
            values::atom_key(name),
            meaning(m, env, held),
        ),
{
    let k = values::embedded_form(values::atom_form(name));
    semantics::meaning_of_call(m, env, Builtin::DictSingleton, seq![k, held]);
    semantics::meanings_of_two(m, env, k, held);
    semantics::meaning_of_value(m, env, values::atom_form(name));
    semantics::value_of_atom(m, name);
}

proof fn names_differ()
    ensures
        "name"@ != "value"@,
        "name"@ != "defs"@,
        "assert_undefined"@ != "assert_defined"@,
        values::atom_key("name"@) != values::atom_key("value"@),
{
    reveal_strlit("name");
    reveal_strlit("value");
    reveal_strlit("defs");
    reveal_strlit("assert_undefined");
    reveal_strlit("assert_defined");
    assert("name"@.len() == 4 && "value"@.len() == 5);
    assert("name"@[0] == 'n' && "defs"@[0] == 'd');
    assert("assert_undefined"@.len() == 16 && "assert_defined"@.len() == 14);
    keys_of_names("name"@, "value"@);
}

/// Different names are different keys.
pub proof fn keys_of_names(a: Seq<char>, b: Seq<char>)
    ensures
        values::atom_key(a) == values::atom_key(b) <==> a == b,
{
    let x = values::atom_key(a)->Node_1;
    let y = values::atom_key(b)->Node_1;
    assert(x[0] == Form::Text(a));
    assert(y[0] == Form::Text(b));
}

/// What an assertion about a target means.
pub proof fn meaning_of_assertion<D>(
    m: Model<D>,
    env: Map<nat, D>,
    tag: Seq<char>,
    name: Seq<char>,
    prior: Form,
    guarded: Form,
) -> (payload: D)
    requires
        sound(m),
    ensures
        meaning(m, env, compiler_values::assertion_form(tag, name, prior, guarded)) == annotated(
            m,
            single(m, values::atom_key(tag), payload),
            meaning(m, env, guarded),
        ),
        (m.at)(payload, named(m, "value"@)) == meaning(m, env, prior),
{
    reveal(semantics::holds_entries);
    names_differ();
    let shown = values::embedded_form(values::text_form(name));
    let a = compiler_values::singleton("name"@, shown);
    let b = compiler_values::singleton("value"@, prior);
    let both = values::call_form(Builtin::DictUnion, seq![a, b]);
    let note = compiler_values::singleton(tag, both);
    meaning_of_singleton(m, env, "name"@, shown);
    meaning_of_singleton(m, env, "value"@, prior);
    semantics::meaning_of_call(m, env, Builtin::DictUnion, seq![a, b]);
    semantics::meanings_of_two(m, env, a, b);
    meaning_of_singleton(m, env, tag, both);
    semantics::meaning_of_call(m, env, Builtin::Anno, seq![note, guarded]);
    semantics::meanings_of_two(m, env, note, guarded);
    let x = meaning(m, env, a);
    let y = meaning(m, env, b);
    let payload = united(m, x, y);
    assert(meaning(m, env, both) == payload);
    assert((m.at)(x, named(m, "value"@)) == m.absent);
    assert((m.at)(y, named(m, "value"@)) == meaning(m, env, prior));
    assert((m.at)(payload, named(m, "value"@)) == (m.at)(y, named(m, "value"@)));
    payload
}

/// A target is written so that its path and its steps lead along the same keys.
pub open spec fn leads<D>(
    m: Model<D>,
    env: Map<nat, D>,
    target: TargetForm,
    path: Seq<Form>,
) -> bool {
    &&& meaning(m, env, target.path) == (m.list)(keys(m, path))
    &&& forall|base: D| #[trigger] walked(m, env, base, target.steps) == reach(m, base, path)
}

/// A target that is written out leads along the keys of its names.
pub proof fn written_targets_lead<D>(
    m: Model<D>,
    env: Map<nat, D>,
    definition: DefinitionDecl,
    computed: Option<DefinitionTarget>,
)
    requires
        definitions::written(definition.target@),
    ensures
        leads(
            m,
            env,
            definitions::target_of(definition, computed),
            name_keys(definitions::key_names(definition.target@)),
        ),
{
    let names = definitions::key_names(definition.target@);
    let target = definitions::target_of(definition, computed);
    semantics::meaning_of_names(m, env, names);
    assert forall|base: D| #[trigger] walked(m, env, base, target.steps) == reach(
        m,
        base,
        name_keys(names),
    ) by {
        semantics::walking_names(m, env, base, names);
    }
}

/// A value behind the reflection boundary of its scope. There is none below
/// `refl`, `meta` and `spec`, nor below a name that is computed.
pub open spec fn behind<D>(
    m: Model<D>,
    env: Map<nat, D>,
    scope: NameScope,
    root: Option<Seq<char>>,
    v: D,
) -> D {
    match (scope.reflection, root) {
        (Some(boundary), Some(name)) => if name == "refl"@ || name == "meta"@ || name == "spec"@ {
            v
        } else {
            (m.apply)(meaning(m, env, definitions::root_form(boundary.annotator)), seq![v])
        },
        _ => v,
    }
}

proof fn meaning_of_decorated<D>(
    m: Model<D>,
    env: Map<nat, D>,
    scope: NameScope,
    root: Option<Seq<char>>,
    form: Form,
)
    ensures
        meaning(m, env, definitions::decorated(root, form, scope)) == behind(
            m,
            env,
            scope,
            root,
            meaning(m, env, form),
        ),
{
    if let Some(boundary) = scope.reflection {
        let f = definitions::root_form(boundary.annotator);
        semantics::meaning_of_apply(m, env, f, seq![form]);
        semantics::meanings_of_one(m, env, form);
    }
}

/// What a definition does to the definitions before it.
pub struct Change<D> {
    pub before: D,
    pub after: D,
    pub path: Seq<Form>,
}

/// Everything that does not lie along a path stays.
pub open spec fn keeps_the_rest<D>(m: Model<D>, change: Change<D>) -> bool {
    forall|other: Seq<Form>|
        semantics::diverges(change.path, other) ==> #[trigger] reach(m, change.after, other)
            == reach(m, change.before, other)
}

/// The code of an access by the steps of a target.
proof fn meaning_of_prior<D>(
    m: Model<D>,
    env: Map<nat, D>,
    target: TargetForm,
    path: Seq<Form>,
    root: Form,
)
    requires
        leads(m, env, target, path),
    ensures
        meaning(m, env, values::access_form(root, target.steps)) == reach(
            m,
            meaning(m, env, root),
            path,
        ),
{
    let form = values::access_form(root, target.steps);
    assert(form->Node_1[0] == root);
    assert(form->Node_1[1] == Form::Node(Shape::Many, target.steps));
    assert(meaning(m, env, form) == walked(m, env, meaning(m, env, root), target.steps));
}

/// An update of definitions along a path replaces what is there, and nothing
/// else.
pub proof fn meaning_of_update<D>(
    m: Model<D>,
    env: Map<nat, D>,
    path_code: Form,
    path: Seq<Form>,
    new: Form,
    root: Form,
)
    requires
        sound(m),
        meaning(m, env, path_code) == (m.list)(keys(m, path)),
    ensures
        ({
            let after = meaning(
                m,
                env,
                values::call_form(Builtin::DictUpdate, seq![path_code, new, root]),
            );
            let before = meaning(m, env, root);
            &&& reach(m, after, path) == meaning(m, env, new)
            &&& keeps_the_rest(m, Change { before, after, path })
        }),
{
    reveal(semantics::holds_entries);
    semantics::meaning_of_call(m, env, Builtin::DictUpdate, seq![path_code, new, root]);
    semantics::meanings_of_three(m, env, path_code, new, root);
    let before = meaning(m, env, root);
    let v = meaning(m, env, new);
    let after = updating(m, path, v, before);
    semantics::replaced_is_reached(m, before, path, v);
    assert forall|other: Seq<Form>| semantics::diverges(path, other) implies #[trigger] reach(
        m,
        after,
        other,
    ) == reach(m, before, other) by {
        semantics::replacing_keeps(m, before, path, other, v);
    }
}

/// A definition that introduces a name gives it the value of its code where it
/// was undefined, and fails there otherwise. Nothing else changes.
pub proof fn introduced_names_have_their_value<D>(
    m: Model<D>,
    env: Map<nat, D>,
    definition: DefinitionDecl,
    computed: Option<DefinitionTarget>,
    code: ResolvedExpr,
    root: ResolvedRoot,
    scope: NameScope,
    path: Seq<Form>,
    lowered: Form,
)
    requires
        sound(m),
        leads(m, env, definitions::target_of(definition, computed), path),
        definition.kind == DefinitionKind::Introduce,
        definition.expr is Some,
        definitions::defined(
            definition,
            definitions::target_of(definition, computed),
            code,
            root,
            scope,
        ) == Ok::<Form, Seq<char>>(lowered),
    ensures
        ({
            let before = meaning(m, env, definitions::root_form(root));
            let after = meaning(m, env, lowered);
            let prior = reach(m, before, path);
            let own = behind(
                m,
                env,
                scope,
                definitions::target_of(definition, computed).root,
                meaning(m, env, values::code_form(code)),
            );
            &&& keeps_the_rest(m, Change { before, after, path })
            &&& (m.is_undefined)(prior) ==> reach(m, after, path) == own
            &&& (m.is_defined)(prior) ==> exists|note: D|
                reach(m, after, path) == #[trigger] (m.failure)(note)
        }),
{
    let target = definitions::target_of(definition, computed);
    let base = definitions::root_form(root);
    let prior = values::access_form(base, target.steps);
    let guarded = definitions::decorated(target.root, values::code_form(code), scope);
    let new = compiler_values::assertion_form("assert_undefined"@, target.name, prior, guarded);
    meaning_of_prior(m, env, target, path, base);
    meaning_of_decorated(m, env, scope, target.root, values::code_form(code));
    let payload = meaning_of_assertion(m, env, "assert_undefined"@, target.name, prior, guarded);
    meaning_of_update(m, env, target.path, path, new, base);
    reveal(semantics::asserts);
    let note = single(m, values::atom_key("assert_undefined"@), payload);
    assert(annotated(m, note, meaning(m, env, guarded)) == meaning(m, env, new));
    if (m.is_defined)(reach(m, meaning(m, env, base), path)) {
        assert(reach(m, meaning(m, env, lowered), path) == (m.failure)(note));
    }
}

/// A definition that overrides a name gives it the value of its code where it
/// was defined, and fails there otherwise. Nothing else changes.
pub proof fn overridden_names_have_their_value<D>(
    m: Model<D>,
    env: Map<nat, D>,
    definition: DefinitionDecl,
    computed: Option<DefinitionTarget>,
    code: ResolvedExpr,
    root: ResolvedRoot,
    scope: NameScope,
    path: Seq<Form>,
    lowered: Form,
)
    requires
        sound(m),
        leads(m, env, definitions::target_of(definition, computed), path),
        definition.kind == DefinitionKind::Override,
        definition.expr is Some,
        definitions::defined(
            definition,
            definitions::target_of(definition, computed),
            code,
            root,
            scope,
        ) == Ok::<Form, Seq<char>>(lowered),
    ensures
        ({
            let before = meaning(m, env, definitions::root_form(root));
            let after = meaning(m, env, lowered);
            let prior = reach(m, before, path);
            let own = behind(
                m,
                env,
                scope,
                definitions::target_of(definition, computed).root,
                meaning(m, env, values::code_form(code)),
            );
            &&& keeps_the_rest(m, Change { before, after, path })
            &&& (m.is_defined)(prior) ==> reach(m, after, path) == own
            &&& (m.is_undefined)(prior) ==> exists|note: D|
                reach(m, after, path) == #[trigger] (m.failure)(note)
        }),
{
    let target = definitions::target_of(definition, computed);
    let base = definitions::root_form(root);
    let prior = values::access_form(base, target.steps);
    let guarded = definitions::decorated(target.root, values::code_form(code), scope);
    let new = compiler_values::assertion_form("assert_defined"@, target.name, prior, guarded);
    meaning_of_prior(m, env, target, path, base);
    meaning_of_decorated(m, env, scope, target.root, values::code_form(code));
    let payload = meaning_of_assertion(m, env, "assert_defined"@, target.name, prior, guarded);
    meaning_of_update(m, env, target.path, path, new, base);
    reveal(semantics::asserts);
    let note = single(m, values::atom_key("assert_defined"@), payload);
    assert(annotated(m, note, meaning(m, env, guarded)) == meaning(m, env, new));
    if (m.is_undefined)(reach(m, meaning(m, env, base), path)) {
        assert(reach(m, meaning(m, env, lowered), path) == (m.failure)(note));
    }
}

/// An update without parameters gives its target what its code makes of the
/// value there before. Nothing else changes.
pub proof fn updates_apply_to_the_value_before<D>(
    m: Model<D>,
    env: Map<nat, D>,
    definition: DefinitionDecl,
    computed: Option<DefinitionTarget>,
    code: ResolvedExpr,
    root: ResolvedRoot,
    scope: NameScope,
    path: Seq<Form>,
    lowered: Form,
)
    requires
        sound(m),
        leads(m, env, definitions::target_of(definition, computed), path),
        definition.kind == DefinitionKind::Update,
        definition.expr is Some,
        definition.parameters@.len() == 0,
        definitions::defined(
            definition,
            definitions::target_of(definition, computed),
            code,
            root,
            scope,
        ) == Ok::<Form, Seq<char>>(lowered),
    ensures
        ({
            let before = meaning(m, env, definitions::root_form(root));
            let after = meaning(m, env, lowered);
            let prior = reach(m, before, path);
            let change = meaning(m, env, values::code_form(code));
            &&& keeps_the_rest(m, Change { before, after, path })
            &&& reach(m, after, path) == behind(
                m,
                env,
                scope,
                definitions::target_of(definition, computed).root,
                (m.apply)(change, seq![prior]),
            )
        }),
{
    let target = definitions::target_of(definition, computed);
    let base = definitions::root_form(root);
    let prior = values::access_form(base, target.steps);
    let updated = values::apply_form(values::code_form(code), seq![prior]);
    let new = definitions::decorated(target.root, updated, scope);
    meaning_of_prior(m, env, target, path, base);
    semantics::meaning_of_apply(m, env, values::code_form(code), seq![prior]);
    semantics::meanings_of_one(m, env, prior);
    meaning_of_decorated(m, env, scope, target.root, updated);
    meaning_of_update(m, env, target.path, path, new, base);
}

/// Code that names none of some locals.
pub open spec fn free_of(form: Form, ids: Seq<nat>) -> bool {
    forall|k: int| 0 <= k < ids.len() ==> !mentioned(form).contains(#[trigger] ids[k])
}

pub proof fn fresh_locals_do_not_matter<D>(
    m: Model<D>,
    env: Map<nat, D>,
    ids: Seq<nat>,
    arguments: Seq<D>,
    form: Form,
)
    requires
        free_of(form, ids),
        ids.len() == arguments.len(),
    ensures
        meaning(m, bound(env, ids, arguments), form) == meaning(m, env, form),
{
    unbound(env, ids, arguments);
    let x = bound(env, ids, arguments);
    assert forall|n: nat| #[trigger] mentioned(form).contains(n) implies x.contains_key(n)
        == env.contains_key(n) && (x.contains_key(n) ==> x[n] == env[n]) by {
        if ids.contains(n) {
            let k = choose|k: int| 0 <= k < ids.len() && ids[k] == n;
            assert(!mentioned(form).contains(ids[k]));
        }
    }
    semantics::meaning_depends_on_named(m, x, env, form);
}

proof fn unbound<D>(env: Map<nat, D>, ids: Seq<nat>, arguments: Seq<D>)
    requires
        ids.len() == arguments.len(),
    ensures
        forall|n: nat|
            !ids.contains(n) ==> (#[trigger] bound(env, ids, arguments).contains_key(n)
                == env.contains_key(n)) && (env.contains_key(n) ==> bound(env, ids, arguments)[n]
                == env[n]),
    decreases ids.len(),
{
    if ids.len() > 0 {
        let front = ids.drop_last();
        unbound(env, front, arguments.drop_last());
        assert forall|n: nat| !ids.contains(n) implies (#[trigger] bound(
            env,
            ids,
            arguments,
        ).contains_key(n) == env.contains_key(n)) && (env.contains_key(n) ==> bound(
            env,
            ids,
            arguments,
        )[n] == env[n]) by {
            assert(n != ids.last()) by {
                assert(ids[ids.len() - 1] == ids.last());
            }
            assert(!front.contains(n)) by {
                if front.contains(n) {
                    let k = choose|k: int| 0 <= k < front.len() && front[k] == n;
                    assert(ids[k] == n);
                }
            }
            let y = bound(env, front, arguments.drop_last());
            assert(y.contains_key(n) == env.contains_key(n));
        }
    }
}

/// An update with parameters gives its target a function: applied to arguments,
/// it makes of the value there before what the body of the update makes of it
/// for these arguments. Nothing else changes.
pub proof fn updates_with_parameters_apply_to_the_value_before<D>(
    m: Model<D>,
    env: Map<nat, D>,
    definition: DefinitionDecl,
    computed: Option<DefinitionTarget>,
    params: Vec<values::BindingId>,
    body: Box<ResolvedExpr>,
    root: ResolvedRoot,
    scope: NameScope,
    path: Seq<Form>,
    lowered: Form,
) -> (function: D)
    requires
        sound(m),
        leads(m, env, definitions::target_of(definition, computed), path),
        definition.kind == DefinitionKind::Update,
        definition.expr is Some,
        definition.parameters@.len() > 0,
        free_of(
            values::access_form(
                definitions::root_form(root),
                definitions::target_of(definition, computed).steps,
            ),
            values::ids(params@),
        ),
        definitions::defined(
            definition,
            definitions::target_of(definition, computed),
            ResolvedExpr::Lambda(params, body),
            root,
            scope,
        ) == Ok::<Form, Seq<char>>(lowered),
    ensures
        ({
            let before = meaning(m, env, definitions::root_form(root));
            let after = meaning(m, env, lowered);
            let prior = reach(m, before, path);
            &&& keeps_the_rest(m, Change { before, after, path })
            &&& reach(m, after, path) == behind(
                m,
                env,
                scope,
                definitions::target_of(definition, computed).root,
                function,
            )
            &&& params@.len() == definition.parameters@.len()
            &&& forall|arguments: Seq<D>|
                arguments.len() == definition.parameters@.len() ==> #[trigger] (m.apply)(
                    function,
                    arguments,
                ) == (m.apply)(
                    meaning(
                        m,
                        bound(env, values::ids(params@), arguments),
                        values::code_form(*body),
                    ),
                    seq![prior],
                )
        }),
{
    let target = definitions::target_of(definition, computed);
    let base = definitions::root_form(root);
    let prior = values::access_form(base, target.steps);
    let ids = values::ids(params@);
    let inner = values::apply_form(values::code_form(*body), seq![prior]);
    let updated = values::lambda_form(ids, inner);
    let new = definitions::decorated(target.root, updated, scope);
    let function = meaning(m, env, updated);
    meaning_of_prior(m, env, target, path, base);
    meaning_of_decorated(m, env, scope, target.root, updated);
    meaning_of_update(m, env, target.path, path, new, base);
    assert forall|arguments: Seq<D>|
        arguments.len() == definition.parameters@.len() implies #[trigger] (m.apply)(
        function,
        arguments,
    ) == (m.apply)(
        meaning(m, bound(env, ids, arguments), values::code_form(*body)),
        seq![meaning(m, env, prior)],
    ) by {
        let inside = bound(env, ids, arguments);
        beta(m, env, ids, inner, arguments);
        semantics::meaning_of_apply(m, inside, values::code_form(*body), seq![prior]);
        semantics::meanings_of_one(m, inside, prior);
        fresh_locals_do_not_matter(m, env, ids, arguments, prior);
    }
    function
}

/// A definition without an expression changes nothing.
pub proof fn empty_definitions_change_nothing<D>(
    m: Model<D>,
    env: Map<nat, D>,
    definition: DefinitionDecl,
    target: TargetForm,
    code: ResolvedExpr,
    root: ResolvedRoot,
    scope: NameScope,
    lowered: Form,
)
    requires
        definition.expr is None,
        definitions::defined(definition, target, code, root, scope) == Ok::<Form, Seq<char>>(
            lowered,
        ),
    ensures
        meaning(m, env, lowered) == meaning(m, env, definitions::root_form(root)),
{
}

/// What an access by one name means.
pub proof fn meaning_of_member<D>(m: Model<D>, env: Map<nat, D>, base: Form, name: Seq<char>)
    ensures
        meaning(m, env, compiler_values::member(base, name)) == (m.at)(
            meaning(m, env, base),
            named(m, name),
        ),
{
    let names = seq![name];
    assert(values::steps_form(names) =~= seq![values::step_form(name)]);
    semantics::meaning_of_access(m, env, base, names);
    let path = name_keys(names);
    assert(path.skip(1) =~= Seq::empty());
    assert(path[0] == values::atom_key(name));
    reveal_with_fuel(reach, 2);
}

/// What a local for a value means.
pub proof fn meaning_of_let<D>(m: Model<D>, env: Map<nat, D>, id: nat, held: Form, body: Form)
    requires
        sound(m),
    ensures
        meaning(m, env, objects::let_form(id, held, body)) == meaning(
            m,
            env.insert(id, meaning(m, env, held)),
            body,
        ),
{
    let f = values::lambda_form(seq![id], body);
    semantics::meaning_of_apply(m, env, f, seq![held]);
    semantics::meanings_of_one(m, env, held);
    beta(m, env, seq![id], body, seq![meaning(m, env, held)]);
    bound_one(env, id, meaning(m, env, held));
}

pub proof fn meaning_of_instance<D>(
    m: Model<D>,
    env: Map<nat, D>,
    name: Form,
    deps: Form,
    defs: Form,
)
    ensures
        meaning(m, env, objects::instance_form(name, deps, defs)) == object(
            m,
            meaning(m, env, name),
            meaning(m, env, deps),
            meaning(m, env, defs),
        ),
{
    semantics::meaning_of_call(
        m,
        env,
        Builtin::ObjectInstanceFromParts,
        seq![name, deps, defs],
    );
    semantics::meanings_of_three(m, env, name, deps, defs);
}

pub proof fn meaning_of_spec<D>(m: Model<D>, env: Map<nat, D>, form: Form)
    ensures
        meaning(m, env, objects::spec_form(form)) == spec_of(m, meaning(m, env, form)),
{
    semantics::meaning_of_call(m, env, Builtin::ObjectSpec, seq![form]);
    semantics::meanings_of_one(m, env, form);
}

/// The definitions of an object.
pub open spec fn defs_of<D>(m: Model<D>, o: D) -> D {
    (m.at)(spec_of(m, o), named(m, "defs"@))
}

/// What definitions give, from those before an object and the object itself.
pub open spec fn given<D>(m: Model<D>, defs: D, base: D, itself: D) -> D {
    (m.apply)(defs, seq![base, itself])
}

/// An object is another one with more definitions: it keeps the name and the
/// dependencies, its definitions are those of the extension after those of the
/// object, and its members are what the extension makes of the object's.
pub open spec fn extends<D>(m: Model<D>, new: D, old: D, extension: D) -> bool {
    let deps = (m.at)(spec_of(m, old), named(m, "deps"@));
    &&& (m.at)(spec_of(m, new), named(m, "name"@)) == (m.at)(spec_of(m, old), named(m, "name"@))
    &&& (m.at)(spec_of(m, new), named(m, "deps"@)) == deps
    &&& forall|base: D, itself: D|
        #[trigger] given(m, defs_of(m, new), base, itself) == given(
            m,
            extension,
            given(m, defs_of(m, old), base, itself),
            itself,
        )
    &&& forall|k: Form|
        k != values::atom_key("spec"@) ==> #[trigger] (m.at)(new, (m.key)(k)) == (m.at)(
            given(m, extension, given(m, defs_of(m, old), (m.inherited)(deps), new), new),
            (m.key)(k),
        )
}

/// Extending an object puts the definitions of the extension after those of the
/// object.
pub proof fn extensions_come_after_the_object<D>(
    m: Model<D>,
    env: Map<nat, D>,
    target: Seq<char>,
    extension: Form,
    definitions: Form,
    id: nat,
)
    requires
        sound(m),
        free_of(extension, seq![id, id + 1, id + 2]),
    ensures
        extends(
            m,
            meaning(m, env, objects::extended_form(target, extension, definitions, id)),
            reach(m, meaning(m, env, definitions), name_keys(text::dotted(target))),
            meaning(m, env, extension),
        ),
{
    let names = text::dotted(target);
    let found = values::access_form(definitions, values::steps_form(names));
    let known = values::local_form(id);
    let composed = objects::composed_form(
        compiler_values::member(known, "defs"@),
        extension,
        id + 1,
        id + 2,
    );
    let name = compiler_values::member(known, "name"@);
    let deps = compiler_values::member(known, "deps"@);
    let body = objects::instance_form(name, deps, composed);
    semantics::meaning_of_access(m, env, definitions, names);
    meaning_of_spec(m, env, found);
    meaning_of_let(m, env, id, objects::spec_form(found), body);
    let old = reach(m, meaning(m, env, definitions), name_keys(names));
    let inner = env.insert(id, spec_of(m, old));
    meaning_of_instance(m, inner, name, deps, composed);
    meaning_of_member(m, inner, known, "name"@);
    meaning_of_member(m, inner, known, "deps"@);
    semantics::meaning_of_local(m, inner, id);
    let new = meaning(m, env, objects::extended_form(target, extension, definitions, id));
    let x = meaning(m, env, extension);
    let f = meaning(m, inner, composed);
    assert(new == object(m, meaning(m, inner, name), meaning(m, inner, deps), f));
    assert forall|base: D, itself: D| #[trigger] given(m, f, base, itself) == given(
        m,
        x,
        given(m, defs_of(m, old), base, itself),
        itself,
    ) by {
        let prior = values::apply_form(
            compiler_values::member(known, "defs"@),
            seq![values::local_form(id + 1), values::local_form(id + 2)],
        );
        let tail = values::local_form(id + 2);
        let whole = values::apply_form(extension, seq![prior, tail]);
        beta(m, inner, seq![id + 1, id + 2], whole, seq![base, itself]);
        bound_two(inner, id + 1, id + 2, base, itself);
        let deep = inner.insert(id + 1, base).insert(id + 2, itself);
        semantics::meaning_of_apply(m, deep, extension, seq![prior, tail]);
        semantics::meanings_of_two(m, deep, prior, tail);
        semantics::meaning_of_local(m, deep, id + 2);
        semantics::meaning_of_local(m, deep, id + 1);
        semantics::meaning_of_local(m, deep, id);
        semantics::meaning_of_apply(
            m,
            deep,
            compiler_values::member(known, "defs"@),
            seq![values::local_form(id + 1), values::local_form(id + 2)],
        );
        semantics::meanings_of_two(m, deep, values::local_form(id + 1), values::local_form(id + 2));
        meaning_of_member(m, deep, known, "defs"@);
        let ids = seq![id, id + 1, id + 2];
        fresh_locals_do_not_matter(m, env, ids, seq![spec_of(m, old), base, itself], extension);
        bound_three(env, id, id + 1, id + 2, spec_of(m, old), base, itself);
    }
    reveal(semantics::makes_objects);
    assert(defs_of(m, new) == f);
    let inherited = (m.inherited)((m.at)(spec_of(m, old), named(m, "deps"@)));
    assert(given(m, f, inherited, new) == given(
        m,
        x,
        given(m, defs_of(m, old), inherited, new),
        new,
    ));
}

/// A name that an extension leaves alone is what the object makes it.
pub proof fn extensions_keep_other_names<D>(m: Model<D>, new: D, old: D, extension: D, k: Form)
    requires
        extends(m, new, old, extension),
        k != values::atom_key("spec"@),
        forall|base: D|
            (m.at)(#[trigger] given(m, extension, base, new), (m.key)(k)) == (m.at)(
                base,
                (m.key)(k),
            ),
    ensures
        (m.at)(new, (m.key)(k)) == (m.at)(
            given(
                m,
                defs_of(m, old),
                (m.inherited)((m.at)(spec_of(m, old), named(m, "deps"@))),
                new,
            ),
            (m.key)(k),
        ),
{
    let deps = (m.at)(spec_of(m, old), named(m, "deps"@));
    let base = given(m, defs_of(m, old), (m.inherited)(deps), new);
    assert((m.at)(given(m, extension, base, new), (m.key)(k)) == (m.at)(base, (m.key)(k)));
}

/// A declaration of an object puts the object at its target where nothing was
/// defined, one of an extension where something was, and fails there
/// otherwise. Nothing else changes.
pub proof fn declared_objects_are_placed<D>(
    m: Model<D>,
    env: Map<nat, D>,
    target: Seq<char>,
    object: Form,
    definitions: Form,
)
    requires
        sound(m),
    ensures
        ({
            let path = name_keys(text::dotted(target));
            let before = meaning(m, env, definitions);
            let prior = reach(m, before, path);
            let new = meaning(
                m,
                env,
                objects::declared_form("assert_undefined"@, target, object, definitions),
            );
            let more = meaning(
                m,
                env,
                objects::declared_form("assert_defined"@, target, object, definitions),
            );
            &&& keeps_the_rest(m, Change { before, after: new, path })
            &&& keeps_the_rest(m, Change { before, after: more, path })
            &&& (m.is_undefined)(prior) ==> reach(m, new, path) == meaning(m, env, object)
            &&& (m.is_defined)(prior) ==> reach(m, more, path) == meaning(m, env, object)
            &&& (m.is_defined)(prior) ==> exists|note: D|
                reach(m, new, path) == #[trigger] (m.failure)(note)
            &&& (m.is_undefined)(prior) ==> exists|note: D|
                reach(m, more, path) == #[trigger] (m.failure)(note)
        }),
{
    let names = text::dotted(target);
    let path = name_keys(names);
    let prior = values::access_form(definitions, values::steps_form(names));
    semantics::meaning_of_access(m, env, definitions, names);
    semantics::meaning_of_names(m, env, names);
    let path_code = definitions::static_path_form(target);
    let a = compiler_values::assertion_form("assert_undefined"@, target, prior, object);
    let b = compiler_values::assertion_form("assert_defined"@, target, prior, object);
    let first = meaning_of_assertion(m, env, "assert_undefined"@, target, prior, object);
    let second = meaning_of_assertion(m, env, "assert_defined"@, target, prior, object);
    meaning_of_update(m, env, path_code, path, a, definitions);
    meaning_of_update(m, env, path_code, path, b, definitions);
    reveal(semantics::asserts);
    let x = single(m, values::atom_key("assert_undefined"@), first);
    let y = single(m, values::atom_key("assert_defined"@), second);
    assert(annotated(m, x, meaning(m, env, object)) == meaning(m, env, a));
    assert(annotated(m, y, meaning(m, env, object)) == meaning(m, env, b));
    let new = meaning(
        m,
        env,
        objects::declared_form("assert_undefined"@, target, object, definitions),
    );
    let more = meaning(
        m,
        env,
        objects::declared_form("assert_defined"@, target, object, definitions),
    );
    if (m.is_defined)(reach(m, meaning(m, env, definitions), path)) {
        assert(reach(m, new, path) == (m.failure)(x));
    }
    if (m.is_undefined)(reach(m, meaning(m, env, definitions), path)) {
        assert(reach(m, more, path) == (m.failure)(y));
    }
}

/// A value at the target of a module is what is found there, and nothing else
/// changes.
pub proof fn placed_values_are_found<D>(m: Model<D>, target: Seq<char>, new: Form, old: Form)
    requires
        sound(m),
    ensures
        ({
            let path = name_keys(text::dotted(target));
            let after = value(m, definitions::placed(definitions::path_form(target), new, old));
            &&& reach(m, after, path) == value(m, new)
            &&& keeps_the_rest(m, Change { before: value(m, old), after, path })
        }),
{
    let env = Map::<nat, D>::empty();
    let path_value = definitions::path_form(target);
    let a = values::embedded_form(path_value);
    let b = values::provided_form(new);
    let c = values::provided_form(old);
    semantics::meaning_of_value(m, env, path_value);
    semantics::meaning_of_value(m, env, new);
    semantics::meaning_of_value(m, env, old);
    semantics::meaning_of_names(m, env, text::dotted(target));
    semantics::value_of_lazy(m, values::call_form(Builtin::DictUpdate, seq![a, b, c]));
    meaning_of_update(m, env, a, name_keys(text::dotted(target)), b, c);
}

/// The definitions of an object that is a value give that value.
pub proof fn constant_definitions<D>(m: Model<D>, held: Form, base: D, itself: D)
    requires
        sound(m),
    ensures
        (m.apply)(
            value(m, compiler_values::constant_defs_of(held)),
            seq![base, itself],
        ) == value(m, held),
{
    let env = Map::<nat, D>::empty();
    let body = values::local_form(0);
    let lambda = values::lambda_form(seq![0, 1, 2], body);
    let c = compiler_values::constant_defs_form();
    let code = values::apply_form(values::embedded_form(c), seq![values::provided_form(held)]);
    semantics::value_of_lazy(m, lambda);
    semantics::value_of_lazy(m, code);
    semantics::meaning_of_apply(
        m,
        env,
        values::embedded_form(c),
        seq![values::provided_form(held)],
    );
    semantics::meanings_of_one(m, env, values::provided_form(held));
    semantics::meaning_of_value(m, env, held);
    semantics::meaning_of_value(m, env, c);
    let v = value(m, held);
    let f = meaning(m, env, lambda);
    assert(value(m, compiler_values::constant_defs_of(held)) == (m.apply)(f, seq![v]));
    assert(seq![v] + seq![base, itself] =~= seq![v, base, itself]);
    assert((m.apply)((m.apply)(f, seq![v]), seq![base, itself]) == (m.apply)(
        f,
        seq![v] + seq![base, itself],
    )) by {
        reveal(semantics::applies);
    }
    beta(m, env, seq![0, 1, 2], body, seq![v, base, itself]);
    bound_three(env, 0, 1, 2, v, base, itself);
    semantics::meaning_of_local(m, env.insert(0, v).insert(1, base).insert(2, itself), 0);
}

/// What an import gives a module that it loads: inline, the definitions of the
/// importing module; at a target, what the target holds, before and after the
/// import.
pub proof fn imported_modules_continue_their_target<D>(
    m: Model<D>,
    import: ImportDecl,
    problem: Option<String>,
    context: CompileContext,
    definitions: Form,
    request: Seq<char>,
    scope: Option<Seq<char>>,
    prior: Form,
    last: Form,
)
    requires
        sound(m),
        imports::import_plan(import, problem, context, definitions) == Ok::<
            ImportPlan,
            Seq<char>,
        >(ImportPlan::Load(request, scope, prior, last)),
    ensures
        ({
            let before = value(m, definitions);
            let after = value(m, values::value_form(context.final_defs));
            &&& import.reference matches ImportReference::Local(asked) && asked@ == request
            &&& match import.placement {
                ImportPlacement::Inline => scope is None && value(m, prior) == before && value(
                    m,
                    last,
                ) == after,
                ImportPlacement::At(target) => {
                    let path = name_keys(text::dotted(target@));
                    &&& scope == Some(target@)
                    &&& value(m, prior) == reach(m, before, path)
                    &&& value(m, last) == reach(m, after, path)
                },
                ImportPlacement::As(target) => {
                    let path = name_keys(text::dotted(target@));
                    let env = (m.at)(value(m, prior), named(m, "env"@));
                    &&& scope == Some(target@)
                    &&& value(m, last) == reach(m, after, path)
                    &&& forall|k: Form|
                        k != values::atom_key("env"@) ==> #[trigger] (m.at)(
                            value(m, prior),
                            (m.key)(k),
                        ) == m.absent
                    &&& (m.at)(spec_of(m, env), named(m, "deps"@)) == (m.list)(
                        seq![spec_of(m, (m.at)(before, named(m, "env"@)))],
                    )
                },
            }
        }),
{
    let final_defs = values::value_form(context.final_defs);
    let origin = text::texts(context.origin@);
    match import.placement {
        ImportPlacement::Inline => {},
        ImportPlacement::At(target) => {
            reached_values(m, target@, definitions);
            reached_values(m, target@, final_defs);
        },
        ImportPlacement::As(target) => {
            reached_values(m, target@, final_defs);
            let env_form = imports::inherited_env_form(origin, target@, definitions);
            environment_alone(m, env_form);
            inherited_environment(m, origin, target@, definitions);
        },
    }
}

proof fn one_key<D>(m: Model<D>, base: D, k: Form)
    ensures
        reach(m, base, seq![k]) == (m.at)(base, (m.key)(k)),
{
    assert(seq![k].skip(1) =~= Seq::empty());
    reveal_with_fuel(reach, 2);
}

proof fn environment_alone<D>(m: Model<D>, env: Form)
    requires
        sound(m),
    ensures
        ({
            let after = value(
                m,
                definitions::placed(
                    definitions::path_form("env"@),
                    env,
                    values::empty_dict_form(),
                ),
            );
            &&& (m.at)(after, named(m, "env"@)) == value(m, env)
            &&& forall|k: Form|
                k != values::atom_key("env"@) ==> #[trigger] (m.at)(after, (m.key)(k)) == m.absent
        }),
{
    let after = value(
        m,
        definitions::placed(definitions::path_form("env"@), env, values::empty_dict_form()),
    );
    placed_values_are_found(m, "env"@, env, values::empty_dict_form());
    assert(semantics::held(m, Seq::<Form>::empty()) == m.empty);
    assert(value(m, values::empty_dict_form()) == m.empty);
    env_path();
    let path = name_keys(text::dotted("env"@));
    assert(path =~= seq![values::atom_key("env"@)]);
    one_key(m, after, values::atom_key("env"@));
    assert forall|k: Form| k != values::atom_key("env"@) implies #[trigger] (m.at)(
        after,
        (m.key)(k),
    ) == m.absent by {
        one_key(m, after, k);
        one_key(m, m.empty, k);
        let other = seq![k];
        assert(path[0] != other[0]);
        assert(path.take(0) =~= other.take(0));
        assert(semantics::diverges(path, other));
        let change = Change { before: value(m, values::empty_dict_form()), after, path };
        assert(keeps_the_rest(m, change));
        assert(semantics::diverges(change.path, other));
        assert(reach(m, change.after, other) == reach(m, change.before, other));
        reveal(semantics::holds_entries);
    }
}

proof fn env_path()
    ensures
        text::dotted("env"@) == seq!["env"@],
{
    reveal_strlit("env");
    let t = "env"@;
    reveal_with_fuel(text::dotted_from, 4);
    assert(t.skip(1).skip(1).skip(1) =~= Seq::empty());
    let e = Seq::<char>::empty();
    assert(e.push(t[0]).push(t.skip(1)[0]).push(t.skip(1).skip(1)[0]) =~= t);
    assert(text::dotted(t) =~= seq![t]);
}

proof fn reached_values<D>(m: Model<D>, target: Seq<char>, definitions: Form)
    ensures
        value(m, definitions::reached(target, definitions)) == reach(
            m,
            value(m, definitions),
            name_keys(text::dotted(target)),
        ),
{
    let env = Map::<nat, D>::empty();
    let names = text::dotted(target);
    let base = values::provided_form(definitions);
    semantics::value_of_lazy(m, values::access_form(base, values::steps_form(names)));
    semantics::meaning_of_access(m, env, base, names);
    semantics::meaning_of_value(m, env, definitions);
}

proof fn inherited_environment<D>(
    m: Model<D>,
    origin: Seq<Seq<char>>,
    target: Seq<char>,
    definitions: Form,
)
    requires
        sound(m),
    ensures
        ({
            let env = value(m, imports::inherited_env_form(origin, target, definitions));
            (m.at)(spec_of(m, env), named(m, "deps"@)) == (m.list)(
                seq![spec_of(m, (m.at)(value(m, definitions), named(m, "env"@)))],
            )
        }),
{
    let none = Map::<nat, D>::empty();
    let parent = values::provided_form(definitions::reached("env"@, definitions));
    let list = values::list_form(seq![objects::spec_form(parent)]);
    let name = values::provided_form(imports::global_form(origin, target + ".env"@));
    let deps = values::provided_form(values::lazy_form(list));
    let defs = values::provided_form(compiler_values::empty_defs_form());
    semantics::value_of_lazy(m, objects::instance_form(name, deps, defs));
    meaning_of_instance(m, none, name, deps, defs);
    semantics::meaning_of_value(m, none, values::lazy_form(list));
    semantics::value_of_lazy(m, list);
    semantics::meanings_of_one(m, none, objects::spec_form(parent));
    meaning_of_spec(m, none, parent);
    semantics::meaning_of_value(m, none, definitions::reached("env"@, definitions));
    reached_values(m, "env"@, definitions);
    env_path();
    assert(name_keys(text::dotted("env"@)) =~= seq![values::atom_key("env"@)]);
    one_key(m, value(m, definitions), values::atom_key("env"@));
    reveal(semantics::makes_objects);
    let env = value(m, imports::inherited_env_form(origin, target, definitions));
    assert(env == object(m, meaning(m, none, name), meaning(m, none, deps), meaning(m, none, defs)));
}

/// What a value extended at a target holds.
proof fn extension_values<D>(m: Model<D>, target: Seq<char>, held: Form, definitions: Form)
    requires
        sound(m),
    ensures
        ({
            let new = value(
                m,
                imports::extension_form(
                    target,
                    compiler_values::constant_defs_of(held),
                    definitions,
                ),
            );
            forall|k: Form|
                k != values::atom_key("spec"@) ==> #[trigger] (m.at)(new, (m.key)(k)) == (m.at)(
                    value(m, held),
                    (m.key)(k),
                )
        }),
{
    let env = Map::<nat, D>::empty();
    let c = compiler_values::constant_defs_of(held);
    let x = values::provided_form(c);
    let d = values::provided_form(definitions);
    assert(mentioned(x) =~= Set::empty());
    let form = objects::extended_form(target, x, d, 0);
    semantics::value_of_lazy(m, form);
    extensions_come_after_the_object(m, env, target, x, d, 0);
    semantics::meaning_of_value(m, env, c);
    let new = meaning(m, env, form);
    let old = reach(m, meaning(m, env, d), name_keys(text::dotted(target)));
    let deps = (m.at)(spec_of(m, old), named(m, "deps"@));
    let base = (m.apply)(defs_of(m, old), seq![(m.inherited)(deps), new]);
    constant_definitions(m, held, base, new);
}

/// A module that was loaded is found at its target, whether it is imported
/// under a name or into an object there, and nothing else changes. Inline it is
/// all that is left.
pub proof fn loaded_modules_are_placed<D>(
    m: Model<D>,
    placement: ImportPlacement,
    origin: Seq<Seq<char>>,
    definitions: Form,
    loaded: Form,
)
    requires
        sound(m),
    ensures
        ({
            let before = value(m, definitions);
            let after = value(m, imports::local_import(placement, origin, definitions, loaded));
            match placement {
                ImportPlacement::Inline => after == value(m, loaded),
                ImportPlacement::As(target) => holds_module(m, before, after, target@, loaded),
                ImportPlacement::At(target) => holds_module(m, before, after, target@, loaded),
            }
        }),
{
    match placement {
        ImportPlacement::Inline => {},
        ImportPlacement::As(target) => {
            module_is_placed(m, origin, target@, definitions, loaded);
        },
        ImportPlacement::At(target) => {
            module_is_added(m, target@, definitions, loaded);
        },
    }
}

/// A target holds the names of a module, and nothing else changed.
pub open spec fn holds_module<D>(
    m: Model<D>,
    before: D,
    after: D,
    target: Seq<char>,
    module: Form,
) -> bool {
    let path = name_keys(text::dotted(target));
    &&& keeps_the_rest(m, Change { before, after, path })
    &&& forall|k: Form|
        k != values::atom_key("spec"@) ==> #[trigger] (m.at)(reach(m, after, path), (m.key)(k))
            == (m.at)(value(m, module), (m.key)(k))
}

proof fn module_is_placed<D>(
    m: Model<D>,
    origin: Seq<Seq<char>>,
    target: Seq<char>,
    definitions: Form,
    module: Form,
)
    requires
        sound(m),
    ensures
        holds_module(
            m,
            value(m, definitions),
            value(
                m,
                definitions::placed(
                    definitions::path_form(target),
                    imports::module_object_form(
                        imports::global_form(origin, target),
                        compiler_values::constant_defs_of(module),
                    ),
                    definitions,
                ),
            ),
            target,
            module,
        ),
{
    let env = Map::<nat, D>::empty();
    let c = compiler_values::constant_defs_of(module);
    let global = imports::global_form(origin, target);
    let object_form = imports::module_object_form(global, c);
    let a = values::embedded_form(global);
    let b = values::list_form(Seq::empty());
    let d = values::provided_form(c);
    placed_values_are_found(m, target, object_form, definitions);
    semantics::value_of_lazy(m, objects::instance_form(a, b, d));
    meaning_of_instance(m, env, a, b, d);
    semantics::meaning_of_value(m, env, c);
    assert(meanings(m, env, Seq::<Form>::empty()) =~= Seq::empty());
    let deps = meaning(m, env, b);
    let found = object(m, meaning(m, env, a), deps, value(m, c));
    reveal(semantics::makes_objects);
    assert(value(m, object_form) == found);
    constant_definitions(m, module, (m.inherited)(deps), found);
}

proof fn module_is_added<D>(m: Model<D>, target: Seq<char>, definitions: Form, module: Form)
    requires
        sound(m),
    ensures
        holds_module(
            m,
            value(m, definitions),
            value(
                m,
                definitions::placed(
                    definitions::path_form(target),
                    imports::extension_form(
                        target,
                        compiler_values::constant_defs_of(module),
                        definitions,
                    ),
                    definitions,
                ),
            ),
            target,
            module,
        ),
{
    let c = compiler_values::constant_defs_of(module);
    placed_values_are_found(
        m,
        target,
        imports::extension_form(target, c, definitions),
        definitions,
    );
    extension_values(m, target, module, definitions);
}

/// An import into an object keeps the names that the module does not define:
/// where the module leaves a name as it was before the module, the target holds
/// after the import what it held before.
pub proof fn imports_at_a_target_keep_its_names<D>(
    m: Model<D>,
    import: ImportDecl,
    problem: Option<String>,
    context: CompileContext,
    definitions: Form,
    request: Seq<char>,
    scope: Option<Seq<char>>,
    prior: Form,
    last: Form,
    loaded: Form,
    target: Seq<char>,
    k: Form,
)
    requires
        sound(m),
        imports::import_plan(import, problem, context, definitions) == Ok::<
            ImportPlan,
            Seq<char>,
        >(ImportPlan::Load(request, scope, prior, last)),
        import.placement matches ImportPlacement::At(named) && named@ == target,
        k != values::atom_key("spec"@),
        (m.at)(value(m, loaded), (m.key)(k)) == (m.at)(value(m, prior), (m.key)(k)),
    ensures
        ({
            let path = name_keys(text::dotted(target));
            let after = value(
                m,
                imports::local_import(
                    import.placement,
                    text::texts(context.origin@),
                    definitions,
                    loaded,
                ),
            );
            (m.at)(reach(m, after, path), (m.key)(k)) == (m.at)(
                reach(m, value(m, definitions), path),
                (m.key)(k),
            )
        }),
{
    imported_modules_continue_their_target(
        m,
        import,
        problem,
        context,
        definitions,
        request,
        scope,
        prior,
        last,
    );
    loaded_modules_are_placed(
        m,
        import.placement,
        text::texts(context.origin@),
        definitions,
        loaded,
    );
}

/// A built-in module is found at its target, under a name or in an object
/// there, or inline by its entries, and nothing else changes.
pub proof fn builtin_modules_are_placed<D>(
    m: Model<D>,
    name: Seq<char>,
    placement: ImportPlacement,
    origin: Seq<Seq<char>>,
    definitions: Form,
    module: values::Value,
)
    requires
        sound(m),
    ensures
        ({
            let before = value(m, definitions);
            let after = value(
                m,
                imports::builtin_import(name, placement, origin, definitions, module),
            );
            let form = values::value_form(module);
            match placement {
                ImportPlacement::Inline => module matches values::Value::Dict(entries) ==> (
                merge_meaning::keyed_by_names(entries@) ==> merge_meaning::holds_leaves(
                    m,
                    before,
                    after,
                    merge_meaning::leaves(Seq::empty(), entries@),
                )),
                ImportPlacement::As(target) => holds_module(m, before, after, target@, form),
                ImportPlacement::At(target) => holds_module(m, before, after, target@, form),
            }
        }),
{
    match placement {
        ImportPlacement::Inline => {
            if let values::Value::Dict(entries) = module {
                if merge_meaning::keyed_by_names(entries@) {
                    merge_meaning::merged_entries_are_found(m, definitions, entries@, module);
                }
            }
        },
        ImportPlacement::As(target) => {
            module_is_placed(m, origin, target@, definitions, values::value_form(module));
        },
        ImportPlacement::At(target) => {
            module_is_added(m, target@, definitions, values::value_form(module));
        },
    }
}

} // verus!
