//! What the members of an object do to the definitions before them.

use vstd::prelude::*;
use crate::ast::{
    DefinitionDecl, DefinitionKind, ObjectBodyDefinition, ObjectBodyDefinitionKind, ObjectDecl,
    ObjectExtendDecl,
};
use crate::definitions;
use crate::definitions::DefinitionTarget;
use crate::lowered_meaning;
use crate::lowered_meaning::{behind, extends, keeps_the_rest, Change};
use crate::object_bodies;
use crate::object_bodies::{Failure, Frame, Guarding, MemberResolution};
use crate::objects;
use crate::semantics;
use crate::semantics::{
    call, keys, meaning, meanings, name_keys, object, reach, sound, spec_of, Model,
};
use crate::text;
use crate::values;
use crate::values::{Builtin, Form, ResolvedExpr};

verus! {

/// A member that introduces a name gives it the value of its code, behind the
/// reflection boundary of the object, where it was undefined. It fails there
/// otherwise. Nothing else changes.
pub proof fn members_introduce_names<D>(
    m: Model<D>,
    env: Map<nat, D>,
    item: ObjectBodyDefinition,
    definition: DefinitionDecl,
    computed: Option<DefinitionTarget>,
    code: ResolvedExpr,
    frame: Frame,
    guarding: Guarding,
    next: nat,
    form: Form,
    after: nat,
)
    requires
        sound(m),
        frame.definitions <= usize::MAX,
        env.contains_key(frame.definitions),
        item.kind == ObjectBodyDefinitionKind::Definition(definition),
        definitions::written(definition.target@),
        definition.kind == DefinitionKind::Introduce,
        definition.expr is Some,
        object_bodies::member_form(
            item,
            MemberResolution::Definition { computed, code },
            frame,
            guarding,
            next,
        ) == Ok::<(Form, nat), Failure>((form, after)),
    ensures
        ({
            let path = name_keys(definitions::key_names(definition.target@));
            let old = env[frame.definitions];
            let new = meaning(m, env, form);
            let prior = reach(m, old, path);
            let own = behind(
                m,
                env,
                object_bodies::scope_at(frame),
                definitions::target_of(definition, computed).root,
                meaning(m, env, values::code_form(code)),
            );
            &&& keeps_the_rest(m, Change { before: old, after: new, path })
            &&& (m.is_undefined)(prior) ==> reach(m, new, path) == own
            &&& (m.is_defined)(prior) ==> exists|note: D|
                reach(m, new, path) == #[trigger] (m.failure)(note)
        }),
{
    reveal(object_bodies::member_form);
    let path = name_keys(definitions::key_names(definition.target@));
    semantics::meaning_of_local(m, env, frame.definitions);
    lowered_meaning::written_targets_lead(m, env, definition, computed);
    lowered_meaning::introduced_names_have_their_value(
        m,
        env,
        definition,
        computed,
        code,
        object_bodies::root_at(frame.definitions),
        object_bodies::scope_at(frame),
        path,
        form,
    );
}

/// The objects that an object extends, by their specifications, in order.
pub open spec fn specs_of<D>(m: Model<D>, env: Map<nat, D>, deps: Seq<ResolvedExpr>) -> Seq<D> {
    deps.map_values(|dep: ResolvedExpr| spec_of(m, meaning(m, env, values::code_form(dep))))
}

proof fn meaning_of_specs<D>(m: Model<D>, env: Map<nat, D>, deps: Seq<ResolvedExpr>)
    ensures
        meanings(m, env, objects::specs_form(values::codes_form(deps))) == specs_of(m, env, deps),
    decreases deps.len(),
{
    let forms = objects::specs_form(values::codes_form(deps));
    values::codes_form_at(deps);
    if deps.len() == 0 {
        assert(forms =~= Seq::empty());
        assert(specs_of(m, env, deps) =~= Seq::empty());
    } else {
        let front = deps.drop_last();
        values::codes_form_at(front);
        meaning_of_specs(m, env, front);
        assert(forms.drop_last() =~= objects::specs_form(values::codes_form(front)));
        let last = values::code_form(deps.last());
        assert(forms.last() == objects::spec_form(last));
        lowered_meaning::meaning_of_spec(m, env, last);
        assert(specs_of(m, env, deps) =~= specs_of(m, env, front).push(
            spec_of(m, meaning(m, env, last)),
        ));
    }
}

/// An object that is a member is put at its target where nothing was defined,
/// and fails there otherwise. Its name is local to the object around it, it
/// extends what it lists, and it has the definitions of its body. Nothing else
/// changes.
pub proof fn members_declare_objects<D>(
    m: Model<D>,
    env: Map<nat, D>,
    item: ObjectBodyDefinition,
    declaration: ObjectDecl,
    deps: Vec<ResolvedExpr>,
    members: Vec<MemberResolution>,
    frame: Frame,
    guarding: Guarding,
    next: nat,
    form: Form,
    after: nat,
)
    requires
        sound(m),
        env.contains_key(frame.definitions),
        env.contains_key(frame.final_self),
        item.kind == ObjectBodyDefinitionKind::Object(declaration),
        object_bodies::member_form(
            item,
            MemberResolution::Object { deps, members },
            frame,
            guarding,
            next,
        ) == Ok::<(Form, nat), Failure>((form, after)),
    ensures
        ({
            let path = name_keys(text::dotted(declaration.target@));
            let old = env[frame.definitions];
            let new = meaning(m, env, form);
            let prior = reach(m, old, path);
            let body = object_bodies::body_form(
                declaration.body@,
                members@,
                item.line as nat,
                object_bodies::guards(frame, guarding, declaration.target@),
                guarding,
                next,
            );
            let own = object(
                m,
                call(
                    m,
                    Builtin::ObjectLocalName,
                    seq![env[frame.final_self], (m.list)(keys(m, path))],
                ),
                (m.list)(specs_of(m, env, deps@)),
                meaning(m, env, body->Ok_0.0),
            );
            &&& body is Ok
            &&& keeps_the_rest(m, Change { before: old, after: new, path })
            &&& (m.is_undefined)(prior) ==> reach(m, new, path) == own
            &&& (m.is_defined)(prior) ==> exists|note: D|
                reach(m, new, path) == #[trigger] (m.failure)(note)
        }),
{
    reveal(object_bodies::member_form);
    let target = declaration.target@;
    let seen = values::local_form(frame.definitions);
    let defs = object_bodies::body_form(
        declaration.body@,
        members@,
        item.line as nat,
        object_bodies::guards(frame, guarding, target),
        guarding,
        next,
    )->Ok_0.0;
    let itself = values::local_form(frame.final_self);
    let path_code = definitions::static_path_form(target);
    let name = values::call_form(Builtin::ObjectLocalName, seq![itself, path_code]);
    let specs = objects::specs_form(values::codes_form(deps@));
    let list = values::list_form(specs);
    let made = objects::instance_form(name, list, defs);
    semantics::meaning_of_local(m, env, frame.definitions);
    semantics::meaning_of_local(m, env, frame.final_self);
    semantics::meaning_of_names(m, env, text::dotted(target));
    semantics::meaning_of_call(m, env, Builtin::ObjectLocalName, seq![itself, path_code]);
    semantics::meanings_of_two(m, env, itself, path_code);
    meaning_of_specs(m, env, deps@);
    assert(list->Node_1 == specs);
    lowered_meaning::meaning_of_instance(m, env, name, list, defs);
    lowered_meaning::declared_objects_are_placed(m, env, target, made, seen);
}

/// An extension that is a member extends the object at its target with the
/// definitions of its body, and fails where nothing was defined. Nothing else
/// changes. The body names none of the locals that come after its own.
pub proof fn members_extend_objects<D>(
    m: Model<D>,
    env: Map<nat, D>,
    item: ObjectBodyDefinition,
    declaration: ObjectExtendDecl,
    members: Vec<MemberResolution>,
    frame: Frame,
    guarding: Guarding,
    next: nat,
    form: Form,
    after: nat,
    defs: Form,
    free: nat,
)
    requires
        sound(m),
        env.contains_key(frame.definitions),
        item.kind == ObjectBodyDefinitionKind::Extend(declaration),
        object_bodies::body_form(
            declaration.body@,
            members@,
            item.line as nat,
            object_bodies::guards(frame, guarding, declaration.target@),
            guarding,
            next,
        ) == Ok::<(Form, nat), Failure>((defs, free)),
        lowered_meaning::free_of(defs, seq![free, free + 1, free + 2]),
        object_bodies::member_form(
            item,
            MemberResolution::Extension { members },
            frame,
            guarding,
            next,
        ) == Ok::<(Form, nat), Failure>((form, after)),
    ensures
        ({
            let path = name_keys(text::dotted(declaration.target@));
            let old = env[frame.definitions];
            let new = meaning(m, env, form);
            let prior = reach(m, old, path);
            &&& keeps_the_rest(m, Change { before: old, after: new, path })
            &&& (m.is_defined)(prior) ==> extends(
                m,
                reach(m, new, path),
                prior,
                meaning(m, env, defs),
            )
            &&& (m.is_undefined)(prior) ==> exists|note: D|
                reach(m, new, path) == #[trigger] (m.failure)(note)
        }),
{
    reveal(object_bodies::member_form);
    let target = declaration.target@;
    let seen = values::local_form(frame.definitions);
    let made = objects::extended_form(target, defs, seen, free);
    semantics::meaning_of_local(m, env, frame.definitions);
    lowered_meaning::extensions_come_after_the_object(m, env, target, defs, seen, free);
    lowered_meaning::declared_objects_are_placed(m, env, target, made, seen);
}

} // verus!
