//! What the bodies of objects mean once they are lowered.

use vstd::prelude::*;
use crate::ast::{ObjectBodyDefinition, ObjectBodyDefinitionKind};
use crate::compiler_values;
use crate::lowered_meaning;
use crate::lowered_meaning::given;
use crate::object_bodies;
use crate::object_bodies::{Failure, Frame, Guarding, MemberResolution};
use crate::objects;
use crate::semantics;
use crate::semantics::{
    meaning, name_keys, named, reach, replaced, sound, spec_of, updating, value, Model,
};
use crate::values;
use crate::values::{Builtin, Form};

verus! {

/// A dictionary is another with one entry replaced.
pub open spec fn replaces<D>(m: Model<D>, before: D, after: D, name: Seq<char>, new: D) -> bool {
    forall|k: Form|
        #[trigger] (m.at)(after, (m.key)(k)) == if k == values::atom_key(name) {
            new
        } else {
            (m.at)(before, (m.key)(k))
        }
}

/// What an update at one name means.
pub proof fn meaning_of_named_update<D>(
    m: Model<D>,
    env: Map<nat, D>,
    name: Seq<char>,
    new: Form,
    base: Form,
)
    requires
        sound(m),
    ensures
        replaces(
            m,
            meaning(m, env, base),
            meaning(m, env, compiler_values::update_form(name, new, base)),
            name,
            meaning(m, env, new),
        ),
{
    reveal(semantics::holds_entries);
    let names = seq![name];
    let path = name_keys(names);
    let code = values::list_form(values::atoms_form(names));
    assert(values::atoms_form(names) =~= seq![values::embedded_form(values::atom_form(name))]);
    semantics::meaning_of_names(m, env, names);
    semantics::meaning_of_call(m, env, Builtin::DictUpdate, seq![code, new, base]);
    semantics::meanings_of_three(m, env, code, new, base);
    let before = meaning(m, env, base);
    let v = meaning(m, env, new);
    assert(meaning(m, env, compiler_values::update_form(name, new, base)) == updating(
        m,
        path,
        v,
        before,
    ));
    assert(path[0] == values::atom_key(name));
    assert(path.skip(1) =~= Seq::empty());
    reveal_with_fuel(replaced, 2);
    assert(replaced(m, before, path, v) == (m.put)(before, (m.key)(path[0]), v));
}

/// Definitions are others without the specification of their object.
#[verifier::opaque]
pub open spec fn hides_spec<D>(m: Model<D>, all: D, shown: D) -> bool {
    &&& (m.at)(shown, named(m, "spec"@)) == m.empty
    &&& forall|path: Seq<Form>|
        path.len() > 0 && path[0] != values::atom_key("spec"@) ==> #[trigger] reach(m, shown, path)
            == reach(m, all, path)
}

/// What definitions without the specification of their object mean.
pub proof fn meaning_of_visible<D>(m: Model<D>, env: Map<nat, D>, form: Form)
    requires
        sound(m),
    ensures
        hides_spec(m, meaning(m, env, form), meaning(m, env, objects::visible_form(form))),
{
    reveal(hides_spec);
    let blank = values::empty_dict_form();
    let all = meaning(m, env, form);
    let shown = meaning(m, env, objects::visible_form(form));
    meaning_of_named_update(m, env, "spec"@, values::embedded_form(blank), form);
    semantics::meaning_of_value(m, env, blank);
    assert(blank->Node_1 =~= Seq::empty());
    assert(value(m, blank) == semantics::held(m, Seq::empty()));
    let k = values::atom_key("spec"@);
    assert((m.at)(shown, (m.key)(k)) == m.empty);
    assert forall|path: Seq<Form>|
        path.len() > 0 && path[0] != values::atom_key("spec"@) implies #[trigger] reach(
        m,
        shown,
        path,
    ) == reach(m, all, path) by {
        assert((m.at)(shown, (m.key)(path[0])) == (m.at)(all, (m.key)(path[0])));
    }
}

/// The locals after some are given the values of their code, one after the
/// other.
pub open spec fn after_lets<D>(
    m: Model<D>,
    env: Map<nat, D>,
    bindings: Seq<(nat, Form)>,
) -> Map<nat, D>
    decreases bindings.len(),
{
    if bindings.len() == 0 {
        env
    } else {
        let before = after_lets(m, env, bindings.drop_last());
        let (id, code) = bindings.last();
        before.insert(id, meaning(m, before, code))
    }
}

proof fn meaning_of_lets<D>(
    m: Model<D>,
    env: Map<nat, D>,
    bindings: Seq<(nat, Form)>,
    body: Form,
)
    requires
        sound(m),
    ensures
        meaning(m, env, object_bodies::nested_lets(bindings, body)) == meaning(
            m,
            after_lets(m, env, bindings),
            body,
        ),
    decreases bindings.len(),
{
    if bindings.len() > 0 {
        let (id, code) = bindings.last();
        let front = bindings.drop_last();
        meaning_of_lets(m, env, front, objects::let_form(id, code, body));
        lowered_meaning::meaning_of_let(m, after_lets(m, env, front), id, code, body);
    }
}

proof fn lets_keep<D>(m: Model<D>, env: Map<nat, D>, bindings: Seq<(nat, Form)>, id: nat)
    requires
        forall|k: int| 0 <= k < bindings.len() ==> (#[trigger] bindings[k]).0 != id,
    ensures
        after_lets(m, env, bindings).contains_key(id) == env.contains_key(id),
        env.contains_key(id) ==> after_lets(m, env, bindings)[id] == env[id],
    decreases bindings.len(),
{
    if bindings.len() > 0 {
        let front = bindings.drop_last();
        assert forall|k: int| 0 <= k < front.len() implies (#[trigger] front[k]).0 != id by {
            assert(front[k] == bindings[k]);
        }
        lets_keep(m, env, front, id);
        assert(bindings[bindings.len() - 1] == bindings.last());
    }
}

proof fn lets_in_turn<D>(
    m: Model<D>,
    env: Map<nat, D>,
    first: Seq<(nat, Form)>,
    second: Seq<(nat, Form)>,
)
    ensures
        after_lets(m, env, first + second) == after_lets(m, after_lets(m, env, first), second),
    decreases second.len(),
{
    if second.len() == 0 {
        assert(first + second =~= first);
    } else {
        lets_in_turn(m, env, first, second.drop_last());
        assert((first + second).drop_last() =~= first + second.drop_last());
        assert((first + second).last() == second.last());
    }
}

/// The members of a body in terms of the last one.
proof fn members_in_turn(
    items: Seq<ObjectBodyDefinition>,
    members: Seq<MemberResolution>,
    start: Frame,
    guarding: Guarding,
    next: nat,
)
    requires
        items.len() > 0,
        object_bodies::members_form(items, members, start, guarding, next) is Ok,
    ensures
        ({
            let some = object_bodies::members_form(
                items.drop_last(),
                members.drop_last(),
                start,
                guarding,
                next,
            );
            let (bindings, definitions, free) = some->Ok_0;
            let member = object_bodies::member_form(
                items.last(),
                members.last(),
                Frame { definitions, ..start },
                guarding,
                free,
            );
            let (updated, after) = member->Ok_0;
            &&& some is Ok
            &&& member is Ok
            &&& object_bodies::members_form(items, members, start, guarding, next) == Ok::<
                (Seq<(nat, Form)>, nat, nat),
                Failure,
            >((bindings.push((after, objects::visible_form(updated))), after, after + 1))
        }),
{
    reveal(object_bodies::member_form);
}

/// Locals are used in order.
proof fn members_use_later_locals(
    items: Seq<ObjectBodyDefinition>,
    members: Seq<MemberResolution>,
    start: Frame,
    guarding: Guarding,
    next: nat,
)
    requires
        start.definitions < next,
    ensures
        object_bodies::members_form(items, members, start, guarding, next) matches Ok(
            (bindings, definitions, after),
        ) ==> {
            &&& next <= after
            &&& definitions < after
            &&& definitions == (if items.len() == 0 {
                start.definitions
            } else {
                bindings.last().0
            })
            &&& bindings.len() == items.len()
            &&& forall|k: int| 0 <= k < bindings.len() ==> next <= (#[trigger] bindings[k]).0
        },
    decreases items, 1nat,
{
    if items.len() > 0 {
        let front = items.drop_last();
        members_use_later_locals(front, members.drop_last(), start, guarding, next);
        match object_bodies::members_form(front, members.drop_last(), start, guarding, next) {
            Err(_) => {},
            Ok((bindings, definitions, free)) => {
                let frame = Frame { definitions, ..start };
                member_uses_later_locals(items.last(), members.last(), frame, guarding, free);
                let found = object_bodies::members_form(items, members, start, guarding, next);
                if found is Ok {
                    members_in_turn(items, members, start, guarding, next);
                    let (all, last, after) = found->Ok_0;
                    assert(all.drop_last() =~= bindings);
                    assert(all.last().0 == last);
                    let member = object_bodies::member_form(
                        items.last(),
                        members.last(),
                        frame,
                        guarding,
                        free,
                    );
                    assert(member is Ok && last == member->Ok_0.1);
                    assert forall|k: int| 0 <= k < all.len() implies next <= (
                    #[trigger] all[k]).0 by {
                        if k < bindings.len() {
                            assert(all[k] == bindings[k]);
                        }
                    }
                }
            },
        }
    }
}

proof fn member_uses_later_locals(
    item: ObjectBodyDefinition,
    resolution: MemberResolution,
    frame: Frame,
    guarding: Guarding,
    next: nat,
)
    ensures
        object_bodies::member_form(item, resolution, frame, guarding, next) matches Ok((_, after))
            ==> next <= after,
    decreases item, 2nat,
{
    reveal(object_bodies::member_form);
    match item.kind {
        ObjectBodyDefinitionKind::Definition(_) => {},
        ObjectBodyDefinitionKind::Object(object) => {
            if let MemberResolution::Object { deps, members } = resolution {
                let guarded = object_bodies::guards(frame, guarding, object.target@);
                body_uses_later_locals(object.body@, members@, item.line as nat, guarded, guarding, next);
            }
        },
        ObjectBodyDefinitionKind::Extend(extend) => {
            if let MemberResolution::Extension { members } = resolution {
                let guarded = object_bodies::guards(frame, guarding, extend.target@);
                body_uses_later_locals(extend.body@, members@, item.line as nat, guarded, guarding, next);
            }
        },
    }
}

proof fn body_uses_later_locals(
    items: Seq<ObjectBodyDefinition>,
    members: Seq<MemberResolution>,
    line: nat,
    guarded: bool,
    guarding: Guarding,
    next: nat,
)
    ensures
        object_bodies::body_form(items, members, line, guarded, guarding, next) matches Ok((_, after))
            ==> next <= after,
    decreases items, 2nat,
{
    let start = object_bodies::first_frame(guarded, next);
    members_use_later_locals(items, members, start, guarding, start.definitions + 1);
}

/// A local is what it is in other locals.
pub open spec fn same_local<D>(e: Map<nat, D>, env: Map<nat, D>, id: nat) -> bool {
    e.contains_key(id) == env.contains_key(id) && (env.contains_key(id) ==> e[id] == env[id])
}

/// The locals that the members of a body start from.
spec fn opened<D>(
    m: Model<D>,
    env: Map<nat, D>,
    guarded: bool,
    guarding: Guarding,
    next: nat,
    base: D,
    itself: D,
) -> Map<nat, D> {
    after_lets(
        m,
        env.insert(next, base).insert(next + 1, itself),
        object_bodies::first_bindings(guarded, guarding, next),
    )
}

proof fn body_opens<D>(
    m: Model<D>,
    env: Map<nat, D>,
    guarded: bool,
    guarding: Guarding,
    next: nat,
    base: D,
    itself: D,
)
    requires
        sound(m),
    ensures
        ({
            let e = opened(m, env, guarded, guarding, next, base, itself);
            let frame = object_bodies::first_frame(guarded, next);
            &&& e.contains_key(frame.definitions)
            &&& hides_spec(m, base, e[frame.definitions])
            &&& e.contains_key(next + 1)
            &&& e[next + 1] == itself
            &&& forall|id: nat| id < next ==> #[trigger] same_local(e, env, id)
            &&& guarded ==> e.contains_key(next + 2) && e[next + 2] == meaning(
                m,
                env.insert(next, base).insert(next + 1, itself),
                compiler_values::annotator_of(
                    objects::guard_form(guarding.mark, values::local_form(next + 1)),
                    values::local_form(next + 1),
                ),
            )
        }),
{
    reveal(object_bodies::first_bindings);
    let inner = env.insert(next, base).insert(next + 1, itself);
    let first = object_bodies::first_bindings(guarded, guarding, next);
    let local = values::local_form(next);
    if guarded {
        let front = first.drop_last();
        assert(front.drop_last() =~= Seq::empty());
        assert(after_lets(m, inner, front.drop_last()) == inner);
        let mid = after_lets(m, inner, front);
        assert(mid == inner.insert(next + 2, meaning(m, inner, front.last().1)));
        semantics::meaning_of_local(m, mid, next);
        meaning_of_visible(m, mid, local);
        assert(after_lets(m, inner, first) == mid.insert(
            next + 3,
            meaning(m, mid, objects::visible_form(local)),
        ));
    } else {
        assert(first.drop_last() =~= Seq::empty());
        assert(after_lets(m, inner, first.drop_last()) == inner);
        semantics::meaning_of_local(m, inner, next);
        meaning_of_visible(m, inner, local);
        assert(after_lets(m, inner, first) == inner.insert(
            next + 2,
            meaning(m, inner, objects::visible_form(local)),
        ));
    }
}

/// What the definitions of a body give: the last of the definitions that its
/// members bind one after the other.
proof fn meaning_of_body<D>(
    m: Model<D>,
    env: Map<nat, D>,
    items: Seq<ObjectBodyDefinition>,
    members: Seq<MemberResolution>,
    line: nat,
    guarded: bool,
    guarding: Guarding,
    next: nat,
    base: D,
    itself: D,
)
    requires
        sound(m),
        object_bodies::body_form(items, members, line, guarded, guarding, next) is Ok,
    ensures
        ({
            let start = object_bodies::first_frame(guarded, next);
            let defs = object_bodies::body_form(items, members, line, guarded, guarding, next)->Ok_0.0;
            let found = object_bodies::members_form(
                items,
                members,
                start,
                guarding,
                start.definitions + 1,
            );
            let e = after_lets(
                m,
                opened(m, env, guarded, guarding, next, base, itself),
                found->Ok_0.0,
            );
            &&& found is Ok
            &&& e.contains_key(found->Ok_0.1)
            &&& given(m, meaning(m, env, defs), base, itself) == e[found->Ok_0.1]
        }),
{
    let start = object_bodies::first_frame(guarded, next);
    let found = object_bodies::members_form(items, members, start, guarding, start.definitions + 1);
    let (bindings, definitions, _) = found->Ok_0;
    let first = object_bodies::first_bindings(guarded, guarding, next);
    let tail = values::local_form(definitions);
    let body = object_bodies::nested_lets(first + bindings, tail);
    lowered_meaning::beta(m, env, seq![next, next + 1], body, seq![base, itself]);
    lowered_meaning::bound_two(env, next, next + 1, base, itself);
    let inner = env.insert(next, base).insert(next + 1, itself);
    meaning_of_lets(m, inner, first + bindings, tail);
    lets_in_turn(m, inner, first, bindings);
    let e = after_lets(m, opened(m, env, guarded, guarding, next, base, itself), bindings);
    members_use_later_locals(items, members, start, guarding, start.definitions + 1);
    body_opens(m, env, guarded, guarding, next, base, itself);
    if items.len() > 0 {
        assert(e.contains_key(definitions));
    }
    semantics::meaning_of_local(m, e, definitions);
}

/// A body without members gives what the object inherits, without the
/// specification.
pub proof fn empty_bodies_give_what_is_inherited<D>(
    m: Model<D>,
    env: Map<nat, D>,
    line: nat,
    guarded: bool,
    guarding: Guarding,
    next: nat,
    base: D,
    itself: D,
    defs: Form,
    after: nat,
)
    requires
        sound(m),
        object_bodies::body_form(Seq::empty(), Seq::empty(), line, guarded, guarding, next) == Ok::<
            (Form, nat),
            Failure,
        >((defs, after)),
    ensures
        hides_spec(m, base, given(m, meaning(m, env, defs), base, itself)),
{
    meaning_of_body(
        m,
        env,
        Seq::empty(),
        Seq::empty(),
        line,
        guarded,
        guarding,
        next,
        base,
        itself,
    );
    body_opens(m, env, guarded, guarding, next, base, itself);
}

/// What a member of a body sees: the definitions that the members before it
/// give, the object that comes out in the end, and the locals around the body.
pub open spec fn sees<D>(
    e: Map<nat, D>,
    env: Map<nat, D>,
    frame: Frame,
    next: nat,
    before: D,
    itself: D,
) -> bool {
    &&& e.contains_key(frame.definitions)
    &&& e[frame.definitions] == before
    &&& e.contains_key(frame.final_self)
    &&& e[frame.final_self] == itself
    &&& forall|id: nat| id < next ==> #[trigger] same_local(e, env, id)
}

/// What a function of one argument gives.
pub open spec fn applied_to<D>(m: Model<D>, f: D, target: D) -> D {
    (m.apply)(f, seq![target])
}

/// A function annotates what it is given for the guard of an object: a mark,
/// and the name of the object.
pub open spec fn guards_with<D>(m: Model<D>, annotator: D, mark: D, itself: D) -> bool {
    let name = (m.at)(spec_of(m, itself), named(m, "name"@));
    forall|target: D|
        #[trigger] applied_to(m, annotator, target) == (m.apply)(
            value(m, compiler_values::annotator_form()),
            seq![(m.list)(seq![mark, name]), itself, target],
        )
}

proof fn meaning_of_annotator<D>(m: Model<D>, env: Map<nat, D>, mark: Form, id: nat)
    requires
        sound(m),
        env.contains_key(id),
    ensures
        guards_with(
            m,
            meaning(
                m,
                env,
                compiler_values::annotator_of(
                    objects::guard_form(mark, values::local_form(id)),
                    values::local_form(id),
                ),
            ),
            value(m, mark),
            env[id],
        ),
{
    let here = values::local_form(id);
    let named_by = compiler_values::member(objects::spec_form(here), "name"@);
    let guard = objects::guard_form(mark, here);
    let made = compiler_values::annotator_form();
    semantics::meaning_of_local(m, env, id);
    lowered_meaning::meaning_of_spec(m, env, here);
    lowered_meaning::meaning_of_member(m, env, objects::spec_form(here), "name"@);
    semantics::meaning_of_value(m, env, mark);
    semantics::meanings_of_two(m, env, values::embedded_form(mark), named_by);
    assert(guard->Node_1 == seq![values::embedded_form(mark), named_by]);
    semantics::meaning_of_apply(m, env, values::embedded_form(made), seq![guard, here]);
    semantics::meanings_of_two(m, env, guard, here);
    semantics::meaning_of_value(m, env, made);
    let f = value(m, made);
    let g = meaning(m, env, guard);
    let itself = env[id];
    reveal(semantics::applies);
    let annotator = (m.apply)(f, seq![g, itself]);
    assert forall|target: D| #[trigger] applied_to(m, annotator, target) == (m.apply)(
        f,
        seq![g, itself, target],
    ) by {
        assert(seq![g, itself] + seq![target] =~= seq![g, itself, target]);
    }
}

/// A body with a last member, and the body without it.
proof fn last_member(
    items: Seq<ObjectBodyDefinition>,
    members: Seq<MemberResolution>,
    line: nat,
    guarded: bool,
    guarding: Guarding,
    next: nat,
)
    requires
        items.len() > 0,
        object_bodies::body_form(items, members, line, guarded, guarding, next) is Ok,
    ensures
        ({
            let start = object_bodies::first_frame(guarded, next);
            let front = items.drop_last();
            let less = members.drop_last();
            let first_free = start.definitions + 1;
            let some = object_bodies::members_form(front, less, start, guarding, first_free);
            let all = object_bodies::members_form(items, members, start, guarding, first_free);
            let (bindings, definitions, free) = some->Ok_0;
            let frame = Frame { definitions, ..start };
            let member = object_bodies::member_form(
                items.last(),
                members.last(),
                frame,
                guarding,
                free,
            );
            let (updated, after) = member->Ok_0;
            &&& some is Ok
            &&& all is Ok
            &&& member is Ok
            &&& all->Ok_0.0 == bindings.push((after, objects::visible_form(updated)))
            &&& all->Ok_0.1 == after
            &&& object_bodies::body_form(front, less, line, guarded, guarding, next) is Ok
        }),
{
    let start = object_bodies::first_frame(guarded, next);
    let front = items.drop_last();
    let less = members.drop_last();
    let first_free = start.definitions + 1;
    let some = object_bodies::members_form(front, less, start, guarding, first_free);
    let all = object_bodies::members_form(items, members, start, guarding, first_free);
    assert(members.len() == items.len());
    assert(all is Ok);
    members_in_turn(items, members, start, guarding, first_free);
    let (bindings, definitions, free) = some->Ok_0;
    let frame = Frame { definitions, ..start };
    let member = object_bodies::member_form(items.last(), members.last(), frame, guarding, free);
    assert(member is Ok);
    let (updated, after) = member->Ok_0;
    assert(all->Ok_0 == (
        bindings.push((after, objects::visible_form(updated))),
        after,
        after + 1,
    ));
    assert(object_bodies::body_form(front, less, line, guarded, guarding, next) is Ok);
}

/// The locals around a body, and the object itself, stay as they are.
proof fn members_are_seen<D>(
    m: Model<D>,
    env: Map<nat, D>,
    items: Seq<ObjectBodyDefinition>,
    members: Seq<MemberResolution>,
    guarded: bool,
    guarding: Guarding,
    next: nat,
    base: D,
    itself: D,
)
    requires
        sound(m),
    ensures
        ({
            let start = object_bodies::first_frame(guarded, next);
            object_bodies::members_form(items, members, start, guarding, start.definitions + 1)
                matches Ok((bindings, _, _)) ==> {
                let e = after_lets(
                    m,
                    opened(m, env, guarded, guarding, next, base, itself),
                    bindings,
                );
                &&& e.contains_key(next + 1)
                &&& e[next + 1] == itself
                &&& guarded ==> e.contains_key(next + 2) && guards_with(
                    m,
                    e[next + 2],
                    value(m, guarding.mark),
                    itself,
                )
                &&& forall|id: nat| id < next ==> #[trigger] same_local(e, env, id)
            }
        }),
{
    let start = object_bodies::first_frame(guarded, next);
    let some = object_bodies::members_form(items, members, start, guarding, start.definitions + 1);
    members_use_later_locals(items, members, start, guarding, start.definitions + 1);
    body_opens(m, env, guarded, guarding, next, base, itself);
    if some is Ok {
        let bindings = some->Ok_0.0;
        let open = opened(m, env, guarded, guarding, next, base, itself);
        let e = after_lets(m, open, bindings);
        lets_keep(m, open, bindings, next + 1);
        if guarded {
            lets_keep(m, open, bindings, next + 2);
            let inner = env.insert(next, base).insert(next + 1, itself);
            meaning_of_annotator(m, inner, guarding.mark, next + 1);
        }
        assert forall|id: nat| id < next implies #[trigger] same_local(e, env, id) by {
            assert(same_local(open, env, id));
            lets_keep(m, open, bindings, id);
        }
    }
}

/// The members of a body follow each other: the last one makes what the body
/// gives, but for the specification, of what the body without it gives.
pub proof fn members_follow_each_other<D>(
    m: Model<D>,
    env: Map<nat, D>,
    items: Seq<ObjectBodyDefinition>,
    members: Seq<MemberResolution>,
    line: nat,
    guarded: bool,
    guarding: Guarding,
    next: nat,
    base: D,
    itself: D,
) -> (seen: (Map<nat, D>, Frame, nat))
    requires
        sound(m),
        items.len() > 0,
        object_bodies::body_form(items, members, line, guarded, guarding, next) is Ok,
    ensures
        ({
            let defs = object_bodies::body_form(items, members, line, guarded, guarding, next)->Ok_0.0;
            let earlier = object_bodies::body_form(
                items.drop_last(),
                members.drop_last(),
                line,
                guarded,
                guarding,
                next,
            );
            let (e, frame, free) = seen;
            let member = object_bodies::member_form(
                items.last(),
                members.last(),
                frame,
                guarding,
                free,
            );
            &&& earlier is Ok
            &&& sees(
                e,
                env,
                frame,
                next,
                given(m, meaning(m, env, earlier->Ok_0.0), base, itself),
                itself,
            )
            &&& frame.annotator is Some == guarded
            &&& guarded ==> e.contains_key(frame.annotator->0) && guards_with(
                m,
                e[frame.annotator->0],
                value(m, guarding.mark),
                itself,
            )
            &&& member is Ok
            &&& hides_spec(
                m,
                meaning(m, e, member->Ok_0.0),
                given(m, meaning(m, env, defs), base, itself),
            )
        }),
{
    last_member(items, members, line, guarded, guarding, next);
    let start = object_bodies::first_frame(guarded, next);
    let front = items.drop_last();
    let less = members.drop_last();
    let first_free = start.definitions + 1;
    let some = object_bodies::members_form(front, less, start, guarding, first_free);
    let all = object_bodies::members_form(items, members, start, guarding, first_free);
    let (bindings, definitions, free) = some->Ok_0;
    let frame = Frame { definitions, ..start };
    let member = object_bodies::member_form(items.last(), members.last(), frame, guarding, free);
    let (updated, after) = member->Ok_0;
    meaning_of_body(m, env, items, members, line, guarded, guarding, next, base, itself);
    meaning_of_body(m, env, front, less, line, guarded, guarding, next, base, itself);
    let open = opened(m, env, guarded, guarding, next, base, itself);
    let e = after_lets(m, open, bindings);
    members_are_seen(m, env, front, less, guarded, guarding, next, base, itself);
    meaning_of_visible(m, e, updated);
    assert(all->Ok_0.0.drop_last() =~= bindings);
    assert(all->Ok_0.0.last() == (after, objects::visible_form(updated)));
    assert(after_lets(m, open, all->Ok_0.0) == e.insert(
        after,
        meaning(m, e, objects::visible_form(updated)),
    ));
    (e, frame, free)
}

} // verus!
