//! The definitions of an object, member after member.
//!
//! Every member sees the definitions that the members before it leave, in a
//! local of their own. The locals of a body are numbered as they are bound: the
//! definitions before the object, those that it ends up with, the guard where
//! there is one, the definitions that the first member sees, and then for every
//! member the locals of its own body and the definitions that it leaves. So
//! what resolution gives for a member can name them.

use vstd::prelude::*;
use crate::ast::{ObjectBodyDefinition, ObjectBodyDefinitionKind, ObjectDecl, ObjectExtendDecl};
use crate::compiler_values;
use crate::compiler_values::GCompilerValues;
use crate::definitions;
use crate::definitions::{
    automatic_reflection_for_declared_target, is_written, lower_definition_resolved,
    DefinitionTarget, NameScope, ReflectionBoundary, ResolvedRoot,
};
use crate::diagnostic;
use crate::diagnostic::Diagnostic;
use crate::objects;
use crate::objects::{
    hierarchical_object_name_resolved, lower_extend, lower_nested_object_resolved,
    object_decl_resolved_in_scope, ObjectBody,
};
use crate::text;
use crate::values;
use crate::values::{BindingId, Builtin, Form, ResolvedExpr, ResolverContext, Value};

verus! {

/// What resolution gave for a member of an object body.
#[derive(Debug, PartialEq, Eq)]
pub enum MemberResolution {
    /// The target of a definition, where parts of it are computed, and its
    /// code.
    Definition { computed: Option<DefinitionTarget>, code: ResolvedExpr },
    /// The objects that an object extends, and its members.
    Object { deps: Vec<ResolvedExpr>, members: Vec<MemberResolution> },
    Extension { members: Vec<MemberResolution> },
}

/// The locals that a member sees.
pub struct Frame {
    pub final_self: nat,
    pub annotator: Option<nat>,
    pub definitions: nat,
}

/// How the bodies of objects are guarded.
pub struct Guarding {
    pub mark: Form,
    pub automatic: bool,
}

/// A line and what is wrong there.
pub type Failure = (nat, Seq<char>);

pub open spec fn crowded_message() -> Seq<char> {
    "object body uses too many locals"@
}

pub open spec fn mismatch_message() -> Seq<char> {
    "internal error resolving object member"@
}

pub open spec fn root_at(id: nat) -> ResolvedRoot {
    ResolvedRoot::Local(BindingId(id as usize))
}

/// The scope of a member, as far as what it defines depends on it.
pub open spec fn scope_at(frame: Frame) -> NameScope {
    NameScope {
        final_defs: root_at(frame.final_self),
        prior_defs: root_at(frame.definitions),
        module_final_defs: root_at(frame.final_self),
        module_prior_defs: root_at(frame.definitions),
        object_alias: None,
        object_final_defs: Some(root_at(frame.final_self)),
        object_prior_defs: Some(root_at(frame.definitions)),
        reflection: match frame.annotator {
            Some(id) => Some(ReflectionBoundary { annotator: root_at(id) }),
            None => None,
        },
        parent: None,
    }
}

/// Whether the body of an object that is declared in another is guarded.
pub open spec fn guards(frame: Frame, guarding: Guarding, target: Seq<char>) -> bool {
    frame.annotator is Some && guarding.automatic && !definitions::reflective(
        text::dotted(target)[0],
    )
}

/// The definitions that a member leaves, and the next free local.
#[verifier::opaque]
pub open spec fn member_form(
    item: ObjectBodyDefinition,
    resolution: MemberResolution,
    frame: Frame,
    guarding: Guarding,
    next: nat,
) -> Result<(Form, nat), Failure>
    decreases item, 0nat,
{
    let line = item.line as nat;
    let seen = values::local_form(frame.definitions);
    match item.kind {
        ObjectBodyDefinitionKind::Definition(definition) => match resolution {
            MemberResolution::Definition { computed, code } => if definitions::written(
                definition.target@,
            ) || computed is Some {
                match definitions::defined(
                    definition,
                    definitions::target_of(definition, computed),
                    code,
                    root_at(frame.definitions),
                    scope_at(frame),
                ) {
                    Ok(form) => Ok((form, next)),
                    Err(message) => Err((line, message)),
                }
            } else {
                Err((line, mismatch_message()))
            },
            _ => Err((line, mismatch_message())),
        },
        ObjectBodyDefinitionKind::Object(object) => match resolution {
            MemberResolution::Object { deps, members } => match body_form(
                object.body@,
                members@,
                line,
                guards(frame, guarding, object.target@),
                guarding,
                next,
            ) {
                Err(failure) => Err(failure),
                Ok((defs, after)) => Ok(
                    (
                        objects::declared_form(
                            "assert_undefined"@,
                            object.target@,
                            objects::instance_form(
                                values::call_form(
                                    Builtin::ObjectLocalName,
                                    seq![
                                        values::local_form(frame.final_self),
                                        definitions::static_path_form(object.target@),
                                    ],
                                ),
                                values::list_form(
                                    objects::specs_form(values::codes_form(deps@)),
                                ),
                                defs,
                            ),
                            seen,
                        ),
                        after,
                    ),
                ),
            },
            _ => Err((line, mismatch_message())),
        },
        ObjectBodyDefinitionKind::Extend(extend) => match resolution {
            MemberResolution::Extension { members } => match body_form(
                extend.body@,
                members@,
                line,
                guards(frame, guarding, extend.target@),
                guarding,
                next,
            ) {
                Err(failure) => Err(failure),
                Ok((defs, after)) => if after + 3 > usize::MAX {
                    Err((line, crowded_message()))
                } else {
                    Ok(
                        (
                            objects::declared_form(
                                "assert_defined"@,
                                extend.target@,
                                objects::extended_form(extend.target@, defs, seen, after),
                                seen,
                            ),
                            after + 3,
                        ),
                    )
                },
            },
            _ => Err((line, mismatch_message())),
        },
    }
}

/// What the members of a body bind, the last definitions, and the next free
/// local.
pub open spec fn members_form(
    items: Seq<ObjectBodyDefinition>,
    members: Seq<MemberResolution>,
    start: Frame,
    guarding: Guarding,
    next: nat,
) -> Result<(Seq<(nat, Form)>, nat, nat), Failure>
    decreases items, 0nat,
{
    if items.len() == 0 {
        Ok((Seq::empty(), start.definitions, next))
    } else {
        match members_form(items.drop_last(), members.drop_last(), start, guarding, next) {
            Err(failure) => Err(failure),
            Ok((bindings, definitions, free)) => match member_form(
                items.last(),
                members.last(),
                Frame { definitions, ..start },
                guarding,
                free,
            ) {
                Err(failure) => Err(failure),
                Ok((updated, after)) => if after >= usize::MAX {
                    Err((items.last().line as nat, crowded_message()))
                } else {
                    Ok(
                        (
                            bindings.push((after, objects::visible_form(updated))),
                            after,
                            after + 1,
                        ),
                    )
                },
            },
        }
    }
}

/// Locals for values, the first outermost.
pub open spec fn nested_lets(bindings: Seq<(nat, Form)>, body: Form) -> Form
    decreases bindings.len(),
{
    if bindings.len() == 0 {
        body
    } else {
        let (id, value) = bindings.last();
        nested_lets(bindings.drop_last(), objects::let_form(id, value, body))
    }
}

/// The locals that a body begins with.
pub open spec fn first_frame(guarded: bool, next: nat) -> Frame {
    Frame {
        final_self: next + 1,
        annotator: if guarded {
            Some(next + 2)
        } else {
            None
        },
        definitions: if guarded {
            next + 3
        } else {
            next + 2
        },
    }
}

/// What a body binds before its first member.
#[verifier::opaque]
pub open spec fn first_bindings(guarded: bool, guarding: Guarding, next: nat) -> Seq<(nat, Form)> {
    let final_self = values::local_form(next + 1);
    let visible = objects::visible_form(values::local_form(next));
    if guarded {
        seq![
            (
                next + 2,
                compiler_values::annotator_of(
                    objects::guard_form(guarding.mark, final_self),
                    final_self,
                ),
            ),
            (next + 3, visible),
        ]
    } else {
        seq![(next + 2, visible)]
    }
}

/// The definitions of a body: a function of those before the object and of
/// those that it ends up with. The next free local comes with them.
pub open spec fn body_form(
    items: Seq<ObjectBodyDefinition>,
    members: Seq<MemberResolution>,
    line: nat,
    guarded: bool,
    guarding: Guarding,
    next: nat,
) -> Result<(Form, nat), Failure>
    decreases items, 1nat,
{
    let start = first_frame(guarded, next);
    if members.len() != items.len() {
        Err((line, mismatch_message()))
    } else if next + 4 > usize::MAX {
        Err((line, crowded_message()))
    } else {
        match members_form(items, members, start, guarding, start.definitions + 1) {
            Err(failure) => Err(failure),
            Ok((bindings, definitions, after)) => Ok(
                (
                    values::lambda_form(
                        seq![next, next + 1],
                        nested_lets(
                            first_bindings(guarded, guarding, next) + bindings,
                            values::local_form(definitions),
                        ),
                    ),
                    after,
                ),
            ),
        }
    }
}

/// Bindings by their forms.
pub open spec fn binding_forms(bindings: Seq<(BindingId, ResolvedExpr)>) -> Seq<(nat, Form)> {
    bindings.map_values(
        |binding: (BindingId, ResolvedExpr)|
            (binding.0.0 as nat, values::code_form(binding.1)),
    )
}

proof fn wrapping_by_forms(bindings: Seq<(BindingId, ResolvedExpr)>, body: Form)
    ensures
        objects::wrapped(bindings, body) == nested_lets(binding_forms(bindings), body),
    decreases bindings.len(),
{
    if bindings.len() > 0 {
        let (id, value) = bindings.last();
        assert(binding_forms(bindings).drop_last() =~= binding_forms(bindings.drop_last()));
        assert(binding_forms(bindings).last() == (id.0 as nat, values::code_form(value)));
        wrapping_by_forms(
            bindings.drop_last(),
            objects::let_form(id.0 as nat, values::code_form(value), body),
        );
    }
}

/// What is wrong with the first members is what is wrong with all of them.
proof fn members_fail(
    items: Seq<ObjectBodyDefinition>,
    members: Seq<MemberResolution>,
    k: int,
    start: Frame,
    guarding: Guarding,
    next: nat,
)
    requires
        0 <= k <= items.len(),
        members.len() == items.len(),
        members_form(items.take(k), members.take(k), start, guarding, next) is Err,
    ensures
        members_form(items, members, start, guarding, next) == members_form(
            items.take(k),
            members.take(k),
            start,
            guarding,
            next,
        ),
    decreases items.len(),
{
    if k < items.len() {
        assert(items.drop_last().take(k) =~= items.take(k));
        assert(members.drop_last().take(k) =~= members.take(k));
        members_fail(items.drop_last(), members.drop_last(), k, start, guarding, next);
    } else {
        assert(items.take(k) =~= items);
        assert(members.take(k) =~= members);
    }
}

/// The locals that the next member of a body sees.
pub open spec fn frame_of(body: ObjectBody) -> Frame {
    Frame {
        final_self: body.final_self.0 as nat,
        annotator: match body.annotator {
            Some(id) => Some(id.0 as nat),
            None => None,
        },
        definitions: body.definitions.0 as nat,
    }
}

/// A failure as it is reported.
pub open spec fn fails(result: Result<ResolvedExpr, Diagnostic>, failure: Failure) -> bool {
    result matches Err(found) && found@ == diagnostic::error_at(failure.0, failure.1)
}

/// Earlier locals stay where they are.
pub open spec fn keeps_locals(before: ResolverContext, after: ResolverContext) -> bool {
    &&& after.names@.len() >= before.names@.len()
    &&& after.names@.take(before.names@.len() as int) == before.names@
}

/// Begins a body.
fn begin_body(
    compiler: &GCompilerValues,
    locals: &mut ResolverContext,
    guarded: bool,
    mark: &Value,
    Ghost(automatic): Ghost<bool>,
) -> (body: ObjectBody)
    requires
        compiler.wf(),
        old(locals).next <= usize::MAX - 4,
    ensures
        ({
            let first = old(locals).next as nat;
            let guarding = Guarding { mark: values::value_form(*mark), automatic };
            &&& binding_forms(body.bindings@) == first_bindings(guarded, guarding, first)
            &&& frame_of(body) == first_frame(guarded, first)
            &&& body.prior_self.0 == first
            &&& body.base_len == old(locals).names@.len()
            &&& keeps_locals(*old(locals), *final(locals))
            &&& final(locals).next == first_frame(guarded, first).definitions + 1
        }),
{
    proof {
        reveal(first_bindings);
    }
    let ghost first = locals.next as nat;
    let own = if guarded {
        Some(mark.copy())
    } else {
        None
    };
    let body = ObjectBody::begin(compiler, locals, own);
    assert(binding_forms(body.bindings@) =~= first_bindings(
        guarded,
        Guarding { mark: values::value_form(*mark), automatic },
        first,
    ));
    body
}

/// Adds a member to a body.
fn add_member(
    item: &ObjectBodyDefinition,
    resolution: MemberResolution,
    compiler: &GCompilerValues,
    body: &mut ObjectBody,
    alias: Option<&str>,
    parent: &NameScope,
    locals: &mut ResolverContext,
    mark: &Value,
    automatic: bool,
) -> (result: Result<(), Diagnostic>)
    requires
        compiler.wf(),
    ensures
        match member_form(
            *item,
            resolution,
            frame_of(*old(body)),
            Guarding { mark: values::value_form(*mark), automatic },
            old(locals).next as nat,
        ) {
            Err(failure) => result matches Err(found) && found@ == diagnostic::error_at(
                failure.0,
                failure.1,
            ),
            Ok((updated, after)) => if after >= usize::MAX {
                result matches Err(found) && found@ == diagnostic::error_at(
                    item.line as nat,
                    crowded_message(),
                )
            } else {
                &&& result is Ok
                &&& binding_forms(final(body).bindings@) == binding_forms(
                    old(body).bindings@,
                ).push((after, objects::visible_form(updated)))
                &&& frame_of(*final(body)) == (Frame {
                    definitions: after,
                    ..frame_of(*old(body))
                })
                &&& final(body).prior_self == old(body).prior_self
                &&& final(body).base_len == old(body).base_len
                &&& final(locals).next == after + 1
                &&& keeps_locals(*old(locals), *final(locals))
            },
        },
    decreases item, 1nat,
{
    let ghost before = *locals;
    let scope = body.scope(alias, parent.copy());
    let updated = match lower_object_body_item_resolved(
        item,
        resolution,
        compiler,
        body,
        &scope,
        locals,
        mark,
        automatic,
    ) {
        Ok(updated) => updated,
        Err(error) => {
            return Err(error);
        },
    };
    if locals.next == usize::MAX {
        return Err(Diagnostic::error(item.line, "object body uses too many locals"));
    }
    let ghost middle = *locals;
    body.add(locals, updated);
    proof {
        let new = (body.definitions.0 as nat, values::code_form(body.bindings@.last().1));
        assert(binding_forms(body.bindings@) =~= binding_forms(old(body).bindings@).push(new)) by {
            assert(body.bindings@.drop_last() == old(body).bindings@);
        }
        let n = before.names@.len() as int;
        assert(locals.names@.take(n) =~= middle.names@.take(n)) by {
            assert(locals.names@.drop_last() == middle.names@);
        }
    }
    Ok(())
}

/// The definitions of an object, from the resolutions of its members.
#[verifier::spinoff_prover]
pub fn object_body_defs_resolved_in_scope(
    items: &Vec<ObjectBodyDefinition>,
    members: Vec<MemberResolution>,
    alias: Option<&str>,
    line: usize,
    compiler: &GCompilerValues,
    parent: &NameScope,
    locals: &mut ResolverContext,
    guarded: bool,
    mark: &Value,
    automatic: bool,
) -> (result: Result<ResolvedExpr, Diagnostic>)
    requires
        compiler.wf(),
    ensures
        match body_form(
            items@,
            members@,
            line as nat,
            guarded,
            Guarding { mark: values::value_form(*mark), automatic },
            old(locals).next as nat,
        ) {
            Ok((form, next)) => result matches Ok(code) && values::code_form(code) == form
                && final(locals).next == next && final(locals).names@ == old(locals).names@,
            Err(failure) => fails(result, failure),
        },
    decreases items, 1nat,
{
    let ghost guarding = Guarding { mark: values::value_form(*mark), automatic };
    let ghost all = items@;
    let ghost parts = members@;
    let ghost first = locals.next as nat;
    let ghost start = first_frame(guarded, first);
    let ghost lead = first_bindings(guarded, guarding, first);
    let ghost from = *locals;
    if members.len() != items.len() {
        return Err(Diagnostic::error(line, "internal error resolving object member"));
    }
    if locals.next > usize::MAX - 4 {
        return Err(Diagnostic::error(line, "object body uses too many locals"));
    }
    let mut body = begin_body(compiler, locals, guarded, mark, Ghost(automatic));
    let mut rest = members;
    let mut k: usize = 0;
    proof {
        assert(all.take(0) =~= Seq::empty());
        assert(parts.take(0) =~= Seq::empty());
        assert(parts.skip(0) =~= parts);
        assert(lead + Seq::<(nat, Form)>::empty() =~= lead);
    }
    while k < items.len()
        invariant
            compiler.wf(),
            all == items@,
            parts == members@,
            first == old(locals).next,
            parts.len() == all.len(),
            k <= items.len(),
            rest@ == parts.skip(k as int),
            guarding == (Guarding { mark: values::value_form(*mark), automatic }),
            frame_of(body).final_self == start.final_self,
            frame_of(body).annotator == start.annotator,
            body.prior_self.0 == first,
            body.base_len == from.names@.len(),
            keeps_locals(from, *locals),
            members_form(
                all.take(k as int),
                parts.take(k as int),
                start,
                guarding,
                start.definitions + 1,
            ) matches Ok((bindings, definitions, next)) && binding_forms(body.bindings@) == lead
                + bindings && body.definitions.0 == definitions && locals.next == next,
            members_form(all, parts, start, guarding, start.definitions + 1) matches Err(failure)
                ==> body_form(all, parts, line as nat, guarded, guarding, first) == Err::<
                (Form, nat),
                Failure,
            >(failure),
        decreases items.len() - k,
    {
        let ghost before = *locals;
        let ghost held = body;
        proof {
            assert(all.take(k + 1).drop_last() =~= all.take(k as int));
            assert(parts.take(k + 1).drop_last() =~= parts.take(k as int));
            assert(all.take(k + 1).last() == all[k as int]);
            assert(parts.take(k + 1).last() == parts[k as int]);
            assert(rest@[0] == parts[k as int]);
            if members_form(
                all.take(k + 1),
                parts.take(k + 1),
                start,
                guarding,
                start.definitions + 1,
            ) is Err {
                members_fail(all, parts, k + 1, start, guarding, start.definitions + 1);
            }
            assert(frame_of(held) == (Frame { definitions: body.definitions.0 as nat, ..start }));
        }
        let resolution = rest.remove(0);
        assert(rest@ =~= parts.skip(k + 1));
        match add_member(
            &items[k],
            resolution,
            compiler,
            &mut body,
            alias,
            parent,
            locals,
            mark,
            automatic,
        ) {
            Ok(_) => {},
            Err(error) => {
                return Err(error);
            },
        }
        proof {
            let n = from.names@.len() as int;
            assert(locals.names@.take(n) =~= before.names@.take(n)) by {
                assert(locals.names@.take(before.names@.len() as int) == before.names@);
            }
            let done = members_form(
                all.take(k as int),
                parts.take(k as int),
                start,
                guarding,
                start.definitions + 1,
            )->Ok_0.0;
            let new = binding_forms(body.bindings@).last();
            assert((lead + done).push(new) =~= lead + done.push(new));
        }
        k = k + 1;
    }
    proof {
        assert(all.take(k as int) =~= all);
        assert(parts.take(k as int) =~= parts);
        wrapping_by_forms(body.bindings@, values::local_form(body.definitions.0 as nat));
    }
    Ok(body.finish(locals))
}

/// The definitions that a member leaves.
pub fn lower_object_body_item_resolved(
    item: &ObjectBodyDefinition,
    resolution: MemberResolution,
    compiler: &GCompilerValues,
    body: &ObjectBody,
    scope: &NameScope,
    locals: &mut ResolverContext,
    mark: &Value,
    automatic: bool,
) -> (result: Result<ResolvedExpr, Diagnostic>)
    requires
        compiler.wf(),
        scope.object_final_defs == Some(ResolvedRoot::Local(body.final_self)),
        scope.reflection == match body.annotator {
            Some(id) => Some(ReflectionBoundary { annotator: ResolvedRoot::Local(id) }),
            None => None,
        },
    ensures
        match member_form(
            *item,
            resolution,
            frame_of(*body),
            Guarding { mark: values::value_form(*mark), automatic },
            old(locals).next as nat,
        ) {
            Ok((form, next)) => result matches Ok(code) && values::code_form(code) == form
                && final(locals).next == next && keeps_locals(*old(locals), *final(locals)),
            Err(failure) => fails(result, failure),
        },
    decreases item, 0nat,
{
    proof {
        reveal(member_form);
    }
    let ghost kept = locals.names@;
    let line = item.line;
    let seen = ResolvedRoot::Local(body.definitions);
    assert(kept.take(kept.len() as int) =~= kept);
    match &item.kind {
        ObjectBodyDefinitionKind::Definition(definition) => match resolution {
            MemberResolution::Definition { computed, code } => {
                if computed.is_none() && !is_written(&definition.target) {
                    return Err(Diagnostic::error(line, "internal error resolving object member"));
                }
                assert(definitions::defined(
                    *definition,
                    definitions::target_of(*definition, computed),
                    code,
                    seen,
                    *scope,
                ) == definitions::defined(
                    *definition,
                    definitions::target_of(*definition, computed),
                    code,
                    root_at(body.definitions.0 as nat),
                    scope_at(frame_of(*body)),
                ));
                lower_definition_resolved(definition, computed, code, line, &seen, scope)
            },
            _ => Err(Diagnostic::error(line, "internal error resolving object member")),
        },
        ObjectBodyDefinitionKind::Object(object) => match resolution {
            MemberResolution::Object { deps, members } => lower_member_object(
                object,
                deps,
                members,
                line,
                compiler,
                body,
                scope,
                locals,
                mark,
                automatic,
            ),
            _ => Err(Diagnostic::error(line, "internal error resolving object member")),
        },
        ObjectBodyDefinitionKind::Extend(extend) => match resolution {
            MemberResolution::Extension { members } => {
                let guarded = body.annotator.is_some() && automatic_reflection_for_declared_target(
                    extend.target.as_str(),
                    automatic,
                );
                let alias = match &extend.alias {
                    Some(alias) => Some(alias.as_str()),
                    None => None,
                };
                let defs = match object_body_defs_resolved_in_scope(
                    &extend.body,
                    members,
                    alias,
                    line,
                    compiler,
                    scope,
                    locals,
                    guarded,
                    mark,
                    automatic,
                ) {
                    Ok(defs) => defs,
                    Err(error) => {
                        return Err(error);
                    },
                };
                if locals.next > usize::MAX - 3 {
                    return Err(Diagnostic::error(line, "object body uses too many locals"));
                }
                Ok(lower_extend(extend.target.as_str(), defs, line, &seen, locals))
            },
            _ => Err(Diagnostic::error(line, "internal error resolving object member")),
        },
    }
}

/// The definitions that an object leaves in the body of another.
fn lower_member_object(
    object: &ObjectDecl,
    deps: Vec<ResolvedExpr>,
    members: Vec<MemberResolution>,
    line: usize,
    compiler: &GCompilerValues,
    body: &ObjectBody,
    scope: &NameScope,
    locals: &mut ResolverContext,
    mark: &Value,
    automatic: bool,
) -> (result: Result<ResolvedExpr, Diagnostic>)
    requires
        compiler.wf(),
        scope.object_final_defs == Some(ResolvedRoot::Local(body.final_self)),
    ensures
        ({
            let guarding = Guarding { mark: values::value_form(*mark), automatic };
            match body_form(
                object.body@,
                members@,
                line as nat,
                guards(frame_of(*body), guarding, object.target@),
                guarding,
                old(locals).next as nat,
            ) {
                Ok((defs, next)) => result matches Ok(code) && values::code_form(code)
                    == objects::declared_form(
                    "assert_undefined"@,
                    object.target@,
                    objects::instance_form(
                        values::call_form(
                            Builtin::ObjectLocalName,
                            seq![
                                values::local_form(body.final_self.0 as nat),
                                definitions::static_path_form(object.target@),
                            ],
                        ),
                        values::list_form(objects::specs_form(values::codes_form(deps@))),
                        defs,
                    ),
                    values::local_form(body.definitions.0 as nat),
                ) && final(locals).next == next && final(locals).names@ == old(locals).names@,
                Err(failure) => fails(result, failure),
            }
        }),
    decreases object, 2nat,
{
    let guarded = body.annotator.is_some() && automatic_reflection_for_declared_target(
        object.target.as_str(),
        automatic,
    );
    let alias = match &object.alias {
        Some(alias) => Some(alias.as_str()),
        None => None,
    };
    let defs = match object_body_defs_resolved_in_scope(
        &object.body,
        members,
        alias,
        line,
        compiler,
        scope,
        locals,
        guarded,
        mark,
        automatic,
    ) {
        Ok(defs) => defs,
        Err(error) => {
            return Err(error);
        },
    };
    match hierarchical_object_name_resolved(object.target.as_str(), line, scope) {
        Ok(name) => Ok(
            lower_nested_object_resolved(
                object.target.as_str(),
                object_decl_resolved_in_scope(name, deps, defs),
                line,
                &ResolvedRoot::Local(body.definitions),
            ),
        ),
        Err(error) => Err(error),
    }
}

} // verus!
