//! Objects: the code that assembles them, and the code of their bodies.
//!
//! The members of a body are resolved one after the other, each in the scope
//! that the members before it leave. `ObjectBody` holds what is known between
//! two members.

use vstd::prelude::*;
use crate::compiler_values;
use crate::compiler_values::{
    apply_builtin, both, member_code, reflection_annotator_resolved, update_code, GCompilerValues,
};
use crate::definitions;
use crate::definitions::{
    path_resolved_in_definitions, static_path_resolved, static_target, update_module_resolved,
    BuiltinAssertion, DefinitionTarget, DefinitionTargetContext, NameScope, ReflectionBoundary,
    ResolvedRoot,
};
use crate::diagnostic;
use crate::diagnostic::Diagnostic;
use crate::names;
use crate::names::local_name_metadata;
use crate::text;
use crate::values;
use crate::values::{
    lower_resolved_expr, one, three, two, BindingId, Builtin, Form, ResolvedExpr, ResolverContext,
    Value,
};

verus! {

pub open spec fn spec_form(object: Form) -> Form {
    values::call_form(Builtin::ObjectSpec, seq![object])
}

/// The specification of an object.
pub fn object_spec_resolved(value: ResolvedExpr) -> (code: ResolvedExpr)
    ensures
        values::code_form(code) == spec_form(values::code_form(value)),
{
    apply_builtin(Builtin::ObjectSpec, one(value))
}

pub open spec fn instance_form(name: Form, deps: Form, defs: Form) -> Form {
    values::call_form(Builtin::ObjectInstanceFromParts, seq![name, deps, defs])
}

/// The object with a name, dependencies and definitions.
pub fn object_instance_from_parts_resolved(
    name: ResolvedExpr,
    deps: ResolvedExpr,
    defs: ResolvedExpr,
) -> (code: ResolvedExpr)
    ensures
        values::code_form(code) == instance_form(
            values::code_form(name),
            values::code_form(deps),
            values::code_form(defs),
        ),
{
    apply_builtin(Builtin::ObjectInstanceFromParts, three(name, deps, defs))
}

pub fn object_instance_from_parts_value(name: Value, deps: Value, defs: Value) -> (value: Value)
    ensures
        values::value_form(value) == values::lazy_form(
            instance_form(
                values::provided_form(values::value_form(name)),
                values::provided_form(values::value_form(deps)),
                values::provided_form(values::value_form(defs)),
            ),
        ),
{
    lower_resolved_expr(
        object_instance_from_parts_resolved(
            ResolvedExpr::provided(name),
            ResolvedExpr::provided(deps),
            ResolvedExpr::provided(defs),
        ),
    )
}

/// Definitions without the specification of their object.
pub open spec fn visible_form(definitions: Form) -> Form {
    compiler_values::update_form(
        "spec"@,
        values::embedded_form(values::empty_dict_form()),
        definitions,
    )
}

pub fn remove_object_spec_resolved(value: ResolvedExpr) -> (code: ResolvedExpr)
    ensures
        values::code_form(code) == visible_form(values::code_form(value)),
{
    update_code("spec", ResolvedExpr::embedded(Value::empty_dict()), value)
}

/// What identifies the reflection tasks of an object: a mark, and the name of
/// the object.
pub open spec fn guard_form(mark: Form, final_defs: Form) -> Form {
    values::list_form(
        seq![
            values::embedded_form(mark),
            compiler_values::member(spec_form(final_defs), "name"@),
        ],
    )
}

pub fn object_reflection_guard_resolved(mark: Value, object_final_defs: ResolvedExpr) -> (code:
    ResolvedExpr)
    ensures
        values::code_form(code) == guard_form(
            values::value_form(mark),
            values::code_form(object_final_defs),
        ),
{
    ResolvedExpr::list(
        two(
            ResolvedExpr::embedded(mark),
            member_code(object_spec_resolved(object_final_defs), "name"),
        ),
    )
}

/// The name of an object that is declared in another.
pub fn hierarchical_object_name_resolved(target: &str, line: usize, scope: &NameScope) -> (result:
    Result<ResolvedExpr, Diagnostic>)
    ensures
        match scope.object_final_defs {
            Some(host) => result matches Ok(code) && values::code_form(code) == values::call_form(
                Builtin::ObjectLocalName,
                seq![definitions::root_form(host), definitions::static_path_form(target@)],
            ),
            None => result matches Err(found) && found@ == diagnostic::error_at(
                line as nat,
                "nested object declaration requires an object scope"@,
            ),
        },
{
    match &scope.object_final_defs {
        Some(host) => Ok(
            apply_builtin(
                Builtin::ObjectLocalName,
                two(host.expr(), static_path_resolved(target)),
            ),
        ),
        None => Err(
            Diagnostic::error(line, "nested object declaration requires an object scope"),
        ),
    }
}

/// The specifications of objects, in order.
pub open spec fn specs_form(deps: Seq<Form>) -> Seq<Form> {
    deps.map_values(|dep: Form| spec_form(dep))
}

/// The object that a declaration assembles from its resolved parts.
pub fn object_decl_resolved_in_scope(
    name: ResolvedExpr,
    deps: Vec<ResolvedExpr>,
    defs: ResolvedExpr,
) -> (code: ResolvedExpr)
    ensures
        values::code_form(code) == instance_form(
            values::code_form(name),
            values::list_form(specs_form(values::codes_form(deps@))),
            values::code_form(defs),
        ),
{
    let ghost all = specs_form(values::codes_form(deps@));
    let ghost given = deps@;
    let mut rest = deps;
    let mut specs: Vec<ResolvedExpr> = Vec::new();
    proof {
        values::codes_form_at(given);
        values::no_forms();
        assert(specs@ =~= Seq::empty());
        assert(all.take(0) =~= Seq::empty());
    }
    while rest.len() > 0
        invariant
            rest@.len() + specs@.len() == given.len(),
            rest@ =~= given.skip(specs@.len() as int),
            all == specs_form(values::codes_form(given)),
            all.len() == given.len(),
            values::codes_form(given).len() == given.len(),
            forall|i: int|
                0 <= i < given.len() ==> #[trigger] values::codes_form(given)[i]
                    == values::code_form(given[i]),
            values::codes_form(specs@) == all.take(specs@.len() as int),
        decreases rest.len(),
    {
        let ghost k = specs@.len() as int;
        assert(rest@[0] == given[k]);
        let dep = rest.remove(0);
        let spec_code = object_spec_resolved(dep);
        proof {
            values::codes_form_push(specs@, spec_code);
            assert(values::codes_form(given)[k] == values::code_form(given[k]));
            assert(all[k] == spec_form(values::codes_form(given)[k]));
            assert(all.take(k + 1) =~= all.take(k).push(all[k]));
        }
        specs.push(spec_code);
    }
    assert(all.take(all.len() as int) =~= all);
    object_instance_from_parts_resolved(name, ResolvedExpr::list(specs), defs)
}

/// A local for a value, around code that uses it.
pub open spec fn let_form(id: nat, value: Form, body: Form) -> Form {
    values::apply_form(values::lambda_form(seq![id], body), seq![value])
}

/// Locals for values, the first outermost.
pub open spec fn wrapped(bindings: Seq<(BindingId, ResolvedExpr)>, body: Form) -> Form
    decreases bindings.len(),
{
    if bindings.len() == 0 {
        body
    } else {
        let (id, value) = bindings.last();
        wrapped(bindings.drop_last(), let_form(id.0 as nat, values::code_form(value), body))
    }
}

fn let_resolved(id: BindingId, value: ResolvedExpr, body: ResolvedExpr) -> (code: ResolvedExpr)
    ensures
        values::code_form(code) == let_form(
            id.0 as nat,
            values::code_form(value),
            values::code_form(body),
        ),
{
    let mut params: Vec<BindingId> = Vec::new();
    params.push(id);
    assert(values::ids(params@) =~= seq![id.0 as nat]);
    ResolvedExpr::apply(ResolvedExpr::lambda(params, body), one(value))
}

fn wrap(bindings: Vec<(BindingId, ResolvedExpr)>, body: ResolvedExpr) -> (code: ResolvedExpr)
    ensures
        values::code_form(code) == wrapped(bindings@, values::code_form(body)),
{
    let ghost all = wrapped(bindings@, values::code_form(body));
    let mut bindings = bindings;
    let mut code = body;
    while bindings.len() > 0
        invariant
            wrapped(bindings@, values::code_form(code)) == all,
        decreases bindings.len(),
    {
        let ghost before = bindings@;
        match bindings.pop() {
            Some((id, value)) => {
                assert(bindings@ =~= before.drop_last());
                code = let_resolved(id, value, code);
            },
            None => {
                return code;
            },
        }
    }
    code
}

/// The body of an object between two of its members.
#[derive(Debug, PartialEq, Eq)]
pub struct ObjectBody {
    pub prior_self: BindingId,
    pub final_self: BindingId,
    /// The guard of the definitions, unless the object has none.
    pub annotator: Option<BindingId>,
    /// The definitions that the next member sees.
    pub definitions: BindingId,
    pub bindings: Vec<(BindingId, ResolvedExpr)>,
    pub base_len: usize,
}

impl ObjectBody {
    /// Begins a body. With a mark, its definitions are guarded.
    pub fn begin(
        compiler: &GCompilerValues,
        locals: &mut ResolverContext,
        mark: Option<Value>,
    ) -> (body: Self)
        requires
            compiler.wf(),
            old(locals).next <= usize::MAX - 4,
        ensures
            ({
                let first = old(locals).next as nat;
                let final_self = values::local_form(first + 1);
                let visible = visible_form(values::local_form(first));
                &&& body.prior_self.0 == first
                &&& body.final_self.0 == first + 1
                &&& body.base_len == old(locals).names@.len()
                &&& final(locals).names@.len() >= body.base_len
                &&& final(locals).names@.take(body.base_len as int) == old(locals).names@
                &&& match mark {
                    Some(mark) => {
                        &&& body.annotator == Some(BindingId((first + 2) as usize))
                        &&& body.definitions.0 == first + 3
                        &&& final(locals).next == first + 4
                        &&& body.bindings@.len() == 2
                        &&& body.bindings@[0].0.0 == first + 2
                        &&& values::code_form(body.bindings@[0].1) == compiler_values::annotator_of(
                            guard_form(values::value_form(mark), final_self),
                            final_self,
                        )
                        &&& body.bindings@[1].0.0 == first + 3
                        &&& values::code_form(body.bindings@[1].1) == visible
                    },
                    None => {
                        &&& body.annotator is None
                        &&& body.definitions.0 == first + 2
                        &&& final(locals).next == first + 3
                        &&& body.bindings@.len() == 1
                        &&& body.bindings@[0].0.0 == first + 2
                        &&& values::code_form(body.bindings@[0].1) == visible
                    },
                }
            }),
    {
        let ghost names = locals.names@;
        let base_len = locals.len();
        let prior_self = locals.push_internal_binding("<object-prior-self>");
        let final_self = locals.push_internal_binding("<object-final-self>");
        let mut bindings: Vec<(BindingId, ResolvedExpr)> = Vec::new();
        let annotator = match mark {
            Some(mark) => {
                let id = locals.push_internal_binding("<object-reflection-guard>");
                let guard = object_reflection_guard_resolved(mark, ResolvedExpr::local(final_self));
                let code = reflection_annotator_resolved(
                    compiler,
                    guard,
                    ResolvedExpr::local(final_self),
                );
                bindings.push((id, code));
                Some(id)
            },
            None => None,
        };
        let definitions = locals.push_internal_binding("<object-visible-defs>");
        bindings.push((definitions, remove_object_spec_resolved(ResolvedExpr::local(prior_self))));
        assert(locals.names@.take(base_len as int) =~= names);
        ObjectBody { prior_self, final_self, annotator, definitions, bindings, base_len }
    }

    /// The scope of the next member.
    pub fn scope(&self, alias: Option<&str>, parent: NameScope) -> (scope: NameScope)
        ensures
            body_scope(
                scope,
                alias,
                ResolvedRoot::Local(self.final_self),
                ResolvedRoot::Local(self.definitions),
                parent,
                match self.annotator {
                    Some(id) => Some(ResolvedRoot::Local(id)),
                    None => None,
                },
            ),
    {
        let annotator = match self.annotator {
            Some(id) => Some(ResolvedRoot::Local(id)),
            None => None,
        };
        object_body_scope_resolved(
            alias,
            ResolvedRoot::Local(self.final_self),
            ResolvedRoot::Local(self.definitions),
            parent,
            annotator,
        )
    }

    /// Adds a member, by the definitions that it leaves.
    pub fn add(&mut self, locals: &mut ResolverContext, updated: ResolvedExpr)
        requires
            old(locals).next < usize::MAX,
        ensures
            final(self).definitions.0 == old(locals).next,
            final(locals).next == old(locals).next + 1,
            final(locals).names@.len() == old(locals).names@.len() + 1,
            final(locals).names@.drop_last() == old(locals).names@,
            final(self).bindings@.len() == old(self).bindings@.len() + 1,
            final(self).bindings@.drop_last() == old(self).bindings@,
            final(self).bindings@.last().0 == final(self).definitions,
            values::code_form(final(self).bindings@.last().1) == visible_form(
                values::code_form(updated),
            ),
            final(self).prior_self == old(self).prior_self,
            final(self).final_self == old(self).final_self,
            final(self).annotator == old(self).annotator,
            final(self).base_len == old(self).base_len,
    {
        let id = locals.push_internal_binding("<object-visible-defs>");
        self.bindings.push((id, remove_object_spec_resolved(updated)));
        assert(self.bindings@.drop_last() =~= old(self).bindings@);
        self.definitions = id;
    }

    /// The definitions of the object: a function of the definitions before it,
    /// and of those that it ends up with.
    pub fn finish(self, locals: &mut ResolverContext) -> (code: ResolvedExpr)
        requires
            self.base_len <= old(locals).names@.len(),
        ensures
            values::code_form(code) == values::lambda_form(
                seq![self.prior_self.0 as nat, self.final_self.0 as nat],
                wrapped(self.bindings@, values::local_form(self.definitions.0 as nat)),
            ),
            final(locals).names@ == old(locals).names@.take(self.base_len as int),
            final(locals).next == old(locals).next,
    {
        let body = wrap(self.bindings, ResolvedExpr::local(self.definitions));
        locals.truncate(self.base_len);
        ResolvedExpr::lambda(both(self.prior_self, self.final_self), body)
    }
}

/// The name that an alias introduces.
pub open spec fn alias_name(alias: Option<&str>) -> Option<Seq<char>> {
    match alias {
        Some(raw) => names::canonical_name(raw@),
        None => None,
    }
}

/// The scope of a member of an object. With an alias, plain names are those of
/// the scope around the object.
pub open spec fn body_scope(
    scope: NameScope,
    alias: Option<&str>,
    object_final_defs: ResolvedRoot,
    object_prior_defs: ResolvedRoot,
    parent: NameScope,
    annotator: Option<ResolvedRoot>,
) -> bool {
    &&& match alias_name(alias) {
        Some(name) => scope.object_alias matches Some(found) && found@ == name && scope.final_defs
            == parent.final_defs && scope.prior_defs == parent.prior_defs,
        None => scope.object_alias is None && scope.final_defs == object_final_defs
            && scope.prior_defs == object_prior_defs,
    }
    &&& scope.module_final_defs == parent.module_final_defs
    &&& scope.module_prior_defs == parent.module_prior_defs
    &&& scope.object_final_defs == Some(object_final_defs)
    &&& scope.object_prior_defs == Some(object_prior_defs)
    &&& scope.reflection == match annotator {
        Some(annotator) => Some(ReflectionBoundary { annotator }),
        None => None,
    }
    &&& scope.parent == Some(Box::new(parent))
}

pub fn object_body_scope_resolved(
    alias: Option<&str>,
    object_final_defs: ResolvedRoot,
    object_prior_defs: ResolvedRoot,
    parent: NameScope,
    annotator: Option<ResolvedRoot>,
) -> (scope: NameScope)
    ensures
        body_scope(scope, alias, object_final_defs, object_prior_defs, parent, annotator),
{
    let object_alias = match alias {
        Some(raw) => local_name_metadata(raw).canonical,
        None => None,
    };
    let (final_defs, prior_defs) = if object_alias.is_some() {
        (parent.final_defs.copy(), parent.prior_defs.copy())
    } else {
        (object_final_defs.copy(), object_prior_defs.copy())
    };
    let reflection = match annotator {
        Some(annotator) => Some(ReflectionBoundary { annotator }),
        None => None,
    };
    NameScope {
        final_defs,
        prior_defs,
        module_final_defs: parent.module_final_defs.copy(),
        module_prior_defs: parent.module_prior_defs.copy(),
        object_alias,
        object_final_defs: Some(object_final_defs),
        object_prior_defs: Some(object_prior_defs),
        reflection,
        parent: Some(Box::new(parent)),
    }
}

/// Definitions with an object at a target, which is checked to be undefined or
/// defined before.
pub open spec fn declared_form(
    tag: Seq<char>,
    target: Seq<char>,
    object: Form,
    definitions: Form,
) -> Form {
    values::call_form(
        Builtin::DictUpdate,
        seq![
            definitions::static_path_form(target),
            compiler_values::assertion_form(
                tag,
                target,
                values::access_form(definitions, values::steps_form(text::dotted(target))),
                object,
            ),
            definitions,
        ],
    )
}

/// Places the object of a declaration.
pub fn lower_object(target: &str, object: ResolvedExpr, line: usize, definitions: &ResolvedRoot) -> (code:
    ResolvedExpr)
    ensures
        values::code_form(code) == declared_form(
            "assert_undefined"@,
            target@,
            values::code_form(object),
            definitions::root_form(*definitions),
        ),
{
    let DefinitionTarget { name, root: _, steps, path: _ } = static_target(target);
    let context = DefinitionTargetContext::new(definitions, line);
    let value = context.annotate(BuiltinAssertion::Undefined, name.as_str(), steps, object);
    update_module_resolved(definitions.expr(), target, value)
}

/// Places the object of a declaration in the body of another object.
pub fn lower_nested_object_resolved(
    target: &str,
    object: ResolvedExpr,
    line: usize,
    definitions: &ResolvedRoot,
) -> (code: ResolvedExpr)
    ensures
        values::code_form(code) == declared_form(
            "assert_undefined"@,
            target@,
            values::code_form(object),
            definitions::root_form(*definitions),
        ),
{
    lower_object(target, object, line, definitions)
}

/// The definitions of an object followed by those of an extension.
pub open spec fn composed_form(prior_defs: Form, extension: Form, base: nat, itself: nat) -> Form {
    values::lambda_form(
        seq![base, itself],
        values::apply_form(
            extension,
            seq![
                values::apply_form(
                    prior_defs,
                    seq![values::local_form(base), values::local_form(itself)],
                ),
                values::local_form(itself),
            ],
        ),
    )
}

/// An object with the definitions of an extension after its own. The local
/// `id` and the two after it are free.
pub open spec fn extended_form(target: Seq<char>, extension: Form, definitions: Form, id: nat) -> Form {
    let known = values::local_form(id);
    let_form(
        id,
        spec_form(values::access_form(definitions, values::steps_form(text::dotted(target)))),
        instance_form(
            compiler_values::member(known, "name"@),
            compiler_values::member(known, "deps"@),
            composed_form(compiler_values::member(known, "defs"@), extension, id + 1, id + 2),
        ),
    )
}

/// Extends the object at a target.
fn extended_object(
    target: &str,
    extension: ResolvedExpr,
    definitions: ResolvedExpr,
    locals: &mut ResolverContext,
) -> (code: ResolvedExpr)
    requires
        old(locals).next <= usize::MAX - 3,
    ensures
        values::code_form(code) == extended_form(
            target@,
            values::code_form(extension),
            values::code_form(definitions),
            old(locals).next as nat,
        ),
        final(locals).next == old(locals).next + 3,
        final(locals).names@.len() == old(locals).names@.len() + 3,
        final(locals).names@.take(old(locals).names@.len() as int) == old(locals).names@,
{
    let prior_spec = object_spec_resolved(path_resolved_in_definitions(target, definitions));
    let known = locals.push_internal_binding("<extended-object-spec>");
    let base = locals.push_internal_binding("<extension-base>");
    let self_value = locals.push_internal_binding("<extension-self>");
    assert(locals.names@.take(old(locals).names@.len() as int) =~= old(locals).names@);
    let prior_result = ResolvedExpr::apply(
        member_code(ResolvedExpr::local(known), "defs"),
        two(ResolvedExpr::local(base), ResolvedExpr::local(self_value)),
    );
    let composed = ResolvedExpr::lambda(
        both(base, self_value),
        ResolvedExpr::apply(extension, two(prior_result, ResolvedExpr::local(self_value))),
    );
    let object = object_instance_from_parts_resolved(
        member_code(ResolvedExpr::local(known), "name"),
        member_code(ResolvedExpr::local(known), "deps"),
        composed,
    );
    let_resolved(known, prior_spec, object)
}

/// Places the extension of an object.
pub fn lower_extend(
    target: &str,
    extension: ResolvedExpr,
    line: usize,
    definitions: &ResolvedRoot,
    locals: &mut ResolverContext,
) -> (code: ResolvedExpr)
    requires
        old(locals).next <= usize::MAX - 3,
    ensures
        values::code_form(code) == declared_form(
            "assert_defined"@,
            target@,
            extended_form(
                target@,
                values::code_form(extension),
                definitions::root_form(*definitions),
                old(locals).next as nat,
            ),
            definitions::root_form(*definitions),
        ),
        final(locals).next == old(locals).next + 3,
        final(locals).names@.len() == old(locals).names@.len() + 3,
        final(locals).names@.take(old(locals).names@.len() as int) == old(locals).names@,
{
    let object = extended_object(target, extension, definitions.expr(), locals);
    let DefinitionTarget { name, root: _, steps, path: _ } = static_target(target);
    let context = DefinitionTargetContext::new(definitions, line);
    let value = context.annotate(BuiltinAssertion::Defined, name.as_str(), steps, object);
    update_module_resolved(definitions.expr(), target, value)
}

/// The object at a target, extended with definitions.
pub fn extend_object_with_defs(target: &str, extension_defs: Value, visible_definitions: Value) -> (value:
    Value)
    ensures
        values::value_form(value) == values::lazy_form(
            extended_form(
                target@,
                values::provided_form(values::value_form(extension_defs)),
                values::provided_form(values::value_form(visible_definitions)),
                0,
            ),
        ),
{
    let mut locals = ResolverContext::new();
    lower_resolved_expr(
        extended_object(
            target,
            ResolvedExpr::provided(extension_defs),
            ResolvedExpr::provided(visible_definitions),
            &mut locals,
        ),
    )
}

/// Wrapping in two groups of locals is wrapping in all of them.
pub proof fn wrapping_splits(
    first: Seq<(BindingId, ResolvedExpr)>,
    second: Seq<(BindingId, ResolvedExpr)>,
    body: Form,
)
    ensures
        wrapped(first + second, body) == wrapped(first, wrapped(second, body)),
    decreases second.len(),
{
    if second.len() == 0 {
        assert(first + second =~= first);
    } else {
        let (id, value) = second.last();
        assert((first + second).drop_last() =~= first + second.drop_last());
        wrapping_splits(
            first,
            second.drop_last(),
            let_form(id.0 as nat, values::code_form(value), body),
        );
    }
}

} // verus!
