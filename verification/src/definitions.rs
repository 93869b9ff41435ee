//! Definitions as ordered updates of the definitions before them.
//!
//! Names in expressions and in computed targets are resolved before a
//! definition is lowered: the code that a definition needs arrives as
//! `ResolvedExpr`.

use vstd::prelude::*;
use crate::ast::{DefinitionDecl, DefinitionKind, SyntaxKeyExpr};
use crate::compiler_values;
use crate::compiler_values::{apply_builtin, assertion_code};
use crate::diagnostic;
use crate::diagnostic::Diagnostic;
use crate::text;
use crate::text::{same_text, split_dots};
use crate::values;
use crate::values::{
    atom_list, key_steps, key_to_value, lower_resolved_expr, one, three, BindingId, Builtin, Form,
    Key, ResolvedExpr, ResolvedPathPart, Shape, Value,
};

verus! {

#[derive(Debug, Clone, Copy, PartialEq, Eq, Structural)]
pub enum BuiltinAssertion {
    Defined,
    Undefined,
}

/// Where a namespace is found.
#[derive(Debug, PartialEq, Eq)]
pub enum ResolvedRoot {
    Provided(Value),
    Local(BindingId),
}

/// The function that guards the demand of a definition.
#[derive(Debug, PartialEq, Eq)]
pub struct ReflectionBoundary {
    pub annotator: ResolvedRoot,
}

/// The namespaces that names are looked up in.
#[derive(Debug, PartialEq, Eq)]
pub struct NameScope {
    pub final_defs: ResolvedRoot,
    pub prior_defs: ResolvedRoot,
    pub module_final_defs: ResolvedRoot,
    pub module_prior_defs: ResolvedRoot,
    pub object_alias: Option<String>,
    pub object_final_defs: Option<ResolvedRoot>,
    pub object_prior_defs: Option<ResolvedRoot>,
    pub reflection: Option<ReflectionBoundary>,
    pub parent: Option<Box<NameScope>>,
}

/// What a definition defines.
#[derive(Debug, PartialEq, Eq)]
pub struct DefinitionTarget {
    /// The spelling of the target, for messages.
    pub name: String,
    /// The first name of the path, unless it is computed.
    pub root: Option<String>,
    /// The steps that reach the target.
    pub steps: Vec<ResolvedPathPart>,
    /// The code of the path itself.
    pub path: ResolvedExpr,
}

pub open spec fn root_form(root: ResolvedRoot) -> Form {
    match root {
        ResolvedRoot::Provided(value) => values::provided_form(values::value_form(value)),
        ResolvedRoot::Local(id) => values::local_form(id.0 as nat),
    }
}

impl ResolvedRoot {
    pub fn expr(&self) -> (code: ResolvedExpr)
        ensures
            values::code_form(code) == root_form(*self),
    {
        match self {
            ResolvedRoot::Provided(value) => ResolvedExpr::provided(value.copy()),
            ResolvedRoot::Local(id) => ResolvedExpr::local(*id),
        }
    }

    pub fn copy(&self) -> (copy: Self)
        ensures
            copy == *self,
    {
        match self {
            ResolvedRoot::Provided(value) => ResolvedRoot::Provided(value.copy()),
            ResolvedRoot::Local(id) => ResolvedRoot::Local(*id),
        }
    }
}

fn copy_root(root: &Option<ResolvedRoot>) -> (copy: Option<ResolvedRoot>)
    ensures
        copy == *root,
{
    match root {
        Some(root) => Some(root.copy()),
        None => None,
    }
}

impl NameScope {
    pub fn copy(&self) -> (copy: Self)
        ensures
            copy == *self,
        decreases self,
    {
        let parent = match &self.parent {
            Some(parent) => Some(Box::new(parent.copy())),
            None => None,
        };
        let reflection = match &self.reflection {
            Some(boundary) => Some(ReflectionBoundary { annotator: boundary.annotator.copy() }),
            None => None,
        };
        let object_alias = match &self.object_alias {
            Some(alias) => Some(alias.clone()),
            None => None,
        };
        NameScope {
            final_defs: self.final_defs.copy(),
            prior_defs: self.prior_defs.copy(),
            module_final_defs: self.module_final_defs.copy(),
            module_prior_defs: self.module_prior_defs.copy(),
            object_alias,
            object_final_defs: copy_root(&self.object_final_defs),
            object_prior_defs: copy_root(&self.object_prior_defs),
            reflection,
            parent,
        }
    }

    /// The scope of the declarations of a module.
    pub fn module_with_reflection(
        final_defs: Value,
        definitions: Value,
        reflection: ReflectionBoundary,
    ) -> (scope: Self)
        ensures
            scope.final_defs == ResolvedRoot::Provided(final_defs),
            scope.prior_defs == ResolvedRoot::Provided(definitions),
            scope.module_final_defs == ResolvedRoot::Provided(final_defs),
            scope.module_prior_defs == ResolvedRoot::Provided(definitions),
            scope.object_alias is None,
            scope.object_final_defs is None,
            scope.object_prior_defs is None,
            scope.reflection == Some(reflection),
            scope.parent is None,
    {
        NameScope {
            final_defs: ResolvedRoot::Provided(final_defs.copy()),
            prior_defs: ResolvedRoot::Provided(definitions.copy()),
            module_final_defs: ResolvedRoot::Provided(final_defs),
            module_prior_defs: ResolvedRoot::Provided(definitions),
            object_alias: None,
            object_final_defs: None,
            object_prior_defs: None,
            reflection: Some(reflection),
            parent: None,
        }
    }
}

/// The path that a dotted name spells, in code.
pub open spec fn static_path_form(target: Seq<char>) -> Form {
    values::list_form(values::atoms_form(text::dotted(target)))
}

pub fn static_path_resolved(target: &str) -> (code: ResolvedExpr)
    ensures
        values::code_form(code) == static_path_form(target@),
{
    let parts = split_dots(target);
    ResolvedExpr::list(atom_list(&parts))
}

/// A dotted name has a first part.
pub proof fn dotted_is_nonempty(text: Seq<char>, done: Seq<Seq<char>>, current: Seq<char>)
    ensures
        text::dotted_from(text, done, current).len() > done.len(),
    decreases text.len(),
{
    if text.len() > 0 {
        if text[0] == '.' {
            dotted_is_nonempty(text.skip(1), done.push(current), Seq::empty());
        } else {
            dotted_is_nonempty(text.skip(1), done, current.push(text[0]));
        }
    }
}

/// The first name of a target.
pub open spec fn root_of(target: DefinitionTarget) -> Option<Seq<char>> {
    match target.root {
        Some(root) => Some(root@),
        None => None,
    }
}

/// The target that a dotted name spells.
pub fn static_target(target: &str) -> (found: DefinitionTarget)
    ensures
        found.name@ == target@,
        root_of(found) == Some(text::dotted(target@)[0]),
        values::parts_form(found.steps@) == values::steps_form(text::dotted(target@)),
        values::code_form(found.path) == static_path_form(target@),
{
    let parts = split_dots(target);
    proof {
        dotted_is_nonempty(target@, Seq::empty(), Seq::empty());
        assert(text::texts(parts@).len() == parts.len());
        assert(text::texts(parts@)[0] == parts@[0]@);
    }
    let root = parts[0].clone();
    DefinitionTarget {
        name: target.to_owned(),
        root: Some(root),
        steps: key_steps(&parts),
        path: ResolvedExpr::list(atom_list(&parts)),
    }
}

/// A target by its name, its first name, and the forms of its steps and path.
pub struct TargetForm {
    pub name: Seq<char>,
    pub root: Option<Seq<char>>,
    pub steps: Seq<Form>,
    pub path: Form,
}

/// Whether every part of a path is written out.
pub open spec fn written(keys: Seq<SyntaxKeyExpr>) -> bool {
    keys.len() > 0 && forall|k: int| 0 <= k < keys.len() ==> (#[trigger] keys[k]) is Atom
}

/// The name of a part that is written out.
pub open spec fn key_name(key: SyntaxKeyExpr) -> Seq<char> {
    match key {
        SyntaxKeyExpr::Atom(name) => name@,
        _ => Seq::empty(),
    }
}

/// The names of a path that is written out.
pub open spec fn key_names(keys: Seq<SyntaxKeyExpr>) -> Seq<Seq<char>> {
    keys.map_values(|key: SyntaxKeyExpr| key_name(key))
}

/// Names with dots between them.
pub open spec fn dot_joined(names: Seq<Seq<char>>) -> Seq<char>
    decreases names.len(),
{
    if names.len() == 0 {
        Seq::empty()
    } else if names.len() == 1 {
        names[0]
    } else {
        dot_joined(names.drop_last()) + "."@ + names.last()
    }
}

/// The target of a definition. One that is written out says by itself what it
/// is; of another, the parts that are computed were resolved before.
pub open spec fn target_of(
    definition: DefinitionDecl,
    computed: Option<DefinitionTarget>,
) -> TargetForm {
    let keys = definition.target@;
    if written(keys) {
        let names = key_names(keys);
        TargetForm {
            name: dot_joined(names),
            root: Some(names[0]),
            steps: values::steps_form(names),
            path: values::list_form(values::atoms_form(names)),
        }
    } else {
        TargetForm {
            name: computed->0.name@,
            root: if keys.len() > 0 && keys[0] is Atom {
                Some(key_name(keys[0]))
            } else {
                None
            },
            steps: values::parts_form(computed->0.steps@),
            path: values::code_form(computed->0.path),
        }
    }
}

/// The names of a path, where every part is written out.
fn written_names(keys: &Vec<SyntaxKeyExpr>) -> (found: Option<Vec<String>>)
    ensures
        match found {
            Some(names) => written(keys@) && text::texts(names@) == key_names(keys@),
            None => !written(keys@),
        },
{
    if keys.len() == 0 {
        return None;
    }
    let mut names: Vec<String> = Vec::new();
    let mut k: usize = 0;
    while k < keys.len()
        invariant
            k <= keys.len(),
            names.len() == k,
            forall|j: int|
                0 <= j < k ==> (#[trigger] keys@[j]) is Atom && names@[j]@ == key_name(keys@[j]),
        decreases keys.len() - k,
    {
        match &keys[k] {
            SyntaxKeyExpr::Atom(name) => {
                names.push(name.clone());
            },
            _ => {
                assert(!(keys@[k as int] is Atom));
                return None;
            },
        }
        k = k + 1;
    }
    assert(text::texts(names@) =~= key_names(keys@));
    Some(names)
}

/// Whether every part of a path is written out.
pub fn is_written(keys: &Vec<SyntaxKeyExpr>) -> (b: bool)
    ensures
        b == written(keys@),
{
    written_names(keys).is_some()
}

/// Names with dots between them.
fn join_dots(names: &Vec<String>) -> (joined: String)
    requires
        names.len() > 0,
    ensures
        joined@ == dot_joined(text::texts(names@)),
{
    let ghost all = text::texts(names@);
    let mut joined = names[0].clone();
    let mut k: usize = 1;
    assert(all.take(1) =~= seq![all[0]]);
    assert(joined@ == dot_joined(all.take(1)));
    while k < names.len()
        invariant
            1 <= k <= names.len(),
            all == text::texts(names@),
            joined@ == dot_joined(all.take(k as int)),
        decreases names.len() - k,
    {
        proof {
            assert(all.take(k + 1).drop_last() =~= all.take(k as int));
            assert(all.take(k + 1).last() == names@[k as int]@);
        }
        joined.append(".");
        joined.append(names[k].as_str());
        k = k + 1;
    }
    assert(all.take(k as int) =~= all);
    joined
}

/// The target of a definition.
pub fn definition_target(definition: &DefinitionDecl, computed: Option<DefinitionTarget>) -> (found:
    DefinitionTarget)
    requires
        written(definition.target@) || computed is Some,
    ensures
        found.name@ == target_of(*definition, computed).name,
        root_of(found) == target_of(*definition, computed).root,
        values::parts_form(found.steps@) == target_of(*definition, computed).steps,
        values::code_form(found.path) == target_of(*definition, computed).path,
{
    match written_names(&definition.target) {
        Some(names) => {
            proof {
                assert(text::texts(names@).len() == names.len());
                assert(text::texts(names@)[0] == names@[0]@);
            }
            DefinitionTarget {
                name: join_dots(&names),
                root: Some(names[0].clone()),
                steps: key_steps(&names),
                path: ResolvedExpr::list(atom_list(&names)),
            }
        },
        None => {
            let root = if definition.target.len() > 0 {
                match &definition.target[0] {
                    SyntaxKeyExpr::Atom(name) => Some(name.clone()),
                    _ => None,
                }
            } else {
                None
            };
            match computed {
                Some(computed) => DefinitionTarget {
                    name: computed.name,
                    root,
                    steps: computed.steps,
                    path: computed.path,
                },
                None => static_target(""),
            }
        },
    }
}

/// Shared source and scope state for checking and updating one definition.
#[derive(Debug, PartialEq, Eq)]
pub struct DefinitionTargetContext<'a> {
    pub definitions: &'a ResolvedRoot,
    pub line: usize,
}

/// The code of an update by its form, from the form of the prior value.
pub open spec fn updated_form(update: ResolvedExpr, parameters: nat, prior: Form) -> Result<
    Form,
    Seq<char>,
> {
    if parameters == 0 {
        Ok(values::apply_form(values::code_form(update), seq![prior]))
    } else {
        match update {
            ResolvedExpr::Lambda(ids, body) => if ids@.len() == parameters {
                Ok(
                    values::lambda_form(
                        values::ids(ids@),
                        values::apply_form(values::code_form(*body), seq![prior]),
                    ),
                )
            } else {
                Err("internal error counting update definition arguments"@)
            },
            _ => Err("internal error lowering update definition arguments"@),
        }
    }
}

pub open spec fn tag_of(assertion: BuiltinAssertion) -> Seq<char> {
    match assertion {
        BuiltinAssertion::Defined => "assert_defined"@,
        BuiltinAssertion::Undefined => "assert_undefined"@,
    }
}

impl<'a> DefinitionTargetContext<'a> {
    pub fn new(definitions: &'a ResolvedRoot, line: usize) -> (context: Self)
        ensures
            context.definitions == definitions,
            context.line == line,
    {
        DefinitionTargetContext { definitions, line }
    }

    /// Applies an update to the value before it. The parameters of a
    /// definition are those of the function that it defines, and the update is
    /// its body.
    pub fn lower_update(
        &self,
        steps: Vec<ResolvedPathPart>,
        update: ResolvedExpr,
        sugar_param_count: usize,
    ) -> (result: Result<ResolvedExpr, Diagnostic>)
        ensures
            match updated_form(
                update,
                sugar_param_count as nat,
                values::access_form(root_form(*self.definitions), values::parts_form(steps@)),
            ) {
                Ok(form) => result matches Ok(code) && values::code_form(code) == form,
                Err(message) => result matches Err(found) && found@ == diagnostic::error_at(
                    self.line as nat,
                    message,
                ),
            },
    {
        let prior = definition_target_access_resolved(steps, self.definitions);
        if sugar_param_count == 0 {
            return Ok(ResolvedExpr::apply(update, one(prior)));
        }
        match update {
            ResolvedExpr::Lambda(ids, body) => {
                if ids.len() != sugar_param_count {
                    return Err(
                        Diagnostic::error(
                            self.line,
                            "internal error counting update definition arguments",
                        ),
                    );
                }
                Ok(ResolvedExpr::lambda(ids, ResolvedExpr::apply(*body, one(prior))))
            },
            _ => Err(
                Diagnostic::error(
                    self.line,
                    "internal error lowering update definition arguments",
                ),
            ),
        }
    }

    /// Checks, when the value is demanded, whether its target was defined
    /// before.
    pub fn annotate(
        &self,
        assertion: BuiltinAssertion,
        name: &str,
        steps: Vec<ResolvedPathPart>,
        value: ResolvedExpr,
    ) -> (code: ResolvedExpr)
        ensures
            values::code_form(code) == compiler_values::assertion_form(
                tag_of(assertion),
                name@,
                values::access_form(root_form(*self.definitions), values::parts_form(steps@)),
                values::code_form(value),
            ),
    {
        let prior = definition_target_access_resolved(steps, self.definitions);
        match assertion {
            BuiltinAssertion::Defined => assertion_code("assert_defined", name, prior, value),
            BuiltinAssertion::Undefined => assertion_code("assert_undefined", name, prior, value),
        }
    }
}

/// The names below which no demand is guarded.
pub open spec fn reflective(root: Seq<char>) -> bool {
    root == "refl"@ || root == "meta"@ || root == "spec"@
}

/// A value behind the reflection boundary of its scope. A computed root could
/// turn out to be reflective, and gets no boundary.
pub open spec fn decorated(root: Option<Seq<char>>, value: Form, scope: NameScope) -> Form {
    match scope.reflection {
        Some(boundary) => if root is Some && !reflective(root->0) {
            values::apply_form(root_form(boundary.annotator), seq![value])
        } else {
            value
        },
        None => value,
    }
}

pub fn decorate_reflection_boundary(
    root: &Option<String>,
    value: ResolvedExpr,
    scope: &NameScope,
) -> (code: ResolvedExpr)
    ensures
        values::code_form(code) == decorated(
            match *root {
                Some(root) => Some(root@),
                None => None,
            },
            values::code_form(value),
            *scope,
        ),
{
    match &scope.reflection {
        Some(boundary) => match root {
            Some(root) => if is_reflective(root.as_str()) {
                value
            } else {
                apply_reflection_boundary(value, boundary)
            },
            None => value,
        },
        None => value,
    }
}

fn is_reflective(root: &str) -> (b: bool)
    ensures
        b == reflective(root@),
{
    same_text(root, "refl") || same_text(root, "meta") || same_text(root, "spec")
}

pub fn apply_reflection_boundary(value: ResolvedExpr, boundary: &ReflectionBoundary) -> (code:
    ResolvedExpr)
    ensures
        values::code_form(code) == values::apply_form(
            root_form(boundary.annotator),
            seq![values::code_form(value)],
        ),
{
    ResolvedExpr::apply(boundary.annotator.expr(), one(value))
}

/// Whether a declaration of a target guards what it defines.
pub fn automatic_reflection_for_declared_target(target: &str, automatic: bool) -> (b: bool)
    ensures
        b == (automatic && !reflective(text::dotted(target@)[0])),
{
    let parts = split_dots(target);
    proof {
        dotted_is_nonempty(target@, Seq::empty(), Seq::empty());
        assert(text::texts(parts@).len() == parts.len());
        assert(text::texts(parts@)[0] == parts@[0]@);
    }
    automatic && !is_reflective(parts[0].as_str())
}

/// The scope in which the path of a target is resolved. In a module it sees
/// the definitions so far.
pub fn definition_target_scope_resolved(scope: &NameScope, visible_definitions: ResolvedRoot) -> (found:
    NameScope)
    ensures
        if scope.object_final_defs is Some {
            found == *scope
        } else {
            found == (NameScope {
                final_defs: visible_definitions,
                prior_defs: visible_definitions,
                module_final_defs: visible_definitions,
                module_prior_defs: visible_definitions,
                ..*scope
            })
        },
{
    let mut found = scope.copy();
    if found.object_final_defs.is_some() {
        return found;
    }
    found.final_defs = visible_definitions.copy();
    found.prior_defs = visible_definitions.copy();
    found.module_final_defs = visible_definitions.copy();
    found.module_prior_defs = visible_definitions;
    found
}

/// The value of a definition by its form.
pub open spec fn value_of(
    definition: DefinitionDecl,
    target: TargetForm,
    code: ResolvedExpr,
    definitions: ResolvedRoot,
    scope: NameScope,
) -> Result<Form, Seq<char>> {
    let prior = values::access_form(root_form(definitions), target.steps);
    let root = target.root;
    match definition.kind {
        DefinitionKind::Introduce => Ok(
            compiler_values::assertion_form(
                "assert_undefined"@,
                target.name,
                prior,
                decorated(root, values::code_form(code), scope),
            ),
        ),
        DefinitionKind::Override => Ok(
            compiler_values::assertion_form(
                "assert_defined"@,
                target.name,
                prior,
                decorated(root, values::code_form(code), scope),
            ),
        ),
        DefinitionKind::Update => match updated_form(
            code,
            definition.parameters@.len(),
            prior,
        ) {
            Ok(updated) => Ok(decorated(root, updated, scope)),
            Err(message) => Err(message),
        },
    }
}

/// The definitions after a definition, by their form.
pub open spec fn defined(
    definition: DefinitionDecl,
    target: TargetForm,
    code: ResolvedExpr,
    definitions: ResolvedRoot,
    scope: NameScope,
) -> Result<Form, Seq<char>> {
    if definition.expr is None {
        Ok(root_form(definitions))
    } else {
        match value_of(definition, target, code, definitions, scope) {
            Ok(value) => Ok(
                values::call_form(
                    Builtin::DictUpdate,
                    seq![target.path, value, root_form(definitions)],
                ),
            ),
            Err(message) => Err(message),
        }
    }
}

/// Lowers a definition whose expression was resolved to code. The target is
/// resolved before only where parts of it are computed.
pub fn lower_definition_resolved(
    definition: &DefinitionDecl,
    computed: Option<DefinitionTarget>,
    code: ResolvedExpr,
    line: usize,
    definitions: &ResolvedRoot,
    scope: &NameScope,
) -> (result: Result<ResolvedExpr, Diagnostic>)
    requires
        written(definition.target@) || computed is Some,
    ensures
        match defined(
            *definition,
            target_of(*definition, computed),
            code,
            *definitions,
            *scope,
        ) {
            Ok(form) => result matches Ok(lowered) && values::code_form(lowered) == form,
            Err(message) => result matches Err(found) && found@ == diagnostic::error_at(
                line as nat,
                message,
            ),
        },
{
    if definition.expr.is_none() {
        return Ok(definitions.expr());
    }
    let context = DefinitionTargetContext::new(definitions, line);
    let DefinitionTarget { name, root, steps, path } = definition_target(definition, computed);
    let value = match definition.kind {
        DefinitionKind::Introduce => {
            let value = decorate_reflection_boundary(&root, code, scope);
            context.annotate(BuiltinAssertion::Undefined, name.as_str(), steps, value)
        },
        DefinitionKind::Override => {
            let value = decorate_reflection_boundary(&root, code, scope);
            context.annotate(BuiltinAssertion::Defined, name.as_str(), steps, value)
        },
        DefinitionKind::Update => {
            let value = match context.lower_update(steps, code, definition.parameters.len()) {
                Ok(value) => value,
                Err(error) => {
                    return Err(error);
                },
            };
            decorate_reflection_boundary(&root, value, scope)
        },
    };
    Ok(update_definition_target_resolved(definitions, path, value))
}

pub fn update_module_resolved(definitions: ResolvedExpr, target: &str, value: ResolvedExpr) -> (code:
    ResolvedExpr)
    ensures
        values::code_form(code) == values::call_form(
            Builtin::DictUpdate,
            seq![
                static_path_form(target@),
                values::code_form(value),
                values::code_form(definitions),
            ],
        ),
{
    apply_builtin(Builtin::DictUpdate, three(static_path_resolved(target), value, definitions))
}

pub fn update_definition_target_resolved(
    definitions: &ResolvedRoot,
    path: ResolvedExpr,
    value: ResolvedExpr,
) -> (code: ResolvedExpr)
    ensures
        values::code_form(code) == values::call_form(
            Builtin::DictUpdate,
            seq![values::code_form(path), values::code_form(value), root_form(*definitions)],
        ),
{
    apply_builtin(Builtin::DictUpdate, three(path, value, definitions.expr()))
}

/// The value of a target in the definitions so far.
pub fn definition_target_access_resolved(
    steps: Vec<ResolvedPathPart>,
    definitions: &ResolvedRoot,
) -> (code: ResolvedExpr)
    ensures
        values::code_form(code) == values::access_form(
            root_form(*definitions),
            values::parts_form(steps@),
        ),
{
    ResolvedExpr::access(definitions.expr(), steps)
}

/// What a dotted path reaches from the value of its first name.
pub open spec fn path_in_scope(target: Seq<char>, first: Form) -> Form {
    let rest = text::dotted(target).skip(1);
    if rest.len() == 0 {
        first
    } else {
        values::access_form(first, values::steps_form(rest))
    }
}

pub fn path_resolved_in_scope(target: &str, first: ResolvedExpr) -> (code: ResolvedExpr)
    ensures
        values::code_form(code) == path_in_scope(target@, values::code_form(first)),
{
    let mut parts = split_dots(target);
    let ghost all = parts@;
    proof {
        dotted_is_nonempty(target@, Seq::empty(), Seq::empty());
        assert(text::texts(parts@).len() == parts.len());
    }
    parts.remove(0);
    assert(text::texts(parts@) =~= text::texts(all).skip(1));
    assert(text::texts(parts@).len() == parts.len());
    if parts.len() == 0 {
        first
    } else {
        ResolvedExpr::access(first, key_steps(&parts))
    }
}

pub fn path_resolved_in_definitions(target: &str, definitions: ResolvedExpr) -> (code: ResolvedExpr)
    ensures
        values::code_form(code) == values::access_form(
            values::code_form(definitions),
            values::steps_form(text::dotted(target@)),
        ),
{
    let parts = split_dots(target);
    ResolvedExpr::access(definitions, key_steps(&parts))
}

/// The path that a dotted name spells, as a value.
pub open spec fn path_form(target: Seq<char>) -> Form {
    values::shaped(
        Shape::List,
        text::dotted(target).map_values(|name: Seq<char>| values::atom_form(name)),
    )
}

pub fn path_value(target: &str) -> (value: Value)
    ensures
        values::value_form(value) == path_form(target@),
{
    let parts = split_dots(target);
    let ghost all = text::dotted(target@).map_values(|name: Seq<char>| values::atom_form(name));
    let mut items: Vec<Value> = Vec::new();
    let mut k: usize = 0;
    proof {
        values::no_forms();
        assert(items@ =~= Seq::empty());
        assert(text::texts(parts@).len() == parts.len());
        assert(all.take(0) =~= Seq::empty());
    }
    while k < parts.len()
        invariant
            k <= parts.len(),
            text::texts(parts@) == text::dotted(target@),
            all == text::dotted(target@).map_values(|name: Seq<char>| values::atom_form(name)),
            all.len() == parts.len(),
            values::values_form(items@) == all.take(k as int),
        decreases parts.len() - k,
    {
        let item = Value::atom(parts[k].as_str());
        proof {
            values::values_form_push(items@, item);
            assert(text::texts(parts@)[k as int] == parts@[k as int]@);
            assert(all.take(k + 1) =~= all.take(k as int).push(all[k as int]));
        }
        items.push(item);
        k = k + 1;
    }
    assert(all.take(all.len() as int) =~= all);
    Value::list(items)
}

/// Definitions with a value at a path.
pub open spec fn placed(path: Form, value: Form, definitions: Form) -> Form {
    values::lazy_form(
        values::call_form(
            Builtin::DictUpdate,
            seq![
                values::embedded_form(path),
                values::provided_form(value),
                values::provided_form(definitions),
            ],
        ),
    )
}

fn place(path: Value, value: Value, definitions: Value) -> (found: Value)
    ensures
        values::value_form(found) == placed(
            values::value_form(path),
            values::value_form(value),
            values::value_form(definitions),
        ),
{
    lower_resolved_expr(
        apply_builtin(
            Builtin::DictUpdate,
            three(
                ResolvedExpr::embedded(path),
                ResolvedExpr::provided(value),
                ResolvedExpr::provided(definitions),
            ),
        ),
    )
}

/// Module definitions are ordered updates over the incoming namespace.
pub fn update_module_value(definitions: Value, target: &str, value: Value) -> (found: Value)
    ensures
        values::value_form(found) == placed(
            path_form(target@),
            values::value_form(value),
            values::value_form(definitions),
        ),
{
    place(path_value(target), value, definitions)
}

/// Definitions after the entries of a dictionary. The entries of a nested
/// dictionary are placed one by one.
pub open spec fn merged(definitions: Form, prefix: Seq<Form>, entries: Seq<(Key, Value)>) -> Form
    decreases entries,
{
    if entries.len() == 0 {
        definitions
    } else {
        let before = merged(definitions, prefix, entries.drop_last());
        let (key, value) = entries.last();
        let path = prefix.push(values::key_value_form(key));
        match value {
            Value::Dict(nested) => if nested@.len() > 0 {
                merged(before, path, nested@)
            } else {
                placed(values::shaped(Shape::List, path), values::value_form(value), before)
            },
            _ => placed(values::shaped(Shape::List, path), values::value_form(value), before),
        }
    }
}

/// Copies of values.
fn copies(items: &Vec<Value>) -> (copies: Vec<Value>)
    ensures
        copies@ == items@,
{
    let mut copies: Vec<Value> = Vec::new();
    let mut k: usize = 0;
    while k < items.len()
        invariant
            k <= items.len(),
            copies@ == items@.take(k as int),
        decreases items.len() - k,
    {
        assert(items@.take(k + 1) =~= items@.take(k as int).push(items@[k as int]));
        copies.push(items[k].copy());
        k = k + 1;
    }
    assert(items@.take(items@.len() as int) =~= items@);
    copies
}

pub fn update_module_dict_entries(
    definitions: Value,
    prefix: Vec<Value>,
    entries: &Vec<(Key, Value)>,
) -> (found: Value)
    ensures
        values::value_form(found) == merged(
            values::value_form(definitions),
            values::values_form(prefix@),
            entries@,
        ),
    decreases entries,
{
    let ghost start = values::value_form(definitions);
    let ghost told = values::values_form(prefix@);
    let mut found = definitions;
    let mut k: usize = 0;
    assert(entries@.take(0) =~= Seq::empty());
    while k < entries.len()
        invariant
            k <= entries.len(),
            told == values::values_form(prefix@),
            values::value_form(found) == merged(start, told, entries@.take(k as int)),
        decreases entries.len() - k,
    {
        let mut path = copies(&prefix);
        let step = key_to_value(&entries[k].0);
        proof {
            values::values_form_push(path@, step);
            assert(entries@.take(k + 1).drop_last() =~= entries@.take(k as int));
            assert(entries@.take(k + 1).last() == entries@[k as int]);
        }
        path.push(step);
        found = match &entries[k].1 {
            Value::Dict(nested) => if nested.len() > 0 {
                update_module_dict_entries(found, path, nested)
            } else {
                place(Value::list(path), entries[k].1.copy(), found)
            },
            _ => place(Value::list(path), entries[k].1.copy(), found),
        };
        k = k + 1;
    }
    assert(entries@.take(entries@.len() as int) =~= entries@);
    found
}

/// Definitions after the entries of a value that is a dictionary.
pub open spec fn merged_value(definitions: Form, item: Value) -> Form {
    match item {
        Value::Dict(entries) => merged(definitions, Seq::empty(), entries@),
        _ => definitions,
    }
}

pub fn update_module_dict_value(definitions: Value, item: Value) -> (found: Value)
    ensures
        values::value_form(found) == merged_value(values::value_form(definitions), item),
{
    match &item {
        Value::Dict(entries) => {
            let prefix: Vec<Value> = Vec::new();
            proof {
                values::no_forms();
                assert(prefix@ =~= Seq::empty());
            }
            update_module_dict_entries(definitions, prefix, entries)
        },
        _ => definitions,
    }
}

/// What a dotted path reaches in definitions, on demand.
pub open spec fn reached(target: Seq<char>, definitions: Form) -> Form {
    values::lazy_form(
        values::access_form(
            values::provided_form(definitions),
            values::steps_form(text::dotted(target)),
        ),
    )
}

pub fn path_value_in_definitions(target: &str, definitions: Value) -> (value: Value)
    ensures
        values::value_form(value) == reached(target@, values::value_form(definitions)),
{
    lower_resolved_expr(path_resolved_in_definitions(target, ResolvedExpr::provided(definitions)))
}

/// An entry in a dictionary is reached step by step: merging two dictionaries
/// one after the other is merging their entries in order.
pub proof fn merging_splits(
    definitions: Form,
    prefix: Seq<Form>,
    first: Seq<(Key, Value)>,
    second: Seq<(Key, Value)>,
)
    ensures
        merged(definitions, prefix, first + second) == merged(
            merged(definitions, prefix, first),
            prefix,
            second,
        ),
    decreases second.len(),
{
    if second.len() == 0 {
        assert(first + second =~= first);
    } else {
        merging_splits(definitions, prefix, first, second.drop_last());
        assert((first + second).drop_last() =~= first + second.drop_last());
        assert((first + second).last() == second.last());
    }
}

/// Definitions whose root is reflective or computed get no boundary: they
/// are lowered as in a scope without reflection.
pub proof fn reflective_definitions_have_no_boundary(
    definition: DefinitionDecl,
    target: TargetForm,
    code: ResolvedExpr,
    definitions: ResolvedRoot,
    scope: NameScope,
)
    requires
        target.root matches Some(root) ==> reflective(root),
    ensures
        defined(definition, target, code, definitions, scope) == defined(
            definition,
            target,
            code,
            definitions,
            NameScope { reflection: None, ..scope },
        ),
{
}

} // verus!
