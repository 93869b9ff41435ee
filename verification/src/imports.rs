//! Imports, and names that are unique to a module.
//!
//! A built-in module is at hand. A file is loaded outside: `lower_import`
//! says what to load, and with which definitions around it, and
//! `lower_local_import` places what was loaded.

use vstd::prelude::*;
use crate::ast::{ImportDecl, ImportPlacement, ImportReference};
use crate::compiler_values;
use crate::compiler_values::{builtin_module, GCompilerValues};
use crate::definitions;
use crate::definitions::{path_value_in_definitions, update_module_dict_value, update_module_value};
use crate::diagnostic;
use crate::diagnostic::Diagnostic;
use crate::objects;
use crate::objects::{
    extend_object_with_defs, object_instance_from_parts_resolved, object_instance_from_parts_value,
    object_spec_resolved,
};
use crate::text;
use crate::values;
use crate::values::{lower_resolved_expr, one, Builtin, Form, ResolvedExpr, Shape, Value};

verus! {

/// What a module is compiled with.
#[derive(Debug, PartialEq, Eq)]
pub struct CompileContext {
    /// The path that the abstract names of the module begin with.
    pub origin: Vec<String>,
    /// The definitions before the module.
    pub prior_defs: Value,
    /// The definitions after the module.
    pub final_defs: Value,
    pub automatic_reflection_boundaries: bool,
    /// What marks the reflection tasks of objects.
    pub object_mark: Value,
    pub compiler: GCompilerValues,
}

/// An abstract name of a module.
pub open spec fn global_form(origin: Seq<Seq<char>>, name: Seq<char>) -> Form {
    values::shaped(
        Shape::Atom,
        seq![
            values::shaped(
                Shape::KeyPath,
                origin.push(name).map_values(|s: Seq<char>| Form::Text(s)),
            ),
        ],
    )
}

impl CompileContext {
    pub open spec fn wf(&self) -> bool {
        self.compiler.wf()
    }

    /// A name that no other module has.
    pub fn abstract_global_path(&self, name: &str) -> (value: Value)
        ensures
            values::value_form(value) == global_form(text::texts(self.origin@), name@),
    {
        let mut names: Vec<String> = Vec::new();
        let mut k: usize = 0;
        while k < self.origin.len()
            invariant
                k <= self.origin.len(),
                names@ == self.origin@.take(k as int),
            decreases self.origin.len() - k,
        {
            assert(self.origin@.take(k + 1) =~= self.origin@.take(k as int).push(
                self.origin@[k as int],
            ));
            names.push(self.origin[k].clone());
            k = k + 1;
        }
        assert(self.origin@.take(self.origin@.len() as int) =~= self.origin@);
        names.push(name.to_owned());
        assert(text::texts(names@) =~= text::texts(self.origin@).push(name@));
        let key = values::global_key(names);
        let value = values::key_to_value(&key);
        proof {
            let ghost x = values::key_form(key)->Node_1;
            let ghost y = global_form(text::texts(self.origin@), name@)->Node_1[0]->Node_1;
            assert(x =~= y);
            assert(values::value_form(value)->Node_1 =~= global_form(
                text::texts(self.origin@),
                name@,
            )->Node_1);
        }
        value
    }
}

/// What an import needs next.
#[derive(Debug, PartialEq, Eq)]
pub enum ImportStep {
    /// The definitions after the import.
    Done(Value),
    /// A module, between the definitions before and after it.
    Load { request: String, scope: Option<String>, prior_defs: Value, final_defs: Value },
    /// The bytes of a file.
    LoadBinary { request: String },
}

/// The same step, by forms.
pub enum ImportPlan {
    Done(Form),
    Load(Seq<char>, Option<Seq<char>>, Form, Form),
    LoadBinary(Seq<char>),
}

pub open spec fn plan_of(step: ImportStep) -> ImportPlan {
    match step {
        ImportStep::Done(value) => ImportPlan::Done(values::value_form(value)),
        ImportStep::Load { request, scope, prior_defs, final_defs } => ImportPlan::Load(
            request@,
            match scope {
                Some(scope) => Some(scope@),
                None => None,
            },
            values::value_form(prior_defs),
            values::value_form(final_defs),
        ),
        ImportStep::LoadBinary { request } => ImportPlan::LoadBinary(request@),
    }
}

/// The object of a module: it depends on nothing.
pub open spec fn module_object_form(name: Form, defs: Form) -> Form {
    values::lazy_form(
        objects::instance_form(
            values::embedded_form(name),
            values::list_form(Seq::empty()),
            values::provided_form(defs),
        ),
    )
}

pub fn module_object_value_with_defs_in(target: &str, definitions: Value, context: &CompileContext) -> (value:
    Value)
    ensures
        values::value_form(value) == module_object_form(
            global_form(text::texts(context.origin@), target@),
            values::value_form(definitions),
        ),
{
    let none: Vec<ResolvedExpr> = Vec::new();
    proof {
        values::no_forms();
        assert(none@ =~= Seq::empty());
    }
    lower_resolved_expr(
        object_instance_from_parts_resolved(
            ResolvedExpr::embedded(context.abstract_global_path(target)),
            ResolvedExpr::list(none),
            ResolvedExpr::provided(definitions),
        ),
    )
}

/// The definitions of an object that is a value.
pub fn constant_object_defs(context: &CompileContext, value: Value) -> (defs: Value)
    requires
        context.wf(),
    ensures
        values::value_form(defs) == compiler_values::constant_defs_of(values::value_form(value)),
{
    compiler_values::constant_object_defs(&context.compiler, value)
}

pub fn module_object_value_in(target: &str, module: Value, context: &CompileContext) -> (value:
    Value)
    requires
        context.wf(),
    ensures
        values::value_form(value) == module_object_form(
            global_form(text::texts(context.origin@), target@),
            compiler_values::constant_defs_of(values::value_form(module)),
        ),
{
    module_object_value_with_defs_in(target, constant_object_defs(context, module), context)
}

/// The environment of a module that is imported under a name: an object that
/// extends the environment of the importing module.
pub open spec fn inherited_env_form(origin: Seq<Seq<char>>, target: Seq<char>, definitions: Form) -> Form {
    values::lazy_form(
        objects::instance_form(
            values::provided_form(global_form(origin, target + ".env"@)),
            values::provided_form(
                values::lazy_form(
                    values::list_form(
                        seq![
                            objects::spec_form(
                                values::provided_form(definitions::reached("env"@, definitions)),
                            ),
                        ],
                    ),
                ),
            ),
            values::provided_form(compiler_values::empty_defs_form()),
        ),
    )
}

pub fn inherited_import_env_object_value_in(
    target: &str,
    definitions: Value,
    context: &CompileContext,
) -> (value: Value)
    requires
        context.wf(),
    ensures
        values::value_form(value) == inherited_env_form(
            text::texts(context.origin@),
            target@,
            values::value_form(definitions),
        ),
{
    let parent_env = path_value_in_definitions("env", definitions);
    let mut name = target.to_owned();
    text::push_text(&mut name, ".env");
    let deps = lower_resolved_expr(
        ResolvedExpr::list(one(object_spec_resolved(ResolvedExpr::provided(parent_env)))),
    );
    object_instance_from_parts_value(
        context.abstract_global_path(name.as_str()),
        deps,
        compiler_values::empty_object_defs(&context.compiler),
    )
}

/// The definitions before a module that is imported under a name: its
/// environment alone.
pub open spec fn as_prior_form(origin: Seq<Seq<char>>, target: Seq<char>, definitions: Form) -> Form {
    definitions::placed(
        definitions::path_form("env"@),
        inherited_env_form(origin, target, definitions),
        values::empty_dict_form(),
    )
}

pub fn import_as_prior_defs_in(target: &str, definitions: Value, context: &CompileContext) -> (value:
    Value)
    requires
        context.wf(),
    ensures
        values::value_form(value) == as_prior_form(
            text::texts(context.origin@),
            target@,
            values::value_form(definitions),
        ),
{
    let env = inherited_import_env_object_value_in(target, definitions, context);
    update_module_value(Value::empty_dict(), "env", env)
}

/// What to load for an import under a target.
pub fn scoped_local_import_value_in(
    request: &str,
    target: &str,
    prior_defs: Value,
    context: &CompileContext,
) -> (step: ImportStep)
    ensures
        plan_of(step) == ImportPlan::Load(
            request@,
            Some(target@),
            values::value_form(prior_defs),
            definitions::reached(target@, values::value_form(context.final_defs)),
        ),
{
    ImportStep::Load {
        request: request.to_owned(),
        scope: Some(target.to_owned()),
        prior_defs,
        final_defs: path_value_in_definitions(target, context.final_defs.copy()),
    }
}

/// The definitions after a built-in module, by forms.
pub open spec fn builtin_import(
    name: Seq<char>,
    placement: ImportPlacement,
    origin: Seq<Seq<char>>,
    definitions: Form,
    module: Value,
) -> Form {
    let form = values::value_form(module);
    match placement {
        ImportPlacement::Inline => definitions::merged_value(definitions, module),
        ImportPlacement::As(target) => definitions::placed(
            definitions::path_form(target@),
            module_object_form(
                global_form(origin, target@),
                compiler_values::constant_defs_of(form),
            ),
            definitions,
        ),
        ImportPlacement::At(target) => definitions::placed(
            definitions::path_form(target@),
            extension_form(target@, compiler_values::constant_defs_of(form), definitions),
            definitions,
        ),
    }
}

/// The object at a target, extended with definitions.
pub open spec fn extension_form(target: Seq<char>, defs: Form, definitions: Form) -> Form {
    values::lazy_form(
        objects::extended_form(
            target,
            values::provided_form(defs),
            values::provided_form(definitions),
            0,
        ),
    )
}

pub fn lower_builtin_import(
    name: &str,
    placement: &ImportPlacement,
    line: usize,
    context: &CompileContext,
    definitions: Value,
) -> (result: Result<Value, Diagnostic>)
    requires
        context.wf(),
    ensures
        match compiler_values::module_named(name@) {
            Some(form) => result matches Ok(found) && exists|module: Value|
                values::value_form(module) == form && values::value_form(found)
                    == #[trigger] builtin_import(
                    name@,
                    *placement,
                    text::texts(context.origin@),
                    values::value_form(definitions),
                    module,
                ),
            None => result matches Err(found) && found@ == diagnostic::error_at(
                line as nat,
                "unknown built-in module `'"@ + name@ + "`"@,
            ),
        },
{
    let module = match builtin_module(&context.compiler, name) {
        Some(module) => module,
        None => {
            let mut message = "unknown built-in module `'".to_owned();
            text::push_text(&mut message, name);
            text::push_text(&mut message, "`");
            return Err(Diagnostic::error(line, message.as_str()));
        },
    };
    let ghost value = module.value;
    let ghost told = values::value_form(definitions);
    let found = match placement {
        ImportPlacement::Inline => update_module_dict_value(definitions, module.value),
        ImportPlacement::As(target) => update_module_value(
            definitions,
            target.as_str(),
            module_object_value_with_defs_in(target.as_str(), module.definitions, context),
        ),
        ImportPlacement::At(target) => {
            let object = extend_object_with_defs(
                target.as_str(),
                module.definitions,
                definitions.copy(),
            );
            update_module_value(definitions, target.as_str(), object)
        },
    };
    assert(values::value_form(found) == builtin_import(
        name@,
        *placement,
        text::texts(context.origin@),
        told,
        value,
    ));
    Ok(found)
}

/// The definitions after a module that was loaded.
pub open spec fn local_import(
    placement: ImportPlacement,
    origin: Seq<Seq<char>>,
    definitions: Form,
    loaded: Form,
) -> Form {
    match placement {
        ImportPlacement::Inline => loaded,
        ImportPlacement::As(target) => definitions::placed(
            definitions::path_form(target@),
            module_object_form(
                global_form(origin, target@),
                compiler_values::constant_defs_of(loaded),
            ),
            definitions,
        ),
        ImportPlacement::At(target) => definitions::placed(
            definitions::path_form(target@),
            extension_form(target@, compiler_values::constant_defs_of(loaded), definitions),
            definitions,
        ),
    }
}

/// Places a module that was loaded.
pub fn lower_local_import(
    placement: &ImportPlacement,
    loaded: Value,
    context: &CompileContext,
    definitions: Value,
) -> (found: Value)
    requires
        context.wf(),
    ensures
        values::value_form(found) == local_import(
            *placement,
            text::texts(context.origin@),
            values::value_form(definitions),
            values::value_form(loaded),
        ),
{
    match placement {
        ImportPlacement::Inline => loaded,
        ImportPlacement::As(target) => update_module_value(
            definitions,
            target.as_str(),
            module_object_value_in(target.as_str(), loaded, context),
        ),
        ImportPlacement::At(target) => {
            let object = extend_object_with_defs(
                target.as_str(),
                constant_object_defs(context, loaded),
                definitions.copy(),
            );
            update_module_value(definitions, target.as_str(), object)
        },
    }
}

/// Places the bytes of a file that was loaded. Only a name can hold them.
pub fn lower_local_binary_import(
    placement: &ImportPlacement,
    line: usize,
    loaded: Value,
    definitions: Value,
) -> (result: Result<Value, Diagnostic>)
    ensures
        match *placement {
            ImportPlacement::As(target) => result matches Ok(found) && values::value_form(found)
                == definitions::placed(
                definitions::path_form(target@),
                values::value_form(loaded),
                values::value_form(definitions),
            ),
            _ => result matches Err(found) && found@ == diagnostic::error_at(
                line as nat,
                "`import ... binary` requires `as name`"@,
            ),
        },
{
    match placement {
        ImportPlacement::As(target) => Ok(
            update_module_value(definitions, target.as_str(), loaded),
        ),
        _ => Err(Diagnostic::error(line, "`import ... binary` requires `as name`")),
    }
}

/// What an import needs, by forms. The problem is what is wrong with the
/// request of a file.
pub open spec fn import_plan(
    import: ImportDecl,
    problem: Option<String>,
    context: CompileContext,
    definitions: Form,
) -> Result<ImportPlan, Seq<char>> {
    let origin = text::texts(context.origin@);
    let final_defs = values::value_form(context.final_defs);
    match import.reference {
        ImportReference::Builtin(name) => if import.binary {
            Err("built-in imports cannot use the `binary` modifier"@)
        } else if compiler_values::module_named(name@) is None {
            Err("unknown built-in module `'"@ + name@ + "`"@)
        } else {
            Ok(ImportPlan::Done(definitions))
        },
        ImportReference::Local(request) => if problem is Some {
            Err((problem->0)@)
        } else if import.binary {
            if import.placement is As {
                Ok(ImportPlan::LoadBinary(request@))
            } else {
                Err("`import ... binary` requires `as name`"@)
            }
        } else {
            match import.placement {
                ImportPlacement::Inline => Ok(
                    ImportPlan::Load(request@, None, definitions, final_defs),
                ),
                ImportPlacement::As(target) => Ok(
                    ImportPlan::Load(
                        request@,
                        Some(target@),
                        as_prior_form(origin, target@, definitions),
                        definitions::reached(target@, final_defs),
                    ),
                ),
                ImportPlacement::At(target) => Ok(
                    ImportPlan::Load(
                        request@,
                        Some(target@),
                        definitions::reached(target@, definitions),
                        definitions::reached(target@, final_defs),
                    ),
                ),
            }
        },
    }
}

/// Whether a step is what a plan asks for. For a built-in module the step holds
/// the definitions after it.
pub open spec fn follows(
    step: ImportStep,
    plan: ImportPlan,
    import: ImportDecl,
    context: CompileContext,
) -> bool {
    match plan {
        ImportPlan::Done(definitions) => match import.reference {
            ImportReference::Builtin(name) => step matches ImportStep::Done(found) && exists|
                module: Value,
            |
                compiler_values::module_named(name@) == Some(values::value_form(module))
                    && values::value_form(found) == #[trigger] builtin_import(
                    name@,
                    import.placement,
                    text::texts(context.origin@),
                    definitions,
                    module,
                ),
            ImportReference::Local(_) => false,
        },
        _ => plan_of(step) == plan,
    }
}

/// Decides what an import needs.
pub fn lower_import(
    import: &ImportDecl,
    problem: Option<String>,
    line: usize,
    context: &CompileContext,
    definitions: Value,
) -> (result: Result<ImportStep, Diagnostic>)
    requires
        context.wf(),
    ensures
        match import_plan(*import, problem, *context, values::value_form(definitions)) {
            Ok(plan) => result matches Ok(step) && follows(step, plan, *import, *context),
            Err(message) => result matches Err(found) && found@ == diagnostic::error_at(
                line as nat,
                message,
            ),
        },
{
    match &import.reference {
        ImportReference::Builtin(name) => {
            if import.binary {
                return Err(
                    Diagnostic::error(line, "built-in imports cannot use the `binary` modifier"),
                );
            }
            match lower_builtin_import(
                name.as_str(),
                &import.placement,
                line,
                context,
                definitions,
            ) {
                Ok(found) => Ok(ImportStep::Done(found)),
                Err(error) => Err(error),
            }
        },
        ImportReference::Local(request) => {
            if let Some(message) = problem {
                return Err(Diagnostic::error(line, message.as_str()));
            }
            if import.binary {
                return match &import.placement {
                    ImportPlacement::As(_) => Ok(
                        ImportStep::LoadBinary { request: request.clone() },
                    ),
                    _ => Err(Diagnostic::error(line, "`import ... binary` requires `as name`")),
                };
            }
            match &import.placement {
                ImportPlacement::Inline => Ok(
                    ImportStep::Load {
                        request: request.clone(),
                        scope: None,
                        prior_defs: definitions,
                        final_defs: context.final_defs.copy(),
                    },
                ),
                ImportPlacement::As(target) => {
                    let prior_defs = import_as_prior_defs_in(
                        target.as_str(),
                        definitions,
                        context,
                    );
                    Ok(
                        scoped_local_import_value_in(
                            request.as_str(),
                            target.as_str(),
                            prior_defs,
                            context,
                        ),
                    )
                },
                ImportPlacement::At(target) => {
                    let prior_defs = path_value_in_definitions(target.as_str(), definitions);
                    Ok(
                        scoped_local_import_value_in(
                            request.as_str(),
                            target.as_str(),
                            prior_defs,
                            context,
                        ),
                    )
                },
            }
        },
    }
}

/// Definitions after names that are unique to the module.
pub open spec fn unique_form(names: Seq<Seq<char>>, origin: Seq<Seq<char>>, definitions: Form) -> Form
    decreases names.len(),
{
    if names.len() == 0 {
        definitions
    } else {
        definitions::placed(
            definitions::path_form(names.last()),
            global_form(origin, names.last()),
            unique_form(names.drop_last(), origin, definitions),
        )
    }
}

pub fn lower_unique(names: &Vec<String>, context: &CompileContext, definitions: Value) -> (found:
    Value)
    ensures
        values::value_form(found) == unique_form(
            text::texts(names@),
            text::texts(context.origin@),
            values::value_form(definitions),
        ),
{
    let ghost start = values::value_form(definitions);
    let ghost all = text::texts(names@);
    let mut found = definitions;
    let mut k: usize = 0;
    assert(all.take(0) =~= Seq::empty());
    while k < names.len()
        invariant
            k <= names.len(),
            all == text::texts(names@),
            all.len() == names.len(),
            values::value_form(found) == unique_form(
                all.take(k as int),
                text::texts(context.origin@),
                start,
            ),
        decreases names.len() - k,
    {
        assert(all.take(k + 1).drop_last() =~= all.take(k as int));
        assert(all.take(k + 1).last() == names@[k as int]@);
        found = update_module_value(
            found,
            names[k].as_str(),
            context.abstract_global_path(names[k].as_str()),
        );
        k = k + 1;
    }
    assert(all.take(all.len() as int) =~= all);
    found
}

/// Declaring names together is declaring them one list after the other.
pub proof fn unique_names_split(
    first: Seq<Seq<char>>,
    second: Seq<Seq<char>>,
    origin: Seq<Seq<char>>,
    definitions: Form,
)
    ensures
        unique_form(first + second, origin, definitions) == unique_form(
            second,
            origin,
            unique_form(first, origin, definitions),
        ),
    decreases second.len(),
{
    if second.len() == 0 {
        assert(first + second =~= first);
    } else {
        assert((first + second).drop_last() =~= first + second.drop_last());
        unique_names_split(first, second.drop_last(), origin, definitions);
    }
}

/// Two names of a module are different values.
pub proof fn unique_names_differ(origin: Seq<Seq<char>>, a: Seq<char>, b: Seq<char>)
    requires
        a != b,
    ensures
        global_form(origin, a) != global_form(origin, b),
{
    let x = global_form(origin, a)->Node_1[0]->Node_1;
    let y = global_form(origin, b)->Node_1[0]->Node_1;
    assert(x[origin.len() as int] == Form::Text(a));
    assert(y[origin.len() as int] == Form::Text(b));
}

} // verus!
