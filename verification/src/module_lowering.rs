//! A module as the definitions that its declarations leave, one after the
//! other.

use vstd::prelude::*;
use crate::ast::{
    Declaration, DeclarationKind, DefinitionDecl, ImportDecl, ObjectDecl, ObjectExtendDecl,
    ParsedSource,
};
use crate::compiler_values;
use crate::compiler_values::reflection_annotator_value;
use crate::definitions;
use crate::definitions::{
    automatic_reflection_for_declared_target, lower_definition_resolved, DefinitionTarget,
    NameScope, ReflectionBoundary, ResolvedRoot,
};
use crate::diagnostic;
use crate::diagnostic::{Diagnostic, DiagnosticView};
use crate::imports;
use crate::imports::{
    lower_import, lower_local_binary_import, lower_local_import, lower_unique, CompileContext,
    ImportStep,
};
use crate::name_analysis;
use crate::name_analysis::check_file_global_local_shadowing;
use crate::object_bodies;
use crate::object_bodies::{
    object_body_defs_resolved_in_scope, Failure, Guarding, MemberResolution,
};
use crate::objects;
use crate::objects::{lower_extend, lower_object, object_decl_resolved_in_scope};
use crate::text;
use crate::values;
use crate::values::{
    lower_resolved_expr, Form, ResolvedExpr, ResolverContext, Value,
};

verus! {

/// What names resolution and loading gave for a declaration.
#[derive(Debug, PartialEq, Eq)]
pub enum Resolution {
    Nothing,
    /// What is wrong with the request of an import, or what it loaded.
    Import { problem: Option<String>, loaded: Value },
    /// The target of a definition, where parts of it are computed, and its
    /// code.
    Definition { computed: Option<DefinitionTarget>, code: ResolvedExpr },
    /// The objects that an object extends, and its members.
    Object { deps: Vec<ResolvedExpr>, members: Vec<MemberResolution> },
    /// The members of an extension.
    Extension { members: Vec<MemberResolution> },
}

/// Whether a resolution is one for a kind of declaration.
pub open spec fn suits(resolution: Resolution, kind: DeclarationKind) -> bool {
    match kind {
        DeclarationKind::Import(_) => resolution is Import,
        DeclarationKind::Definition(definition) => resolution matches Resolution::Definition {
            computed,
            ..
        } && (definitions::written(definition.target@) || computed is Some),
        DeclarationKind::Object(_) => resolution is Object,
        DeclarationKind::Extend(_) => resolution is Extension,
        _ => true,
    }
}

/// The program that a source is lowered to.
#[derive(Debug, PartialEq, Eq)]
pub struct LoweredSource {
    pub definitions: Value,
    pub diagnostics: Vec<Diagnostic>,
}

#[derive(Debug, PartialEq, Eq)]
pub struct ModuleLowerer {
    pub definitions: Value,
    pub module_reflection: Value,
    pub diagnostics: Vec<Diagnostic>,
    pub parsed_declarations: Vec<Declaration>,
}

/// The scope of a declaration of a module.
pub open spec fn module_scope(
    context: CompileContext,
    definitions: Value,
    reflection: Value,
) -> NameScope {
    NameScope {
        final_defs: ResolvedRoot::Provided(context.final_defs),
        prior_defs: ResolvedRoot::Provided(definitions),
        module_final_defs: ResolvedRoot::Provided(context.final_defs),
        module_prior_defs: ResolvedRoot::Provided(definitions),
        object_alias: None,
        object_final_defs: None,
        object_prior_defs: None,
        reflection: Some(ReflectionBoundary { annotator: ResolvedRoot::Provided(reflection) }),
        parent: None,
    }
}

/// What is left of an import, or why it fails.
pub open spec fn imported(
    found: Result<Form, Failure>,
    import: ImportDecl,
    problem: Option<String>,
    loaded: Value,
    context: CompileContext,
    before: Form,
    line: nat,
) -> bool {
    match imports::import_plan(import, problem, context, before) {
        Err(message) => found == Err::<Form, Failure>((line, message)),
        Ok(imports::ImportPlan::Done(_)) => found matches Ok(form) && exists|step: ImportStep|
            #[trigger] imports::follows(
                step,
                imports::ImportPlan::Done(before),
                import,
                context,
            ) && step is Done && values::value_form(step->Done_0) == form,
        Ok(imports::ImportPlan::LoadBinary(_)) => found == Ok::<Form, Failure>(
            definitions::placed(
                definitions::path_form((import.placement->As_0)@),
                values::value_form(loaded),
                before,
            ),
        ),
        Ok(imports::ImportPlan::Load(..)) => found == Ok::<Form, Failure>(
            imports::local_import(
                import.placement,
                text::texts(context.origin@),
                before,
                values::value_form(loaded),
            ),
        ),
    }
}

/// Whether the body of an object of a module is guarded.
pub open spec fn guarded(context: CompileContext, target: Seq<char>) -> bool {
    context.automatic_reflection_boundaries && !definitions::reflective(text::dotted(target)[0])
}

/// How the bodies of the objects of a module are guarded.
pub open spec fn guarding(context: CompileContext) -> Guarding {
    Guarding {
        mark: values::value_form(context.object_mark),
        automatic: context.automatic_reflection_boundaries,
    }
}

/// The definitions that a declaration leaves, by their form, or why it fails.
pub open spec fn declared(
    found: Result<Form, Failure>,
    kind: DeclarationKind,
    line: nat,
    resolution: Resolution,
    context: CompileContext,
    before: Value,
    reflection: Value,
) -> bool {
    let form = values::value_form(before);
    let root = ResolvedRoot::Provided(before);
    match kind {
        DeclarationKind::Import(import) => match resolution {
            Resolution::Import { problem, loaded } => imported(
                found,
                import,
                problem,
                loaded,
                context,
                form,
                line,
            ),
            _ => false,
        },
        DeclarationKind::Unique(names) => found == Ok::<Form, Failure>(
            imports::unique_form(text::texts(names@), text::texts(context.origin@), form),
        ),
        DeclarationKind::Definition(definition) => match resolution {
            Resolution::Definition { computed, code } => found == match definitions::defined(
                definition,
                definitions::target_of(definition, computed),
                code,
                root,
                module_scope(context, before, reflection),
            ) {
                Ok(code) => Ok::<Form, Failure>(values::lowered_form(code)),
                Err(message) => Err((line, message)),
            },
            _ => false,
        },
        DeclarationKind::Object(object) => match resolution {
            Resolution::Object { deps, members } => found == match object_bodies::body_form(
                object.body@,
                members@,
                line,
                guarded(context, object.target@),
                guarding(context),
                0,
            ) {
                Err(failure) => Err::<Form, Failure>(failure),
                Ok((defs, _)) => Ok(
                    values::lowered_form(
                        objects::declared_form(
                            "assert_undefined"@,
                            object.target@,
                            objects::instance_form(
                                values::embedded_form(
                                    imports::global_form(
                                        text::texts(context.origin@),
                                        object.target@,
                                    ),
                                ),
                                values::list_form(
                                    objects::specs_form(values::codes_form(deps@)),
                                ),
                                defs,
                            ),
                            definitions::root_form(root),
                        ),
                    ),
                ),
            },
            _ => false,
        },
        DeclarationKind::Extend(extend) => match resolution {
            Resolution::Extension { members } => found == match object_bodies::body_form(
                extend.body@,
                members@,
                line,
                guarded(context, extend.target@),
                guarding(context),
                0,
            ) {
                Err(failure) => Err::<Form, Failure>(failure),
                Ok((defs, next)) => if next + 3 > usize::MAX {
                    Err((line, object_bodies::crowded_message()))
                } else {
                    Ok(
                        values::lowered_form(
                            objects::declared_form(
                                "assert_defined"@,
                                extend.target@,
                                objects::extended_form(
                                    extend.target@,
                                    defs,
                                    definitions::root_form(root),
                                    next,
                                ),
                                definitions::root_form(root),
                            ),
                        ),
                    )
                },
            },
            _ => false,
        },
        _ => found == Ok::<Form, Failure>(form),
    }
}

/// The outcome of a declaration by its form.
pub open spec fn outcome(result: Result<Value, Diagnostic>) -> Result<Form, Failure> {
    match result {
        Ok(value) => Ok(values::value_form(value)),
        Err(error) => Err((error.line as nat, error.message@)),
    }
}

/// An error is reported as it is.
pub open spec fn faithful(result: Result<Value, Diagnostic>) -> bool {
    result matches Err(error) ==> error@ == diagnostic::error_at(error.line as nat, error.message@)
}

/// Lowers a definition of a module.
pub fn resolve_module_definition(
    definition: &DefinitionDecl,
    computed: Option<DefinitionTarget>,
    code: ResolvedExpr,
    line: usize,
    definitions: Value,
    scope: &NameScope,
) -> (result: Result<ResolvedExpr, Diagnostic>)
    requires
        definitions::written(definition.target@) || computed is Some,
    ensures
        match definitions::defined(
            *definition,
            definitions::target_of(*definition, computed),
            code,
            ResolvedRoot::Provided(definitions),
            *scope,
        ) {
            Ok(form) => result matches Ok(lowered) && values::code_form(lowered) == form,
            Err(message) => result matches Err(found) && found@ == diagnostic::error_at(
                line as nat,
                message,
            ),
        },
{
    lower_definition_resolved(
        definition,
        computed,
        code,
        line,
        &ResolvedRoot::Provided(definitions),
        scope,
    )
}

/// Lowers an import whose module was loaded.
fn lower_loaded_import(
    import: &ImportDecl,
    problem: Option<String>,
    loaded: Value,
    line: usize,
    context: &CompileContext,
    definitions: Value,
) -> (result: Result<Value, Diagnostic>)
    requires
        context.wf(),
    ensures
        imported(
            outcome(result),
            *import,
            problem,
            loaded,
            *context,
            values::value_form(definitions),
            line as nat,
        ),
        faithful(result),
{
    let before = definitions.copy();
    match lower_import(import, problem, line, context, definitions) {
        Err(error) => Err(error),
        Ok(step) => match step {
            ImportStep::Done(found) => {
                assert(imports::follows(
                    ImportStep::Done(found),
                    imports::ImportPlan::Done(values::value_form(before)),
                    *import,
                    *context,
                ));
                Ok(found)
            },
            ImportStep::Load { .. } => Ok(
                lower_local_import(&import.placement, loaded, context, before),
            ),
            ImportStep::LoadBinary { .. } => lower_local_binary_import(
                &import.placement,
                line,
                loaded,
                before,
            ),
        },
    }
}

/// The annotator of a module: its guard is a name of the module, and its tasks
/// are those of the definitions after the module.
pub open spec fn reflection_form(context: CompileContext) -> Form {
    values::lazy_form(
        compiler_values::annotator_of(
            values::provided_form(imports::global_form(text::texts(context.origin@), "refl"@)),
            values::provided_form(values::value_form(context.final_defs)),
        ),
    )
}

impl ModuleLowerer {
    pub fn new(context: &CompileContext) -> (lowerer: Self)
        requires
            context.wf(),
        ensures
            lowerer.definitions == context.prior_defs,
            values::value_form(lowerer.module_reflection) == reflection_form(*context),
            lowerer.diagnostics@.len() == 0,
            lowerer.parsed_declarations@.len() == 0,
    {
        ModuleLowerer {
            definitions: context.prior_defs.copy(),
            module_reflection: reflection_annotator_value(
                &context.compiler,
                context.abstract_global_path("refl"),
                context.final_defs.copy(),
            ),
            diagnostics: Vec::new(),
            parsed_declarations: Vec::new(),
        }
    }

    /// The scope of a declaration of the module.
    fn scope(&self, context: &CompileContext) -> (scope: NameScope)
        ensures
            scope == module_scope(*context, self.definitions, self.module_reflection),
    {
        NameScope::module_with_reflection(
            context.final_defs.copy(),
            self.definitions.copy(),
            ReflectionBoundary {
                annotator: ResolvedRoot::Provided(self.module_reflection.copy()),
            },
        )
    }

    /// The definitions that an object leaves.
    fn lower_object_declaration(
        &self,
        object: &ObjectDecl,
        deps: Vec<ResolvedExpr>,
        members: Vec<MemberResolution>,
        line: usize,
        context: &CompileContext,
    ) -> (result: Result<Value, Diagnostic>)
        requires
            context.wf(),
        ensures
            declared(
                outcome(result),
                DeclarationKind::Object(*object),
                line as nat,
                Resolution::Object { deps, members },
                *context,
                self.definitions,
                self.module_reflection,
            ),
            faithful(result),
    {
        let automatic = context.automatic_reflection_boundaries;
        let target = object.target.as_str();
        let alias = match &object.alias {
            Some(alias) => Some(alias.as_str()),
            None => None,
        };
        let mut locals = ResolverContext::new();
        let defs = match object_body_defs_resolved_in_scope(
            &object.body,
            members,
            alias,
            line,
            &context.compiler,
            &self.scope(context),
            &mut locals,
            automatic_reflection_for_declared_target(target, automatic),
            &context.object_mark,
            automatic,
        ) {
            Ok(defs) => defs,
            Err(error) => {
                return Err(error);
            },
        };
        let name = ResolvedExpr::embedded(context.abstract_global_path(target));
        let code = object_decl_resolved_in_scope(name, deps, defs);
        let root = ResolvedRoot::Provided(self.definitions.copy());
        Ok(lower_resolved_expr(lower_object(target, code, line, &root)))
    }

    /// The definitions that the extension of an object leaves.
    fn lower_extend_declaration(
        &self,
        extend: &ObjectExtendDecl,
        members: Vec<MemberResolution>,
        line: usize,
        context: &CompileContext,
    ) -> (result: Result<Value, Diagnostic>)
        requires
            context.wf(),
        ensures
            declared(
                outcome(result),
                DeclarationKind::Extend(*extend),
                line as nat,
                Resolution::Extension { members },
                *context,
                self.definitions,
                self.module_reflection,
            ),
            faithful(result),
    {
        let automatic = context.automatic_reflection_boundaries;
        let target = extend.target.as_str();
        let alias = match &extend.alias {
            Some(alias) => Some(alias.as_str()),
            None => None,
        };
        let mut locals = ResolverContext::new();
        let defs = match object_body_defs_resolved_in_scope(
            &extend.body,
            members,
            alias,
            line,
            &context.compiler,
            &self.scope(context),
            &mut locals,
            automatic_reflection_for_declared_target(target, automatic),
            &context.object_mark,
            automatic,
        ) {
            Ok(defs) => defs,
            Err(error) => {
                return Err(error);
            },
        };
        if locals.next > usize::MAX - 3 {
            return Err(Diagnostic::error(line, "object body uses too many locals"));
        }
        let root = ResolvedRoot::Provided(self.definitions.copy());
        Ok(lower_resolved_expr(lower_extend(target, defs, line, &root, &mut locals)))
    }

    /// The definitions that a declaration leaves.
    fn lowered(
        &self,
        declaration: &Declaration,
        resolution: Resolution,
        context: &CompileContext,
    ) -> (result: Result<Value, Diagnostic>)
        requires
            context.wf(),
            suits(resolution, declaration.kind),
        ensures
            declared(
                outcome(result),
                declaration.kind,
                declaration.line as nat,
                resolution,
                *context,
                self.definitions,
                self.module_reflection,
            ),
            faithful(result),
    {
        let line = declaration.line;
        match &declaration.kind {
            DeclarationKind::Import(import) => match resolution {
                Resolution::Import { problem, loaded } => lower_loaded_import(
                    import,
                    problem,
                    loaded,
                    line,
                    context,
                    self.definitions.copy(),
                ),
                _ => Ok(self.definitions.copy()),
            },
            DeclarationKind::Unique(names) => Ok(
                lower_unique(names, context, self.definitions.copy()),
            ),
            DeclarationKind::Definition(definition) => match resolution {
                Resolution::Definition { computed, code } => {
                    let scope = self.scope(context);
                    match resolve_module_definition(
                        definition,
                        computed,
                        code,
                        line,
                        self.definitions.copy(),
                        &scope,
                    ) {
                        Ok(code) => Ok(lower_resolved_expr(code)),
                        Err(error) => Err(error),
                    }
                },
                _ => Ok(self.definitions.copy()),
            },
            DeclarationKind::Object(object) => match resolution {
                Resolution::Object { deps, members } => self.lower_object_declaration(
                    object,
                    deps,
                    members,
                    line,
                    context,
                ),
                _ => Ok(self.definitions.copy()),
            },
            DeclarationKind::Extend(extend) => match resolution {
                Resolution::Extension { members } => self.lower_extend_declaration(
                    extend,
                    members,
                    line,
                    context,
                ),
                _ => Ok(self.definitions.copy()),
            },
            DeclarationKind::Language(_) | DeclarationKind::Abstract(_)
            | DeclarationKind::Unknown => Ok(self.definitions.copy()),
        }
    }

    /// Lowers the next declaration. One that fails is reported, and leaves the
    /// definitions as they are.
    pub fn lower_declaration(
        &mut self,
        declaration: Declaration,
        resolution: Resolution,
        context: &CompileContext,
    )
        requires
            context.wf(),
            suits(resolution, declaration.kind),
        ensures
            stepped(*old(self), *final(self), declaration, resolution, *context),
    {
        proof {
            reveal(stepped);
        }
        let result = self.lowered(&declaration, resolution, context);
        let ghost found = outcome(result);
        let ghost told = diagnostic::reports(self.diagnostics@);
        match result {
            Ok(definitions) => {
                self.definitions = definitions;
            },
            Err(error) => {
                self.diagnostics.push(error);
                assert(diagnostic::reports(self.diagnostics@) =~= told.push(
                    diagnostic::error_at(found->Err_0.0, found->Err_0.1),
                ));
            },
        }
        self.parsed_declarations.push(declaration);
        assert(declared(
            found,
            declaration.kind,
            declaration.line as nat,
            resolution,
            *context,
            old(self).definitions,
            old(self).module_reflection,
        ));
    }

    /// Records a declaration that was refused before it could be lowered. It is
    /// reported, and leaves the definitions as they are.
    pub fn refuse_declaration(&mut self, declaration: Declaration, diagnostic: Diagnostic)
        ensures
            final(self).definitions == old(self).definitions,
            final(self).module_reflection == old(self).module_reflection,
            final(self).diagnostics@ == old(self).diagnostics@.push(diagnostic),
            final(self).parsed_declarations@ == old(self).parsed_declarations@.push(declaration),
    {
        self.diagnostics.push(diagnostic);
        self.parsed_declarations.push(declaration);
    }

    pub fn parsed_declarations(&self) -> (declarations: &Vec<Declaration>)
        ensures
            declarations@ == self.parsed_declarations@,
    {
        &self.parsed_declarations
    }

    pub fn definitions(&self) -> (definitions: Value)
        ensures
            definitions == self.definitions,
    {
        self.definitions.copy()
    }

    /// The lowered source. What the source reported comes first, and what
    /// lowering reported last.
    pub fn finish(self, source_diagnostics: Vec<Diagnostic>) -> (source: LoweredSource)
        ensures
            source.definitions == self.definitions,
            diagnostic::reports(source.diagnostics@) == reported(
                diagnostic::reports(source_diagnostics@),
                self.parsed_declarations@,
                diagnostic::reports(self.diagnostics@),
            ),
    {
        let ghost first = source_diagnostics@;
        let ghost last = self.diagnostics@;
        let mut diagnostics = source_diagnostics;
        let mut shadowing = check_file_global_local_shadowing(&self.parsed_declarations);
        let ghost middle = shadowing@;
        let mut own = self.diagnostics;
        diagnostics.append(&mut shadowing);
        diagnostics.append(&mut own);
        assert(diagnostics@ =~= first + middle + last);
        assert(diagnostic::reports(diagnostics@) =~= diagnostic::reports(first)
            + diagnostic::reports(middle) + diagnostic::reports(last));
        LoweredSource { definitions: self.definitions, diagnostics }
    }
}

/// A module before and after one declaration. A declaration that fails is
/// reported, and leaves the definitions as they are.
#[verifier::opaque]
pub open spec fn stepped(
    before: ModuleLowerer,
    after: ModuleLowerer,
    declaration: Declaration,
    resolution: Resolution,
    context: CompileContext,
) -> bool {
    &&& exists|found: Result<Form, Failure>|
        #[trigger] declared(
            found,
            declaration.kind,
            declaration.line as nat,
            resolution,
            context,
            before.definitions,
            before.module_reflection,
        ) && match found {
            Ok(form) => values::value_form(after.definitions) == form && after.diagnostics@
                == before.diagnostics@,
            Err(failure) => after.definitions == before.definitions && diagnostic::reports(
                after.diagnostics@,
            ) == diagnostic::reports(before.diagnostics@).push(
                diagnostic::error_at(failure.0, failure.1),
            ),
        }
    &&& after.parsed_declarations@ == before.parsed_declarations@.push(declaration)
    &&& after.module_reflection == before.module_reflection
}

/// A module after declarations, each with its resolution.
pub open spec fn reached(
    lowerer: ModuleLowerer,
    declarations: Seq<Declaration>,
    resolutions: Seq<Resolution>,
    context: CompileContext,
) -> bool
    decreases declarations.len(),
{
    if declarations.len() == 0 {
        lowerer.definitions == context.prior_defs && values::value_form(lowerer.module_reflection)
            == reflection_form(context) && lowerer.diagnostics@.len() == 0
            && lowerer.parsed_declarations@.len() == 0
    } else {
        exists|before: ModuleLowerer|
            reached(before, declarations.drop_last(), resolutions.drop_last(), context)
                && #[trigger] stepped(
                before,
                lowerer,
                declarations.last(),
                resolutions.last(),
                context,
            )
    }
}

/// What was declared is kept, in order.
pub proof fn declarations_are_kept(
    lowerer: ModuleLowerer,
    declarations: Seq<Declaration>,
    resolutions: Seq<Resolution>,
    context: CompileContext,
)
    requires
        reached(lowerer, declarations, resolutions, context),
    ensures
        lowerer.parsed_declarations@ == declarations,
    decreases declarations.len(),
{
    if declarations.len() > 0 {
        reveal(stepped);
        let before = choose|before: ModuleLowerer|
            reached(before, declarations.drop_last(), resolutions.drop_last(), context)
                && #[trigger] stepped(
                before,
                lowerer,
                declarations.last(),
                resolutions.last(),
                context,
            );
        declarations_are_kept(before, declarations.drop_last(), resolutions.drop_last(), context);
        assert(declarations.drop_last().push(declarations.last()) =~= declarations);
    } else {
        assert(lowerer.parsed_declarations@ =~= declarations);
    }
}

/// Lowers a parsed source whose declarations were resolved.
pub fn lower_parsed_source(
    parsed: ParsedSource,
    resolutions: Vec<Resolution>,
    context: &CompileContext,
) -> (source: LoweredSource)
    requires
        context.wf(),
        resolutions@.len() == parsed.declarations@.len(),
        forall|k: int|
            0 <= k < resolutions@.len() ==> suits(
                #[trigger] resolutions@[k],
                parsed.declarations@[k].kind,
            ),
    ensures
        exists|lowerer: ModuleLowerer|
            #[trigger] reached(lowerer, parsed.declarations@, resolutions@, *context)
                && source.definitions == lowerer.definitions && diagnostic::reports(
                source.diagnostics@,
            ) == reported(
                diagnostic::reports(parsed.diagnostics@),
                parsed.declarations@,
                diagnostic::reports(lowerer.diagnostics@),
            ),
{
    let ghost all = parsed.declarations@;
    let ghost parts = resolutions@;
    let ghost n = all.len() as int;
    let mut lowerer = ModuleLowerer::new(context);
    let mut declarations = parsed.declarations;
    let mut rest = resolutions;
    let ghost mut k: int = 0;
    assert(all.take(0) =~= Seq::empty());
    while declarations.len() > 0
        invariant
            context.wf(),
            n == all.len(),
            parts.len() == n,
            0 <= k <= n,
            declarations@ == all.skip(k),
            rest@ == parts.skip(k),
            forall|i: int| 0 <= i < n ==> suits(#[trigger] parts[i], all[i].kind),
            reached(lowerer, all.take(k), parts.take(k), *context),
        decreases declarations.len(),
    {
        let ghost before = lowerer;
        assert(declarations@[0] == all[k]);
        assert(rest@[0] == parts[k]);
        let declaration = declarations.remove(0);
        let resolution = rest.remove(0);
        lowerer.lower_declaration(declaration, resolution, context);
        proof {
            assert(all.take(k + 1).drop_last() =~= all.take(k));
            assert(parts.take(k + 1).drop_last() =~= parts.take(k));
            assert(declarations@ =~= all.skip(k + 1));
            assert(rest@ =~= parts.skip(k + 1));
            assert(all.take(k + 1).last() == declaration);
            assert(parts.take(k + 1).last() == resolution);
            assert(stepped(before, lowerer, declaration, resolution, *context));
            assert(reached(lowerer, all.take(k + 1), parts.take(k + 1), *context));
            k = k + 1;
        }
    }
    proof {
        assert(all.take(k) =~= all);
        assert(parts.take(k) =~= parts);
        declarations_are_kept(lowerer, all, parts, *context);
    }
    lowerer.finish(parsed.diagnostics)
}

/// Everything that is reported of a module.
pub open spec fn reported(
    source: Seq<DiagnosticView>,
    declarations: Seq<Declaration>,
    lowering: Seq<DiagnosticView>,
) -> Seq<DiagnosticView> {
    let names = name_analysis::n_file(declarations);
    source + name_analysis::conflicts(names, names.binders) + lowering
}

/// Languages, abstract names and unknown declarations leave the definitions as
/// they are.
pub proof fn silent_declarations_keep_definitions(
    found: Result<Form, Failure>,
    kind: DeclarationKind,
    line: nat,
    resolution: Resolution,
    context: CompileContext,
    before: Value,
    reflection: Value,
)
    requires
        kind is Language || kind is Abstract || kind is Unknown,
        declared(found, kind, line, resolution, context, before, reflection),
    ensures
        found == Ok::<Form, Failure>(values::value_form(before)),
{
}

} // verus!
