//! What the declarations of a module do to its definitions.

use vstd::prelude::*;
use crate::ast::{
    DeclarationKind, DefinitionDecl, DefinitionKind, ImportDecl, ImportPlacement, ImportReference,
    ObjectDecl, ObjectExtendDecl,
};
use crate::compiler_values;
use crate::definitions;
use crate::definitions::{DefinitionTarget, ResolvedRoot};
use crate::imports;
use crate::imports::{CompileContext, ImportPlan, ImportStep};
use crate::lowered_meaning;
use crate::lowered_meaning::{behind, extends, holds_module, keeps_the_rest, Change};
use crate::merge_meaning;
use crate::module_lowering;
use crate::module_lowering::{declared, module_scope, Resolution};
use crate::object_bodies;
use crate::object_bodies::{Failure, MemberResolution};
use crate::objects;
use crate::semantics;
use crate::semantics::{meaning, meanings, name_keys, object, reach, sound, spec_of, value, Model};
use crate::text;
use crate::values;
use crate::values::{Form, ResolvedExpr, Shape, Value};

verus! {

/// The value of closed code is what the code means.
pub proof fn value_of_lowered<D>(m: Model<D>, code: Form)
    requires
        code matches Form::Node(Shape::Embedded, parts) ==> parts.len() == 1,
        code matches Form::Node(Shape::Provided, parts) ==> parts.len() == 1,
    ensures
        value(m, values::lowered_form(code)) == meaning(m, Map::empty(), code),
{
    semantics::value_of_lazy(m, code);
}

proof fn root_of_module<D>(m: Model<D>, before: Value)
    ensures
        meaning(m, Map::empty(), definitions::root_form(ResolvedRoot::Provided(before))) == value(
            m,
            values::value_form(before),
        ),
{
    semantics::meaning_of_value(m, Map::empty(), values::value_form(before));
}

/// A definition of a module that introduces a name gives it the value of its
/// code, behind the reflection boundary of the module, where it was undefined.
/// It fails there otherwise. Nothing else changes.
pub proof fn modules_introduce_names<D>(
    m: Model<D>,
    definition: DefinitionDecl,
    computed: Option<DefinitionTarget>,
    code: ResolvedExpr,
    line: nat,
    context: CompileContext,
    before: Value,
    reflection: Value,
    form: Form,
)
    requires
        sound(m),
        definitions::written(definition.target@),
        definition.kind == DefinitionKind::Introduce,
        definition.expr is Some,
        declared(
            Ok(form),
            DeclarationKind::Definition(definition),
            line,
            Resolution::Definition { computed, code },
            context,
            before,
            reflection,
        ),
    ensures
        ({
            let path = name_keys(definitions::key_names(definition.target@));
            let old = value(m, values::value_form(before));
            let after = value(m, form);
            let prior = reach(m, old, path);
            let own = behind(
                m,
                Map::empty(),
                module_scope(context, before, reflection),
                definitions::target_of(definition, computed).root,
                meaning(m, Map::empty(), values::code_form(code)),
            );
            &&& keeps_the_rest(m, Change { before: old, after, path })
            &&& (m.is_undefined)(prior) ==> reach(m, after, path) == own
            &&& (m.is_defined)(prior) ==> exists|note: D|
                reach(m, after, path) == #[trigger] (m.failure)(note)
        }),
{
    let root = ResolvedRoot::Provided(before);
    let scope = module_scope(context, before, reflection);
    let target = definitions::target_of(definition, computed);
    let path = name_keys(definitions::key_names(definition.target@));
    let lowered = definitions::defined(definition, target, code, root, scope)->Ok_0;
    root_of_module(m, before);
    lowered_meaning::written_targets_lead(m, Map::empty(), definition, computed);
    lowered_meaning::introduced_names_have_their_value(
        m,
        Map::empty(),
        definition,
        computed,
        code,
        root,
        scope,
        path,
        lowered,
    );
    value_of_lowered(m, lowered);
}

/// The objects that an object extends, by their specifications, in order.
pub open spec fn extended_specs<D>(m: Model<D>, deps: Seq<ResolvedExpr>) -> Seq<D> {
    deps.map_values(
        |dep: ResolvedExpr| spec_of(m, meaning(m, Map::empty(), values::code_form(dep))),
    )
}

proof fn meaning_of_deps<D>(m: Model<D>, deps: Seq<ResolvedExpr>)
    ensures
        meanings(m, Map::empty(), objects::specs_form(values::codes_form(deps))) == extended_specs(
            m,
            deps,
        ),
    decreases deps.len(),
{
    let forms = objects::specs_form(values::codes_form(deps));
    values::codes_form_at(deps);
    if deps.len() == 0 {
        assert(forms =~= Seq::empty());
        assert(extended_specs(m, deps) =~= Seq::empty());
    } else {
        let front = deps.drop_last();
        values::codes_form_at(front);
        meaning_of_deps(m, front);
        assert(forms.drop_last() =~= objects::specs_form(values::codes_form(front)));
        let last = values::code_form(deps.last());
        assert(forms.last() == objects::spec_form(last));
        lowered_meaning::meaning_of_spec(m, Map::empty(), last);
        assert(extended_specs(m, deps) =~= extended_specs(m, front).push(
            spec_of(m, meaning(m, Map::empty(), last)),
        ));
    }
}

/// An object of a module is put at its target where nothing was defined, and
/// fails there otherwise. It has an abstract name of the module, extends what
/// it lists, and has the definitions of its body. Nothing else changes.
pub proof fn modules_declare_objects<D>(
    m: Model<D>,
    declaration: ObjectDecl,
    deps: Vec<ResolvedExpr>,
    members: Vec<MemberResolution>,
    line: nat,
    context: CompileContext,
    before: Value,
    reflection: Value,
    form: Form,
)
    requires
        sound(m),
        declared(
            Ok(form),
            DeclarationKind::Object(declaration),
            line,
            Resolution::Object { deps, members },
            context,
            before,
            reflection,
        ),
    ensures
        ({
            let path = name_keys(text::dotted(declaration.target@));
            let old = value(m, values::value_form(before));
            let after = value(m, form);
            let prior = reach(m, old, path);
            let body = object_bodies::body_form(
                declaration.body@,
                members@,
                line,
                module_lowering::guarded(context, declaration.target@),
                module_lowering::guarding(context),
                0,
            );
            let own = object(
                m,
                value(
                    m,
                    imports::global_form(text::texts(context.origin@), declaration.target@),
                ),
                (m.list)(extended_specs(m, deps@)),
                meaning(m, Map::empty(), body->Ok_0.0),
            );
            &&& body is Ok
            &&& keeps_the_rest(m, Change { before: old, after, path })
            &&& (m.is_undefined)(prior) ==> reach(m, after, path) == own
            &&& (m.is_defined)(prior) ==> exists|note: D|
                reach(m, after, path) == #[trigger] (m.failure)(note)
        }),
{
    let target = declaration.target@;
    let root = definitions::root_form(ResolvedRoot::Provided(before));
    let body = object_bodies::body_form(
        declaration.body@,
        members@,
        line,
        module_lowering::guarded(context, target),
        module_lowering::guarding(context),
        0,
    );
    let defs = body->Ok_0.0;
    let none = Map::<nat, D>::empty();
    let global = imports::global_form(text::texts(context.origin@), target);
    let name = values::embedded_form(global);
    let specs = objects::specs_form(values::codes_form(deps@));
    let list = values::list_form(specs);
    let made = objects::instance_form(name, list, defs);
    root_of_module(m, before);
    semantics::meaning_of_value(m, none, global);
    meaning_of_deps(m, deps@);
    assert(list->Node_1 == specs);
    lowered_meaning::meaning_of_instance(m, none, name, list, defs);
    lowered_meaning::declared_objects_are_placed(m, none, target, made, root);
    value_of_lowered(m, objects::declared_form("assert_undefined"@, target, made, root));
}

/// An extension of a module extends the object at its target with the
/// definitions of its body, and fails where nothing was defined. Nothing else
/// changes. The body names none of the locals that come after its own.
pub proof fn modules_extend_objects<D>(
    m: Model<D>,
    declaration: ObjectExtendDecl,
    members: Vec<MemberResolution>,
    line: nat,
    context: CompileContext,
    before: Value,
    reflection: Value,
    form: Form,
    defs: Form,
    next: nat,
)
    requires
        sound(m),
        object_bodies::body_form(
            declaration.body@,
            members@,
            line,
            module_lowering::guarded(context, declaration.target@),
            module_lowering::guarding(context),
            0,
        ) == Ok::<(Form, nat), Failure>((defs, next)),
        lowered_meaning::free_of(defs, seq![next, next + 1, next + 2]),
        declared(
            Ok(form),
            DeclarationKind::Extend(declaration),
            line,
            Resolution::Extension { members },
            context,
            before,
            reflection,
        ),
    ensures
        ({
            let path = name_keys(text::dotted(declaration.target@));
            let old = value(m, values::value_form(before));
            let after = value(m, form);
            let prior = reach(m, old, path);
            &&& keeps_the_rest(m, Change { before: old, after, path })
            &&& (m.is_defined)(prior) ==> extends(
                m,
                reach(m, after, path),
                prior,
                meaning(m, Map::empty(), defs),
            )
            &&& (m.is_undefined)(prior) ==> exists|note: D|
                reach(m, after, path) == #[trigger] (m.failure)(note)
        }),
{
    let target = declaration.target@;
    let root = definitions::root_form(ResolvedRoot::Provided(before));
    let none = Map::<nat, D>::empty();
    let made = objects::extended_form(target, defs, root, next);
    root_of_module(m, before);
    lowered_meaning::extensions_come_after_the_object(m, none, target, defs, root, next);
    lowered_meaning::declared_objects_are_placed(m, none, target, made, root);
    value_of_lowered(m, objects::declared_form("assert_defined"@, target, made, root));
}

/// Names that a module declares unique are found as abstract names of the
/// module, and other names keep their values.
pub proof fn modules_declare_unique_names<D>(
    m: Model<D>,
    names: Vec<String>,
    line: nat,
    resolution: Resolution,
    context: CompileContext,
    before: Value,
    reflection: Value,
    form: Form,
)
    requires
        sound(m),
        declared(
            Ok(form),
            DeclarationKind::Unique(names),
            line,
            resolution,
            context,
            before,
            reflection,
        ),
    ensures
        merge_meaning::holds_leaves(
            m,
            value(m, values::value_form(before)),
            value(m, form),
            merge_meaning::unique_leaves(text::texts(names@), text::texts(context.origin@)),
        ),
{
    merge_meaning::unique_names_are_found(
        m,
        text::texts(names@),
        text::texts(context.origin@),
        values::value_form(before),
    );
}

/// A module that a module imports is found at its target, or takes the place of
/// the definitions where it is inline. The bytes of a file are found under their
/// name. A built-in module is found at its target too.
pub proof fn modules_import_modules<D>(
    m: Model<D>,
    import: ImportDecl,
    problem: Option<String>,
    loaded: Value,
    line: nat,
    context: CompileContext,
    before: Value,
    reflection: Value,
    form: Form,
)
    requires
        sound(m),
        declared(
            Ok(form),
            DeclarationKind::Import(import),
            line,
            Resolution::Import { problem, loaded },
            context,
            before,
            reflection,
        ),
    ensures
        ({
            let old = value(m, values::value_form(before));
            let after = value(m, form);
            let module = values::value_form(loaded);
            match import.reference {
                ImportReference::Local(_) => match import.placement {
                    ImportPlacement::Inline => after == value(m, module),
                    ImportPlacement::As(target) => if import.binary {
                        let path = name_keys(text::dotted(target@));
                        &&& reach(m, after, path) == value(m, module)
                        &&& keeps_the_rest(m, Change { before: old, after, path })
                    } else {
                        holds_module(m, old, after, target@, module)
                    },
                    ImportPlacement::At(target) => holds_module(m, old, after, target@, module),
                },
                ImportReference::Builtin(name) => exists|found: Value|
                    compiler_values::module_named(name@) == Some(
                        #[trigger] values::value_form(found),
                    ) && match import.placement {
                        ImportPlacement::Inline => found matches Value::Dict(entries) ==> (
                        merge_meaning::keyed_by_names(entries@) ==> merge_meaning::holds_leaves(
                            m,
                            old,
                            after,
                            merge_meaning::leaves(Seq::empty(), entries@),
                        )),
                        ImportPlacement::As(target) => holds_module(
                            m,
                            old,
                            after,
                            target@,
                            values::value_form(found),
                        ),
                        ImportPlacement::At(target) => holds_module(
                            m,
                            old,
                            after,
                            target@,
                            values::value_form(found),
                        ),
                    },
            }
        }),
{
    let told = values::value_form(before);
    let origin = text::texts(context.origin@);
    match import.reference {
        ImportReference::Local(_) => {
            lowered_meaning::loaded_modules_are_placed(
                m,
                import.placement,
                origin,
                told,
                values::value_form(loaded),
            );
            if let ImportPlacement::As(target) = import.placement {
                lowered_meaning::placed_values_are_found(
                    m,
                    target@,
                    values::value_form(loaded),
                    told,
                );
            }
        },
        ImportReference::Builtin(name) => {
            let plan = ImportPlan::Done(told);
            let step = choose|step: ImportStep|
                #[trigger] imports::follows(step, plan, import, context) && step is Done
                    && values::value_form(step->Done_0) == form;
            let module = choose|module: Value|
                compiler_values::module_named(name@) == Some(values::value_form(module))
                    && values::value_form(step->Done_0) == #[trigger] imports::builtin_import(
                    name@,
                    import.placement,
                    origin,
                    told,
                    module,
                );
            lowered_meaning::builtin_modules_are_placed(
                m,
                name@,
                import.placement,
                origin,
                told,
                module,
            );
            assert(compiler_values::module_named(name@) == Some(values::value_form(module)));
        },
    }
}

} // verus!
