use glam_syntax::ast::{
    Declaration, DeclarationKind, DefinitionDecl, DefinitionKind, ImportDecl, ImportPlacement,
    ImportReference, ObjectBodyDefinition, ObjectBodyDefinitionKind, ObjectDecl, ObjectExtendDecl,
    ObjectRealization, SyntaxExpr, SyntaxKeyExpr,
};
use glam_syntax::compiler_values::GCompilerValues;
use glam_syntax::definitions::{
    automatic_reflection_for_declared_target, definition_target,
    definition_target_scope_resolved, is_written, lower_definition_resolved, path_resolved_in_definitions, path_resolved_in_scope, path_value,
    static_path_resolved, static_target, update_module_dict_value, update_module_value, NameScope,
    ReflectionBoundary, ResolvedRoot,
};
use glam_syntax::diagnostic::Diagnostic;
use glam_syntax::equality::{same_code, same_value};
use glam_syntax::imports::{
    lower_import, lower_local_binary_import, lower_local_import, lower_unique, CompileContext,
    ImportStep,
};
use glam_syntax::module_lowering::{ModuleLowerer, Resolution};
use glam_syntax::object_bodies::{object_body_defs_resolved_in_scope, MemberResolution};
use glam_syntax::objects::{
    extend_object_with_defs, hierarchical_object_name_resolved, object_body_scope_resolved,
    object_decl_resolved_in_scope, ObjectBody,
};
use glam_syntax::values::{
    key_to_value, lower_resolved_expr, name_as_key, BindingId, Builtin, Key,
    ResolvedExpr, ResolvedPathPart, ResolverContext, Value,
};
use std::sync::Arc;

fn compile_context() -> CompileContext {
    CompileContext {
        origin: vec!["module".to_owned()],
        prior_defs: Value::empty_dict(),
        final_defs: Value::atom("final"),
        automatic_reflection_boundaries: true,
        object_mark: Value::atom("mark"),
        compiler: GCompilerValues::build(),
    }
}

fn definition(kind: DefinitionKind, parameters: Vec<String>, expr: Option<SyntaxExpr>) -> DefinitionDecl {
    DefinitionDecl {
        target: vec![SyntaxKeyExpr::Atom("value".to_owned())],
        parameters,
        kind,
        expr,
    }
}

fn unit() -> ResolvedExpr {
    ResolvedExpr::Embedded(Value::unit())
}

fn scope() -> NameScope {
    NameScope::module_with_reflection(
        Value::atom("final"),
        Value::atom("prior"),
        ReflectionBoundary {
            annotator: ResolvedRoot::Provided(Value::atom("annotator")),
        },
    )
}

fn root() -> ResolvedRoot {
    ResolvedRoot::Provided(Value::atom("prior"))
}

fn call(builtin: Builtin, arguments: Vec<ResolvedExpr>) -> ResolvedExpr {
    ResolvedExpr::Apply(
        Box::new(ResolvedExpr::Embedded(Value::Builtin(builtin))),
        arguments,
    )
}

fn singleton(key: &str, value: ResolvedExpr) -> ResolvedExpr {
    call(
        Builtin::DictSingleton,
        vec![ResolvedExpr::Embedded(Value::atom(key)), value],
    )
}

fn key_path(names: &[&str]) -> Vec<ResolvedPathPart> {
    names
        .iter()
        .map(|name| ResolvedPathPart::Key(name_as_key(name)))
        .collect()
}

#[test]
fn closed_code_that_is_a_value_lowers_to_itself() {
    assert_eq!(lower_resolved_expr(unit()), Value::unit());
    assert_eq!(
        lower_resolved_expr(ResolvedExpr::Provided(Value::atom("a"))),
        Value::atom("a")
    );
    assert_eq!(
        lower_resolved_expr(ResolvedExpr::List(vec![])),
        Value::Lazy(Arc::new(ResolvedExpr::List(vec![])))
    );
}

#[test]
fn introduced_definitions_are_guarded_and_checked() {
    let decl = definition(DefinitionKind::Introduce, vec![], Some(SyntaxExpr::Unit));
    let code =
        lower_definition_resolved(&decl, None, unit(), 4, &root(), &scope())
            .unwrap();
    let payload = call(
        Builtin::DictUnion,
        vec![
            singleton(
                "name",
                ResolvedExpr::Embedded(Value::binary_from_text("value")),
            ),
            singleton(
                "value",
                ResolvedExpr::Access {
                    base: Box::new(ResolvedExpr::Provided(Value::atom("prior"))),
                    path: key_path(&["value"]),
                },
            ),
        ],
    );
    let expected = call(
        Builtin::DictUpdate,
        vec![
            ResolvedExpr::List(vec![ResolvedExpr::Embedded(Value::atom("value"))]),
            call(
                Builtin::Anno,
                vec![
                    singleton("assert_undefined", payload),
                    ResolvedExpr::Apply(
                        Box::new(ResolvedExpr::Provided(Value::atom("annotator"))),
                        vec![unit()],
                    ),
                ],
            ),
            ResolvedExpr::Provided(Value::atom("prior")),
        ],
    );
    assert_eq!(code, expected);
    assert!(same_code(&code, &expected));
}

#[test]
fn reflective_targets_have_no_boundary() {
    let mut decl = definition(DefinitionKind::Override, vec![], Some(SyntaxExpr::Unit));
    decl.target = vec![
        SyntaxKeyExpr::Atom("meta".to_owned()),
        SyntaxKeyExpr::Atom("x".to_owned()),
    ];
    let guarded =
        lower_definition_resolved(&decl, None, unit(), 4, &root(), &scope()).unwrap();
    let mut plain = scope();
    plain.reflection = None;
    let bare =
        lower_definition_resolved(&decl, None, unit(), 4, &root(), &plain).unwrap();
    assert_eq!(guarded, bare);
    assert!(!automatic_reflection_for_declared_target("refl.x", true));
    assert!(automatic_reflection_for_declared_target("x.refl", true));
    assert!(!automatic_reflection_for_declared_target("x", false));
}

#[test]
fn a_written_target_is_what_its_path_says() {
    let mut decl = definition(DefinitionKind::Introduce, vec![], Some(SyntaxExpr::Unit));
    decl.target = vec![
        SyntaxKeyExpr::Atom("group".to_owned()),
        SyntaxKeyExpr::Atom("item".to_owned()),
    ];
    let elsewhere = || Some(static_target("elsewhere"));
    assert!(is_written(&decl.target));
    assert_eq!(
        definition_target(&decl, elsewhere()),
        static_target("group.item")
    );
    decl.target.push(SyntaxKeyExpr::Index(Box::new(SyntaxExpr::Unit)));
    assert!(!is_written(&decl.target));
    let found = definition_target(&decl, elsewhere());
    assert_eq!(found.name, "elsewhere");
    assert_eq!(found.root, Some("group".to_owned()));
    assert_eq!(found.path, static_target("elsewhere").path);
    decl.target = vec![SyntaxKeyExpr::Index(Box::new(SyntaxExpr::Unit))];
    assert_eq!(definition_target(&decl, elsewhere()).root, None);
}

#[test]
fn refused_declarations_are_reported_and_kept() {
    let context = compile_context();
    let mut lowerer = ModuleLowerer::new(&context);
    let before = lowerer.definitions();
    lowerer.refuse_declaration(
        declaration(
            2,
            DeclarationKind::Definition(definition(
                DefinitionKind::Introduce,
                vec![],
                Some(SyntaxExpr::Unit),
            )),
        ),
        Diagnostic::error(2, "unresolved"),
    );
    assert_eq!(lowerer.definitions(), before);
    assert_eq!(lowerer.parsed_declarations().len(), 1);
    assert_eq!(
        lowerer.finish(vec![]).diagnostics,
        [Diagnostic::error(2, "unresolved")]
    );
}

#[test]
fn updates_apply_to_the_prior_value() {
    let mut plain = scope();
    plain.reflection = None;
    let decl = definition(
        DefinitionKind::Update,
        vec!["x".to_owned()],
        Some(SyntaxExpr::Unit),
    );
    let prior = ResolvedExpr::Access {
        base: Box::new(ResolvedExpr::Provided(Value::atom("prior"))),
        path: key_path(&["value"]),
    };
    let code = lower_definition_resolved(
        &decl,
        None,
        ResolvedExpr::Lambda(vec![BindingId(7)], Box::new(unit())),
        4,
        &root(),
        &plain,
    )
    .unwrap();
    let expected = call(
        Builtin::DictUpdate,
        vec![
            ResolvedExpr::List(vec![ResolvedExpr::Embedded(Value::atom("value"))]),
            ResolvedExpr::Lambda(
                vec![BindingId(7)],
                Box::new(ResolvedExpr::Apply(Box::new(unit()), vec![prior])),
            ),
            ResolvedExpr::Provided(Value::atom("prior")),
        ],
    );
    assert_eq!(code, expected);

    let counted = lower_definition_resolved(
        &decl,
        None,
        ResolvedExpr::Lambda(vec![], Box::new(unit())),
        4,
        &root(),
        &plain,
    )
    .unwrap_err();
    assert_eq!(
        counted.message,
        "internal error counting update definition arguments"
    );
    assert_eq!(counted.line, 4);
    let other =
        lower_definition_resolved(&decl, None, unit(), 4, &root(), &plain)
            .unwrap_err();
    assert_eq!(
        other.message,
        "internal error lowering update definition arguments"
    );
}

#[test]
fn empty_definitions_change_nothing() {
    let decl = definition(DefinitionKind::Introduce, vec![], None);
    assert_eq!(
        lower_definition_resolved(&decl, None, unit(), 1, &root(), &scope()),
        Ok(ResolvedExpr::Provided(Value::atom("prior")))
    );
}

#[test]
fn target_scopes_see_the_definitions_so_far() {
    let visible = ResolvedRoot::Local(BindingId(3));
    let found = definition_target_scope_resolved(&scope(), visible.copy());
    assert_eq!(found.final_defs, visible);
    assert_eq!(found.module_prior_defs, visible);
    let mut inside = scope();
    inside.object_final_defs = Some(root());
    let unchanged = definition_target_scope_resolved(&inside, visible);
    assert_eq!(unchanged, inside);
}

#[test]
fn paths_are_split_at_dots() {
    assert_eq!(
        path_value("a.b"),
        Value::list(vec![Value::atom("a"), Value::atom("b")])
    );
    assert_eq!(
        static_path_resolved("a.b"),
        ResolvedExpr::List(vec![
            ResolvedExpr::Embedded(Value::atom("a")),
            ResolvedExpr::Embedded(Value::atom("b")),
        ])
    );
    assert_eq!(path_resolved_in_scope("a", unit()), unit());
    assert_eq!(
        path_resolved_in_scope("a.b", unit()),
        ResolvedExpr::Access {
            base: Box::new(unit()),
            path: key_path(&["b"]),
        }
    );
    assert_eq!(
        path_resolved_in_definitions("a.b", unit()),
        ResolvedExpr::Access {
            base: Box::new(unit()),
            path: key_path(&["a", "b"]),
        }
    );
}

#[test]
fn dictionaries_merge_entry_by_entry() {
    let nested = Value::dict(vec![(name_as_key("inner"), Value::unit())]);
    let item = Value::dict(vec![
        (name_as_key("outer"), nested),
        (name_as_key("empty"), Value::empty_dict()),
    ]);
    let merged = update_module_dict_value(Value::atom("prior"), item);
    let expected = update_module_value(
        update_module_value(Value::atom("prior"), "outer.inner", Value::unit()),
        "empty",
        Value::empty_dict(),
    );
    assert_eq!(merged, expected);
    assert!(same_value(&merged, &expected));
    assert_eq!(
        update_module_dict_value(Value::atom("prior"), Value::unit()),
        Value::atom("prior")
    );
}

#[test]
fn keys_stand_for_values() {
    let key = Key::List(Arc::new(vec![name_as_key("a"), Key::Binary(Arc::new(vec![1]))]));
    assert_eq!(
        key_to_value(&key),
        Value::list(vec![Value::atom("a"), Value::Binary(Arc::new(vec![1]))])
    );
    let entries = Key::Dict(Arc::new(vec![(name_as_key("k"), name_as_key("v"))]));
    assert_eq!(
        key_to_value(&entries),
        Value::dict(vec![(name_as_key("k"), Value::atom("v"))])
    );
}

fn import(reference: ImportReference, binary: bool, placement: ImportPlacement) -> ImportDecl {
    ImportDecl {
        reference,
        binary,
        placement,
    }
}

#[test]
fn imports_say_what_to_load() {
    let context = compile_context();
    let local = || ImportReference::Local("file".to_owned());
    let inline = lower_import(
        &import(local(), false, ImportPlacement::Inline),
        None,
        2,
        &context,
        Value::atom("now"),
    );
    assert_eq!(
        inline,
        Ok(ImportStep::Load {
            request: "file".to_owned(),
            scope: None,
            prior_defs: Value::atom("now"),
            final_defs: Value::atom("final"),
        })
    );
    let named = lower_import(
        &import(local(), false, ImportPlacement::As("name".to_owned())),
        None,
        2,
        &context,
        Value::atom("now"),
    );
    assert!(matches!(
        named,
        Ok(ImportStep::Load { scope: Some(scope), .. }) if scope == "name"
    ));
    let bytes = lower_import(
        &import(local(), true, ImportPlacement::As("name".to_owned())),
        None,
        2,
        &context,
        Value::atom("now"),
    );
    assert_eq!(
        bytes,
        Ok(ImportStep::LoadBinary {
            request: "file".to_owned()
        })
    );
    assert_eq!(
        lower_local_import(
            &ImportPlacement::Inline,
            Value::atom("loaded"),
            &context,
            Value::atom("now")
        ),
        Value::atom("loaded")
    );
}

#[test]
fn wrong_imports_are_reported() {
    let context = compile_context();
    for (decl, problem, message) in [
        (
            import(
                ImportReference::Local("file".to_owned()),
                true,
                ImportPlacement::Inline,
            ),
            None,
            "`import ... binary` requires `as name`",
        ),
        (
            import(
                ImportReference::Builtin("math".to_owned()),
                true,
                ImportPlacement::Inline,
            ),
            None,
            "built-in imports cannot use the `binary` modifier",
        ),
        (
            import(
                ImportReference::Builtin("nothing".to_owned()),
                false,
                ImportPlacement::Inline,
            ),
            None,
            "unknown built-in module `'nothing`",
        ),
        (
            import(
                ImportReference::Local("..".to_owned()),
                false,
                ImportPlacement::Inline,
            ),
            Some("request leaves its folder".to_owned()),
            "request leaves its folder",
        ),
    ] {
        let error = lower_import(&decl, problem, 2, &context, Value::unit()).unwrap_err();
        assert_eq!(error.message, message);
        assert_eq!(error.line, 2);
    }
    assert!(lower_local_binary_import(
        &ImportPlacement::At("x".to_owned()),
        1,
        Value::unit(),
        Value::unit()
    )
    .is_err());
}

#[test]
fn builtin_modules_are_placed_at_once() {
    let context = compile_context();
    for placement in [
        ImportPlacement::Inline,
        ImportPlacement::As("m".to_owned()),
        ImportPlacement::At("m".to_owned()),
    ] {
        let step = lower_import(
            &import(
                ImportReference::Builtin("math".to_owned()),
                false,
                placement,
            ),
            None,
            1,
            &context,
            Value::empty_dict(),
        );
        assert!(matches!(step, Ok(ImportStep::Done(Value::Lazy(_)))));
    }
}

#[test]
fn unique_names_belong_to_their_module() {
    let context = compile_context();
    let both = lower_unique(
        &vec!["a".to_owned(), "b".to_owned()],
        &context,
        Value::unit(),
    );
    let first = lower_unique(&vec!["a".to_owned()], &context, Value::unit());
    let second = lower_unique(&vec!["b".to_owned()], &context, first);
    assert_eq!(both, second);
    assert_eq!(
        context.abstract_global_path("a"),
        Value::Atom(Key::AbstractGlobalPath(Arc::new(vec![
            "module".to_owned(),
            "a".to_owned()
        ])))
    );
    assert_ne!(
        context.abstract_global_path("a"),
        context.abstract_global_path("b")
    );
}

#[test]
fn object_bodies_thread_their_definitions() {
    let context = compile_context();
    let mut locals = ResolverContext::new();
    let mut body = ObjectBody::begin(&context.compiler, &mut locals, Some(Value::atom("mark")));
    let member = body.scope(None, scope());
    assert_eq!(member.final_defs, ResolvedRoot::Local(BindingId(1)));
    assert_eq!(member.prior_defs, ResolvedRoot::Local(BindingId(3)));
    assert!(member.reflection.is_some());
    let aliased = body.scope(Some("me"), scope());
    assert_eq!(aliased.object_alias, Some("me".to_owned()));
    assert_eq!(aliased.final_defs, scope().final_defs);
    body.add(&mut locals, unit());
    assert_eq!(
        body.scope(None, scope()).prior_defs,
        ResolvedRoot::Local(BindingId(4))
    );
    let code = body.finish(&mut locals);
    assert_eq!(locals.len(), 0);
    assert!(matches!(
        code,
        ResolvedExpr::Lambda(params, _) if params == [BindingId(0), BindingId(1)]
    ));

    let bare = ObjectBody::begin(&context.compiler, &mut locals, None);
    assert_eq!(bare.prior_self, BindingId(5));
    assert_eq!(bare.annotator, None);
}

fn member(line: usize, kind: ObjectBodyDefinitionKind) -> ObjectBodyDefinition {
    ObjectBodyDefinition { line, kind }
}

fn plain_definition() -> DefinitionDecl {
    definition(DefinitionKind::Introduce, vec![], Some(SyntaxExpr::Unit))
}

fn nested(target: &str, body: Vec<ObjectBodyDefinition>) -> ObjectDecl {
    ObjectDecl {
        realization: ObjectRealization::Instance,
        target: target.to_owned(),
        alias: None,
        deps: vec![],
        body,
    }
}

fn defined(code: ResolvedExpr) -> MemberResolution {
    MemberResolution::Definition {
        computed: None,
        code,
    }
}

fn body_of(
    items: &Vec<ObjectBodyDefinition>,
    members: Vec<MemberResolution>,
    locals: &mut ResolverContext,
    guarded: bool,
) -> Result<ResolvedExpr, Diagnostic> {
    object_body_defs_resolved_in_scope(
        items,
        members,
        None,
        7,
        &compile_context().compiler,
        &scope(),
        locals,
        guarded,
        &Value::atom("mark"),
        true,
    )
}

#[test]
fn the_members_of_an_object_are_lowered_in_order() {
    let context = compile_context();
    for guarded in [true, false] {
        let items = vec![
            member(
                8,
                ObjectBodyDefinitionKind::Definition(plain_definition()),
            ),
            member(
                9,
                ObjectBodyDefinitionKind::Definition(definition(
                    DefinitionKind::Override,
                    vec![],
                    Some(SyntaxExpr::Unit),
                )),
            ),
        ];
        let mut locals = ResolverContext::new();
        let found = body_of(
            &items,
            vec![defined(unit()), defined(ResolvedExpr::Local(BindingId(1)))],
            &mut locals,
            guarded,
        );

        let mut by_hand = ResolverContext::new();
        let mark = if guarded {
            Some(Value::atom("mark"))
        } else {
            None
        };
        let mut body = ObjectBody::begin(&context.compiler, &mut by_hand, mark);
        for (item, code) in items
            .iter()
            .zip([unit(), ResolvedExpr::Local(BindingId(1))])
        {
            let inside = body.scope(None, scope());
            let ObjectBodyDefinitionKind::Definition(decl) = &item.kind else {
                panic!("a definition");
            };
            let updated = lower_definition_resolved(
                decl,
                None,
                code,
                item.line,
                &ResolvedRoot::Local(body.definitions),
                &inside,
            )
            .unwrap();
            body.add(&mut by_hand, updated);
        }
        assert_eq!(found, Ok(body.finish(&mut by_hand)));
        assert_eq!(locals, by_hand);
        assert_eq!(locals.next, if guarded { 6 } else { 5 });
    }
}

#[test]
fn objects_and_extensions_nest_in_bodies() {
    let items = vec![
        member(
            8,
            ObjectBodyDefinitionKind::Object(nested(
                "child",
                vec![member(
                    9,
                    ObjectBodyDefinitionKind::Definition(plain_definition()),
                )],
            )),
        ),
        member(
            10,
            ObjectBodyDefinitionKind::Extend(ObjectExtendDecl {
                realization: ObjectRealization::Instance,
                target: "child".to_owned(),
                alias: None,
                body: vec![],
            }),
        ),
    ];
    let mut locals = ResolverContext::new();
    let found = body_of(
        &items,
        vec![
            MemberResolution::Object {
                deps: vec![],
                members: vec![defined(unit())],
            },
            MemberResolution::Extension { members: vec![] },
        ],
        &mut locals,
        true,
    );
    assert!(matches!(found, Ok(ResolvedExpr::Lambda(params, _))
        if params == [BindingId(0), BindingId(1)]));
    assert_eq!(locals.next, 18);
    assert_eq!(locals.len(), 0);
}

#[test]
fn members_that_do_not_fit_their_resolution_are_reported() {
    let mut decl = plain_definition();
    decl.target = vec![SyntaxKeyExpr::Index(Box::new(SyntaxExpr::Unit))];
    let items = vec![member(8, ObjectBodyDefinitionKind::Definition(decl))];
    let mut locals = ResolverContext::new();
    assert_eq!(
        body_of(&items, vec![defined(unit())], &mut locals, false),
        Err(Diagnostic::error(8, "internal error resolving object member"))
    );
    assert_eq!(
        body_of(
            &items,
            vec![MemberResolution::Extension { members: vec![] }],
            &mut locals,
            false
        ),
        Err(Diagnostic::error(8, "internal error resolving object member"))
    );
    assert_eq!(
        body_of(&items, vec![], &mut locals, false),
        Err(Diagnostic::error(7, "internal error resolving object member"))
    );
    let mut full = ResolverContext::new();
    full.next = usize::MAX - 3;
    assert_eq!(
        body_of(&vec![], vec![], &mut full, false),
        Err(Diagnostic::error(7, "object body uses too many locals"))
    );
}

#[test]
fn objects_of_a_module_are_lowered_with_their_bodies() {
    let context = compile_context();
    let mut lowerer = ModuleLowerer::new(&context);
    let before = lowerer.definitions();
    lowerer.lower_declaration(
        declaration(
            7,
            DeclarationKind::Object(nested(
                "host",
                vec![member(
                    8,
                    ObjectBodyDefinitionKind::Definition(plain_definition()),
                )],
            )),
        ),
        Resolution::Object {
            deps: vec![],
            members: vec![defined(unit())],
        },
        &context,
    );
    let object = lowerer.definitions();
    assert_ne!(object, before);
    lowerer.lower_declaration(
        declaration(
            12,
            DeclarationKind::Object(nested(
                "other",
                vec![member(
                    13,
                    ObjectBodyDefinitionKind::Definition(plain_definition()),
                )],
            )),
        ),
        Resolution::Object {
            deps: vec![],
            members: vec![MemberResolution::Extension { members: vec![] }],
        },
        &context,
    );
    assert_eq!(lowerer.definitions(), object);
    assert_eq!(
        lowerer.finish(vec![]).diagnostics,
        [Diagnostic::error(13, "internal error resolving object member")]
    );
}

#[test]
fn objects_are_named_after_their_host() {
    let error = hierarchical_object_name_resolved("child", 3, &scope()).unwrap_err();
    assert_eq!(
        error.message,
        "nested object declaration requires an object scope"
    );
    let inside = object_body_scope_resolved(None, root(), root(), scope(), None);
    assert_eq!(
        hierarchical_object_name_resolved("child", 3, &inside),
        Ok(call(
            Builtin::ObjectLocalName,
            vec![
                ResolvedExpr::Provided(Value::atom("prior")),
                ResolvedExpr::List(vec![ResolvedExpr::Embedded(Value::atom("child"))]),
            ],
        ))
    );
    assert_eq!(
        object_decl_resolved_in_scope(unit(), vec![unit()], unit()),
        call(
            Builtin::ObjectInstanceFromParts,
            vec![
                unit(),
                ResolvedExpr::List(vec![call(Builtin::ObjectSpec, vec![unit()])]),
                unit(),
            ],
        )
    );
    assert!(matches!(
        extend_object_with_defs("a.b", Value::unit(), Value::unit()),
        Value::Lazy(_)
    ));
}

fn declaration(line: usize, kind: DeclarationKind) -> Declaration {
    Declaration {
        line,
        kind,
        preview: String::new(),
    }
}

#[test]
fn modules_lower_declaration_by_declaration() {
    let context = compile_context();
    let mut lowerer = ModuleLowerer::new(&context);
    assert_eq!(lowerer.definitions(), Value::empty_dict());
    lowerer.lower_declaration(
        declaration(1, DeclarationKind::Unknown),
        Resolution::Nothing,
        &context,
    );
    assert_eq!(lowerer.definitions(), Value::empty_dict());
    lowerer.lower_declaration(
        declaration(2, DeclarationKind::Unique(vec!["a".to_owned()])),
        Resolution::Nothing,
        &context,
    );
    let unique = lower_unique(&vec!["a".to_owned()], &context, Value::empty_dict());
    assert_eq!(lowerer.definitions(), unique);
    lowerer.lower_declaration(
        declaration(
            3,
            DeclarationKind::Import(import(
                ImportReference::Builtin("nothing".to_owned()),
                false,
                ImportPlacement::Inline,
            )),
        ),
        Resolution::Import {
            problem: None,
            loaded: Value::unit(),
        },
        &context,
    );
    assert_eq!(lowerer.definitions(), unique);
    lowerer.lower_declaration(
        declaration(
            4,
            DeclarationKind::Definition(definition(
                DefinitionKind::Introduce,
                vec![],
                Some(SyntaxExpr::Unit),
            )),
        ),
        Resolution::Definition {
            computed: None,
            code: unit(),
        },
        &context,
    );
    assert_ne!(lowerer.definitions(), unique);
    assert_eq!(lowerer.parsed_declarations().len(), 4);
    let lowered = lowerer.finish(vec![]);
    assert_eq!(lowered.diagnostics.len(), 1);
    assert_eq!(lowered.diagnostics[0].line, 3);
    assert_eq!(
        lowered.diagnostics[0].message,
        "unknown built-in module `'nothing`"
    );
}
