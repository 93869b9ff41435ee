use glam_syntax::compiler_values::{
    builtin_list_module, builtin_module, constant_object_defs, effect_path_value, effect_value,
    empty_object_defs, macro_environment, pair, reflection_annotator_value, single, value_dict,
    EffectValues, GCompilerValues,
};
use glam_syntax::diagnostic_formatter::{build, cached, value};
use glam_syntax::net_lowering::is_closed;
use glam_syntax::equality::same_value;
use glam_syntax::values::{Builtin, Value};

fn assert_closed(name: &str, value: &Value) {
    match value {
        Value::Lazy(code) => assert!(is_closed(code), "{name} uses a local from outside"),
        Value::Dict(entries) => entries
            .iter()
            .for_each(|(_, value)| assert_closed(name, value)),
        _ => {}
    }
}

#[test]
fn compiler_values_are_closed() {
    let compiler = GCompilerValues::build();
    for (name, value) in [
        ("math", &compiler.math.value),
        ("list", &compiler.list.value),
        ("std", &compiler.std_module.value),
        ("math definitions", &compiler.math.definitions),
        ("empty definitions", &compiler.empty_object_defs),
        ("constant definitions", &compiler.constant_object_defs),
        ("annotator", &compiler.reflection_annotator),
        ("if", &compiler.pure_if_runner),
        ("match", &compiler.pure_match_runner),
        ("environment", &compiler.macro_environment),
        ("formatter", &build()),
    ] {
        assert_closed(name, value);
    }
}

#[test]
fn effects_are_built_once_for_each_path() {
    let mut cache = EffectValues::new();
    let first = effect_path_value(&mut cache, &pair("heap", "get"));
    let again = effect_path_value(&mut cache, &pair("heap", "get"));
    assert!(same_value(&first, &again));
    assert_eq!(cache.entries.len(), 1);
    let other = effect_value(&mut cache, "get");
    assert!(!same_value(&first, &other));
    let by_path = effect_path_value(&mut cache, &single("get"));
    assert!(same_value(&other, &by_path));
    assert_eq!(cache.entries.len(), 2);
}

#[test]
fn builtin_modules_are_found_by_name() {
    let compiler = GCompilerValues::build();
    let list = builtin_module(&compiler, "list").unwrap();
    assert_eq!(list.value, builtin_list_module(&compiler));
    assert!(value_dict(&list.value).is_some_and(|entries| !entries.is_empty()));
    assert_eq!(
        builtin_module(&compiler, "std"),
        builtin_module(&compiler, "prelude")
    );
    assert_eq!(builtin_module(&compiler, "nothing"), None);
    assert_eq!(value_dict(&Value::unit()), None);
}

#[test]
fn compiler_values_are_applied_on_demand() {
    let compiler = GCompilerValues::build();
    assert_eq!(empty_object_defs(&compiler), compiler.empty_object_defs);
    for value in [
        constant_object_defs(&compiler, Value::unit()),
        macro_environment(&compiler, Value::empty_dict(), Value::atom("g0")),
        reflection_annotator_value(&compiler, Value::unit(), Value::unit()),
    ] {
        assert!(matches!(&value, Value::Lazy(code) if is_closed(code)));
    }
    assert_ne!(
        compiler.pure_conditional_runner(Builtin::IfResult),
        compiler.pure_conditional_runner(Builtin::MatchResult)
    );
}

#[test]
fn the_formatter_is_kept() {
    let formatter = cached();
    assert_eq!(value(&formatter), value(&formatter));
    assert_eq!(value(&formatter), build());
}
