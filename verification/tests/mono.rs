use dolphin::ir::Type;
use dolphin::mono::{build_env, builtin_type, finish_bindings, GenericKey, TypeEnv};
use dolphin::package::PackageId;

#[test]
fn package_identity_separates_instance_keys() {
    let root = GenericKey::in_package(PackageId::root(), "m.f", vec![Type::I32]);
    let stdlib = GenericKey::in_package(PackageId::standard(), "m.f", vec![Type::I32]);
    assert_ne!(root, stdlib);
    assert_eq!(
        root,
        GenericKey::in_package(PackageId::root(), "m.f", vec![Type::I32])
    );
    assert_ne!(
        GenericKey::in_package(PackageId::root(), "m.f", vec![Type::I32]),
        GenericKey::in_package(PackageId::root(), "m.f", vec![Type::U8])
    );
}

#[test]
fn same_key_compares_package_name_and_arguments() {
    let a = GenericKey::in_package(PackageId::root(), "m.f", vec![Type::I32]);
    let b = GenericKey::in_package(PackageId::standard(), "m.f", vec![Type::I32]);
    let c = GenericKey::in_package(PackageId::root(), "m.f", vec![Type::I32]);
    let d = GenericKey::in_package(PackageId::root(), "m.g", vec![Type::I32]);
    assert!(!a.same_key(&b));
    assert!(a.same_key(&c));
    assert!(!a.same_key(&d));
}

#[test]
fn type_env_first_binding_wins() {
    let mut env = TypeEnv::new();
    assert_eq!(env.get("T"), None);
    env.bind("T", Type::I32);
    env.bind("U", Type::Bool);
    env.bind("T", Type::U8);
    assert_eq!(env.get("T"), Some(Type::I32));
    assert_eq!(env.get("U"), Some(Type::Bool));
    assert_eq!(env.get("V"), None);
}

#[test]
fn builtin_names_map_to_scalars() {
    assert_eq!(builtin_type("i32", 8), Some(Type::I32));
    assert_eq!(builtin_type("usize", 8), Some(Type::Usize));
    assert_eq!(builtin_type("c_int", 8), Some(Type::I32));
    assert_eq!(builtin_type("c_char", 8), Some(Type::I8));
    assert_eq!(builtin_type("c_long", 8), Some(Type::I64));
    assert_eq!(builtin_type("c_long", 4), Some(Type::I32));
    assert_eq!(builtin_type("c_ulong", 8), Some(Type::U64));
    assert_eq!(builtin_type("c_ulong", 4), Some(Type::U32));
    assert_eq!(builtin_type("Unit", 8), Some(Type::Unit));
    assert_eq!(builtin_type("Point", 8), None);
}

#[test]
fn build_env_binds_parameters_in_order() {
    let params = vec!["T".to_string(), "U".to_string()];
    let env = build_env(&params, &[Type::I32, Type::Bool]).unwrap();
    assert_eq!(env.get("T"), Some(Type::I32));
    assert_eq!(env.get("U"), Some(Type::Bool));
    assert_eq!(
        build_env(&params, &[Type::I32]).unwrap_err(),
        "type expects 2 type arguments but 1 were provided"
    );
    let repeated = vec!["T".to_string(), "T".to_string()];
    let env = build_env(&repeated, &[Type::U8, Type::U16]).unwrap();
    assert_eq!(env.get("T"), Some(Type::U8));
}

#[test]
fn finish_bindings_reports_the_first_open_parameter() {
    let mut env = TypeEnv::new();
    env.bind("T", Type::I64);
    let names = vec!["T".to_string()];
    assert_eq!(finish_bindings(&names, &env).unwrap(), vec![Type::I64]);
    let names = vec!["T".to_string(), "U".to_string(), "V".to_string()];
    assert_eq!(
        finish_bindings(&names, &env).unwrap_err(),
        "cannot infer type argument `U`; specify it explicitly, e.g. `f<...>(...)`"
    );
}
