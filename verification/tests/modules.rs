use dolphin::modules::{
    display_module, expected_module, expected_package, is_constructor_target,
    is_module_or_namespace, qualify, qualify_constructor, qualify_enum_variant,
    resolve_associated_type, resolve_callee, resolve_import_path, resolve_imported,
    resolve_prelude_path, resolve_std_mem_call, validate_package, ImportBinding, ModuleError,
    PackageDeclError,
};

fn s(text: &str) -> String {
    text.to_string()
}

fn imports() -> Vec<(String, ImportBinding)> {
    vec![
        (s("Pair"), ImportBinding::Type(s("util.Pair"))),
        (s("mem"), ImportBinding::Module(s("std.mem"))),
        (s("math"), ImportBinding::Module(s("@1.math"))),
        (s("max"), ImportBinding::Function(s("@1.math.max"))),
    ]
}

#[test]
fn qualification_and_display() {
    assert_eq!(qualify("", "f"), "f");
    assert_eq!(qualify("util", "f"), "util.f");
    assert_eq!(display_module(""), "<root>");
    assert_eq!(display_module("util"), "util");
}

#[test]
fn prelude_names() {
    assert_eq!(resolve_prelude_path("Option"), Some(s("std.Option")));
    assert_eq!(resolve_prelude_path("Result.Ok"), Some(s("std.Result.Ok")));
    assert_eq!(resolve_prelude_path("Iterator"), Some(s("std.Iterator")));
    assert_eq!(resolve_prelude_path("Vec"), None);
}

#[test]
fn import_paths_follow_aliases_std_and_prefix() {
    let aliases = vec![(s("mathutil"), s("@1"))];
    assert_eq!(resolve_import_path("", &aliases, "mathutil.math"), "@1.math");
    assert_eq!(resolve_import_path("", &aliases, "mathutil"), "@1");
    assert_eq!(resolve_import_path("@2", &aliases, "std.io"), "std.io");
    assert_eq!(resolve_import_path("@2", &aliases, "util.numbers"), "@2.util.numbers");
    assert_eq!(resolve_import_path("", &aliases, "util"), "util");
}

#[test]
fn modules_and_namespaces() {
    let modules = vec![s("@1.math"), s("util")];
    assert!(is_module_or_namespace("util", &modules));
    assert!(is_module_or_namespace("@1", &modules));
    assert!(!is_module_or_namespace("@1.ma", &modules));
}

#[test]
fn std_mem_calls() {
    let imports = imports();
    assert_eq!(resolve_std_mem_call(&imports, "std.mem.alloc"), Some(s("std.mem.alloc")));
    assert_eq!(resolve_std_mem_call(&imports, "mem.free"), Some(s("std.mem.free")));
    assert_eq!(resolve_std_mem_call(&imports, "math.max"), None);
    assert_eq!(resolve_std_mem_call(&imports, "std.io.print"), None);
    assert_eq!(resolve_std_mem_call(&imports, "alloc"), None);
}

#[test]
fn imported_names_and_callees() {
    let imports = imports();
    assert_eq!(resolve_imported(&imports, "Pair"), "util.Pair");
    assert_eq!(resolve_imported(&imports, "math.max"), "@1.math.max");
    assert_eq!(resolve_imported(&imports, "Pair.new"), "util.Pair.new");
    assert_eq!(resolve_imported(&imports, "other"), "other");
    let locals = vec![s("helper")];
    assert_eq!(resolve_callee("app", &locals, &imports, "helper"), "app.helper");
    assert_eq!(resolve_callee("app", &locals, &imports, "max"), "@1.math.max");
    assert_eq!(resolve_callee("app", &locals, &imports, "math.min"), "@1.math.min");
    assert_eq!(resolve_callee("app", &locals, &imports, "other.f"), "other.f");
    assert_eq!(resolve_callee("", &locals, &imports, "g"), "g");
}

#[test]
fn constructors_and_variants() {
    let imports = imports();
    let types = vec![s("app.Shape"), s("util.Pair"), s("std.Option")];
    assert_eq!(qualify_constructor("app", &imports, &types, "Shape"), "app.Shape");
    assert_eq!(qualify_constructor("app", &imports, &types, "Shape.Circle"), "app.Shape.Circle");
    assert_eq!(qualify_constructor("app", &imports, &types, "Pair"), "util.Pair");
    assert_eq!(qualify_constructor("app", &imports, &types, "Option.Some"), "std.Option.Some");
    assert_eq!(qualify_enum_variant("app", &imports, &types, "Shape.Square"), "app.Shape.Square");
    assert_eq!(resolve_associated_type("app", &imports, &types, "Pair"), "util.Pair");
    assert_eq!(resolve_associated_type("app", &imports, &types, "Unknown"), "Unknown");
    assert!(is_constructor_target("app", "Shape", &imports, &types));
    assert!(is_constructor_target("app", "Shape.Circle", &imports, &types));
    assert!(is_constructor_target("app", "Option.None", &imports, &types));
    assert!(!is_constructor_target("app", "helper", &imports, &types));
}

#[test]
fn modules_of_source_files() {
    assert_eq!(expected_module("/p/src", "/p/src/main.do"), Ok(s("")));
    assert_eq!(expected_module("/p/src", "/p/src/util/numbers.do"), Ok(s("util.numbers")));
    assert_eq!(expected_module("/p/src", "/p/src/a/b/c.x.do"), Ok(s("a.b.c.x")));
    assert!(matches!(
        expected_module("/p/src", "/q/main.do"),
        Err(ModuleError::OutsideRoot { .. })
    ));
    assert_eq!(expected_package("/p/src", "/p/src/main.do"), Ok(s("")));
    assert_eq!(expected_package("/p/src", "/p/src/a/b/c.do"), Ok(s("a.b")));
}

#[test]
fn package_declarations() {
    assert_eq!(validate_package("", None), Ok(()));
    assert_eq!(validate_package("", Some(&vec![s("a")])), Err(PackageDeclError::MustOmit));
    assert!(matches!(validate_package("a.b", None), Err(PackageDeclError::Missing { .. })));
    assert_eq!(validate_package("a.b", Some(&vec![s("a"), s("b")])), Ok(()));
    assert!(matches!(
        validate_package("a.b", Some(&vec![s("a"), s("c")])),
        Err(PackageDeclError::Mismatch { .. })
    ));
}
