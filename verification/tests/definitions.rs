use dolphin::definitions::{
    check_definitions, check_import_conflicts, collect_definitions, resolve_imports, resolve_named_type, resolve_type_name, DeclarationPlace, Declared, DefinitionError,
    DefinitionKind, ImportError, UnitDeclarations,
};
use dolphin::modules::ImportBinding;

fn declared(names: &[&str]) -> Vec<Declared> {
    names.iter().map(|n| Declared { name: n.to_string(), public: n.starts_with('P') }).collect()
}

fn unit(module: &str, functions: &[&str], structs: &[&str], enums: &[&str], traits: &[&str]) -> UnitDeclarations {
    UnitDeclarations {
        module: module.to_string(),
        builtin: false,
        functions: declared(functions),
        structs: declared(structs),
        enums: declared(enums),
        traits: declared(traits),
    }
}

#[test]
fn definitions_are_collected_under_qualified_names_in_unit_order() {
    let units = vec![
        unit("", &["main"], &["Point"], &["Shape"], &[]),
        unit("util.math", &["add", "Psub"], &[], &["Sign"], &["Show"]),
    ];
    let tables = check_definitions(&units).unwrap();
    let functions: Vec<&str> = tables.functions.iter().map(|d| d.qualified.as_str()).collect();
    assert_eq!(functions, vec!["main", "util.math.add", "util.math.Psub"]);
    assert_eq!(tables.functions[2].module, "util.math");
    assert!(tables.functions[2].public);
    assert!(!tables.functions[1].public);
    let types: Vec<&str> = tables.types.iter().map(|d| d.qualified.as_str()).collect();
    assert_eq!(types, vec!["Point", "Shape", "util.math.Sign"]);
    assert_eq!(tables.traits[0].qualified, "util.math.Show");
    assert_eq!(tables.traits[0].name, "Show");
}

#[test]
fn user_modules_cannot_use_the_std_namespace() {
    let error = check_definitions(&vec![unit("app", &[], &[], &[], &[]), unit("std.io", &[], &[], &[], &[])])
        .unwrap_err();
    assert_eq!(error, DefinitionError::ReservedNamespace { unit: 1, module: "std.io".to_string() });
    assert_eq!(error.message(), "module `std.io` uses the reserved `std` namespace");
    assert!(check_definitions(&vec![unit("std", &[], &[], &[], &[])]).is_err());
    assert!(check_definitions(&vec![unit("stdlib.io", &[], &[], &[], &[])]).is_ok());
    let mut builtin = unit("std.text", &[], &[], &[], &[]);
    builtin.builtin = true;
    assert!(check_definitions(&vec![builtin]).is_ok());
}

#[test]
fn built_in_function_names_are_reserved() {
    let error = check_definitions(&vec![unit("io", &["read", "println"], &[], &[], &[])]).unwrap_err();
    assert_eq!(error.message(), "`println` is a reserved built-in function");
    assert!(matches!(error, DefinitionError::ReservedFunction { unit: 0, place: DeclarationPlace::Function(1), .. }));
}

#[test]
fn a_qualified_name_is_defined_once_per_namespace() {
    let units = vec![unit("util", &["f"], &[], &[], &[]), unit("util", &["f"], &[], &[], &[])];
    let error = check_definitions(&units).unwrap_err();
    assert_eq!(error.message(), "function `util.f` is already defined");
    assert!(matches!(error, DefinitionError::AlreadyDefined { unit: 1, place: DeclarationPlace::Function(0), .. }));

    let error = check_definitions(&vec![unit("geo", &[], &["Shape"], &["Shape"], &[])]).unwrap_err();
    assert_eq!(error.message(), "type `geo.Shape` is already defined");
    assert!(matches!(
        error,
        DefinitionError::AlreadyDefined { kind: DefinitionKind::Type, unit: 0, place: DeclarationPlace::Enum(0), .. }
    ));

    let error = check_definitions(&vec![unit("a", &[], &[], &[], &["Show", "Show"])]).unwrap_err();
    assert_eq!(error.message(), "trait `a.Show` is already defined");

    // A function, a type and a trait may share a name.
    assert!(check_definitions(&vec![unit("a", &["Item"], &["Item"], &[], &["Item"])]).is_ok());
}

#[test]
fn functions_are_checked_before_types() {
    let units = vec![unit("m", &["f", "f"], &["T", "T"], &[], &[])];
    assert_eq!(check_definitions(&units).unwrap_err().message(), "function `m.f` is already defined");
    assert!(matches!(
        collect_definitions(&units, DefinitionKind::Type),
        Err((0, DeclarationPlace::Struct(1)))
    ));
}

fn path(p: &str) -> Vec<String> {
    p.split('.').map(str::to_string).collect()
}

#[test]
fn imports_bind_modules_and_visible_definitions() {
    let units = vec![
        unit("app", &["main"], &[], &[], &[]),
        unit("util.math", &["Padd", "secret"], &["PVec"], &[], &["PShow"]),
    ];
    let tables = check_definitions(&units).unwrap();
    let modules = vec!["app".to_string(), "util.math".to_string()];
    let uses = vec![path("util.math"), path("util.math.Padd"), path("std.mem"), path("util.math.PShow"), path("util.math.PVec")];
    let bindings = resolve_imports("app", "", &vec![], &modules, &tables, &uses).unwrap();
    assert_eq!(
        bindings,
        vec![
            ("math".to_string(), ImportBinding::Module("util.math".to_string())),
            ("Padd".to_string(), ImportBinding::Function("util.math.Padd".to_string())),
            ("mem".to_string(), ImportBinding::Module("std.mem".to_string())),
            ("PShow".to_string(), ImportBinding::Trait("util.math.PShow".to_string())),
            ("PVec".to_string(), ImportBinding::Type("util.math.PVec".to_string())),
        ]
    );
    // A package namespace is a module target too.
    let bindings = resolve_imports("app", "", &vec![], &modules, &tables, &vec![path("util")]).unwrap();
    assert_eq!(bindings, vec![("util".to_string(), ImportBinding::Module("util".to_string()))]);
}

#[test]
fn imports_of_private_unknown_or_repeated_names_are_refused() {
    let units = vec![unit("app", &["main"], &[], &[], &[]), unit("util.math", &["secret"], &[], &[], &[])];
    let tables = check_definitions(&units).unwrap();
    let modules = vec!["app".to_string(), "util.math".to_string()];
    let error = resolve_imports("app", "", &vec![], &modules, &tables, &vec![path("util.math.secret")]).unwrap_err();
    assert_eq!(error.message(), "function `util.math.secret` is private");
    assert_eq!(error.import(), 0);
    assert!(resolve_imports("util.math", "", &vec![], &modules, &tables, &vec![path("util.math.secret")]).is_ok());
    let error = resolve_imports("app", "", &vec![], &modules, &tables, &vec![path("util.none")]).unwrap_err();
    assert_eq!(error, ImportError::Unknown { import: 0, path: "util.none".to_string() });
    assert_eq!(error.message(), "unknown import `util.none`");
    let error = resolve_imports("app", "", &vec![], &modules, &tables, &vec![path("util.math"), path("util.math")])
        .unwrap_err();
    assert_eq!(error.message(), "import name `math` is already defined");
    assert_eq!(error.import(), 1);
}

#[test]
fn imports_through_a_dependency_alias_reach_its_prefix() {
    let units = vec![unit("@2.lib", &["Pf"], &[], &[], &[])];
    let tables = check_definitions(&units).unwrap();
    let modules = vec!["@2.lib".to_string()];
    let aliases = vec![("dep".to_string(), "@2".to_string())];
    let bindings = resolve_imports("@1.main", "@1", &aliases, &modules, &tables, &vec![path("dep.lib"), path("dep.lib.Pf")])
        .unwrap();
    assert_eq!(
        bindings,
        vec![
            ("lib".to_string(), ImportBinding::Module("@2.lib".to_string())),
            ("Pf".to_string(), ImportBinding::Function("@2.lib.Pf".to_string())),
        ]
    );
}

#[test]
fn type_names_prefer_the_module_then_imports_then_the_prelude() {
    let mut standard = unit("std", &[], &[], &["Option"], &[]);
    standard.builtin = true;
    standard.enums[0].public = true;
    let units = vec![
        unit("", &[], &["PShape"], &[], &[]),
        unit("geo", &[], &["PShape", "hidden"], &[], &["PDraw"]),
        standard,
    ];
    let tables = check_definitions(&units).unwrap();
    let none: Vec<(String, ImportBinding)> = vec![];
    // A module's own definition shadows the root's bare name.
    assert_eq!(resolve_named_type("geo", &none, &tables.types, "PShape").unwrap(), Some("geo.PShape".to_string()));
    assert_eq!(resolve_named_type("app", &none, &tables.types, "PShape").unwrap(), Some("PShape".to_string()));
    // Imported types resolve through the binding.
    let imports = vec![("G".to_string(), ImportBinding::Type("geo.PShape".to_string()))];
    assert_eq!(resolve_named_type("app", &imports, &tables.types, "G").unwrap(), Some("geo.PShape".to_string()));
    // The prelude supplies `Option`.
    assert_eq!(resolve_named_type("app", &none, &tables.types, "Option").unwrap(), Some("std.Option".to_string()));
    // Primitives and parameters stay as written.
    assert_eq!(resolve_named_type("app", &none, &tables.types, "i32").unwrap(), None);
    // Private types of other modules are refused.
    let imports = vec![("geo".to_string(), ImportBinding::Module("geo".to_string()))];
    assert_eq!(resolve_named_type("app", &imports, &tables.types, "geo.hidden"), Err("geo.hidden".to_string()));
    assert_eq!(resolve_named_type("geo", &none, &tables.types, "hidden").unwrap(), Some("geo.hidden".to_string()));
    // Impl targets and traits.
    let imports = vec![("Draw".to_string(), ImportBinding::Trait("geo.PDraw".to_string()))];
    assert_eq!(resolve_type_name("app", &imports, &tables.traits, "Draw"), "geo.PDraw");
    assert_eq!(resolve_type_name("geo", &none, &tables.types, "PShape"), "geo.PShape");
    assert_eq!(resolve_type_name("app", &none, &tables.types, "Unknown"), "Unknown");
}

#[test]
fn imports_cannot_shadow_the_modules_functions() {
    let bindings = vec![
        ("math".to_string(), ImportBinding::Module("util.math".to_string())),
        ("add".to_string(), ImportBinding::Function("util.math.add".to_string())),
    ];
    let functions = declared(&["main", "add"]);
    assert_eq!(
        check_import_conflicts("", &bindings, &functions),
        Err("import `add` conflicts with a function in module `<root>`".to_string())
    );
    assert_eq!(
        check_import_conflicts("app", &bindings, &functions),
        Err("import `add` conflicts with a function in module `app`".to_string())
    );
    assert!(check_import_conflicts("app", &bindings, &declared(&["main"])).is_ok());
}
