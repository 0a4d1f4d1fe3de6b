use dolphin::ir::{EnumVariant, FunctionId, ScalarType, StructField, Type, TypeDef, TypeId};
use dolphin::mono::{GenericKey, InstanceInfo, InstanceStatus, MonoState, TypeEnv};
use dolphin::package::PackageId;

fn field(name: &str, ty: Type) -> StructField {
    StructField {
        name: name.to_string(),
        ty,
        public: true,
    }
}

fn key(name: &str, args: Vec<Type>) -> GenericKey {
    GenericKey::in_package(PackageId::root(), name, args)
}

fn state(types: Vec<(TypeDef, GenericKey)>) -> MonoState {
    let mut mono = MonoState::new();
    for (def, k) in types {
        mono.types.push(def);
        mono.type_keys.push(k);
    }
    mono
}

fn plain_struct(fields: Vec<StructField>) -> TypeDef {
    TypeDef::Struct {
        fields,
        extern_c: false,
    }
}

#[test]
fn contained_types_skip_pointers_and_slices() {
    let mono = MonoState::new();
    let def = plain_struct(vec![
        field("a", Type::Struct(TypeId(3))),
        field(
            "p",
            Type::Ptr {
                pointee: Box::new(Type::Struct(TypeId(4))),
                mutable: true,
            },
        ),
        field("e", Type::Enum(TypeId(5))),
        field("n", Type::I32),
    ]);
    assert_eq!(mono.contained_user_types(&def), vec![TypeId(3), TypeId(5)]);
    let def = TypeDef::Enum {
        variants: vec![
            EnumVariant {
                name: "A".to_string(),
                fields: vec![Type::Enum(TypeId(1)), Type::Bool],
            },
            EnumVariant {
                name: "B".to_string(),
                fields: vec![],
            },
            EnumVariant {
                name: "C".to_string(),
                fields: vec![
                    Type::Slice {
                        element: Box::new(Type::Struct(TypeId(7))),
                        mutable: false,
                    },
                    Type::Struct(TypeId(2)),
                ],
            },
        ],
    };
    assert_eq!(mono.contained_user_types(&def), vec![TypeId(1), TypeId(2)]);
}

#[test]
fn pointer_breaks_a_layout_cycle() {
    let mono = state(vec![
        (plain_struct(vec![field("b", Type::Struct(TypeId(1)))]), key("A", vec![])),
        (
            plain_struct(vec![field(
                "a",
                Type::Ptr {
                    pointee: Box::new(Type::Struct(TypeId(0))),
                    mutable: false,
                },
            )]),
            key("B", vec![]),
        ),
    ]);
    assert_eq!(mono.check_layout_cycles(), Ok(()));
}

#[test]
fn by_value_cycle_is_reported() {
    let mono = state(vec![
        (plain_struct(vec![field("b", Type::Struct(TypeId(1)))]), key("A", vec![])),
        (plain_struct(vec![field("a", Type::Struct(TypeId(0)))]), key("B", vec![])),
    ]);
    assert_eq!(
        mono.check_layout_cycles(),
        Err("recursive layout: type `B` contains itself by value".to_string())
    );
}

#[test]
fn self_containing_generic_is_reported_with_arguments() {
    let mono = state(vec![(
        TypeDef::Enum {
            variants: vec![EnumVariant {
                name: "Cons".to_string(),
                fields: vec![Type::I32, Type::Enum(TypeId(0))],
            }],
        },
        key("List", vec![Type::I32, Type::Bool]),
    )]);
    assert_eq!(
        mono.check_layout_cycles(),
        Err("recursive layout: type `List<i32, bool>` contains itself by value".to_string())
    );
}

#[test]
fn type_display_shows_arguments() {
    let mono = state(vec![
        (plain_struct(vec![]), key("Point", vec![])),
        (plain_struct(vec![]), key("Pair", vec![Type::U8, Type::Struct(TypeId(0))])),
    ]);
    assert_eq!(mono.type_display(TypeId(0)), "Point");
    assert_eq!(mono.type_display(TypeId(1)), "Pair<u8, struct@0>");
}

#[test]
fn c_value_types_are_scalars_and_pointers_to_c_data() {
    let mono = state(vec![
        (
            TypeDef::Struct {
                fields: vec![field("x", Type::I32)],
                extern_c: true,
            },
            key("Header", vec![]),
        ),
        (plain_struct(vec![]), key("Plain", vec![])),
    ]);
    let ptr = |t: Type| Type::Ptr {
        pointee: Box::new(t),
        mutable: true,
    };
    assert!(mono.is_c_value_type(&Type::I64));
    assert!(mono.is_c_value_type(&Type::F64));
    assert!(!mono.is_c_value_type(&Type::Bool));
    assert!(!mono.is_c_value_type(&Type::Struct(TypeId(0))));
    assert!(mono.is_c_value_type(&ptr(Type::Struct(TypeId(0)))));
    assert!(!mono.is_c_value_type(&ptr(Type::Struct(TypeId(1)))));
    assert!(mono.is_c_value_type(&ptr(Type::Unit)));
    assert!(mono.is_c_value_type(&ptr(ptr(Type::U8))));
    assert!(mono.is_c_value_type(&ptr(Type::Array {
        element: ScalarType::U8,
        length: 4
    })));
    assert!(!mono.is_c_value_type(&ptr(Type::String)));
    assert!(mono.is_extern_struct(&Type::Struct(TypeId(0))));
    assert!(!mono.is_extern_struct(&Type::Struct(TypeId(1))));
}

#[test]
fn extern_struct_fields_are_checked() {
    let mono = state(vec![(
        TypeDef::Struct {
            fields: vec![],
            extern_c: true,
        },
        key("Header", vec![]),
    )]);
    assert_eq!(mono.validate_extern_struct_field(&Type::U32), Ok(()));
    assert_eq!(
        mono.validate_extern_struct_field(&Type::Struct(TypeId(0))),
        Ok(())
    );
    assert_eq!(
        mono.validate_extern_struct_field(&Type::Array {
            element: ScalarType::F32,
            length: 2
        }),
        Ok(())
    );
    assert_eq!(
        mono.validate_extern_struct_field(&Type::Bool),
        Err("type `bool` cannot be used in an `extern struct` field".to_string())
    );
    assert_eq!(
        mono.validate_extern_struct_field(&Type::Array {
            element: ScalarType::Char,
            length: 2
        }),
        Err("type `[char; 2]` cannot be used in an `extern struct` field".to_string())
    );
}

#[test]
fn type_queries_follow_the_table() {
    let mono = state(vec![
        (plain_struct(vec![field("x", Type::I32)]), key("S", vec![])),
        (
            TypeDef::Enum {
                variants: vec![EnumVariant {
                    name: "V".to_string(),
                    fields: vec![],
                }],
            },
            key("E", vec![]),
        ),
    ]);
    assert_eq!(mono.type_of(TypeId(0)), Type::Struct(TypeId(0)));
    assert_eq!(mono.type_of(TypeId(1)), Type::Enum(TypeId(1)));
    assert!(!mono.is_enum(TypeId(0)));
    assert!(mono.is_enum(TypeId(1)));
    assert_eq!(mono.struct_fields(TypeId(0)).len(), 1);
    assert_eq!(mono.enum_variants(TypeId(1))[0].name, "V");
}

#[test]
fn instance_signature_copies_the_instance_types() {
    let mut mono = MonoState::new();
    mono.instances.push(InstanceInfo {
        name: "m.f".to_string(),
        module: "m".to_string(),
        env: TypeEnv::new(),
        parameters: vec![Type::I32, Type::Bool],
        return_type: Type::U8,
        depth: 0,
        status: InstanceStatus::Queued,
        source_id: 0,
        extern_c: false,
        link_name: None,
    });
    let signature = mono.instance_signature(FunctionId(0));
    assert_eq!(signature.id, FunctionId(0));
    assert_eq!(signature.parameters, vec![Type::I32, Type::Bool]);
    assert_eq!(signature.return_type, Type::U8);
    assert_eq!(mono.instance(FunctionId(0)).name, "m.f");
}

#[test]
fn ensure_acyclic_follows_values_not_pointers() {
    let mono = state(vec![
        (plain_struct(vec![field("b", Type::Struct(TypeId(1)))]), key("A", vec![])),
        (
            plain_struct(vec![field(
                "a",
                Type::Ptr {
                    pointee: Box::new(Type::Struct(TypeId(0))),
                    mutable: true,
                },
            )]),
            key("B", vec![]),
        ),
        (plain_struct(vec![field("c", Type::Struct(TypeId(3)))]), key("C", vec![])),
        (plain_struct(vec![field("c", Type::Struct(TypeId(2)))]), key("D", vec![])),
        (plain_struct(vec![field("d", Type::Struct(TypeId(3)))]), key("E", vec![])),
    ]);
    assert_eq!(mono.ensure_acyclic(TypeId(0)), Ok(()));
    assert_eq!(mono.ensure_acyclic(TypeId(1)), Ok(()));
    assert_eq!(
        mono.ensure_acyclic(TypeId(2)),
        Err("recursive layout: type `C` contains itself by value".to_string())
    );
    assert!(mono.ensure_acyclic(TypeId(3)).is_err());
    // E only leads into the C-D cycle; it is not on it.
    assert_eq!(mono.ensure_acyclic(TypeId(4)), Ok(()));
}
