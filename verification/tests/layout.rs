use dolphin::ir::{EnumVariant, StructField, Type, TypeDef, TypeId, ScalarType};
use dolphin::layout::{
    checked_layout_of, checked_size_of, component_count, enum_layout_of, enum_payload_components,
    enum_payload_size_bytes, field_offset, layout_of, struct_layout_of, array_byte_size, Layout,
    ENUM_PAYLOAD_COMPONENT_BYTES, POINTER_BYTES,
};

fn enum_types(variants: Vec<(&str, Vec<Type>)>) -> (Vec<TypeDef>, TypeId) {
    let variants = variants
        .into_iter()
        .map(|(name, fields)| EnumVariant {
            name: name.to_string(),
            fields,
        })
        .collect();
    (vec![TypeDef::Enum { variants }], TypeId(0))
}

fn field(name: &str, ty: Type) -> StructField {
    StructField {
        name: name.to_string(),
        ty,
        public: true,
    }
}

#[test]
fn enum_without_payload_is_four_four() {
    let (types, id) = enum_types(vec![("A", vec![]), ("B", vec![])]);
    let layout = enum_layout_of(&types, id, POINTER_BYTES);
    assert_eq!(layout.tag_offset, 0);
    assert_eq!(layout.payload_offset, 8);
    assert_eq!(layout.payload_components, 0);
    assert_eq!((layout.size, layout.align), (4, 4));
    assert_eq!(
        layout_of(&Type::Enum(id), &types, POINTER_BYTES),
        Layout { size: 4, align: 4 }
    );
}

#[test]
fn enum_payload_starts_at_eight_and_size_is_padded() {
    let (types, id) = enum_types(vec![("V", vec![Type::I64]), ("E", vec![])]);
    let layout = enum_layout_of(&types, id, POINTER_BYTES);
    assert_eq!(
        (
            layout.tag_offset,
            layout.payload_offset,
            layout.payload_components,
            layout.size,
            layout.align
        ),
        (0, 8, 1, 16, 8)
    );
    assert_eq!(layout.size % u64::from(layout.align), 0);

    let (types, id) = enum_types(vec![("Triple", vec![Type::F64, Type::F64, Type::F64])]);
    let layout = enum_layout_of(&types, id, POINTER_BYTES);
    assert_eq!(
        (layout.payload_components, layout.size, layout.align),
        (3, 32, 8)
    );
    assert_eq!(
        layout_of(&Type::Enum(id), &types, POINTER_BYTES),
        Layout { size: 32, align: 8 }
    );
}

#[test]
fn enum_payload_size_is_exact_for_max_components() {
    assert_eq!(enum_payload_size_bytes(0), 8);
    assert_eq!(enum_payload_size_bytes(1), 16);
    assert_eq!(
        enum_payload_size_bytes(u32::MAX),
        u64::from(ENUM_PAYLOAD_COMPONENT_BYTES) * (u64::from(u32::MAX) + 1)
    );
}

#[test]
fn enum_in_struct_uses_aligned_field_offsets() {
    let types = vec![
        TypeDef::Struct {
            fields: vec![
                field("head", Type::I32),
                field("shape", Type::Enum(TypeId(1))),
                field("tail", Type::I32),
            ],
            extern_c: false,
        },
        TypeDef::Enum {
            variants: vec![EnumVariant {
                name: "Circle".to_string(),
                fields: vec![Type::F64],
            }],
        },
    ];
    let (offsets, layout) = struct_layout_of(&types, TypeId(0), POINTER_BYTES);
    assert_eq!(offsets, vec![0, 8, 24]);
    assert_eq!((layout.size, layout.align), (32, 8));
    assert_eq!(
        checked_size_of(&Type::Struct(TypeId(0)), &types, POINTER_BYTES),
        u64::from(layout.size)
    );
}

#[test]
fn field_offset_agrees_with_struct_layout() {
    let fields = vec![
        field("a", Type::U8),
        field("b", Type::I64),
        field("c", Type::U16),
        field("d", Type::String),
    ];
    let types = vec![TypeDef::Struct { fields, extern_c: false }];
    let (offsets, layout) = struct_layout_of(&types, TypeId(0), POINTER_BYTES);
    assert_eq!(offsets, vec![0, 8, 16, 24]);
    assert_eq!(layout, Layout { size: 40, align: 8 });
    let TypeDef::Struct { fields, .. } = &types[0] else { unreachable!() };
    for (index, expected) in offsets.iter().enumerate() {
        assert_eq!(field_offset(fields, index, &types, POINTER_BYTES), *expected);
    }
    assert_eq!(
        checked_layout_of(&Type::Struct(TypeId(0)), &types, POINTER_BYTES),
        (40, 8)
    );
}

#[test]
fn arrays_and_pointers_have_expected_sizes() {
    assert_eq!(array_byte_size(ScalarType::I32, 0, POINTER_BYTES), 0);
    assert_eq!(array_byte_size(ScalarType::I32, 3, POINTER_BYTES), 12);
    assert_eq!(array_byte_size(ScalarType::String, 2, POINTER_BYTES), 32);
    assert_eq!(array_byte_size(ScalarType::I64, usize::MAX, POINTER_BYTES), u64::MAX);
    let types: Vec<TypeDef> = Vec::new();
    let array = Type::Array { element: ScalarType::Bool, length: 5 };
    assert_eq!(layout_of(&array, &types, POINTER_BYTES), Layout { size: 5, align: 1 });
    let huge = Type::Array { element: ScalarType::I64, length: 1 << 40 };
    assert_eq!(layout_of(&huge, &types, POINTER_BYTES).size, u32::MAX);
    assert_eq!(checked_size_of(&huge, &types, POINTER_BYTES), 8u64 << 40);
    let pointer = Type::Ptr { pointee: Box::new(Type::U8), mutable: true };
    assert_eq!(layout_of(&pointer, &types, POINTER_BYTES), Layout { size: 8, align: 8 });
    let slice = Type::Slice { element: Box::new(Type::U8), mutable: false };
    assert_eq!(layout_of(&slice, &types, POINTER_BYTES), Layout { size: 16, align: 8 });
    assert_eq!(layout_of(&Type::Unit, &types, POINTER_BYTES), Layout { size: 0, align: 1 });
    assert_eq!(layout_of(&Type::String, &types, POINTER_BYTES), Layout { size: 16, align: 8 });
}

#[test]
fn component_counts_flatten_aggregates() {
    let types = vec![
        TypeDef::Struct {
            fields: vec![field("s", Type::String), field("n", Type::I32)],
            extern_c: false,
        },
        TypeDef::Enum {
            variants: vec![
                EnumVariant { name: "A".to_string(), fields: vec![Type::Struct(TypeId(0))] },
                EnumVariant { name: "B".to_string(), fields: vec![Type::I8, Type::I8, Type::I8, Type::I8] },
            ],
        },
    ];
    assert_eq!(component_count(&Type::Struct(TypeId(0)), &types, POINTER_BYTES), 3);
    assert_eq!(enum_payload_components(&types, TypeId(1), POINTER_BYTES), 4);
    assert_eq!(component_count(&Type::Enum(TypeId(1)), &types, POINTER_BYTES), 5);
    let array = Type::Array { element: ScalarType::String, length: 3 };
    assert_eq!(component_count(&array, &types, POINTER_BYTES), 6);
    let huge = Type::Array { element: ScalarType::String, length: usize::MAX };
    assert_eq!(component_count(&huge, &types, POINTER_BYTES), u32::MAX);
}
