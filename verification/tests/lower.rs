use std::collections::BTreeSet;

use dolphin::ir::{EnumVariant, Expr, ExprKind, ScalarType, StructField, Type, TypeDef, TypeId};
use dolphin::lower::{
    call_variant_for_enum, check_constant_index, default_expr, is_castable,
    is_equality_comparable, is_printable, lower_integer_literal, parse_format, parse_i64,
    parse_u64, parse_unsuffixed_integer, DefinitionKind, FormatPart, split_number, is_float_literal,
    float_literal_type,
};

fn text(s: &str) -> FormatPart {
    FormatPart::Text(s.to_string())
}

#[test]
fn format_splits_text_and_placeholders() {
    assert_eq!(
        parse_format("x = {}, y = {}").unwrap(),
        vec![
            text("x = "),
            FormatPart::Placeholder,
            text(", y = "),
            FormatPart::Placeholder,
            text("")
        ]
    );
    assert_eq!(parse_format("plain").unwrap(), vec![text("plain")]);
    assert_eq!(parse_format("").unwrap(), vec![text("")]);
}

#[test]
fn doubled_braces_are_literal() {
    assert_eq!(
        parse_format("{{}} {}").unwrap(),
        vec![text("{} "), FormatPart::Placeholder, text("")]
    );
}

#[test]
fn unmatched_braces_are_rejected() {
    assert_eq!(
        parse_format("a { b"),
        Err("unmatched brace in format string".to_string())
    );
    assert!(parse_format("}").is_err());
    assert!(parse_format("{x}").is_err());
    assert!(parse_format("{").is_err());
}

#[test]
fn scalar_defaults_are_zero() {
    let types: Vec<TypeDef> = vec![];
    let e = default_expr(Type::U16, &types);
    assert_eq!(e.ty, Type::U16);
    assert!(matches!(e.kind, ExprKind::Integer(0)));
    assert!(matches!(default_expr(Type::F64, &types).kind, ExprKind::Float(0)));
    assert!(matches!(default_expr(Type::Bool, &types).kind, ExprKind::Bool(false)));
    assert!(matches!(default_expr(Type::Char, &types).kind, ExprKind::Char('\0')));
    match default_expr(Type::String, &types).kind {
        ExprKind::String(s) => assert!(s.is_empty()),
        other => panic!("unexpected {other:?}"),
    }
    let ptr = Type::Ptr {
        pointee: Box::new(Type::I8),
        mutable: false,
    };
    assert!(matches!(default_expr(ptr, &types).kind, ExprKind::Null));
}

#[test]
fn aggregate_defaults_follow_the_shape() {
    let types = vec![
        TypeDef::Struct {
            fields: vec![
                StructField {
                    name: "a".to_string(),
                    ty: Type::I32,
                    public: true,
                },
                StructField {
                    name: "e".to_string(),
                    ty: Type::Enum(TypeId(1)),
                    public: true,
                },
            ],
            extern_c: false,
        },
        TypeDef::Enum {
            variants: vec![
                EnumVariant {
                    name: "Some".to_string(),
                    fields: vec![Type::Bool],
                },
                EnumVariant {
                    name: "None".to_string(),
                    fields: vec![],
                },
            ],
        },
    ];
    let e = default_expr(Type::Struct(TypeId(0)), &types);
    let ExprKind::StructInit { fields } = e.kind else {
        panic!("expected a struct")
    };
    assert_eq!(fields.len(), 2);
    assert!(matches!(fields[0].kind, ExprKind::Integer(0)));
    let ExprKind::EnumInit { variant, arguments } = &fields[1].kind else {
        panic!("expected an enum")
    };
    assert_eq!(*variant, 0);
    assert_eq!(arguments.len(), 1);
    assert!(matches!(arguments[0].kind, ExprKind::Bool(false)));

    let array = default_expr(
        Type::Array {
            element: ScalarType::U8,
            length: 3,
        },
        &types,
    );
    let ExprKind::RepeatArray { value, length } = array.kind else {
        panic!("expected an array")
    };
    assert_eq!(length, 3);
    assert!(matches!(value.kind, ExprKind::Integer(0)));

    let slice = default_expr(
        Type::Slice {
            element: Box::new(Type::U8),
            mutable: true,
        },
        &types,
    );
    let ExprKind::MemAlloc { element, count } = slice.kind else {
        panic!("expected an allocation")
    };
    assert_eq!(element, Type::U8);
    assert_eq!(count.ty, Expr::i32(0).ty);
    assert!(matches!(count.kind, ExprKind::Integer(0)));
}

#[test]
fn type_predicates() {
    assert!(is_castable(&Type::Char));
    assert!(is_castable(&Type::F32));
    assert!(!is_castable(&Type::Bool));
    assert!(is_equality_comparable(&Type::String));
    assert!(is_equality_comparable(&Type::Null));
    assert!(!is_equality_comparable(&Type::Struct(TypeId(0))));
    assert!(is_printable(&Type::Bool));
    assert!(!is_printable(&Type::Ptr {
        pointee: Box::new(Type::U8),
        mutable: true
    }));
}

#[test]
fn enum_call_prefix_must_match() {
    assert_eq!(
        call_variant_for_enum("Color.Red", "Color"),
        Some("Red".to_string())
    );
    assert_eq!(call_variant_for_enum("Red", "Color"), Some("Red".to_string()));
    assert_eq!(call_variant_for_enum("paint.Red", "Color"), None);
    assert_eq!(
        call_variant_for_enum("m.Color.Red", "m.Color"),
        Some("Red".to_string())
    );
}

#[test]
fn integer_parsing_agrees_with_std() {
    let cases = [
        "0", "42", "+42", "-42", "+", "-", "", "007", "1_000", "1.0", " 1", "1 ",
        "18446744073709551615", "18446744073709551616", "9223372036854775807",
        "9223372036854775808", "-9223372036854775808", "-9223372036854775809",
        "99999999999999999999999",
    ];
    for case in cases {
        assert_eq!(parse_u64(case), case.parse::<u64>().ok(), "u64 `{case}`");
        assert_eq!(parse_i64(case), case.parse::<i64>().ok(), "i64 `{case}`");
    }
}

#[test]
fn integer_literals_are_range_checked() {
    let e = lower_integer_literal("42", "", false).unwrap();
    assert_eq!(e.ty, Type::I32);
    assert!(matches!(e.kind, ExprKind::Integer(42)));
    let e = lower_integer_literal("128", "i8", true).unwrap();
    assert_eq!(e.ty, Type::I8);
    assert!(matches!(e.kind, ExprKind::Integer(v) if v == 0u64.wrapping_sub(128)));
    assert_eq!(
        lower_integer_literal("128", "i8", false).unwrap_err(),
        "literal does not fit in `i8`"
    );
    assert_eq!(
        lower_integer_literal("1", "u8", true).unwrap_err(),
        "cannot negate `u8` literal"
    );
    assert_eq!(
        lower_integer_literal("1", "q", false).unwrap_err(),
        "invalid numeric suffix `q`"
    );
    assert_eq!(
        lower_integer_literal("18446744073709551616", "u64", false).unwrap_err(),
        "integer literal is too large"
    );
    let e = lower_integer_literal("18446744073709551615", "u64", false).unwrap();
    assert!(matches!(e.kind, ExprKind::Integer(u64::MAX)));
    let e = lower_integer_literal("0", "i64", true).unwrap();
    assert!(matches!(e.kind, ExprKind::Integer(0)));
}

#[test]
fn constant_indices_are_checked() {
    assert_eq!(parse_unsuffixed_integer("3"), Some(3));
    assert_eq!(parse_unsuffixed_integer("3_i32"), None);
    assert_eq!(parse_unsuffixed_integer("1e3"), None);
    assert!(check_constant_index(Some(2), 3).is_ok());
    assert!(check_constant_index(None, 0).is_ok());
    assert_eq!(
        check_constant_index(Some(3), 3),
        Err("array index is out of bounds for length 3".to_string())
    );
    assert!(check_constant_index(Some(-1), 3).is_err());
}

#[test]
fn number_literals_split_into_digits_and_suffix() {
    assert_eq!(split_number("42_u8"), ("42".to_string(), "u8".to_string()));
    assert_eq!(split_number("42"), ("42".to_string(), String::new()));
    assert_eq!(split_number("1_000_i64"), ("1_000".to_string(), "i64".to_string()));
    assert!(is_float_literal("1.5", ""));
    assert!(is_float_literal("1e3", ""));
    assert!(is_float_literal("2", "f32"));
    assert!(!is_float_literal("2", "i32"));
    assert_eq!(float_literal_type("f32"), Ok(Type::F32));
    assert_eq!(float_literal_type(""), Ok(Type::F64));
    assert_eq!(
        float_literal_type("u8"),
        Err("invalid numeric suffix `u8`".to_string())
    );
}

#[test]
fn parsed_format_alternates_text_and_placeholders() {
    for format in ["", "a", "{}", "a{}b{}c", "{{}}{}"] {
        let parts = parse_format(format).unwrap();
        assert_eq!(parts.len() % 2, 1);
        for (i, part) in parts.iter().enumerate() {
            assert_eq!(matches!(part, FormatPart::Text(_)), i % 2 == 0);
        }
    }
}

#[test]
fn definition_kinds_are_ordered_by_declaration() {
    let kinds: BTreeSet<DefinitionKind> = [
        DefinitionKind::TypeParam,
        DefinitionKind::Function,
        DefinitionKind::Field,
    ]
    .into_iter()
    .collect();
    assert_eq!(
        kinds.into_iter().collect::<Vec<_>>(),
        vec![DefinitionKind::Function, DefinitionKind::Field, DefinitionKind::TypeParam]
    );
}
