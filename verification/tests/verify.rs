use std::path::PathBuf;

use dolphin::ir::{
    BasicBlock, BlockId, EnumVariant, Expr, ExprKind, Function, FunctionId, Instruction, LocalId,
    Location, PrintPart, Program, StructField, Terminator, Type, TypeDef, TypeId,
};
use dolphin::verify::verify_program;

fn location() -> Location {
    Location {
        file: 0,
        line: 1,
        column: 1,
    }
}

fn block(instructions: Vec<Instruction>, terminator: Terminator) -> BasicBlock {
    let locations = instructions.iter().map(|_| location()).collect();
    BasicBlock {
        instructions,
        terminator,
        location: location(),
        locations,
        terminator_location: location(),
    }
}

fn function_with_id(
    id: usize,
    name: &str,
    locals: Vec<Type>,
    parameters: Vec<LocalId>,
    return_type: Type,
    blocks: Vec<BasicBlock>,
) -> Function {
    Function {
        id: FunctionId(id),
        name: name.to_string(),
        parameters,
        return_type,
        locals,
        blocks,
        entry: BlockId(0),
        external_link_name: None,
        source: 0,
        location: location(),
    }
}

fn main_with(locals: Vec<Type>, instructions: Vec<Instruction>, terminator: Terminator) -> Program {
    Program {
        functions: vec![function_with_id(
            0,
            "main",
            locals,
            Vec::new(),
            Type::I32,
            vec![block(instructions, terminator)],
        )],
        main: Some(FunctionId(0)),
        types: Vec::new(),
        sources: vec![PathBuf::from("test.do")],
    }
}

fn empty_struct() -> TypeDef {
    TypeDef::Struct {
        fields: Vec::new(),
        extern_c: false,
    }
}

#[test]
fn valid_minimal_program_passes() {
    let program = main_with(
        vec![Type::I32],
        vec![Instruction::SetLocal {
            local: LocalId(0),
            value: Expr::i32(1),
        }],
        Terminator::Return(Some(Expr::i32(0))),
    );
    assert_eq!(verify_program(&program), Ok(()));
}

#[test]
fn struct_kind_mismatch_is_rejected() {
    let mut program = main_with(vec![], vec![], Terminator::Return(Some(Expr::i32(0))));
    program.types = vec![empty_struct()];
    program.functions[0].locals = vec![Type::Enum(TypeId(0))];
    let error = verify_program(&program).unwrap_err();
    assert!(error.message().contains("resolves to a struct"), "{}", error.message());
}

#[test]
fn value_self_cycle_is_rejected() {
    let mut program = main_with(vec![], vec![], Terminator::Return(Some(Expr::i32(0))));
    program.types = vec![TypeDef::Struct {
        fields: vec![StructField {
            name: "next".to_string(),
            ty: Type::Struct(TypeId(0)),
            public: true,
        }],
        extern_c: false,
    }];
    let error = verify_program(&program).unwrap_err();
    assert!(error.message().contains("contains itself by value"), "{}", error.message());
}

#[test]
fn value_mutual_cycle_is_rejected() {
    let mut program = main_with(vec![], vec![], Terminator::Return(Some(Expr::i32(0))));
    program.types = vec![
        TypeDef::Struct {
            fields: vec![StructField {
                name: "other".to_string(),
                ty: Type::Struct(TypeId(1)),
                public: true,
            }],
            extern_c: false,
        },
        TypeDef::Struct {
            fields: vec![StructField {
                name: "other".to_string(),
                ty: Type::Struct(TypeId(0)),
                public: true,
            }],
            extern_c: false,
        },
    ];
    let error = verify_program(&program).unwrap_err();
    assert!(error.message().contains("contains itself by value"), "{}", error.message());
}

#[test]
fn pointer_recursion_is_allowed() {
    let mut program = main_with(vec![], vec![], Terminator::Return(Some(Expr::i32(0))));
    program.types = vec![TypeDef::Struct {
        fields: vec![StructField {
            name: "next".to_string(),
            ty: Type::Ptr {
                pointee: Box::new(Type::Struct(TypeId(0))),
                mutable: true,
            },
            public: true,
        }],
        extern_c: false,
    }];
    assert_eq!(verify_program(&program), Ok(()));
}

#[test]
fn invalid_local_index_is_rejected() {
    let program = main_with(
        vec![Type::I32],
        vec![Instruction::SetLocal {
            local: LocalId(3),
            value: Expr::i32(1),
        }],
        Terminator::Return(Some(Expr::i32(0))),
    );
    let error = verify_program(&program).unwrap_err();
    assert!(error.message().contains("local reference #3"), "{}", error.message());
}

#[test]
fn invalid_block_target_is_rejected() {
    let program = main_with(vec![], vec![], Terminator::Jump(BlockId(5)));
    let error = verify_program(&program).unwrap_err();
    assert!(error.message().contains("block target #5"), "{}", error.message());
}

#[test]
fn location_count_mismatch_is_rejected() {
    let mut program = main_with(
        vec![Type::I32],
        vec![
            Instruction::SetLocal {
                local: LocalId(0),
                value: Expr::i32(1),
            },
            Instruction::SetLocal {
                local: LocalId(0),
                value: Expr::i32(2),
            },
        ],
        Terminator::Return(Some(Expr::i32(0))),
    );
    program.functions[0].blocks[0].locations.pop();
    let error = verify_program(&program).unwrap_err();
    assert!(error.message().contains("2 instructions but 1 locations"), "{}", error.message());
}

#[test]
fn branch_condition_must_be_bool() {
    let program = main_with(
        vec![],
        vec![],
        Terminator::Branch {
            condition: Expr::i32(1),
            then_block: BlockId(0),
            else_block: BlockId(0),
        },
    );
    let error = verify_program(&program).unwrap_err();
    assert!(error.message().contains("branch condition"), "{}", error.message());
}

#[test]
fn set_local_type_mismatch_is_rejected() {
    let program = main_with(
        vec![Type::I32],
        vec![Instruction::SetLocal {
            local: LocalId(0),
            value: Expr {
                kind: ExprKind::Float(1.0f64.to_bits()),
                ty: Type::F64,
            },
        }],
        Terminator::Return(Some(Expr::i32(0))),
    );
    let error = verify_program(&program).unwrap_err();
    assert!(error.message().contains("SetLocal"), "{}", error.message());
}

#[test]
fn call_arity_mismatch_is_rejected() {
    let callee = function_with_id(
        1,
        "callee",
        vec![],
        vec![],
        Type::I32,
        vec![block(vec![], Terminator::Return(Some(Expr::i32(0))))],
    );
    let mut program = main_with(
        vec![],
        vec![Instruction::Evaluate(Expr {
            kind: ExprKind::Call {
                function: FunctionId(1),
                arguments: vec![Expr::i32(1)],
            },
            ty: Type::I32,
        })],
        Terminator::Return(Some(Expr::i32(0))),
    );
    program.functions.push(callee);
    let error = verify_program(&program).unwrap_err();
    assert!(error.message().contains("expects 0 arguments"), "{}", error.message());
}

#[test]
fn extern_without_body_is_allowed() {
    let mut program = main_with(vec![], vec![], Terminator::Return(Some(Expr::i32(0))));
    let mut external = function_with_id(1, "c_func", vec![], vec![], Type::I32, Vec::new());
    external.external_link_name = Some("c_func".to_string());
    program.functions.push(external);
    assert_eq!(verify_program(&program), Ok(()));
}

#[test]
fn library_without_main_is_allowed() {
    let mut program = main_with(vec![], vec![], Terminator::Return(Some(Expr::i32(0))));
    program.main = None;
    assert_eq!(verify_program(&program), Ok(()));
}

#[test]
fn invalid_source_is_rejected() {
    let mut program = main_with(vec![], vec![], Terminator::Return(Some(Expr::i32(0))));
    program.functions[0].source = 5;
    let error = verify_program(&program).unwrap_err();
    assert!(error.message().contains("source #5"), "{}", error.message());
}

#[test]
fn enum_variant_out_of_range_is_rejected() {
    let mut program = main_with(
        vec![],
        vec![Instruction::Evaluate(Expr {
            kind: ExprKind::EnumInit {
                variant: 3,
                arguments: Vec::new(),
            },
            ty: Type::Enum(TypeId(0)),
        })],
        Terminator::Return(Some(Expr::i32(0))),
    );
    program.types = vec![TypeDef::Enum {
        variants: vec![EnumVariant {
            name: "Only".to_string(),
            fields: Vec::new(),
        }],
    }];
    let error = verify_program(&program).unwrap_err();
    assert!(error.message().contains("no variant #3"), "{}", error.message());
}

#[test]
fn return_type_mismatch_is_rejected() {
    let mut program = main_with(vec![], vec![], Terminator::Return(Some(Expr::i32(0))));
    program.functions[0].return_type = Type::Bool;
    let error = verify_program(&program).unwrap_err();
    assert!(error.message().contains("return type"), "{}", error.message());
}

#[test]
fn empty_return_in_non_unit_is_rejected() {
    let program = main_with(vec![], vec![], Terminator::Return(None));
    let error = verify_program(&program).unwrap_err();
    assert!(error.message().contains("empty return"), "{}", error.message());
}

#[test]
fn print_non_printable_is_rejected() {
    let mut program = main_with(
        vec![Type::Struct(TypeId(0))],
        vec![Instruction::Print(vec![PrintPart::Value(Expr {
            kind: ExprKind::Local(LocalId(0)),
            ty: Type::Struct(TypeId(0)),
        })])],
        Terminator::Return(Some(Expr::i32(0))),
    );
    program.types = vec![empty_struct()];
    let error = verify_program(&program).unwrap_err();
    assert!(error.message().contains("cannot print"), "{}", error.message());
}

#[test]
fn messages_render_types_in_source_spelling() {
    let program = main_with(
        vec![Type::Ptr { pointee: Box::new(Type::U8), mutable: false }],
        vec![Instruction::SetLocal {
            local: LocalId(0),
            value: Expr::i32(7),
        }],
        Terminator::Return(Some(Expr::i32(0))),
    );
    let error = verify_program(&program).unwrap_err();
    assert_eq!(
        error.message(),
        "function `main`: block #0: SetLocal local #0 expects `*const u8` but value has type `i32`"
    );
}

#[test]
fn out_of_range_type_reference_is_reported() {
    let mut program = main_with(vec![], vec![], Terminator::Return(Some(Expr::i32(0))));
    program.types = vec![TypeDef::Struct {
        fields: vec![StructField {
            name: "bad".to_string(),
            ty: Type::Array { element: dolphin::ir::ScalarType::I8, length: 0 },
            public: false,
        }],
        extern_c: false,
    }];
    let error = verify_program(&program).unwrap_err();
    assert_eq!(error.message(), "type #0: array length must be greater than zero");
}
