//! The backend-independent intermediate representation: types, functions,
//! basic blocks, instructions and expressions.
use vstd::prelude::*;

use crate::text::{decimal, push_decimal, push_str};

verus! {

/// Source file paths are carried through the IR unchanged.
#[verifier::external_type_specification]
#[verifier::external_body]
pub struct ExPathBuf(std::path::PathBuf);

/// A value type of the IR.
#[derive(Debug, PartialEq, Eq, Hash)]
pub enum Type {
    Unit,
    I8,
    I16,
    I32,
    I64,
    U8,
    U16,
    U32,
    U64,
    Usize,
    Isize,
    F32,
    F64,
    Char,
    Bool,
    String,
    /// Placeholder type of the `null` literal before it meets a pointer type.
    Null,
    Array { element: ScalarType, length: usize },
    Struct(TypeId),
    Enum(TypeId),
    Ptr { pointee: Box<Type>, mutable: bool },
    Slice { element: Box<Type>, mutable: bool },
}

/// Global number of a user-defined type.
#[derive(Clone, Copy, Debug, PartialEq, Eq, PartialOrd, Ord, Hash, Structural)]
pub struct TypeId(pub usize);

/// A user-defined type.
#[derive(Debug)]
pub enum TypeDef {
    Struct {
        fields: Vec<StructField>,
        /// `extern struct`: laid out for C and only passed to C by pointer.
        extern_c: bool,
    },
    Enum { variants: Vec<EnumVariant> },
}

#[derive(Debug)]
pub struct StructField {
    pub name: String,
    pub ty: Type,
    /// Field visibility; private to the module by default.
    pub public: bool,
}

#[derive(Debug)]
pub struct EnumVariant {
    pub name: String,
    pub fields: Vec<Type>,
}

#[derive(Clone, Copy, Debug, PartialEq, Eq, Hash, Structural)]
pub enum ScalarType {
    I8,
    I16,
    I32,
    I64,
    U8,
    U16,
    U32,
    U64,
    Usize,
    Isize,
    F32,
    F64,
    Char,
    Bool,
    String,
}

/// The scalar type named by `s`, as a `Type`.
pub open spec fn scalar_as_type(s: ScalarType) -> Type {
    match s {
        ScalarType::I8 => Type::I8,
        ScalarType::I16 => Type::I16,
        ScalarType::I32 => Type::I32,
        ScalarType::I64 => Type::I64,
        ScalarType::U8 => Type::U8,
        ScalarType::U16 => Type::U16,
        ScalarType::U32 => Type::U32,
        ScalarType::U64 => Type::U64,
        ScalarType::Usize => Type::Usize,
        ScalarType::Isize => Type::Isize,
        ScalarType::F32 => Type::F32,
        ScalarType::F64 => Type::F64,
        ScalarType::Char => Type::Char,
        ScalarType::Bool => Type::Bool,
        ScalarType::String => Type::String,
    }
}

/// The scalar a type denotes, if it is one of the fifteen scalar types.
pub open spec fn type_as_scalar(t: Type) -> Option<ScalarType> {
    match t {
        Type::I8 => Some(ScalarType::I8),
        Type::I16 => Some(ScalarType::I16),
        Type::I32 => Some(ScalarType::I32),
        Type::I64 => Some(ScalarType::I64),
        Type::U8 => Some(ScalarType::U8),
        Type::U16 => Some(ScalarType::U16),
        Type::U32 => Some(ScalarType::U32),
        Type::U64 => Some(ScalarType::U64),
        Type::Usize => Some(ScalarType::Usize),
        Type::Isize => Some(ScalarType::Isize),
        Type::F32 => Some(ScalarType::F32),
        Type::F64 => Some(ScalarType::F64),
        Type::Char => Some(ScalarType::Char),
        Type::Bool => Some(ScalarType::Bool),
        Type::String => Some(ScalarType::String),
        _ => None,
    }
}

pub open spec fn is_integer_type(t: Type) -> bool {
    match t {
        Type::I8 | Type::I16 | Type::I32 | Type::I64 | Type::U8 | Type::U16 | Type::U32
        | Type::U64 | Type::Usize | Type::Isize => true,
        _ => false,
    }
}

pub open spec fn is_signed_type(t: Type) -> bool {
    match t {
        Type::I8 | Type::I16 | Type::I32 | Type::I64 | Type::Isize => true,
        _ => false,
    }
}

pub open spec fn is_float_type(t: Type) -> bool {
    t is F32 || t is F64
}

pub open spec fn type_bits(t: Type) -> Option<u16> {
    match t {
        Type::I8 | Type::U8 => Some(8u16),
        Type::I16 | Type::U16 => Some(16u16),
        Type::I32 | Type::U32 | Type::F32 | Type::Char => Some(32u16),
        Type::I64 | Type::U64 | Type::Usize | Type::Isize | Type::F64 => Some(64u16),
        _ => None,
    }
}

impl ScalarType {
    pub fn as_type(self) -> (t: Type)
        ensures
            t == scalar_as_type(self),
    {
        match self {
            Self::I8 => Type::I8,
            Self::I16 => Type::I16,
            Self::I32 => Type::I32,
            Self::I64 => Type::I64,
            Self::U8 => Type::U8,
            Self::U16 => Type::U16,
            Self::U32 => Type::U32,
            Self::U64 => Type::U64,
            Self::Usize => Type::Usize,
            Self::Isize => Type::Isize,
            Self::F32 => Type::F32,
            Self::F64 => Type::F64,
            Self::Char => Type::Char,
            Self::Bool => Type::Bool,
            Self::String => Type::String,
        }
    }

    /// The name of the scalar type as written in source.
    pub fn render(&self) -> (s: String)
        ensures
            s@ == scalar_text(*self),
    {
        let mut s = String::new();
        push_str(&mut s, scalar_name(*self));
        s
    }
}

/// The source spelling of a scalar type.
pub open spec fn scalar_text(s: ScalarType) -> Seq<char> {
    match s {
        ScalarType::I8 => "i8"@,
        ScalarType::I16 => "i16"@,
        ScalarType::I32 => "i32"@,
        ScalarType::I64 => "i64"@,
        ScalarType::U8 => "u8"@,
        ScalarType::U16 => "u16"@,
        ScalarType::U32 => "u32"@,
        ScalarType::U64 => "u64"@,
        ScalarType::Usize => "usize"@,
        ScalarType::Isize => "isize"@,
        ScalarType::F32 => "f32"@,
        ScalarType::F64 => "f64"@,
        ScalarType::Char => "char"@,
        ScalarType::Bool => "bool"@,
        ScalarType::String => "string"@,
    }
}

fn scalar_name(s: ScalarType) -> (r: &'static str)
    ensures
        r@ == scalar_text(s),
{
    match s {
        ScalarType::I8 => "i8",
        ScalarType::I16 => "i16",
        ScalarType::I32 => "i32",
        ScalarType::I64 => "i64",
        ScalarType::U8 => "u8",
        ScalarType::U16 => "u16",
        ScalarType::U32 => "u32",
        ScalarType::U64 => "u64",
        ScalarType::Usize => "usize",
        ScalarType::Isize => "isize",
        ScalarType::F32 => "f32",
        ScalarType::F64 => "f64",
        ScalarType::Char => "char",
        ScalarType::Bool => "bool",
        ScalarType::String => "string",
    }
}

/// How a type is written in diagnostics.
pub open spec fn type_text(t: Type) -> Seq<char>
    decreases t,
{
    match t {
        Type::Unit => "Unit"@,
        Type::Null => "null"@,
        Type::Array { element, length } => "["@ + scalar_text(element) + "; "@ + decimal(
            length as nat,
        ) + "]"@,
        Type::Struct(id) => "struct@"@ + decimal(id.0 as nat),
        Type::Enum(id) => "enum@"@ + decimal(id.0 as nat),
        Type::Ptr { pointee, mutable } => if mutable {
            "*"@ + type_text(*pointee)
        } else {
            "*const "@ + type_text(*pointee)
        },
        Type::Slice { element, mutable } => if mutable {
            "[]"@ + type_text(*element)
        } else {
            "[]const "@ + type_text(*element)
        },
        _ => scalar_text(type_as_scalar(t)->0),
    }
}

impl Type {
    pub fn as_scalar(&self) -> (r: Option<ScalarType>)
        ensures
            r == type_as_scalar(*self),
    {
        match self {
            Self::I8 => Some(ScalarType::I8),
            Self::I16 => Some(ScalarType::I16),
            Self::I32 => Some(ScalarType::I32),
            Self::I64 => Some(ScalarType::I64),
            Self::U8 => Some(ScalarType::U8),
            Self::U16 => Some(ScalarType::U16),
            Self::U32 => Some(ScalarType::U32),
            Self::U64 => Some(ScalarType::U64),
            Self::Usize => Some(ScalarType::Usize),
            Self::Isize => Some(ScalarType::Isize),
            Self::F32 => Some(ScalarType::F32),
            Self::F64 => Some(ScalarType::F64),
            Self::Char => Some(ScalarType::Char),
            Self::Bool => Some(ScalarType::Bool),
            Self::String => Some(ScalarType::String),
            Self::Unit | Self::Array { .. } | Self::Struct(_) | Self::Enum(_) => None,
            Self::Ptr { .. } | Self::Slice { .. } | Self::Null => None,
        }
    }

    pub fn is_integer(&self) -> (r: bool)
        ensures
            r == is_integer_type(*self),
    {
        match self {
            Self::I8 | Self::I16 | Self::I32 | Self::I64 | Self::U8 | Self::U16 | Self::U32
            | Self::U64 | Self::Usize | Self::Isize => true,
            _ => false,
        }
    }

    pub fn is_signed_integer(&self) -> (r: bool)
        ensures
            r == is_signed_type(*self),
    {
        match self {
            Self::I8 | Self::I16 | Self::I32 | Self::I64 | Self::Isize => true,
            _ => false,
        }
    }

    pub fn is_float(&self) -> (r: bool)
        ensures
            r == is_float_type(*self),
    {
        match self {
            Self::F32 | Self::F64 => true,
            _ => false,
        }
    }

    pub fn bits(&self) -> (r: Option<u16>)
        ensures
            r == type_bits(*self),
    {
        match self {
            Self::I8 | Self::U8 => Some(8),
            Self::I16 | Self::U16 => Some(16),
            Self::I32 | Self::U32 | Self::F32 | Self::Char => Some(32),
            Self::I64 | Self::U64 | Self::Usize | Self::Isize | Self::F64 => Some(64),
            _ => None,
        }
    }

    /// Whether this is a pointer type (`*T` or `*const T`).
    pub fn is_pointer(&self) -> (r: bool)
        ensures
            r == (*self is Ptr),
    {
        match self {
            Self::Ptr { .. } => true,
            _ => false,
        }
    }

    /// A copy of the type, equal to it.
    pub fn duplicate(&self) -> (r: Type)
        ensures
            r == *self,
        decreases self,
    {
        match self {
            Self::Unit => Self::Unit,
            Self::I8 => Self::I8,
            Self::I16 => Self::I16,
            Self::I32 => Self::I32,
            Self::I64 => Self::I64,
            Self::U8 => Self::U8,
            Self::U16 => Self::U16,
            Self::U32 => Self::U32,
            Self::U64 => Self::U64,
            Self::Usize => Self::Usize,
            Self::Isize => Self::Isize,
            Self::F32 => Self::F32,
            Self::F64 => Self::F64,
            Self::Char => Self::Char,
            Self::Bool => Self::Bool,
            Self::String => Self::String,
            Self::Null => Self::Null,
            Self::Array { element, length } => Self::Array { element: *element, length: *length },
            Self::Struct(id) => Self::Struct(*id),
            Self::Enum(id) => Self::Enum(*id),
            Self::Ptr { pointee, mutable } => Self::Ptr {
                pointee: Box::new(pointee.duplicate()),
                mutable: *mutable,
            },
            Self::Slice { element, mutable } => Self::Slice {
                element: Box::new(element.duplicate()),
                mutable: *mutable,
            },
        }
    }

    /// Structural equality of two types.
    pub fn same(&self, other: &Type) -> (r: bool)
        ensures
            r == (*self == *other),
        decreases self,
    {
        match (self, other) {
            (Self::Unit, Self::Unit) => true,
            (Self::I8, Self::I8) => true,
            (Self::I16, Self::I16) => true,
            (Self::I32, Self::I32) => true,
            (Self::I64, Self::I64) => true,
            (Self::U8, Self::U8) => true,
            (Self::U16, Self::U16) => true,
            (Self::U32, Self::U32) => true,
            (Self::U64, Self::U64) => true,
            (Self::Usize, Self::Usize) => true,
            (Self::Isize, Self::Isize) => true,
            (Self::F32, Self::F32) => true,
            (Self::F64, Self::F64) => true,
            (Self::Char, Self::Char) => true,
            (Self::Bool, Self::Bool) => true,
            (Self::String, Self::String) => true,
            (Self::Null, Self::Null) => true,
            (
                Self::Array { element: e1, length: l1 },
                Self::Array { element: e2, length: l2 },
            ) => *e1 == *e2 && *l1 == *l2,
            (Self::Struct(a), Self::Struct(b)) => a.0 == b.0,
            (Self::Enum(a), Self::Enum(b)) => a.0 == b.0,
            (Self::Ptr { pointee: p1, mutable: m1 }, Self::Ptr { pointee: p2, mutable: m2 }) => {
                *m1 == *m2 && p1.same(p2)
            },
            (Self::Slice { element: p1, mutable: m1 }, Self::Slice { element: p2, mutable: m2 }) => {
                *m1 == *m2 && p1.same(p2)
            },
            _ => false,
        }
    }

    /// The diagnostic spelling of the type (`i32`, `[u8; 4]`, `*const T`, `struct@3`).
    pub fn render(&self) -> (s: String)
        ensures
            s@ == type_text(*self),
    {
        let mut s = String::new();
        self.render_into(&mut s);
        assert(s@ =~= type_text(*self));
        s
    }

    /// Appends the diagnostic spelling of the type to `out`.
    pub fn render_into(&self, out: &mut String)
        ensures
            final(out)@ == old(out)@ + type_text(*self),
        decreases self,
    {
        let ghost start = out@;
        match self {
            Self::Unit => push_str(out, "Unit"),
            Self::Null => push_str(out, "null"),
            Self::Array { element, length } => {
                push_str(out, "[");
                push_str(out, scalar_name(*element));
                push_str(out, "; ");
                push_decimal(out, *length as u64);
                push_str(out, "]");
                assert(out@ =~= start + type_text(*self));
            },
            Self::Struct(id) => {
                push_str(out, "struct@");
                push_decimal(out, id.0 as u64);
                assert(out@ =~= start + type_text(*self));
            },
            Self::Enum(id) => {
                push_str(out, "enum@");
                push_decimal(out, id.0 as u64);
                assert(out@ =~= start + type_text(*self));
            },
            Self::Ptr { pointee, mutable } => {
                if *mutable {
                    push_str(out, "*");
                } else {
                    push_str(out, "*const ");
                }
                pointee.render_into(out);
                assert(out@ =~= start + type_text(*self));
            },
            Self::Slice { element, mutable } => {
                if *mutable {
                    push_str(out, "[]");
                } else {
                    push_str(out, "[]const ");
                }
                element.render_into(out);
                assert(out@ =~= start + type_text(*self));
            },
            _ => {
                let scalar = self.as_scalar();
                match scalar {
                    Some(s) => push_str(out, scalar_name(s)),
                    None => {},
                }
            },
        }
    }
}

impl Clone for Type {
    fn clone(&self) -> (r: Self)
        ensures
            r == *self,
    {
        self.duplicate()
    }
}

#[derive(Clone, Copy, Debug, PartialEq, Eq, PartialOrd, Ord, Hash, Structural)]
pub struct FunctionId(pub usize);

#[derive(Clone, Copy, Debug, PartialEq, Eq, Structural)]
pub struct LocalId(pub usize);

#[derive(Clone, Copy, Debug, PartialEq, Eq, Structural)]
pub struct BlockId(pub usize);

/// A source position (1-based line and column); `file` indexes `Program::sources`.
#[derive(Clone, Copy, Debug, Default, PartialEq, Eq, Structural)]
pub struct Location {
    pub file: u32,
    pub line: u32,
    pub column: u32,
}

#[derive(Debug)]
pub struct Program {
    pub functions: Vec<Function>,
    /// Executable entry point; `None` for a library build.
    pub main: Option<FunctionId>,
    pub types: Vec<TypeDef>,
    /// Source paths, indexed by source id.
    pub sources: Vec<std::path::PathBuf>,
}

#[derive(Debug)]
pub struct Function {
    pub id: FunctionId,
    pub name: String,
    pub parameters: Vec<LocalId>,
    pub return_type: Type,
    pub locals: Vec<Type>,
    pub blocks: Vec<BasicBlock>,
    pub entry: BlockId,
    /// The original link name of an `extern "C"` function.
    pub external_link_name: Option<String>,
    /// Source id of the declaration.
    pub source: u32,
    /// Start of the declaration.
    pub location: Location,
}

#[derive(Debug)]
pub struct BasicBlock {
    pub instructions: Vec<Instruction>,
    pub terminator: Terminator,
    /// Start of the block.
    pub location: Location,
    /// One location per instruction.
    pub locations: Vec<Location>,
    /// Location of the terminator.
    pub terminator_location: Location,
}

#[derive(Debug)]
pub enum Instruction {
    SetLocal { local: LocalId, value: Expr },
    SetFieldAt { place: Box<Place>, field: usize, value: Expr },
    SetIndexAt { place: Box<Place>, value: Expr },
    Evaluate(Expr),
    Print(Vec<PrintPart>),
}

#[derive(Debug)]
pub enum PrintPart {
    Text(String),
    Value(Expr),
}

#[derive(Debug)]
pub enum Terminator {
    Jump(BlockId),
    Branch { condition: Expr, then_block: BlockId, else_block: BlockId },
    Return(Option<Expr>),
}

/// Prefix operators of the source language.
#[derive(Clone, Copy, Debug, PartialEq, Eq, Structural)]
pub enum UnaryOperator {
    Negate,
    Not,
}

/// Infix operators of the source language.
#[derive(Clone, Copy, Debug, PartialEq, Eq, Structural)]
pub enum BinaryOperator {
    Add,
    Subtract,
    Multiply,
    Divide,
    Remainder,
    Equal,
    NotEqual,
    Less,
    LessEqual,
    Greater,
    GreaterEqual,
    And,
    Or,
}

#[derive(Debug)]
pub struct Expr {
    pub kind: ExprKind,
    pub ty: Type,
}

#[derive(Debug)]
pub enum ExprKind {
    Integer(u64),
    /// A floating-point literal, held as its IEEE-754 bit pattern.
    Float(u64),
    Char(char),
    Bool(bool),
    String(String),
    StringLength(Box<Expr>),
    Array(Vec<Expr>),
    RepeatArray { value: Box<Expr>, length: usize },
    Index { array: Box<Expr>, index: Box<Expr> },
    Local(LocalId),
    Call { function: FunctionId, arguments: Vec<Expr> },
    Unary { operator: UnaryOperator, operand: Box<Expr> },
    Binary { operator: BinaryOperator, left: Box<Expr>, right: Box<Expr> },
    Cast { value: Box<Expr>, to: Type },
    StructInit { fields: Vec<Expr> },
    EnumInit { variant: usize, arguments: Vec<Expr> },
    Field { base: Box<Expr>, field: usize },
    AddressOf { place: Box<Place> },
    Deref { pointer: Box<Expr> },
    Null,
    SlicePtr { base: Box<Expr> },
    SliceLen { base: Box<Expr> },
    SliceRange { base: Box<Expr>, start: Box<Expr>, end: Box<Expr> },
    /// `mem.alloc<T>(count)`.
    MemAlloc { element: Type, count: Box<Expr> },
    /// `mem.free<T>(buffer)`.
    MemFree { element: Type, buffer: Box<Expr> },
    /// `mem.create<T>(value)`.
    MemCreate { element: Type, value: Box<Expr> },
    /// `mem.destroy<T>(ptr)`.
    MemDestroy { element: Type, pointer: Box<Expr> },
    /// `mem.copy<T>(dst, src)`.
    MemCopy { element: Type, dst: Box<Expr>, src: Box<Expr> },
    /// `mem.is_valid_utf8(bytes)`.
    MemIsValidUtf8 { bytes: Box<Expr> },
    /// `mem.view<T>` / `mem.view_const<T>`.
    MemView { pointer: Box<Expr>, len: Box<Expr> },
    /// `mem.cast_ptr<T>` / `mem.cast_const_ptr<T>`.
    MemCast { pointer: Box<Expr> },
    /// `s.bytes()`.
    StringBytes { base: Box<Expr> },
    /// `string.from_bytes(bytes)`.
    StringFromBytes { bytes: Box<Expr> },
    Match { value: Box<Expr>, arms: Vec<MatchArm> },
    /// Whether an enum value is the given variant (tag only).
    EnumIsVariant { value: Box<Expr>, variant: usize },
    /// The `field`-th payload of the given variant.
    EnumPayload { value: Box<Expr>, variant: usize, field: usize },
}

/// An addressable location: the target of `&place` and of field/index writes.
#[derive(Debug)]
pub struct Place {
    pub kind: PlaceKind,
    pub ty: Type,
    /// Whether the location may be written through.
    pub mutable: bool,
}

#[derive(Debug)]
pub enum PlaceKind {
    Local(LocalId),
    Field { base: Box<Place>, field: usize },
    Index { base: Box<Place>, index: Box<Expr> },
    Deref { pointer: Box<Expr> },
}

#[derive(Debug)]
pub struct MatchArm {
    pub pattern: MatchPattern,
    pub body: Expr,
}

#[derive(Clone, Debug)]
pub enum MatchPattern {
    Variant { variant: usize, bindings: Vec<LocalId> },
    Wildcard,
}

impl Expr {
    /// An `i32` literal; the value is stored as its 32-bit pattern.
    pub fn i32(value: i32) -> (e: Expr)
        ensures
            e.ty == Type::I32,
            e.kind == ExprKind::Integer((value as u32) as u64),
    {
        Expr { kind: ExprKind::Integer(value as u32 as u64), ty: Type::I32 }
    }
}


/// Each scalar type is written as its own name in messages: `i8`, `i16`,
/// `i32`, `i64`, `u8`, `u16`, `u32`, `u64`, `usize`, `isize`, `f32`, `f64`,
/// `char`, `bool`, `string`.
pub proof fn scalar_types_print_their_names()
    ensures
        type_text(Type::I8) == "i8"@,
        type_text(Type::I16) == "i16"@,
        type_text(Type::I32) == "i32"@,
        type_text(Type::I64) == "i64"@,
        type_text(Type::U8) == "u8"@,
        type_text(Type::U16) == "u16"@,
        type_text(Type::U32) == "u32"@,
        type_text(Type::U64) == "u64"@,
        type_text(Type::Usize) == "usize"@,
        type_text(Type::Isize) == "isize"@,
        type_text(Type::F32) == "f32"@,
        type_text(Type::F64) == "f64"@,
        type_text(Type::Char) == "char"@,
        type_text(Type::Bool) == "bool"@,
        type_text(Type::String) == "string"@,
        type_text(Type::Unit) == "Unit"@,
        type_text(Type::Null) == "null"@,
{
}

} // verus!
