//! The parts of lowering that work on plain values: zero values for
//! unreachable blocks, `print` format strings, and type predicates.
use vstd::prelude::*;

use crate::ir::{
    is_float_type, is_integer_type, scalar_as_type, Expr, ExprKind, StructField, Type, TypeDef,
};
use crate::layout::{acyclic, in_range, lemma_field_below, lemma_variant_field_below, measure};
use crate::text::{chars_of, last_index, push_char, rfind_char, string_of};

verus! {

/// `t` has a zero value in the table: it is not `Unit`, every struct or enum
/// it names is a definition of that kind, and so on for their fields (for an
/// enum, the fields of its first variant).
pub open spec fn has_default(t: Type, types: Seq<TypeDef>) -> bool
    decreases measure(t, types), 0nat,
{
    match t {
        Type::Unit => false,
        Type::Struct(id) => {
            &&& id.0 < types.len()
            &&& types[id.0 as int] is Struct
            &&& forall|j: int|
                0 <= j < types[id.0 as int]->Struct_fields@.len() ==> {
                    let f = (#[trigger] types[id.0 as int]->Struct_fields@[j]).ty;
                    measure(f, types) < measure(t, types) && has_default(f, types)
                }
        },
        Type::Enum(id) => {
            &&& id.0 < types.len()
            &&& types[id.0 as int] is Enum
            &&& types[id.0 as int]->variants@.len() > 0 ==> forall|j: int|
                0 <= j < types[id.0 as int]->variants@[0].fields@.len() ==> {
                    let f = #[trigger] types[id.0 as int]->variants@[0].fields@[j];
                    measure(f, types) < measure(t, types) && has_default(f, types)
                }
        },
        _ => true,
    }
}

/// `e` is the zero value of `t`: `0` for numbers, `'\0'`, `false`, the
/// empty string, an array repeating the element's zero value, a struct of
/// its fields' zero values, the first variant of an enum with zero payloads,
/// an empty allocation for a slice, and `null` for a pointer.
pub open spec fn is_default(e: Expr, t: Type, types: Seq<TypeDef>) -> bool
    decreases e,
{
    &&& e.ty == t
    &&& if is_integer_type(t) {
        e.kind == ExprKind::Integer(0)
    } else if is_float_type(t) {
        e.kind == ExprKind::Float(0)
    } else {
        match t {
            Type::Char => e.kind == ExprKind::Char('\0'),
            Type::Bool => e.kind == ExprKind::Bool(false),
            Type::String => e.kind matches ExprKind::String(s) && s@.len() == 0,
            Type::Array { element, length } => match e.kind {
                ExprKind::RepeatArray { value, length: l } => l == length && is_default(
                    *value,
                    scalar_as_type(element),
                    types,
                ),
                _ => false,
            },
            Type::Struct(id) => match e.kind {
                ExprKind::StructInit { fields } => {
                    &&& fields@.len() == types[id.0 as int]->Struct_fields@.len()
                    &&& forall|j: int|
                        0 <= j < fields@.len() ==> is_default(
                            #[trigger] fields@[j],
                            types[id.0 as int]->Struct_fields@[j].ty,
                            types,
                        )
                },
                _ => false,
            },
            Type::Enum(id) => match e.kind {
                ExprKind::EnumInit { variant, arguments } => {
                    &&& variant == 0
                    &&& if types[id.0 as int]->variants@.len() == 0 {
                        arguments@.len() == 0
                    } else {
                        &&& arguments@.len() == types[id.0 as int]->variants@[0].fields@.len()
                        &&& forall|j: int|
                            0 <= j < arguments@.len() ==> is_default(
                                #[trigger] arguments@[j],
                                types[id.0 as int]->variants@[0].fields@[j],
                                types,
                            )
                    }
                },
                _ => false,
            },
            Type::Slice { element, .. } => match e.kind {
                ExprKind::MemAlloc { element: el, count } => el == *element && count.ty
                    == Type::I32 && count.kind == ExprKind::Integer(0),
                _ => false,
            },
            Type::Ptr { .. } => e.kind == ExprKind::Null,
            Type::Null => e.kind == ExprKind::Null,
            _ => false,
        }
    }
}

/// A zero value of `ty`, for the value of a block that never runs: it must
/// still have the component shape that code generation expects.
pub fn default_expr(ty: Type, types: &[TypeDef]) -> (r: Expr)
    requires
        acyclic(types@),
        in_range(ty, types@),
        has_default(ty, types@),
    ensures
        is_default(r, ty, types@),
    decreases measure(ty, types@),
{
    if ty.is_integer() {
        return Expr { kind: ExprKind::Integer(0), ty };
    }
    if ty.is_float() {
        return Expr { kind: ExprKind::Float(0), ty };
    }
    match ty {
        Type::Char => Expr { kind: ExprKind::Char('\0'), ty },
        Type::Bool => Expr { kind: ExprKind::Bool(false), ty },
        Type::String => Expr { kind: ExprKind::String(String::new()), ty },
        Type::Array { element, length } => {
            let value = default_expr(element.as_type(), types);
            Expr {
                kind: ExprKind::RepeatArray { value: Box::new(value), length },
                ty: Type::Array { element, length },
            }
        },
        Type::Struct(id) => {
            let fields: &Vec<StructField> = match &types[id.0] {
                TypeDef::Struct { fields, .. } => fields,
                TypeDef::Enum { .. } => {
                    assert(false);
                    return Expr { kind: ExprKind::Null, ty: Type::Null };
                },
            };
            let mut values: Vec<Expr> = Vec::new();
            let mut j: usize = 0;
            while j < fields.len()
                invariant
                    acyclic(types@),
                    has_default(Type::Struct(id), types@),
                    ty == Type::Struct(id),
                    id.0 < types@.len(),
                    types@[id.0 as int] is Struct,
                    fields@ == types@[id.0 as int]->Struct_fields@,
                    j <= fields.len(),
                    values@.len() == j,
                    forall|k: int|
                        0 <= k < j ==> is_default(#[trigger] values@[k], fields@[k].ty, types@),
                decreases fields.len() - j,
            {
                proof {
                    lemma_field_below(types@, id.0, j as int);
                }
                let value = default_expr(fields[j].ty.clone(), types);
                values.push(value);
                j = j + 1;
            }
            Expr { kind: ExprKind::StructInit { fields: values }, ty: Type::Struct(id) }
        },
        Type::Enum(id) => {
            let payload: &Vec<Type> = match &types[id.0] {
                TypeDef::Enum { variants } => {
                    if variants.len() == 0 {
                        return Expr {
                            kind: ExprKind::EnumInit { variant: 0, arguments: Vec::new() },
                            ty: Type::Enum(id),
                        };
                    }
                    &variants[0].fields
                },
                TypeDef::Struct { .. } => {
                    assert(false);
                    return Expr { kind: ExprKind::Null, ty: Type::Null };
                },
            };
            let mut arguments: Vec<Expr> = Vec::new();
            let mut j: usize = 0;
            while j < payload.len()
                invariant
                    acyclic(types@),
                    has_default(Type::Enum(id), types@),
                    ty == Type::Enum(id),
                    id.0 < types@.len(),
                    types@[id.0 as int] is Enum,
                    types@[id.0 as int]->variants@.len() > 0,
                    payload@ == types@[id.0 as int]->variants@[0].fields@,
                    j <= payload.len(),
                    arguments@.len() == j,
                    forall|k: int|
                        0 <= k < j ==> is_default(#[trigger] arguments@[k], payload@[k], types@),
                decreases payload.len() - j,
            {
                proof {
                    lemma_variant_field_below(types@, id.0, 0, j as int);
                }
                let value = default_expr(payload[j].clone(), types);
                arguments.push(value);
                j = j + 1;
            }
            Expr { kind: ExprKind::EnumInit { variant: 0, arguments }, ty: Type::Enum(id) }
        },
        Type::Slice { element, mutable } => {
            let count = Expr::i32(0);
            Expr {
                kind: ExprKind::MemAlloc { element: (*element).clone(), count: Box::new(count) },
                ty: Type::Slice { element, mutable },
            }
        },
        Type::Ptr { pointee, mutable } => Expr { kind: ExprKind::Null, ty: Type::Ptr { pointee, mutable } },
        Type::Null => Expr { kind: ExprKind::Null, ty: Type::Null },
        _ => {
            assert(false);
            Expr { kind: ExprKind::Null, ty: Type::Null }
        },
    }
}

/// What a definition recorded for editor tooling is.
#[derive(Clone, Copy, Debug, PartialEq, Eq, PartialOrd, Ord, Hash, Structural)]
pub enum DefinitionKind {
    Function,
    Struct,
    Enum,
    Trait,
    Method,
    Field,
    Variant,
    TypeParam,
}

/// A piece of a `print` format string: literal text or a `{}` placeholder.
#[derive(Debug, PartialEq, Eq)]
pub enum FormatPart {
    Text(String),
    Placeholder,
}

impl View for FormatPart {
    /// The text of a text piece; `None` for a placeholder.
    type V = Option<Seq<char>>;

    open spec fn view(&self) -> Option<Seq<char>> {
        match self {
            FormatPart::Text(t) => Some(t@),
            FormatPart::Placeholder => None,
        }
    }
}

/// The pieces of the format text `rest`, with `text` already read into the
/// current text piece; `None` on an unmatched brace. `{{` and `}}` stand for
/// a literal brace, `{}` for a placeholder; every placeholder sits between
/// two text pieces, which may be empty.
pub open spec fn format_parts_from(rest: Seq<char>, text: Seq<char>) -> Option<Seq<Option<Seq<char>>>>
    decreases rest.len(),
{
    if rest.len() == 0 {
        Some(seq![Some(text)])
    } else if rest.len() >= 2 && rest[0] == '{' && rest[1] == '{' {
        format_parts_from(rest.subrange(2, rest.len() as int), text.push('{'))
    } else if rest.len() >= 2 && rest[0] == '}' && rest[1] == '}' {
        format_parts_from(rest.subrange(2, rest.len() as int), text.push('}'))
    } else if rest.len() >= 2 && rest[0] == '{' && rest[1] == '}' {
        match format_parts_from(rest.subrange(2, rest.len() as int), Seq::empty()) {
            Some(after) => Some(seq![Some(text), None] + after),
            None => None,
        }
    } else if rest[0] == '{' || rest[0] == '}' {
        None
    } else {
        format_parts_from(rest.drop_first(), text.push(rest[0]))
    }
}

/// The pieces of a whole format string.
pub open spec fn format_parts(s: Seq<char>) -> Option<Seq<Option<Seq<char>>>> {
    format_parts_from(s, Seq::empty())
}

/// `done` followed by the pieces of the rest, if the rest parses.
pub open spec fn then_parts(
    done: Seq<Option<Seq<char>>>,
    rest: Option<Seq<Option<Seq<char>>>>,
) -> Option<Seq<Option<Seq<char>>>> {
    match rest {
        Some(after) => Some(done + after),
        None => None,
    }
}

/// The pieces alternate: text, placeholder, text, ..., text. So a format
/// string with `n` placeholders has `n + 1` text pieces around them.
pub open spec fn alternates(parts: Seq<Option<Seq<char>>>) -> bool {
    &&& parts.len() % 2 == 1
    &&& forall|i: int| 0 <= i < parts.len() ==> ((#[trigger] parts[i]) is Some <==> i % 2 == 0)
}

/// Every parsed format string alternates text and placeholders, starting and
/// ending with text.
pub proof fn format_parts_alternate(rest: Seq<char>, text: Seq<char>)
    ensures
        format_parts_from(rest, text) matches Some(parts) ==> alternates(parts),
    decreases rest.len(),
{
    if rest.len() == 0 {
    } else if rest.len() >= 2 && rest[0] == '{' && rest[1] == '{' {
        format_parts_alternate(rest.subrange(2, rest.len() as int), text.push('{'));
    } else if rest.len() >= 2 && rest[0] == '}' && rest[1] == '}' {
        format_parts_alternate(rest.subrange(2, rest.len() as int), text.push('}'));
    } else if rest.len() >= 2 && rest[0] == '{' && rest[1] == '}' {
        format_parts_alternate(rest.subrange(2, rest.len() as int), Seq::empty());
        match format_parts_from(rest.subrange(2, rest.len() as int), Seq::empty()) {
            Some(after) => {
                let parts = seq![Some(text), None] + after;
                assert forall|i: int| 0 <= i < parts.len() implies ((#[trigger] parts[i]) is Some
                    <==> i % 2 == 0) by {
                    if i >= 2 {
                        assert(parts[i] == after[i - 2]);
                    }
                }
            },
            None => {},
        }
    } else if rest[0] == '{' || rest[0] == '}' {
    } else {
        format_parts_alternate(rest.drop_first(), text.push(rest[0]));
    }
}

/// The pieces' views.
pub open spec fn parts_view(parts: Seq<FormatPart>) -> Seq<Option<Seq<char>>> {
    parts.map_values(|p: FormatPart| p@)
}

/// Splits a `print` format string into text pieces and `{}` placeholders.
pub fn parse_format(format: &str) -> (r: Result<Vec<FormatPart>, String>)
    ensures
        r is Err <==> format_parts(format@) is None,
        r matches Ok(parts) ==> format_parts(format@) == Some(parts_view(parts@)),
        r matches Err(m) ==> m@ == "unmatched brace in format string"@,
{
    let chars = chars_of(format);
    let n = chars.len();
    let mut parts: Vec<FormatPart> = Vec::new();
    let mut text = String::new();
    let mut i: usize = 0;
    assert(chars@.subrange(0, n as int) =~= chars@);
    while i < n
        invariant
            n == chars@.len(),
            chars@ == format@,
            i <= n,
            format_parts(format@) == then_parts(
                parts_view(parts@),
                format_parts_from(chars@.subrange(i as int, n as int), text@),
            ),
        decreases n - i,
    {
        let rest = Ghost(chars@.subrange(i as int, n as int));
        let c = chars[i];
        let has_next = i + 1 < n;
        let next = if has_next { chars[i + 1] } else { ' ' };
        if has_next && ((c == '{' && next == '{') || (c == '}' && next == '}')) {
            assert(rest@.subrange(2, rest@.len() as int) =~= chars@.subrange(i + 2, n as int));
            push_char(&mut text, c);
            i = i + 2;
        } else if has_next && c == '{' && next == '}' {
            assert(rest@.subrange(2, rest@.len() as int) =~= chars@.subrange(i + 2, n as int));
            let ghost before = parts_view(parts@);
            let ghost piece = text@;
            let mut done = String::new();
            std::mem::swap(&mut done, &mut text);
            parts.push(FormatPart::Text(done));
            parts.push(FormatPart::Placeholder);
            proof {
                assert(parts_view(parts@) =~= before + seq![Some(piece), None]);
                match format_parts_from(chars@.subrange(i + 2, n as int), Seq::empty()) {
                    Some(after) => {
                        assert(before + (seq![Some(piece), None] + after) =~= (before + seq![
                            Some(piece),
                            None,
                        ]) + after);
                    },
                    None => {},
                }
            }
            i = i + 2;
        } else if c == '{' || c == '}' {
            return Err(String::from_str("unmatched brace in format string"));
        } else {
            assert(rest@.drop_first() =~= chars@.subrange(i + 1, n as int));
            push_char(&mut text, c);
            i = i + 1;
        }
    }
    let ghost before = parts_view(parts@);
    let ghost piece = text@;
    parts.push(FormatPart::Text(text));
    assert(parts_view(parts@) =~= before + seq![Some(piece)]);
    Ok(parts)
}

/// Whether `as` may convert values of type `ty`: numbers and `char`.
pub fn is_castable(ty: &Type) -> (r: bool)
    ensures
        r == (is_integer_type(*ty) || is_float_type(*ty) || *ty is Char),
{
    ty.is_integer() || ty.is_float() || matches!(ty, Type::Char)
}

/// Whether `==` and `!=` apply to values of type `ty`: scalars, strings (by
/// content) and raw pointers (by address). Aggregates are compared by
/// component, which the backend does not do.
pub fn is_equality_comparable(ty: &Type) -> (r: bool)
    ensures
        r == (is_integer_type(*ty) || is_float_type(*ty) || *ty is Bool || *ty is Char || *ty is String
            || *ty is Ptr || *ty is Null),
{
    ty.is_integer() || ty.is_float() || matches!(
        ty,
        Type::Bool | Type::Char | Type::String | Type::Ptr { .. } | Type::Null
    )
}

/// Whether a `print` placeholder accepts values of type `ty`: scalars and
/// strings.
pub fn is_printable(ty: &Type) -> (r: bool)
    ensures
        r == (is_integer_type(*ty) || is_float_type(*ty) || *ty is Bool || *ty is Char
            || *ty is String),
{
    ty.is_integer() || ty.is_float() || matches!(ty, Type::Bool | Type::Char | Type::String)
}

/// The variant a call `callee(...)` constructs when an enum named
/// `enum_name` is expected: `Variant(...)` always names one, and
/// `Prefix.Variant(...)` only when the prefix is the enum's qualified name.
pub open spec fn call_variant(callee: Seq<char>, enum_name: Seq<char>) -> Option<Seq<char>> {
    match last_index(callee, '.') {
        Some(dot) => if callee.subrange(0, dot) == enum_name {
            Some(callee.subrange(dot + 1, callee.len() as int))
        } else {
            None
        },
        None => Some(callee),
    }
}

/// See `call_variant`.
pub fn call_variant_for_enum(callee: &str, enum_name: &str) -> (r: Option<String>)
    ensures
        r is Some <==> call_variant(callee@, enum_name@) is Some,
        r matches Some(v) ==> call_variant(callee@, enum_name@) == Some(v@),
{
    let chars = chars_of(callee);
    proof {
        crate::text::lemma_last_index(chars@, '.');
    }
    match rfind_char(&chars, '.') {
        Some(dot) => {
            let prefix = string_of(&chars, 0, dot);
            if crate::text::str_eq(prefix.as_str(), enum_name) {
                Some(string_of(&chars, dot + 1, chars.len()))
            } else {
                None
            }
        },
        None => Some(string_of(&chars, 0, chars.len())),
    }
}

// ---------------------------------------------------------------------------
// Integer literals.
// ---------------------------------------------------------------------------

pub open spec fn is_digit(c: char) -> bool {
    '0' <= c && c <= '9'
}

pub open spec fn all_digits(d: Seq<char>) -> bool {
    forall|i: int| 0 <= i < d.len() ==> is_digit(#[trigger] d[i])
}

/// The value of a string of decimal digits.
pub open spec fn digits_value(d: Seq<char>) -> nat
    decreases d.len(),
{
    if d.len() == 0 {
        0
    } else {
        digits_value(d.drop_last()) * 10 + ((d.last() as u32) - 48) as nat
    }
}

/// The decimal digits of `s` after an optional sign from `signs`.
pub open spec fn unsigned_part(s: Seq<char>, minus_allowed: bool) -> Seq<char> {
    if s.len() > 0 && (s[0] == '+' || (minus_allowed && s[0] == '-')) {
        s.drop_first()
    } else {
        s
    }
}

/// `str::parse::<u64>`: an optional `+`, at least one digit, nothing else,
/// and a value that fits.
pub open spec fn parsed_u64(s: Seq<char>) -> Option<u64> {
    let d = unsigned_part(s, false);
    if d.len() > 0 && all_digits(d) && digits_value(d) <= u64::MAX {
        Some(digits_value(d) as u64)
    } else {
        None
    }
}

/// `str::parse::<i64>`: an optional `+` or `-`, at least one digit, nothing
/// else, and a value that fits.
pub open spec fn parsed_i64(s: Seq<char>) -> Option<i64> {
    let d = unsigned_part(s, true);
    let negative = s.len() > 0 && s[0] == '-';
    if d.len() > 0 && all_digits(d) {
        if negative && digits_value(d) <= 0x8000_0000_0000_0000 {
            Some((0 - digits_value(d)) as i64)
        } else if !negative && digits_value(d) <= i64::MAX {
            Some(digits_value(d) as i64)
        } else {
            None
        }
    } else {
        None
    }
}

proof fn lemma_prefix_value(d: Seq<char>, k: int)
    requires
        0 <= k <= d.len(),
    ensures
        digits_value(d.take(k)) <= digits_value(d),
    decreases d.len(),
{
    if k < d.len() {
        assert(d.drop_last().take(k) =~= d.take(k));
        lemma_prefix_value(d.drop_last(), k);
    } else {
        assert(d.take(k) =~= d);
    }
}

/// The digits of `d` and their value, if all are digits and the value is at
/// most `limit`.
fn digits_at_most(d: &Vec<char>, from: usize, limit: u64) -> (r: Option<u64>)
    requires
        from <= d.len(),
    ensures
        ({
            let rest = d@.subrange(from as int, d@.len() as int);
            match r {
                Some(v) => rest.len() > 0 && all_digits(rest) && v == digits_value(rest) && v <= limit,
                None => !(rest.len() > 0 && all_digits(rest) && digits_value(rest) <= limit),
            }
        }),
{
    let ghost rest = d@.subrange(from as int, d@.len() as int);
    if from == d.len() {
        return None;
    }
    let mut value: u128 = 0;
    let mut i: usize = from;
    while i < d.len()
        invariant
            from <= i <= d.len(),
            rest == d@.subrange(from as int, d@.len() as int),
            all_digits(rest.take(i - from)),
            value == digits_value(rest.take(i - from)),
            value <= limit,
        decreases d.len() - i,
    {
        let c = d[i];
        let taken = Ghost(rest.take(i + 1 - from));
        assert(taken@.drop_last() =~= rest.take(i - from));
        assert(taken@.last() == c);
        if !('0' <= c && c <= '9') {
            assert(!is_digit(rest[i - from]));
            return None;
        }
        let digit = (c as u32 - 48) as u128;
        value = value * 10 + digit;
        assert(all_digits(taken@)) by {
            assert forall|k: int| 0 <= k < taken@.len() implies is_digit(#[trigger] taken@[k]) by {
                if k < taken@.len() - 1 {
                    assert(taken@[k] == rest.take(i - from)[k]);
                }
            }
        }
        if value > limit as u128 {
            proof {
                lemma_prefix_value(rest, i + 1 - from);
            }
            return None;
        }
        i = i + 1;
    }
    assert(rest.take(i - from) =~= rest);
    Some(value as u64)
}

/// `str::parse::<u64>`.
pub fn parse_u64(s: &str) -> (r: Option<u64>)
    ensures
        r == parsed_u64(s@),
{
    let chars = chars_of(s);
    let from: usize = if chars.len() > 0 && chars[0] == '+' { 1 } else { 0 };
    assert(chars@.subrange(from as int, chars@.len() as int) =~= unsigned_part(s@, false));
    digits_at_most(&chars, from, u64::MAX)
}

/// `str::parse::<i64>`.
pub fn parse_i64(s: &str) -> (r: Option<i64>)
    ensures
        r == parsed_i64(s@),
{
    let chars = chars_of(s);
    let negative = chars.len() > 0 && chars[0] == '-';
    let from: usize = if chars.len() > 0 && (chars[0] == '+' || chars[0] == '-') { 1 } else { 0 };
    assert(chars@.subrange(from as int, chars@.len() as int) =~= unsigned_part(s@, true));
    if negative {
        match digits_at_most(&chars, from, 0x8000_0000_0000_0000) {
            Some(v) => {
                if v == 0x8000_0000_0000_0000 {
                    Some(i64::MIN)
                } else {
                    Some(0 - (v as i64))
                }
            },
            None => None,
        }
    } else {
        match digits_at_most(&chars, from, 0x7fff_ffff_ffff_ffff) {
            Some(v) => Some(v as i64),
            None => None,
        }
    }
}

/// The integer type a literal suffix names; no suffix is `i32`.
pub open spec fn integer_suffix_type(suffix: Seq<char>) -> Option<Type> {
    if suffix == ""@ || suffix == "i32"@ {
        Some(Type::I32)
    } else if suffix == "i8"@ {
        Some(Type::I8)
    } else if suffix == "i16"@ {
        Some(Type::I16)
    } else if suffix == "i64"@ {
        Some(Type::I64)
    } else if suffix == "u8"@ {
        Some(Type::U8)
    } else if suffix == "u16"@ {
        Some(Type::U16)
    } else if suffix == "u32"@ {
        Some(Type::U32)
    } else if suffix == "u64"@ {
        Some(Type::U64)
    } else if suffix == "usize"@ {
        Some(Type::Usize)
    } else if suffix == "isize"@ {
        Some(Type::Isize)
    } else {
        None
    }
}

/// The largest value of an integer type.
pub open spec fn integer_max(t: Type) -> nat {
    match t {
        Type::I8 => 0x7f,
        Type::I16 => 0x7fff,
        Type::I32 => 0x7fff_ffff,
        Type::I64 | Type::Isize => 0x7fff_ffff_ffff_ffff,
        Type::U8 => 0xff,
        Type::U16 => 0xffff,
        Type::U32 => 0xffff_ffff,
        _ => 0xffff_ffff_ffff_ffff,
    }
}

/// The literal's bits: the magnitude, or its two's complement when negated.
pub open spec fn literal_bits(magnitude: u64, negative: bool) -> u64 {
    if negative && magnitude > 0 {
        (0x1_0000_0000_0000_0000 - magnitude) as u64
    } else {
        magnitude
    }
}

/// Lowers an integer literal: `digits` with an optional type `suffix`,
/// negated when `negative`. Floating-point literals are not handled here.
pub fn lower_integer_literal(digits: &str, suffix: &str, negative: bool) -> (r: Result<Expr, String>)
    ensures
        match integer_suffix_type(suffix@) {
            None => r matches Err(m) && m@ == "invalid numeric suffix `"@ + suffix@ + "`"@,
            Some(t) => if negative && !crate::ir::is_signed_type(t) {
                r matches Err(m) && m@ == "cannot negate `"@ + crate::ir::type_text(t) + "` literal"@
            } else {
                match parsed_u64(digits@) {
                    None => r matches Err(m) && m@ == "integer literal is too large"@,
                    Some(v) => if v > integer_max(t) + (if negative {
                        1nat
                    } else {
                        0nat
                    }) {
                        r matches Err(m) && m@ == "literal does not fit in `"@ + crate::ir::type_text(t)
                            + "`"@
                    } else {
                        r matches Ok(e) && e.ty == t && e.kind == ExprKind::Integer(
                            literal_bits(v, negative),
                        )
                    },
                }
            },
        },
{
    let ty = if crate::text::str_eq(suffix, "") || crate::text::str_eq(suffix, "i32") {
        Type::I32
    } else if crate::text::str_eq(suffix, "i8") {
        Type::I8
    } else if crate::text::str_eq(suffix, "i16") {
        Type::I16
    } else if crate::text::str_eq(suffix, "i64") {
        Type::I64
    } else if crate::text::str_eq(suffix, "u8") {
        Type::U8
    } else if crate::text::str_eq(suffix, "u16") {
        Type::U16
    } else if crate::text::str_eq(suffix, "u32") {
        Type::U32
    } else if crate::text::str_eq(suffix, "u64") {
        Type::U64
    } else if crate::text::str_eq(suffix, "usize") {
        Type::Usize
    } else if crate::text::str_eq(suffix, "isize") {
        Type::Isize
    } else {
        let mut m = String::new();
        crate::text::push_str(&mut m, "invalid numeric suffix `");
        crate::text::push_str(&mut m, suffix);
        crate::text::push_str(&mut m, "`");
        return Err(m);
    };
    if negative && !ty.is_signed_integer() {
        let mut m = String::new();
        crate::text::push_str(&mut m, "cannot negate `");
        let shown = ty.render();
        crate::text::push_str(&mut m, shown.as_str());
        crate::text::push_str(&mut m, "` literal");
        return Err(m);
    }
    let magnitude = match parse_u64(digits) {
        Some(v) => v,
        None => {
            return Err(String::from_str("integer literal is too large"));
        },
    };
    let maximum: u64 = match ty {
        Type::I8 => 0x7f,
        Type::I16 => 0x7fff,
        Type::I32 => 0x7fff_ffff,
        Type::I64 | Type::Isize => 0x7fff_ffff_ffff_ffff,
        Type::U8 => 0xff,
        Type::U16 => 0xffff,
        Type::U32 => 0xffff_ffff,
        _ => 0xffff_ffff_ffff_ffff,
    };
    let allowed: u128 = maximum as u128 + if negative { 1 } else { 0 };
    if magnitude as u128 > allowed {
        let mut m = String::new();
        crate::text::push_str(&mut m, "literal does not fit in `");
        let shown = ty.render();
        crate::text::push_str(&mut m, shown.as_str());
        crate::text::push_str(&mut m, "`");
        return Err(m);
    }
    let value: u64 = if negative && magnitude > 0 {
        (u64::MAX - magnitude) + 1
    } else {
        magnitude
    };
    Ok(Expr { kind: ExprKind::Integer(value), ty })
}

/// An unsuffixed integer literal's value: no `_` suffix, no `.`, `e` or `E`,
/// and an `i64` that parses.
pub open spec fn unsuffixed_integer(value: Seq<char>) -> Option<i64> {
    if crate::text::has_char(value, '_') || crate::text::has_char(value, '.')
        || crate::text::has_char(value, 'e') || crate::text::has_char(value, 'E') {
        None
    } else {
        parsed_i64(value)
    }
}

/// See `unsuffixed_integer`.
pub fn parse_unsuffixed_integer(value: &str) -> (r: Option<i64>)
    ensures
        r == unsuffixed_integer(value@),
{
    let chars = chars_of(value);
    proof {
        crate::text::lemma_first_index(chars@, '_');
        crate::text::lemma_first_index(chars@, '.');
        crate::text::lemma_first_index(chars@, 'e');
        crate::text::lemma_first_index(chars@, 'E');
    }
    if crate::text::find_char(&chars, '_').is_some() || crate::text::find_char(&chars, '.').is_some()
        || crate::text::find_char(&chars, 'e').is_some() || crate::text::find_char(&chars, 'E').is_some() {
        return None;
    }
    parse_i64(value)
}

/// A constant index must lie within the array: negative or past the end is
/// refused. A non-constant index (`None`) is checked at run time.
pub fn check_constant_index(constant: Option<i64>, length: usize) -> (r: Result<(), String>)
    ensures
        r is Err <==> (constant matches Some(v) && (v < 0 || v >= length)),
        r matches Err(m) ==> m@ == "array index is out of bounds for length "@ + crate::text::decimal(
            length as nat,
        ),
{
    match constant {
        Some(v) => {
            if v < 0 || v as u64 >= length as u64 {
                let mut m = String::new();
                crate::text::push_str(&mut m, "array index is out of bounds for length ");
                crate::text::push_decimal(&mut m, length as u64);
                return Err(m);
            }
            Ok(())
        },
        None => Ok(()),
    }
}

/// A numeric literal's digits and its type suffix, split at the last `_`
/// (no `_`: no suffix).
pub open spec fn number_parts(raw: Seq<char>) -> (Seq<char>, Seq<char>) {
    match last_index(raw, '_') {
        Some(i) => (raw.take(i), raw.skip(i + 1)),
        None => (raw, Seq::empty()),
    }
}

/// See `number_parts`.
pub fn split_number(raw: &str) -> (r: (String, String))
    ensures
        r.0@ == number_parts(raw@).0,
        r.1@ == number_parts(raw@).1,
{
    let chars = chars_of(raw);
    proof {
        crate::text::lemma_last_index(chars@, '_');
    }
    match rfind_char(&chars, '_') {
        Some(i) => {
            let digits = string_of(&chars, 0, i);
            let suffix = string_of(&chars, i + 1, chars.len());
            assert(chars@.subrange(0, i as int) =~= raw@.take(i as int));
            assert(chars@.subrange(i + 1, chars@.len() as int) =~= raw@.skip(i + 1));
            (digits, suffix)
        },
        None => {
            let digits = string_of(&chars, 0, chars.len());
            assert(chars@.subrange(0, chars@.len() as int) =~= raw@);
            (digits, String::new())
        },
    }
}

/// A literal is floating-point when its digits hold `.`, `e` or `E`, or its
/// suffix is `f32` or `f64`.
pub open spec fn float_literal(digits: Seq<char>, suffix: Seq<char>) -> bool {
    crate::text::has_char(digits, '.') || crate::text::has_char(digits, 'e') || crate::text::has_char(
        digits,
        'E',
    ) || suffix == "f32"@ || suffix == "f64"@
}

/// See `float_literal`.
pub fn is_float_literal(digits: &str, suffix: &str) -> (r: bool)
    ensures
        r == float_literal(digits@, suffix@),
{
    let chars = chars_of(digits);
    proof {
        crate::text::lemma_first_index(chars@, '.');
        crate::text::lemma_first_index(chars@, 'e');
        crate::text::lemma_first_index(chars@, 'E');
    }
    crate::text::find_char(&chars, '.').is_some() || crate::text::find_char(&chars, 'e').is_some()
        || crate::text::find_char(&chars, 'E').is_some() || crate::text::str_eq(suffix, "f32")
        || crate::text::str_eq(suffix, "f64")
}

/// The type of a floating-point literal from its suffix: `f32`, or `f64`
/// when there is none.
pub fn float_literal_type(suffix: &str) -> (r: Result<Type, String>)
    ensures
        suffix@ == "f32"@ ==> r == Ok::<Type, String>(Type::F32),
        (suffix@ == ""@ || suffix@ == "f64"@) ==> r == Ok::<Type, String>(Type::F64),
        !(suffix@ == "f32"@ || suffix@ == ""@ || suffix@ == "f64"@) ==> (r matches Err(m) && m@
            == "invalid numeric suffix `"@ + suffix@ + "`"@),
{
    proof {
        reveal_strlit("f32");
        reveal_strlit("");
        reveal_strlit("f64");
        assert("f32"@[1] != "f64"@[1]);
        assert("f32"@.len() != ""@.len());
    }
    if crate::text::str_eq(suffix, "f32") {
        Ok(Type::F32)
    } else if crate::text::str_eq(suffix, "") || crate::text::str_eq(suffix, "f64") {
        Ok(Type::F64)
    } else {
        let mut m = String::new();
        crate::text::push_str(&mut m, "invalid numeric suffix `");
        crate::text::push_str(&mut m, suffix);
        crate::text::push_str(&mut m, "`");
        Err(m)
    }
}


/// An integer literal's suffix names its type, `i32` when there is none;
/// each type's largest value is that of its width and signedness.
pub proof fn integer_suffixes_and_ranges()
    ensures
        integer_suffix_type(""@) == Some(Type::I32),
        integer_suffix_type("i8"@) == Some(Type::I8),
        integer_suffix_type("i16"@) == Some(Type::I16),
        integer_suffix_type("i32"@) == Some(Type::I32),
        integer_suffix_type("i64"@) == Some(Type::I64),
        integer_suffix_type("u8"@) == Some(Type::U8),
        integer_suffix_type("u16"@) == Some(Type::U16),
        integer_suffix_type("u32"@) == Some(Type::U32),
        integer_suffix_type("u64"@) == Some(Type::U64),
        integer_suffix_type("usize"@) == Some(Type::Usize),
        integer_suffix_type("isize"@) == Some(Type::Isize),
        integer_max(Type::I8) == 127,
        integer_max(Type::I16) == 32767,
        integer_max(Type::I32) == 2147483647,
        integer_max(Type::I64) == 9223372036854775807,
        integer_max(Type::Isize) == 9223372036854775807,
        integer_max(Type::U8) == 255,
        integer_max(Type::U16) == 65535,
        integer_max(Type::U32) == 4294967295,
        integer_max(Type::U64) == 18446744073709551615,
        integer_max(Type::Usize) == 18446744073709551615,
{
    reveal_strlit("");
    reveal_strlit("i32");
    reveal_strlit("i8");
    reveal_strlit("i16");
    reveal_strlit("i64");
    reveal_strlit("u8");
    reveal_strlit("u16");
    reveal_strlit("u32");
    reveal_strlit("u64");
    reveal_strlit("usize");
    reveal_strlit("isize");
    assert(""@.len() != "i32"@.len());
    assert(""@.len() != "i8"@.len());
    assert(""@.len() != "i16"@.len());
    assert(""@.len() != "i64"@.len());
    assert(""@.len() != "u8"@.len());
    assert(""@.len() != "u16"@.len());
    assert(""@.len() != "u32"@.len());
    assert(""@.len() != "u64"@.len());
    assert(""@.len() != "usize"@.len());
    assert(""@.len() != "isize"@.len());
    assert("i32"@.len() != "i8"@.len());
    assert("i32"@[1] != "i16"@[1]);
    assert("i32"@[1] != "i64"@[1]);
    assert("i32"@.len() != "u8"@.len());
    assert("i32"@[0] != "u16"@[0]);
    assert("i32"@[0] != "u32"@[0]);
    assert("i32"@[0] != "u64"@[0]);
    assert("i32"@.len() != "usize"@.len());
    assert("i32"@.len() != "isize"@.len());
    assert("i8"@.len() != "i16"@.len());
    assert("i8"@.len() != "i64"@.len());
    assert("i8"@[0] != "u8"@[0]);
    assert("i8"@.len() != "u16"@.len());
    assert("i8"@.len() != "u32"@.len());
    assert("i8"@.len() != "u64"@.len());
    assert("i8"@.len() != "usize"@.len());
    assert("i8"@.len() != "isize"@.len());
    assert("i16"@[1] != "i64"@[1]);
    assert("i16"@.len() != "u8"@.len());
    assert("i16"@[0] != "u16"@[0]);
    assert("i16"@[0] != "u32"@[0]);
    assert("i16"@[0] != "u64"@[0]);
    assert("i16"@.len() != "usize"@.len());
    assert("i16"@.len() != "isize"@.len());
    assert("i64"@.len() != "u8"@.len());
    assert("i64"@[0] != "u16"@[0]);
    assert("i64"@[0] != "u32"@[0]);
    assert("i64"@[0] != "u64"@[0]);
    assert("i64"@.len() != "usize"@.len());
    assert("i64"@.len() != "isize"@.len());
    assert("u8"@.len() != "u16"@.len());
    assert("u8"@.len() != "u32"@.len());
    assert("u8"@.len() != "u64"@.len());
    assert("u8"@.len() != "usize"@.len());
    assert("u8"@.len() != "isize"@.len());
    assert("u16"@[1] != "u32"@[1]);
    assert("u16"@[1] != "u64"@[1]);
    assert("u16"@.len() != "usize"@.len());
    assert("u16"@.len() != "isize"@.len());
    assert("u32"@[1] != "u64"@[1]);
    assert("u32"@.len() != "usize"@.len());
    assert("u32"@.len() != "isize"@.len());
    assert("u64"@.len() != "usize"@.len());
    assert("u64"@.len() != "isize"@.len());
    assert("usize"@[0] != "isize"@[0]);
}

} // verus!
