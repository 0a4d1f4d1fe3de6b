//! The one place where type layouts are computed.
//!
//! Struct fields are laid out in declaration order, each padded to its
//! alignment, and the struct is padded to its largest field alignment.
//! Enums keep a 4-byte tag at offset 0 and 8-byte payload components from
//! offset 8; an enum without payload is 4 bytes with alignment 4.
use vstd::prelude::*;

use crate::ir::{scalar_as_type, type_as_scalar, EnumVariant, ScalarType, StructField, Type, TypeDef, TypeId};

verus! {

/// The three supported targets are 64-bit: pointers are 8 bytes.
pub const POINTER_BYTES: u32 = 8;

/// The largest byte size an aggregate may have.
pub const MAX_AGGREGATE_BYTES: u64 = 0x7fff_ffff;

/// Size of an enum tag.
pub const ENUM_TAG_BYTES: u32 = 4;

/// Size of one enum payload component.
pub const ENUM_PAYLOAD_COMPONENT_BYTES: u32 = 8;

/// Size and alignment of a type.
#[derive(Clone, Copy, Debug, PartialEq, Eq, Structural)]
pub struct Layout {
    pub size: u32,
    pub align: u32,
}

/// Byte layout of an enum.
#[derive(Clone, Copy, Debug, PartialEq, Eq, Structural)]
pub struct EnumLayout {
    pub tag_offset: u32,
    pub payload_offset: u32,
    pub payload_components: u32,
    pub size: u64,
    pub align: u32,
}

// ---------------------------------------------------------------------------
// The by-value type graph and its ranks.
// ---------------------------------------------------------------------------

/// The type definition that `t` holds by value, if any.
pub open spec fn by_value_id(t: Type) -> Option<usize> {
    match t {
        Type::Struct(id) => Some(id.0),
        Type::Enum(id) => Some(id.0),
        _ => None,
    }
}

/// `t` holds no definition by value, or one whose rank is below `bound`.
pub open spec fn ref_below(t: Type, n: nat, rank: Seq<nat>, bound: nat) -> bool {
    match by_value_id(t) {
        Some(k) => k < n && rank[k as int] < bound,
        None => true,
    }
}

/// Every type that `def` holds by value is ranked below `bound`.
pub open spec fn def_below(def: TypeDef, n: nat, rank: Seq<nat>, bound: nat) -> bool {
    match def {
        TypeDef::Struct { fields, .. } => forall|j: int|
            0 <= j < fields@.len() ==> ref_below(#[trigger] fields@[j].ty, n, rank, bound),
        TypeDef::Enum { variants } => forall|v: int, j: int|
            0 <= v < variants@.len() && 0 <= j < variants@[v].fields@.len() ==> ref_below(
                #[trigger] variants@[v].fields@[j],
                n,
                rank,
                bound,
            ),
    }
}

/// `rank` orders the definitions so that each holds by value only lower-ranked ones.
pub open spec fn ranked_by(types: Seq<TypeDef>, rank: Seq<nat>) -> bool {
    &&& rank.len() == types.len()
    &&& forall|i: int|
        0 <= i < types.len() ==> def_below(#[trigger] types[i], types.len(), rank, rank[i])
}

/// No definition contains itself by value, directly or through others.
pub open spec fn acyclic(types: Seq<TypeDef>) -> bool {
    exists|rank: Seq<nat>| ranked_by(types, rank)
}

pub open spec fn rank_of(types: Seq<TypeDef>) -> Seq<nat> {
    choose|rank: Seq<nat>| ranked_by(types, rank)
}

/// Well-founded measure used by the layout recursion.
pub open spec fn measure(t: Type, types: Seq<TypeDef>) -> nat {
    match t {
        Type::Struct(id) => rank_of(types)[id.0 as int] + 2,
        Type::Enum(id) => rank_of(types)[id.0 as int] + 2,
        Type::Array { .. } => 1,
        _ => 0,
    }
}

/// `t` names only definitions that exist.
pub open spec fn in_range(t: Type, types: Seq<TypeDef>) -> bool {
    match by_value_id(t) {
        Some(k) => k < types.len(),
        None => true,
    }
}

pub proof fn lemma_rank(types: Seq<TypeDef>)
    requires
        acyclic(types),
    ensures
        ranked_by(types, rank_of(types)),
{
}

/// A struct field of an acyclic table sits strictly below its struct in the measure.
pub proof fn lemma_field_below(types: Seq<TypeDef>, id: usize, j: int)
    requires
        acyclic(types),
        id < types.len(),
        types[id as int] is Struct,
        0 <= j < types[id as int]->Struct_fields@.len(),
    ensures
        measure(types[id as int]->Struct_fields@[j].ty, types) < rank_of(types)[id as int] + 2,
        in_range(types[id as int]->Struct_fields@[j].ty, types),
{
    lemma_rank(types);
    let fields = types[id as int]->Struct_fields;
    assert(def_below(types[id as int], types.len(), rank_of(types), rank_of(types)[id as int]));
    assert(ref_below(fields@[j].ty, types.len(), rank_of(types), rank_of(types)[id as int]));
}

/// An enum payload field of an acyclic table sits strictly below its enum.
pub proof fn lemma_variant_field_below(types: Seq<TypeDef>, id: usize, v: int, j: int)
    requires
        acyclic(types),
        id < types.len(),
        types[id as int] is Enum,
        0 <= v < types[id as int]->variants@.len(),
        0 <= j < types[id as int]->variants@[v].fields@.len(),
    ensures
        measure(types[id as int]->variants@[v].fields@[j], types) < rank_of(types)[id as int] + 2,
        in_range(types[id as int]->variants@[v].fields@[j], types),
{
    lemma_rank(types);
    let variants = types[id as int]->variants;
    assert(def_below(types[id as int], types.len(), rank_of(types), rank_of(types)[id as int]));
    assert(ref_below(variants@[v].fields@[j], types.len(), rank_of(types), rank_of(types)[id as int]));
}

// ---------------------------------------------------------------------------
// Arithmetic.
// ---------------------------------------------------------------------------

/// `value` rounded up to a multiple of `align`.
pub open spec fn round_up(value: int, align: int) -> int {
    ((value + align - 1) / align) * align
}

pub open spec fn min(a: int, b: int) -> int {
    if a <= b {
        a
    } else {
        b
    }
}

pub open spec fn max(a: int, b: int) -> int {
    if a >= b {
        a
    } else {
        b
    }
}

proof fn lemma_round_up(value: int, align: int)
    requires
        value >= 0,
        align > 0,
    ensures
        value <= round_up(value, align) < value + align,
        round_up(value, align) % align == 0,
{
    let q = (value + align - 1) / align;
    let r = (value + align - 1) % align;
    assert(value + align - 1 == q * align + r) by (nonlinear_arith)
        requires
            align > 0,
            q == (value + align - 1) / align,
            r == (value + align - 1) % align,
    ;
    assert(0 <= r < align);
    assert((q * align) % align == 0) by (nonlinear_arith)
        requires
            align > 0,
    ;
}

fn align_up(value: u32, align: u32) -> (r: u32)
    requires
        align > 0,
    ensures
        r == min(round_up(value as int, align as int), u32::MAX as int),
{
    proof {
        lemma_round_up(value as int, align as int);
    }
    let v = value as u64;
    let a = align as u64;
    let q = (v + a - 1) / a;
    assert(q * a == round_up(value as int, align as int));
    let rounded = q * a;
    if rounded > u32::MAX as u64 {
        u32::MAX
    } else {
        rounded as u32
    }
}

proof fn lemma_round_up_by_remainder(value: int, align: int)
    requires
        value >= 0,
        align > 0,
    ensures
        value % align == 0 ==> round_up(value, align) == (value / align) * align,
        value % align != 0 ==> round_up(value, align) == (value / align + 1) * align,
{
    let q = value / align;
    let r = value % align;
    assert(value == q * align + r) by (nonlinear_arith)
        requires
            align > 0,
            q == value / align,
            r == value % align,
    ;
    if r == 0 {
        vstd::arithmetic::div_mod::lemma_fundamental_div_mod_converse(
            value + align - 1,
            align,
            q,
            align - 1,
        );
    } else {
        assert(value + align - 1 == (q + 1) * align + (r - 1)) by (nonlinear_arith)
            requires
                value == q * align + r,
        ;
        vstd::arithmetic::div_mod::lemma_fundamental_div_mod_converse(
            value + align - 1,
            align,
            q + 1,
            r - 1,
        );
    }
}

fn align_up_u64(value: u64, align: u32) -> (r: u64)
    requires
        align > 0,
        round_up(value as int, align as int) <= u64::MAX,
    ensures
        r == round_up(value as int, align as int),
{
    proof {
        lemma_round_up_by_remainder(value as int, align as int);
    }
    let a = align as u64;
    let q = value / a;
    if value % a == 0 {
        assert(q * a == round_up(value as int, align as int));
        q * a
    } else {
        assert((q + 1) * a == round_up(value as int, align as int));
        assert(q + 1 <= (q + 1) * a) by (nonlinear_arith)
            requires a >= 1;
        (q + 1) * a
    }
}

// ---------------------------------------------------------------------------
// Scalars and arrays.
// ---------------------------------------------------------------------------

/// Byte size of a scalar (a `string` view is a pointer and a length).
pub open spec fn scalar_size(s: ScalarType, pointer_bytes: u32) -> int {
    match s {
        ScalarType::I8 | ScalarType::U8 | ScalarType::Bool => 1,
        ScalarType::I16 | ScalarType::U16 => 2,
        ScalarType::I32 | ScalarType::U32 | ScalarType::F32 | ScalarType::Char => 4,
        ScalarType::I64 | ScalarType::U64 | ScalarType::Usize | ScalarType::Isize
        | ScalarType::F64 => 8,
        ScalarType::String => pointer_bytes * 2,
    }
}

/// Alignment of an array with the given element type.
pub open spec fn element_align(s: ScalarType, pointer_bytes: u32) -> int {
    match s {
        ScalarType::String => pointer_bytes as int,
        _ => max(scalar_size(s, pointer_bytes), 1),
    }
}

/// Exact byte size of an array, saturated at `u64::MAX`.
pub open spec fn array_size(element: ScalarType, length: usize, pointer_bytes: u32) -> int {
    if length == 0 {
        0
    } else {
        min(length * scalar_size(element, pointer_bytes), u64::MAX as int)
    }
}

/// Size of a pointer-sized type family: pointer width must leave room for a slice.
pub open spec fn pointer_ok(pointer_bytes: u32) -> bool {
    pointer_bytes <= 0x7fff_ffff
}

fn scalar_bytes(scalar: ScalarType, pointer_bytes: u32) -> (r: u32)
    requires
        pointer_ok(pointer_bytes),
    ensures
        r == scalar_size(scalar, pointer_bytes),
{
    match scalar {
        ScalarType::I8 | ScalarType::U8 | ScalarType::Bool => 1,
        ScalarType::I16 | ScalarType::U16 => 2,
        ScalarType::I32 | ScalarType::U32 | ScalarType::F32 | ScalarType::Char => 4,
        ScalarType::I64 | ScalarType::U64 | ScalarType::Usize | ScalarType::Isize
        | ScalarType::F64 => 8,
        ScalarType::String => pointer_bytes * 2,
    }
}

/// Component stride and tail bytes of an array element.
fn array_stride_tail(element: ScalarType, pointer_bytes: u32) -> (r: (u32, u32))
    requires
        pointer_ok(pointer_bytes),
    ensures
        r.0 == scalar_size(element, pointer_bytes),
        r.1 == scalar_size(element, pointer_bytes),
{
    let bytes = scalar_bytes(element, pointer_bytes);
    (bytes, bytes)
}

/// Exact byte size of an array type, saturated at `u64::MAX`.
pub fn array_byte_size(element: ScalarType, length: usize, pointer_bytes: u32) -> (r: u64)
    requires
        pointer_ok(pointer_bytes),
    ensures
        r == array_size(element, length, pointer_bytes),
{
    if length == 0 {
        return 0;
    }
    let (stride, tail) = array_stride_tail(element, pointer_bytes);
    let n = (length as u64) - 1;
    let st = stride as u64;
    let body: u64 = if st == 0 || n <= u64::MAX / st {
        proof {
            if st > 0 {
                vstd::arithmetic::div_mod::lemma_fundamental_div_mod(u64::MAX as int, st as int);
                assert(n * st <= (u64::MAX / st) * st) by (nonlinear_arith)
                    requires n <= u64::MAX / st, st > 0;
            }
        }
        assert(n * st <= u64::MAX);
        n * st
    } else {
        proof {
            vstd::arithmetic::div_mod::lemma_fundamental_div_mod(u64::MAX as int, st as int);
            assert(n * st >= (u64::MAX / st + 1) * st) by (nonlinear_arith)
                requires n >= u64::MAX / st + 1, st > 0;
            assert((u64::MAX / st + 1) * st > u64::MAX) by (nonlinear_arith)
                requires
                    st > 0,
                    u64::MAX == st * (u64::MAX / st) + u64::MAX % st,
                    u64::MAX % st < st;
        }
        u64::MAX
    };
    assert(body == min(n * stride, u64::MAX as int));
    let total: u64 = if body > u64::MAX - tail as u64 {
        u64::MAX
    } else {
        body + tail as u64
    };
    assert(total == array_size(element, length, pointer_bytes)) by (nonlinear_arith)
        requires
            n == length - 1,
            length >= 1,
            stride == tail,
            stride >= 0,
            body == min(n * stride, u64::MAX as int),
            total == min(body + tail, u64::MAX as int),
            array_size(element, length, pointer_bytes) == min(
                length * scalar_size(element, pointer_bytes),
                u64::MAX as int,
            ),
            stride == scalar_size(element, pointer_bytes),
    ;
    total
}

fn element_alignment(element: ScalarType, pointer_bytes: u32) -> (r: u32)
    requires
        pointer_ok(pointer_bytes),
    ensures
        r == element_align(element, pointer_bytes),
{
    match element {
        ScalarType::String => pointer_bytes,
        other => {
            let b = scalar_bytes(other, pointer_bytes);
            if b >= 1 {
                b
            } else {
                1
            }
        },
    }
}

// ---------------------------------------------------------------------------
// Runtime components.
// ---------------------------------------------------------------------------

/// Runtime components of an array element.
pub open spec fn element_components(s: ScalarType) -> nat {
    if s == ScalarType::String {
        2
    } else {
        1
    }
}

/// Number of runtime components a value of type `t` flattens to.
pub open spec fn components(t: Type, types: Seq<TypeDef>) -> nat
    decreases 3 * measure(t, types) + 2, 1nat,
{
    match t {
        Type::Unit => 0,
        Type::Ptr { .. } => 1,
        Type::Slice { .. } => 2,
        Type::String => 2,
        Type::Array { element, length } => if element_components(element) * length
            <= u32::MAX {
            (element_components(element) * length) as nat
        } else {
            u32::MAX as nat
        },
        Type::Struct(id) => if id.0 < types.len() && types[id.0 as int] is Struct {
            fields_components(types[id.0 as int]->Struct_fields@, types, measure(t, types))
        } else {
            0
        },
        Type::Enum(id) => 1 + payload_components(types, id.0),
        _ => 1,
    }
}

/// Payload components of an enum definition: the largest variant.
pub open spec fn payload_components(types: Seq<TypeDef>, id: usize) -> nat
    decreases 3 * (rank_of(types)[id as int] + 2) + 2, 0nat,
{
    if id < types.len() && types[id as int] is Enum {
        variants_components(types[id as int]->variants@, types, rank_of(types)[id as int] + 2)
    } else {
        0
    }
}

/// Sum of the components of struct fields (fields not below `bound` count nothing).
pub open spec fn fields_components(fields: Seq<StructField>, types: Seq<TypeDef>, bound: nat) -> nat
    decreases 3 * bound, fields.len(),
{
    if fields.len() == 0 {
        0
    } else if measure(fields.last().ty, types) < bound {
        fields_components(fields.drop_last(), types, bound) + components(fields.last().ty, types)
    } else {
        fields_components(fields.drop_last(), types, bound)
    }
}

/// Sum of the components of payload types (types not below `bound` count nothing).
pub open spec fn list_components(ts: Seq<Type>, types: Seq<TypeDef>, bound: nat) -> nat
    decreases 3 * bound, ts.len(),
{
    if ts.len() == 0 {
        0
    } else if measure(ts.last(), types) < bound {
        list_components(ts.drop_last(), types, bound) + components(ts.last(), types)
    } else {
        list_components(ts.drop_last(), types, bound)
    }
}

/// The largest payload among the variants.
pub open spec fn variants_components(
    variants: Seq<EnumVariant>,
    types: Seq<TypeDef>,
    bound: nat,
) -> nat
    decreases 3 * bound + 1, variants.len(),
{
    if variants.len() == 0 {
        0
    } else {
        let rest = variants_components(variants.drop_last(), types, bound);
        let last = list_components(variants.last().fields@, types, bound);
        if rest >= last {
            rest
        } else {
            last
        }
    }
}

proof fn lemma_take_step<A>(s: Seq<A>, i: int)
    requires
        0 <= i < s.len(),
    ensures
        s.take(i + 1).drop_last() == s.take(i),
        s.take(i + 1).last() == s[i],
        s.take(i + 1).len() == i + 1,
{
    assert(s.take(i + 1).drop_last() =~= s.take(i));
}

proof fn lemma_fields_prefix(fields: Seq<StructField>, types: Seq<TypeDef>, bound: nat, i: int)
    requires
        0 <= i <= fields.len(),
    ensures
        fields_components(fields.take(i), types, bound) <= fields_components(fields, types, bound),
    decreases fields.len(),
{
    if i < fields.len() {
        lemma_fields_prefix(fields.drop_last(), types, bound, i);
        assert(fields.drop_last().take(i) =~= fields.take(i));
    } else {
        assert(fields.take(i) =~= fields);
    }
}

proof fn lemma_list_prefix(ts: Seq<Type>, types: Seq<TypeDef>, bound: nat, i: int)
    requires
        0 <= i <= ts.len(),
    ensures
        list_components(ts.take(i), types, bound) <= list_components(ts, types, bound),
    decreases ts.len(),
{
    if i < ts.len() {
        lemma_list_prefix(ts.drop_last(), types, bound, i);
        assert(ts.drop_last().take(i) =~= ts.take(i));
    } else {
        assert(ts.take(i) =~= ts);
    }
}

proof fn lemma_variants_bound(variants: Seq<EnumVariant>, types: Seq<TypeDef>, bound: nat, i: int)
    requires
        0 <= i <= variants.len(),
    ensures
        variants_components(variants.take(i), types, bound) <= variants_components(
            variants,
            types,
            bound,
        ),
        i < variants.len() ==> list_components(variants[i].fields@, types, bound)
            <= variants_components(variants, types, bound),
    decreases variants.len(),
{
    if i < variants.len() {
        lemma_variants_bound(variants.drop_last(), types, bound, i);
        assert(variants.drop_last().take(i) =~= variants.take(i));
        if i < variants.len() - 1 {
            assert(variants.drop_last()[i] == variants[i]);
        }
    } else {
        assert(variants.take(i) =~= variants);
    }
}

/// Number of runtime components a value of `ty` flattens to.
pub fn component_count(ty: &Type, types: &[TypeDef], pointer_bytes: u32) -> (r: u32)
    requires
        acyclic(types@),
        in_range(*ty, types@),
        components(*ty, types@) <= u32::MAX,
    ensures
        r == components(*ty, types@),
    decreases 3 * measure(*ty, types@) + 2, 1nat,
{
    match ty {
        Type::Unit => 0,
        Type::Ptr { .. } => 1,
        Type::Slice { .. } | Type::String => 2,
        Type::Array { element, length } => {
            let scalar = element.as_type();
            let each = component_count(&scalar, types, pointer_bytes);
            assert(each == element_components(*element));
            if *length as u64 > u32::MAX as u64 {
                let len = *length;
                assert(each * len > u32::MAX) by (nonlinear_arith)
                    requires each >= 1, len > u32::MAX;
                u32::MAX
            } else {
                let total = each as u64 * *length as u64;
                if total > u32::MAX as u64 {
                    u32::MAX
                } else {
                    total as u32
                }
            }
        },
        Type::Struct(id) => match &types[id.0] {
            TypeDef::Struct { fields, .. } => {
                let ghost bound = measure(*ty, types@);
                let mut sum: u32 = 0;
                let mut i: usize = 0;
                proof {
                    lemma_rank(types@);
                }
                while i < fields.len()
                    invariant
                        acyclic(types@),
                        id.0 < types@.len(),
                        types@[id.0 as int] == (TypeDef::Struct { fields: *fields, extern_c: types@[id.0 as int]->extern_c }),
                        bound == measure(*ty, types@),
                        bound == rank_of(types@)[id.0 as int] + 2,
                        3 * measure(*ty, types@) + 2 == 3 * bound + 2,
                        i <= fields.len(),
                        sum == fields_components(fields@.take(i as int), types@, bound),
                        fields_components(fields@, types@, bound) <= u32::MAX,
                    decreases fields.len() - i,
                {
                    proof {
                        lemma_field_below(types@, id.0, i as int);
                        lemma_take_step(fields@, i as int);
                        lemma_fields_prefix(fields@, types@, bound, i as int + 1);
                    }
                    let c = component_count(&fields[i].ty, types, pointer_bytes);
                    sum = sum + c;
                    i = i + 1;
                }
                proof {
                    assert(fields@.take(i as int) =~= fields@);
                }
                sum
            },
            _ => 0,
        },
        Type::Enum(id) => 1 + enum_payload_components(types, *id, pointer_bytes),
        _ => 1,
    }
}

/// Payload components of an enum: the largest variant's total.
pub fn enum_payload_components(types: &[TypeDef], id: TypeId, pointer_bytes: u32) -> (r: u32)
    requires
        acyclic(types@),
        id.0 < types@.len(),
        payload_components(types@, id.0) <= u32::MAX,
    ensures
        r == payload_components(types@, id.0),
    decreases 3 * (rank_of(types@)[id.0 as int] + 2) + 2, 0nat,
{
    match &types[id.0] {
        TypeDef::Enum { variants } => {
            let ghost bound: nat = rank_of(types@)[id.0 as int] + 2;
            let mut best: u32 = 0;
            let mut v: usize = 0;
            proof {
                lemma_rank(types@);
            }
            while v < variants.len()
                invariant
                    acyclic(types@),
                    id.0 < types@.len(),
                    types@[id.0 as int] == (TypeDef::Enum { variants: *variants }),
                    bound == rank_of(types@)[id.0 as int] + 2,
                    v <= variants.len(),
                    best == variants_components(variants@.take(v as int), types@, bound),
                    variants_components(variants@, types@, bound) <= u32::MAX,
                decreases variants.len() - v,
            {
                let fields = &variants[v].fields;
                let mut sum: u32 = 0;
                let mut j: usize = 0;
                proof {
                    lemma_variants_bound(variants@, types@, bound, v as int);
                }
                while j < fields.len()
                    invariant
                        acyclic(types@),
                        id.0 < types@.len(),
                        types@[id.0 as int] == (TypeDef::Enum { variants: *variants }),
                        bound == rank_of(types@)[id.0 as int] + 2,
                        v < variants.len(),
                        *fields == variants@[v as int].fields,
                        j <= fields.len(),
                        sum == list_components(fields@.take(j as int), types@, bound),
                        list_components(fields@, types@, bound) <= u32::MAX,
                    decreases fields.len() - j,
                {
                    proof {
                        lemma_variant_field_below(types@, id.0, v as int, j as int);
                        lemma_take_step(fields@, j as int);
                        lemma_list_prefix(fields@, types@, bound, j as int + 1);
                    }
                    let c = component_count(&fields[j], types, pointer_bytes);
                    sum = sum + c;
                    j = j + 1;
                }
                proof {
                    assert(fields@.take(j as int) =~= fields@);
                    lemma_take_step(variants@, v as int);
                }
                if sum > best {
                    best = sum;
                }
                v = v + 1;
            }
            proof {
                assert(variants@.take(v as int) =~= variants@);
            }
            best
        },
        _ => 0,
    }
}

// ---------------------------------------------------------------------------
// Enum layout.
// ---------------------------------------------------------------------------

/// Byte size of an enum with `n` payload components: a lone tag, or
/// tag slot plus `n` 8-byte components.
pub open spec fn enum_size(n: nat) -> nat {
    if n == 0 {
        4
    } else {
        8 * (n + 1)
    }
}

pub open spec fn enum_align(n: nat) -> nat {
    if n == 0 {
        4
    } else {
        8
    }
}

/// Exact byte size of an enum that has payload: `8 + n * 8`.
pub fn enum_payload_size_bytes(payload_components: u32) -> (r: u64)
    ensures
        r == 8 * (payload_components + 1),
{
    (ENUM_PAYLOAD_COMPONENT_BYTES as u64) * (payload_components as u64 + 1)
}

/// The unified byte layout of an enum.
pub fn enum_layout_of(types: &[TypeDef], id: TypeId, pointer_bytes: u32) -> (r: EnumLayout)
    requires
        acyclic(types@),
        id.0 < types@.len(),
        payload_components(types@, id.0) <= u32::MAX,
    ensures
        r.tag_offset == 0,
        r.payload_offset == 8,
        r.payload_components == payload_components(types@, id.0),
        r.size == enum_size(payload_components(types@, id.0)),
        r.align == enum_align(payload_components(types@, id.0)),
{
    let payload_components = enum_payload_components(types, id, pointer_bytes);
    let payload_offset = align_up(ENUM_TAG_BYTES, ENUM_PAYLOAD_COMPONENT_BYTES);
    assert(round_up(4, 8) == 8) by (nonlinear_arith);
    if payload_components == 0 {
        EnumLayout {
            tag_offset: 0,
            payload_offset,
            payload_components,
            size: ENUM_TAG_BYTES as u64,
            align: ENUM_TAG_BYTES,
        }
    } else {
        EnumLayout {
            tag_offset: 0,
            payload_offset,
            payload_components,
            size: enum_payload_size_bytes(payload_components),
            align: ENUM_PAYLOAD_COMPONENT_BYTES,
        }
    }
}

// ---------------------------------------------------------------------------
// Exact (u64) layout.
// ---------------------------------------------------------------------------

pub open spec fn max_nat(a: nat, b: nat) -> nat {
    if a >= b {
        a
    } else {
        b
    }
}

/// Exact size and alignment of `t`.
pub open spec fn exact_layout(t: Type, types: Seq<TypeDef>, pointer_bytes: u32) -> (nat, nat)
    decreases 3 * measure(t, types) + 2, 0nat,
{
    match t {
        Type::Unit => (0, 1),
        Type::Null => (pointer_bytes as nat, pointer_bytes as nat),
        Type::Ptr { .. } => (pointer_bytes as nat, pointer_bytes as nat),
        Type::Slice { .. } => (2 * pointer_bytes as nat, pointer_bytes as nat),
        Type::String => (2 * pointer_bytes as nat, pointer_bytes as nat),
        Type::Array { element, length } => (
            array_size(element, length, pointer_bytes) as nat,
            element_align(element, pointer_bytes) as nat,
        ),
        Type::Struct(id) => if id.0 < types.len() && types[id.0 as int] is Struct {
            let folded = exact_fold(
                types[id.0 as int]->Struct_fields@,
                types,
                pointer_bytes,
                measure(t, types),
            );
            (round_up(folded.0 as int, folded.1 as int) as nat, folded.1)
        } else {
            (0, 1)
        },
        Type::Enum(id) => (
            enum_size(payload_components(types, id.0)),
            enum_align(payload_components(types, id.0)),
        ),
        _ => match type_as_scalar(t) {
            Some(s) => (scalar_size(s, pointer_bytes) as nat, scalar_size(s, pointer_bytes) as nat),
            None => (0, 1),
        },
    }
}

/// End offset and largest alignment after laying out `fields` in order.
pub open spec fn exact_fold(
    fields: Seq<StructField>,
    types: Seq<TypeDef>,
    pointer_bytes: u32,
    bound: nat,
) -> (nat, nat)
    decreases 3 * bound, fields.len(),
{
    if fields.len() == 0 {
        (0, 1)
    } else {
        let prev = exact_fold(fields.drop_last(), types, pointer_bytes, bound);
        if measure(fields.last().ty, types) < bound {
            let field = exact_layout(fields.last().ty, types, pointer_bytes);
            let align = max_nat(field.1, 1);
            (
                (round_up(prev.0 as int, align as int) + field.0) as nat,
                max_nat(prev.1, align),
            )
        } else {
            prev
        }
    }
}

/// Exact layout of `t` can be computed without overflow.
pub open spec fn exact_fits(t: Type, types: Seq<TypeDef>, pointer_bytes: u32) -> bool
    decreases 3 * measure(t, types) + 2, 0nat,
{
    match t {
        Type::Struct(id) => id.0 < types.len() && (types[id.0 as int] is Struct ==> {
            &&& fields_fit(
                types[id.0 as int]->Struct_fields@,
                types,
                pointer_bytes,
                measure(t, types),
            )
            &&& exact_layout(t, types, pointer_bytes).0 <= u64::MAX
        }),
        Type::Enum(id) => id.0 < types.len() && payload_components(types, id.0) <= u32::MAX,
        _ => true,
    }
}

pub open spec fn fields_fit(
    fields: Seq<StructField>,
    types: Seq<TypeDef>,
    pointer_bytes: u32,
    bound: nat,
) -> bool
    decreases 3 * bound, fields.len(),
{
    if fields.len() == 0 {
        true
    } else {
        &&& fields_fit(fields.drop_last(), types, pointer_bytes, bound)
        &&& (measure(fields.last().ty, types) < bound ==> exact_fits(
            fields.last().ty,
            types,
            pointer_bytes,
        ))
    }
}

proof fn lemma_exact_fold_prefix(
    fields: Seq<StructField>,
    types: Seq<TypeDef>,
    pointer_bytes: u32,
    bound: nat,
    i: int,
)
    requires
        0 <= i <= fields.len(),
    ensures
        exact_fold(fields.take(i), types, pointer_bytes, bound).0 <= exact_fold(
            fields,
            types,
            pointer_bytes,
            bound,
        ).0,
        fields_fit(fields, types, pointer_bytes, bound) ==> fields_fit(
            fields.take(i),
            types,
            pointer_bytes,
            bound,
        ),
    decreases fields.len(),
{
    if i < fields.len() {
        lemma_exact_fold_prefix(fields.drop_last(), types, pointer_bytes, bound, i);
        assert(fields.drop_last().take(i) =~= fields.take(i));
        let prev = exact_fold(fields.drop_last(), types, pointer_bytes, bound);
        if measure(fields.last().ty, types) < bound {
            let field = exact_layout(fields.last().ty, types, pointer_bytes);
            lemma_round_up(prev.0 as int, max_nat(field.1, 1) as int);
        }
    } else {
        assert(fields.take(i) =~= fields);
    }
}

/// Exact size and alignment (no saturation), for checking aggregate budgets.
pub fn checked_layout_of(ty: &Type, types: &[TypeDef], pointer_bytes: u32) -> (r: (u64, u32))
    requires
        acyclic(types@),
        in_range(*ty, types@),
        pointer_ok(pointer_bytes),
        exact_fits(*ty, types@, pointer_bytes),
    ensures
        r.0 == exact_layout(*ty, types@, pointer_bytes).0,
        r.1 == exact_layout(*ty, types@, pointer_bytes).1,
    decreases 3 * measure(*ty, types@) + 2, 0nat,
{
    match ty {
        Type::Unit => (0, 1),
        Type::Null | Type::Ptr { .. } => (pointer_bytes as u64, pointer_bytes),
        Type::Slice { .. } | Type::String => ((pointer_bytes as u64) * 2, pointer_bytes),
        Type::Array { element, length } => {
            let align = element_alignment(*element, pointer_bytes);
            (array_byte_size(*element, *length, pointer_bytes), align)
        },
        Type::Struct(id) => {
            let fields = match &types[id.0] {
                TypeDef::Struct { fields, .. } => fields,
                _ => {
                    return (0, 1);
                },
            };
            let ghost bound = measure(*ty, types@);
            let mut offset: u64 = 0;
            let mut max_align: u32 = 1;
            let mut i: usize = 0;
            proof {
                lemma_rank(types@);
                lemma_exact_fold_prefix(fields@, types@, pointer_bytes, bound, fields@.len() as int);
                assert(fields@.take(fields@.len() as int) =~= fields@);
                let all = exact_fold(fields@, types@, pointer_bytes, bound);
                lemma_round_up(all.0 as int, all.1 as int);
            }
            while i < fields.len()
                invariant
                    acyclic(types@),
                    pointer_ok(pointer_bytes),
                    id.0 < types@.len(),
                    types@[id.0 as int] is Struct,
                    types@[id.0 as int]->Struct_fields == *fields,
                    bound == measure(*ty, types@),
                    bound == rank_of(types@)[id.0 as int] + 2,
                    i <= fields.len(),
                    offset == exact_fold(fields@.take(i as int), types@, pointer_bytes, bound).0,
                    max_align == exact_fold(fields@.take(i as int), types@, pointer_bytes, bound).1,
                    fields_fit(fields@, types@, pointer_bytes, bound),
                    exact_fold(fields@, types@, pointer_bytes, bound).0 <= u64::MAX,
                decreases fields.len() - i,
            {
                proof {
                    lemma_field_below(types@, id.0, i as int);
                    lemma_take_step(fields@, i as int);
                    lemma_exact_fold_prefix(fields@, types@, pointer_bytes, bound, i as int + 1);
                    let prev = exact_fold(fields@.take(i as int), types@, pointer_bytes, bound);
                    let field = exact_layout(fields@[i as int].ty, types@, pointer_bytes);
                    lemma_round_up(prev.0 as int, max_nat(field.1, 1) as int);
                }
                let (size, align) = checked_layout_of(&fields[i].ty, types, pointer_bytes);
                let align = if align >= 1 {
                    align
                } else {
                    1
                };
                offset = align_up_u64(offset, align);
                offset = offset + size;
                if align > max_align {
                    max_align = align;
                }
                i = i + 1;
            }
            proof {
                assert(fields@.take(i as int) =~= fields@);
            }
            (align_up_u64(offset, max_align), max_align)
        },
        Type::Enum(id) => {
            let layout = enum_layout_of(types, *id, pointer_bytes);
            (layout.size, layout.align)
        },
        _ => match ty.as_scalar() {
            Some(ScalarType::String) => ((pointer_bytes as u64) * 2, pointer_bytes),
            Some(scalar) => {
                let bytes = scalar_bytes(scalar, pointer_bytes);
                (bytes as u64, bytes)
            },
            None => (0, 1),
        },
    }
}

/// Exact byte size of a type.
pub fn checked_size_of(ty: &Type, types: &[TypeDef], pointer_bytes: u32) -> (r: u64)
    requires
        acyclic(types@),
        in_range(*ty, types@),
        pointer_ok(pointer_bytes),
        exact_fits(*ty, types@, pointer_bytes),
    ensures
        r == exact_layout(*ty, types@, pointer_bytes).0,
{
    checked_layout_of(ty, types, pointer_bytes).0
}

// ---------------------------------------------------------------------------
// Saturating (u32) layout used by code generation.
// ---------------------------------------------------------------------------

/// `v` clipped to `u32::MAX`.
pub open spec fn sat32(v: int) -> nat {
    if v <= u32::MAX {
        v as nat
    } else {
        u32::MAX as nat
    }
}

/// Size and alignment of `t` as the backend sees it (sizes saturate at `u32::MAX`).
pub open spec fn type_layout(t: Type, types: Seq<TypeDef>, pointer_bytes: u32) -> (nat, nat)
    decreases 3 * measure(t, types) + 2, 0nat,
{
    match t {
        Type::Unit => (0, 1),
        Type::Null => (pointer_bytes as nat, pointer_bytes as nat),
        Type::Ptr { .. } => (pointer_bytes as nat, pointer_bytes as nat),
        Type::Slice { .. } => (2 * pointer_bytes as nat, pointer_bytes as nat),
        Type::Array { element, length } => (
            sat32(array_size(element, length, pointer_bytes)),
            element_align(element, pointer_bytes) as nat,
        ),
        Type::Struct(id) => if id.0 < types.len() && types[id.0 as int] is Struct {
            let folded = layout_fold(
                types[id.0 as int]->Struct_fields@,
                types,
                pointer_bytes,
                measure(t, types),
            );
            (sat32(round_up(folded.1 as int, folded.2 as int)), folded.2)
        } else {
            (0, 1)
        },
        Type::Enum(id) => (
            sat32(enum_size(payload_components(types, id.0)) as int),
            enum_align(payload_components(types, id.0)),
        ),
        _ => match type_as_scalar(t) {
            Some(s) => (scalar_size(s, pointer_bytes) as nat, if s == ScalarType::String {
                pointer_bytes as nat
            } else {
                scalar_size(s, pointer_bytes) as nat
            }),
            None => (0, 1),
        },
    }
}

/// Field offsets, end offset and largest alignment after laying out `fields`.
pub open spec fn layout_fold(
    fields: Seq<StructField>,
    types: Seq<TypeDef>,
    pointer_bytes: u32,
    bound: nat,
) -> (Seq<nat>, nat, nat)
    decreases 3 * bound, fields.len(),
{
    if fields.len() == 0 {
        (Seq::empty(), 0, 1)
    } else {
        let prev = layout_fold(fields.drop_last(), types, pointer_bytes, bound);
        if measure(fields.last().ty, types) < bound {
            let field = type_layout(fields.last().ty, types, pointer_bytes);
            let align = max_nat(field.1, 1);
            let at = sat32(round_up(prev.1 as int, align as int));
            (prev.0.push(at), sat32((at + field.0) as int), max_nat(prev.2, align))
        } else {
            (prev.0.push(0), prev.1, prev.2)
        }
    }
}

/// Field offsets, end offset and largest alignment of an arbitrary field list.
pub open spec fn offsets_of(fields: Seq<StructField>, types: Seq<TypeDef>, pointer_bytes: u32) -> (
    Seq<nat>,
    nat,
    nat,
)
    decreases fields.len(),
{
    if fields.len() == 0 {
        (Seq::empty(), 0, 1)
    } else {
        let prev = offsets_of(fields.drop_last(), types, pointer_bytes);
        let field = type_layout(fields.last().ty, types, pointer_bytes);
        let align = max_nat(field.1, 1);
        let at = sat32(round_up(prev.1 as int, align as int));
        (prev.0.push(at), sat32((at + field.0) as int), max_nat(prev.2, align))
    }
}

/// Layout of `t` can be computed: every struct it holds resolves to a struct
/// definition and every enum payload count fits in `u32`.
pub open spec fn layout_fits(t: Type, types: Seq<TypeDef>) -> bool
    decreases 3 * measure(t, types) + 2, 0nat,
{
    match t {
        Type::Struct(id) => id.0 < types.len() && types[id.0 as int] is Struct && layout_fields_fit(
            types[id.0 as int]->Struct_fields@,
            types,
            measure(t, types),
        ),
        Type::Enum(id) => id.0 < types.len() && payload_components(types, id.0) <= u32::MAX,
        _ => true,
    }
}

pub open spec fn layout_fields_fit(fields: Seq<StructField>, types: Seq<TypeDef>, bound: nat) -> bool
    decreases 3 * bound, fields.len(),
{
    if fields.len() == 0 {
        true
    } else {
        &&& layout_fields_fit(fields.drop_last(), types, bound)
        &&& (measure(fields.last().ty, types) < bound ==> layout_fits(fields.last().ty, types))
    }
}

/// Every field of the list can be laid out.
pub open spec fn all_fields_fit(fields: Seq<StructField>, types: Seq<TypeDef>) -> bool {
    forall|j: int|
        0 <= j < fields.len() ==> in_range(#[trigger] fields[j].ty, types) && layout_fits(
            fields[j].ty,
            types,
        )
}

proof fn lemma_layout_fields_fit(fields: Seq<StructField>, types: Seq<TypeDef>, bound: nat, j: int)
    requires
        layout_fields_fit(fields, types, bound),
        0 <= j < fields.len(),
        measure(fields[j].ty, types) < bound,
    ensures
        layout_fits(fields[j].ty, types),
    decreases fields.len(),
{
    if j < fields.len() - 1 {
        lemma_layout_fields_fit(fields.drop_last(), types, bound, j);
    }
}

proof fn lemma_fold_agrees(fields: Seq<StructField>, types: Seq<TypeDef>, pointer_bytes: u32, bound: nat)
    requires
        forall|j: int| 0 <= j < fields.len() ==> measure(#[trigger] fields[j].ty, types) < bound,
    ensures
        layout_fold(fields, types, pointer_bytes, bound) == offsets_of(fields, types, pointer_bytes),
    decreases fields.len(),
{
    if fields.len() > 0 {
        let d = fields.drop_last();
        assert forall|j: int| 0 <= j < d.len() implies measure(#[trigger] d[j].ty, types) < bound by {
            assert(d[j] == fields[j]);
        }
        lemma_fold_agrees(d, types, pointer_bytes, bound);
        assert(measure(fields[fields.len() - 1].ty, types) < bound);
    }
}

/// Size and alignment of a type; `pointer_bytes` is the target pointer width.
pub fn layout_of(ty: &Type, types: &[TypeDef], pointer_bytes: u32) -> (r: Layout)
    requires
        acyclic(types@),
        in_range(*ty, types@),
        pointer_ok(pointer_bytes),
        layout_fits(*ty, types@),
    ensures
        r.size == type_layout(*ty, types@, pointer_bytes).0,
        r.align == type_layout(*ty, types@, pointer_bytes).1,
    decreases 3 * measure(*ty, types@) + 2, 0nat,
{
    match ty {
        Type::Unit => Layout { size: 0, align: 1 },
        Type::Null => Layout { size: pointer_bytes, align: pointer_bytes },
        Type::Ptr { .. } => Layout { size: pointer_bytes, align: pointer_bytes },
        Type::Slice { .. } => Layout { size: pointer_bytes * 2, align: pointer_bytes },
        Type::Array { element, length } => {
            let bytes = array_byte_size(*element, *length, pointer_bytes);
            let size = if bytes > u32::MAX as u64 {
                u32::MAX
            } else {
                bytes as u32
            };
            let align = element_alignment(*element, pointer_bytes);
            Layout { size, align }
        },
        Type::Struct(id) => {
            proof {
                lemma_rank(types@);
            }
            let (_, layout) = struct_layout_of(types, *id, pointer_bytes);
            proof {
                let fields = types@[id.0 as int]->Struct_fields@;
                assert forall|j: int| 0 <= j < fields.len() implies measure(
                    #[trigger] fields[j].ty,
                    types@,
                ) < measure(*ty, types@) by {
                    lemma_field_below(types@, id.0, j);
                }
                lemma_fold_agrees(fields, types@, pointer_bytes, measure(*ty, types@));
            }
            layout
        },
        Type::Enum(id) => {
            let layout = enum_layout_of(types, *id, pointer_bytes);
            let size = if layout.size > u32::MAX as u64 {
                u32::MAX
            } else {
                layout.size as u32
            };
            Layout { size, align: layout.align }
        },
        _ => match ty.as_scalar() {
            Some(ScalarType::String) => Layout { size: pointer_bytes * 2, align: pointer_bytes },
            Some(scalar) => {
                let bytes = scalar_bytes(scalar, pointer_bytes);
                Layout { size: bytes, align: bytes }
            },
            None => Layout { size: 0, align: 1 },
        },
    }
}

/// Byte offset of every field of a struct definition, and the struct's layout.
pub fn struct_layout_of(types: &[TypeDef], id: TypeId, pointer_bytes: u32) -> (r: (
    Vec<u32>,
    Layout,
))
    requires
        acyclic(types@),
        pointer_ok(pointer_bytes),
        layout_fits(Type::Struct(id), types@),
    ensures
        r.0@.len() == types@[id.0 as int]->Struct_fields@.len(),
        forall|j: int|
            0 <= j < r.0@.len() ==> r.0@[j] == offsets_of(
                types@[id.0 as int]->Struct_fields@,
                types@,
                pointer_bytes,
            ).0[j],
        r.1.size == type_layout(Type::Struct(id), types@, pointer_bytes).0,
        r.1.align == type_layout(Type::Struct(id), types@, pointer_bytes).1,
    decreases 3 * (rank_of(types@)[id.0 as int] + 2) + 1, 0nat,
{
    let fields = match &types[id.0] {
        TypeDef::Struct { fields, .. } => fields,
        _ => {
            proof {
                assert(false);
            }
            return (Vec::new(), Layout { size: 0, align: 1 });
        },
    };
    let ghost bound = rank_of(types@)[id.0 as int] + 2;
    let mut offsets: Vec<u32> = Vec::new();
    let mut offset: u32 = 0;
    let mut max_align: u32 = 1;
    let mut i: usize = 0;
    proof {
        lemma_rank(types@);
    }
    while i < fields.len()
        invariant
            acyclic(types@),
            pointer_ok(pointer_bytes),
            id.0 < types@.len(),
            types@[id.0 as int] is Struct,
            types@[id.0 as int]->Struct_fields == *fields,
            bound == rank_of(types@)[id.0 as int] + 2,
            bound == measure(Type::Struct(id), types@),
            layout_fields_fit(fields@, types@, bound),
            i <= fields.len(),
            offsets@.len() == i,
            forall|j: int|
                0 <= j < i ==> offsets@[j] == offsets_of(
                    fields@.take(i as int),
                    types@,
                    pointer_bytes,
                ).0[j],
            offset == offsets_of(fields@.take(i as int), types@, pointer_bytes).1,
            max_align == offsets_of(fields@.take(i as int), types@, pointer_bytes).2,
        decreases fields.len() - i,
    {
        proof {
            lemma_field_below(types@, id.0, i as int);
            lemma_layout_fields_fit(fields@, types@, bound, i as int);
            lemma_take_step(fields@, i as int);
        }
        let layout = layout_of(&fields[i].ty, types, pointer_bytes);
        let align = if layout.align >= 1 {
            layout.align
        } else {
            1
        };
        offset = align_up(offset, align);
        offsets.push(offset);
        proof {
            lemma_offsets_len(fields@.take(i as int), types@, pointer_bytes);
            let prev = offsets_of(fields@.take(i as int), types@, pointer_bytes);
            assert(offsets_of(fields@.take(i as int + 1), types@, pointer_bytes).0 == prev.0.push(
                offset as nat,
            ));
            assert forall|j: int| 0 <= j < i + 1 implies offsets@[j] == offsets_of(
                fields@.take(i as int + 1),
                types@,
                pointer_bytes,
            ).0[j] by {
                if j < i {
                    assert(prev.0.push(offset as nat)[j] == prev.0[j]);
                }
            }
        }
        offset = if offset > u32::MAX - layout.size {
            u32::MAX
        } else {
            offset + layout.size
        };
        if align > max_align {
            max_align = align;
        }
        i = i + 1;
    }
    let size = align_up(offset, max_align);
    proof {
        assert(fields@.take(i as int) =~= fields@);
        assert forall|j: int| 0 <= j < fields@.len() implies measure(
            #[trigger] fields@[j].ty,
            types@,
        ) < bound by {
            lemma_field_below(types@, id.0, j);
        }
        lemma_fold_agrees(fields@, types@, pointer_bytes, bound);
    }
    (offsets, Layout { size, align: max_align })
}

/// Byte offset of the field at index `target` (consistent with `layout_of`).
pub fn field_offset(fields: &[StructField], target: usize, types: &[TypeDef], pointer_bytes: u32) -> (r: u32)
    requires
        acyclic(types@),
        pointer_ok(pointer_bytes),
        target < fields@.len(),
        all_fields_fit(fields@, types@),
    ensures
        r == offsets_of(fields@, types@, pointer_bytes).0[target as int],
{
    let mut offset: u32 = 0;
    let mut index: usize = 0;
    while index < fields.len()
        invariant
            acyclic(types@),
            pointer_ok(pointer_bytes),
            target < fields@.len(),
            all_fields_fit(fields@, types@),
            index <= target,
            offset == offsets_of(fields@.take(index as int), types@, pointer_bytes).1,
        decreases fields.len() - index,
    {
        proof {
            lemma_take_step(fields@, index as int);
        }
        let layout = layout_of(&fields[index].ty, types, pointer_bytes);
        let align = if layout.align >= 1 {
            layout.align
        } else {
            1
        };
        offset = align_up(offset, align);
        if index == target {
            proof {
                lemma_offsets_prefix(fields@, types@, pointer_bytes, index as int + 1, index as int);
            }
            return offset;
        }
        offset = if offset > u32::MAX - layout.size {
            u32::MAX
        } else {
            offset + layout.size
        };
        index = index + 1;
    }
    proof {
        assert(false);
    }
    0
}

/// Offsets computed on a prefix agree with those of the whole list.
proof fn lemma_offsets_prefix(
    fields: Seq<StructField>,
    types: Seq<TypeDef>,
    pointer_bytes: u32,
    n: int,
    j: int,
)
    requires
        0 <= j < n <= fields.len(),
    ensures
        offsets_of(fields.take(n), types, pointer_bytes).0.len() == n,
        offsets_of(fields, types, pointer_bytes).0.len() == fields.len(),
        offsets_of(fields.take(n), types, pointer_bytes).0[j] == offsets_of(
            fields,
            types,
            pointer_bytes,
        ).0[j],
    decreases fields.len(),
{
    lemma_offsets_len(fields, types, pointer_bytes);
    lemma_offsets_len(fields.take(n), types, pointer_bytes);
    if n < fields.len() {
        lemma_offsets_prefix(fields.drop_last(), types, pointer_bytes, n, j);
        assert(fields.drop_last().take(n) =~= fields.take(n));
        lemma_offsets_len(fields.drop_last(), types, pointer_bytes);
    } else {
        assert(fields.take(n) =~= fields);
    }
}

proof fn lemma_offsets_len(fields: Seq<StructField>, types: Seq<TypeDef>, pointer_bytes: u32)
    ensures
        offsets_of(fields, types, pointer_bytes).0.len() == fields.len(),
    decreases fields.len(),
{
    if fields.len() > 0 {
        lemma_offsets_len(fields.drop_last(), types, pointer_bytes);
    }
}

// ---------------------------------------------------------------------------
// Laws.
// ---------------------------------------------------------------------------

/// The backend layout follows the same rules as the exact layout: whenever a
/// type's exact size fits in 32 bits, both give the same size and alignment.
pub proof fn layout_matches_exact(t: Type, types: Seq<TypeDef>, pointer_bytes: u32)
    requires
        exact_layout(t, types, pointer_bytes).0 <= u32::MAX,
    ensures
        type_layout(t, types, pointer_bytes) == exact_layout(t, types, pointer_bytes),
    decreases 3 * measure(t, types) + 2, 0nat,
{
    match t {
        Type::Struct(id) => {
            if id.0 < types.len() && types[id.0 as int] is Struct {
                let fields = types[id.0 as int]->Struct_fields@;
                let folded = exact_fold(fields, types, pointer_bytes, measure(t, types));
                lemma_round_up(folded.0 as int, max_nat(folded.1, 1) as int);
                lemma_exact_fold_align(fields, types, pointer_bytes, measure(t, types));
                fold_matches_exact(fields, types, pointer_bytes, measure(t, types));
            }
        },
        _ => {},
    }
}

proof fn lemma_exact_fold_align(fields: Seq<StructField>, types: Seq<TypeDef>, pointer_bytes: u32, bound: nat)
    ensures
        exact_fold(fields, types, pointer_bytes, bound).1 >= 1,
    decreases fields.len(),
{
    if fields.len() > 0 {
        lemma_exact_fold_align(fields.drop_last(), types, pointer_bytes, bound);
    }
}

/// Struct folds agree while the exact end offset fits in 32 bits.
proof fn fold_matches_exact(fields: Seq<StructField>, types: Seq<TypeDef>, pointer_bytes: u32, bound: nat)
    requires
        exact_fold(fields, types, pointer_bytes, bound).0 <= u32::MAX,
    ensures
        layout_fold(fields, types, pointer_bytes, bound).1 == exact_fold(
            fields,
            types,
            pointer_bytes,
            bound,
        ).0,
        layout_fold(fields, types, pointer_bytes, bound).2 == exact_fold(
            fields,
            types,
            pointer_bytes,
            bound,
        ).1,
    decreases 3 * bound, fields.len(),
{
    if fields.len() > 0 {
        let prev = exact_fold(fields.drop_last(), types, pointer_bytes, bound);
        if measure(fields.last().ty, types) < bound {
            let field = exact_layout(fields.last().ty, types, pointer_bytes);
            lemma_round_up(prev.0 as int, max_nat(field.1, 1) as int);
            fold_matches_exact(fields.drop_last(), types, pointer_bytes, bound);
            layout_matches_exact(fields.last().ty, types, pointer_bytes);
        } else {
            fold_matches_exact(fields.drop_last(), types, pointer_bytes, bound);
        }
    }
}

/// A struct's exact size is a multiple of its alignment, and the alignment is at least one.
pub proof fn struct_size_is_aligned(id: TypeId, types: Seq<TypeDef>, pointer_bytes: u32)
    requires
        id.0 < types.len(),
        types[id.0 as int] is Struct,
    ensures
        exact_layout(Type::Struct(id), types, pointer_bytes).1 >= 1,
        exact_layout(Type::Struct(id), types, pointer_bytes).0 % exact_layout(
            Type::Struct(id),
            types,
            pointer_bytes,
        ).1 == 0,
{
    let t = Type::Struct(id);
    let folded = exact_fold(types[id.0 as int]->Struct_fields@, types, pointer_bytes, measure(t, types));
    lemma_exact_fold_align(types[id.0 as int]->Struct_fields@, types, pointer_bytes, measure(t, types));
    lemma_round_up(folded.0 as int, folded.1 as int);
}

/// The components of `ts`, added up.
pub open spec fn sum_components(ts: Seq<Type>, types: Seq<TypeDef>) -> nat
    decreases ts.len(),
{
    if ts.len() == 0 {
        0
    } else {
        sum_components(ts.drop_last(), types) + components(ts.last(), types)
    }
}

/// The types of a struct's fields.
pub open spec fn field_types(fields: Seq<StructField>) -> Seq<Type> {
    fields.map_values(|f: StructField| f.ty)
}

proof fn lemma_fields_sum(fields: Seq<StructField>, types: Seq<TypeDef>, bound: nat)
    requires
        forall|j: int| 0 <= j < fields.len() ==> measure(#[trigger] fields[j].ty, types) < bound,
    ensures
        fields_components(fields, types, bound) == sum_components(field_types(fields), types),
    decreases fields.len(),
{
    if fields.len() > 0 {
        let d = fields.drop_last();
        assert forall|j: int| 0 <= j < d.len() implies measure(#[trigger] d[j].ty, types) < bound by {
            assert(d[j] == fields[j]);
        }
        lemma_fields_sum(d, types, bound);
        assert(field_types(fields).drop_last() =~= field_types(d));
        assert(measure(fields[fields.len() - 1].ty, types) < bound);
    }
}

proof fn lemma_list_sum(ts: Seq<Type>, types: Seq<TypeDef>, bound: nat)
    requires
        forall|j: int| 0 <= j < ts.len() ==> measure(#[trigger] ts[j], types) < bound,
    ensures
        list_components(ts, types, bound) == sum_components(ts, types),
    decreases ts.len(),
{
    if ts.len() > 0 {
        let d = ts.drop_last();
        assert forall|j: int| 0 <= j < d.len() implies measure(#[trigger] d[j], types) < bound by {
            assert(d[j] == ts[j]);
        }
        lemma_list_sum(d, types, bound);
        assert(measure(ts[ts.len() - 1], types) < bound);
    }
}

/// `component_count` of a struct is the sum of `component_count` over its
/// fields.
pub proof fn struct_components_add_up(id: TypeId, types: Seq<TypeDef>)
    requires
        acyclic(types),
        id.0 < types.len(),
        types[id.0 as int] is Struct,
    ensures
        components(Type::Struct(id), types) == sum_components(
            field_types(types[id.0 as int]->Struct_fields@),
            types,
        ),
{
    let fields = types[id.0 as int]->Struct_fields@;
    assert forall|j: int| 0 <= j < fields.len() implies measure(
        #[trigger] fields[j].ty,
        types,
    ) < measure(Type::Struct(id), types) by {
        lemma_field_below(types, id.0, j);
    }
    lemma_fields_sum(fields, types, measure(Type::Struct(id), types));
}

proof fn lemma_variants_largest(variants: Seq<EnumVariant>, types: Seq<TypeDef>, bound: nat)
    requires
        forall|v: int, j: int|
            0 <= v < variants.len() && 0 <= j < variants[v].fields@.len() ==> measure(
                #[trigger] variants[v].fields@[j],
                types,
            ) < bound,
    ensures
        forall|v: int|
            0 <= v < variants.len() ==> sum_components(#[trigger] variants[v].fields@, types)
                <= variants_components(variants, types, bound),
        variants.len() == 0 ==> variants_components(variants, types, bound) == 0,
        variants.len() > 0 ==> exists|v: int|
            0 <= v < variants.len() && variants_components(variants, types, bound) == sum_components(
                #[trigger] variants[v].fields@,
                types,
            ),
    decreases variants.len(),
{
    if variants.len() > 0 {
        let d = variants.drop_last();
        let n = variants.len() - 1;
        assert forall|v: int, j: int|
            0 <= v < d.len() && 0 <= j < d[v].fields@.len() implies measure(
            #[trigger] d[v].fields@[j],
            types,
        ) < bound by {
            assert(d[v] == variants[v]);
        }
        lemma_variants_largest(d, types, bound);
        assert forall|j: int| 0 <= j < variants[n].fields@.len() implies measure(
            #[trigger] variants[n].fields@[j],
            types,
        ) < bound by {}
        lemma_list_sum(variants[n].fields@, types, bound);
        assert forall|v: int| 0 <= v < variants.len() implies sum_components(
            #[trigger] variants[v].fields@,
            types,
        ) <= variants_components(variants, types, bound) by {
            if v < n {
                assert(d[v] == variants[v]);
            }
        }
        if n > 0 {
            let w = choose|w: int|
                0 <= w < d.len() && variants_components(d, types, bound) == sum_components(
                    #[trigger] d[w].fields@,
                    types,
                );
            assert(d[w] == variants[w]);
            if variants_components(d, types, bound) >= sum_components(variants[n].fields@, types) {
                assert(sum_components(variants[w].fields@, types) == variants_components(variants, types, bound));
            } else {
                assert(sum_components(variants[n].fields@, types) == variants_components(variants, types, bound));
            }
        } else {
            assert(sum_components(variants[n].fields@, types) == variants_components(variants, types, bound));
        }
    }
}

/// `enum_payload_components` is the largest variant and `component_count`
/// of an enum is one more (the tag): every variant's
/// fields add up to at most the payload, one variant's fields add up to
/// exactly the payload, and an enum without variants has no payload.
pub proof fn enum_payload_is_largest_variant(id: TypeId, types: Seq<TypeDef>)
    requires
        acyclic(types),
        id.0 < types.len(),
        types[id.0 as int] is Enum,
    ensures
        components(Type::Enum(id), types) == 1 + payload_components(types, id.0),
        forall|v: int|
            0 <= v < types[id.0 as int]->variants@.len() ==> sum_components(
                #[trigger] types[id.0 as int]->variants@[v].fields@,
                types,
            ) <= payload_components(types, id.0),
        types[id.0 as int]->variants@.len() == 0 ==> payload_components(types, id.0) == 0,
        types[id.0 as int]->variants@.len() > 0 ==> exists|v: int|
            0 <= v < types[id.0 as int]->variants@.len() && payload_components(types, id.0)
                == sum_components(#[trigger] types[id.0 as int]->variants@[v].fields@, types),
{
    let variants = types[id.0 as int]->variants@;
    let bound = rank_of(types)[id.0 as int] + 2;
    assert forall|v: int, j: int|
        0 <= v < variants.len() && 0 <= j < variants[v].fields@.len() implies measure(
        #[trigger] variants[v].fields@[j],
        types,
    ) < bound by {
        lemma_variant_field_below(types, id.0, v, j);
    }
    lemma_variants_largest(variants, types, bound);
}

/// Alignment of field `j` as the backend places it (at least one).
pub open spec fn field_align(fields: Seq<StructField>, types: Seq<TypeDef>, pointer_bytes: u32, j: int) -> nat {
    max_nat(type_layout(fields[j].ty, types, pointer_bytes).1, 1)
}

/// Where field `j` could start at the earliest: the end of field `j - 1`,
/// or 0 for the first field.
pub open spec fn end_before(
    fields: Seq<StructField>,
    types: Seq<TypeDef>,
    pointer_bytes: u32,
    offsets: Seq<nat>,
    j: int,
) -> int {
    if j == 0 {
        0
    } else {
        (offsets[j - 1] + type_layout(fields[j - 1].ty, types, pointer_bytes).0) as int
    }
}

proof fn lemma_offsets_exact(fields: Seq<StructField>, types: Seq<TypeDef>, pointer_bytes: u32, bound: nat)
    requires
        forall|j: int| 0 <= j < fields.len() ==> measure(#[trigger] fields[j].ty, types) < bound,
        exact_fold(fields, types, pointer_bytes, bound).0 <= u32::MAX,
    ensures
        offsets_of(fields, types, pointer_bytes).1 == exact_fold(fields, types, pointer_bytes, bound).0,
        offsets_of(fields, types, pointer_bytes).2 == exact_fold(fields, types, pointer_bytes, bound).1,
        offsets_of(fields, types, pointer_bytes).0.len() == fields.len(),
        fields.len() > 0 ==> offsets_of(fields, types, pointer_bytes).1 == end_before(
            fields,
            types,
            pointer_bytes,
            offsets_of(fields, types, pointer_bytes).0,
            fields.len() as int,
        ),
        forall|j: int|
            0 <= j < fields.len() ==> #[trigger] offsets_of(fields, types, pointer_bytes).0[j] == round_up(
                end_before(fields, types, pointer_bytes, offsets_of(fields, types, pointer_bytes).0, j),
                field_align(fields, types, pointer_bytes, j) as int,
            ),
    decreases fields.len(),
{
    lemma_fold_agrees(fields, types, pointer_bytes, bound);
    fold_matches_exact(fields, types, pointer_bytes, bound);
    lemma_offsets_len(fields, types, pointer_bytes);
    if fields.len() > 0 {
        let d = fields.drop_last();
        let n = fields.len() - 1;
        assert forall|j: int| 0 <= j < d.len() implies measure(#[trigger] d[j].ty, types) < bound by {
            assert(d[j] == fields[j]);
        }
        lemma_exact_fold_prefix(fields, types, pointer_bytes, bound, n);
        assert(fields.take(n) =~= d);
        lemma_offsets_exact(d, types, pointer_bytes, bound);
        let prev = offsets_of(d, types, pointer_bytes);
        let eprev = exact_fold(d, types, pointer_bytes, bound);
        assert(measure(fields[n].ty, types) < bound);
        let last = fields.last();
        let exact = exact_layout(last.ty, types, pointer_bytes);
        lemma_round_up(eprev.0 as int, max_nat(exact.1, 1) as int);
        layout_matches_exact(last.ty, types, pointer_bytes);
        let o = offsets_of(fields, types, pointer_bytes);
        assert(o.0[n] == round_up(prev.1 as int, field_align(fields, types, pointer_bytes, n) as int));
        if n > 0 {
            assert(prev.1 == end_before(d, types, pointer_bytes, prev.0, n));
            assert(d[n - 1] == fields[n - 1]);
            assert(prev.0[n - 1] == o.0[n - 1]);
        }
        assert forall|j: int| 0 <= j < fields.len() implies #[trigger] o.0[j] == round_up(
            end_before(fields, types, pointer_bytes, o.0, j),
            field_align(fields, types, pointer_bytes, j) as int,
        ) by {
            if j < n {
                assert(o.0[j] == prev.0[j]);
                assert(d[j] == fields[j]);
                assert(prev.0[j] == round_up(
                    end_before(d, types, pointer_bytes, prev.0, j),
                    field_align(d, types, pointer_bytes, j) as int,
                ));
                if j > 0 {
                    assert(d[j - 1] == fields[j - 1]);
                    assert(o.0[j - 1] == prev.0[j - 1]);
                }
            }
        }
    }
}

/// Every field of a struct starts at the end of the previous one (0 for the
/// first), rounded up to the field's alignment, so its offset is a multiple
/// of that alignment; the struct's alignment is the largest field alignment
/// (at least one), and its size is the end of the last field rounded up to
/// that alignment. Holds whenever the struct's exact size fits in 32 bits.
pub proof fn struct_fields_are_aligned(id: TypeId, types: Seq<TypeDef>, pointer_bytes: u32)
    requires
        acyclic(types),
        id.0 < types.len(),
        types[id.0 as int] is Struct,
        exact_layout(Type::Struct(id), types, pointer_bytes).0 <= u32::MAX,
    ensures
        ({
            let fields = types[id.0 as int]->Struct_fields@;
            let placed = offsets_of(fields, types, pointer_bytes);
            let layout = type_layout(Type::Struct(id), types, pointer_bytes);
            &&& placed.0.len() == fields.len()
            &&& forall|j: int|
                0 <= j < fields.len() ==> #[trigger] placed.0[j] == round_up(
                    end_before(fields, types, pointer_bytes, placed.0, j),
                    field_align(fields, types, pointer_bytes, j) as int,
                ) && placed.0[j] % field_align(fields, types, pointer_bytes, j) == 0
            &&& forall|j: int|
                0 <= j < fields.len() ==> field_align(fields, types, pointer_bytes, j) <= #[trigger] layout.1
            &&& layout.1 >= 1
            &&& layout.1 == placed.2
            &&& layout.0 == round_up(
                end_before(fields, types, pointer_bytes, placed.0, fields.len() as int),
                layout.1 as int,
            )
            &&& layout.0 % layout.1 == 0
        }),
{
    let t = Type::Struct(id);
    let fields = types[id.0 as int]->Struct_fields@;
    let bound = measure(t, types);
    assert forall|j: int| 0 <= j < fields.len() implies measure(#[trigger] fields[j].ty, types) < bound by {
        lemma_field_below(types, id.0, j);
    }
    let folded = exact_fold(fields, types, pointer_bytes, bound);
    lemma_exact_fold_align(fields, types, pointer_bytes, bound);
    lemma_round_up(folded.0 as int, folded.1 as int);
    lemma_offsets_exact(fields, types, pointer_bytes, bound);
    layout_matches_exact(t, types, pointer_bytes);
    lemma_fold_agrees(fields, types, pointer_bytes, bound);
    let placed = offsets_of(fields, types, pointer_bytes);
    assert forall|j: int| 0 <= j < fields.len() implies #[trigger] placed.0[j] == round_up(
        end_before(fields, types, pointer_bytes, placed.0, j),
        field_align(fields, types, pointer_bytes, j) as int,
    ) && placed.0[j] % field_align(fields, types, pointer_bytes, j) == 0 by {
        assert(end_before(fields, types, pointer_bytes, placed.0, j) >= 0);
        lemma_round_up(
            end_before(fields, types, pointer_bytes, placed.0, j),
            field_align(fields, types, pointer_bytes, j) as int,
        );
    }
    assert forall|j: int| 0 <= j < fields.len() implies field_align(fields, types, pointer_bytes, j) <= #[trigger] placed.2 by {
        lemma_align_covers(fields, types, pointer_bytes, j);
    }
    if fields.len() == 0 {
        assert(round_up(0, 1) == 0);
    }
}

proof fn lemma_align_covers(fields: Seq<StructField>, types: Seq<TypeDef>, pointer_bytes: u32, j: int)
    requires
        0 <= j < fields.len(),
    ensures
        field_align(fields, types, pointer_bytes, j) <= offsets_of(fields, types, pointer_bytes).2,
    decreases fields.len(),
{
    if j < fields.len() - 1 {
        let d = fields.drop_last();
        lemma_align_covers(d, types, pointer_bytes, j);
        assert(d[j] == fields[j]);
    }
}

/// An enum's size is a multiple of its alignment; with payload it is
/// `8 + 8 * components` bytes aligned to 8, without payload 4 bytes aligned to 4.
pub proof fn enum_size_is_aligned(n: nat)
    ensures
        enum_size(n) % enum_align(n) == 0,
        n > 0 ==> enum_size(n) == 8 + 8 * n && enum_align(n) == 8,
        n == 0 ==> enum_size(n) == 4 && enum_align(n) == 4,
{
    if n > 0 {
        assert((8 * (n + 1)) % 8 == 0) by (nonlinear_arith);
    }
}


/// Scalar layouts are fixed, whatever the type table: `i8`, `u8` and
/// `bool` take one byte, `i16` and `u16` two, `i32`, `u32`, `f32` and
/// `char` four, the 64-bit and pointer-sized integers and `f64` eight, each
/// aligned to its size; a `string` view is two pointers aligned to one.
/// The same sizes are the element sizes of arrays. `Unit` takes nothing
/// and is aligned to one; a pointer and `null` take one pointer, a slice
/// two, each aligned to a pointer.
pub proof fn scalar_layouts_are_fixed(types: Seq<TypeDef>, pointer_bytes: u32)
    ensures
        type_layout(Type::Unit, types, pointer_bytes) == (0nat, 1nat),
        type_layout(Type::Null, types, pointer_bytes) == (pointer_bytes as nat, pointer_bytes as nat),
        forall|pointee: Box<Type>, mutable: bool|
            #[trigger] type_layout(Type::Ptr { pointee, mutable }, types, pointer_bytes) == (
                pointer_bytes as nat,
                pointer_bytes as nat,
            ),
        forall|element: Box<Type>, mutable: bool|
            #[trigger] type_layout(Type::Slice { element, mutable }, types, pointer_bytes) == (
                2 * pointer_bytes as nat,
                pointer_bytes as nat,
            ),
        type_layout(Type::I8, types, pointer_bytes) == (1nat, 1nat),
        type_layout(Type::U8, types, pointer_bytes) == (1nat, 1nat),
        type_layout(Type::Bool, types, pointer_bytes) == (1nat, 1nat),
        type_layout(Type::I16, types, pointer_bytes) == (2nat, 2nat),
        type_layout(Type::U16, types, pointer_bytes) == (2nat, 2nat),
        type_layout(Type::I32, types, pointer_bytes) == (4nat, 4nat),
        type_layout(Type::U32, types, pointer_bytes) == (4nat, 4nat),
        type_layout(Type::F32, types, pointer_bytes) == (4nat, 4nat),
        type_layout(Type::Char, types, pointer_bytes) == (4nat, 4nat),
        type_layout(Type::I64, types, pointer_bytes) == (8nat, 8nat),
        type_layout(Type::U64, types, pointer_bytes) == (8nat, 8nat),
        type_layout(Type::Usize, types, pointer_bytes) == (8nat, 8nat),
        type_layout(Type::Isize, types, pointer_bytes) == (8nat, 8nat),
        type_layout(Type::F64, types, pointer_bytes) == (8nat, 8nat),
        type_layout(Type::String, types, pointer_bytes) == (2 * pointer_bytes as nat, pointer_bytes as nat),
        scalar_size(ScalarType::I8, pointer_bytes) == 1,
        scalar_size(ScalarType::U8, pointer_bytes) == 1,
        scalar_size(ScalarType::Bool, pointer_bytes) == 1,
        scalar_size(ScalarType::I16, pointer_bytes) == 2,
        scalar_size(ScalarType::U16, pointer_bytes) == 2,
        scalar_size(ScalarType::I32, pointer_bytes) == 4,
        scalar_size(ScalarType::U32, pointer_bytes) == 4,
        scalar_size(ScalarType::F32, pointer_bytes) == 4,
        scalar_size(ScalarType::Char, pointer_bytes) == 4,
        scalar_size(ScalarType::I64, pointer_bytes) == 8,
        scalar_size(ScalarType::U64, pointer_bytes) == 8,
        scalar_size(ScalarType::Usize, pointer_bytes) == 8,
        scalar_size(ScalarType::Isize, pointer_bytes) == 8,
        scalar_size(ScalarType::F64, pointer_bytes) == 8,
        scalar_size(ScalarType::String, pointer_bytes) == 2 * pointer_bytes,
{
}

/// An array lays its elements out back to back: it takes `length` times
/// the size of its element type (while that fits in 32 bits) and is
/// aligned like one element.
pub proof fn arrays_repeat_their_element(element: ScalarType, length: usize, types: Seq<TypeDef>, pointer_bytes: u32)
    requires
        length * type_layout(scalar_as_type(element), types, pointer_bytes).0 <= u32::MAX,
    ensures
        type_layout(Type::Array { element, length }, types, pointer_bytes) == (
            (length * type_layout(scalar_as_type(element), types, pointer_bytes).0) as nat,
            type_layout(scalar_as_type(element), types, pointer_bytes).1,
        ),
{
    assert(type_as_scalar(scalar_as_type(element)) == Some(element));
    let size = scalar_size(element, pointer_bytes);
    assert(size >= 0);
    assert(length * size >= 0) by (nonlinear_arith)
        requires
            size >= 0,
    ;
}

} // verus!
