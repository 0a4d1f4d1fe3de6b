//! Structural checking of a whole `Program`.
//!
//! Checks indices and kinds, control flow, location counts, and the type
//! consistency of expressions and places. By-value layout cycles are found
//! with a grey/black depth-first search; recursion through pointers and
//! slices stays legal.
use vstd::prelude::*;

use crate::ir::{
    is_float_type, is_integer_type, scalar_as_type, type_text, BasicBlock, BinaryOperator, BlockId,
    Expr, ExprKind, Function, Instruction, LocalId, MatchPattern, Place, PlaceKind, PrintPart, Program,
    Terminator, Type, TypeDef, TypeId, UnaryOperator,
};
use crate::layout::{acyclic, by_value_id, def_below, ranked_by, ref_below};
use crate::text::{decimal, push_decimal, push_str};

verus! {

/// The first problem found in a program.
#[derive(Debug, Clone, PartialEq, Eq)]
pub struct VerifyError {
    message: String,
}

impl View for VerifyError {
    type V = Seq<char>;

    closed spec fn view(&self) -> Seq<char> {
        self.message@
    }
}

impl VerifyError {
    fn new(message: String) -> (e: VerifyError)
        ensures
            e@ == message@,
    {
        VerifyError { message }
    }

    /// The text of the error.
    pub fn message(&self) -> (r: &str)
        ensures
            r@ == self@,
    {
        self.message.as_str()
    }
}

// ---------------------------------------------------------------------------
// Message building.
// ---------------------------------------------------------------------------

fn text_error(text: &str) -> (r: VerifyError)
    ensures
        r@ == text@,
{
    let mut m = String::new();
    push_str(&mut m, text);
    VerifyError::new(m)
}

fn type_error(before: &str, ty: &Type, after: &str) -> (r: VerifyError)
    ensures
        r@ == before@ + type_text(*ty) + after@,
{
    let mut m = String::new();
    push_str(&mut m, before);
    ty.render_into(&mut m);
    push_str(&mut m, after);
    VerifyError::new(m)
}

fn two_type_error(before: &str, first: &Type, middle: &str, second: &Type, after: &str) -> (r:
    VerifyError)
    ensures
        r@ == before@ + type_text(*first) + middle@ + type_text(*second) + after@,
{
    let mut m = String::new();
    push_str(&mut m, before);
    first.render_into(&mut m);
    push_str(&mut m, middle);
    second.render_into(&mut m);
    push_str(&mut m, after);
    VerifyError::new(m)
}

fn number_error(before: &str, n: usize, after: &str) -> (r: VerifyError)
    ensures
        r@ == before@ + decimal(n as nat) + after@,
{
    let mut m = String::new();
    push_str(&mut m, before);
    push_decimal(&mut m, n as u64);
    push_str(&mut m, after);
    VerifyError::new(m)
}

fn prefixed(before: &str, n: usize, middle: &str, error: VerifyError) -> (r: VerifyError)
    ensures
        r@ == before@ + decimal(n as nat) + middle@ + error@,
{
    let mut m = String::new();
    push_str(&mut m, before);
    push_decimal(&mut m, n as u64);
    push_str(&mut m, middle);
    push_str(&mut m, error.message.as_str());
    VerifyError::new(m)
}

// ---------------------------------------------------------------------------
// Type rules.
// ---------------------------------------------------------------------------

/// `t` is well formed on its own: arrays are non-empty, struct and enum
/// references name a definition of the same kind (looking through pointers
/// and slices, but not into the definitions).
pub open spec fn type_ok(t: Type, types: Seq<TypeDef>) -> bool
    decreases t,
{
    match t {
        Type::Array { length, .. } => length > 0,
        Type::Ptr { pointee, .. } => type_ok(*pointee, types),
        Type::Slice { element, .. } => type_ok(*element, types),
        Type::Struct(id) => id.0 < types.len() && types[id.0 as int] is Struct,
        Type::Enum(id) => id.0 < types.len() && types[id.0 as int] is Enum,
        _ => true,
    }
}

/// Every field type of every definition is well formed.
pub open spec fn defs_ok(types: Seq<TypeDef>) -> bool {
    forall|i: int| 0 <= i < types.len() ==> #[trigger] def_ok(types[i], types)
}

pub open spec fn def_ok(def: TypeDef, types: Seq<TypeDef>) -> bool {
    match def {
        TypeDef::Struct { fields, .. } => forall|j: int|
            0 <= j < fields@.len() ==> type_ok(#[trigger] fields@[j].ty, types),
        TypeDef::Enum { variants } => forall|v: int, j: int|
            0 <= v < variants@.len() && 0 <= j < variants@[v].fields@.len() ==> type_ok(
                #[trigger] variants@[v].fields@[j],
                types,
            ),
    }
}

/// `actual` may stand where `expected` is wanted: equal, `null` against a
/// pointer, or dropping mutability of a pointer or slice.
pub open spec fn compatible(actual: Type, expected: Type) -> bool {
    actual == expected || match (actual, expected) {
        (Type::Null, Type::Ptr { .. }) => true,
        (Type::Ptr { .. }, Type::Null) => true,
        (Type::Ptr { pointee: a, mutable: ma }, Type::Ptr { pointee: e, mutable: me }) => ma
            && !me && a == e,
        (Type::Slice { element: a, mutable: ma }, Type::Slice { element: e, mutable: me }) => ma
            && !me && a == e,
        _ => false,
    }
}

/// `types_compatible` in full: every type stands where itself is wanted; a
/// mutable pointer or slice stands where the read-only one is wanted but
/// not the other way round; `null` and any pointer stand for each other;
/// any other two types are compatible exactly when they are equal.
pub proof fn compatibility_only_drops_mutability(a: Type, b: Type, p: Type)
    ensures
        compatible(a, a),
        compatible(Type::Ptr { pointee: Box::new(p), mutable: true }, Type::Ptr { pointee: Box::new(p), mutable: false }),
        !compatible(Type::Ptr { pointee: Box::new(p), mutable: false }, Type::Ptr { pointee: Box::new(p), mutable: true }),
        compatible(Type::Slice { element: Box::new(p), mutable: true }, Type::Slice { element: Box::new(p), mutable: false }),
        !compatible(Type::Slice { element: Box::new(p), mutable: false }, Type::Slice { element: Box::new(p), mutable: true }),
        b is Ptr ==> compatible(Type::Null, b) && compatible(b, Type::Null),
        !(a is Ptr && b is Ptr) && !(a is Slice && b is Slice) && !(a == Type::Null && b is Ptr) && !(a is Ptr
            && b == Type::Null) ==> (compatible(a, b) <==> a == b),
        compatible(a, b) && compatible(b, a) ==> a == b || (a == Type::Null && b is Ptr) || (b == Type::Null
            && a is Ptr),
{
}

/// Compatible in either direction.
pub open spec fn coercible(a: Type, b: Type) -> bool {
    compatible(a, b) || compatible(b, a)
}

pub open spec fn castable(t: Type) -> bool {
    is_integer_type(t) || is_float_type(t) || t == Type::Char
}

pub open spec fn printable(t: Type) -> bool {
    is_integer_type(t) || is_float_type(t) || t == Type::Bool || t == Type::Char || t
        == Type::String
}

fn types_compatible(actual: &Type, expected: &Type) -> (r: bool)
    ensures
        r == compatible(*actual, *expected),
{
    if actual.same(expected) {
        return true;
    }
    match (actual, expected) {
        (Type::Null, Type::Ptr { .. }) => true,
        (Type::Ptr { .. }, Type::Null) => true,
        (Type::Ptr { pointee: a, mutable: ma }, Type::Ptr { pointee: e, mutable: me }) => *ma
            && !*me && a.same(e),
        (Type::Slice { element: a, mutable: ma }, Type::Slice { element: e, mutable: me }) => *ma
            && !*me && a.same(e),
        _ => false,
    }
}

/// Tolerates a one-level `const` difference in either direction.
fn types_coercible(left: &Type, right: &Type) -> (r: bool)
    ensures
        r == coercible(*left, *right),
{
    types_compatible(left, right) || types_compatible(right, left)
}

fn is_castable(ty: &Type) -> (r: bool)
    ensures
        r == castable(*ty),
{
    ty.is_integer() || ty.is_float() || matches!(ty, Type::Char)
}

fn is_printable(ty: &Type) -> (r: bool)
    ensures
        r == printable(*ty),
{
    ty.is_integer() || ty.is_float() || matches!(ty, Type::Bool | Type::Char | Type::String)
}

fn by_value_type_id(ty: &Type) -> (r: Option<usize>)
    ensures
        r == by_value_id(*ty),
{
    match ty {
        Type::Struct(id) | Type::Enum(id) => Some(id.0),
        _ => None,
    }
}

// ---------------------------------------------------------------------------
// Type references.
// ---------------------------------------------------------------------------

pub open spec fn count_unvisited(visited: Seq<bool>) -> nat
    decreases visited.len(),
{
    if visited.len() == 0 {
        0
    } else {
        count_unvisited(visited.drop_last()) + if visited.last() {
            0nat
        } else {
            1nat
        }
    }
}

proof fn lemma_count_unvisited_mark(visited: Seq<bool>, i: int)
    requires
        0 <= i < visited.len(),
        !visited[i],
    ensures
        count_unvisited(visited.update(i, true)) + 1 == count_unvisited(visited),
    decreases visited.len(),
{
    let u = visited.update(i, true);
    if i < visited.len() - 1 {
        lemma_count_unvisited_mark(visited.drop_last(), i);
        assert(u.drop_last() =~= visited.drop_last().update(i, true));
    } else {
        assert(u.drop_last() =~= visited.drop_last());
    }
}

proof fn lemma_count_unvisited_mono(a: Seq<bool>, b: Seq<bool>)
    requires
        a.len() == b.len(),
        forall|i: int| 0 <= i < a.len() && a[i] ==> b[i],
    ensures
        count_unvisited(b) <= count_unvisited(a),
    decreases a.len(),
{
    if a.len() > 0 {
        lemma_count_unvisited_mono(a.drop_last(), b.drop_last());
    }
}

/// Checks one type reference; the definitions it reaches by value are
/// checked once each, tracked by `visited`.
fn check_type(types: &Vec<TypeDef>, ty: &Type, visited: &mut Vec<bool>) -> (r: Result<(), VerifyError>)
    requires
        old(visited)@.len() == types@.len(),
    ensures
        final(visited)@.len() == types@.len(),
        forall|i: int| 0 <= i < types@.len() && old(visited)@[i] ==> final(visited)@[i],
        r is Ok ==> type_ok(*ty, types@),
        r is Err ==> !type_ok(*ty, types@) || !defs_ok(types@),
    decreases count_unvisited(old(visited)@), ty,
{
    match ty {
        Type::Array { length, .. } => {
            if *length == 0 {
                return Err(text_error("array length must be greater than zero"));
            }
            Ok(())
        },
        Type::Ptr { pointee, .. } => check_type(types, pointee, visited),
        Type::Slice { element, .. } => check_type(types, element, visited),
        Type::Struct(id) | Type::Enum(id) => {
            if id.0 >= types.len() {
                return Err(number_error("type reference #", id.0, " is out of range"));
            }
            let definition = &types[id.0];
            match (ty, definition) {
                (Type::Struct(_), TypeDef::Enum { .. }) => {
                    return Err(
                        number_error("type #", id.0, " is a struct reference but resolves to an enum"),
                    );
                },
                (Type::Enum(_), TypeDef::Struct { .. }) => {
                    return Err(
                        number_error("type #", id.0, " is an enum reference but resolves to a struct"),
                    );
                },
                _ => {},
            }
            if visited[id.0] {
                return Ok(());
            }
            let ghost before = visited@;
            visited.set(id.0, true);
            proof {
                lemma_count_unvisited_mark(before, id.0 as int);
            }
            let ghost entry = count_unvisited(old(visited)@);
            match definition {
                TypeDef::Struct { fields, .. } => {
                    let mut j: usize = 0;
                    while j < fields.len()
                        invariant
                            visited@.len() == types@.len(),
                            forall|i: int| 0 <= i < types@.len() && old(visited)@[i] ==> visited@[i],
                            count_unvisited(visited@) < entry,
                            entry == count_unvisited(old(visited)@),
                            id.0 < types@.len(),
                            types@[id.0 as int] is Struct,
                            types@[id.0 as int]->Struct_fields == *fields,
                            j <= fields.len(),
                        decreases fields.len() - j,
                    {
                        let ghost prior = visited@;
                        let result = check_type(types, &fields[j].ty, visited);
                        proof {
                            lemma_count_unvisited_mono(prior, visited@);
                        }
                        if result.is_err() {
                            proof {
                                if !type_ok(fields@[j as int].ty, types@) {
                                    assert(!def_ok(types@[id.0 as int], types@));
                                }
                                assert(!defs_ok(types@));
                            }
                            return result;
                        }
                        j = j + 1;
                    }
                },
                TypeDef::Enum { variants } => {
                    let mut v: usize = 0;
                    while v < variants.len()
                        invariant
                            visited@.len() == types@.len(),
                            forall|i: int| 0 <= i < types@.len() && old(visited)@[i] ==> visited@[i],
                            count_unvisited(visited@) < entry,
                            entry == count_unvisited(old(visited)@),
                            id.0 < types@.len(),
                            types@[id.0 as int] == (TypeDef::Enum { variants: *variants }),
                            v <= variants.len(),
                        decreases variants.len() - v,
                    {
                        let fields = &variants[v].fields;
                        let mut j: usize = 0;
                        while j < fields.len()
                            invariant
                                visited@.len() == types@.len(),
                                forall|i: int|
                                    0 <= i < types@.len() && old(visited)@[i] ==> visited@[i],
                                count_unvisited(visited@) < entry,
                                entry == count_unvisited(old(visited)@),
                                id.0 < types@.len(),
                                types@[id.0 as int] == (TypeDef::Enum { variants: *variants }),
                                v < variants.len(),
                                *fields == variants@[v as int].fields,
                                j <= fields.len(),
                            decreases fields.len() - j,
                        {
                            let ghost prior = visited@;
                            let result = check_type(types, &fields[j], visited);
                            proof {
                                lemma_count_unvisited_mono(prior, visited@);
                            }
                            if result.is_err() {
                                proof {
                                    if !type_ok(fields@[j as int], types@) {
                                        let d = types@[id.0 as int];
                                        assert(!type_ok(d->variants@[v as int].fields@[j as int], types@));
                                        assert(!def_ok(d, types@));
                                    }
                                    assert(!defs_ok(types@));
                                }
                                return result;
                            }
                            j = j + 1;
                        }
                        v = v + 1;
                    }
                },
            }
            Ok(())
        },
        _ => Ok(()),
    }
}

/// Every field type of every definition is well formed.
fn check_types(types: &Vec<TypeDef>) -> (r: Result<(), VerifyError>)
    ensures
        r is Ok <==> defs_ok(types@),
{
    let mut visited: Vec<bool> = Vec::new();
    let mut k: usize = 0;
    while k < types.len()
        invariant
            k <= types.len(),
            visited@.len() == k,
        decreases types.len() - k,
    {
        visited.push(false);
        k = k + 1;
    }
    let mut index: usize = 0;
    while index < types.len()
        invariant
            index <= types.len(),
            visited@.len() == types@.len(),
            forall|i: int| 0 <= i < index ==> def_ok(#[trigger] types@[i], types@),
        decreases types.len() - index,
    {
        match &types[index] {
            TypeDef::Struct { fields, .. } => {
                let mut j: usize = 0;
                while j < fields.len()
                    invariant
                        visited@.len() == types@.len(),
                        index < types@.len(),
                        types@[index as int] is Struct,
                        types@[index as int]->Struct_fields == *fields,
                        j <= fields.len(),
                        forall|q: int| 0 <= q < j ==> type_ok(#[trigger] fields@[q].ty, types@),
                    decreases fields.len() - j,
                {
                    let result = check_type(types, &fields[j].ty, &mut visited);
                    if let Err(error) = result {
                        proof {
                            if !type_ok(fields@[j as int].ty, types@) {
                                assert(!def_ok(types@[index as int], types@));
                            }
                            assert(!defs_ok(types@));
                        }
                        return Err(prefixed("type #", index, ": ", error));
                    }
                    j = j + 1;
                }
            },
            TypeDef::Enum { variants } => {
                let mut v: usize = 0;
                while v < variants.len()
                    invariant
                        visited@.len() == types@.len(),
                        index < types@.len(),
                        types@[index as int] == (TypeDef::Enum { variants: *variants }),
                        v <= variants.len(),
                        forall|w: int, q: int|
                            0 <= w < v && 0 <= q < variants@[w].fields@.len() ==> type_ok(
                                #[trigger] variants@[w].fields@[q],
                                types@,
                            ),
                    decreases variants.len() - v,
                {
                    let fields = &variants[v].fields;
                    let mut j: usize = 0;
                    while j < fields.len()
                        invariant
                            visited@.len() == types@.len(),
                            index < types@.len(),
                            types@[index as int] == (TypeDef::Enum { variants: *variants }),
                            v < variants.len(),
                            *fields == variants@[v as int].fields,
                            j <= fields.len(),
                            forall|w: int, q: int|
                                0 <= w < v && 0 <= q < variants@[w].fields@.len() ==> type_ok(
                                    #[trigger] variants@[w].fields@[q],
                                    types@,
                                ),
                            forall|q: int| 0 <= q < j ==> type_ok(#[trigger] fields@[q], types@),
                        decreases fields.len() - j,
                    {
                        let result = check_type(types, &fields[j], &mut visited);
                        if let Err(error) = result {
                            proof {
                                if !type_ok(fields@[j as int], types@) {
                                    let d = types@[index as int];
                                    assert(!type_ok(d->variants@[v as int].fields@[j as int], types@));
                                    assert(!def_ok(d, types@));
                                }
                                assert(!defs_ok(types@));
                            }
                            return Err(prefixed("type #", index, ": ", error));
                        }
                        j = j + 1;
                    }
                    v = v + 1;
                }
            },
        }
        index = index + 1;
    }
    Ok(())
}

// ---------------------------------------------------------------------------
// By-value cycles.
// ---------------------------------------------------------------------------

/// Definition `a` holds definition `b` by value in one of its fields.
pub open spec fn edge(types: Seq<TypeDef>, a: usize, b: usize) -> bool {
    a < types.len() && match types[a as int] {
        TypeDef::Struct { fields, .. } => exists|j: int|
            0 <= j < fields@.len() && by_value_id(#[trigger] fields@[j].ty) == Some(b),
        TypeDef::Enum { variants } => exists|v: int, j: int|
            0 <= v < variants@.len() && 0 <= j < variants@[v].fields@.len() && by_value_id(
                #[trigger] variants@[v].fields@[j],
            ) == Some(b),
    }
}

proof fn lemma_edge_rank(types: Seq<TypeDef>, rank: Seq<nat>, a: usize, b: usize)
    requires
        ranked_by(types, rank),
        edge(types, a, b),
    ensures
        b < types.len(),
        rank[b as int] < rank[a as int],
{
    assert(def_below(types[a as int], types.len(), rank, rank[a as int]));
    match types[a as int] {
        TypeDef::Struct { fields, .. } => {
            let j = choose|j: int| 0 <= j < fields@.len() && by_value_id(#[trigger] fields@[j].ty) == Some(b);
            assert(ref_below(fields@[j].ty, types.len(), rank, rank[a as int]));
        },
        TypeDef::Enum { variants } => {
            let (v, j) = choose|v: int, j: int|
                0 <= v < variants@.len() && 0 <= j < variants@[v].fields@.len() && by_value_id(
                    #[trigger] variants@[v].fields@[j],
                ) == Some(b);
            assert(ref_below(variants@[v].fields@[j], types.len(), rank, rank[a as int]));
        },
    }
}

/// Search state: grey definitions are exactly the ones on the current path,
/// black definitions only hold black definitions of lower rank.
pub open spec fn search_ok(
    types: Seq<TypeDef>,
    color: Seq<u8>,
    stack: Seq<usize>,
    rank: Seq<nat>,
    next: nat,
) -> bool {
    &&& color.len() == types.len()
    &&& rank.len() == types.len()
    &&& forall|i: int| 0 <= i < color.len() ==> #[trigger] color[i] <= 2
    &&& forall|i: usize| i < color.len() ==> (#[trigger] color[i as int] == 1 <==> stack.contains(i))
    &&& forall|k: int| 0 <= k < stack.len() ==> #[trigger] stack[k] < types.len()
    &&& forall|k: int| 0 <= k < stack.len() - 1 ==> edge(types, #[trigger] stack[k], stack[k + 1])
    &&& forall|i: usize, b: usize|
        i < color.len() && color[i as int] == 2 && #[trigger] edge(types, i, b) ==> b
            < types.len() && color[b as int] == 2 && rank[b as int] < rank[i as int]
    &&& forall|i: int| 0 <= i < color.len() && #[trigger] color[i] == 2 ==> rank[i] < next
}

pub open spec fn count_white(color: Seq<u8>) -> nat
    decreases color.len(),
{
    if color.len() == 0 {
        0
    } else {
        count_white(color.drop_last()) + if color.last() == 0 {
            1nat
        } else {
            0nat
        }
    }
}

proof fn lemma_count_white_mark(color: Seq<u8>, i: int, c: u8)
    requires
        0 <= i < color.len(),
        color[i] == 0,
        c != 0,
    ensures
        count_white(color.update(i, c)) + 1 == count_white(color),
    decreases color.len(),
{
    let u = color.update(i, c);
    if i < color.len() - 1 {
        lemma_count_white_mark(color.drop_last(), i, c);
        assert(u.drop_last() =~= color.drop_last().update(i, c));
    } else {
        assert(u.drop_last() =~= color.drop_last());
    }
}

proof fn lemma_count_white_mono(a: Seq<u8>, b: Seq<u8>)
    requires
        a.len() == b.len(),
        forall|i: int| 0 <= i < a.len() ==> a[i] <= b[i],
    ensures
        count_white(b) <= count_white(a),
    decreases a.len(),
{
    if a.len() > 0 {
        lemma_count_white_mono(a.drop_last(), b.drop_last());
    }
}

/// A grey definition reached again closes a cycle, so no ranking exists.
proof fn lemma_cycle(types: Seq<TypeDef>, stack: Seq<usize>, index: usize)
    requires
        stack.len() > 0,
        stack.contains(index),
        forall|k: int| 0 <= k < stack.len() - 1 ==> edge(types, #[trigger] stack[k], stack[k + 1]),
        edge(types, stack.last(), index),
    ensures
        !acyclic(types),
{
    if acyclic(types) {
        let rank = choose|rank: Seq<nat>| ranked_by(types, rank);
        let k = choose|k: int| 0 <= k < stack.len() && stack[k] == index;
        lemma_path_ranks(types, rank, stack, k, stack.len() - 1);
        lemma_edge_rank(types, rank, stack.last(), index);
    }
}

proof fn lemma_path_ranks(types: Seq<TypeDef>, rank: Seq<nat>, stack: Seq<usize>, k: int, m: int)
    requires
        ranked_by(types, rank),
        0 <= k <= m < stack.len(),
        forall|q: int| 0 <= q < stack.len() - 1 ==> edge(types, #[trigger] stack[q], stack[q + 1]),
    ensures
        rank[stack[m] as int] <= rank[stack[k] as int],
    decreases m - k,
{
    if m > k {
        lemma_path_ranks(types, rank, stack, k, m - 1);
        lemma_edge_rank(types, rank, stack[m - 1], stack[m]);
    }
}

proof fn lemma_push_keeps(s: Seq<usize>, x: usize)
    ensures
        forall|y: usize| s.contains(y) ==> #[trigger] s.push(x).contains(y),
        s.push(x).contains(x),
{
    assert forall|y: usize| s.contains(y) implies #[trigger] s.push(x).contains(y) by {
        let k = choose|k: int| 0 <= k < s.len() && s[k] == y;
        assert(s.push(x)[k] == y);
    }
    assert(s.push(x)[s.len() as int] == x);
}

/// The definitions held by value in the fields of definition `index`.
fn by_value_dependencies(types: &Vec<TypeDef>, index: usize) -> (r: Vec<usize>)
    requires
        index < types@.len(),
    ensures
        forall|q: int| 0 <= q < r@.len() ==> edge(types@, index, #[trigger] r@[q]),
        forall|b: usize| #[trigger] edge(types@, index, b) ==> r@.contains(b),
{
    let mut dependencies: Vec<usize> = Vec::new();
    match &types[index] {
        TypeDef::Struct { fields, .. } => {
            let mut j: usize = 0;
            while j < fields.len()
                invariant
                    index < types@.len(),
                    types@[index as int] is Struct,
                    types@[index as int]->Struct_fields == *fields,
                    j <= fields.len(),
                    forall|q: int| 0 <= q < dependencies@.len() ==> edge(types@, index, #[trigger] dependencies@[q]),
                    forall|q: int|
                        0 <= q < j && by_value_id(#[trigger] fields@[q].ty) is Some ==> dependencies@.contains(
                            by_value_id(fields@[q].ty)->0,
                        ),
                decreases fields.len() - j,
            {
                let ghost prior = dependencies@;
                if let Some(id) = by_value_type_id(&fields[j].ty) {
                    dependencies.push(id);
                    proof {
                        assert(by_value_id(fields@[j as int].ty) == Some(id));
                        assert(dependencies@[dependencies@.len() - 1] == id);
                        lemma_push_keeps(prior, id);
                    }
                }
                j = j + 1;
            }
            proof {
                assert forall|b: usize| #[trigger] edge(types@, index, b) implies dependencies@.contains(b) by {
                    let q = choose|q: int| 0 <= q < fields@.len() && by_value_id(#[trigger] fields@[q].ty) == Some(b);
                }
            }
        },
        TypeDef::Enum { variants } => {
            let mut v: usize = 0;
            while v < variants.len()
                invariant
                    index < types@.len(),
                    types@[index as int] == (TypeDef::Enum { variants: *variants }),
                    v <= variants.len(),
                    forall|q: int| 0 <= q < dependencies@.len() ==> edge(types@, index, #[trigger] dependencies@[q]),
                    forall|w: int, q: int|
                        0 <= w < v && 0 <= q < variants@[w].fields@.len() && by_value_id(
                            #[trigger] variants@[w].fields@[q],
                        ) is Some ==> dependencies@.contains(by_value_id(variants@[w].fields@[q])->0),
                decreases variants.len() - v,
            {
                let fields = &variants[v].fields;
                let mut j: usize = 0;
                while j < fields.len()
                    invariant
                        index < types@.len(),
                        types@[index as int] == (TypeDef::Enum { variants: *variants }),
                        v < variants.len(),
                        *fields == variants@[v as int].fields,
                        j <= fields.len(),
                        forall|q: int| 0 <= q < dependencies@.len() ==> edge(types@, index, #[trigger] dependencies@[q]),
                        forall|w: int, q: int|
                            0 <= w < v && 0 <= q < variants@[w].fields@.len() && by_value_id(
                                #[trigger] variants@[w].fields@[q],
                            ) is Some ==> dependencies@.contains(by_value_id(variants@[w].fields@[q])->0),
                        forall|q: int|
                            0 <= q < j && by_value_id(#[trigger] fields@[q]) is Some ==> dependencies@.contains(
                                by_value_id(fields@[q])->0,
                            ),
                    decreases fields.len() - j,
                {
                    let ghost prior = dependencies@;
                    if let Some(id) = by_value_type_id(&fields[j]) {
                        dependencies.push(id);
                        proof {
                            let d = types@[index as int];
                            assert(by_value_id(d->variants@[v as int].fields@[j as int]) == Some(id));
                            assert(dependencies@[dependencies@.len() - 1] == id);
                            lemma_push_keeps(prior, id);
                        }
                    }
                    j = j + 1;
                }
                proof {
                    assert forall|w: int, q: int|
                        0 <= w < v + 1 && 0 <= q < variants@[w].fields@.len() && by_value_id(
                            #[trigger] variants@[w].fields@[q],
                        ) is Some implies dependencies@.contains(by_value_id(variants@[w].fields@[q])->0) by {
                        if w == v {
                            assert(fields@[q] == variants@[w].fields@[q]);
                        }
                    }
                }
                v = v + 1;
            }
            proof {
                assert forall|b: usize| #[trigger] edge(types@, index, b) implies dependencies@.contains(b) by {
                    let (w, q) = choose|w: int, q: int|
                        0 <= w < variants@.len() && 0 <= q < variants@[w].fields@.len() && by_value_id(
                            #[trigger] variants@[w].fields@[q],
                        ) == Some(b);
                }
            }
        },
    }
    dependencies
}

/// Each definition of `path` holds the next one by value.
pub open spec fn edge_path(types: Seq<TypeDef>, path: Seq<usize>) -> bool {
    forall|q: int| 0 <= q < path.len() - 1 ==> edge(types, #[trigger] path[q], path[q + 1])
}

/// Definition `k` holds itself by value, through one or more definitions.
pub open spec fn on_cycle(types: Seq<TypeDef>, k: usize) -> bool {
    exists|path: Seq<usize>|
        #![trigger edge_path(types, path)]
        edge_path(types, path) && path.len() >= 2 && path[0] == k && path.last() == k
}

/// The message for a definition that contains itself by value.
pub open spec fn self_containment_text(k: nat) -> Seq<char> {
    "type #"@ + decimal(k) + " contains itself by value"@
}

fn visit_type(
    types: &Vec<TypeDef>,
    index: usize,
    color: &mut Vec<u8>,
    Ghost(stack): Ghost<Seq<usize>>,
    rank: &mut Ghost<Seq<nat>>,
    next: &mut Ghost<nat>,
) -> (r: Result<(), VerifyError>)
    requires
        defs_ok(types@),
        index < types@.len(),
        search_ok(types@, old(color)@, stack, old(rank)@, old(next)@),
        stack.len() > 0 ==> edge(types@, stack.last(), index),
    ensures
        r is Ok ==> search_ok(types@, final(color)@, stack, final(rank)@, final(next)@),
        r is Ok ==> final(color)@[index as int] == 2,
        r is Ok ==> final(color)@.len() == old(color)@.len(),
        r is Ok ==> forall|i: int| 0 <= i < old(color)@.len() ==> old(color)@[i] <= final(color)@[i],
        r is Err ==> !acyclic(types@),
        r matches Err(e) ==> exists|k: usize|
            k < types@.len() && on_cycle(types@, k) && e@ == self_containment_text(k as nat),
    decreases count_white(old(color)@),
{
    let c = color[index];
    if c == 2 {
        return Ok(());
    }
    if c == 1 {
        proof {
            assert(stack.contains(index));
            lemma_cycle(types@, stack, index);
            let p = choose|p: int| 0 <= p < stack.len() && stack[p] == index;
            let cycle = stack.subrange(p, stack.len() as int).push(index);
            assert forall|q: int| 0 <= q < cycle.len() - 1 implies edge(types@, #[trigger] cycle[q], cycle[q + 1]) by {
                if q < cycle.len() - 2 {
                    assert(cycle[q] == stack[p + q] && cycle[q + 1] == stack[p + q + 1]);
                } else {
                    assert(cycle[q] == stack.last());
                }
            }
            assert(edge_path(types@, cycle));
            assert(cycle[0] == index);
            assert(on_cycle(types@, index));
        }
        let error = number_error("type #", index, " contains itself by value");
        assert(error@ == self_containment_text(index as nat));
        return Err(error);
    }
    let ghost entry = color@;
    color.set(index, 1);
    proof {
        lemma_count_white_mark(entry, index as int, 1);
    }
    let ghost path = stack.push(index);
    proof {
        assert(!stack.contains(index));
        assert forall|i: usize| i < color@.len() implies (#[trigger] color@[i as int] == 1 <==> path.contains(i)) by {
            if i == index {
                assert(path[path.len() - 1] == index);
            } else {
                if path.contains(i) {
                    let k = choose|k: int| 0 <= k < path.len() && path[k] == i;
                    assert(stack[k] == i);
                }
                if stack.contains(i) {
                    let k = choose|k: int| 0 <= k < stack.len() && stack[k] == i;
                    assert(path[k] == i);
                }
            }
        }
        assert forall|k: int| 0 <= k < path.len() - 1 implies edge(types@, #[trigger] path[k], path[k + 1]) by {
            if k < stack.len() - 1 {
                assert(path[k] == stack[k] && path[k + 1] == stack[k + 1]);
            }
        }
    }
    let dependencies = by_value_dependencies(types, index);
    proof {
        assert forall|q: int| 0 <= q < dependencies@.len() implies #[trigger] dependencies@[q] < types@.len() by {
            lemma_edge_in_range(types@, index, dependencies@[q]);
        }
    }
    let mut i: usize = 0;
    while i < dependencies.len()
        invariant
            defs_ok(types@),
            index < types@.len(),
            search_ok(types@, color@, path, rank@, next@),
            color@[index as int] == 1,
            color@.len() == entry.len(),
            forall|q: int| 0 <= q < entry.len() ==> entry[q] <= color@[q],
            count_white(color@) < count_white(entry),
            entry == old(color)@,
            path.last() == index,
            i <= dependencies.len(),
            forall|q: int| 0 <= q < dependencies@.len() ==> edge(types@, index, #[trigger] dependencies@[q]),
            forall|b: usize| #[trigger] edge(types@, index, b) ==> dependencies@.contains(b),
            forall|q: int| 0 <= q < i ==> color@[#[trigger] dependencies@[q] as int] == 2,
            forall|q: int| 0 <= q < dependencies@.len() ==> #[trigger] dependencies@[q] < types@.len(),
        decreases dependencies.len() - i,
    {
        let ghost before = color@;
        let dependency = dependencies[i];
        proof {
            assert(edge(types@, index, dependency));
            lemma_edge_in_range(types@, index, dependency);
        }
        let result = visit_type(types, dependency, color, Ghost(path), rank, next);
        if result.is_err() {
            return result;
        }
        proof {
            lemma_count_white_mono(before, color@);
            assert forall|q: int| 0 <= q < i + 1 implies color@[#[trigger] dependencies@[q] as int] == 2 by {
                let d = dependencies@[q];
                assert(d < types@.len());
                if q < i {
                    assert(before[d as int] == 2);
                    assert(before[d as int] <= color@[d as int]);
                    assert(color@[d as int] <= 2);
                }
            }
        }
        i = i + 1;
    }
    let ghost grey = color@;
    color.set(index, 2);
    proof {
        let old_rank = rank@;
        let n = next@;
        assert forall|q: int| 0 <= q < grey.len() && grey[q] == 2 implies old_rank[q] < n by {
            assert(grey[q] == 2);
        }
    }
    *rank = Ghost(rank@.update(index as int, next@));
    *next = Ghost(next@ + 1);
    proof {
        let rk = rank@;
        assert forall|i: usize| i < color@.len() implies (#[trigger] color@[i as int] == 1 <==> stack.contains(i)) by {
            if i != index {
                assert(color@[i as int] == grey[i as int]);
                if path.contains(i) {
                    let k = choose|k: int| 0 <= k < path.len() && path[k] == i;
                    assert(k < stack.len());
                    assert(stack[k] == i);
                }
                if stack.contains(i) {
                    let k = choose|k: int| 0 <= k < stack.len() && stack[k] == i;
                    assert(path[k] == i);
                }
            }
        }
        assert forall|a: usize, b: usize|
            a < color@.len() && color@[a as int] == 2 && #[trigger] edge(types@, a, b) implies b
                < types@.len() && color@[b as int] == 2 && rk[b as int] < rk[a as int] by {
            if a == index {
                assert(dependencies@.contains(b));
                let q = choose|q: int| 0 <= q < dependencies@.len() && dependencies@[q] == b;
                assert(grey[b as int] == 2);
                lemma_edge_in_range(types@, index, b);
            } else {
                assert(grey[a as int] == 2);
            }
        }
        assert forall|q: int| 0 <= q < color@.len() && #[trigger] color@[q] == 2 implies rk[q] < next@ by {
            if q != index {
                assert(grey[q] == 2);
            }
        }
        assert forall|k: int| 0 <= k < stack.len() - 1 implies edge(types@, #[trigger] stack[k], stack[k + 1]) by {
            assert(path[k] == stack[k] && path[k + 1] == stack[k + 1]);
        }
    }
    Ok(())
}

proof fn lemma_edge_in_range(types: Seq<TypeDef>, a: usize, b: usize)
    requires
        defs_ok(types),
        edge(types, a, b),
    ensures
        b < types.len(),
{
    assert(def_ok(types[a as int], types));
    match types[a as int] {
        TypeDef::Struct { fields, .. } => {
            let j = choose|j: int| 0 <= j < fields@.len() && by_value_id(#[trigger] fields@[j].ty) == Some(b);
            assert(type_ok(fields@[j].ty, types));
        },
        TypeDef::Enum { variants } => {
            let (v, j) = choose|v: int, j: int|
                0 <= v < variants@.len() && 0 <= j < variants@[v].fields@.len() && by_value_id(
                    #[trigger] variants@[v].fields@[j],
                ) == Some(b);
            assert(type_ok(variants@[v].fields@[j], types));
        },
    }
}

/// No definition contains itself by value; recursion through pointers is allowed.
fn check_type_cycles(types: &Vec<TypeDef>) -> (r: Result<(), VerifyError>)
    requires
        defs_ok(types@),
    ensures
        r is Ok <==> acyclic(types@),
        r matches Err(e) ==> exists|k: usize|
            k < types@.len() && on_cycle(types@, k) && e@ == self_containment_text(k as nat),
{
    let mut color: Vec<u8> = Vec::new();
    let mut k: usize = 0;
    while k < types.len()
        invariant
            k <= types.len(),
            color@.len() == k,
            forall|q: int| 0 <= q < k ==> color@[q] == 0,
        decreases types.len() - k,
    {
        color.push(0);
        k = k + 1;
    }
    let mut rank: Ghost<Seq<nat>> = Ghost(Seq::new(types@.len(), |q: int| 0nat));
    let mut next: Ghost<nat> = Ghost(0nat);
    let ghost empty: Seq<usize> = Seq::empty();
    proof {
        assert forall|i: usize| i < color@.len() implies (#[trigger] color@[i as int] == 1 <==> empty.contains(i)) by {}
    }
    let mut index: usize = 0;
    while index < types.len()
        invariant
            defs_ok(types@),
            index <= types.len(),
            empty == Seq::<usize>::empty(),
            search_ok(types@, color@, empty, rank@, next@),
            forall|q: int| 0 <= q < index ==> color@[q] == 2,
        decreases types.len() - index,
    {
        let ghost before = color@;
        let result = visit_type(types, index, &mut color, Ghost(empty), &mut rank, &mut next);
        if let Err(error) = result {
            return Err(error);
        }
        index = index + 1;
    }
    proof {
        let rk = rank@;
        assert forall|i: int| 0 <= i < types@.len() implies def_below(
            #[trigger] types@[i],
            types@.len(),
            rk,
            rk[i],
        ) by {
            assert(color@[i] == 2);
            match types@[i] {
                TypeDef::Struct { fields, .. } => {
                    assert forall|j: int| 0 <= j < fields@.len() implies ref_below(
                        #[trigger] fields@[j].ty,
                        types@.len(),
                        rk,
                        rk[i],
                    ) by {
                        if let Some(b) = by_value_id(fields@[j].ty) {
                            assert(edge(types@, i as usize, b));
                        }
                    }
                },
                TypeDef::Enum { variants } => {
                    assert forall|v: int, j: int|
                        0 <= v < variants@.len() && 0 <= j < variants@[v].fields@.len() implies ref_below(
                        #[trigger] variants@[v].fields@[j],
                        types@.len(),
                        rk,
                        rk[i],
                    ) by {
                        if let Some(b) = by_value_id(variants@[v].fields@[j]) {
                            assert(edge(types@, i as usize, b));
                        }
                    }
                },
            }
        }
        assert(ranked_by(types@, rk));
    }
    Ok(())
}

// ---------------------------------------------------------------------------
// Expression and place rules.
// ---------------------------------------------------------------------------

/// Field `field` of definition `id` exists (the definition being a struct).
pub open spec fn has_field(types: Seq<TypeDef>, id: TypeId, field: usize) -> bool {
    id.0 < types.len() && types[id.0 as int] is Struct && field < types[id.0 as int]->Struct_fields@.len()
}

pub open spec fn field_ty(types: Seq<TypeDef>, id: TypeId, field: usize) -> Type {
    types[id.0 as int]->Struct_fields@[field as int].ty
}

/// Definition `id` is an enum.
pub open spec fn is_enum_def(types: Seq<TypeDef>, id: TypeId) -> bool {
    id.0 < types.len() && types[id.0 as int] is Enum
}

pub open spec fn variants_of(types: Seq<TypeDef>, id: TypeId) -> Seq<crate::ir::EnumVariant> {
    types[id.0 as int]->variants@
}

pub open spec fn binary_ok(op: BinaryOperator, left: Type, right: Type, result: Type) -> bool {
    match op {
        BinaryOperator::And | BinaryOperator::Or => left == Type::Bool && right == Type::Bool
            && result == Type::Bool,
        BinaryOperator::Equal | BinaryOperator::NotEqual => (compatible(left, right) || compatible(
            right,
            left,
        )) && result == Type::Bool,
        BinaryOperator::Less | BinaryOperator::LessEqual | BinaryOperator::Greater
        | BinaryOperator::GreaterEqual => left == right && result == Type::Bool,
        _ => left == right && result == left,
    }
}

/// The element type a `mem.view` of `pointer` produces, given the expected result type.
pub open spec fn view_pointee(pointer: Type, result: Type) -> Option<Type> {
    match pointer {
        Type::Ptr { pointee, .. } => Some(*pointee),
        Type::Null => match result {
            Type::Slice { element, .. } => Some(*element),
            _ => None,
        },
        _ => None,
    }
}

pub open spec fn is_u8_slice(t: Type) -> bool {
    match t {
        Type::Slice { element, .. } => *element == Type::U8,
        _ => false,
    }
}

/// The pattern of a match arm binds locals of exactly the variant's field types.
pub open spec fn pattern_ok(types: Seq<TypeDef>, f: Function, id: TypeId, pattern: MatchPattern) -> bool {
    match pattern {
        MatchPattern::Variant { variant, bindings } => {
            &&& variant < variants_of(types, id).len()
            &&& bindings@.len() == variants_of(types, id)[variant as int].fields@.len()
            &&& forall|k: int|
                0 <= k < bindings@.len() ==> (#[trigger] bindings@[k]).0 < f.locals@.len()
                    && f.locals@[bindings@[k].0 as int] == variants_of(
                    types,
                    id,
                )[variant as int].fields@[k]
        },
        MatchPattern::Wildcard => true,
    }
}

/// `e` is well typed inside function `f` of program `p`.
pub open spec fn expr_ok(p: Program, f: Function, e: Expr) -> bool
    decreases e,
{
    let types = p.types@;
    let t = e.ty;
    match e.kind {
        ExprKind::Integer(_) => is_integer_type(t),
        ExprKind::Float(_) => is_float_type(t),
        ExprKind::Char(_) => t == Type::Char,
        ExprKind::Bool(_) => t == Type::Bool,
        ExprKind::String(_) => t == Type::String,
        ExprKind::StringLength(value) => expr_ok(p, f, *value) && value.ty == Type::String && t
            == Type::Usize,
        ExprKind::Array(elements) => match t {
            Type::Array { element, length } => elements@.len() == length && forall|i: int|
                0 <= i < elements@.len() ==> expr_ok(p, f, #[trigger] elements@[i])
                    && compatible(elements@[i].ty, scalar_as_type(element)),
            _ => false,
        },
        ExprKind::RepeatArray { value, length } => expr_ok(p, f, *value) && match t {
            Type::Array { element, length: declared } => length == declared && compatible(
                value.ty,
                scalar_as_type(element),
            ),
            _ => false,
        },
        ExprKind::Index { array, index } => expr_ok(p, f, *array) && expr_ok(p, f, *index)
            && match array.ty {
            Type::Array { element, .. } => index.ty == Type::I32 && coercible(
                t,
                scalar_as_type(element),
            ),
            Type::Slice { element, .. } => index.ty == Type::Usize && coercible(t, *element),
            _ => false,
        },
        ExprKind::Local(local) => local.0 < f.locals@.len() && coercible(t, f.locals@[local.0 as int]),
        ExprKind::Call { function: callee, arguments } => {
            &&& callee.0 < p.functions@.len()
            &&& arguments@.len() == p.functions@[callee.0 as int].parameters@.len()
            &&& forall|i: int|
                0 <= i < arguments@.len() ==> expr_ok(p, f, #[trigger] arguments@[i]) && {
                    let target = p.functions@[callee.0 as int];
                    let parameter = target.parameters@[i];
                    parameter.0 < target.locals@.len() && coercible(
                        arguments@[i].ty,
                        target.locals@[parameter.0 as int],
                    )
                }
            &&& coercible(t, p.functions@[callee.0 as int].return_type)
        },
        ExprKind::Unary { operator, operand } => expr_ok(p, f, *operand) && match operator {
            UnaryOperator::Negate => (is_integer_type(operand.ty) || is_float_type(operand.ty))
                && t == operand.ty,
            UnaryOperator::Not => operand.ty == Type::Bool && t == Type::Bool,
        },
        ExprKind::Binary { operator, left, right } => expr_ok(p, f, *left) && expr_ok(p, f, *right)
            && binary_ok(operator, left.ty, right.ty, t),
        ExprKind::Cast { value, to } => expr_ok(p, f, *value) && t == to && castable(value.ty)
            && castable(to),
        ExprKind::StructInit { fields } => match t {
            Type::Struct(id) => {
                &&& id.0 < types.len()
                &&& types[id.0 as int] is Struct
                &&& fields@.len() == types[id.0 as int]->Struct_fields@.len()
                &&& forall|i: int|
                    0 <= i < fields@.len() ==> expr_ok(p, f, #[trigger] fields@[i]) && coercible(
                        fields@[i].ty,
                        types[id.0 as int]->Struct_fields@[i].ty,
                    )
            },
            _ => false,
        },
        ExprKind::EnumInit { variant, arguments } => match t {
            Type::Enum(id) => {
                &&& is_enum_def(types, id)
                &&& variant < variants_of(types, id).len()
                &&& arguments@.len() == variants_of(types, id)[variant as int].fields@.len()
                &&& forall|i: int|
                    0 <= i < arguments@.len() ==> expr_ok(p, f, #[trigger] arguments@[i])
                        && coercible(
                        arguments@[i].ty,
                        variants_of(types, id)[variant as int].fields@[i],
                    )
            },
            _ => false,
        },
        ExprKind::Field { base, field } => expr_ok(p, f, *base) && match base.ty {
            Type::Struct(id) => has_field(types, id, field) && coercible(t, field_ty(types, id, field)),
            _ => false,
        },
        ExprKind::AddressOf { place } => place_ok(p, f, *place) && coercible(
            t,
            Type::Ptr { pointee: Box::new(place.ty), mutable: place.mutable },
        ),
        ExprKind::Deref { pointer } => expr_ok(p, f, *pointer) && match pointer.ty {
            Type::Ptr { pointee, .. } => coercible(t, *pointee),
            _ => false,
        },
        ExprKind::Null => t == Type::Null || t is Ptr,
        ExprKind::SlicePtr { base } => expr_ok(p, f, *base) && match base.ty {
            Type::Slice { element, mutable } => coercible(t, Type::Ptr { pointee: element, mutable }),
            Type::String => coercible(t, Type::Ptr { pointee: Box::new(Type::U8), mutable: false }),
            _ => false,
        },
        ExprKind::SliceLen { base } => expr_ok(p, f, *base) && (base.ty is Slice || base.ty
            == Type::String) && t == Type::Usize,
        ExprKind::SliceRange { base, start, end } => {
            &&& expr_ok(p, f, *base)
            &&& expr_ok(p, f, *start)
            &&& expr_ok(p, f, *end)
            &&& base.ty is Slice
            &&& start.ty == Type::Usize
            &&& end.ty == Type::Usize
            &&& coercible(t, base.ty)
        },
        ExprKind::MemAlloc { element, count } => type_ok(element, types) && expr_ok(p, f, *count)
            && count.ty == Type::Usize && t == Type::Slice {
            element: Box::new(element),
            mutable: true,
        },
        ExprKind::MemFree { element, buffer } => type_ok(element, types) && expr_ok(p, f, *buffer)
            && buffer.ty is Slice && t == Type::Unit,
        ExprKind::MemCreate { element, value } => type_ok(element, types) && expr_ok(p, f, *value)
            && coercible(value.ty, element) && t == Type::Ptr {
            pointee: Box::new(element),
            mutable: true,
        },
        ExprKind::MemDestroy { element, pointer } => type_ok(element, types) && expr_ok(
            p,
            f,
            *pointer,
        ) && pointer.ty is Ptr && t == Type::Unit,
        ExprKind::MemCopy { element, dst, src } => {
            &&& type_ok(element, types)
            &&& expr_ok(p, f, *dst)
            &&& expr_ok(p, f, *src)
            &&& dst.ty is Slice
            &&& src.ty is Slice
            &&& t == Type::Unit
        },
        ExprKind::MemIsValidUtf8 { bytes } => expr_ok(p, f, *bytes) && is_u8_slice(bytes.ty) && t
            == Type::Bool,
        ExprKind::MemView { pointer, len } => {
            &&& expr_ok(p, f, *pointer)
            &&& expr_ok(p, f, *len)
            &&& view_pointee(pointer.ty, t) is Some
            &&& len.ty == Type::Usize
            &&& match t {
                Type::Slice { element, .. } => *element == view_pointee(pointer.ty, t)->0,
                _ => false,
            }
        },
        ExprKind::MemCast { pointer } => expr_ok(p, f, *pointer) && (pointer.ty is Ptr
            || pointer.ty == Type::Null) && (t is Ptr || t == Type::Null),
        ExprKind::StringBytes { base } => expr_ok(p, f, *base) && base.ty == Type::String && t
            == Type::Slice { element: Box::new(Type::U8), mutable: false },
        ExprKind::StringFromBytes { bytes } => expr_ok(p, f, *bytes) && is_u8_slice(bytes.ty) && t
            == Type::String,
        ExprKind::Match { value, arms } => expr_ok(p, f, *value) && match value.ty {
            Type::Enum(id) => is_enum_def(types, id) && forall|a: int|
                0 <= a < arms@.len() ==> pattern_ok(types, f, id, (#[trigger] arms@[a]).pattern)
                    && expr_ok(p, f, arms@[a].body) && coercible(arms@[a].body.ty, t),
            _ => false,
        },
        ExprKind::EnumIsVariant { value, variant } => expr_ok(p, f, *value) && match value.ty {
            Type::Enum(id) => is_enum_def(types, id) && variant < variants_of(types, id).len() && t
                == Type::Bool,
            _ => false,
        },
        ExprKind::EnumPayload { value, variant, field } => expr_ok(p, f, *value) && match value.ty {
            Type::Enum(id) => {
                &&& is_enum_def(types, id)
                &&& variant < variants_of(types, id).len()
                &&& field < variants_of(types, id)[variant as int].fields@.len()
                &&& t == variants_of(types, id)[variant as int].fields@[field as int]
            },
            _ => false,
        },
    }
}

/// `place` is a well-typed location inside function `f` of program `p`.
pub open spec fn place_ok(p: Program, f: Function, place: Place) -> bool
    decreases place,
{
    let types = p.types@;
    match place.kind {
        PlaceKind::Local(local) => local.0 < f.locals@.len() && place.ty == f.locals@[local.0 as int],
        PlaceKind::Field { base, field } => place_ok(p, f, *base) && match base.ty {
            Type::Struct(id) => has_field(types, id, field) && place.ty == field_ty(types, id, field),
            _ => false,
        },
        PlaceKind::Index { base, index } => place_ok(p, f, *base) && expr_ok(p, f, *index)
            && match base.ty {
            Type::Array { element, .. } => index.ty == Type::I32 && place.ty == scalar_as_type(
                element,
            ),
            Type::Slice { element, .. } => index.ty == Type::Usize && place.ty == *element,
            _ => false,
        },
        PlaceKind::Deref { pointer } => expr_ok(p, f, *pointer) && match pointer.ty {
            Type::Ptr { pointee, .. } => place.ty == *pointee,
            _ => false,
        },
    }
}

// ---------------------------------------------------------------------------
// Expression and place checks.
// ---------------------------------------------------------------------------

fn check_local(function: &Function, local: LocalId) -> (r: Result<(), VerifyError>)
    ensures
        r is Ok <==> local.0 < function.locals@.len(),
{
    if local.0 >= function.locals.len() {
        return Err(number_error("local reference #", local.0, " is out of range"));
    }
    Ok(())
}

fn check_block_id(function: &Function, block: BlockId) -> (r: Result<(), VerifyError>)
    ensures
        r is Ok <==> block.0 < function.blocks@.len(),
{
    if block.0 >= function.blocks.len() {
        return Err(number_error("block target #", block.0, " is out of range"));
    }
    Ok(())
}

fn field_type(program: &Program, id: TypeId, field: usize) -> (r: Result<Type, VerifyError>)
    ensures
        r is Ok <==> has_field(program.types@, id, field),
        r matches Ok(t) ==> t == field_ty(program.types@, id, field),
{
    if id.0 >= program.types.len() {
        return Err(number_error("type reference #", id.0, " is out of range"));
    }
    match &program.types[id.0] {
        TypeDef::Struct { fields, .. } => {
            if field < fields.len() {
                Ok(fields[field].ty.duplicate())
            } else {
                let mut m = String::new();
                push_str(&mut m, "type #");
                push_decimal(&mut m, id.0 as u64);
                push_str(&mut m, " has no field #");
                push_decimal(&mut m, field as u64);
                Err(VerifyError::new(m))
            }
        },
        _ => Err(number_error("type #", id.0, " is not a struct")),
    }
}

fn enum_variants<'a>(program: &'a Program, id: TypeId) -> (r: Result<&'a Vec<crate::ir::EnumVariant>, VerifyError>)
    ensures
        r is Ok <==> is_enum_def(program.types@, id),
        r matches Ok(v) ==> v@ == variants_of(program.types@, id),
{
    if id.0 >= program.types.len() {
        return Err(number_error("type reference #", id.0, " is out of range"));
    }
    match &program.types[id.0] {
        TypeDef::Enum { variants } => Ok(variants),
        _ => Err(number_error("type #", id.0, " is not an enum")),
    }
}

/// The message for an enum initializer or test that names a variant the enum
/// does not declare.
pub open spec fn no_variant_text(id: TypeId, variant: nat) -> Seq<char> {
    "enum #"@ + decimal(id.0 as nat) + " has no variant #"@ + decimal(variant)
}

/// The message for a call with the wrong number of arguments.
pub open spec fn arity_text(callee: Seq<char>, expected: nat, given: nat) -> Seq<char> {
    "call to `"@ + callee + "` expects "@ + decimal(expected) + " arguments but "@ + decimal(given)
        + " were provided"@
}

fn no_variant(id: TypeId, variant: usize) -> (r: VerifyError)
    ensures
        r@ == no_variant_text(id, variant as nat),
{
    let mut m = String::new();
    push_str(&mut m, "enum #");
    push_decimal(&mut m, id.0 as u64);
    push_str(&mut m, " has no variant #");
    push_decimal(&mut m, variant as u64);
    VerifyError::new(m)
}

fn check_binary(
    expression: &Expr,
    operator: BinaryOperator,
    left: &Expr,
    right: &Expr,
) -> (r: Result<(), VerifyError>)
    ensures
        r is Ok <==> binary_ok(operator, left.ty, right.ty, expression.ty),
{
    match operator {
        BinaryOperator::And | BinaryOperator::Or => {
            if !matches!(left.ty, Type::Bool) || !matches!(right.ty, Type::Bool) || !matches!(
                expression.ty,
                Type::Bool
            ) {
                return Err(text_error("logical operators require `bool` operands"));
            }
        },
        BinaryOperator::Equal | BinaryOperator::NotEqual => {
            if !types_compatible(&left.ty, &right.ty) && !types_compatible(&right.ty, &left.ty) {
                return Err(two_type_error("cannot compare `", &left.ty, "` with `", &right.ty, "`"));
            }
            if !matches!(expression.ty, Type::Bool) {
                return Err(text_error("comparison result must be `bool`"));
            }
        },
        BinaryOperator::Less | BinaryOperator::LessEqual | BinaryOperator::Greater
        | BinaryOperator::GreaterEqual => {
            if !left.ty.same(&right.ty) {
                return Err(
                    two_type_error("comparison operands have types `", &left.ty, "` and `", &right.ty, "`"),
                );
            }
            if !matches!(expression.ty, Type::Bool) {
                return Err(text_error("comparison result must be `bool`"));
            }
        },
        _ => {
            if !left.ty.same(&right.ty) || !expression.ty.same(&left.ty) {
                let mut m = String::new();
                push_str(&mut m, "arithmetic operands have types `");
                left.ty.render_into(&mut m);
                push_str(&mut m, "`, `");
                right.ty.render_into(&mut m);
                push_str(&mut m, "` and result `");
                expression.ty.render_into(&mut m);
                push_str(&mut m, "`");
                return Err(VerifyError::new(m));
            }
        },
    }
    Ok(())
}

fn check_type_alone(program: &Program, ty: &Type) -> (r: Result<(), VerifyError>)
    requires
        defs_ok(program.types@),
    ensures
        r is Ok <==> type_ok(*ty, program.types@),
{
    let mut visited: Vec<bool> = Vec::new();
    let mut k: usize = 0;
    while k < program.types.len()
        invariant
            k <= program.types.len(),
            visited@.len() == k,
        decreases program.types.len() - k,
    {
        visited.push(false);
        k = k + 1;
    }
    check_type(&program.types, ty, &mut visited)
}

fn is_u8_slice_type(ty: &Type) -> (r: bool)
    ensures
        r == is_u8_slice(*ty),
{
    match ty {
        Type::Slice { element, .. } => matches!(**element, Type::U8),
        _ => false,
    }
}

fn check_expr(program: &Program, function: &Function, expression: &Expr) -> (r: Result<(), VerifyError>)
    requires
        defs_ok(program.types@),
    ensures
        r is Ok <==> expr_ok(*program, *function, *expression),
        expr_head_fault(*program, *expression) matches Some(t) ==> (r matches Err(e) && e@ == t),
    decreases expression,
{
    let ty = &expression.ty;
    match &expression.kind {
        ExprKind::Integer(_) => {
            if !ty.is_integer() {
                return Err(type_error("integer literal has type `", ty, "`"));
            }
        },
        ExprKind::Float(_) => {
            if !ty.is_float() {
                return Err(type_error("float literal has type `", ty, "`"));
            }
        },
        ExprKind::Char(_) => {
            if !matches!(ty, Type::Char) {
                return Err(type_error("char literal has type `", ty, "`"));
            }
        },
        ExprKind::Bool(_) => {
            if !matches!(ty, Type::Bool) {
                return Err(type_error("bool literal has type `", ty, "`"));
            }
        },
        ExprKind::String(_) => {
            if !matches!(ty, Type::String) {
                return Err(type_error("string literal has type `", ty, "`"));
            }
        },
        ExprKind::StringLength(value) => {
            check_expr(program, function, value)?;
            if !matches!(value.ty, Type::String) || !matches!(ty, Type::Usize) {
                return Err(text_error("string length must produce `usize`"));
            }
        },
        ExprKind::Array(elements) => {
            let (element, length) = match ty {
                Type::Array { element, length } => (*element, *length),
                _ => {
                    return Err(type_error("array literal has type `", ty, "`"));
                },
            };
            if elements.len() != length {
                let mut m = String::new();
                push_str(&mut m, "array literal has ");
                push_decimal(&mut m, elements.len() as u64);
                push_str(&mut m, " elements but type has length ");
                push_decimal(&mut m, length as u64);
                return Err(VerifyError::new(m));
            }
            let expected = element.as_type();
            let mut i: usize = 0;
            while i < elements.len()
                invariant
                    defs_ok(program.types@),
                    expression.kind == ExprKind::Array(*elements),
                    expression.ty == (Type::Array { element, length }),
                    expected == scalar_as_type(element),
                    i <= elements.len(),
                    forall|j: int|
                        0 <= j < i ==> expr_ok(*program, *function, #[trigger] elements@[j])
                            && compatible(elements@[j].ty, expected),
                decreases elements.len() - i,
            {
                let item = &elements[i];
                proof {
                    assert(decreases_to!(*expression => expression.kind));
                    assert(decreases_to!(expression.kind => expression.kind->Array_0));
                    assert(decreases_to!(*elements => elements@));
                    assert(decreases_to!(elements@ => elements@[i as int]));
                    assert(decreases_to!(*elements => elements@[i as int]));
                }
                let result = check_expr(program, function, item);
                if result.is_err() {
                    proof {
                        assert(!expr_ok(*program, *function, elements@[i as int]));
                    }
                    return result;
                }
                if !types_compatible(&item.ty, &expected) {
                    proof {
                        assert(elements@[i as int] == *item);
                    }
                    return Err(
                        two_type_error("array element has type `", &item.ty, "` but element type is `", &expected, "`"),
                    );
                }
                i = i + 1;
            }
        },
        ExprKind::RepeatArray { value, length } => {
            check_expr(program, function, value)?;
            let (element, declared) = match ty {
                Type::Array { element, length } => (*element, *length),
                _ => {
                    return Err(type_error("repeat array has type `", ty, "`"));
                },
            };
            if *length != declared {
                let mut m = String::new();
                push_str(&mut m, "repeat array length ");
                push_decimal(&mut m, *length as u64);
                push_str(&mut m, " does not match type length ");
                push_decimal(&mut m, declared as u64);
                return Err(VerifyError::new(m));
            }
            let expected = element.as_type();
            if !types_compatible(&value.ty, &expected) {
                return Err(
                    two_type_error("repeat array element has type `", &value.ty, "` but element type is `", &expected, "`"),
                );
            }
        },
        ExprKind::Index { array, index } => {
            check_expr(program, function, array)?;
            check_expr(program, function, index)?;
            let expected = match &array.ty {
                Type::Array { element, .. } => {
                    if !matches!(index.ty, Type::I32) {
                        return Err(type_error("array index has type `", &index.ty, "`, expected `i32`"));
                    }
                    element.as_type()
                },
                Type::Slice { element, .. } => {
                    if !matches!(index.ty, Type::Usize) {
                        return Err(type_error("slice index has type `", &index.ty, "`, expected `usize`"));
                    }
                    element.duplicate()
                },
                other => {
                    return Err(type_error("cannot index value of type `", other, "`"));
                },
            };
            if !types_coercible(ty, &expected) {
                return Err(
                    two_type_error("index expression has type `", ty, "` but element type is `", &expected, "`"),
                );
            }
        },
        ExprKind::Local(local) => {
            check_local(function, *local)?;
            if !types_coercible(ty, &function.locals[local.0]) {
                let mut m = String::new();
                push_str(&mut m, "local #");
                push_decimal(&mut m, local.0 as u64);
                push_str(&mut m, " has type `");
                function.locals[local.0].render_into(&mut m);
                push_str(&mut m, "` but expression type is `");
                ty.render_into(&mut m);
                push_str(&mut m, "`");
                return Err(VerifyError::new(m));
            }
        },
        ExprKind::Call { function: callee, arguments } => {
            if callee.0 >= program.functions.len() {
                return Err(number_error("call to unknown function #", callee.0, ""));
            }
            let target = &program.functions[callee.0];
            if arguments.len() != target.parameters.len() {
                let mut m = String::new();
                push_str(&mut m, "call to `");
                push_str(&mut m, target.name.as_str());
                push_str(&mut m, "` expects ");
                push_decimal(&mut m, target.parameters.len() as u64);
                push_str(&mut m, " arguments but ");
                push_decimal(&mut m, arguments.len() as u64);
                push_str(&mut m, " were provided");
                return Err(VerifyError::new(m));
            }
            let mut i: usize = 0;
            while i < arguments.len()
                invariant
                    defs_ok(program.types@),
                    expression.kind == (ExprKind::Call { function: *callee, arguments: *arguments }),
                    callee.0 < program.functions@.len(),
                    *target == program.functions@[callee.0 as int],
                    arguments@.len() == target.parameters@.len(),
                    i <= arguments.len(),
                    forall|j: int|
                        0 <= j < i ==> expr_ok(*program, *function, #[trigger] arguments@[j]) && {
                            let parameter = target.parameters@[j];
                            parameter.0 < target.locals@.len() && coercible(
                                arguments@[j].ty,
                                target.locals@[parameter.0 as int],
                            )
                        },
                decreases arguments.len() - i,
            {
                let argument = &arguments[i];
                proof {
                    assert(decreases_to!(*expression => expression.kind));
                    assert(decreases_to!(expression.kind => expression.kind->Call_arguments));
                    assert(decreases_to!(*arguments => arguments@));
                    assert(decreases_to!(arguments@ => arguments@[i as int]));
                    assert(decreases_to!(*arguments => arguments@[i as int]));
                }
                let result = check_expr(program, function, argument);
                if result.is_err() {
                    proof {
                        assert(!expr_ok(*program, *function, arguments@[i as int]));
                    }
                    return result;
                }
                let parameter = target.parameters[i];
                if parameter.0 >= target.locals.len() {
                    return Err(number_error("parameter local #", parameter.0, " is out of range"));
                }
                let expected = &target.locals[parameter.0];
                if !types_coercible(&argument.ty, expected) {
                    let mut m = String::new();
                    push_str(&mut m, "argument has type `");
                    argument.ty.render_into(&mut m);
                    push_str(&mut m, "` but `");
                    push_str(&mut m, target.name.as_str());
                    push_str(&mut m, "` expects `");
                    expected.render_into(&mut m);
                    push_str(&mut m, "`");
                    return Err(VerifyError::new(m));
                }
                i = i + 1;
            }
            if !types_coercible(ty, &target.return_type) {
                let mut m = String::new();
                push_str(&mut m, "call result has type `");
                ty.render_into(&mut m);
                push_str(&mut m, "` but `");
                push_str(&mut m, target.name.as_str());
                push_str(&mut m, "` returns `");
                target.return_type.render_into(&mut m);
                push_str(&mut m, "`");
                return Err(VerifyError::new(m));
            }
        },
        ExprKind::Unary { operator, operand } => {
            check_expr(program, function, operand)?;
            match operator {
                UnaryOperator::Negate => {
                    if !operand.ty.is_integer() && !operand.ty.is_float() {
                        return Err(type_error("cannot negate value of type `", &operand.ty, "`"));
                    }
                    if !ty.same(&operand.ty) {
                        return Err(
                            two_type_error("negation type `", ty, "` does not match operand `", &operand.ty, "`"),
                        );
                    }
                },
                UnaryOperator::Not => {
                    if !matches!(operand.ty, Type::Bool) || !matches!(ty, Type::Bool) {
                        return Err(text_error("logical not requires `bool`"));
                    }
                },
            }
        },
        ExprKind::Binary { operator, left, right } => {
            check_expr(program, function, left)?;
            check_expr(program, function, right)?;
            check_binary(expression, *operator, left, right)?;
        },
        ExprKind::Cast { value, to } => {
            check_expr(program, function, value)?;
            if !ty.same(to) {
                return Err(two_type_error("cast result has type `", ty, "` but target is `", to, "`"));
            }
            if !is_castable(&value.ty) || !is_castable(to) {
                return Err(two_type_error("cannot cast `", &value.ty, "` to `", to, "`"));
            }
        },
        ExprKind::StructInit { fields } => {
            let id = match ty {
                Type::Struct(id) => *id,
                _ => {
                    return Err(type_error("struct initializer has type `", ty, "`"));
                },
            };
            if id.0 >= program.types.len() {
                return Err(number_error("type reference #", id.0, " is out of range"));
            }
            let declared = match &program.types[id.0] {
                TypeDef::Struct { fields, .. } => fields,
                _ => {
                    return Err(number_error("type #", id.0, " is not a struct"));
                },
            };
            if fields.len() != declared.len() {
                let mut m = String::new();
                push_str(&mut m, "struct initializer has ");
                push_decimal(&mut m, fields.len() as u64);
                push_str(&mut m, " fields but type has ");
                push_decimal(&mut m, declared.len() as u64);
                return Err(VerifyError::new(m));
            }
            let mut i: usize = 0;
            while i < fields.len()
                invariant
                    defs_ok(program.types@),
                    expression.kind == (ExprKind::StructInit { fields: *fields }),
                    expression.ty == Type::Struct(id),
                    id.0 < program.types@.len(),
                    program.types@[id.0 as int] is Struct,
                    *declared == program.types@[id.0 as int]->Struct_fields,
                    fields@.len() == declared@.len(),
                    i <= fields.len(),
                    forall|j: int|
                        0 <= j < i ==> expr_ok(*program, *function, #[trigger] fields@[j]) && coercible(
                            fields@[j].ty,
                            declared@[j].ty,
                        ),
                decreases fields.len() - i,
            {
                let value = &fields[i];
                proof {
                    assert(decreases_to!(*expression => expression.kind));
                    assert(decreases_to!(expression.kind => expression.kind->StructInit_fields));
                    assert(decreases_to!(*fields => fields@));
                    assert(decreases_to!(fields@ => fields@[i as int]));
                    assert(decreases_to!(*fields => fields@[i as int]));
                }
                let result = check_expr(program, function, value);
                if result.is_err() {
                    proof {
                        assert(!expr_ok(*program, *function, fields@[i as int]));
                    }
                    return result;
                }
                let field = &declared[i];
                if !types_coercible(&value.ty, &field.ty) {
                    proof {
                        assert(fields@[i as int] == *value);
                        assert(!coercible(fields@[i as int].ty, declared@[i as int].ty));
                    }
                    let mut m = String::new();
                    push_str(&mut m, "field `");
                    push_str(&mut m, field.name.as_str());
                    push_str(&mut m, "` expects `");
                    field.ty.render_into(&mut m);
                    push_str(&mut m, "` but value has type `");
                    value.ty.render_into(&mut m);
                    push_str(&mut m, "`");
                    return Err(VerifyError::new(m));
                }
                i = i + 1;
            }
        },
        ExprKind::EnumInit { variant, arguments } => {
            let id = match ty {
                Type::Enum(id) => *id,
                _ => {
                    return Err(type_error("enum initializer has type `", ty, "`"));
                },
            };
            let variants = enum_variants(program, id)?;
            if *variant >= variants.len() {
                return Err(no_variant(id, *variant));
            }
            let declared = &variants[*variant];
            if arguments.len() != declared.fields.len() {
                let mut m = String::new();
                push_str(&mut m, "variant `");
                push_str(&mut m, declared.name.as_str());
                push_str(&mut m, "` expects ");
                push_decimal(&mut m, declared.fields.len() as u64);
                push_str(&mut m, " arguments but ");
                push_decimal(&mut m, arguments.len() as u64);
                push_str(&mut m, " were provided");
                return Err(VerifyError::new(m));
            }
            let mut i: usize = 0;
            while i < arguments.len()
                invariant
                    defs_ok(program.types@),
                    expression.kind == (ExprKind::EnumInit { variant: *variant, arguments: *arguments }),
                    expression.ty == Type::Enum(id),
                    is_enum_def(program.types@, id),
                    *variant < variants_of(program.types@, id).len(),
                    *declared == variants_of(program.types@, id)[*variant as int],
                    arguments@.len() == declared.fields@.len(),
                    i <= arguments.len(),
                    forall|j: int|
                        0 <= j < i ==> expr_ok(*program, *function, #[trigger] arguments@[j])
                            && coercible(arguments@[j].ty, declared.fields@[j]),
                decreases arguments.len() - i,
            {
                let value = &arguments[i];
                proof {
                    assert(decreases_to!(*expression => expression.kind));
                    assert(decreases_to!(expression.kind => expression.kind->EnumInit_arguments));
                    assert(decreases_to!(*arguments => arguments@));
                    assert(decreases_to!(arguments@ => arguments@[i as int]));
                    assert(decreases_to!(*arguments => arguments@[i as int]));
                }
                let result = check_expr(program, function, value);
                if result.is_err() {
                    proof {
                        assert(!expr_ok(*program, *function, arguments@[i as int]));
                    }
                    return result;
                }
                let field = &declared.fields[i];
                if !types_coercible(&value.ty, field) {
                    proof {
                        assert(arguments@[i as int] == *value);
                        assert(!coercible(arguments@[i as int].ty, declared.fields@[i as int]));
                    }
                    let mut m = String::new();
                    push_str(&mut m, "variant `");
                    push_str(&mut m, declared.name.as_str());
                    push_str(&mut m, "` field expects `");
                    field.render_into(&mut m);
                    push_str(&mut m, "` but value has type `");
                    value.ty.render_into(&mut m);
                    push_str(&mut m, "`");
                    return Err(VerifyError::new(m));
                }
                i = i + 1;
            }
        },
        ExprKind::Field { base, field } => {
            check_expr(program, function, base)?;
            let id = match &base.ty {
                Type::Struct(id) => *id,
                _ => {
                    return Err(type_error("cannot access field on value of type `", &base.ty, "`"));
                },
            };
            let field_type = field_type(program, id, *field)?;
            if !types_coercible(ty, &field_type) {
                let mut m = String::new();
                push_str(&mut m, "field #");
                push_decimal(&mut m, *field as u64);
                push_str(&mut m, " has type `");
                field_type.render_into(&mut m);
                push_str(&mut m, "` but expression type is `");
                ty.render_into(&mut m);
                push_str(&mut m, "`");
                return Err(VerifyError::new(m));
            }
        },
        ExprKind::AddressOf { place } => {
            check_place(program, function, place)?;
            let expected = Type::Ptr { pointee: Box::new(place.ty.duplicate()), mutable: place.mutable };
            if !types_coercible(ty, &expected) {
                return Err(two_type_error("address-of has type `", ty, "` but expected `", &expected, "`"));
            }
        },
        ExprKind::Deref { pointer } => {
            check_expr(program, function, pointer)?;
            match &pointer.ty {
                Type::Ptr { pointee, .. } => {
                    if !types_coercible(ty, pointee) {
                        return Err(two_type_error("deref has type `", ty, "` but pointee is `", pointee, "`"));
                    }
                },
                _ => {
                    return Err(type_error("cannot dereference value of type `", &pointer.ty, "`"));
                },
            }
        },
        ExprKind::Null => {
            if !matches!(ty, Type::Null) && !ty.is_pointer() {
                return Err(type_error("null literal has type `", ty, "`"));
            }
        },
        ExprKind::SlicePtr { base } => {
            check_expr(program, function, base)?;
            let expected = match &base.ty {
                Type::Slice { element, mutable } => Type::Ptr {
                    pointee: Box::new(element.duplicate()),
                    mutable: *mutable,
                },
                Type::String => Type::Ptr { pointee: Box::new(Type::U8), mutable: false },
                other => {
                    return Err(type_error("cannot take `.ptr` of value of type `", other, "`"));
                },
            };
            if !types_coercible(ty, &expected) {
                return Err(two_type_error("slice pointer has type `", ty, "` but expected `", &expected, "`"));
            }
        },
        ExprKind::SliceLen { base } => {
            check_expr(program, function, base)?;
            if !matches!(base.ty, Type::Slice { .. } | Type::String) || !matches!(ty, Type::Usize) {
                return Err(text_error("slice length must produce `usize`"));
            }
        },
        ExprKind::SliceRange { base, start, end } => {
            check_expr(program, function, base)?;
            check_expr(program, function, start)?;
            check_expr(program, function, end)?;
            if !matches!(base.ty, Type::Slice { .. }) {
                return Err(type_error("cannot slice value of type `", &base.ty, "`"));
            }
            if !matches!(start.ty, Type::Usize) || !matches!(end.ty, Type::Usize) {
                return Err(text_error("slice range bounds must be `usize`"));
            }
            if !types_coercible(ty, &base.ty) {
                return Err(two_type_error("slice result has type `", ty, "` but base is `", &base.ty, "`"));
            }
        },
        ExprKind::MemAlloc { element, count } => {
            check_type_alone(program, element)?;
            check_expr(program, function, count)?;
            if !matches!(count.ty, Type::Usize) {
                return Err(text_error("allocation count must be `usize`"));
            }
            let expected = Type::Slice { element: Box::new(element.duplicate()), mutable: true };
            if !ty.same(&expected) {
                return Err(two_type_error("allocation has type `", ty, "` but expected `", &expected, "`"));
            }
        },
        ExprKind::MemFree { element, buffer } => {
            check_type_alone(program, element)?;
            check_expr(program, function, buffer)?;
            if !matches!(buffer.ty, Type::Slice { .. }) || !matches!(ty, Type::Unit) {
                return Err(text_error("free expects a slice and produces `Unit`"));
            }
        },
        ExprKind::MemCreate { element, value } => {
            check_type_alone(program, element)?;
            check_expr(program, function, value)?;
            if !types_coercible(&value.ty, element) {
                return Err(two_type_error("create value has type `", &value.ty, "` but element is `", element, "`"));
            }
            let expected = Type::Ptr { pointee: Box::new(element.duplicate()), mutable: true };
            if !ty.same(&expected) {
                return Err(two_type_error("create has type `", ty, "` but expected `", &expected, "`"));
            }
        },
        ExprKind::MemDestroy { element, pointer } => {
            check_type_alone(program, element)?;
            check_expr(program, function, pointer)?;
            if !pointer.ty.is_pointer() || !matches!(ty, Type::Unit) {
                return Err(text_error("destroy expects a pointer and produces `Unit`"));
            }
        },
        ExprKind::MemCopy { element, dst, src } => {
            check_type_alone(program, element)?;
            check_expr(program, function, dst)?;
            check_expr(program, function, src)?;
            if !matches!(dst.ty, Type::Slice { .. }) || !matches!(src.ty, Type::Slice { .. })
                || !matches!(ty, Type::Unit) {
                return Err(text_error("copy expects two slices and produces `Unit`"));
            }
        },
        ExprKind::MemIsValidUtf8 { bytes } => {
            check_expr(program, function, bytes)?;
            if !is_u8_slice_type(&bytes.ty) || !matches!(ty, Type::Bool) {
                return Err(text_error("is_valid_utf8 expects a `[]const u8` and produces `bool`"));
            }
        },
        ExprKind::MemView { pointer, len } => {
            check_expr(program, function, pointer)?;
            check_expr(program, function, len)?;
            let pointee = match &pointer.ty {
                Type::Ptr { pointee, .. } => pointee.duplicate(),
                Type::Null => match ty {
                    Type::Slice { element, .. } => element.duplicate(),
                    _ => {
                        return Err(type_error("view has type `", ty, "` with a null pointer"));
                    },
                },
                other => {
                    return Err(type_error("view expects a pointer, found `", other, "`"));
                },
            };
            if !matches!(len.ty, Type::Usize) {
                return Err(text_error("view length must be `usize`"));
            }
            let matches_element = match ty {
                Type::Slice { element, .. } => element.same(&pointee),
                _ => false,
            };
            if !matches_element {
                return Err(two_type_error("view has type `", ty, "` but element is `", &pointee, "`"));
            }
        },
        ExprKind::MemCast { pointer } => {
            check_expr(program, function, pointer)?;
            if !pointer.ty.is_pointer() && !matches!(pointer.ty, Type::Null) {
                return Err(type_error("cast_ptr expects a pointer, found `", &pointer.ty, "`"));
            }
            if !ty.is_pointer() && !matches!(ty, Type::Null) {
                return Err(type_error("cast_ptr result has type `", ty, "`"));
            }
        },
        ExprKind::StringBytes { base } => {
            check_expr(program, function, base)?;
            let expected = Type::Slice { element: Box::new(Type::U8), mutable: false };
            if !matches!(base.ty, Type::String) || !ty.same(&expected) {
                return Err(text_error("bytes() expects `string` and produces `[]const u8`"));
            }
        },
        ExprKind::StringFromBytes { bytes } => {
            check_expr(program, function, bytes)?;
            if !is_u8_slice_type(&bytes.ty) || !matches!(ty, Type::String) {
                return Err(text_error("string.from_bytes expects a `[]const u8` and produces `string`"));
            }
        },
        ExprKind::Match { value, arms } => {
            check_expr(program, function, value)?;
            let id = match &value.ty {
                Type::Enum(id) => *id,
                _ => {
                    return Err(type_error("match subject has type `", &value.ty, "`, not an enum"));
                },
            };
            let variants = enum_variants(program, id)?;
            let mut a: usize = 0;
            while a < arms.len()
                invariant
                    defs_ok(program.types@),
                    expression.kind == (ExprKind::Match { value: *value, arms: *arms }),
                    value.ty == Type::Enum(id),
                    *ty == expression.ty,
                    is_enum_def(program.types@, id),
                    variants@ == variants_of(program.types@, id),
                    a <= arms.len(),
                    forall|q: int|
                        0 <= q < a ==> pattern_ok(program.types@, *function, id, (#[trigger] arms@[q]).pattern)
                            && expr_ok(*program, *function, arms@[q].body) && coercible(arms@[q].body.ty, *ty),
                decreases arms.len() - a,
            {
                let arm = &arms[a];
                let result = check_pattern(program, function, id, variants, &arm.pattern);
                if result.is_err() {
                    proof {
                        assert(arms@[a as int] == *arm);
                        assert(!pattern_ok(program.types@, *function, id, arms@[a as int].pattern));
                    }
                    return result;
                }
                proof {
                    assert(decreases_to!(*expression => expression.kind));
                    assert(decreases_to!(expression.kind => expression.kind->Match_arms));
                    assert(decreases_to!(*arms => arms@));
                    assert(decreases_to!(arms@ => arms@[a as int]));
                    assert(decreases_to!(*arms => arms@[a as int]));
                    assert(decreases_to!(arms@[a as int] => arms@[a as int].body));
                }
                let result = check_expr(program, function, &arm.body);
                if result.is_err() {
                    proof {
                        assert(!expr_ok(*program, *function, arms@[a as int].body));
                    }
                    return result;
                }
                if !types_coercible(&arm.body.ty, ty) {
                    proof {
                        assert(arms@[a as int] == *arm);
                    }
                    return Err(
                        two_type_error("match arm has type `", &arm.body.ty, "` but match result is `", ty, "`"),
                    );
                }
                a = a + 1;
            }
        },
        ExprKind::EnumIsVariant { value, variant } => {
            check_expr(program, function, value)?;
            let id = match &value.ty {
                Type::Enum(id) => *id,
                _ => {
                    return Err(type_error("variant check subject has type `", &value.ty, "`"));
                },
            };
            let present = match enum_variants(program, id) {
                Ok(variants) => *variant < variants.len(),
                Err(error) => {
                    return Err(error);
                },
            };
            if !present || !matches!(ty, Type::Bool) {
                let mut m = String::new();
                push_str(&mut m, "enum #");
                push_decimal(&mut m, id.0 as u64);
                push_str(&mut m, " has no variant #");
                push_decimal(&mut m, *variant as u64);
                push_str(&mut m, " or result is not `bool`");
                return Err(VerifyError::new(m));
            }
        },
        ExprKind::EnumPayload { value, variant, field } => {
            check_expr(program, function, value)?;
            let id = match &value.ty {
                Type::Enum(id) => *id,
                _ => {
                    return Err(type_error("payload read subject has type `", &value.ty, "`"));
                },
            };
            let variants = enum_variants(program, id)?;
            if *variant >= variants.len() {
                return Err(no_variant(id, *variant));
            }
            let declared = &variants[*variant];
            if *field >= declared.fields.len() {
                let mut m = String::new();
                push_str(&mut m, "variant `");
                push_str(&mut m, declared.name.as_str());
                push_str(&mut m, "` has no field #");
                push_decimal(&mut m, *field as u64);
                return Err(VerifyError::new(m));
            }
            let field_type = &declared.fields[*field];
            if !ty.same(field_type) {
                return Err(two_type_error("payload has type `", ty, "` but field is `", field_type, "`"));
            }
        },
    }
    Ok(())
}

fn check_pattern(
    program: &Program,
    function: &Function,
    id: TypeId,
    variants: &Vec<crate::ir::EnumVariant>,
    pattern: &MatchPattern,
) -> (r: Result<(), VerifyError>)
    requires
        is_enum_def(program.types@, id),
        variants@ == variants_of(program.types@, id),
    ensures
        r is Ok <==> pattern_ok(program.types@, *function, id, *pattern),
{
    match pattern {
        MatchPattern::Variant { variant, bindings } => {
            if *variant >= variants.len() {
                return Err(no_variant(id, *variant));
            }
            let declared = &variants[*variant];
            if bindings.len() != declared.fields.len() {
                let mut m = String::new();
                push_str(&mut m, "variant `");
                push_str(&mut m, declared.name.as_str());
                push_str(&mut m, "` has ");
                push_decimal(&mut m, declared.fields.len() as u64);
                push_str(&mut m, " fields but ");
                push_decimal(&mut m, bindings.len() as u64);
                push_str(&mut m, " bindings were provided");
                return Err(VerifyError::new(m));
            }
            let mut k: usize = 0;
            while k < bindings.len()
                invariant
                    *pattern == (MatchPattern::Variant { variant: *variant, bindings: *bindings }),
                    *variant < variants@.len(),
                    *declared == variants@[*variant as int],
                    bindings@.len() == declared.fields@.len(),
                    variants@ == variants_of(program.types@, id),
                    k <= bindings.len(),
                    forall|q: int|
                        0 <= q < k ==> (#[trigger] bindings@[q]).0 < function.locals@.len()
                            && function.locals@[bindings@[q].0 as int] == declared.fields@[q],
                decreases bindings.len() - k,
            {
                let binding = bindings[k];
                check_local(function, binding)?;
                let field = &declared.fields[k];
                if !function.locals[binding.0].same(field) {
                    let mut m = String::new();
                    push_str(&mut m, "variant `");
                    push_str(&mut m, declared.name.as_str());
                    push_str(&mut m, "` binding has type `");
                    function.locals[binding.0].render_into(&mut m);
                    push_str(&mut m, "` but field is `");
                    field.render_into(&mut m);
                    push_str(&mut m, "`");
                    return Err(VerifyError::new(m));
                }
                k = k + 1;
            }
            Ok(())
        },
        MatchPattern::Wildcard => Ok(()),
    }
}

fn check_place(program: &Program, function: &Function, place: &Place) -> (r: Result<(), VerifyError>)
    requires
        defs_ok(program.types@),
    ensures
        r is Ok <==> place_ok(*program, *function, *place),
    decreases place,
{
    match &place.kind {
        PlaceKind::Local(local) => {
            check_local(function, *local)?;
            if !place.ty.same(&function.locals[local.0]) {
                let mut m = String::new();
                push_str(&mut m, "place local #");
                push_decimal(&mut m, local.0 as u64);
                push_str(&mut m, " has type `");
                function.locals[local.0].render_into(&mut m);
                push_str(&mut m, "` but place type is `");
                place.ty.render_into(&mut m);
                push_str(&mut m, "`");
                return Err(VerifyError::new(m));
            }
        },
        PlaceKind::Field { base, field } => {
            check_place(program, function, base)?;
            let id = match &base.ty {
                Type::Struct(id) => *id,
                _ => {
                    return Err(type_error("field place base has type `", &base.ty, "`, not a struct"));
                },
            };
            let field_type = field_type(program, id, *field)?;
            if !place.ty.same(&field_type) {
                return Err(
                    two_type_error("field place has type `", &place.ty, "` but field is `", &field_type, "`"),
                );
            }
        },
        PlaceKind::Index { base, index } => {
            check_place(program, function, base)?;
            check_expr(program, function, index)?;
            let expected = match &base.ty {
                Type::Array { element, .. } => {
                    if !matches!(index.ty, Type::I32) {
                        return Err(
                            type_error("array place index has type `", &index.ty, "`, expected `i32`"),
                        );
                    }
                    element.as_type()
                },
                Type::Slice { element, .. } => {
                    if !matches!(index.ty, Type::Usize) {
                        return Err(
                            type_error("slice place index has type `", &index.ty, "`, expected `usize`"),
                        );
                    }
                    element.duplicate()
                },
                other => {
                    return Err(type_error("index place base has type `", other, "`"));
                },
            };
            if !place.ty.same(&expected) {
                return Err(
                    two_type_error("index place has type `", &place.ty, "` but element is `", &expected, "`"),
                );
            }
        },
        PlaceKind::Deref { pointer } => {
            check_expr(program, function, pointer)?;
            match &pointer.ty {
                Type::Ptr { pointee, .. } => {
                    if !place.ty.same(pointee) {
                        return Err(
                            two_type_error("deref place has type `", &place.ty, "` but pointee is `", pointee, "`"),
                        );
                    }
                },
                _ => {
                    return Err(type_error("deref place pointer has type `", &pointer.ty, "`"));
                },
            }
        },
    }
    Ok(())
}

// ---------------------------------------------------------------------------
// Instructions, blocks, functions and programs.
// ---------------------------------------------------------------------------

pub open spec fn print_part_ok(p: Program, f: Function, part: PrintPart) -> bool {
    match part {
        PrintPart::Value(value) => expr_ok(p, f, value) && printable(value.ty),
        PrintPart::Text(_) => true,
    }
}

/// Every printed value is well typed and printable.
pub open spec fn parts_ok(p: Program, f: Function, parts: Seq<PrintPart>) -> bool {
    forall|i: int| 0 <= i < parts.len() ==> print_part_ok(p, f, #[trigger] parts[i])
}

pub open spec fn instruction_ok(p: Program, f: Function, instruction: Instruction) -> bool {
    match instruction {
        Instruction::SetLocal { local, value } => local.0 < f.locals@.len() && expr_ok(p, f, value)
            && coercible(value.ty, f.locals@[local.0 as int]),
        Instruction::SetFieldAt { place, field, value } => place_ok(p, f, *place) && match place.ty {
            Type::Struct(id) => expr_ok(p, f, value) && has_field(p.types@, id, field) && coercible(
                value.ty,
                field_ty(p.types@, id, field),
            ),
            _ => false,
        },
        Instruction::SetIndexAt { place, value } => place_ok(p, f, *place) && expr_ok(p, f, value)
            && coercible(value.ty, place.ty),
        Instruction::Evaluate(value) => expr_ok(p, f, value),
        Instruction::Print(parts) => parts_ok(p, f, parts@),
    }
}

pub open spec fn terminator_ok(p: Program, f: Function, terminator: Terminator) -> bool {
    match terminator {
        Terminator::Jump(target) => target.0 < f.blocks@.len(),
        Terminator::Branch { condition, then_block, else_block } => {
            &&& expr_ok(p, f, condition)
            &&& condition.ty == Type::Bool
            &&& then_block.0 < f.blocks@.len()
            &&& else_block.0 < f.blocks@.len()
        },
        Terminator::Return(Some(value)) => expr_ok(p, f, value) && coercible(value.ty, f.return_type),
        Terminator::Return(None) => f.return_type == Type::Unit,
    }
}

/// A source index names one of the program's sources.
pub open spec fn source_ok(p: Program, file: u32) -> bool {
    file < p.sources@.len()
}

pub open spec fn block_ok(p: Program, f: Function, block: BasicBlock) -> bool {
    &&& block.instructions@.len() == block.locations@.len()
    &&& source_ok(p, block.location.file)
    &&& source_ok(p, block.terminator_location.file)
    &&& forall|i: int| 0 <= i < block.locations@.len() ==> source_ok(p, (#[trigger] block.locations@[i]).file)
    &&& forall|i: int|
        0 <= i < block.instructions@.len() ==> instruction_ok(p, f, #[trigger] block.instructions@[i])
    &&& terminator_ok(p, f, block.terminator)
}

pub open spec fn function_ok(p: Program, f: Function) -> bool {
    &&& if f.external_link_name is Some {
        f.blocks@.len() == 0
    } else {
        f.blocks@.len() > 0 && f.entry.0 < f.blocks@.len()
    }
    &&& source_ok(p, f.location.file)
    &&& source_ok(p, f.source)
    &&& type_ok(f.return_type, p.types@)
    &&& forall|i: int| 0 <= i < f.locals@.len() ==> type_ok(#[trigger] f.locals@[i], p.types@)
    &&& forall|i: int| 0 <= i < f.parameters@.len() ==> (#[trigger] f.parameters@[i]).0 < f.locals@.len()
    &&& forall|i: int| 0 <= i < f.blocks@.len() ==> block_ok(p, f, #[trigger] f.blocks@[i])
}

/// The message an expression's own head gives, for a call with the wrong
/// number of arguments or an enum initializer naming a missing variant.
pub open spec fn expr_head_fault(p: Program, e: Expr) -> Option<Seq<char>> {
    match e.kind {
        ExprKind::Call { function: callee, arguments } => if callee.0 < p.functions@.len()
            && arguments@.len() != p.functions@[callee.0 as int].parameters@.len() {
            Some(
                arity_text(
                    p.functions@[callee.0 as int].name@,
                    p.functions@[callee.0 as int].parameters@.len(),
                    arguments@.len(),
                ),
            )
        } else {
            None
        },
        ExprKind::EnumInit { variant, .. } => match e.ty {
            Type::Enum(id) => if is_enum_def(p.types@, id) && variant >= variants_of(p.types@, id).len() {
                Some(no_variant_text(id, variant as nat))
            } else {
                None
            },
            _ => None,
        },
        _ => None,
    }
}

/// `k` is the first instruction of `block` that is not well formed.
pub open spec fn first_bad_instruction(p: Program, f: Function, block: BasicBlock, k: int) -> bool {
    &&& 0 <= k < block.instructions@.len()
    &&& !instruction_ok(p, f, block.instructions@[k])
    &&& forall|j: int| 0 <= j < k ==> instruction_ok(p, f, #[trigger] block.instructions@[j])
}

/// The message of block `index` when its first fault is an evaluated
/// expression with a faulty head, or a branch on a condition that is not a
/// `bool` (all earlier parts being well formed).
pub open spec fn block_fault_text(p: Program, f: Function, index: nat, block: BasicBlock) -> Option<Seq<char>> {
    if block.instructions@.len() == block.locations@.len() && source_ok(p, block.location.file)
        && source_ok(p, block.terminator_location.file) && (forall|i: int|
        0 <= i < block.locations@.len() ==> source_ok(p, (#[trigger] block.locations@[i]).file)) {
        if exists|k: int| first_bad_instruction(p, f, block, k) {
            let k = choose|k: int| first_bad_instruction(p, f, block, k);
            match block.instructions@[k] {
                Instruction::Evaluate(value) => expr_head_fault(p, value),
                _ => None,
            }
        } else {
            match block.terminator {
                Terminator::Branch { condition, .. } => if expr_ok(p, f, condition) && condition.ty
                    != Type::Bool {
                    Some("block #"@ + decimal(index) + ": "@ + branch_condition_text(condition.ty))
                } else {
                    None
                },
                _ => None,
            }
        }
    } else {
        None
    }
}

/// Everything of `f` but its blocks is well formed.
pub open spec fn function_head_ok(p: Program, f: Function) -> bool {
    &&& if f.external_link_name is Some {
        f.blocks@.len() == 0
    } else {
        f.blocks@.len() > 0 && f.entry.0 < f.blocks@.len()
    }
    &&& source_ok(p, f.location.file)
    &&& source_ok(p, f.source)
    &&& type_ok(f.return_type, p.types@)
    &&& forall|i: int| 0 <= i < f.locals@.len() ==> type_ok(#[trigger] f.locals@[i], p.types@)
    &&& forall|i: int| 0 <= i < f.parameters@.len() ==> (#[trigger] f.parameters@[i]).0 < f.locals@.len()
}

/// `b` is the first block of `f` that is not well formed.
pub open spec fn first_bad_block(p: Program, f: Function, b: int) -> bool {
    &&& 0 <= b < f.blocks@.len()
    &&& !block_ok(p, f, f.blocks@[b])
    &&& forall|j: int| 0 <= j < b ==> block_ok(p, f, #[trigger] f.blocks@[j])
}

/// The message of function `f` when its first faulty block has a message
/// under `block_fault_text`: the block's message after the function's name.
pub open spec fn function_fault_text(p: Program, f: Function) -> Option<Seq<char>> {
    if function_head_ok(p, f) && exists|b: int| first_bad_block(p, f, b) {
        let b = choose|b: int| first_bad_block(p, f, b);
        match block_fault_text(p, f, b as nat, f.blocks@[b]) {
            Some(t) => Some("function `"@ + f.name@ + "`: "@ + t),
            None => None,
        }
    } else {
        None
    }
}

/// `i` is the first function of `p` that is misplaced or not well formed.
pub open spec fn first_bad_function(p: Program, i: int) -> bool {
    &&& 0 <= i < p.functions@.len()
    &&& !(p.functions@[i].id.0 == i && function_ok(p, p.functions@[i]))
    &&& forall|j: int|
        0 <= j < i ==> (#[trigger] p.functions@[j]).id.0 == j && function_ok(p, p.functions@[j])
}

/// The message of a program whose types and `main` are well formed and whose
/// first faulty function sits at its index and has a message under
/// `function_fault_text`.
pub open spec fn program_fault_text(p: Program) -> Option<Seq<char>> {
    if defs_ok(p.types@) && acyclic(p.types@) && (p.main matches Some(main) ==> main.0
        < p.functions@.len()) && exists|i: int| first_bad_function(p, i) {
        let i = choose|i: int| first_bad_function(p, i);
        if p.functions@[i].id.0 == i {
            function_fault_text(p, p.functions@[i])
        } else {
            None
        }
    } else {
        None
    }
}

/// The whole program is well formed: type definitions are well formed and
/// free of by-value cycles, `main` names a function, every function sits at
/// the index of its id and is well formed.
pub open spec fn program_ok(p: Program) -> bool {
    &&& defs_ok(p.types@)
    &&& acyclic(p.types@)
    &&& (p.main matches Some(main) ==> main.0 < p.functions@.len())
    &&& forall|i: int|
        0 <= i < p.functions@.len() ==> (#[trigger] p.functions@[i]).id.0 == i && function_ok(
            p,
            p.functions@[i],
        )
}

fn check_location(program: &Program, file: u32) -> (r: Result<(), VerifyError>)
    ensures
        r is Ok <==> source_ok(*program, file),
{
    if file as usize >= program.sources.len() {
        let mut m = String::new();
        push_str(&mut m, "location references source #");
        push_decimal(&mut m, file as u64);
        push_str(&mut m, " but the program has ");
        push_decimal(&mut m, program.sources.len() as u64);
        push_str(&mut m, " sources");
        return Err(VerifyError::new(m));
    }
    Ok(())
}

fn block_prefixed(block_index: usize, error: VerifyError) -> (r: VerifyError)
    ensures
        r@ == "block #"@ + decimal(block_index as nat) + ": "@ + error@,
{
    prefixed("block #", block_index, ": ", error)
}

fn check_instruction(
    program: &Program,
    function: &Function,
    block_index: usize,
    instruction: &Instruction,
) -> (r: Result<(), VerifyError>)
    requires
        defs_ok(program.types@),
    ensures
        r is Ok <==> instruction_ok(*program, *function, *instruction),
        *instruction matches Instruction::Evaluate(value) ==> (expr_head_fault(*program, value) matches Some(t)
            ==> (r matches Err(e) && e@ == t)),
{
    match instruction {
        Instruction::SetLocal { local, value } => {
            check_local(function, *local)?;
            check_expr(program, function, value)?;
            if !types_coercible(&value.ty, &function.locals[local.0]) {
                let mut m = String::new();
                push_str(&mut m, "block #");
                push_decimal(&mut m, block_index as u64);
                push_str(&mut m, ": SetLocal local #");
                push_decimal(&mut m, local.0 as u64);
                push_str(&mut m, " expects `");
                function.locals[local.0].render_into(&mut m);
                push_str(&mut m, "` but value has type `");
                value.ty.render_into(&mut m);
                push_str(&mut m, "`");
                return Err(VerifyError::new(m));
            }
        },
        Instruction::SetFieldAt { place, field, value } => {
            check_place(program, function, place)?;
            let id = match &place.ty {
                Type::Struct(id) => *id,
                _ => {
                    return Err(
                        block_prefixed(block_index, type_error("SetFieldAt target is `", &place.ty, "`, not a struct")),
                    );
                },
            };
            check_expr(program, function, value)?;
            let field_type = field_type(program, id, *field)?;
            if !types_coercible(&value.ty, &field_type) {
                let mut m = String::new();
                push_str(&mut m, "block #");
                push_decimal(&mut m, block_index as u64);
                push_str(&mut m, ": SetFieldAt field #");
                push_decimal(&mut m, *field as u64);
                push_str(&mut m, " expects `");
                field_type.render_into(&mut m);
                push_str(&mut m, "` but value has type `");
                value.ty.render_into(&mut m);
                push_str(&mut m, "`");
                return Err(VerifyError::new(m));
            }
        },
        Instruction::SetIndexAt { place, value } => {
            check_place(program, function, place)?;
            check_expr(program, function, value)?;
            if !types_coercible(&value.ty, &place.ty) {
                return Err(
                    block_prefixed(
                        block_index,
                        two_type_error("SetIndexAt element expects `", &place.ty, "` but value has type `", &value.ty, "`"),
                    ),
                );
            }
        },
        Instruction::Evaluate(value) => check_expr(program, function, value)?,
        Instruction::Print(parts) => {
            let mut i: usize = 0;
            while i < parts.len()
                invariant
                    defs_ok(program.types@),
                    *instruction == Instruction::Print(*parts),
                    i <= parts.len(),
                    forall|j: int| 0 <= j < i ==> print_part_ok(*program, *function, #[trigger] parts@[j]),
                decreases parts.len() - i,
            {
                if let PrintPart::Value(value) = &parts[i] {
                    let result = check_expr(program, function, value);
                    if result.is_err() {
                        proof {
                            assert(parts@[i as int] == PrintPart::Value(*value));
                            assert(!print_part_ok(*program, *function, parts@[i as int]));

                        }
                        return result;
                    }
                    if !is_printable(&value.ty) {
                        proof {
                            assert(parts@[i as int] == PrintPart::Value(*value));
                            assert(!print_part_ok(*program, *function, parts@[i as int]));

                        }
                        return Err(
                            block_prefixed(block_index, type_error("cannot print value of type `", &value.ty, "`")),
                        );
                    }
                }
                i = i + 1;
            }
        },
    }
    Ok(())
}

/// The message for a branch whose condition is not a `bool`.
pub open spec fn branch_condition_text(t: Type) -> Seq<char> {
    "branch condition has type `"@ + type_text(t) + "`, not `bool`"@
}

fn check_terminator(
    program: &Program,
    function: &Function,
    block_index: usize,
    terminator: &Terminator,
) -> (r: Result<(), VerifyError>)
    requires
        defs_ok(program.types@),
    ensures
        r is Ok <==> terminator_ok(*program, *function, *terminator),
        *terminator matches Terminator::Branch { condition, .. } ==> (expr_ok(*program, *function, condition)
            && condition.ty != Type::Bool ==> (r matches Err(e) && e@ == "block #"@ + decimal(block_index as nat)
            + ": "@ + branch_condition_text(condition.ty))),
{
    match terminator {
        Terminator::Jump(target) => {
            check_block_id(function, *target)?;
        },
        Terminator::Branch { condition, then_block, else_block } => {
            check_expr(program, function, condition)?;
            if !matches!(condition.ty, Type::Bool) {
                return Err(
                    block_prefixed(
                        block_index,
                        type_error("branch condition has type `", &condition.ty, "`, not `bool`"),
                    ),
                );
            }
            check_block_id(function, *then_block)?;
            check_block_id(function, *else_block)?;
        },
        Terminator::Return(value) => {
            match value {
                Some(value) => {
                    check_expr(program, function, value)?;
                    if !types_coercible(&value.ty, &function.return_type) {
                        return Err(
                            block_prefixed(
                                block_index,
                                two_type_error("return type `", &value.ty, "` does not match `", &function.return_type, "`"),
                            ),
                        );
                    }
                },
                None => {
                    if !matches!(function.return_type, Type::Unit) {
                        return Err(
                            block_prefixed(
                                block_index,
                                type_error("empty return in function returning `", &function.return_type, "`"),
                            ),
                        );
                    }
                },
            }
        },
    }
    Ok(())
}

fn check_block(
    program: &Program,
    function: &Function,
    block_index: usize,
    block: &BasicBlock,
) -> (r: Result<(), VerifyError>)
    requires
        defs_ok(program.types@),
    ensures
        r is Ok <==> block_ok(*program, *function, *block),
        block_fault_text(*program, *function, block_index as nat, *block) matches Some(t) ==> (r matches Err(e)
            && e@ == t),
{
    if block.instructions.len() != block.locations.len() {
        let mut m = String::new();
        push_str(&mut m, "block #");
        push_decimal(&mut m, block_index as u64);
        push_str(&mut m, " has ");
        push_decimal(&mut m, block.instructions.len() as u64);
        push_str(&mut m, " instructions but ");
        push_decimal(&mut m, block.locations.len() as u64);
        push_str(&mut m, " locations");
        return Err(VerifyError::new(m));
    }
    check_location(program, block.location.file)?;
    check_location(program, block.terminator_location.file)?;
    let mut i: usize = 0;
    while i < block.locations.len()
        invariant
            i <= block.locations.len(),
            forall|j: int| 0 <= j < i ==> source_ok(*program, (#[trigger] block.locations@[j]).file),
        decreases block.locations.len() - i,
    {
        let result = check_location(program, block.locations[i].file);
        if result.is_err() {
            proof {
                assert(!source_ok(*program, block.locations@[i as int].file));
            }
            return result;
        }
        i = i + 1;
    }
    let mut i: usize = 0;
    while i < block.instructions.len()
        invariant
            defs_ok(program.types@),
            i <= block.instructions.len(),
            forall|j: int|
                0 <= j < i ==> instruction_ok(*program, *function, #[trigger] block.instructions@[j]),
        decreases block.instructions.len() - i,
    {
        let result = check_instruction(program, function, block_index, &block.instructions[i]);
        if result.is_err() {
            proof {
                assert(!instruction_ok(*program, *function, block.instructions@[i as int]));
                assert(first_bad_instruction(*program, *function, *block, i as int));
                let k = choose|k: int| first_bad_instruction(*program, *function, *block, k);
                if k < i {
                    assert(instruction_ok(*program, *function, block.instructions@[k]));
                } else if k > i {
                    assert(instruction_ok(*program, *function, block.instructions@[i as int]));
                }
                assert(k == i);
            }
            return result;
        }
        i = i + 1;
    }
    check_terminator(program, function, block_index, &block.terminator)
}

fn function_prefixed(function: &Function, error: VerifyError) -> (r: VerifyError)
    ensures
        r@ == "function `"@ + function.name@ + "`: "@ + error@,
{
    let mut m = String::new();
    push_str(&mut m, "function `");
    push_str(&mut m, function.name.as_str());
    push_str(&mut m, "`: ");
    push_str(&mut m, error.message.as_str());
    VerifyError::new(m)
}

fn check_function(program: &Program, function: &Function) -> (r: Result<(), VerifyError>)
    requires
        defs_ok(program.types@),
    ensures
        r is Ok <==> function_ok(*program, *function),
        function_fault_text(*program, *function) matches Some(t) ==> (r matches Err(e) && e@ == t),
{
    if function.external_link_name.is_some() {
        if function.blocks.len() != 0 {
            return Err(function_prefixed(function, text_error("extern function must not have a body")));
        }
    } else {
        if function.blocks.len() == 0 {
            return Err(function_prefixed(function, text_error("function has no basic blocks")));
        }
        if function.entry.0 >= function.blocks.len() {
            return Err(
                function_prefixed(function, number_error("entry block #", function.entry.0, " is out of range")),
            );
        }
    }
    if let Err(error) = check_location(program, function.location.file) {
        return Err(function_prefixed(function, error));
    }
    if let Err(error) = check_location(program, function.source) {
        return Err(function_prefixed(function, error));
    }
    if let Err(error) = check_type_alone(program, &function.return_type) {
        return Err(function_prefixed(function, error));
    }
    let mut i: usize = 0;
    while i < function.locals.len()
        invariant
            defs_ok(program.types@),
            i <= function.locals.len(),
            forall|j: int| 0 <= j < i ==> type_ok(#[trigger] function.locals@[j], program.types@),
        decreases function.locals.len() - i,
    {
        if let Err(error) = check_type_alone(program, &function.locals[i]) {
            return Err(function_prefixed(function, error));
        }
        i = i + 1;
    }
    let mut i: usize = 0;
    while i < function.parameters.len()
        invariant
            i <= function.parameters.len(),
            forall|j: int| 0 <= j < i ==> (#[trigger] function.parameters@[j]).0 < function.locals@.len(),
        decreases function.parameters.len() - i,
    {
        let parameter = function.parameters[i];
        if parameter.0 >= function.locals.len() {
            return Err(
                function_prefixed(function, number_error("parameter local #", parameter.0, " is out of range")),
            );
        }
        i = i + 1;
    }
    let mut i: usize = 0;
    while i < function.blocks.len()
        invariant
            defs_ok(program.types@),
            i <= function.blocks.len(),
            forall|j: int| 0 <= j < i ==> block_ok(*program, *function, #[trigger] function.blocks@[j]),
        decreases function.blocks.len() - i,
    {
        let result = check_block(program, function, i, &function.blocks[i]);
        if let Err(error) = result {
            proof {
                assert(!block_ok(*program, *function, function.blocks@[i as int]));
            }
            return Err(function_prefixed(function, error));
        }
        i = i + 1;
    }
    Ok(())
}

/// Checks a whole program; `Ok(())` exactly when the program is well formed,
/// otherwise the first problem found.
pub fn verify_program(program: &Program) -> (r: Result<(), VerifyError>)
    ensures
        r is Ok <==> program_ok(*program),
        defs_ok(program.types@) && !acyclic(program.types@) ==> (r matches Err(e) && exists|k: usize|
            k < program.types@.len() && on_cycle(program.types@, k) && e@ == self_containment_text(
                k as nat,
            )),
        program_fault_text(*program) matches Some(t) ==> (r matches Err(e) && e@ == t),
{
    check_types(&program.types)?;
    check_type_cycles(&program.types)?;
    if let Some(main) = program.main {
        if main.0 >= program.functions.len() {
            return Err(number_error("main references unknown function #", main.0, ""));
        }
    }
    let mut index: usize = 0;
    while index < program.functions.len()
        invariant
            defs_ok(program.types@),
            acyclic(program.types@),
            index <= program.functions.len(),
            forall|i: int|
                0 <= i < index ==> (#[trigger] program.functions@[i]).id.0 == i && function_ok(
                    *program,
                    program.functions@[i],
                ),
        decreases program.functions.len() - index,
    {
        let function = &program.functions[index];
        if function.id.0 != index {
            let mut m = String::new();
            push_str(&mut m, "function `");
            push_str(&mut m, function.name.as_str());
            push_str(&mut m, "` has id #");
            push_decimal(&mut m, function.id.0 as u64);
            push_str(&mut m, " at index ");
            push_decimal(&mut m, index as u64);
            return Err(VerifyError::new(m));
        }
        let result = check_function(program, function);
        if result.is_err() {
            proof {
                assert(!function_ok(*program, program.functions@[index as int]));
            }
            return result;
        }
        index = index + 1;
    }
    Ok(())
}


/// How a binary expression is typed: `&&` and `||` take and give `bool`;
/// `==` and `!=` take operands of which one is compatible with the other
/// and give `bool`; the ordering comparisons `<`, `<=`, `>`, `>=` take two
/// operands of one type and give `bool`; arithmetic takes two operands of
/// one type and gives that type. In every case both operands are well
/// typed.
pub proof fn binary_expressions_are_typed(
    p: Program,
    f: Function,
    operator: BinaryOperator,
    left: Expr,
    right: Expr,
    t: Type,
)
    ensures
        ({
            let e = Expr { kind: ExprKind::Binary { operator, left: Box::new(left), right: Box::new(right) }, ty: t };
            let operands = expr_ok(p, f, left) && expr_ok(p, f, right);
            &&& (operator == BinaryOperator::And || operator == BinaryOperator::Or) ==> (expr_ok(p, f, e) <==> operands
                && left.ty == Type::Bool && right.ty == Type::Bool && t == Type::Bool)
            &&& (operator == BinaryOperator::Equal || operator == BinaryOperator::NotEqual) ==> (expr_ok(p, f, e)
                <==> operands && (compatible(left.ty, right.ty) || compatible(right.ty, left.ty)) && t == Type::Bool)
            &&& (operator == BinaryOperator::Less || operator == BinaryOperator::LessEqual || operator
                == BinaryOperator::Greater || operator == BinaryOperator::GreaterEqual) ==> (expr_ok(p, f, e)
                <==> operands && left.ty == right.ty && t == Type::Bool)
            &&& (operator == BinaryOperator::Add || operator == BinaryOperator::Subtract || operator
                == BinaryOperator::Multiply || operator == BinaryOperator::Divide || operator
                == BinaryOperator::Remainder) ==> (expr_ok(p, f, e) <==> operands && left.ty == right.ty && t
                == left.ty)
        }),
{
}


/// How literals and unary operators are typed: an integer literal has one
/// of the ten integer types, a float literal `f32` or `f64`, a character
/// `char`, a boolean `bool`, a string `string`; negation keeps the integer
/// or float type of its well-typed operand, and `!` takes and gives `bool`.
pub proof fn literals_and_unary_expressions_are_typed(
    p: Program,
    f: Function,
    operand: Expr,
    n: u64,
    c: char,
    b: bool,
    t: Type,
)
    ensures
        expr_ok(p, f, Expr { kind: ExprKind::Integer(n), ty: t }) <==> (t == Type::I8 || t == Type::I16 || t
            == Type::I32 || t == Type::I64 || t == Type::U8 || t == Type::U16 || t == Type::U32 || t == Type::U64
            || t == Type::Usize || t == Type::Isize),
        expr_ok(p, f, Expr { kind: ExprKind::Float(n), ty: t }) <==> (t == Type::F32 || t == Type::F64),
        expr_ok(p, f, Expr { kind: ExprKind::Char(c), ty: t }) <==> t == Type::Char,
        expr_ok(p, f, Expr { kind: ExprKind::Bool(b), ty: t }) <==> t == Type::Bool,
        expr_ok(
            p,
            f,
            Expr { kind: ExprKind::Unary { operator: UnaryOperator::Not, operand: Box::new(operand) }, ty: t },
        ) <==> expr_ok(p, f, operand) && operand.ty == Type::Bool && t == Type::Bool,
        expr_ok(
            p,
            f,
            Expr { kind: ExprKind::Unary { operator: UnaryOperator::Negate, operand: Box::new(operand) }, ty: t },
        ) <==> expr_ok(p, f, operand) && t == operand.ty && (t == Type::I8 || t == Type::I16 || t == Type::I32
            || t == Type::I64 || t == Type::U8 || t == Type::U16 || t == Type::U32 || t == Type::U64 || t
            == Type::Usize || t == Type::Isize || t == Type::F32 || t == Type::F64),
{
}


/// Casts convert between numbers and characters only: `value as to` is well
/// typed exactly when the value is, the expression has type `to`, and both
/// types are among the integer types, `f32`, `f64` and `char`.
pub proof fn casts_are_between_numbers_and_chars(p: Program, f: Function, value: Expr, to: Type, t: Type)
    ensures
        expr_ok(p, f, Expr { kind: ExprKind::Cast { value: Box::new(value), to }, ty: t }) <==> expr_ok(p, f, value)
            && t == to && numeric_or_char(value.ty) && numeric_or_char(to),
{
}

/// `t` is one of the twelve number types or `char`.
pub open spec fn numeric_or_char(t: Type) -> bool {
    t == Type::I8 || t == Type::I16 || t == Type::I32 || t == Type::I64 || t == Type::U8 || t == Type::U16 || t == Type::U32 || t == Type::U64 || t == Type::Usize || t == Type::Isize || t == Type::F32 || t == Type::F64 || t == Type::Char
}

/// Control flow and output: a branch needs a well-typed `bool` condition
/// and blocks of the function; a `return` without a value is allowed only
/// in a function returning `Unit`; a printed value must be a number, a
/// `bool`, a `char` or a `string`. Arrays are indexed by `i32`, slices by
/// `usize`, and nothing else can be indexed.
pub proof fn branches_returns_prints_and_indexing(
    p: Program,
    f: Function,
    condition: Expr,
    then_block: BlockId,
    else_block: BlockId,
    v: Expr,
    array: Expr,
    index: Expr,
    t: Type,
)
    ensures
        terminator_ok(p, f, Terminator::Branch { condition, then_block, else_block }) <==> expr_ok(p, f, condition)
            && condition.ty == Type::Bool && then_block.0 < f.blocks@.len() && else_block.0 < f.blocks@.len(),
        terminator_ok(p, f, Terminator::Return(None)) <==> f.return_type == Type::Unit,
        print_part_ok(p, f, PrintPart::Value(v)) <==> expr_ok(p, f, v) && (v.ty == Type::I8 || v.ty == Type::I16 || v.ty == Type::I32 || v.ty == Type::I64 || v.ty == Type::U8 || v.ty == Type::U16 || v.ty == Type::U32 || v.ty == Type::U64 || v.ty == Type::Usize || v.ty == Type::Isize || v.ty == Type::F32 || v.ty == Type::F64 || v.ty == Type::Bool
            || v.ty == Type::Char || v.ty == Type::String),
        ({
            let e = Expr { kind: ExprKind::Index { array: Box::new(array), index: Box::new(index) }, ty: t };
            &&& (array.ty is Array && expr_ok(p, f, e)) ==> index.ty == Type::I32
            &&& (array.ty is Slice && expr_ok(p, f, e)) ==> index.ty == Type::Usize
            &&& !(array.ty is Array || array.ty is Slice) ==> !expr_ok(p, f, e)
        }),
{
}

} // verus!
