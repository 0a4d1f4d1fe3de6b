//! The by-value containment graph of a type table, as the ids each
//! definition holds by value, and how it relates to the ranking of
//! `layout::acyclic`.
use vstd::prelude::*;

use crate::ir::{EnumVariant, StructField, Type, TypeDef, TypeId};
use crate::layout::{acyclic, def_below, ranked_by, ref_below};

verus! {

/// The definition that a value of type `t` holds inline, if any.
pub open spec fn held_id(t: Type) -> Option<TypeId> {
    match t {
        Type::Struct(id) => Some(id),
        Type::Enum(id) => Some(id),
        _ => None,
    }
}

/// The ids held by value by the types `ts`, in order.
pub open spec fn value_refs(ts: Seq<Type>) -> Seq<TypeId>
    decreases ts.len(),
{
    if ts.len() == 0 {
        Seq::empty()
    } else {
        let rest = value_refs(ts.drop_last());
        match held_id(ts.last()) {
            Some(k) => rest.push(k),
            None => rest,
        }
    }
}

/// The ids held by value by the struct fields `fields`, in order.
pub open spec fn field_refs(fields: Seq<StructField>) -> Seq<TypeId>
    decreases fields.len(),
{
    if fields.len() == 0 {
        Seq::empty()
    } else {
        let rest = field_refs(fields.drop_last());
        match held_id(fields.last().ty) {
            Some(k) => rest.push(k),
            None => rest,
        }
    }
}

/// The ids held by value by the payloads of `variants`, variant by variant.
pub open spec fn variant_refs(variants: Seq<EnumVariant>) -> Seq<TypeId>
    decreases variants.len(),
{
    if variants.len() == 0 {
        Seq::empty()
    } else {
        variant_refs(variants.drop_last()) + value_refs(variants.last().fields@)
    }
}

/// The ids a definition holds by value; pointers and slices are indirect
/// and hold nothing.
pub open spec fn contained_ids(def: TypeDef) -> Seq<TypeId> {
    match def {
        TypeDef::Struct { fields, .. } => field_refs(fields@),
        TypeDef::Enum { variants } => variant_refs(variants@),
    }
}

/// Every id held by value in the table names a definition of the table.
pub open spec fn refs_in_range(types: Seq<TypeDef>) -> bool {
    forall|i: int, k: int|
        0 <= i < types.len() && 0 <= k < contained_ids(types[i]).len() ==> (
        #[trigger] contained_ids(types[i])[k]).0 < types.len()
}

/// `k` names a definition of the first `n` and is ranked below `bound`.
pub open spec fn id_below(k: TypeId, n: nat, rank: Seq<nat>, bound: nat) -> bool {
    k.0 < n && rank[k.0 as int] < bound
}

proof fn lemma_value_refs_below(ts: Seq<Type>, n: nat, rank: Seq<nat>, bound: nat)
    ensures
        (forall|j: int| 0 <= j < ts.len() ==> ref_below(#[trigger] ts[j], n, rank, bound)) <==> (
        forall|i: int|
            0 <= i < value_refs(ts).len() ==> id_below(#[trigger] value_refs(ts)[i], n, rank, bound)),
    decreases ts.len(),
{
    if ts.len() > 0 {
        let init = ts.drop_last();
        lemma_value_refs_below(init, n, rank, bound);
        let refs = value_refs(ts);
        if forall|j: int| 0 <= j < ts.len() ==> ref_below(#[trigger] ts[j], n, rank, bound) {
            assert forall|j: int| 0 <= j < init.len() implies ref_below(
                #[trigger] init[j],
                n,
                rank,
                bound,
            ) by {
                assert(init[j] == ts[j]);
            }
            assert(ref_below(ts[ts.len() - 1], n, rank, bound));
            let rest = value_refs(init);
            assert forall|i: int| 0 <= i < refs.len() implies id_below(#[trigger] refs[i], n, rank, bound) by {
                if i < rest.len() {
                    assert(refs[i] == rest[i]);
                }
            }
        }
        if forall|i: int| 0 <= i < refs.len() ==> id_below(#[trigger] refs[i], n, rank, bound) {
            let rest = value_refs(init);
            assert forall|i: int| 0 <= i < rest.len() implies id_below(
                #[trigger] rest[i],
                n,
                rank,
                bound,
            ) by {
                assert(refs[i] == rest[i]);
            }
            match held_id(ts.last()) {
                Some(k) => {
                    assert(refs[refs.len() - 1] == k);
                },
                None => {},
            }
            assert forall|j: int| 0 <= j < ts.len() implies ref_below(#[trigger] ts[j], n, rank, bound) by {
                if j < init.len() {
                    assert(init[j] == ts[j]);
                }
            }
        }
    }
}

proof fn lemma_field_refs_below(fields: Seq<StructField>, n: nat, rank: Seq<nat>, bound: nat)
    ensures
        (forall|j: int| 0 <= j < fields.len() ==> ref_below(#[trigger] fields[j].ty, n, rank, bound))
            <==> (forall|i: int|
            0 <= i < field_refs(fields).len() ==> id_below(
                #[trigger] field_refs(fields)[i],
                n,
                rank,
                bound,
            )),
    decreases fields.len(),
{
    if fields.len() > 0 {
        let init = fields.drop_last();
        lemma_field_refs_below(init, n, rank, bound);
        let refs = field_refs(fields);
        if forall|j: int| 0 <= j < fields.len() ==> ref_below(#[trigger] fields[j].ty, n, rank, bound) {
            assert forall|j: int| 0 <= j < init.len() implies ref_below(
                #[trigger] init[j].ty,
                n,
                rank,
                bound,
            ) by {
                assert(init[j] == fields[j]);
            }
            assert(ref_below(fields[fields.len() - 1].ty, n, rank, bound));
            let rest = field_refs(init);
            assert forall|i: int| 0 <= i < refs.len() implies id_below(#[trigger] refs[i], n, rank, bound) by {
                if i < rest.len() {
                    assert(refs[i] == rest[i]);
                }
            }
        }
        if forall|i: int| 0 <= i < refs.len() ==> id_below(#[trigger] refs[i], n, rank, bound) {
            let rest = field_refs(init);
            assert forall|i: int| 0 <= i < rest.len() implies id_below(
                #[trigger] rest[i],
                n,
                rank,
                bound,
            ) by {
                assert(refs[i] == rest[i]);
            }
            match held_id(fields.last().ty) {
                Some(k) => {
                    assert(refs[refs.len() - 1] == k);
                },
                None => {},
            }
            assert forall|j: int| 0 <= j < fields.len() implies ref_below(
                #[trigger] fields[j].ty,
                n,
                rank,
                bound,
            ) by {
                if j < init.len() {
                    assert(init[j] == fields[j]);
                }
            }
        }
    }
}

proof fn lemma_variant_refs_below(variants: Seq<EnumVariant>, n: nat, rank: Seq<nat>, bound: nat)
    ensures
        (forall|v: int, j: int|
            0 <= v < variants.len() && 0 <= j < variants[v].fields@.len() ==> ref_below(
                #[trigger] variants[v].fields@[j],
                n,
                rank,
                bound,
            )) <==> (forall|i: int|
            0 <= i < variant_refs(variants).len() ==> id_below(
                #[trigger] variant_refs(variants)[i],
                n,
                rank,
                bound,
            )),
    decreases variants.len(),
{
    if variants.len() > 0 {
        let init = variants.drop_last();
        let last = variants.last().fields@;
        lemma_variant_refs_below(init, n, rank, bound);
        lemma_value_refs_below(last, n, rank, bound);
        let rest = variant_refs(init);
        let tail = value_refs(last);
        let refs = variant_refs(variants);
        assert(refs == rest + tail);
        if forall|v: int, j: int|
            0 <= v < variants.len() && 0 <= j < variants[v].fields@.len() ==> ref_below(
                #[trigger] variants[v].fields@[j],
                n,
                rank,
                bound,
            ) {
            assert forall|v: int, j: int|
                0 <= v < init.len() && 0 <= j < init[v].fields@.len() implies ref_below(
                #[trigger] init[v].fields@[j],
                n,
                rank,
                bound,
            ) by {
                assert(init[v] == variants[v]);
            }
            assert forall|j: int| 0 <= j < last.len() implies ref_below(#[trigger] last[j], n, rank, bound) by {
                assert(variants[variants.len() - 1].fields@[j] == last[j]);
            }
            assert forall|i: int| 0 <= i < refs.len() implies id_below(#[trigger] refs[i], n, rank, bound) by {
                if i < rest.len() {
                    assert(refs[i] == rest[i]);
                } else {
                    assert(refs[i] == tail[i - rest.len()]);
                }
            }
        }
        if forall|i: int| 0 <= i < refs.len() ==> id_below(#[trigger] refs[i], n, rank, bound) {
            assert forall|i: int| 0 <= i < rest.len() implies id_below(#[trigger] rest[i], n, rank, bound) by {
                assert(refs[i] == rest[i]);
            }
            assert forall|i: int| 0 <= i < tail.len() implies id_below(#[trigger] tail[i], n, rank, bound) by {
                assert(refs[i + rest.len()] == tail[i]);
            }
            assert forall|v: int, j: int|
                0 <= v < variants.len() && 0 <= j < variants[v].fields@.len() implies ref_below(
                #[trigger] variants[v].fields@[j],
                n,
                rank,
                bound,
            ) by {
                if v < init.len() {
                    assert(init[v] == variants[v]);
                } else {
                    assert(variants[v].fields@[j] == last[j]);
                }
            }
        }
    }
}

/// A definition is ranked below `bound` exactly when every id it holds by
/// value is.
pub proof fn lemma_def_below_refs(def: TypeDef, n: nat, rank: Seq<nat>, bound: nat)
    ensures
        def_below(def, n, rank, bound) <==> (forall|i: int|
            0 <= i < contained_ids(def).len() ==> id_below(
                #[trigger] contained_ids(def)[i],
                n,
                rank,
                bound,
            )),
{
    match def {
        TypeDef::Struct { fields, .. } => {
            lemma_field_refs_below(fields@, n, rank, bound);
            assert(contained_ids(def) == field_refs(fields@));
            assert(def_below(def, n, rank, bound) == (forall|j: int|
                0 <= j < fields@.len() ==> ref_below(#[trigger] fields@[j].ty, n, rank, bound)));
        },
        TypeDef::Enum { variants } => {
            lemma_variant_refs_below(variants@, n, rank, bound);
            assert(contained_ids(def) == variant_refs(variants@));
            assert(def_below(def, n, rank, bound) == (forall|v: int, j: int|
                0 <= v < variants@.len() && 0 <= j < variants@[v].fields@.len() ==> ref_below(
                    #[trigger] variants@[v].fields@[j],
                    n,
                    rank,
                    bound,
                )));
        },
    }
}

/// The number of entries of `state` that are 0 (not yet visited).
pub open spec fn count_unvisited(state: Seq<u8>) -> nat
    decreases state.len(),
{
    if state.len() == 0 {
        0
    } else {
        count_unvisited(state.drop_last()) + if state.last() == 0 {
            1nat
        } else {
            0nat
        }
    }
}

/// Marking an unvisited entry visited lowers the count by one.
pub proof fn lemma_count_mark(state: Seq<u8>, i: int, v: u8)
    requires
        0 <= i < state.len(),
        state[i] == 0,
        v != 0,
    ensures
        count_unvisited(state.update(i, v)) + 1 == count_unvisited(state),
    decreases state.len(),
{
    let after = state.update(i, v);
    if i == state.len() - 1 {
        assert(after.drop_last() =~= state.drop_last());
    } else {
        assert(after.drop_last() =~= state.drop_last().update(i, v));
        lemma_count_mark(state.drop_last(), i, v);
    }
}

/// A state whose unvisited entries were all unvisited before counts no more
/// of them.
pub proof fn lemma_count_shrinks(before: Seq<u8>, after: Seq<u8>)
    requires
        before.len() == after.len(),
        forall|i: int| 0 <= i < after.len() && after[i] == 0 ==> before[i] == 0,
    ensures
        count_unvisited(after) <= count_unvisited(before),
    decreases before.len(),
{
    if before.len() > 0 {
        let b = before.drop_last();
        let a = after.drop_last();
        assert forall|i: int| 0 <= i < a.len() && a[i] == 0 implies b[i] == 0 by {
            assert(a[i] == after[i]);
            assert(b[i] == before[i]);
        }
        lemma_count_shrinks(b, a);
    }
}

/// Definition `a` holds definition `b` by value.
pub open spec fn holds(types: Seq<TypeDef>, a: int, b: int) -> bool {
    &&& 0 <= a < types.len()
    &&& exists|k: int|
        0 <= k < contained_ids(types[a]).len() && (#[trigger] contained_ids(types[a])[k]).0 == b
}

/// Each definition of `path` holds the next one by value.
pub open spec fn is_chain(types: Seq<TypeDef>, path: Seq<int>) -> bool {
    forall|i: int| 0 <= i < path.len() - 1 ==> holds(types, #[trigger] path[i], path[i + 1])
}

/// Definition `a` contains itself by value, through one or more holdings.
pub open spec fn contains_itself(types: Seq<TypeDef>, a: int) -> bool {
    exists|path: Seq<int>|
        #![trigger is_chain(types, path), path[0]]
        is_chain(types, path) && path.len() >= 2 && path[0] == a && path.last() == a
}

/// A set of definitions closed under holding, that never reaches `root`
/// again: every definition that a marked one holds is marked and is not
/// `root`.
pub open spec fn closed_without(types: Seq<TypeDef>, marked: Seq<bool>, root: int) -> bool {
    forall|s: int, k: int|
        0 <= s < marked.len() && marked[s] && 0 <= k < contained_ids(types[s]).len() ==> {
            let d = (#[trigger] contained_ids(types[s])[k]).0 as int;
            0 <= d < marked.len() && marked[d] && d != root
        }
}

proof fn lemma_chain_stays_marked(
    types: Seq<TypeDef>,
    marked: Seq<bool>,
    root: int,
    path: Seq<int>,
    i: int,
)
    requires
        marked.len() == types.len(),
        closed_without(types, marked, root),
        0 <= root < marked.len(),
        marked[root],
        is_chain(types, path),
        path.len() >= 2,
        path[0] == root,
        1 <= i < path.len(),
    ensures
        0 <= path[i] < marked.len() && marked[path[i]] && path[i] != root,
    decreases i,
{
    let prev = path[i - 1];
    if i > 1 {
        lemma_chain_stays_marked(types, marked, root, path, i - 1);
    }
    assert(holds(types, path[i - 1], path[i - 1 + 1]));
    let k = choose|k: int|
        0 <= k < contained_ids(types[prev]).len() && (#[trigger] contained_ids(types[prev])[k]).0
            == path[i];
    assert(contained_ids(types[prev])[k].0 == path[i]);
}

/// A closed marked set around `root` shows that `root` does not contain
/// itself.
pub proof fn lemma_closed_no_cycle(types: Seq<TypeDef>, marked: Seq<bool>, root: int)
    requires
        marked.len() == types.len(),
        closed_without(types, marked, root),
        0 <= root < marked.len(),
        marked[root],
    ensures
        !contains_itself(types, root),
{
    if contains_itself(types, root) {
        let path = choose|path: Seq<int>|
            #![trigger is_chain(types, path), path[0]]
            is_chain(types, path) && path.len() >= 2 && path[0] == root && path.last() == root;
        lemma_chain_stays_marked(types, marked, root, path, path.len() - 1);
    }
}

proof fn lemma_chain_descends(types: Seq<TypeDef>, rank: Seq<nat>, path: Seq<int>, i: int)
    requires
        ranked_by(types, rank),
        is_chain(types, path),
        0 < i < path.len(),
    ensures
        0 <= path[i] < types.len(),
        rank[path[i]] < rank[path[0]],
    decreases i,
{
    if i > 1 {
        lemma_chain_descends(types, rank, path, i - 1);
    }
    let a = path[i - 1];
    assert(holds(types, path[i - 1], path[i - 1 + 1]));
    let k = choose|k: int|
        0 <= k < contained_ids(types[a]).len() && (#[trigger] contained_ids(types[a])[k]).0 == path[i];
    assert(def_below(types[a], types.len(), rank, rank[a]));
    lemma_def_below_refs(types[a], types.len(), rank, rank[a]);
    assert(id_below(contained_ids(types[a])[k], types.len(), rank, rank[a]));
}

/// In a table that passes the layout-cycle check, no definition contains
/// itself by value: the per-type check then passes for every type.
pub proof fn acyclic_has_no_self_containment(types: Seq<TypeDef>, k: int)
    requires
        acyclic(types),
    ensures
        !contains_itself(types, k),
{
    if contains_itself(types, k) {
        let rank = choose|rank: Seq<nat>| ranked_by(types, rank);
        let path = choose|path: Seq<int>|
            #![trigger is_chain(types, path), path[0]]
            is_chain(types, path) && path.len() >= 2 && path[0] == k && path.last() == k;
        lemma_chain_descends(types, rank, path, path.len() - 1);
    }
}

} // verus!
