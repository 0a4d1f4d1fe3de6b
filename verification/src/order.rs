//! Lexicographic order on text (the order of `str`'s `Ord`: code point by
//! code point, a proper prefix first) and a stable sort by a text key.
use vstd::prelude::*;
use vstd::seq_lib::to_multiset_insert;
use vstd::multiset::Multiset;

verus! {

/// `a` sorts strictly before `b`.
pub open spec fn text_lt(a: Seq<char>, b: Seq<char>) -> bool
    decreases a.len(),
{
    if a.len() == 0 {
        b.len() > 0
    } else if b.len() == 0 {
        false
    } else if a[0] != b[0] {
        a[0] < b[0]
    } else {
        text_lt(a.drop_first(), b.drop_first())
    }
}

/// `a` sorts before `b` or equals it.
pub open spec fn text_le(a: Seq<char>, b: Seq<char>) -> bool {
    text_lt(a, b) || a == b
}

pub proof fn lemma_text_lt_irreflexive(a: Seq<char>)
    ensures
        !text_lt(a, a),
    decreases a.len(),
{
    if a.len() > 0 {
        lemma_text_lt_irreflexive(a.drop_first());
    }
}

pub proof fn lemma_text_lt_transitive(a: Seq<char>, b: Seq<char>, c: Seq<char>)
    requires
        text_lt(a, b),
        text_lt(b, c),
    ensures
        text_lt(a, c),
    decreases a.len(),
{
    if a.len() > 0 && b.len() > 0 && c.len() > 0 && a[0] == b[0] && b[0] == c[0] {
        lemma_text_lt_transitive(a.drop_first(), b.drop_first(), c.drop_first());
    }
}

pub proof fn lemma_text_lt_total(a: Seq<char>, b: Seq<char>)
    ensures
        a == b || text_lt(a, b) || text_lt(b, a),
    decreases a.len(),
{
    if a.len() > 0 && b.len() > 0 && a[0] == b[0] {
        lemma_text_lt_total(a.drop_first(), b.drop_first());
        if a.drop_first() == b.drop_first() {
            assert(a =~= seq![a[0]] + a.drop_first());
            assert(b =~= seq![b[0]] + b.drop_first());
        }
    } else if a.len() == 0 && b.len() == 0 {
        assert(a =~= b);
    }
}

pub proof fn lemma_text_lt_asymmetric(a: Seq<char>, b: Seq<char>)
    requires
        text_lt(a, b),
    ensures
        !text_lt(b, a),
{
    if text_lt(b, a) {
        lemma_text_lt_transitive(a, b, a);
        lemma_text_lt_irreflexive(a);
    }
}

/// Whether `a` sorts strictly before `b`.
pub fn str_lt(a: &str, b: &str) -> (r: bool)
    ensures
        r == text_lt(a@, b@),
{
    let n = a.unicode_len();
    let m = b.unicode_len();
    let mut i: usize = 0;
    assert(a@.skip(0) =~= a@);
    assert(b@.skip(0) =~= b@);
    while i < n && i < m
        invariant
            n == a@.len(),
            m == b@.len(),
            i <= n,
            i <= m,
            text_lt(a@, b@) == text_lt(a@.skip(i as int), b@.skip(i as int)),
        decreases n - i,
    {
        let x = a.get_char(i);
        let y = b.get_char(i);
        proof {
            let sa = a@.skip(i as int);
            let sb = b@.skip(i as int);
            assert(sa[0] == x && sb[0] == y);
            assert(sa.drop_first() =~= a@.skip(i + 1));
            assert(sb.drop_first() =~= b@.skip(i + 1));
        }
        if x != y {
            return x < y;
        }
        i = i + 1;
    }
    proof {
        assert(a@.skip(i as int).len() == n - i);
        assert(b@.skip(i as int).len() == m - i);
    }
    i == n && i < m
}

/// Values sorted by a text key.
pub trait TextKeyed {
    spec fn key_view(&self) -> Seq<char>;

    fn text_key(&self) -> (r: &str)
        ensures
            r@ == self.key_view(),
    ;
}

/// A pair keyed by its first text.
impl TextKeyed for (String, String) {
    open spec fn key_view(&self) -> Seq<char> {
        self.0@
    }

    fn text_key(&self) -> (r: &str) {
        self.0.as_str()
    }
}

/// The keys of `s` never decrease.
pub open spec fn sorted_by_key<T: TextKeyed>(s: Seq<T>) -> bool {
    forall|i: int, j: int| 0 <= i < j < s.len() ==> text_le(s[i].key_view(), s[j].key_view())
}

/// Sorts `items` by their text key; items with equal keys keep their order
/// (the behaviour of `slice::sort_by`).
pub fn sort_by_key<T: TextKeyed>(items: Vec<T>) -> (r: Vec<T>)
    ensures
        r@.to_multiset() == items@.to_multiset(),
        r@.len() == items@.len(),
        sorted_by_key(r@),
{
    let ghost original = items@;
    let mut rest = items;
    let mut done: Vec<T> = Vec::new();
    proof {
        broadcast use vstd::multiset::group_multiset_axioms, vstd::seq_lib::group_to_multiset_ensures;
        assert(done@.to_multiset() =~= Multiset::empty());
    }
    while rest.len() > 0
        invariant
            done@.to_multiset().add(rest@.to_multiset()) == original.to_multiset(),
            done@.len() + rest@.len() == original.len(),
            sorted_by_key(done@),
        decreases rest.len(),
    {
        let ghost before_rest = rest@;
        let x = rest.remove(0);
        proof {
            assert(before_rest =~= rest@.insert(0, x));
            to_multiset_insert(rest@, 0, x);
        }
        let mut p: usize = 0;
        while p < done.len() && !str_lt(x.text_key(), done[p].text_key())
            invariant
                p <= done.len(),
                forall|i: int| 0 <= i < p ==> !text_lt(x.key_view(), #[trigger] done@[i].key_view()),
            decreases done.len() - p,
        {
            p = p + 1;
        }
        let ghost before = done@;
        proof {
            assert forall|i: int| 0 <= i < p implies text_le(#[trigger] before[i].key_view(), x.key_view()) by {
                lemma_text_lt_total(before[i].key_view(), x.key_view());
            }
            assert forall|i: int| p <= i < before.len() implies text_lt(x.key_view(), #[trigger] before[i].key_view()) by {
                assert(text_lt(x.key_view(), before[p as int].key_view()));
                if i > p {
                    assert(text_le(before[p as int].key_view(), before[i].key_view()));
                    if text_lt(before[p as int].key_view(), before[i].key_view()) {
                        lemma_text_lt_transitive(x.key_view(), before[p as int].key_view(), before[i].key_view());
                    }
                }
            }
        }
        done.insert(p, x);
        proof {
            to_multiset_insert(before, p as int, x);
            broadcast use vstd::multiset::group_multiset_axioms;
            assert(done@.to_multiset().add(rest@.to_multiset()) =~= original.to_multiset());
            assert forall|i: int, j: int| 0 <= i < j < done@.len() implies text_le(
                #[trigger] done@[i].key_view(),
                #[trigger] done@[j].key_view(),
            ) by {
                if j < p {
                    assert(done@[i] == before[i] && done@[j] == before[j]);
                } else if j == p {
                    assert(done@[i] == before[i]);
                } else if i == p {
                    assert(done@[j] == before[j - 1]);
                } else if i < p {
                    assert(done@[i] == before[i] && done@[j] == before[j - 1]);
                    assert(text_le(before[i].key_view(), x.key_view()));
                    assert(text_lt(x.key_view(), before[j - 1].key_view()));
                    if text_lt(before[i].key_view(), x.key_view()) {
                        lemma_text_lt_transitive(before[i].key_view(), x.key_view(), before[j - 1].key_view());
                    }
                } else {
                    assert(done@[i] == before[i - 1] && done@[j] == before[j - 1]);
                }
            }
        }
    }
    proof {
        broadcast use vstd::multiset::group_multiset_axioms, vstd::seq_lib::group_to_multiset_ensures;
        assert(rest@.to_multiset() =~= Multiset::empty());
        assert(done@.to_multiset() =~= original.to_multiset());
    }
    done
}


/// The keys of `s` strictly ascend.
pub open spec fn keys_strictly_sorted<T: TextKeyed>(s: Seq<T>) -> bool {
    forall|i: int, j: int| 0 <= i < j < s.len() ==> text_lt(s[i].key_view(), s[j].key_view())
}

/// `x` is the last of the first `n` items of `s` with its key.
pub open spec fn last_with_key<T: TextKeyed>(s: Seq<T>, n: int, x: T) -> bool {
    exists|j: int|
        0 <= j < n && s[j] == x && forall|k: int| j < k < n ==> (#[trigger] s[k]).key_view() != x.key_view()
}

/// Some item of `out` has `key`.
pub open spec fn has_key<T: TextKeyed>(out: Seq<T>, key: Seq<char>) -> bool {
    exists|i: int| 0 <= i < out.len() && (#[trigger] out[i]).key_view() == key
}

/// `out` is the map that `items` give when later items replace earlier ones
/// with the same key (the contents of a sorted map filled in order).
pub open spec fn keyed_map_of<T: TextKeyed>(items: Seq<T>, out: Seq<T>) -> bool {
    &&& keys_strictly_sorted(out)
    &&& forall|i: int| 0 <= i < out.len() ==> last_with_key(items, items.len() as int, #[trigger] out[i])
    &&& forall|j: int| 0 <= j < items.len() ==> has_key(out, (#[trigger] items[j]).key_view())
}

/// Where `key` goes among `s`: the first place whose key does not sort
/// before it.
pub open spec fn key_slot<T: TextKeyed>(s: Seq<T>, key: Seq<char>, i: int) -> int
    decreases s.len() - i,
{
    if i >= s.len() || i < 0 {
        s.len() as int
    } else if !text_lt(s[i].key_view(), key) {
        i
    } else {
        key_slot(s, key, i + 1)
    }
}

/// Fills a map from `items` in order: an item replaces an earlier one with
/// the same key; the result holds one item per key, in key order.
pub fn keyed_map<T: TextKeyed>(items: Vec<T>) -> (r: Vec<T>)
    ensures
        keyed_map_of(items@, r@),
{
    let ghost original = items@;
    let mut rest = items;
    let mut out: Vec<T> = Vec::new();
    let mut n: usize = 0;
    assert(original.skip(0) =~= original);
    assert(original.len() == rest.len());
    while rest.len() > 0
        invariant
            original.len() <= usize::MAX,
            n + rest@.len() == original.len(),
            rest@ == original.skip(n as int),
            keys_strictly_sorted(out@),
            forall|i: int| 0 <= i < out@.len() ==> last_with_key(original, n as int, #[trigger] out@[i]),
            forall|j: int| 0 <= j < n ==> has_key(out@, (#[trigger] original[j]).key_view()),
        decreases rest.len(),
    {
        let x = rest.remove(0);
        assert(x == original[n as int]);
        assert(rest@ =~= original.skip(n + 1));
        let ghost key = x.key_view();
        let mut p: usize = 0;
        while p < out.len() && str_lt(out[p].text_key(), x.text_key())
            invariant
                p <= out.len(),
                key == x.key_view(),
                forall|i: int| 0 <= i < p ==> text_lt((#[trigger] out@[i]).key_view(), key),
            decreases out.len() - p,
        {
            p = p + 1;
        }
        let ghost before = out@;
        let replace = p < out.len() && crate::text::str_eq(out[p].text_key(), x.text_key());
        proof {
            if p < before.len() && !replace {
                lemma_text_lt_total(before[p as int].key_view(), key);
            }
        }
        if replace {
            out.set(p, x);
            proof {
                assert forall|i: int, j: int| 0 <= i < j < out@.len() implies text_lt(
                    out@[i].key_view(),
                    out@[j].key_view(),
                ) by {
                    if i == p {
                        assert(out@[i].key_view() == before[i].key_view());
                    } else if j == p {
                        assert(out@[j].key_view() == before[j].key_view());
                    }
                }
                assert forall|i: int| 0 <= i < out@.len() implies last_with_key(
                    original,
                    n + 1,
                    #[trigger] out@[i],
                ) by {
                    if i == p {
                        assert(original[n as int] == out@[i]);
                    } else {
                        assert(last_with_key(original, n as int, before[i]));
                        let j = choose|j: int|
                            0 <= j < n && original[j] == before[i] && forall|k: int|
                                j < k < n ==> (#[trigger] original[k]).key_view() != before[i].key_view();
                        assert(before[i].key_view() != key) by {
                            if i < p {
                                lemma_text_lt_irreflexive(key);
                            } else {
                                assert(text_lt(before[p as int].key_view(), before[i].key_view()));
                                lemma_text_lt_irreflexive(key);
                            }
                        }
                        assert(forall|k: int| j < k < n + 1 ==> (#[trigger] original[k]).key_view() != before[i].key_view());
                    }
                }
                assert forall|j: int| 0 <= j < n + 1 implies has_key(out@, (#[trigger] original[j]).key_view()) by {
                    if j == n {
                        assert(out@[p as int].key_view() == key);
                    } else {
                        let i = choose|i: int| 0 <= i < before.len() && (#[trigger] before[i]).key_view() == original[j].key_view();
                        if i == p {
                            assert(out@[p as int].key_view() == key);
                        } else {
                            assert(out@[i] == before[i]);
                        }
                    }
                }
            }
        } else {
            out.insert(p, x);
            proof {
                assert forall|i: int| p < i < before.len() implies text_lt(key, #[trigger] before[i].key_view()) by {
                    lemma_text_lt_transitive(key, before[p as int].key_view(), before[i].key_view());
                }
                assert forall|i: int, j: int| 0 <= i < j < out@.len() implies text_lt(
                    out@[i].key_view(),
                    out@[j].key_view(),
                ) by {
                    if j < p {
                        assert(out@[i] == before[i] && out@[j] == before[j]);
                    } else if j == p {
                        assert(out@[i] == before[i]);
                    } else if i == p {
                        assert(out@[j] == before[j - 1]);
                    } else if i < p {
                        assert(out@[i] == before[i] && out@[j] == before[j - 1]);
                        lemma_text_lt_transitive(before[i].key_view(), key, before[j - 1].key_view());
                    } else {
                        assert(out@[i] == before[i - 1] && out@[j] == before[j - 1]);
                    }
                }
                assert forall|i: int| 0 <= i < out@.len() implies last_with_key(
                    original,
                    n + 1,
                    #[trigger] out@[i],
                ) by {
                    if i == p {
                        assert(original[n as int] == out@[i]);
                    } else {
                        let b = if i < p { i } else { i - 1 };
                        assert(out@[i] == before[b]);
                        assert(last_with_key(original, n as int, before[b]));
                        let j = choose|j: int|
                            0 <= j < n && original[j] == before[b] && forall|k: int|
                                j < k < n ==> (#[trigger] original[k]).key_view() != before[b].key_view();
                        assert(before[b].key_view() != key) by {
                            if b < p {
                                lemma_text_lt_irreflexive(key);
                            } else {
                                lemma_text_lt_irreflexive(key);
                                lemma_text_lt_asymmetric(key, before[b].key_view());
                            }
                        }
                        assert(forall|k: int| j < k < n + 1 ==> (#[trigger] original[k]).key_view() != before[b].key_view());
                    }
                }
                assert forall|j: int| 0 <= j < n + 1 implies has_key(out@, (#[trigger] original[j]).key_view()) by {
                    if j == n {
                        assert(out@[p as int].key_view() == key);
                    } else {
                        let i = choose|i: int| 0 <= i < before.len() && (#[trigger] before[i]).key_view() == original[j].key_view();
                        if i < p {
                            assert(out@[i] == before[i]);
                        } else {
                            assert(out@[i + 1] == before[i]);
                        }
                    }
                }
            }
        }
        n = n + 1;
    }
    out
}

} // verus!
