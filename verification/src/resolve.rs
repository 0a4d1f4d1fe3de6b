//! Dependency resolution decisions: which source a package may come from,
//! how sources are described, and the deterministic order of a resolved
//! graph (every package after the packages it depends on; ties broken by
//! coordinate).
//!
//! Reading manifests, canonicalising directories and fetching remote
//! packages are the caller's part.
use vstd::prelude::*;

use crate::lockfile::info_coordinate;
use crate::manifest::Manifest;
use crate::order::{lemma_text_lt_irreflexive, lemma_text_lt_total, lemma_text_lt_transitive, str_lt, text_lt};
use crate::package::{PackageGraph, PackageId, PackageInfo, PackageSource};
use crate::text::{push_str, str_eq};

verus! {

/// `--locked` / `--offline`.
#[derive(Clone, Copy, Debug, Default, PartialEq, Eq, Structural)]
pub struct ResolveOptions {
    pub offline: bool,
    pub locked: bool,
}

/// A fetched remote package.
#[derive(Clone, Debug)]
pub struct AcquiredPackage {
    /// The unpacked package directory.
    pub root: String,
    /// The archive's SHA-256.
    pub sha256: String,
    /// The repository's base URL.
    pub base: String,
}

/// Whether the chosen source is the remote repository `repository`; a root
/// or path source, or another repository, is not.
pub open spec fn is_same_remote(source: PackageSource, repository: Seq<char>) -> bool {
    source matches PackageSource::Remote { repository: existing, .. } && existing@ == repository
}

/// Whether the chosen source is the remote repository `repository`.
pub fn same_remote_repository(source: &PackageSource, repository: &str) -> (r: bool)
    ensures
        r == is_same_remote(*source, repository@),
{
    match source {
        PackageSource::Remote { repository: existing, .. } => str_eq(existing.as_str(), repository),
        _ => false,
    }
}

/// How a source is named in messages: never with credentials.
pub open spec fn source_description(source: PackageSource) -> Seq<char> {
    match source {
        PackageSource::Root => "the root project"@,
        PackageSource::Path(p) => "path `"@ + p@ + "`"@,
        PackageSource::Remote { repository, .. } => "repository `"@ + repository@ + "`"@,
    }
}

/// Names a source for a message: the root project, a path, or a repository
/// id.
pub fn describe_source(source: &PackageSource) -> (r: String)
    ensures
        r@ == source_description(*source),
{
    let mut r = String::new();
    match source {
        PackageSource::Root => push_str(&mut r, "the root project"),
        PackageSource::Path(p) => {
            push_str(&mut r, "path `");
            push_str(&mut r, p.as_str());
            push_str(&mut r, "`");
        },
        PackageSource::Remote { repository, .. } => {
            push_str(&mut r, "repository `");
            push_str(&mut r, repository.as_str());
            push_str(&mut r, "`");
        },
    }
    r
}

// ---------------------------------------------------------------------------
// The order of a resolved graph.
// ---------------------------------------------------------------------------

/// Package `p` names package `q` among its dependency aliases.
pub open spec fn depends_on(pkgs: Seq<PackageInfo>, p: int, q: int) -> bool {
    exists|a: int| 0 <= a < pkgs[p].aliases@.len() && (#[trigger] pkgs[p].aliases@[a]).1.0 == q
}

/// Every alias of every package names one of the packages.
pub open spec fn aliases_in_range(pkgs: Seq<PackageInfo>) -> bool {
    forall|p: int, a: int|
        0 <= p < pkgs.len() && 0 <= a < pkgs[p].aliases@.len() ==> (#[trigger] pkgs[p].aliases@[a]).1.0
            < pkgs.len()
}

/// Package `q` is among `prefix`.
pub open spec fn is_placed(prefix: Seq<PackageId>, q: int) -> bool {
    exists|i: int| 0 <= i < prefix.len() && (#[trigger] prefix[i]).0 == q
}

/// Package `q` may come next after `prefix`: it is not placed yet and no
/// package still to place depends on it.
pub open spec fn is_ready(pkgs: Seq<PackageInfo>, prefix: Seq<PackageId>, q: int) -> bool {
    &&& 0 <= q < pkgs.len()
    &&& !is_placed(prefix, q)
    &&& forall|p: int| 0 <= p < pkgs.len() && !is_placed(prefix, p) ==> !#[trigger] depends_on(pkgs, p, q)
}

/// `q` comes before `o` among ready packages: smaller coordinate, then
/// smaller id.
pub open spec fn goes_first(pkgs: Seq<PackageInfo>, q: int, o: int) -> bool {
    text_lt(info_coordinate(pkgs[q]), info_coordinate(pkgs[o])) || (info_coordinate(pkgs[q])
        == info_coordinate(pkgs[o]) && q <= o)
}

/// `q` is the package taken after `prefix`: ready, and first among the ready
/// ones.
pub open spec fn is_next(pkgs: Seq<PackageInfo>, prefix: Seq<PackageId>, q: int) -> bool {
    is_ready(pkgs, prefix, q) && forall|o: int| #[trigger] is_ready(pkgs, prefix, o) ==> goes_first(pkgs, q, o)
}

/// `order` takes, at each step, the package that comes next.
pub open spec fn greedy(pkgs: Seq<PackageInfo>, order: Seq<PackageId>) -> bool {
    forall|k: int| 0 <= k < order.len() ==> is_next(pkgs, order.take(k), (#[trigger] order[k]).0 as int)
}

/// The dependency relation has no cycle: some ranking puts every package
/// below the packages it depends on.
pub open spec fn dependencies_acyclic(pkgs: Seq<PackageInfo>) -> bool {
    exists|rank: Seq<int>| #[trigger] ranks_below(pkgs, rank)
}

/// `rank` puts every package below the packages it depends on.
pub open spec fn ranks_below(pkgs: Seq<PackageInfo>, rank: Seq<int>) -> bool {
    rank.len() == pkgs.len() && forall|p: int, q: int|
        0 <= p < pkgs.len() && 0 <= q < pkgs.len() && #[trigger] depends_on(pkgs, p, q) ==> rank[p]
            < rank[q]
}

/// `order` lists each package exactly once, and every package before each
/// package it depends on (users first).
pub open spec fn is_users_first_order(pkgs: Seq<PackageInfo>, order: Seq<PackageId>) -> bool {
    &&& order.len() == pkgs.len()
    &&& forall|i: int| 0 <= i < order.len() ==> (#[trigger] order[i]).0 < pkgs.len()
    &&& forall|i: int, j: int| 0 <= i < j < order.len() ==> order[i] != order[j]
    &&& forall|i: int, j: int|
        0 <= i < order.len() && 0 <= j < order.len() && #[trigger] depends_on(
            pkgs,
            order[i].0 as int,
            order[j].0 as int,
        ) ==> i < j
}

/// `order` lists each package exactly once, and every package after each
/// package it depends on: depended-on packages come first.
pub open spec fn is_dependency_order(pkgs: Seq<PackageInfo>, order: Seq<PackageId>) -> bool {
    &&& order.len() == pkgs.len()
    &&& forall|i: int| 0 <= i < order.len() ==> (#[trigger] order[i]).0 < pkgs.len()
    &&& forall|i: int, j: int| 0 <= i < j < order.len() ==> order[i] != order[j]
    &&& forall|i: int, j: int|
        0 <= i < order.len() && 0 <= j < order.len() && #[trigger] depends_on(
            pkgs,
            order[i].0 as int,
            order[j].0 as int,
        ) ==> j < i
}

proof fn lemma_reverse_order(pkgs: Seq<PackageInfo>, order: Seq<PackageId>)
    requires
        is_users_first_order(pkgs, order),
    ensures
        is_dependency_order(pkgs, order.reverse()),
{
    let r = order.reverse();
    let n = order.len();
    assert forall|i: int| 0 <= i < r.len() implies (#[trigger] r[i]).0 < pkgs.len() by {
        assert(r[i] == order[n - 1 - i]);
    }
    assert forall|i: int, j: int| 0 <= i < j < r.len() implies r[i] != r[j] by {
        assert(r[i] == order[n - 1 - i] && r[j] == order[n - 1 - j]);
    }
    assert forall|i: int, j: int|
        0 <= i < r.len() && 0 <= j < r.len() && #[trigger] depends_on(
            pkgs,
            r[i].0 as int,
            r[j].0 as int,
        ) implies j < i by {
        assert(r[i] == order[n - 1 - i] && r[j] == order[n - 1 - j]);
        assert(depends_on(pkgs, order[n - 1 - i].0 as int, order[n - 1 - j].0 as int));
    }
}

/// The deterministic build order of a package graph: every package after
/// the packages it depends on. It is the users-first greedy order read
/// backwards: repeatedly taking, among the packages that no remaining
/// package depends on, the one with the smallest coordinate (ties by id),
/// and reversing the result. `None` exactly when the dependencies form a
/// cycle.
pub fn dependency_order(packages: &Vec<PackageInfo>) -> (r: Option<Vec<PackageId>>)
    requires
        aliases_in_range(packages@),
        packages@.len() <= u32::MAX,
    ensures
        r is Some <==> dependencies_acyclic(packages@),
        r matches Some(order) ==> greedy(packages@, order@.reverse()) && is_dependency_order(
            packages@,
            order@,
        ),
{
    match users_first_order(packages) {
        None => None,
        Some(users_first) => {
            let mut order: Vec<PackageId> = Vec::new();
            let mut i: usize = users_first.len();
            while i > 0
                invariant
                    i <= users_first.len(),
                    order@.len() == users_first.len() - i,
                    forall|k: int| 0 <= k < order@.len() ==> order@[k] == users_first@[users_first@.len() - 1 - k],
                decreases i,
            {
                i = i - 1;
                order.push(users_first[i]);
            }
            proof {
                assert(order@ =~= users_first@.reverse());
                assert(order@.reverse() =~= users_first@);
                lemma_reverse_order(packages@, users_first@);
            }
            Some(order)
        },
    }
}

fn package_depends(packages: &Vec<PackageInfo>, p: usize, q: usize) -> (r: bool)
    requires
        p < packages.len(),
    ensures
        r == depends_on(packages@, p as int, q as int),
{
    let aliases = &packages[p].aliases;
    let mut a: usize = 0;
    while a < aliases.len()
        invariant
            a <= aliases.len(),
            aliases@ == packages@[p as int].aliases@,
            forall|b: int| 0 <= b < a ==> (#[trigger] aliases@[b]).1.0 != q,
        decreases aliases.len() - a,
    {
        if aliases[a].1.0 as usize == q {
            assert(packages@[p as int].aliases@[a as int].1.0 == q);
            return true;
        }
        a = a + 1;
    }
    false
}

fn ready_now(packages: &Vec<PackageInfo>, placed: &Vec<bool>, q: usize, order: Ghost<Seq<PackageId>>) -> (r: bool)
    requires
        placed@.len() == packages@.len(),
        q < packages.len(),
        forall|x: int| 0 <= x < placed@.len() ==> (placed@[x] <==> is_placed(order@, x)),
    ensures
        r == is_ready(packages@, order@, q as int),
{
    if placed[q] {
        return false;
    }
    let mut p: usize = 0;
    while p < packages.len()
        invariant
            p <= packages.len(),
            placed@.len() == packages@.len(),
            forall|x: int| 0 <= x < placed@.len() ==> (placed@[x] <==> is_placed(order@, x)),
            forall|x: int| 0 <= x < p && !is_placed(order@, x) ==> !#[trigger] depends_on(packages@, x, q as int),
        decreases packages.len() - p,
    {
        if !placed[p] && package_depends(packages, p, q) {
            return false;
        }
        p = p + 1;
    }
    true
}

proof fn lemma_take_push(order: Seq<PackageId>, id: PackageId, x: int)
    ensures
        is_placed(order.push(id), x) <==> (is_placed(order, x) || id.0 == x),
{
    if is_placed(order.push(id), x) {
        let i = choose|i: int| 0 <= i < order.push(id).len() && (#[trigger] order.push(id)[i]).0 == x;
        if i < order.len() {
            assert(order[i] == order.push(id)[i]);
        }
    }
    if is_placed(order, x) {
        let i = choose|i: int| 0 <= i < order.len() && (#[trigger] order[i]).0 == x;
        assert(order.push(id)[i] == order[i]);
    }
    if id.0 == x {
        assert(order.push(id)[order.len() as int] == id);
    }
}

/// Some unplaced package that no other unplaced package depends on exists
/// whenever the relation is acyclic.
proof fn lemma_stuck_means_cycle(pkgs: Seq<PackageInfo>, order: Seq<PackageId>)
    requires
        exists|x: int| 0 <= x < pkgs.len() && !is_placed(order, x),
        forall|q: int| !#[trigger] is_ready(pkgs, order, q),
    ensures
        !dependencies_acyclic(pkgs),
{
    if dependencies_acyclic(pkgs) {
        let rank = choose|rank: Seq<int>| #[trigger] ranks_below(pkgs, rank);
        let x0 = choose|x: int| 0 <= x < pkgs.len() && !is_placed(order, x);
        let m = lemma_min_rank_unplaced(pkgs, order, rank, pkgs.len() as int, x0);
        assert(!is_ready(pkgs, order, m));
        let p = choose|p: int| 0 <= p < pkgs.len() && !is_placed(order, p) && #[trigger] depends_on(pkgs, p, m);
        assert(rank[p] < rank[m]);
        assert(rank[m] <= rank[p]);
    }
}

/// An unplaced package of least rank among packages `0..n`.
proof fn lemma_min_rank_unplaced(
    pkgs: Seq<PackageInfo>,
    order: Seq<PackageId>,
    rank: Seq<int>,
    n: int,
    x0: int,
) -> (m: int)
    requires
        rank.len() == pkgs.len(),
        0 <= n <= pkgs.len(),
        0 <= x0 < n,
        !is_placed(order, x0),
    ensures
        0 <= m < n,
        !is_placed(order, m),
        forall|y: int| 0 <= y < n && !is_placed(order, y) ==> rank[m] <= rank[y],
    decreases n,
{
    if n == x0 + 1 && forall|y: int| 0 <= y < x0 ==> is_placed(order, y) {
        x0
    } else {
        let last = n - 1;
        if x0 == last {
            let y1 = choose|y: int| 0 <= y < x0 && !is_placed(order, y);
            let m1 = lemma_min_rank_unplaced(pkgs, order, rank, last, y1);
            if rank[last] < rank[m1] {
                last
            } else {
                m1
            }
        } else {
            let m1 = lemma_min_rank_unplaced(pkgs, order, rank, last, x0);
            if !is_placed(order, last) && rank[last] < rank[m1] {
                last
            } else {
                m1
            }
        }
    }
}

proof fn lemma_greedy_is_order(pkgs: Seq<PackageInfo>, order: Seq<PackageId>)
    requires
        greedy(pkgs, order),
        order.len() == pkgs.len(),
    ensures
        is_users_first_order(pkgs, order),
        dependencies_acyclic(pkgs),
{
    assert forall|i: int| 0 <= i < order.len() implies (#[trigger] order[i]).0 < pkgs.len() by {
        assert(is_next(pkgs, order.take(i), order[i].0 as int));
    }
    assert forall|i: int, j: int| 0 <= i < j < order.len() implies order[i] != order[j] by {
        assert(is_next(pkgs, order.take(j), order[j].0 as int));
        assert(order.take(j)[i] == order[i]);
        assert(is_placed(order.take(j), order[i].0 as int));
    }
    assert forall|i: int, j: int|
        0 <= i < order.len() && 0 <= j < order.len() && #[trigger] depends_on(
            pkgs,
            order[i].0 as int,
            order[j].0 as int,
        ) implies i < j by {
        assert(is_next(pkgs, order.take(j), order[j].0 as int));
        if j <= i {
            if is_placed(order.take(j), order[i].0 as int) {
                let k = choose|k: int| 0 <= k < order.take(j).len() && (#[trigger] order.take(j)[k]).0 == order[i].0;
                assert(order.take(j)[k] == order[k]);
                assert(is_next(pkgs, order.take(i), order[i].0 as int));
                assert(order.take(i)[k] == order[k]);
                assert(is_placed(order.take(i), order[i].0 as int));
            }
        }
    }
    let rank = Seq::new(pkgs.len(), |q: int| position_of(order, q));
    assert forall|p: int, q: int|
        0 <= p < pkgs.len() && 0 <= q < pkgs.len() && #[trigger] depends_on(pkgs, p, q) implies rank[p]
        < rank[q] by {
        lemma_position(pkgs, order, p);
        lemma_position(pkgs, order, q);
        let i = position_of(order, p);
        let j = position_of(order, q);
        assert(depends_on(pkgs, order[i].0 as int, order[j].0 as int));
    }
    assert(ranks_below(pkgs, rank));
}

/// Where `q` is in `order`.
pub open spec fn position_of(order: Seq<PackageId>, q: int) -> int {
    choose|i: int| 0 <= i < order.len() && order[i].0 == q
}

proof fn lemma_position(pkgs: Seq<PackageInfo>, order: Seq<PackageId>, q: int)
    requires
        greedy(pkgs, order),
        order.len() == pkgs.len(),
        0 <= q < pkgs.len(),
        forall|i: int| 0 <= i < order.len() ==> (#[trigger] order[i]).0 < pkgs.len(),
        forall|i: int, j: int| 0 <= i < j < order.len() ==> order[i] != order[j],
    ensures
        0 <= position_of(order, q) < order.len(),
        order[position_of(order, q)].0 == q,
{
    // The ids in `order` are distinct and below `n`, and there are `n` of
    // them, so each id below `n` occurs.
    lemma_distinct_ids_cover(order, pkgs.len() as int);
    assert(is_placed(order, q));
}

proof fn lemma_distinct_ids_cover(order: Seq<PackageId>, n: int)
    requires
        order.len() == n,
        forall|i: int| 0 <= i < order.len() ==> (#[trigger] order[i]).0 < n,
        forall|i: int, j: int| 0 <= i < j < order.len() ==> order[i] != order[j],
    ensures
        forall|q: int| 0 <= q < n ==> #[trigger] is_placed(order, q),
{
    let ids = order.map_values(|id: PackageId| id.0 as int);
    assert forall|i: int, j: int| 0 <= i < j < ids.len() implies ids[i] != ids[j] by {
        assert(order[i] != order[j]);
    }
    let s = ids.to_set();
    ids.unique_seq_to_set();
    let full = Set::new(|x: int| 0 <= x < n);
    assert(s.subset_of(full)) by {
        assert forall|x: int| s.contains(x) implies full.contains(x) by {
            let i = choose|i: int| 0 <= i < ids.len() && ids[i] == x;
            assert(order[i].0 < n);
        }
    }
    vstd::set_lib::lemma_int_range(0, n);
    assert(full =~= vstd::set_lib::set_int_range(0, n));
    vstd::set_lib::lemma_len_subset(s, full);
    assert(s.len() == full.len());
    vstd::set_lib::lemma_subset_equality(s, full);
    assert forall|q: int| 0 <= q < n implies #[trigger] is_placed(order, q) by {
        assert(full.contains(q));
        assert(s.contains(q));
        let i = choose|i: int| 0 <= i < ids.len() && ids[i] == q;
        assert(order[i].0 == q);
    }
}

/// Users first: repeatedly take, among the packages that no remaining
/// package depends on, the one with the smallest coordinate (ties by id).
/// `None` when the remaining packages all have a remaining user, which
/// happens exactly when the dependencies form a cycle.
fn users_first_order(packages: &Vec<PackageInfo>) -> (r: Option<Vec<PackageId>>)
    requires
        aliases_in_range(packages@),
        packages@.len() <= u32::MAX,
    ensures
        r is Some <==> dependencies_acyclic(packages@),
        r matches Some(order) ==> greedy(packages@, order@) && is_users_first_order(packages@, order@),
{
    let n = packages.len();
    let mut coordinates: Vec<String> = Vec::new();
    let mut placed: Vec<bool> = Vec::new();
    let mut i: usize = 0;
    while i < n
        invariant
            n == packages.len(),
            i <= n,
            coordinates@.len() == i,
            placed@.len() == i,
            forall|k: int| 0 <= k < i ==> !placed@[k],
            forall|k: int| 0 <= k < i ==> (#[trigger] coordinates@[k])@ == info_coordinate(packages@[k]),
        decreases n - i,
    {
        coordinates.push(packages[i].coordinate());
        placed.push(false);
        i = i + 1;
    }
    let mut order: Vec<PackageId> = Vec::new();
    while order.len() < n
        invariant
            n == packages.len(),
            n <= u32::MAX,
            coordinates@.len() == n,
            placed@.len() == n,
            forall|k: int| 0 <= k < n ==> (#[trigger] coordinates@[k])@ == info_coordinate(packages@[k]),
            forall|x: int| 0 <= x < n ==> (placed@[x] <==> is_placed(order@, x)),
            forall|i: int| 0 <= i < order@.len() ==> (#[trigger] order@[i]).0 < n,
            forall|i: int, j: int| 0 <= i < j < order@.len() ==> order@[i] != order@[j],
            order@.len() <= n,
            greedy(packages@, order@),
        decreases n - order@.len(),
    {
        let mut best: Option<usize> = None;
        let mut q: usize = 0;
        while q < n
            invariant
                n == packages.len(),
                q <= n,
                coordinates@.len() == n,
                placed@.len() == n,
                forall|k: int| 0 <= k < n ==> (#[trigger] coordinates@[k])@ == info_coordinate(packages@[k]),
                forall|x: int| 0 <= x < n ==> (placed@[x] <==> is_placed(order@, x)),
                best matches Some(b) ==> b < q && is_ready(packages@, order@, b as int) && forall|o: int|
                    0 <= o < q && #[trigger] is_ready(packages@, order@, o) ==> goes_first(packages@, b as int, o),
                best is None ==> forall|o: int| 0 <= o < q ==> !#[trigger] is_ready(packages@, order@, o),
            decreases n - q,
        {
            if ready_now(packages, &placed, q, Ghost(order@)) {
                match best {
                    None => {
                        best = Some(q);
                        proof {
                            lemma_text_lt_irreflexive(info_coordinate(packages@[q as int]));
                        }
                    },
                    Some(b) => {
                        if str_lt(coordinates[q].as_str(), coordinates[b].as_str()) {
                            proof {
                                assert forall|o: int|
                                    0 <= o < q + 1 && #[trigger] is_ready(packages@, order@, o) implies goes_first(
                                    packages@,
                                    q as int,
                                    o,
                                ) by {
                                    let cq = info_coordinate(packages@[q as int]);
                                    let cb = info_coordinate(packages@[b as int]);
                                    let co = info_coordinate(packages@[o]);
                                    if o < q {
                                        assert(goes_first(packages@, b as int, o));
                                        if text_lt(cb, co) {
                                            crate::order::lemma_text_lt_transitive(cq, cb, co);
                                        }
                                    } else {
                                        lemma_text_lt_irreflexive(cq);
                                    }
                                }
                            }
                            best = Some(q);
                        } else {
                            proof {
                                let cq = info_coordinate(packages@[q as int]);
                                let cb = info_coordinate(packages@[b as int]);
                                lemma_text_lt_total(cb, cq);
                            }
                        }
                    },
                }
            }
            q = q + 1;
        }
        match best {
            None => {
                proof {
                    assert forall|o: int| !#[trigger] is_ready(packages@, order@, o) by {}
                    let x0 = lemma_some_unplaced(placed@, order@, n as int);
                    lemma_stuck_means_cycle(packages@, order@);
                }
                return None;
            },
            Some(b) => {
                let ghost before = order@;
                placed.set(b, true);
                order.push(PackageId(b as u32));
                proof {
                    assert(order@ == before.push(PackageId(b as u32)));
                    assert forall|x: int| 0 <= x < n implies (placed@[x] <==> is_placed(order@, x)) by {
                        lemma_take_push(before, PackageId(b as u32), x);
                    }
                    assert(order@.take(before.len() as int) =~= before);
                    assert forall|k: int| 0 <= k < order@.len() implies is_next(
                        packages@,
                        order@.take(k),
                        (#[trigger] order@[k]).0 as int,
                    ) by {
                        if k < before.len() {
                            assert(order@.take(k) =~= before.take(k));
                            assert(order@[k] == before[k]);
                        }
                    }
                    assert forall|i: int, j: int| 0 <= i < j < order@.len() implies order@[i] != order@[j] by {
                        if j == before.len() {
                            assert(order@[i] == before[i]);
                            assert(is_placed(before, before[i].0 as int));
                        }
                    }
                }
            },
        }
    }
    proof {
        lemma_greedy_is_order(packages@, order@);
    }
    Some(order)
}

proof fn lemma_some_unplaced(placed: Seq<bool>, order: Seq<PackageId>, n: int) -> (x: int)
    requires
        placed.len() == n,
        forall|x: int| 0 <= x < n ==> (placed[x] <==> is_placed(order, x)),
        forall|i: int| 0 <= i < order.len() ==> (#[trigger] order[i]).0 < n,
        forall|i: int, j: int| 0 <= i < j < order.len() ==> order[i] != order[j],
        order.len() < n,
    ensures
        0 <= x < n,
        !is_placed(order, x),
{
    let ids = order.map_values(|id: PackageId| id.0 as int);
    assert forall|i: int, j: int| 0 <= i < j < ids.len() implies ids[i] != ids[j] by {
        assert(order[i] != order[j]);
    }
    ids.unique_seq_to_set();
    let s = ids.to_set();
    let full = vstd::set_lib::set_int_range(0, n);
    vstd::set_lib::lemma_int_range(0, n);
    if forall|x: int| 0 <= x < n ==> is_placed(order, x) {
        assert(full.subset_of(s)) by {
            assert forall|x: int| full.contains(x) implies s.contains(x) by {
                assert(0 <= x < n);
                assert(is_placed(order, x));
                let i = choose|i: int| 0 <= i < order.len() && (#[trigger] order[i]).0 == x;
                assert(ids[i] == x);
            }
        }
        vstd::set_lib::lemma_len_subset(full, s);
        assert(false);
    }
    choose|x: int| 0 <= x < n && !is_placed(order, x)
}

/// What keeps a graph from being ordered.
#[derive(Clone, Copy, Debug, PartialEq, Eq, Structural)]
pub enum OrderError {
    /// The remaining packages depend on each other in a cycle.
    Cycle,
}

impl OrderError {
    /// The diagnostic text.
    pub fn message(&self) -> (r: String)
        ensures
            r@ == "dependency graph contains a cycle that could not be ordered"@,
    {
        String::from_str("dependency graph contains a cycle that could not be ordered")
    }
}

/// The graph of `packages` (the root first, at id `0`) with its
/// deterministic order.
pub fn finish(packages: Vec<PackageInfo>) -> (r: Result<PackageGraph, OrderError>)
    requires
        aliases_in_range(packages@),
        packages@.len() <= u32::MAX,
    ensures
        r is Ok <==> dependencies_acyclic(packages@),
        r matches Ok(g) ==> g.root.0 == 0 && g.packages@ == packages@ && greedy(packages@, g.order@.reverse())
            && is_dependency_order(packages@, g.order@),
{
    match dependency_order(&packages) {
        Some(order) => Ok(PackageGraph { root: PackageId(0), packages, order }),
        None => Err(OrderError::Cycle),
    }
}


// ---------------------------------------------------------------------------
// The resolver's decisions.
// ---------------------------------------------------------------------------

/// Why resolution stopped.
#[derive(Debug, Clone, PartialEq, Eq)]
pub enum ResolveError {
    /// A dependency coordinate is malformed.
    Manifest(crate::manifest::ManifestError),
    /// Another version of the same `(group, name)` is already selected.
    Conflict { wanted: String, existing: String, wanted_chain: String, existing_chain: String },
    /// The same package is already selected from another source.
    SourceConflict {
        coordinate: String,
        incoming: String,
        requested_chain: String,
        existing_source: String,
        existing_chain: String,
    },
    /// A package depends on a package that is still being loaded.
    Cycle { parent_chain: String, existing: String, existing_chain: String },
    /// A fetched package declares another coordinate than the one asked for.
    CoordinateMismatch { root: String, actual: String, expected: String },
    /// A remote dependency has no `[lib]` target.
    RemoteWithoutLib { coordinate: String },
    /// A path dependency has no `[lib]` target.
    PathWithoutLib { coordinate: String, chain: String },
    /// The graph cannot be ordered.
    Order(OrderError),
    /// The graph cannot take another package.
    TooManyPackages,
    /// A fetched package names a package that is already selected.
    AlreadySelected { coordinate: String },
}

/// How a resolution error reads.
pub open spec fn resolve_error_text(e: ResolveError) -> Seq<char> {
    match e {
        ResolveError::Manifest(m) => crate::manifest::manifest_error_text(m@, ""@),
        ResolveError::Conflict { wanted, existing, wanted_chain, existing_chain } =>
            "dependency conflict for `"@ + wanted@ + "`:\n  "@ + wanted@ + "\n    required via "@
            + wanted_chain@ + "\n  "@ + existing@ + "\n    already selected via "@ + existing_chain@
            + "\nA build allows exactly one version and one source per (group, name)."@,
        ResolveError::SourceConflict {
            coordinate,
            incoming,
            requested_chain,
            existing_source,
            existing_chain,
        } => "dependency source conflict for `"@ + coordinate@ + "`:\n  "@ + incoming@
            + " requested via "@ + requested_chain@ + "\n  "@ + coordinate@ + " already selected from "@
            + existing_source@ + " via "@ + existing_chain@
            + "\nA build allows exactly one version and one source per (group, name)."@,
        ResolveError::Cycle { parent_chain, existing, existing_chain } =>
            "dependency cycle detected:\n  "@ + parent_chain@ + " -> "@ + existing@ + "\n  "@
            + existing_chain@,
        ResolveError::CoordinateMismatch { root, actual, expected } => "downloaded package at `"@
            + root@ + "` declares coordinate `"@ + actual@ + "`, expected `"@ + expected@ + "`"@,
        ResolveError::RemoteWithoutLib { coordinate } => "dependency `"@ + coordinate@
            + "` must declare a `[lib]` target"@,
        ResolveError::PathWithoutLib { coordinate, chain } => "dependency `"@ + coordinate@
            + "` from `"@ + chain@ + "` must declare a `[lib]` target"@,
        ResolveError::Order(_) => "dependency graph contains a cycle that could not be ordered"@,
        ResolveError::TooManyPackages => "too many packages in the dependency graph"@,
        ResolveError::AlreadySelected { coordinate } => "package `"@ + coordinate@ + "` is already selected"@,
    }
}

impl ResolveError {
    /// The diagnostic text.
    pub fn message(&self) -> (r: String)
        ensures
            r@ == resolve_error_text(*self),
    {
        let mut m = String::new();
        match self {
            ResolveError::Manifest(e) => {
                return e.message("");
            },
            ResolveError::Conflict { wanted, existing, wanted_chain, existing_chain } => {
                push_str(&mut m, "dependency conflict for `");
                push_str(&mut m, wanted.as_str());
                push_str(&mut m, "`:\n  ");
                push_str(&mut m, wanted.as_str());
                push_str(&mut m, "\n    required via ");
                push_str(&mut m, wanted_chain.as_str());
                push_str(&mut m, "\n  ");
                push_str(&mut m, existing.as_str());
                push_str(&mut m, "\n    already selected via ");
                push_str(&mut m, existing_chain.as_str());
                push_str(
                    &mut m,
                    "\nA build allows exactly one version and one source per (group, name).",
                );
            },
            ResolveError::SourceConflict {
                coordinate,
                incoming,
                requested_chain,
                existing_source,
                existing_chain,
            } => {
                push_str(&mut m, "dependency source conflict for `");
                push_str(&mut m, coordinate.as_str());
                push_str(&mut m, "`:\n  ");
                push_str(&mut m, incoming.as_str());
                push_str(&mut m, " requested via ");
                push_str(&mut m, requested_chain.as_str());
                push_str(&mut m, "\n  ");
                push_str(&mut m, coordinate.as_str());
                push_str(&mut m, " already selected from ");
                push_str(&mut m, existing_source.as_str());
                push_str(&mut m, " via ");
                push_str(&mut m, existing_chain.as_str());
                push_str(
                    &mut m,
                    "\nA build allows exactly one version and one source per (group, name).",
                );
            },
            ResolveError::Cycle { parent_chain, existing, existing_chain } => {
                push_str(&mut m, "dependency cycle detected:\n  ");
                push_str(&mut m, parent_chain.as_str());
                push_str(&mut m, " -> ");
                push_str(&mut m, existing.as_str());
                push_str(&mut m, "\n  ");
                push_str(&mut m, existing_chain.as_str());
            },
            ResolveError::CoordinateMismatch { root, actual, expected } => {
                push_str(&mut m, "downloaded package at `");
                push_str(&mut m, root.as_str());
                push_str(&mut m, "` declares coordinate `");
                push_str(&mut m, actual.as_str());
                push_str(&mut m, "`, expected `");
                push_str(&mut m, expected.as_str());
                push_str(&mut m, "`");
            },
            ResolveError::RemoteWithoutLib { coordinate } => {
                push_str(&mut m, "dependency `");
                push_str(&mut m, coordinate.as_str());
                push_str(&mut m, "` must declare a `[lib]` target");
            },
            ResolveError::PathWithoutLib { coordinate, chain } => {
                push_str(&mut m, "dependency `");
                push_str(&mut m, coordinate.as_str());
                push_str(&mut m, "` from `");
                push_str(&mut m, chain.as_str());
                push_str(&mut m, "` must declare a `[lib]` target");
            },
            ResolveError::Order(e) => {
                return e.message();
            },
            ResolveError::TooManyPackages => push_str(&mut m, "too many packages in the dependency graph"),
            ResolveError::AlreadySelected { coordinate } => {
                push_str(&mut m, "package `");
                push_str(&mut m, coordinate.as_str());
                push_str(&mut m, "` is already selected");
            },
        }
        m
    }
}

/// Coordinates joined with ` -> `.
pub open spec fn chain_text(chain: Seq<String>) -> Seq<char>
    decreases chain.len(),
{
    if chain.len() == 0 {
        seq![]
    } else if chain.len() == 1 {
        chain[0]@
    } else {
        chain_text(chain.drop_last()) + " -> "@ + chain.last()@
    }
}

fn join_chain(chain: &Vec<String>) -> (r: String)
    ensures
        r@ == chain_text(chain@),
{
    let mut r = String::new();
    let mut i: usize = 0;
    while i < chain.len()
        invariant
            i <= chain.len(),
            r@ == chain_text(chain@.take(i as int)),
        decreases chain.len() - i,
    {
        assert(chain@.take(i + 1).drop_last() =~= chain@.take(i as int));
        if i > 0 {
            push_str(&mut r, " -> ");
        }
        push_str(&mut r, chain[i].as_str());
        i = i + 1;
    }
    assert(chain@.take(chain@.len() as int) =~= chain@);
    r
}

/// The state of a resolution in progress: installed packages (the root at
/// id `0`), which of them are still loading, the `(group, name)` and
/// canonical-directory indexes, and the coordinate chain that led to each.
#[derive(Debug)]
pub struct Resolver {
    pub packages: Vec<PackageInfo>,
    pub loading: Vec<bool>,
    pub names: Vec<(String, String, PackageId)>,
    pub paths: Vec<(String, PackageId)>,
    pub chains: Vec<Vec<String>>,
}

/// The package registered under `(group, name)`.
pub open spec fn named(names: Seq<(String, String, PackageId)>, group: Seq<char>, name: Seq<char>) -> Option<PackageId>
    decreases names.len(),
{
    if names.len() == 0 {
        None
    } else if names[0].0@ == group && names[0].1@ == name {
        Some(names[0].2)
    } else {
        named(names.drop_first(), group, name)
    }
}

/// No `(group, name)` is registered twice: a build selects one version
/// from one source per `(group, name)`.
pub open spec fn names_distinct(names: Seq<(String, String, PackageId)>) -> bool {
    forall|i: int, j: int|
        0 <= i < j < names.len() ==> !((#[trigger] names[i]).0@ == (#[trigger] names[j]).0@
            && names[i].1@ == names[j].1@)
}

/// An unregistered `(group, name)` matches no entry.
pub proof fn lemma_named_none(names: Seq<(String, String, PackageId)>, group: Seq<char>, name: Seq<char>)
    requires
        named(names, group, name) is None,
    ensures
        forall|i: int| 0 <= i < names.len() ==> !((#[trigger] names[i]).0@ == group && names[i].1@ == name),
    decreases names.len(),
{
    if names.len() > 0 {
        lemma_named_none(names.drop_first(), group, name);
        assert forall|i: int| 0 <= i < names.len() implies !((#[trigger] names[i]).0@ == group
            && names[i].1@ == name) by {
            if i > 0 {
                assert(names[i] == names.drop_first()[i - 1]);
            }
        }
    }
}

/// Registering a fresh `(group, name)` keeps the table distinct.
proof fn lemma_distinct_push(names: Seq<(String, String, PackageId)>, entry: (String, String, PackageId))
    requires
        names_distinct(names),
        named(names, entry.0@, entry.1@) is None,
    ensures
        names_distinct(names.push(entry)),
{
    lemma_named_none(names, entry.0@, entry.1@);
    let after = names.push(entry);
    assert forall|i: int, j: int| 0 <= i < j < after.len() implies !((#[trigger] after[i]).0@
        == (#[trigger] after[j]).0@ && after[i].1@ == after[j].1@) by {
        assert(after[i] == names[i]);
        if j < names.len() {
            assert(after[j] == names[j]);
        }
    }
}

/// The package registered under a canonical directory.
pub open spec fn at_path(paths: Seq<(String, PackageId)>, dir: Seq<char>) -> Option<PackageId>
    decreases paths.len(),
{
    if paths.len() == 0 {
        None
    } else if paths[0].0@ == dir {
        Some(paths[0].1)
    } else {
        at_path(paths.drop_first(), dir)
    }
}

impl Resolver {
    /// The resolver's parts agree: one loading flag and one chain per
    /// package, ids are positions, and every index entry and alias names an
    /// installed package.
    pub open spec fn wf(&self) -> bool {
        &&& self.shape_wf()
        &&& self.names@.len() == self.packages@.len()
        &&& forall|i: int| 0 <= i < self.names@.len() ==> (#[trigger] self.names@[i]).2.0 == i
        &&& names_distinct(self.names@)
    }

    /// The tables agree in length and refer only to installed packages, and
    /// every alias table is in alias order.
    pub open spec fn shape_wf(&self) -> bool {
        &&& crate::package::all_aliases_sorted(self.packages@)
        &&& self.loading@.len() == self.packages@.len()
        &&& self.chains@.len() == self.packages@.len()
        &&& self.packages@.len() <= u32::MAX
        &&& forall|i: int| 0 <= i < self.packages@.len() ==> (#[trigger] self.packages@[i]).id.0 == i
        &&& forall|i: int| 0 <= i < self.names@.len() ==> (#[trigger] self.names@[i]).2.0 < self.packages@.len()
        &&& forall|i: int| 0 <= i < self.paths@.len() ==> (#[trigger] self.paths@[i]).1.0 < self.packages@.len()
        &&& aliases_in_range(self.packages@)
    }

    /// How the chain to package `id` reads.
    pub open spec fn chain_of(&self, id: int) -> Seq<char> {
        chain_text(self.chains@[id]@)
    }

    fn chain_string(&self, id: PackageId) -> (r: String)
        requires
            self.wf(),
            (id.0 as int) < self.packages@.len(),
        ensures
            r@ == self.chain_of(id.0 as int),
    {
        join_chain(&self.chains[id.0 as usize])
    }

    /// Whether a package of `(group, name)` is already selected.
    pub fn is_selected(&self, group: &str, name: &str) -> (r: bool)
        ensures
            r == named(self.names@, group@, name@) is Some,
    {
        self.lookup_name(group, name).is_some()
    }

    fn lookup_name(&self, group: &str, name: &str) -> (r: Option<PackageId>)
        ensures
            r == named(self.names@, group@, name@),
    {
        let mut i: usize = 0;
        assert(self.names@.skip(0) =~= self.names@);
        while i < self.names.len()
            invariant
                i <= self.names.len(),
                named(self.names@, group@, name@) == named(self.names@.skip(i as int), group@, name@),
            decreases self.names.len() - i,
        {
            assert(self.names@.skip(i as int)[0] == self.names@[i as int]);
            assert(self.names@.skip(i as int).drop_first() =~= self.names@.skip(i + 1));
            if str_eq(self.names[i].0.as_str(), group) && str_eq(self.names[i].1.as_str(), name) {
                return Some(self.names[i].2);
            }
            i = i + 1;
        }
        None
    }

    fn lookup_path(&self, dir: &str) -> (r: Option<PackageId>)
        ensures
            r == at_path(self.paths@, dir@),
    {
        let mut i: usize = 0;
        assert(self.paths@.skip(0) =~= self.paths@);
        while i < self.paths.len()
            invariant
                i <= self.paths.len(),
                at_path(self.paths@, dir@) == at_path(self.paths@.skip(i as int), dir@),
            decreases self.paths.len() - i,
        {
            assert(self.paths@.skip(i as int)[0] == self.paths@[i as int]);
            assert(self.paths@.skip(i as int).drop_first() =~= self.paths@.skip(i + 1));
            if str_eq(self.paths[i].0.as_str(), dir) {
                return Some(self.paths[i].1);
            }
            i = i + 1;
        }
        None
    }

    /// The package with id `id`.
    pub fn package(&self, id: PackageId) -> (r: &PackageInfo)
        requires
            (id.0 as int) < self.packages@.len(),
        ensures
            *r == self.packages@[id.0 as int],
    {
        &self.packages[id.0 as usize]
    }

    /// Decides a remote dependency `coordinate` from `repository` wanted by
    /// `parent`: an already selected package is reused when it has the same
    /// coordinate and comes from the same repository and is not still
    /// loading; `Ok(None)` means it must be fetched.
    pub fn decide_remote(&self, parent: PackageId, coordinate: &str, repository: &str) -> (r: Result<
        Option<PackageId>,
        ResolveError,
    >)
        requires
            self.wf(),
            (parent.0 as int) < self.packages@.len(),
        ensures
            crate::names::coordinate_fault(coordinate@) is Some ==> (r matches Err(
                ResolveError::Manifest(m),
            ) && m@ == (crate::manifest::ManifestProblem::InvalidCoordinate {
                coordinate: coordinate@,
                fault: crate::names::coordinate_fault(coordinate@)->0,
            })),
            crate::names::coordinate_fault(coordinate@) is None ==> {
                let parts = crate::text::segments(coordinate@, ':');
                match named(self.names@, parts[0], parts[1]) {
                    None => r == Ok::<Option<PackageId>, ResolveError>(None),
                    Some(e) => {
                        let existing = self.packages@[e.0 as int];
                        if info_coordinate(existing) != coordinate@ {
                            r matches Err(ResolveError::Conflict { wanted, existing: ex, wanted_chain, existing_chain })
                                && wanted@ == coordinate@ && ex@ == info_coordinate(existing)
                                && wanted_chain@ == self.chain_of(parent.0 as int) && existing_chain@
                                == self.chain_of(e.0 as int)
                        } else if !is_same_remote(existing.source, repository@) {
                            r matches Err(
                                ResolveError::SourceConflict {
                                    coordinate: c,
                                    incoming,
                                    requested_chain,
                                    existing_source,
                                    existing_chain,
                                },
                            ) && c@ == coordinate@ && incoming@ == "coordinate `"@ + coordinate@
                                + "` from repository `"@ + repository@ + "`"@ && requested_chain@
                                == self.chain_of(parent.0 as int) && existing_source@
                                == source_description(existing.source) && existing_chain@
                                == self.chain_of(e.0 as int)
                        } else if self.loading@[e.0 as int] {
                            r matches Err(ResolveError::Cycle { parent_chain, existing: ex, existing_chain })
                                && ex@ == coordinate@ && parent_chain@ == self.chain_of(parent.0 as int)
                                && existing_chain@ == self.chain_of(e.0 as int)
                        } else {
                            r == Ok::<Option<PackageId>, ResolveError>(Some(e))
                        }
                    },
                }
            },
    {
        let (group, name, _version) = match crate::manifest::parse_coordinate(coordinate) {
            Ok(parts) => parts,
            Err(e) => {
                return Err(ResolveError::Manifest(e));
            },
        };
        let existing = match self.lookup_name(group.as_str(), name.as_str()) {
            None => {
                return Ok(None);
            },
            Some(e) => e,
        };
        proof {
            crate::lockfile::lemma_named_in_range(self.names@, group@, name@, self.packages@.len() as int);
        }
        let info = &self.packages[existing.0 as usize];
        let existing_coordinate = info.coordinate();
        if !str_eq(existing_coordinate.as_str(), coordinate) {
            return Err(
                ResolveError::Conflict {
                    wanted: coordinate.to_owned(),
                    existing: existing_coordinate,
                    wanted_chain: self.chain_string(parent),
                    existing_chain: self.chain_string(existing),
                },
            );
        }
        if !same_remote_repository(&info.source, repository) {
            let mut incoming = String::new();
            push_str(&mut incoming, "coordinate `");
            push_str(&mut incoming, coordinate);
            push_str(&mut incoming, "` from repository `");
            push_str(&mut incoming, repository);
            push_str(&mut incoming, "`");
            return Err(
                ResolveError::SourceConflict {
                    coordinate: existing_coordinate,
                    incoming,
                    requested_chain: self.chain_string(parent),
                    existing_source: describe_source(&info.source),
                    existing_chain: self.chain_string(existing),
                },
            );
        }
        if self.loading[existing.0 as usize] {
            return Err(
                ResolveError::Cycle {
                    parent_chain: self.chain_string(parent),
                    existing: existing_coordinate,
                    existing_chain: self.chain_string(existing),
                },
            );
        }
        Ok(Some(existing))
    }

    /// Decides a path dependency whose canonical directory is `canonical`:
    /// the package already installed from there is reused unless it is
    /// still loading; `Ok(None)` means it must be loaded.
    pub fn decide_path(&self, parent: PackageId, canonical: &str) -> (r: Result<
        Option<PackageId>,
        ResolveError,
    >)
        requires
            self.wf(),
            (parent.0 as int) < self.packages@.len(),
        ensures
            match at_path(self.paths@, canonical@) {
                None => r == Ok::<Option<PackageId>, ResolveError>(None),
                Some(e) => if self.loading@[e.0 as int] {
                    r matches Err(ResolveError::Cycle { parent_chain, existing, existing_chain })
                        && existing@ == info_coordinate(self.packages@[e.0 as int]) && parent_chain@
                        == self.chain_of(parent.0 as int) && existing_chain@ == self.chain_of(
                        e.0 as int,
                    )
                } else {
                    r == Ok::<Option<PackageId>, ResolveError>(Some(e))
                },
            },
    {
        match self.lookup_path(canonical) {
            None => Ok(None),
            Some(e) => {
                proof {
                    crate::lockfile::lemma_at_path_in_range(self.paths@, canonical@, self.packages@.len() as int);
                }
                if self.loading[e.0 as usize] {
                    Err(
                        ResolveError::Cycle {
                            parent_chain: self.chain_string(parent),
                            existing: self.packages[e.0 as usize].coordinate(),
                            existing_chain: self.chain_string(e),
                        },
                    )
                } else {
                    Ok(Some(e))
                }
            },
        }
    }

    /// Marks package `id` as fully loaded.
    pub fn end_load(&mut self, id: PackageId)
        requires
            old(self).wf(),
            (id.0 as int) < old(self).packages@.len(),
        ensures
            final(self).wf(),
            final(self).loading@ == old(self).loading@.update(id.0 as int, false),
            final(self).packages@ == old(self).packages@,
            final(self).names@ == old(self).names@,
            final(self).paths@ == old(self).paths@,
            final(self).chains@ == old(self).chains@,
    {
        self.loading.set(id.0 as usize, false);
    }
}


/// The package that installing `manifest` from `source` as id `id` gives.
pub open spec fn installed(id: int, manifest: Manifest, source: PackageSource, info: PackageInfo) -> bool {
    &&& info.id.0 == id
    &&& info.manifest == manifest
    &&& info.root@ == manifest.root@
    &&& info.source_root@ == manifest.package.source@
    &&& info.source == source
    &&& info.prefix@ == crate::package::package_prefix(id as u32)
    &&& info.aliases@.len() == 0
}

/// Where `alias` goes in an alias table kept in alias order: at the first
/// entry whose alias does not sort before it.
pub open spec fn alias_slot(aliases: Seq<(String, PackageId)>, alias: Seq<char>, i: int) -> int
    decreases aliases.len() - i,
{
    if i >= aliases.len() || i < 0 {
        aliases.len() as int
    } else if !text_lt(aliases[i].0@, alias) {
        i
    } else {
        alias_slot(aliases, alias, i + 1)
    }
}

proof fn lemma_alias_slot_split(aliases: Seq<(String, PackageId)>, alias: Seq<char>, i: int)
    requires
        0 <= i <= aliases.len(),
        forall|k: int| 0 <= k < i ==> text_lt((#[trigger] aliases[k]).0@, alias),
    ensures
        forall|k: int| 0 <= k < alias_slot(aliases, alias, i) ==> text_lt((#[trigger] aliases[k]).0@, alias),
        alias_slot(aliases, alias, i) < aliases.len() ==> !text_lt(
            aliases[alias_slot(aliases, alias, i)].0@,
            alias,
        ),
    decreases aliases.len() - i,
{
    if i < aliases.len() && text_lt(aliases[i].0@, alias) {
        lemma_alias_slot_split(aliases, alias, i + 1);
    }
}

/// Binding at the alias slot keeps an alias table in alias order.
proof fn lemma_bind_keeps_sorted(
    before: Seq<(String, PackageId)>,
    after: Seq<(String, PackageId)>,
    alias: Seq<char>,
)
    requires
        crate::package::aliases_sorted(before),
        ({
            let slot = alias_slot(before, alias, 0);
            if slot < before.len() && before[slot].0@ == alias {
                after.len() == before.len() && after[slot].0@ == alias && forall|k: int|
                    0 <= k < before.len() && k != slot ==> after[k] == before[k]
            } else {
                after.len() == before.len() + 1 && after[slot].0@ == alias && after.remove(slot)
                    == before
            }
        }),
    ensures
        crate::package::aliases_sorted(after),
{
    lemma_alias_slot_bounds(before, alias, 0);
    lemma_alias_slot_split(before, alias, 0);
    let slot = alias_slot(before, alias, 0);
    if slot < before.len() && before[slot].0@ == alias {
        assert forall|i: int, j: int| 0 <= i < j < after.len() implies text_lt(
            (#[trigger] after[i]).0@,
            (#[trigger] after[j]).0@,
        ) by {
            assert(after[i].0@ == before[i].0@);
            assert(after[j].0@ == before[j].0@);
        }
    } else {
        if slot < before.len() {
            lemma_text_lt_total(before[slot].0@, alias);
        }
        assert forall|i: int, j: int| 0 <= i < j < after.len() implies text_lt(
            (#[trigger] after[i]).0@,
            (#[trigger] after[j]).0@,
        ) by {
            if j < slot {
                assert(after[i] == after.remove(slot)[i]);
                assert(after[j] == after.remove(slot)[j]);
            } else if j == slot {
                assert(after[i] == after.remove(slot)[i]);
            } else if i == slot {
                assert(after[j] == after.remove(slot)[j - 1]);
                assert(j - 1 >= slot);
                if j - 1 > slot {
                    assert(text_lt(before[slot].0@, before[j - 1].0@));
                    lemma_text_lt_transitive(alias, before[slot].0@, before[j - 1].0@);
                }
            } else if i < slot {
                assert(after[i] == after.remove(slot)[i]);
                assert(after[j] == after.remove(slot)[j - 1]);
            } else {
                assert(after[i] == after.remove(slot)[i - 1]);
                assert(after[j] == after.remove(slot)[j - 1]);
            }
        }
    }
}

proof fn lemma_alias_slot_bounds(aliases: Seq<(String, PackageId)>, alias: Seq<char>, i: int)
    requires
        0 <= i <= aliases.len(),
    ensures
        i <= alias_slot(aliases, alias, i) <= aliases.len(),
    decreases aliases.len() - i,
{
    if i < aliases.len() && text_lt(aliases[i].0@, alias) {
        lemma_alias_slot_bounds(aliases, alias, i + 1);
    }
}

impl Resolver {
    fn install(&mut self, manifest: Manifest, source: PackageSource, chain: Vec<String>) -> (id: PackageId)
        requires
            old(self).wf(),
            old(self).packages@.len() < u32::MAX,
        ensures
            final(self).shape_wf(),
            id.0 == old(self).packages@.len(),
            final(self).packages@.len() == old(self).packages@.len() + 1,
            final(self).packages@.drop_last() == old(self).packages@,
            installed(id.0 as int, manifest, source, final(self).packages@.last()),
            final(self).loading@ == old(self).loading@.push(true),
            final(self).chains@.drop_last() == old(self).chains@,
            final(self).chains@.last()@.drop_last() == chain@,
            final(self).chains@.last()@.last()@ == info_coordinate(final(self).packages@.last()),
            final(self).names@ == old(self).names@,
            final(self).paths@ == old(self).paths@,
    {
        let id = PackageId(self.packages.len() as u32);
        let mut chain = chain;
        let coordinate = manifest.package.coordinate();
        let ghost before_chain = chain@;
        chain.push(coordinate);
        let prefix = id.prefix();
        let root = manifest.root.clone();
        let source_root = manifest.package.source.clone();
        let info = PackageInfo { id, manifest, root, source_root, source, prefix, aliases: Vec::new() };
        let ghost before = self.packages@;
        self.packages.push(info);
        self.chains.push(chain);
        self.loading.push(true);
        proof {
            assert(self.packages@.drop_last() =~= before);
            assert forall|p: int, a: int|
                0 <= p < self.packages@.len() && 0 <= a < self.packages@[p].aliases@.len() implies (
                #[trigger] self.packages@[p].aliases@[a]).1.0 < self.packages@.len() by {
                if p < before.len() {
                    assert(self.packages@[p] == before[p]);
                }
            }
            assert forall|i: int| 0 <= i < self.packages@.len() implies (#[trigger] self.packages@[i]).id.0 == i by {
                if i < before.len() {
                    assert(self.packages@[i] == before[i]);
                }
            }
            assert(self.chains@.last()@.drop_last() =~= before_chain);
        }
        id
    }

    /// Starts resolving from the root manifest (installed as id `0` and
    /// loading), registering its `(group, name)` and, when it has one, its
    /// canonical directory.
    pub fn start(root: Manifest, canonical_root: Option<String>) -> (r: Result<Resolver, ResolveError>)
        ensures
            r is Ok <==> crate::names::coordinate_fault(
                crate::manifest::coordinate_text(
                    root.package.group@,
                    root.package.name@,
                    root.package.version@,
                ),
            ) is None,
            r matches Ok(res) ==> res.wf() && res.packages@.len() == 1 && installed(
                0,
                root,
                PackageSource::Root,
                res.packages@[0],
            ) && res.loading@ == seq![true] && res.names@.len() == 1 && res.names@[0].2.0 == 0
                && res.names@[0].0@ == crate::text::segments(
                crate::manifest::coordinate_text(
                    root.package.group@,
                    root.package.name@,
                    root.package.version@,
                ),
                ':',
            )[0] && res.names@[0].1@ == crate::text::segments(
                crate::manifest::coordinate_text(
                    root.package.group@,
                    root.package.name@,
                    root.package.version@,
                ),
                ':',
            )[1] && match canonical_root {
                Some(c) => res.paths@.len() == 1 && res.paths@[0].0@ == c@ && res.paths@[0].1.0 == 0,
                None => res.paths@.len() == 0,
            },
    {
        let coordinate = root.package.coordinate();
        let (group, name, _version) = match crate::manifest::parse_coordinate(coordinate.as_str()) {
            Ok(parts) => parts,
            Err(e) => {
                return Err(ResolveError::Manifest(e));
            },
        };
        let mut res = Resolver {
            packages: Vec::new(),
            loading: Vec::new(),
            names: Vec::new(),
            paths: Vec::new(),
            chains: Vec::new(),
        };
        let id = res.install(root, PackageSource::Root, Vec::new());
        res.names.push((group, name, id));
        match canonical_root {
            Some(c) => res.paths.push((c, id)),
            None => {},
        }
        Ok(res)
    }

    /// Admits a fetched remote package for `coordinate` from `repository`,
    /// wanted by `parent`: its manifest must declare that coordinate and a
    /// `[lib]` target. The new package is loading.
    pub fn admit_remote(
        &mut self,
        parent: PackageId,
        coordinate: &str,
        repository: &str,
        acquired: AcquiredPackage,
        manifest: Manifest,
    ) -> (r: Result<PackageId, ResolveError>)
        requires
            old(self).wf(),
            (parent.0 as int) < old(self).packages@.len(),
        ensures
            final(self).wf(),
            r is Ok <==> (crate::manifest::coordinate_text(
                manifest.package.group@,
                manifest.package.name@,
                manifest.package.version@,
            ) == coordinate@ && manifest.lib is Some && old(self).packages@.len() < u32::MAX && named(
                old(self).names@,
                manifest.package.group@,
                manifest.package.name@,
            ) is None),
            r matches Err(ResolveError::AlreadySelected { coordinate: c }) ==> c@ == coordinate@,
            crate::manifest::coordinate_text(
                manifest.package.group@,
                manifest.package.name@,
                manifest.package.version@,
            ) == coordinate@ && manifest.lib is Some && old(self).packages@.len() >= u32::MAX ==> r matches Err(
                ResolveError::TooManyPackages,
            ),
            crate::manifest::coordinate_text(
                manifest.package.group@,
                manifest.package.name@,
                manifest.package.version@,
            ) == coordinate@ && manifest.lib is Some && old(self).packages@.len() < u32::MAX && named(
                old(self).names@,
                manifest.package.group@,
                manifest.package.name@,
            ) is Some ==> r matches Err(ResolveError::AlreadySelected { .. }),
            r is Err ==> *final(self) == *old(self),
            r matches Err(ResolveError::CoordinateMismatch { root, actual, expected }) ==> root@
                == acquired.root@ && expected@ == coordinate@ && actual@
                == crate::manifest::coordinate_text(
                manifest.package.group@,
                manifest.package.name@,
                manifest.package.version@,
            ),
            r matches Err(ResolveError::RemoteWithoutLib { coordinate: c }) ==> c@ == coordinate@,
            crate::manifest::coordinate_text(
                manifest.package.group@,
                manifest.package.name@,
                manifest.package.version@,
            ) != coordinate@ ==> r matches Err(ResolveError::CoordinateMismatch { .. }),
            r is Err ==> (r matches Err(ResolveError::CoordinateMismatch { .. }) || r matches Err(
                ResolveError::RemoteWithoutLib { .. },
            ) || r matches Err(ResolveError::TooManyPackages) || r matches Err(
                ResolveError::AlreadySelected { .. },
            )),
            r matches Ok(id) ==> id.0 == old(self).packages@.len() && final(self).packages@.drop_last()
                == old(self).packages@ && installed(
                id.0 as int,
                manifest,
                PackageSource::Remote {
                    repository: final(self).packages@.last().source->repository,
                    base: acquired.base,
                    sha256: acquired.sha256,
                },
                final(self).packages@.last(),
            ) && final(self).packages@.last().source->repository@ == repository@
                && final(self).loading@ == old(self).loading@.push(true) && final(self).names@
                == old(self).names@.push(final(self).names@.last()) && final(self).names@.last().0@
                == manifest.package.group@ && final(self).names@.last().1@ == manifest.package.name@
                && final(self).names@.last().2 == id && final(self).paths@ == old(self).paths@
                && final(self).chains@.drop_last() == old(self).chains@ && final(self).chains@.last()@.drop_last()
                == old(self).chains@[parent.0 as int]@,
    {
        let actual = manifest.package.coordinate();
        if !str_eq(actual.as_str(), coordinate) {
            return Err(
                ResolveError::CoordinateMismatch {
                    root: acquired.root,
                    actual,
                    expected: coordinate.to_owned(),
                },
            );
        }
        if manifest.lib.is_none() {
            return Err(ResolveError::RemoteWithoutLib { coordinate: coordinate.to_owned() });
        }
        if self.packages.len() >= 4294967295usize {
            return Err(ResolveError::TooManyPackages);
        }
        if self.is_selected(manifest.package.group.as_str(), manifest.package.name.as_str()) {
            return Err(ResolveError::AlreadySelected { coordinate: coordinate.to_owned() });
        }
        let chain = clone_chain(&self.chains[parent.0 as usize]);
        let group = manifest.package.group.clone();
        let name = manifest.package.name.clone();
        let source = PackageSource::Remote {
            repository: repository.to_owned(),
            base: acquired.base,
            sha256: acquired.sha256,
        };
        let id = self.install(manifest, source, chain);
        let ghost before = self.names@;
        self.names.push((group, name, id));
        proof {
            assert(self.names@ == before.push(self.names@.last()));
            lemma_distinct_push(before, self.names@.last());
        }
        Ok(id)
    }

    /// Admits a path dependency of `parent` whose canonical directory is
    /// `canonical` and whose manifest is `manifest`: no package of the same
    /// `(group, name)` may be selected already, and it must declare a
    /// `[lib]` target. The new package is loading.
    pub fn admit_path(&mut self, parent: PackageId, canonical: String, manifest: Manifest) -> (r: Result<
        PackageId,
        ResolveError,
    >)
        requires
            old(self).wf(),
            (parent.0 as int) < old(self).packages@.len(),
            old(self).packages@.len() < u32::MAX,
        ensures
            final(self).wf(),
            r is Ok <==> (named(old(self).names@, manifest.package.group@, manifest.package.name@) is None
                && manifest.lib is Some),
            r is Err ==> *final(self) == *old(self),
            named(old(self).names@, manifest.package.group@, manifest.package.name@) matches Some(e)
                ==> (r matches Err(
                ResolveError::SourceConflict {
                    coordinate,
                    incoming,
                    requested_chain,
                    existing_source,
                    existing_chain,
                },
            ) && coordinate@ == info_coordinate(old(self).packages@[e.0 as int]) && incoming@
                == "path `"@ + manifest.root@ + "`"@ && requested_chain@ == old(self).chain_of(
                parent.0 as int,
            ) && existing_source@ == source_description(old(self).packages@[e.0 as int].source)
                && existing_chain@ == old(self).chain_of(e.0 as int)),
            named(old(self).names@, manifest.package.group@, manifest.package.name@) is None
                && manifest.lib is None ==> (r matches Err(ResolveError::PathWithoutLib { coordinate, chain })
                && coordinate@ == crate::manifest::coordinate_text(
                manifest.package.group@,
                manifest.package.name@,
                manifest.package.version@,
            ) && chain@ == old(self).chain_of(parent.0 as int)),
            r matches Ok(id) ==> id.0 == old(self).packages@.len() && final(self).packages@.drop_last()
                == old(self).packages@ && installed(
                id.0 as int,
                manifest,
                PackageSource::Path(canonical),
                final(self).packages@.last(),
            ) && final(self).loading@ == old(self).loading@.push(true) && final(self).names@.drop_last()
                == old(self).names@ && final(self).names@.last().0@ == manifest.package.group@
                && final(self).names@.last().1@ == manifest.package.name@ && final(self).names@.last().2
                == id && final(self).paths@.drop_last() == old(self).paths@ && final(self).paths@.last().0@
                == canonical@ && final(self).paths@.last().1 == id,
    {
        match self.lookup_name(manifest.package.group.as_str(), manifest.package.name.as_str()) {
            Some(existing) => {
                proof {
                    crate::lockfile::lemma_named_in_range(
                        self.names@,
                        manifest.package.group@,
                        manifest.package.name@,
                        self.packages@.len() as int,
                    );
                }
                let mut incoming = String::new();
                push_str(&mut incoming, "path `");
                push_str(&mut incoming, manifest.root.as_str());
                push_str(&mut incoming, "`");
                let info = &self.packages[existing.0 as usize];
                return Err(
                    ResolveError::SourceConflict {
                        coordinate: info.coordinate(),
                        incoming,
                        requested_chain: self.chain_string(parent),
                        existing_source: describe_source(&info.source),
                        existing_chain: self.chain_string(existing),
                    },
                );
            },
            None => {},
        }
        if manifest.lib.is_none() {
            return Err(
                ResolveError::PathWithoutLib {
                    coordinate: manifest.package.coordinate(),
                    chain: self.chain_string(parent),
                },
            );
        }
        let chain = clone_chain(&self.chains[parent.0 as usize]);
        let group = manifest.package.group.clone();
        let name = manifest.package.name.clone();
        let key = canonical.clone();
        let id = self.install(manifest, PackageSource::Path(canonical), chain);
        let ghost names_before = self.names@;
        let ghost paths_before = self.paths@;
        self.names.push((group, name, id));
        self.paths.push((key, id));
        proof {
            assert(self.names@ =~= names_before.push(self.names@.last()));
            lemma_distinct_push(names_before, self.names@.last());
            assert(self.names@.drop_last() =~= names_before);
            assert(self.paths@.drop_last() =~= paths_before);
        }
        Ok(id)
    }

    /// Records that package `id` reaches `target` under `alias`, keeping its
    /// alias table in alias order; an alias already present is re-bound.
    pub fn bind_alias(&mut self, id: PackageId, alias: String, target: PackageId)
        requires
            old(self).wf(),
            (id.0 as int) < old(self).packages@.len(),
            (target.0 as int) < old(self).packages@.len(),
        ensures
            final(self).wf(),
            final(self).loading@ == old(self).loading@,
            final(self).names@ == old(self).names@,
            final(self).paths@ == old(self).paths@,
            final(self).chains@ == old(self).chains@,
            final(self).packages@.len() == old(self).packages@.len(),
            forall|i: int| 0 <= i < old(self).packages@.len() && i != id.0 ==> final(self).packages@[i] == old(self).packages@[i],
            ({
                let before = old(self).packages@[id.0 as int].aliases@;
                let after = final(self).packages@[id.0 as int].aliases@;
                let slot = alias_slot(before, alias@, 0);
                if slot < before.len() && before[slot].0@ == alias@ {
                    after.len() == before.len() && after[slot].1 == target && after[slot].0@ == alias@
                        && forall|k: int| 0 <= k < before.len() && k != slot ==> after[k] == before[k]
                } else {
                    after.len() == before.len() + 1 && after[slot].1 == target && after[slot].0@ == alias@
                        && after.remove(slot) == before
                }
            }),
    {
        let idx = id.0 as usize;
        let mut info = self.packages.remove(idx);
        let ghost before = info.aliases@;
        proof {
            lemma_alias_slot_bounds(before, alias@, 0);
        }
        let mut p: usize = 0;
        while p < info.aliases.len() && str_lt(info.aliases[p].0.as_str(), alias.as_str())
            invariant
                p <= info.aliases.len(),
                info.aliases@ == before,
                alias_slot(before, alias@, 0) == alias_slot(before, alias@, p as int),
            decreases info.aliases.len() - p,
        {
            p = p + 1;
        }
        assert(alias_slot(before, alias@, p as int) == p);
        if p < info.aliases.len() && str_eq(info.aliases[p].0.as_str(), alias.as_str()) {
            info.aliases.set(p, (alias, target));
        } else {
            info.aliases.insert(p, (alias, target));
            assert(info.aliases@.remove(p as int) =~= before);
        }
        let ghost others = self.packages@;
        self.packages.insert(idx, info);
        proof {
            assert forall|i: int| 0 <= i < self.packages@.len() implies (#[trigger] self.packages@[i]).id.0 == i by {
                if i < idx {
                    assert(self.packages@[i] == old(self).packages@[i]);
                } else if i > idx {
                    assert(self.packages@[i] == old(self).packages@[i]);
                }
            }
            assert forall|q: int, a: int|
                0 <= q < self.packages@.len() && 0 <= a < self.packages@[q].aliases@.len() implies (
                #[trigger] self.packages@[q].aliases@[a]).1.0 < self.packages@.len() by {
                if q != idx {
                    assert(self.packages@[q] == old(self).packages@[q]);
                } else {
                    let s = self.packages@[q].aliases@;
                    if a != p {
                        if s.len() == before.len() {
                            assert(s[a] == before[a]);
                        } else if a < p {
                            assert(s[a] == s.remove(p as int)[a]);
                            assert(before[a] == old(self).packages@[q].aliases@[a]);
                        } else {
                            assert(s[a] == s.remove(p as int)[a - 1]);
                            assert(before[a - 1] == old(self).packages@[q].aliases@[a - 1]);
                        }
                    }
                }
            }
            assert forall|i: int| 0 <= i < old(self).packages@.len() && i != id.0 implies self.packages@[i] == old(self).packages@[i] by {}
            lemma_bind_keeps_sorted(before, self.packages@[idx as int].aliases@, alias@);
            assert forall|q: int| 0 <= q < self.packages@.len() implies crate::package::aliases_sorted(
                #[trigger] self.packages@[q].aliases@,
            ) by {
                if q != idx {
                    assert(self.packages@[q] == old(self).packages@[q]);
                }
            }
        }
    }

    /// The graph resolved so far, in its deterministic order.
    pub fn finish(self) -> (r: Result<PackageGraph, ResolveError>)
        requires
            self.wf(),
        ensures
            r is Ok <==> dependencies_acyclic(self.packages@),
            r matches Ok(g) ==> g.root.0 == 0 && g.packages@ == self.packages@ && greedy(
                self.packages@,
                g.order@.reverse(),
            ) && is_dependency_order(self.packages@, g.order@),
            r matches Ok(g) ==> crate::package::all_aliases_sorted(g.packages@),
    {
        match finish(self.packages) {
            Ok(g) => Ok(g),
            Err(e) => Err(ResolveError::Order(e)),
        }
    }
}

fn clone_chain(chain: &Vec<String>) -> (r: Vec<String>)
    ensures
        r@ == chain@,
{
    let mut out: Vec<String> = Vec::new();
    let mut i: usize = 0;
    while i < chain.len()
        invariant
            i <= chain.len(),
            out@ == chain@.take(i as int),
        decreases chain.len() - i,
    {
        out.push(chain[i].clone());
        i = i + 1;
        assert(out@ =~= chain@.take(i as int));
    }
    assert(chain@.take(chain@.len() as int) =~= chain@);
    out
}

} // verus!
