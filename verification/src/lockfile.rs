//! `dolphin.lock`: the whole transitive closure of a package graph (each
//! package's coordinate, source, remote digest and sorted dependency aliases,
//! and the root project's direct aliases), and whether a lock file still
//! matches a graph.
//!
//! Reading and writing the TOML text is the caller's part.
use vstd::prelude::*;

use crate::manifest::coordinate_text;
use crate::order::{keyed_map, text_lt, TextKeyed};
use crate::package::{PackageGraph, PackageId, PackageInfo, PackageSource};
use crate::paths::{components, path_components, relative_components, relative_text, texts};
use crate::order::str_lt;
use crate::text::str_eq;

verus! {

/// The lock file name.
pub const LOCKFILE_NAME: &'static str = "dolphin.lock";

/// The compiler version recorded in lock files and package archives.
pub const COMPILER_VERSION: &'static str = "0.1.0";

/// A dependency edge: alias and coordinate.
#[derive(Debug, Clone, PartialEq, Eq)]
pub struct LockedDependency {
    pub alias: String,
    pub coordinate: String,
}

/// One of the root project's direct dependencies.
#[derive(Debug, Clone, PartialEq, Eq)]
pub struct RootDependency {
    pub alias: String,
    pub coordinate: String,
}

/// One locked package.
#[derive(Debug, Clone, PartialEq, Eq)]
pub struct LockedPackage {
    pub coordinate: String,
    /// The repository base URL, or `path`.
    pub source: String,
    pub path: Option<String>,
    pub sha256: Option<String>,
    pub dependencies: Vec<LockedDependency>,
}

/// The lock file.
#[derive(Debug, Clone, PartialEq, Eq)]
pub struct Lockfile {
    pub version: u32,
    pub compiler_version: String,
    pub package: Vec<LockedPackage>,
    pub root_dependency: Vec<RootDependency>,
}

/// A locked package as text.
pub struct LockedModel {
    pub coordinate: Seq<char>,
    pub source: Seq<char>,
    pub path: Option<Seq<char>>,
    pub sha256: Option<Seq<char>>,
    pub dependencies: Seq<(Seq<char>, Seq<char>)>,
}

/// A lock file as text.
pub struct LockModel {
    pub version: u32,
    pub compiler_version: Seq<char>,
    pub packages: Seq<LockedModel>,
    pub roots: Seq<(Seq<char>, Seq<char>)>,
}

pub open spec fn opt_view(o: Option<String>) -> Option<Seq<char>> {
    match o {
        Some(s) => Some(s@),
        None => None,
    }
}

impl View for LockedPackage {
    type V = LockedModel;

    open spec fn view(&self) -> LockedModel {
        LockedModel {
            coordinate: self.coordinate@,
            source: self.source@,
            path: opt_view(self.path),
            sha256: opt_view(self.sha256),
            dependencies: self.dependencies@.map_values(|d: LockedDependency| (d.alias@, d.coordinate@)),
        }
    }
}

/// The texts of locked packages.
pub open spec fn locked_views(s: Seq<LockedPackage>) -> Seq<LockedModel> {
    s.map_values(|p: LockedPackage| p@)
}

impl View for Lockfile {
    type V = LockModel;

    open spec fn view(&self) -> LockModel {
        LockModel {
            version: self.version,
            compiler_version: self.compiler_version@,
            packages: locked_views(self.package@),
            roots: self.root_dependency@.map_values(|d: RootDependency| (d.alias@, d.coordinate@)),
        }
    }
}

// ---------------------------------------------------------------------------
// What a graph locks to.
// ---------------------------------------------------------------------------

/// The coordinate of a package.
pub open spec fn info_coordinate(info: PackageInfo) -> Seq<char> {
    coordinate_text(
        info.manifest.package.group@,
        info.manifest.package.name@,
        info.manifest.package.version@,
    )
}

/// Every id that the graph refers to names one of its packages.
pub open spec fn graph_ids_in_range(graph: PackageGraph) -> bool {
    &&& (graph.root.0 as int) < graph.packages@.len()
    &&& forall|p: int, a: int|
        0 <= p < graph.packages@.len() && 0 <= a < graph.packages@[p].aliases@.len() ==> (
        #[trigger] graph.packages@[p].aliases@[a]).1.0 < graph.packages@.len()
}

/// An alias table as `(alias, coordinate)` texts.
pub open spec fn alias_coordinates(graph: PackageGraph, aliases: Seq<(String, PackageId)>) -> Seq<
    (Seq<char>, Seq<char>),
> {
    aliases.map_values(
        |a: (String, PackageId)| (a.0@, info_coordinate(graph.packages@[a.1.0 as int])),
    )
}

/// The locked form of one package; `root` is the directory the lock file
/// lives in, and a path dependency's directory is recorded relative to it.
pub open spec fn locked_model(graph: PackageGraph, root: Seq<char>, info: PackageInfo) -> LockedModel {
    LockedModel {
        coordinate: info_coordinate(info),
        source: match info.source {
            PackageSource::Root => seq!['r', 'o', 'o', 't'],
            PackageSource::Path(_) => seq!['p', 'a', 't', 'h'],
            PackageSource::Remote { base, .. } => base@,
        },
        path: match info.source {
            PackageSource::Path(d) => Some(relative_text(components(root), components(d@))),
            _ => None,
        },
        sha256: match info.source {
            PackageSource::Remote { sha256, .. } => Some(sha256@),
            _ => None,
        },
        dependencies: alias_coordinates(graph, info.aliases@),
    }
}

/// The locked forms of the packages among the first `n`, other than the
/// root, in id order.
pub open spec fn unsorted_entries(graph: PackageGraph, root: Seq<char>, n: int) -> Seq<LockedModel>
    decreases n,
{
    if n <= 0 {
        seq![]
    } else if graph.packages@[n - 1].id == graph.root {
        unsorted_entries(graph, root, n - 1)
    } else {
        unsorted_entries(graph, root, n - 1).push(locked_model(graph, root, graph.packages@[n - 1]))
    }
}

/// Where `x` goes among `s` at or after `i`: before the first entry whose
/// coordinate sorts after it (so equal coordinates keep their order).
pub open spec fn insert_position(s: Seq<LockedModel>, x: LockedModel, i: int) -> int
    decreases s.len() - i,
{
    if i >= s.len() || i < 0 {
        s.len() as int
    } else if text_lt(x.coordinate, s[i].coordinate) {
        i
    } else {
        insert_position(s, x, i + 1)
    }
}

/// `s` stably sorted by coordinate (insertion in order).
pub open spec fn sorted_by_coordinate(s: Seq<LockedModel>) -> Seq<LockedModel>
    decreases s.len(),
{
    if s.len() == 0 {
        s
    } else {
        let done = sorted_by_coordinate(s.drop_last());
        done.insert(insert_position(done, s.last(), 0), s.last())
    }
}

/// The lock file that a graph gives, with `root` the lock file's directory.
pub open spec fn lock_model(graph: PackageGraph, root: Seq<char>) -> LockModel {
    LockModel {
        version: 1,
        compiler_version: seq!['0', '.', '1', '.', '0'],
        packages: sorted_by_coordinate(unsorted_entries(graph, root, graph.packages@.len() as int)),
        roots: alias_coordinates(graph, graph.packages@[graph.root.0 as int].aliases@),
    }
}

proof fn lemma_insert_position_bounds(s: Seq<LockedModel>, x: LockedModel, i: int)
    requires
        0 <= i <= s.len(),
    ensures
        i <= insert_position(s, x, i) <= s.len(),
    decreases s.len() - i,
{
    if i < s.len() && !text_lt(x.coordinate, s[i].coordinate) {
        lemma_insert_position_bounds(s, x, i + 1);
    }
}

fn locked_dependencies(graph: &PackageGraph, aliases: &Vec<(String, PackageId)>) -> (r: Vec<
    LockedDependency,
>)
    requires
        forall|a: int| 0 <= a < aliases@.len() ==> (#[trigger] aliases@[a]).1.0 < graph.packages@.len(),
    ensures
        r@.map_values(|d: LockedDependency| (d.alias@, d.coordinate@)) == alias_coordinates(
            *graph,
            aliases@,
        ),
{
    let mut out: Vec<LockedDependency> = Vec::new();
    let mut i: usize = 0;
    while i < aliases.len()
        invariant
            i <= aliases.len(),
            forall|a: int| 0 <= a < aliases@.len() ==> (#[trigger] aliases@[a]).1.0 < graph.packages@.len(),
            out@.map_values(|d: LockedDependency| (d.alias@, d.coordinate@)) == alias_coordinates(
                *graph,
                aliases@.take(i as int),
            ),
        decreases aliases.len() - i,
    {
        let target = aliases[i].1;
        let info = graph.get(target);
        let coordinate = info.coordinate();
        let ghost prev = out@;
        let ghost pair = (aliases@[i as int].0@, info_coordinate(graph.packages@[target.0 as int]));
        out.push(LockedDependency { alias: aliases[i].0.clone(), coordinate });
        proof {
            assert(aliases@.take(i + 1) =~= aliases@.take(i as int).push(aliases@[i as int]));
            assert(alias_coordinates(*graph, aliases@.take(i + 1)) =~= alias_coordinates(
                *graph,
                aliases@.take(i as int),
            ).push(pair));
            assert(out@.map_values(|d: LockedDependency| (d.alias@, d.coordinate@)) =~= prev.map_values(
                |d: LockedDependency| (d.alias@, d.coordinate@),
            ).push(pair));
        }
        i = i + 1;
    }
    assert(aliases@.take(aliases@.len() as int) =~= aliases@);
    out
}

fn root_dependencies(graph: &PackageGraph, aliases: &Vec<(String, PackageId)>) -> (r: Vec<
    RootDependency,
>)
    requires
        forall|a: int| 0 <= a < aliases@.len() ==> (#[trigger] aliases@[a]).1.0 < graph.packages@.len(),
    ensures
        r@.map_values(|d: RootDependency| (d.alias@, d.coordinate@)) == alias_coordinates(
            *graph,
            aliases@,
        ),
{
    let mut out: Vec<RootDependency> = Vec::new();
    let mut i: usize = 0;
    while i < aliases.len()
        invariant
            i <= aliases.len(),
            forall|a: int| 0 <= a < aliases@.len() ==> (#[trigger] aliases@[a]).1.0 < graph.packages@.len(),
            out@.map_values(|d: RootDependency| (d.alias@, d.coordinate@)) == alias_coordinates(
                *graph,
                aliases@.take(i as int),
            ),
        decreases aliases.len() - i,
    {
        let target = aliases[i].1;
        let info = graph.get(target);
        let coordinate = info.coordinate();
        let ghost prev = out@;
        let ghost pair = (aliases@[i as int].0@, info_coordinate(graph.packages@[target.0 as int]));
        out.push(RootDependency { alias: aliases[i].0.clone(), coordinate });
        proof {
            assert(aliases@.take(i + 1) =~= aliases@.take(i as int).push(aliases@[i as int]));
            assert(alias_coordinates(*graph, aliases@.take(i + 1)) =~= alias_coordinates(
                *graph,
                aliases@.take(i as int),
            ).push(pair));
            assert(out@.map_values(|d: RootDependency| (d.alias@, d.coordinate@)) =~= prev.map_values(
                |d: RootDependency| (d.alias@, d.coordinate@),
            ).push(pair));
        }
        i = i + 1;
    }
    assert(aliases@.take(aliases@.len() as int) =~= aliases@);
    out
}

fn locked_entry(graph: &PackageGraph, root_parts: &Vec<String>, root: Ghost<Seq<char>>, info: &PackageInfo) -> (r: LockedPackage)
    requires
        texts(root_parts@) == components(root@),
        forall|a: int| 0 <= a < info.aliases@.len() ==> (#[trigger] info.aliases@[a]).1.0 < graph.packages@.len(),
    ensures
        r@ == locked_model(*graph, root@, *info),
{
    let (source, path, sha256) = match &info.source {
        PackageSource::Root => {
            proof {
                reveal_strlit("root");
            }
            ("root".to_owned(), None, None)
        },
        PackageSource::Path(directory) => {
            proof {
                reveal_strlit("path");
            }
            let target = path_components(directory.as_str());
            ("path".to_owned(), Some(relative_components(root_parts, &target)), None)
        },
        PackageSource::Remote { base, sha256, .. } => (base.clone(), None, Some(sha256.clone())),
    };
    let dependencies = locked_dependencies(graph, &info.aliases);
    let r = LockedPackage { coordinate: info.coordinate(), source, path, sha256, dependencies };
    assert(r@.source =~= locked_model(*graph, root@, *info).source);
    r
}

/// Inserts `x` into `done`, which is sorted by coordinate, after every entry
/// whose coordinate does not sort after it.
fn insert_sorted(done: &mut Vec<LockedPackage>, x: LockedPackage)
    ensures
        locked_views(final(done)@) == locked_views(old(done)@).insert(
            insert_position(locked_views(old(done)@), x@, 0),
            x@,
        ),
{
    let ghost before = locked_views(done@);
    let mut p: usize = 0;
    proof {
        lemma_insert_position_bounds(before, x@, 0);
    }
    while p < done.len() && !str_lt(x.coordinate.as_str(), done[p].coordinate.as_str())
        invariant
            p <= done.len(),
            before == locked_views(done@),
            insert_position(before, x@, 0) == insert_position(before, x@, p as int),
        decreases done.len() - p,
    {
        p = p + 1;
    }
    proof {
        assert(insert_position(before, x@, p as int) == p);
    }
    let ghost old_done = done@;
    done.insert(p, x);
    assert(locked_views(done@) =~= before.insert(p as int, x@));
}

/// `(alias, coordinate)` pairs in strictly ascending alias order.
pub open spec fn pairs_sorted(s: Seq<(Seq<char>, Seq<char>)>) -> bool {
    forall|i: int, j: int| 0 <= i < j < s.len() ==> text_lt((#[trigger] s[i]).0, (#[trigger] s[j]).0)
}

proof fn lemma_alias_coordinates_sorted(graph: PackageGraph, aliases: Seq<(String, PackageId)>)
    requires
        crate::package::aliases_sorted(aliases),
    ensures
        pairs_sorted(alias_coordinates(graph, aliases)),
{
    let c = alias_coordinates(graph, aliases);
    assert forall|i: int, j: int| 0 <= i < j < c.len() implies text_lt(
        (#[trigger] c[i]).0,
        (#[trigger] c[j]).0,
    ) by {
        assert(c[i].0 == aliases[i].0@ && c[j].0 == aliases[j].0@);
    }
}

proof fn lemma_unsorted_from_packages(graph: PackageGraph, root: Seq<char>, n: int)
    requires
        0 <= n <= graph.packages@.len(),
    ensures
        forall|k: int|
            0 <= k < unsorted_entries(graph, root, n).len() ==> exists|p: int|
                0 <= p < n && #[trigger] unsorted_entries(graph, root, n)[k] == locked_model(
                    graph,
                    root,
                    graph.packages@[p],
                ),
    decreases n,
{
    if n > 0 {
        lemma_unsorted_from_packages(graph, root, n - 1);
        let prev = unsorted_entries(graph, root, n - 1);
        let cur = unsorted_entries(graph, root, n);
        assert forall|k: int| 0 <= k < cur.len() implies exists|p: int|
            0 <= p < n && #[trigger] cur[k] == locked_model(graph, root, graph.packages@[p]) by {
            if k < prev.len() {
                assert(cur[k] == prev[k]);
                let p = choose|p: int|
                    0 <= p < n - 1 && #[trigger] prev[k] == locked_model(graph, root, graph.packages@[p]);
                assert(cur[k] == locked_model(graph, root, graph.packages@[p]));
            } else {
                assert(cur[k] == locked_model(graph, root, graph.packages@[n - 1]));
            }
        }
    }
}

proof fn lemma_sorted_from_unsorted(s: Seq<LockedModel>)
    ensures
        sorted_by_coordinate(s).len() == s.len(),
        forall|k: int|
            0 <= k < sorted_by_coordinate(s).len() ==> exists|i: int|
                0 <= i < s.len() && #[trigger] sorted_by_coordinate(s)[k] == s[i],
    decreases s.len(),
{
    if s.len() > 0 {
        let init = s.drop_last();
        lemma_sorted_from_unsorted(init);
        let done = sorted_by_coordinate(init);
        lemma_insert_position_bounds(done, s.last(), 0);
        let pos = insert_position(done, s.last(), 0);
        let out = done.insert(pos, s.last());
        assert forall|k: int| 0 <= k < out.len() implies exists|i: int|
            0 <= i < s.len() && #[trigger] out[k] == s[i] by {
            if k < pos {
                assert(out[k] == done[k]);
                let i = choose|i: int| 0 <= i < init.len() && #[trigger] done[k] == init[i];
                assert(out[k] == s[i]);
            } else if k == pos {
                assert(out[k] == s[s.len() - 1]);
            } else {
                assert(out[k] == done[k - 1]);
                let i = choose|i: int| 0 <= i < init.len() && #[trigger] done[k - 1] == init[i];
                assert(out[k] == s[i]);
            }
        }
    }
}

/// A lock written from a graph whose alias tables are in alias order (as
/// sorted maps are) lists every package's dependencies, and the root's, in
/// alias order.
pub proof fn lock_dependencies_in_alias_order(graph: PackageGraph, root: Seq<char>)
    requires
        crate::package::all_aliases_sorted(graph.packages@),
        (graph.root.0 as int) < graph.packages@.len(),
    ensures
        forall|k: int|
            0 <= k < lock_model(graph, root).packages.len() ==> pairs_sorted(
                #[trigger] lock_model(graph, root).packages[k].dependencies,
            ),
        pairs_sorted(lock_model(graph, root).roots),
{
    let n = graph.packages@.len() as int;
    let unsorted = unsorted_entries(graph, root, n);
    lemma_unsorted_from_packages(graph, root, n);
    lemma_sorted_from_unsorted(unsorted);
    let sorted = sorted_by_coordinate(unsorted);
    assert forall|k: int| 0 <= k < sorted.len() implies pairs_sorted(#[trigger] sorted[k].dependencies) by {
        let i = choose|i: int| 0 <= i < unsorted.len() && #[trigger] sorted[k] == unsorted[i];
        let p = choose|p: int|
            0 <= p < n && #[trigger] unsorted[i] == locked_model(graph, root, graph.packages@[p]);
        assert(crate::package::aliases_sorted(graph.packages@[p].aliases@));
        lemma_alias_coordinates_sorted(graph, graph.packages@[p].aliases@);
    }
    assert(crate::package::aliases_sorted(graph.packages@[graph.root.0 as int].aliases@));
    lemma_alias_coordinates_sorted(graph, graph.packages@[graph.root.0 as int].aliases@);
}

impl Lockfile {
    /// The lock file for `graph`; `root` is the (canonical) directory of the
    /// root manifest, against which path dependencies are recorded.
    pub fn from_graph(graph: &PackageGraph, root: &str) -> (r: Lockfile)
        requires
            graph_ids_in_range(*graph),
            crate::package::all_aliases_sorted(graph.packages@),
        ensures
            r@ == lock_model(*graph, root@),
            forall|k: int|
                0 <= k < r@.packages.len() ==> pairs_sorted(#[trigger] r@.packages[k].dependencies),
            pairs_sorted(r@.roots),
    {
        let root_parts = path_components(root);
        let mut sorted: Vec<LockedPackage> = Vec::new();
        let ghost mut unsorted: Seq<LockedModel> = seq![];
        let mut i: usize = 0;
        while i < graph.packages.len()
            invariant
                i <= graph.packages.len(),
                graph_ids_in_range(*graph),
                texts(root_parts@) == components(root@),
                unsorted == unsorted_entries(*graph, root@, i as int),
                locked_views(sorted@) == sorted_by_coordinate(unsorted),
            decreases graph.packages.len() - i,
        {
            let info = &graph.packages[i];
            if info.id != graph.root {
                proof {
                    assert forall|a: int| 0 <= a < info.aliases@.len() implies (
                    #[trigger] info.aliases@[a]).1.0 < graph.packages@.len() by {
                        assert(graph.packages@[i as int].aliases@[a] == info.aliases@[a]);
                    }
                }
                let entry = locked_entry(graph, &root_parts, Ghost(root@), info);
                insert_sorted(&mut sorted, entry);
                proof {
                    let next = unsorted.push(locked_model(*graph, root@, *info));
                    assert(next.drop_last() =~= unsorted);
                    unsorted = next;
                }
            }
            i = i + 1;
        }
        let root_info = graph.get(graph.root);
        proof {
            assert forall|a: int| 0 <= a < root_info.aliases@.len() implies (
            #[trigger] root_info.aliases@[a]).1.0 < graph.packages@.len() by {
                assert(graph.packages@[graph.root.0 as int].aliases@[a] == root_info.aliases@[a]);
            }
        }
        let root_dependency = root_dependencies(graph, &root_info.aliases);
        proof {
            reveal_strlit("0.1.0");
        }
        let r = Lockfile {
            version: 1,
            compiler_version: COMPILER_VERSION.to_owned(),
            package: sorted,
            root_dependency,
        };
        assert(r@.compiler_version =~= seq!['0', '.', '1', '.', '0']);
        proof {
            lock_dependencies_in_alias_order(*graph, root@);
        }
        r
    }

    /// Whether this lock file is the one `graph` gives (same packages,
    /// sources, digests, aliases and compiler version).
    pub fn matches(&self, graph: &PackageGraph, root: &str) -> (r: bool)
        requires
            graph_ids_in_range(*graph),
            crate::package::all_aliases_sorted(graph.packages@),
        ensures
            r == (self@ == lock_model(*graph, root@)),
    {
        let expected = Lockfile::from_graph(graph, root);
        lock_equal(self, &expected)
    }
}

fn opt_equal(a: &Option<String>, b: &Option<String>) -> (r: bool)
    ensures
        r == (opt_view(*a) == opt_view(*b)),
{
    match (a, b) {
        (Some(x), Some(y)) => str_eq(x.as_str(), y.as_str()),
        (None, None) => true,
        _ => false,
    }
}

fn dependencies_equal(a: &Vec<LockedDependency>, b: &Vec<LockedDependency>) -> (r: bool)
    ensures
        r == (a@.map_values(|d: LockedDependency| (d.alias@, d.coordinate@)) == b@.map_values(
            |d: LockedDependency| (d.alias@, d.coordinate@),
        )),
{
    let ghost va = a@.map_values(|d: LockedDependency| (d.alias@, d.coordinate@));
    let ghost vb = b@.map_values(|d: LockedDependency| (d.alias@, d.coordinate@));
    if a.len() != b.len() {
        assert(va.len() != vb.len());
        return false;
    }
    let mut i: usize = 0;
    while i < a.len()
        invariant
            i <= a.len() == b.len(),
            va == a@.map_values(|d: LockedDependency| (d.alias@, d.coordinate@)),
            vb == b@.map_values(|d: LockedDependency| (d.alias@, d.coordinate@)),
            forall|k: int| 0 <= k < i ==> va[k] == vb[k],
        decreases a.len() - i,
    {
        if !str_eq(a[i].alias.as_str(), b[i].alias.as_str()) || !str_eq(
            a[i].coordinate.as_str(),
            b[i].coordinate.as_str(),
        ) {
            assert(va[i as int] != vb[i as int]);
            return false;
        }
        i = i + 1;
    }
    assert(va =~= vb);
    true
}

fn roots_equal(a: &Vec<RootDependency>, b: &Vec<RootDependency>) -> (r: bool)
    ensures
        r == (a@.map_values(|d: RootDependency| (d.alias@, d.coordinate@)) == b@.map_values(
            |d: RootDependency| (d.alias@, d.coordinate@),
        )),
{
    let ghost va = a@.map_values(|d: RootDependency| (d.alias@, d.coordinate@));
    let ghost vb = b@.map_values(|d: RootDependency| (d.alias@, d.coordinate@));
    if a.len() != b.len() {
        assert(va.len() != vb.len());
        return false;
    }
    let mut i: usize = 0;
    while i < a.len()
        invariant
            i <= a.len() == b.len(),
            va == a@.map_values(|d: RootDependency| (d.alias@, d.coordinate@)),
            vb == b@.map_values(|d: RootDependency| (d.alias@, d.coordinate@)),
            forall|k: int| 0 <= k < i ==> va[k] == vb[k],
        decreases a.len() - i,
    {
        if !str_eq(a[i].alias.as_str(), b[i].alias.as_str()) || !str_eq(
            a[i].coordinate.as_str(),
            b[i].coordinate.as_str(),
        ) {
            assert(va[i as int] != vb[i as int]);
            return false;
        }
        i = i + 1;
    }
    assert(va =~= vb);
    true
}

fn package_equal(a: &LockedPackage, b: &LockedPackage) -> (r: bool)
    ensures
        r == (a@ == b@),
{
    str_eq(a.coordinate.as_str(), b.coordinate.as_str()) && str_eq(
        a.source.as_str(),
        b.source.as_str(),
    ) && opt_equal(&a.path, &b.path) && opt_equal(&a.sha256, &b.sha256) && dependencies_equal(
        &a.dependencies,
        &b.dependencies,
    )
}

/// Whether two lock files hold the same text.
pub fn lock_equal(a: &Lockfile, b: &Lockfile) -> (r: bool)
    ensures
        r == (a@ == b@),
{
    if a.version != b.version || !str_eq(a.compiler_version.as_str(), b.compiler_version.as_str()) {
        return false;
    }
    if !roots_equal(&a.root_dependency, &b.root_dependency) {
        return false;
    }
    let ghost va = locked_views(a.package@);
    let ghost vb = locked_views(b.package@);
    if a.package.len() != b.package.len() {
        assert(va.len() != vb.len());
        return false;
    }
    let mut i: usize = 0;
    while i < a.package.len()
        invariant
            i <= a.package.len() == b.package.len(),
            va == locked_views(a.package@),
            vb == locked_views(b.package@),
            forall|k: int| 0 <= k < i ==> va[k] == vb[k],
        decreases a.package.len() - i,
    {
        if !package_equal(&a.package[i], &b.package[i]) {
            assert(va[i as int] != vb[i as int]);
            return false;
        }
        i = i + 1;
    }
    assert(va =~= vb);
    true
}

pub proof fn lemma_named_in_range(
    names: Seq<(String, String, PackageId)>,
    group: Seq<char>,
    name: Seq<char>,
    n: int,
)
    requires
        forall|i: int| 0 <= i < names.len() ==> (#[trigger] names[i]).2.0 < n,
    ensures
        crate::resolve::named(names, group, name) matches Some(id) ==> id.0 < n,
    decreases names.len(),
{
    if names.len() > 0 {
        assert forall|i: int| 0 <= i < names.drop_first().len() implies (#[trigger] names.drop_first()[i]).2.0 < n by {
            assert(names.drop_first()[i] == names[i + 1]);
        }
        lemma_named_in_range(names.drop_first(), group, name, n);
        assert(names[0].2.0 < n);
    }
}

pub proof fn lemma_at_path_in_range(paths: Seq<(String, PackageId)>, dir: Seq<char>, n: int)
    requires
        forall|i: int| 0 <= i < paths.len() ==> (#[trigger] paths[i]).1.0 < n,
    ensures
        crate::resolve::at_path(paths, dir) matches Some(id) ==> id.0 < n,
    decreases paths.len(),
{
    if paths.len() > 0 {
        assert forall|i: int| 0 <= i < paths.drop_first().len() implies (#[trigger] paths.drop_first()[i]).1.0 < n by {
            assert(paths.drop_first()[i] == paths[i + 1]);
        }
        lemma_at_path_in_range(paths.drop_first(), dir, n);
        assert(paths[0].1.0 < n);
    }
}


impl TextKeyed for LockedPackage {
    open spec fn key_view(&self) -> Seq<char> {
        self.coordinate@
    }

    fn text_key(&self) -> (r: &str) {
        self.coordinate.as_str()
    }
}

fn copy_opt(o: &Option<String>) -> (r: Option<String>)
    ensures
        opt_view(r) == opt_view(*o),
{
    match o {
        Some(s) => Some(s.clone()),
        None => None,
    }
}

impl LockedPackage {
    /// A copy with the same texts.
    pub fn duplicate(&self) -> (r: LockedPackage)
        ensures
            r@ == self@,
    {
        let mut dependencies: Vec<LockedDependency> = Vec::new();
        let mut i: usize = 0;
        while i < self.dependencies.len()
            invariant
                i <= self.dependencies.len(),
                dependencies@.map_values(|d: LockedDependency| (d.alias@, d.coordinate@))
                    == self.dependencies@.take(i as int).map_values(
                    |d: LockedDependency| (d.alias@, d.coordinate@),
                ),
            decreases self.dependencies.len() - i,
        {
            let d = &self.dependencies[i];
            let ghost prev = dependencies@;
            dependencies.push(LockedDependency { alias: d.alias.clone(), coordinate: d.coordinate.clone() });
            proof {
                let pair = (self.dependencies@[i as int].alias@, self.dependencies@[i as int].coordinate@);
                assert(self.dependencies@.take(i + 1) =~= self.dependencies@.take(i as int).push(
                    self.dependencies@[i as int],
                ));
                assert(self.dependencies@.take(i + 1).map_values(
                    |d: LockedDependency| (d.alias@, d.coordinate@),
                ) =~= self.dependencies@.take(i as int).map_values(
                    |d: LockedDependency| (d.alias@, d.coordinate@),
                ).push(pair));
                assert(dependencies@.map_values(|d: LockedDependency| (d.alias@, d.coordinate@))
                    =~= prev.map_values(|d: LockedDependency| (d.alias@, d.coordinate@)).push(pair));
            }
            i = i + 1;
        }
        assert(self.dependencies@.take(self.dependencies@.len() as int) =~= self.dependencies@);
        LockedPackage {
            coordinate: self.coordinate.clone(),
            source: self.source.clone(),
            path: copy_opt(&self.path),
            sha256: copy_opt(&self.sha256),
            dependencies,
        }
    }
}

/// `out` maps each coordinate of `packages` to its last entry, in
/// coordinate order.
pub open spec fn locked_map_of(packages: Seq<LockedPackage>, out: Seq<LockedPackage>) -> bool {
    &&& forall|i: int, j: int| 0 <= i < j < out.len() ==> text_lt(out[i].coordinate@, out[j].coordinate@)
    &&& forall|i: int|
        0 <= i < out.len() ==> exists|j: int|
            0 <= j < packages.len() && (#[trigger] out[i])@ == packages[j]@ && forall|k: int|
                j < k < packages.len() ==> (#[trigger] packages[k]).coordinate@ != out[i].coordinate@
    &&& forall|j: int|
        0 <= j < packages.len() ==> exists|i: int|
            0 <= i < out.len() && out[i].coordinate@ == (#[trigger] packages[j]).coordinate@
}

/// `e` is the last entry of `roots` for its alias.
pub open spec fn alias_from(roots: Seq<RootDependency>, e: (String, String)) -> bool {
    exists|j: int|
        0 <= j < roots.len() && e.0@ == roots[j].alias@ && e.1@ == roots[j].coordinate@ && forall|k: int|
            j < k < roots.len() ==> (#[trigger] roots[k]).alias@ != e.0@
}

/// Some entry of `out` has the alias of `d`.
pub open spec fn alias_kept(out: Seq<(String, String)>, d: RootDependency) -> bool {
    exists|i: int| 0 <= i < out.len() && out[i].0@ == d.alias@
}

/// `out` maps each alias of `roots` to its last coordinate, in alias order.
pub open spec fn alias_map_of(roots: Seq<RootDependency>, out: Seq<(String, String)>) -> bool {
    &&& forall|i: int, j: int| 0 <= i < j < out.len() ==> text_lt(out[i].0@, out[j].0@)
    &&& forall|i: int| 0 <= i < out.len() ==> alias_from(roots, #[trigger] out[i])
    &&& forall|j: int| 0 <= j < roots.len() ==> alias_kept(out, #[trigger] roots[j])
}

impl Lockfile {
    /// Coordinate to locked entry (a later entry for the same coordinate
    /// wins), in coordinate order.
    pub fn locked_packages(&self) -> (r: Vec<LockedPackage>)
        ensures
            locked_map_of(self.package@, r@),
    {
        let mut copies: Vec<LockedPackage> = Vec::new();
        let mut i: usize = 0;
        while i < self.package.len()
            invariant
                i <= self.package.len(),
                copies@.len() == i,
                forall|k: int| 0 <= k < i ==> (#[trigger] copies@[k])@ == self.package@[k]@,
            decreases self.package.len() - i,
        {
            copies.push(self.package[i].duplicate());
            i = i + 1;
        }
        let ghost c = copies@;
        let r = keyed_map(copies);
        proof {
            assert forall|i: int| 0 <= i < r@.len() implies exists|j: int|
                0 <= j < self.package@.len() && (#[trigger] r@[i])@ == self.package@[j]@ && forall|k: int|
                    j < k < self.package@.len() ==> (#[trigger] self.package@[k]).coordinate@
                        != r@[i].coordinate@ by {
                assert(crate::order::last_with_key(c, c.len() as int, r@[i]));
                let j = choose|j: int|
                    0 <= j < c.len() && c[j] == r@[i] && forall|k: int|
                        j < k < c.len() ==> (#[trigger] c[k]).key_view() != r@[i].key_view();
                assert forall|k: int| j < k < self.package@.len() implies (#[trigger] self.package@[k]).coordinate@
                    != r@[i].coordinate@ by {
                    assert(c[k].key_view() != r@[i].key_view());
                    assert(c[k]@ == self.package@[k]@);
                }
            }
            assert forall|j: int| 0 <= j < self.package@.len() implies exists|i: int|
                0 <= i < r@.len() && r@[i].coordinate@ == (#[trigger] self.package@[j]).coordinate@ by {
                assert(crate::order::has_key(r@, c[j].key_view()));
                assert(c[j]@ == self.package@[j]@);
                let i = choose|i: int| 0 <= i < r@.len() && (#[trigger] r@[i]).key_view() == c[j].key_view();
            }
        }
        r
    }

    /// Root alias to coordinate (a later entry for the same alias wins), in
    /// alias order.
    pub fn root_aliases(&self) -> (r: Vec<(String, String)>)
        ensures
            alias_map_of(self.root_dependency@, r@),
    {
        let mut pairs: Vec<(String, String)> = Vec::new();
        let mut i: usize = 0;
        while i < self.root_dependency.len()
            invariant
                i <= self.root_dependency.len(),
                pairs@.len() == i,
                forall|k: int|
                    0 <= k < i ==> (#[trigger] pairs@[k]).0@ == self.root_dependency@[k].alias@
                        && pairs@[k].1@ == self.root_dependency@[k].coordinate@,
            decreases self.root_dependency.len() - i,
        {
            let d = &self.root_dependency[i];
            pairs.push((d.alias.clone(), d.coordinate.clone()));
            i = i + 1;
        }
        let ghost c = pairs@;
        let r = keyed_map(pairs);
        proof {
            assert forall|i: int, j: int| 0 <= i < j < r@.len() implies text_lt(r@[i].0@, r@[j].0@) by {
                assert(text_lt(r@[i].key_view(), r@[j].key_view()));
            }
            assert forall|i: int| 0 <= i < r@.len() implies alias_from(self.root_dependency@, #[trigger] r@[i]) by {
                assert(crate::order::last_with_key(c, c.len() as int, r@[i]));
                let j = choose|j: int|
                    0 <= j < c.len() && c[j] == r@[i] && forall|k: int|
                        j < k < c.len() ==> (#[trigger] c[k]).key_view() != r@[i].key_view();
                assert forall|k: int| j < k < self.root_dependency@.len() implies (#[trigger] self.root_dependency@[k]).alias@ != r@[i].0@ by {
                    assert(c[k].key_view() != r@[i].key_view());
                }
                assert(r@[i].0@ == self.root_dependency@[j].alias@);
            }
            assert forall|j: int| 0 <= j < self.root_dependency@.len() implies alias_kept(r@, #[trigger] self.root_dependency@[j]) by {
                assert(crate::order::has_key(r@, c[j].key_view()));
                let i = choose|i: int| 0 <= i < r@.len() && (#[trigger] r@[i]).key_view() == c[j].key_view();
                assert(r@[i].0@ == self.root_dependency@[j].alias@);
            }
        }
        r
    }
}

} // verus!
