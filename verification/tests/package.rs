use dolphin::cache::{Cache, IndexEntry};
use dolphin::digest::sha256_hex;
use dolphin::lockfile::{Lockfile, LockedDependency, LockedPackage, RootDependency};
use dolphin::manifest::{manifest_from_raw, Manifest, RawBin, RawManifest, RawPackage};
use dolphin::package::{module_of, qualify_module, PackageGraph, PackageId, PackageInfo, PackageSource};
use dolphin::resolve::{
    dependency_order, describe_source, same_remote_repository, AcquiredPackage, ResolveError,
    Resolver,
};

fn s(text: &str) -> String {
    text.to_string()
}

fn manifest(root: &str, group: &str, name: &str, version: &str, lib: bool) -> Manifest {
    let raw = RawManifest {
        package: Some(RawPackage {
            group: s(group),
            name: s(name),
            version: s(version),
            source: None,
        }),
        lib: if lib { Some(s("src/lib.do")) } else { None },
        bins: if lib {
            vec![]
        } else {
            vec![RawBin {
                name: s(name),
                path: s("src/main.do"),
            }]
        },
        build: None,
        native: vec![],
        dependencies: vec![],
        repositories: vec![],
    };
    manifest_from_raw(&format!("{root}/dolphin.toml"), root, &raw).expect("valid manifest")
}

fn info(id: u32, group: &str, name: &str, source: PackageSource, aliases: Vec<(&str, u32)>) -> PackageInfo {
    let m = manifest(&format!("/w/{name}"), group, name, "1.0.0", id != 0);
    PackageInfo {
        id: PackageId(id),
        root: m.root.clone(),
        source_root: m.package.source.clone(),
        manifest: m,
        source,
        prefix: PackageId(id).prefix(),
        aliases: aliases.into_iter().map(|(a, t)| (s(a), PackageId(t))).collect(),
    }
}

#[test]
fn prefixes_and_names_of_package_ids() {
    assert_eq!(PackageId::root().prefix(), "");
    assert_eq!(PackageId::standard().prefix(), "std");
    assert_eq!(PackageId(7).prefix(), "@7");
    assert_eq!(PackageId::root().display(), "<root>");
    assert_eq!(PackageId::standard().display(), "std");
    assert_eq!(PackageId(12).display(), "package#12");
}

#[test]
fn lock_sources_name_the_origin() {
    assert_eq!(PackageSource::Root.lock_source(), "root");
    assert_eq!(PackageSource::Path(s("/x")).lock_source(), "path");
    let remote = PackageSource::Remote {
        repository: s("default"),
        base: s("https://r.example.org"),
        sha256: s("ab"),
    };
    assert_eq!(remote.lock_source(), "https://r.example.org");
}

#[test]
fn module_names_round_trip() {
    assert_eq!(module_of("util.numbers.Pair"), "util.numbers");
    assert_eq!(module_of("Pair"), "");
    assert_eq!(qualify_module("", "util"), "util");
    assert_eq!(qualify_module("@3", ""), "@3");
    assert_eq!(qualify_module("std", "io"), "std.io");
    assert_eq!(module_of(&format!("{}.Name", qualify_module("@3", "util"))), "@3.util");
}

fn sample_graph() -> PackageGraph {
    let remote = PackageSource::Remote {
        repository: s("default"),
        base: s("https://r.example.org"),
        sha256: s("00ff"),
    };
    let packages = vec![
        info(0, "g", "app", PackageSource::Root, vec![("a", 1), ("b", 2)]),
        info(1, "org.example", "alpha", PackageSource::Path(s("/w/libs/alpha")), vec![("c", 2)]),
        info(2, "org.example", "core", remote, vec![]),
    ];
    PackageGraph {
        root: PackageId(0),
        order: dependency_order(&packages).expect("acyclic"),
        packages,
    }
}

#[test]
fn graph_lookups() {
    let graph = sample_graph();
    assert_eq!(graph.get(PackageId(1)).name(), "alpha");
    assert_eq!(graph.iter().len(), 3);
    assert_eq!(graph.find_by_name("org.example", "core").map(|p| p.id), Some(PackageId(2)));
    assert!(graph.find_by_name("org.example", "none").is_none());
    let order: Vec<&str> = graph.order_iter().iter().map(|p| p.name()).collect();
    assert_eq!(order, vec!["core", "alpha", "app"]);
    assert_eq!(graph.get(PackageId(2)).coordinate(), "org.example:core:1.0.0");
}

#[test]
fn dependency_order_puts_dependencies_first_and_breaks_ties_by_coordinate() {
    let packages = vec![
        info(0, "g", "app", PackageSource::Root, vec![("z", 2), ("y", 1)]),
        info(1, "b", "one", PackageSource::Path(s("/a")), vec![]),
        info(2, "a", "two", PackageSource::Path(s("/b")), vec![]),
    ];
    let order = dependency_order(&packages).unwrap();
    assert_eq!(order, vec![PackageId(1), PackageId(2), PackageId(0)]);
}

#[test]
fn dependency_order_refuses_cycles() {
    let packages = vec![
        info(0, "g", "app", PackageSource::Root, vec![("x", 1)]),
        info(1, "a", "one", PackageSource::Path(s("/a")), vec![("y", 2)]),
        info(2, "a", "two", PackageSource::Path(s("/b")), vec![("z", 1)]),
    ];
    assert!(dependency_order(&packages).is_none());
}

#[test]
fn lockfile_records_the_closure() {
    let graph = sample_graph();
    let lock = Lockfile::from_graph(&graph, "/w/app");
    assert_eq!(lock.version, 1);
    assert_eq!(lock.compiler_version, "0.1.0");
    assert_eq!(lock.package.len(), 2);
    assert_eq!(lock.package[0].coordinate, "org.example:alpha:1.0.0");
    assert_eq!(lock.package[0].source, "path");
    assert_eq!(lock.package[0].path.as_deref(), Some("../libs/alpha"));
    assert_eq!(lock.package[0].sha256, None);
    assert_eq!(
        lock.package[0].dependencies,
        vec![LockedDependency {
            alias: s("c"),
            coordinate: s("org.example:core:1.0.0")
        }]
    );
    assert_eq!(lock.package[1].source, "https://r.example.org");
    assert_eq!(lock.package[1].sha256.as_deref(), Some("00ff"));
    assert_eq!(
        lock.root_dependency,
        vec![
            RootDependency {
                alias: s("a"),
                coordinate: s("org.example:alpha:1.0.0")
            },
            RootDependency {
                alias: s("b"),
                coordinate: s("org.example:core:1.0.0")
            },
        ]
    );
    assert!(lock.matches(&graph, "/w/app"));
    let mut changed = lock.clone();
    changed.compiler_version = s("9.9.9");
    assert!(!changed.matches(&graph, "/w/app"));
}

#[test]
fn lockfile_maps_take_the_last_entry() {
    let entry = |coordinate: &str, source: &str| LockedPackage {
        coordinate: s(coordinate),
        source: s(source),
        path: None,
        sha256: None,
        dependencies: vec![],
    };
    let lock = Lockfile {
        version: 1,
        compiler_version: s("0.1.0"),
        package: vec![entry("b:b:1.0.0", "one"), entry("a:a:1.0.0", "two"), entry("b:b:1.0.0", "three")],
        root_dependency: vec![
            RootDependency { alias: s("y"), coordinate: s("b:b:1.0.0") },
            RootDependency { alias: s("x"), coordinate: s("a:a:1.0.0") },
        ],
    };
    let locked = lock.locked_packages();
    assert_eq!(locked.len(), 2);
    assert_eq!(locked[0].coordinate, "a:a:1.0.0");
    assert_eq!(locked[1].source, "three");
    assert_eq!(
        lock.root_aliases(),
        vec![(s("x"), s("a:a:1.0.0")), (s("y"), s("b:b:1.0.0"))]
    );
}

#[test]
fn remote_sources_match_by_repository() {
    let remote = PackageSource::Remote {
        repository: s("default"),
        base: s("https://r"),
        sha256: s("00"),
    };
    assert!(same_remote_repository(&remote, "default"));
    assert!(!same_remote_repository(&remote, "mirror"));
    assert!(!same_remote_repository(&PackageSource::Root, "default"));
    assert!(!same_remote_repository(&PackageSource::Path(s("/p")), "default"));
    assert_eq!(describe_source(&PackageSource::Root), "the root project");
    assert_eq!(describe_source(&PackageSource::Path(s("/p"))), "path `/p`");
    assert_eq!(describe_source(&remote), "repository `default`");
}

#[test]
fn resolver_reuses_conflicts_and_cycles() {
    let root = manifest("/w/app", "g", "app", "0.1.0", false);
    let mut res = Resolver::start(root, Some(s("/w/app"))).unwrap();
    let root_id = PackageId(0);
    assert_eq!(res.decide_remote(root_id, "org.example:core:1.0.0", "default").unwrap(), None);
    let acquired = AcquiredPackage {
        root: s("/cache/core"),
        sha256: s("aa"),
        base: s("https://r"),
    };
    let core = manifest("/cache/core", "org.example", "core", "1.0.0", true);
    let core_id = res
        .admit_remote(root_id, "org.example:core:1.0.0", "default", acquired.clone(), core)
        .unwrap();
    assert_eq!(core_id, PackageId(1));
    assert!(res.is_selected("org.example", "core"));
    assert!(!res.is_selected("org.example", "other"));
    // Still loading: asking again is a cycle.
    assert!(matches!(
        res.decide_remote(root_id, "org.example:core:1.0.0", "default"),
        Err(ResolveError::Cycle { .. })
    ));
    res.end_load(core_id);
    assert_eq!(
        res.decide_remote(root_id, "org.example:core:1.0.0", "default").unwrap(),
        Some(core_id)
    );
    let conflict = res.decide_remote(root_id, "org.example:core:2.0.0", "default").unwrap_err();
    assert!(conflict.message().contains("dependency conflict for `org.example:core:2.0.0`"));
    assert!(conflict.message().contains("g:app:0.1.0 -> org.example:core:1.0.0"));
    assert!(matches!(
        res.decide_remote(root_id, "org.example:core:1.0.0", "mirror"),
        Err(ResolveError::SourceConflict { .. })
    ));
    let again = manifest("/cache/core2", "org.example", "core", "1.0.0", true);
    let error = res
        .admit_remote(root_id, "org.example:core:1.0.0", "default", acquired.clone(), again)
        .unwrap_err();
    assert_eq!(error.message(), "package `org.example:core:1.0.0` is already selected");
    let wrong = manifest("/cache/x", "org.example", "other", "1.0.0", true);
    assert!(matches!(
        res.admit_remote(root_id, "org.example:x:1.0.0", "default", acquired, wrong),
        Err(ResolveError::CoordinateMismatch { .. })
    ));
    assert_eq!(res.decide_path(root_id, "/w/app").unwrap_err().message().lines().next(), Some("dependency cycle detected:"));
    let dep = manifest("/w/dep", "org.example", "dep", "1.0.0", true);
    assert_eq!(res.decide_path(root_id, "/w/dep").unwrap(), None);
    let dep_id = res.admit_path(root_id, s("/w/dep"), dep).unwrap();
    res.end_load(dep_id);
    assert_eq!(res.decide_path(root_id, "/w/dep").unwrap(), Some(dep_id));
    let again = manifest("/w/dep2", "org.example", "dep", "1.0.0", true);
    assert!(matches!(
        res.admit_path(root_id, s("/w/dep2"), again),
        Err(ResolveError::SourceConflict { .. })
    ));
    let bin_only = manifest("/w/tool", "org.example", "tool", "1.0.0", false);
    assert!(matches!(
        res.admit_path(root_id, s("/w/tool"), bin_only),
        Err(ResolveError::PathWithoutLib { .. })
    ));
    res.bind_alias(root_id, s("dep"), dep_id);
    res.bind_alias(root_id, s("core"), core_id);
    res.end_load(root_id);
    let graph = res.finish().unwrap();
    assert_eq!(graph.packages[0].aliases, vec![(s("core"), core_id), (s("dep"), dep_id)]);
    assert_eq!(graph.order[2], PackageId(0));
    assert_eq!(graph.order.len(), 3);
}

#[test]
fn cache_layout() {
    let cache = Cache::at(s("/home/u/.dolphin"));
    assert_eq!(cache.home(), "/home/u/.dolphin");
    assert_eq!(
        cache.archive_path("abc"),
        "/home/u/.dolphin/cache/packages/sha256/abc/package.dlib"
    );
    assert_eq!(
        cache.unpacked_dir("abc"),
        "/home/u/.dolphin/cache/packages/sha256/abc/unpacked"
    );
    let digest = sha256_hex(b"https://r.example.org");
    assert_eq!(
        cache.index_path("https://r.example.org", "org.example", "lib", "1.0.0"),
        format!("/home/u/.dolphin/cache/index/{digest}/org/example/lib/1.0.0.toml")
    );
}

#[test]
fn sha256_hex_is_the_lowercase_digest() {
    assert_eq!(
        sha256_hex(b""),
        "e3b0c44298fc1c149afbf4c8996fb92427ae41e4649b934ca495991b7852b855"
    );
    assert_eq!(
        sha256_hex(b"abc"),
        "ba7816bf8f01cfea414140de5dae2223b00361a396177a9cb410ff61f20015ad"
    );
}

#[test]
fn index_snapshot_keeps_the_last_entry_per_coordinate() {
    let entry = |c: &str, h: &str| IndexEntry {
        coordinate: s(c),
        source: s("https://r"),
        sha256: s(h),
    };
    let snapshot = Cache::index_snapshot(vec![entry("b:b:1", "1"), entry("a:a:1", "2"), entry("b:b:1", "3")]);
    assert_eq!(snapshot, vec![entry("a:a:1", "2"), entry("b:b:1", "3")]);
}

#[test]
fn different_digests_have_different_archive_paths() {
    let cache = Cache::at(s("/home/u/.dolphin"));
    let a = sha256_hex(b"one");
    let b = sha256_hex(b"two");
    assert_ne!(cache.archive_path(&a), cache.archive_path(&b));
    assert_eq!(cache.archive_path(&a), cache.archive_path(&a.clone()));
}
