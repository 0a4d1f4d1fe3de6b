use dolphin::manifest::{
    manifest_from_raw, parse_coordinate, raw_aliases_ascending, validate_repository_url, DependencyKind, Manifest,
    ManifestError, RawBin, RawBuild, RawDependency, RawManifest, RawNative, RawPackage,
};
use dolphin::names::is_valid_alias;

const PATH: &str = "/proj/dolphin.toml";
const ROOT: &str = "/proj";

fn s(text: &str) -> String {
    text.to_string()
}

fn package(group: &str, name: &str, version: &str) -> Option<RawPackage> {
    Some(RawPackage {
        group: s(group),
        name: s(name),
        version: s(version),
        source: None,
    })
}

fn bin(name: &str, path: &str) -> RawBin {
    RawBin {
        name: s(name),
        path: s(path),
    }
}

fn raw(package: Option<RawPackage>, bins: Vec<RawBin>) -> RawManifest {
    RawManifest {
        package,
        lib: None,
        bins,
        build: None,
        native: vec![],
        dependencies: vec![],
        repositories: vec![],
    }
}

fn parse_ok(raw: &RawManifest) -> Manifest {
    manifest_from_raw(PATH, ROOT, raw).expect("manifest should parse")
}

fn parse_err(raw: &RawManifest) -> String {
    manifest_from_raw(PATH, ROOT, raw)
        .expect_err("manifest should be refused")
        .message(PATH)
}

#[test]
fn parses_minimal_manifest_with_defaults() {
    let manifest = parse_ok(&raw(
        package("me.foxlab", "hello", "0.1.0"),
        vec![bin("hello", "src/main.do")],
    ));
    assert_eq!(manifest.package.coordinate(), "me.foxlab:hello:0.1.0");
    assert_eq!(manifest.package.source, "/proj/src");
    assert_eq!(manifest.bins.len(), 1);
    assert_eq!(manifest.bins[0].name, "hello");
    assert_eq!(manifest.bins[0].path, "/proj/src/main.do");
    assert_eq!(manifest.build.optimization, "debug");
    assert_eq!(manifest.build.output, "/proj/target");
}

#[test]
fn parses_explicit_source_build_and_multiple_bins() {
    let mut r = raw(
        Some(RawPackage {
            group: s("org.example"),
            name: s("app"),
            version: s("1.2.3"),
            source: Some(s("source")),
        }),
        vec![bin("cli", "source/cli.do"), bin("server", "source/server.do")],
    );
    r.build = Some(RawBuild {
        optimization: Some(s("release")),
        output: Some(s("dist")),
    });
    let manifest = parse_ok(&r);
    assert_eq!(manifest.package.coordinate(), "org.example:app:1.2.3");
    assert_eq!(manifest.bins.len(), 2);
    assert_eq!(manifest.build.optimization, "release");
    assert_eq!(manifest.build.output, "/proj/dist");
}

#[test]
fn rejects_missing_package() {
    let error = parse_err(&raw(None, vec![]));
    assert!(error.contains("[package]"));
}

#[test]
fn rejects_empty_bins() {
    let error = parse_err(&raw(package("g", "n", "0.1.0"), vec![]));
    assert!(error.contains("[[bin]]"));
}

#[test]
fn rejects_invalid_group() {
    let error = parse_err(&raw(
        package("bad..group", "n", "0.1.0"),
        vec![bin("n", "src/main.do")],
    ));
    assert!(error.contains("package.group"));
}

#[test]
fn rejects_invalid_version() {
    let error = parse_err(&raw(
        package("g", "n", "not-a-version"),
        vec![bin("n", "src/main.do")],
    ));
    assert!(error.contains("package.version"));
}

#[test]
fn rejects_version_with_path_separators() {
    for version in [
        "1.0.0-/../../evil",
        "1.0.0-a/../b",
        "1.0.0-..",
        "1.0.0-",
        "1.0.0+../x",
        "1.0.0-a+b+c",
    ] {
        assert!(
            parse_coordinate(&format!("g:n:{version}")).is_err(),
            "version `{version}` must be rejected"
        );
    }
    assert!(parse_coordinate("g:n:1.0.0-alpha.1").is_ok());
    assert!(parse_coordinate("g:n:0.1.0").is_ok());
}

#[test]
fn rejects_duplicate_bins() {
    let error = parse_err(&raw(
        package("g", "n", "0.1.0"),
        vec![bin("n", "src/a.do"), bin("n", "src/b.do")],
    ));
    assert!(error.contains("duplicate"));
}

#[test]
fn rejects_invalid_optimization() {
    let mut r = raw(package("g", "n", "0.1.0"), vec![bin("n", "src/main.do")]);
    r.build = Some(RawBuild {
        optimization: Some(s("fast")),
        output: None,
    });
    let error = parse_err(&r);
    assert!(error.contains("optimization"));
}

#[test]
fn parses_native_inputs_for_target() {
    let mut r = raw(
        package("me.foxlab", "ffiapp", "0.1.0"),
        vec![bin("ffiapp", "src/main.do")],
    );
    r.native = vec![(
        s("x86_64-unknown-linux-gnu"),
        RawNative {
            objects: vec![s("native/demo.o")],
            static_libs: vec![s("native/libdemo.a")],
            shared_libs: vec![s("native/libshared.so")],
            runtime_files: vec![s("native/libshared.so")],
        },
    )];
    let manifest = parse_ok(&r);
    let spec = manifest
        .native_for("x86_64-unknown-linux-gnu")
        .expect("native spec should be present");
    assert_eq!(spec.objects, vec![s("/proj/native/demo.o")]);
    assert_eq!(spec.static_libs, vec![s("/proj/native/libdemo.a")]);
    assert_eq!(spec.shared_libs, vec![s("/proj/native/libshared.so")]);
    assert_eq!(spec.runtime_files, vec![s("/proj/native/libshared.so")]);
    assert!(manifest.native_for("aarch64-apple-darwin").is_none());
}

#[test]
fn parses_lib_only_manifest() {
    let mut r = raw(package("org.example", "mathlib", "1.0.0"), vec![]);
    r.lib = Some(s("src/lib.do"));
    let manifest = parse_ok(&r);
    assert!(manifest.bins.is_empty());
    assert_eq!(
        manifest.lib.as_ref().map(|lib| lib.path.clone()),
        Some(s("/proj/src/lib.do"))
    );
}

#[test]
fn rejects_lib_outside_source_directory() {
    let mut r = raw(package("g", "n", "0.1.0"), vec![]);
    r.lib = Some(s("other/lib.do"));
    let error = parse_err(&r);
    assert!(error.contains("direct child"));
}

#[test]
fn requires_at_least_one_target() {
    let error = parse_err(&raw(package("g", "n", "0.1.0"), vec![]));
    assert!(error.contains("[lib]"));
    assert!(error.contains("[[bin]]"));
}

#[test]
fn parses_dependencies_and_repositories() {
    let mut r = raw(
        package("org.example", "app", "0.1.0"),
        vec![bin("app", "src/main.do")],
    );
    r.repositories = vec![(s("default"), s("https://packages.example.org/dolphin/"))];
    r.dependencies = vec![
        (
            s("codec"),
            RawDependency::Table(vec![
                (s("coordinate"), Some(s("org.example:codec:2.0.0"))),
                (s("repository"), Some(s("default"))),
            ]),
        ),
        (
            s("local"),
            RawDependency::Table(vec![(s("path"), Some(s("../local-lib")))]),
        ),
        (s("math"), RawDependency::Text(s("org.example:mathlib:1.0.0"))),
    ];
    let manifest = parse_ok(&r);
    let default = manifest
        .repositories
        .iter()
        .find(|(id, _)| id == "default")
        .map(|(_, base)| base.as_str());
    assert_eq!(default, Some("https://packages.example.org/dolphin"));
    let names: Vec<&str> = manifest
        .dependencies
        .iter()
        .map(|dependency| dependency.alias.as_str())
        .collect();
    assert_eq!(names, vec!["codec", "local", "math"]);
    let math = manifest
        .dependencies
        .iter()
        .find(|dependency| dependency.alias == "math")
        .expect("math dependency should parse");
    assert_eq!(math.kind.coordinate(), Some("org.example:mathlib:1.0.0"));
    assert_eq!(math.kind.repository(), Some("default"));
    let local = manifest
        .dependencies
        .iter()
        .find(|dependency| dependency.alias == "local")
        .expect("local dependency should parse");
    assert_eq!(local.kind, DependencyKind::Path(s("/proj/../local-lib")));
}

#[test]
fn rejects_reserved_or_invalid_dependency_alias() {
    let mut r = raw(package("g", "n", "0.1.0"), vec![bin("n", "src/main.do")]);
    r.dependencies = vec![(s("std"), RawDependency::Text(s("g:other:1.0.0")))];
    let error = parse_err(&r);
    assert!(error.contains("alias"));
}

#[test]
fn rejects_invalid_repository_url_and_id() {
    let mut bad_url = raw(package("g", "n", "0.1.0"), vec![bin("n", "src/main.do")]);
    bad_url.repositories = vec![(s("default"), s("ftp://example.org/repo"))];
    assert!(parse_err(&bad_url).contains("scheme"));

    let mut bad_id = raw(package("g", "n", "0.1.0"), vec![bin("n", "src/main.do")]);
    bad_id.repositories = vec![(s("2bad"), s("https://example.org/repo"))];
    assert!(parse_err(&bad_id).contains("repository id"));
}

#[test]
fn dependency_table_rejects_both_coordinate_and_path() {
    let mut r = raw(package("g", "n", "0.1.0"), vec![bin("n", "src/main.do")]);
    r.dependencies = vec![(
        s("both"),
        RawDependency::Table(vec![
            (s("coordinate"), Some(s("g:o:1.0.0"))),
            (s("path"), Some(s("../o"))),
        ]),
    )];
    let error = parse_err(&r);
    assert!(error.contains("both"));
}

#[test]
fn every_dependency_error_is_reported() {
    let base = || raw(package("g", "n", "0.1.0"), vec![bin("n", "src/main.do")]);
    let mut unknown = base();
    unknown.dependencies = vec![(s("x"), RawDependency::Table(vec![(s("version"), Some(s("1")))]))];
    assert!(matches!(
        manifest_from_raw(PATH, ROOT, &unknown),
        Err(ManifestError::UnknownDependencyKey { .. })
    ));
    let mut neither = base();
    neither.dependencies = vec![(s("x"), RawDependency::Table(vec![]))];
    assert!(matches!(
        manifest_from_raw(PATH, ROOT, &neither),
        Err(ManifestError::NoCoordinateOrPath { .. })
    ));
    let mut path_repo = base();
    path_repo.dependencies = vec![(
        s("x"),
        RawDependency::Table(vec![(s("path"), Some(s("../x"))), (s("repository"), Some(s("r")))]),
    )];
    assert!(matches!(
        manifest_from_raw(PATH, ROOT, &path_repo),
        Err(ManifestError::PathWithRepository { .. })
    ));
    let mut other = base();
    other.dependencies = vec![(s("x"), RawDependency::Other(s("integer")))];
    let error = manifest_from_raw(PATH, ROOT, &other).unwrap_err();
    assert!(error.message(PATH).ends_with("found integer"));
    let mut bad_coordinate = base();
    bad_coordinate.dependencies = vec![(s("x"), RawDependency::Text(s("g:n")))];
    assert!(matches!(
        manifest_from_raw(PATH, ROOT, &bad_coordinate),
        Err(ManifestError::InvalidCoordinate { .. })
    ));
}

#[test]
fn repository_ids_are_case_insensitive_and_sorted() {
    let mut r = raw(package("g", "n", "0.1.0"), vec![bin("n", "src/main.do")]);
    r.repositories = vec![
        (s("Zeta"), s("https://z.example.org//")),
        (s("alpha"), s("file:///srv/repo")),
    ];
    let manifest = parse_ok(&r);
    assert_eq!(
        manifest.repositories,
        vec![
            (s("alpha"), s("file:///srv/repo")),
            (s("zeta"), s("https://z.example.org")),
        ]
    );
    let mut dup = raw(package("g", "n", "0.1.0"), vec![bin("n", "src/main.do")]);
    dup.repositories = vec![
        (s("Main"), s("https://a.example.org")),
        (s("main"), s("https://b.example.org")),
    ];
    assert!(parse_err(&dup).contains("case-insensitive"));
}

#[test]
fn repository_urls_are_checked() {
    assert_eq!(
        validate_repository_url("https://example.org/repo///").unwrap(),
        "https://example.org/repo"
    );
    assert!(validate_repository_url("///").is_err());
    assert!(validate_repository_url("example.org")
        .unwrap_err()
        .message(PATH)
        .contains("expected an `http://`"));
    assert!(validate_repository_url("https://").is_err());
    assert!(validate_repository_url("https://example.org/?q=1")
        .unwrap_err()
        .message(PATH)
        .contains("query"));
    assert!(validate_repository_url("https://user:pw@example.org/")
        .unwrap_err()
        .message(PATH)
        .contains("credentials"));
    assert!(validate_repository_url("http://example.org/a@b").is_ok());
}

#[test]
fn aliases_are_identifiers_other_than_std() {
    assert!(is_valid_alias("math"));
    assert!(is_valid_alias("_x1"));
    assert!(!is_valid_alias("std"));
    assert!(!is_valid_alias("1x"));
    assert!(!is_valid_alias(""));
    assert!(!is_valid_alias("a-b"));
}

#[test]
fn coordinates_split_into_parts() {
    assert_eq!(
        parse_coordinate("org.example:lib:1.2.3").unwrap(),
        (s("org.example"), s("lib"), s("1.2.3"))
    );
    assert!(parse_coordinate("a:b:c:d").is_err());
    assert!(parse_coordinate("a..b:c:1.0.0").is_err());
    assert!(parse_coordinate("a:9c:1.0.0").is_err());
    assert!(parse_coordinate("a:c:1.0.0+build").is_err());
    assert!(parse_coordinate("a:c:1.0").is_err());
}

#[test]
fn a_validated_repository_base_validates_to_itself() {
    let base = validate_repository_url("https://repo.example.org/maven//").unwrap();
    assert_eq!(base, "https://repo.example.org/maven");
    assert_eq!(validate_repository_url(&base).unwrap(), base);
}

#[test]
fn dependency_tables_must_ascend_by_alias() {
    let a = (s("a"), RawDependency::Text(s("g:a:1.0.0")));
    let b = (s("b"), RawDependency::Text(s("g:b:1.0.0")));
    assert!(raw_aliases_ascending(&vec![a.clone(), b.clone()]));
    assert!(!raw_aliases_ascending(&vec![b.clone(), a.clone()]));
    assert!(!raw_aliases_ascending(&vec![a.clone(), a.clone()]));
    assert!(raw_aliases_ascending(&vec![]));
}
