use dolphin::dlib::{archive_bytes, check_archive};
use dolphin::archive::{
    bin_paths_relative_to_source, check_entries, check_folded_entries, normalized_manifest, strip_base, toml_string,
    validate_entry_name, ArchiveEntry, ArchiveError, EntryRecord, NormalizedTarget, MAX_FILE_BYTES,
};
use dolphin::manifest::{manifest_from_raw, RawBin, RawDependency, RawManifest, RawPackage};

fn s(text: &str) -> String {
    text.to_string()
}

fn file(name: &str) -> EntryRecord {
    EntryRecord {
        name: s(name),
        is_dir: false,
        unix_mode: Some(0o100644),
        size: 1,
    }
}

/// The check's verdict on a ZIP archive holding files with these names.
fn zip_error(names: &[&str]) -> String {
    let entries = names
        .iter()
        .map(|n| ArchiveEntry { path: n.to_string(), bytes: b"x".to_vec() })
        .collect();
    check_archive(&archive_bytes(entries).unwrap()).unwrap_err().message()
}

#[test]
fn rejects_path_traversal_and_absolute_entries() {
    for name in ["../evil.txt", "src/../../evil.txt", "/abs.txt", "C:/evil.txt"] {
        let error = zip_error(&[name]);
        assert!(
            error.contains("unsafe") || error.contains("absolute") || error.contains("allowed"),
            "unexpected error for `{name}`: {error}"
        );
        let error = check_entries(&vec![file(name)]).unwrap_err().message();
        assert!(
            error.contains("unsafe") || error.contains("absolute") || error.contains("allowed"),
            "unexpected error for `{name}`: {error}"
        );
    }
}

#[test]
fn rejects_case_folded_entries() {
    let error = zip_error(&["src/a.do", "src/A.DO"]);
    assert!(error.contains("case"), "got: {error}");
}

#[test]
fn rejects_disallowed_top_level() {
    let error = zip_error(&["secrets.txt"]);
    assert!(error.contains("allowed"), "got: {error}");
}

#[test]
fn accepts_the_package_layout() {
    let mut dir = file("src/");
    dir.is_dir = true;
    let entries = vec![
        file("META-INF/dolphin-package.toml"),
        file("dolphin.toml"),
        file("LICENSE"),
        dir,
        file("src/lib.do"),
        file("native/x86_64-unknown-linux-gnu/libdemo.a"),
    ];
    assert!(check_entries(&entries).is_ok());
}

#[test]
fn entry_name_rules() {
    assert_eq!(validate_entry_name("", false), Err(ArchiveError::EmptyName));
    assert!(matches!(validate_entry_name("src\\a.do", false), Err(ArchiveError::Backslash { .. })));
    assert!(matches!(validate_entry_name("src/a\u{7}.do", false), Err(ArchiveError::ControlCharacter { .. })));
    assert!(matches!(validate_entry_name("src//a.do", false), Err(ArchiveError::UnsafeComponent { .. })));
    assert!(matches!(validate_entry_name("src/./a.do", false), Err(ArchiveError::UnsafeComponent { .. })));
    assert!(validate_entry_name("other/", true).is_ok());
    assert!(validate_entry_name("src/a.do", false).is_ok());
}

#[test]
fn duplicates_links_and_sizes_are_refused() {
    assert!(matches!(
        check_entries(&vec![file("src/a.do"), file("src/a.do")]),
        Err(ArchiveError::DuplicateEntry { .. })
    ));
    let mut link = file("src/link.do");
    link.unix_mode = Some(0o120777);
    assert!(matches!(check_entries(&vec![link]), Err(ArchiveError::SymbolicLink { .. })));
    let mut big = file("src/big.do");
    big.size = MAX_FILE_BYTES + 1;
    assert!(matches!(check_entries(&vec![big]), Err(ArchiveError::FileTooLarge { .. })));
    let mut a = file("src/a.do");
    a.size = MAX_FILE_BYTES;
    let mut b = file("src/b.do");
    b.size = MAX_FILE_BYTES;
    let mut c = file("src/c.do");
    c.size = 1;
    assert!(check_entries(&vec![a.clone(), b.clone()]).is_ok());
    assert_eq!(check_entries(&vec![a, b, c]), Err(ArchiveError::TotalTooLarge));
    let many: Vec<EntryRecord> = (0..10001).map(|i| file(&format!("src/f{i}.do"))).collect();
    assert_eq!(check_entries(&many), Err(ArchiveError::TooManyFiles));
}

#[test]
fn toml_strings_are_escaped() {
    assert_eq!(toml_string("plain"), "\"plain\"");
    assert_eq!(toml_string("a\"b\\c\nd\te\r"), "\"a\\\"b\\\\c\\nd\\te\\r\"");
}

fn library(dependencies: Vec<(String, RawDependency)>) -> dolphin::manifest::Manifest {
    let raw = RawManifest {
        package: Some(RawPackage {
            group: s("org.example"),
            name: s("mathlib"),
            version: s("1.0.0"),
            source: None,
        }),
        lib: Some(s("src/lib.do")),
        bins: vec![RawBin {
            name: s("demo"),
            path: s("src/bin/demo.do"),
        }],
        build: None,
        native: vec![],
        dependencies,
        repositories: vec![],
    };
    manifest_from_raw("/p/dolphin.toml", "/p", &raw).unwrap()
}

#[test]
fn normalized_manifest_keeps_package_lib_dependencies_and_native() {
    let manifest = library(vec![
        (s("codec"), RawDependency::Table(vec![
            (s("coordinate"), Some(s("org.example:codec:2.0.0"))),
            (s("repository"), Some(s("mirror"))),
        ])),
        (s("util"), RawDependency::Text(s("org.example:util:1.0.0"))),
    ]);
    let native = vec![NormalizedTarget {
        triple: s("x86_64-unknown-linux-gnu"),
        objects: vec![],
        static_libs: vec![s("native/x86_64-unknown-linux-gnu/libdemo.a")],
        shared_libs: vec![],
        runtime_files: vec![s("a"), s("b")],
    }];
    let text = normalized_manifest(&manifest, Some("lib.do"), &native).unwrap();
    assert_eq!(
        text,
        "[package]\ngroup = \"org.example\"\nname = \"mathlib\"\nversion = \"1.0.0\"\nsource = \"src\"\n\n\
[lib]\npath = \"src/lib.do\"\n\n\
[dependencies]\ncodec = { coordinate = \"org.example:codec:2.0.0\", repository = \"mirror\" }\nutil = \"org.example:util:1.0.0\"\n\n\
[native.x86_64-unknown-linux-gnu]\nstatic-libs = [\"native/x86_64-unknown-linux-gnu/libdemo.a\"]\nruntime-files = [\"a\", \"b\"]\n\n"
    );
    assert_eq!(
        normalized_manifest(&manifest, None, &native),
        Err(ArchiveError::LibOutsideSource)
    );
}

#[test]
fn path_dependencies_cannot_be_published() {
    let manifest = library(vec![(
        s("local"),
        RawDependency::Table(vec![(s("path"), Some(s("../local")))]),
    )]);
    let error = normalized_manifest(&manifest, Some("lib.do"), &vec![]).unwrap_err();
    assert!(error.message().contains("`local` is a path dependency"));
}

#[test]
fn bin_entries_relative_to_source() {
    let manifest = library(vec![]);
    assert_eq!(bin_paths_relative_to_source(&manifest), vec![s("bin/demo.do")]);
    assert_eq!(strip_base("/p/src", "/p/src/a/b.do"), Some(s("a/b.do")));
    assert_eq!(strip_base("/p/src", "/p/other/b.do"), None);
    assert_eq!(strip_base("/p/src", "/p/src"), Some(s("")));
}

#[test]
fn case_collisions_are_judged_on_the_folded_names() {
    let entries = vec![file("src/a.do"), file("src/b.do")];
    assert!(check_folded_entries(&entries, &vec![s("src/a.do"), s("src/b.do")]).is_ok());
    assert_eq!(
        check_folded_entries(&entries, &vec![s("src/a.do"), s("src/a.do")]),
        Err(ArchiveError::CaseCollision { name: s("src/b.do") })
    );
    assert_eq!(
        check_entries(&vec![file("src/Main.do"), file("src/MAIN.do")]),
        Err(ArchiveError::CaseCollision { name: s("src/MAIN.do") })
    );
}
