use dolphin::paths::{join, path_components, relative_components, strip_verbatim_prefix};

#[test]
fn verbatim_windows_prefixes_are_stripped() {
    assert_eq!(strip_verbatim_prefix(r"\\?\C:\proj\src", true), r"C:\proj\src");
    assert_eq!(
        strip_verbatim_prefix(r"\\?\UNC\server\share\src", true),
        r"\\server\share\src"
    );
    assert_eq!(strip_verbatim_prefix(r"C:\proj\src", true), r"C:\proj\src");
}

#[test]
fn non_disk_verbatim_paths_are_kept() {
    assert_eq!(strip_verbatim_prefix(r"\\?\pipe\x", true), r"\\?\pipe\x");
    assert_eq!(strip_verbatim_prefix("/home/user", true), "/home/user");
}

#[test]
fn join_follows_path_join() {
    assert_eq!(join("/proj", "src"), "/proj/src");
    assert_eq!(join("/proj/", "src/main.do"), "/proj/src/main.do");
    assert_eq!(join("/proj", "/abs"), "/abs");
    assert_eq!(join("", "rel"), "rel");
}

#[test]
fn components_drop_empty_and_dot_segments() {
    assert_eq!(
        path_components("/proj/./src//lib.do"),
        vec!["/".to_string(), "proj".to_string(), "src".to_string(), "lib.do".to_string()]
    );
    assert_eq!(path_components("a/b/"), vec!["a".to_string(), "b".to_string()]);
}

#[test]
fn relative_paths_climb_then_descend() {
    let base = path_components("/work/app");
    let dep = path_components("/work/libs/dep");
    assert_eq!(relative_components(&base, &dep), "../libs/dep");
    assert_eq!(relative_components(&base, &base), ".");
    let inner = path_components("/work/app/vendor/x");
    assert_eq!(relative_components(&base, &inner), "vendor/x");
}

#[test]
fn verbatim_prefixes_are_kept_off_windows() {
    assert_eq!(strip_verbatim_prefix(r"\\?\C:\proj\src", false), r"\\?\C:\proj\src");
    assert_eq!(strip_verbatim_prefix("/home/user", false), "/home/user");
}
