use dolphin::linker::{is_msvc_link_path, runtime_object_path, LinkerChoice};

#[test]
fn coreutils_link_is_not_mistaken_for_msvc() {
    assert!(!is_msvc_link_path(r"C:\Program Files\Git\usr\bin\link.exe"));
    assert!(is_msvc_link_path(
        r"C:\Program Files\Microsoft Visual Studio\2022\Community\VC\Tools\MSVC\14.44.35207\bin\Hostx64\x64\link.exe"
    ));
}

#[test]
fn msvc_marker_ignores_case_and_separator() {
    assert!(is_msvc_link_path("c:/tools/vc/bin/link.exe"));
    assert!(!is_msvc_link_path("c:/tools/vcs/bin/link.exe"));
}

#[test]
fn runtime_object_sits_beside_the_object() {
    assert_eq!(
        runtime_object_path("/out/build/app.o", "o"),
        "/out/build/app.runtime.o"
    );
    assert_eq!(runtime_object_path("app.obj", "obj"), "app.runtime.obj");
    assert_eq!(runtime_object_path("dir/a.b.o", "o"), "dir/a.b.runtime.o");
    assert_eq!(runtime_object_path("dir/.hidden", "o"), "dir/.hidden.runtime.o");
}

#[test]
fn system_linker_is_the_default() {
    assert_eq!(LinkerChoice::default(), LinkerChoice::System);
}
