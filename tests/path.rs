use wei_daemon::path::{has_executable_extension, is_absolute, normalize_path};

#[test]
fn normalization_resolves_dots() {
    assert_eq!(normalize_path("./a/b/../c"), "a/c");
    assert_eq!(normalize_path("../../x"), "../../x");
    assert_eq!(normalize_path("a/b/../../.."), "..");
    assert_eq!(normalize_path("/.."), "/");
    assert_eq!(normalize_path("/a//b/"), "/a/b");
    assert_eq!(normalize_path(""), "");
    assert_eq!(normalize_path("."), "");
    assert_eq!(normalize_path("/"), "/");
}

#[test]
fn absolute_paths() {
    assert!(is_absolute("/bin"));
    assert!(is_absolute("\\\\server\\share"));
    assert!(is_absolute("C:\\Windows"));
    assert!(is_absolute("d:/data"));
    assert!(!is_absolute("bin/x"));
    assert!(!is_absolute("C:x"));
    assert!(!is_absolute(""));
}

#[test]
fn executable_extensions() {
    assert!(has_executable_extension("../svc/svc.exe"));
    assert!(has_executable_extension("C:/tools/run.BAT"));
    assert!(has_executable_extension("x.Cmd"));
    assert!(has_executable_extension("/a.b/prog.com"));
    assert!(!has_executable_extension("/a.exe/prog"));
    assert!(!has_executable_extension(".exe"));
    assert!(!has_executable_extension("prog.exe2"));
    assert!(!has_executable_extension("prog"));
    assert!(!has_executable_extension(""));
}
