use wei_daemon::{any_name_equals, is_process_running};

#[test]
fn names_match_without_regard_to_case() {
    let running = vec!["Explorer.EXE".to_string(), "svc-a.exe".to_string()];
    assert!(is_process_running("SVC-A.exe", &running));
    assert!(is_process_running("explorer.exe", &running));
    assert!(!is_process_running("svc-b.exe", &running));
    assert!(!is_process_running("svc-a", &running));
    assert!(!is_process_running("x", &vec![]));
}

#[test]
fn exact_name_lookup() {
    let names = vec!["a".to_string(), "B".to_string()];
    assert!(any_name_equals(&"B".to_string(), &names));
    assert!(!any_name_equals(&"b".to_string(), &names));
}
