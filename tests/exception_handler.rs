use wei_daemon::exception_handler::{
    exception_code_to_string, get_exception_count, is_fatal_exception, ExceptionHandler,
    ExceptionInfo, EXCEPTION_ACCESS_VIOLATION, EXCEPTION_NONCONTINUABLE_EXCEPTION,
    EXCEPTION_STACK_OVERFLOW,
};

#[test]
fn access_violation_is_logged_not_fatal() {
    let mut h = ExceptionHandler::new();
    h.install().unwrap();
    let (info, fatal) = h.on_exception(EXCEPTION_ACCESS_VIOLATION, 0x7ff6_1234, 4242, 1_700_000_000);
    assert!(!fatal);
    assert_eq!(get_exception_count(&h), 1);
    let text = info.to_display_string();
    assert_eq!(
        text,
        "异常信息:\n  代码: 0xC0000005 (访问违规)\n  地址: 0x7ff61234\n  线程ID: 4242\n  时间戳: 1700000000\n  附加信息: 这是第 1 次捕获到的异常"
    );
    let (second, _) = h.on_exception(EXCEPTION_ACCESS_VIOLATION, 0, 1, 2);
    assert_eq!(second.additional_info, "这是第 2 次捕获到的异常");
    assert_eq!(get_exception_count(&h), 2);
}

#[test]
fn stack_overflow_and_noncontinuable_are_fatal() {
    assert!(is_fatal_exception(EXCEPTION_STACK_OVERFLOW));
    assert!(is_fatal_exception(EXCEPTION_NONCONTINUABLE_EXCEPTION));
    assert!(!is_fatal_exception(EXCEPTION_ACCESS_VIOLATION));
    let mut h = ExceptionHandler::new();
    let (_, fatal) = h.on_exception(EXCEPTION_STACK_OVERFLOW, 0, 0, 0);
    assert!(fatal);
}

#[test]
fn second_install_fails() {
    let mut h = ExceptionHandler::new();
    assert!(h.install().is_ok());
    assert!(h.install().is_err());
    h.uninstall();
    assert!(!h.is_installed());
    assert!(h.install().is_ok());
}

#[test]
fn labels_of_codes() {
    assert_eq!(exception_code_to_string(0xC0000005), "访问违规");
    assert_eq!(exception_code_to_string(0xC0000094), "整数除零");
    assert_eq!(exception_code_to_string(0xC00000FD), "栈溢出");
    assert_eq!(exception_code_to_string(0x80000003), "断点异常");
    assert_eq!(exception_code_to_string(0x12345678), "未知异常 (0x12345678)");
    assert_eq!(exception_code_to_string(0x1234ABCD), "未知异常 (0x1234ABCD)");
    assert_eq!(exception_code_to_string(7), "未知异常 (0x00000007)");
}

#[test]
fn record_without_note_says_none() {
    let info = ExceptionInfo::new(0xC000001D, 255, 9, 10);
    assert_eq!(info.description, "非法指令");
    assert!(info.to_display_string().ends_with("附加信息: 无"));
    assert!(info.to_display_string().contains("地址: 0xff\n"));
    assert!(ExceptionInfo::new(1, 0, 0, 0).to_display_string().contains("地址: 0x0\n"));
    let noted = info.with_additional_info("x".to_string());
    assert_eq!(noted.additional_info, "x");
}
