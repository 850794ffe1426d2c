use wei_daemon::signal_handler::{
    is_main_loop_running, is_shutdown_requested, ShutdownAction, ShutdownMode, ShutdownState,
    SignalHandler, SignalType, WatchdogDecision, FORCED_SHUTDOWN_TIMEOUT_SECONDS,
    GRACEFUL_SHUTDOWN_TIMEOUT_SECONDS,
};

#[test]
fn codes_map_to_signals() {
    assert_eq!(SignalType::from_dword(0), SignalType::CtrlC);
    assert_eq!(SignalType::from_dword(1), SignalType::CtrlBreak);
    assert_eq!(SignalType::from_dword(2), SignalType::ConsoleClose);
    assert_eq!(SignalType::from_dword(5), SignalType::UserLogoff);
    assert_eq!(SignalType::from_dword(6), SignalType::SystemShutdown);
    assert_eq!(SignalType::from_dword(3), SignalType::Unknown);
}

#[test]
fn immediate_class_signals() {
    assert!(!SignalType::CtrlC.is_immediate_exit());
    assert!(!SignalType::CtrlBreak.is_immediate_exit());
    assert!(SignalType::ConsoleClose.is_immediate_exit());
    assert!(SignalType::UserLogoff.is_immediate_exit());
    assert!(SignalType::SystemShutdown.is_immediate_exit());
    assert!(!SignalType::Unknown.is_immediate_exit());
    assert_eq!(SignalType::CtrlC.description(), "Ctrl+C");
    assert_eq!(SignalType::CtrlBreak.description(), "Ctrl+Break");
    assert_eq!(SignalType::ConsoleClose.description(), "控制台关闭");
    assert_eq!(SignalType::UserLogoff.description(), "用户注销");
    assert_eq!(SignalType::SystemShutdown.description(), "系统关闭");
    assert_eq!(SignalType::Unknown.description(), "未知信号");
}

#[test]
fn interrupt_starts_graceful_shutdown() {
    let mut s = ShutdownState::new();
    assert!(!is_shutdown_requested(&s));
    assert_eq!(s.on_signal(SignalType::CtrlC, 1000), ShutdownAction::StartGracefulWatchdog);
    assert!(is_shutdown_requested(&s));
    assert_eq!(s.mode(), ShutdownMode::Graceful);
    assert_eq!(s.graceful_started_at(), Some(1000));
    assert_eq!(s.on_grace_check(1), WatchdogDecision::Wait);
    s.mark_main_loop_exited();
    assert!(!is_main_loop_running(&s));
    assert_eq!(s.on_grace_check(2), WatchdogDecision::Finish);
    assert_eq!(s.mode(), ShutdownMode::Graceful);
}

#[test]
fn ignored_flag_escalates_to_forced_within_ninety_seconds() {
    let mut s = ShutdownState::new();
    s.on_signal(SignalType::CtrlC, 0);
    let mut t = 0;
    loop {
        t += 1;
        match s.on_grace_check(t) {
            WatchdogDecision::Wait => continue,
            WatchdogDecision::Escalate => break,
            WatchdogDecision::Finish => panic!("the main loop still runs"),
        }
    }
    assert_eq!(t, GRACEFUL_SHUTDOWN_TIMEOUT_SECONDS);
    assert_eq!(s.mode(), ShutdownMode::Forced);
    assert!(t + FORCED_SHUTDOWN_TIMEOUT_SECONDS <= 90);
}

#[test]
fn close_signal_forces_at_once() {
    let mut s = ShutdownState::new();
    assert_eq!(s.on_signal(SignalType::ConsoleClose, 50), ShutdownAction::StartForcedWatchdog);
    assert_eq!(s.mode(), ShutdownMode::Forced);
}

#[test]
fn repeated_signal_escalates_after_five_seconds() {
    let mut s = ShutdownState::new();
    s.on_signal(SignalType::CtrlC, 100);
    assert_eq!(s.on_signal(SignalType::CtrlC, 103), ShutdownAction::NoAction);
    assert_eq!(s.on_signal(SignalType::CtrlC, 105), ShutdownAction::NoAction);
    assert_eq!(s.mode(), ShutdownMode::Graceful);
    assert_eq!(s.on_signal(SignalType::CtrlBreak, 106), ShutdownAction::StartForcedWatchdog);
    assert_eq!(s.mode(), ShutdownMode::Forced);
    assert_eq!(s.graceful_started_at(), Some(100));
    assert_eq!(s.on_signal(SignalType::CtrlC, 50), ShutdownAction::NoAction);
    assert_eq!(s.mode(), ShutdownMode::Forced);
}

#[test]
fn request_is_never_withdrawn() {
    let mut s = ShutdownState::new();
    s.on_signal(SignalType::Unknown, 7);
    for t in 0..100u64 {
        s.on_grace_check(t);
        s.on_signal(SignalType::CtrlC, t);
        assert!(is_shutdown_requested(&s));
    }
    s.mark_main_loop_exited();
    assert!(is_shutdown_requested(&s));
}

#[test]
fn handler_registers_once() {
    let mut h = SignalHandler::new();
    assert!(!h.is_registered());
    assert!(h.register(false).is_err());
    assert!(!h.is_registered());
    assert!(h.register(true).is_ok());
    assert!(h.register(true).is_err());
    assert!(h.is_registered());
    assert!(h.unregister(false).is_err());
    assert!(h.unregister(true).is_ok());
    assert!(!h.is_registered());
    assert!(h.unregister(false).is_ok());
}
