//! Operator and OS shutdown signals, and the one-way shutdown latch with
//! its graceful -> forced escalation.

use vstd::prelude::*;

verus! {

/// Console control event: interactive interrupt.
pub const CTRL_C_EVENT: u32 = 0;
/// Console control event: interactive break.
pub const CTRL_BREAK_EVENT: u32 = 1;
/// Console control event: the console window is being closed.
pub const CTRL_CLOSE_EVENT: u32 = 2;
/// Console control event: the user is logging off.
pub const CTRL_LOGOFF_EVENT: u32 = 5;
/// Console control event: the system is shutting down.
pub const CTRL_SHUTDOWN_EVENT: u32 = 6;

/// Seconds between the first graceful-class signal and escalation to forced shutdown.
pub const GRACEFUL_SHUTDOWN_TIMEOUT_SECONDS: u64 = 30;
/// Seconds between entering forced mode and self-termination.
pub const FORCED_SHUTDOWN_TIMEOUT_SECONDS: u64 = 60;
/// A repeated signal arriving more than this many seconds after the first one
/// escalates to forced shutdown at once.
pub const REPEATED_SIGNAL_ESCALATION_SECONDS: u64 = 5;

#[derive(Debug, Clone, Copy, PartialEq, Eq, Structural)]
pub enum SignalType {
    CtrlC,
    CtrlBreak,
    ConsoleClose,
    UserLogoff,
    SystemShutdown,
    Unknown,
}

/// The signal that a console control event code stands for.
pub open spec fn signal_of_code(code: u32) -> SignalType {
    if code == CTRL_C_EVENT {
        SignalType::CtrlC
    } else if code == CTRL_BREAK_EVENT {
        SignalType::CtrlBreak
    } else if code == CTRL_CLOSE_EVENT {
        SignalType::ConsoleClose
    } else if code == CTRL_LOGOFF_EVENT {
        SignalType::UserLogoff
    } else if code == CTRL_SHUTDOWN_EVENT {
        SignalType::SystemShutdown
    } else {
        SignalType::Unknown
    }
}

impl SignalType {
    /// Signals sent when the OS is about to end the process anyway.
    pub open spec fn spec_is_immediate_exit(self) -> bool {
        self is ConsoleClose || self is UserLogoff || self is SystemShutdown
    }

    pub fn from_dword(ctrl_type: u32) -> (r: SignalType)
        ensures
            r == signal_of_code(ctrl_type),
    {
        if ctrl_type == CTRL_C_EVENT {
            SignalType::CtrlC
        } else if ctrl_type == CTRL_BREAK_EVENT {
            SignalType::CtrlBreak
        } else if ctrl_type == CTRL_CLOSE_EVENT {
            SignalType::ConsoleClose
        } else if ctrl_type == CTRL_LOGOFF_EVENT {
            SignalType::UserLogoff
        } else if ctrl_type == CTRL_SHUTDOWN_EVENT {
            SignalType::SystemShutdown
        } else {
            SignalType::Unknown
        }
    }

    pub fn description(&self) -> (r: &'static str)
        ensures
            *self is CtrlC ==> r@ == "Ctrl+C"@,
            *self is CtrlBreak ==> r@ == "Ctrl+Break"@,
            *self is ConsoleClose ==> r@ == "控制台关闭"@,
            *self is UserLogoff ==> r@ == "用户注销"@,
            *self is SystemShutdown ==> r@ == "系统关闭"@,
            *self is Unknown ==> r@ == "未知信号"@,
    {
        match self {
            SignalType::CtrlC => "Ctrl+C",
            SignalType::CtrlBreak => "Ctrl+Break",
            SignalType::ConsoleClose => "控制台关闭",
            SignalType::UserLogoff => "用户注销",
            SignalType::SystemShutdown => "系统关闭",
            SignalType::Unknown => "未知信号",
        }
    }

    pub fn is_immediate_exit(&self) -> (r: bool)
        ensures
            r == self.spec_is_immediate_exit(),
    {
        match self {
            SignalType::ConsoleClose | SignalType::UserLogoff | SignalType::SystemShutdown => true,
            _ => false,
        }
    }
}

/// How far shutdown has gone; it only moves forward.
#[derive(Debug, Clone, Copy, PartialEq, Eq, Structural)]
pub enum ShutdownMode {
    Idle,
    Graceful,
    Forced,
}

pub open spec fn mode_rank(m: ShutdownMode) -> nat {
    match m {
        ShutdownMode::Idle => 0,
        ShutdownMode::Graceful => 1,
        ShutdownMode::Forced => 2,
    }
}

/// What the caller starts after a signal.
#[derive(Debug, Clone, Copy, PartialEq, Eq, Structural)]
pub enum ShutdownAction {
    NoAction,
    /// Start the watchdog that escalates after the graceful window.
    StartGracefulWatchdog,
    /// Start the watchdog that ends the process after the forced window.
    StartForcedWatchdog,
}

/// What the graceful watchdog does after one of its checks.
#[derive(Debug, Clone, Copy, PartialEq, Eq, Structural)]
pub enum WatchdogDecision {
    /// Check again later.
    Wait,
    /// The main loop has ended; the watchdog has nothing left to do.
    Finish,
    /// The graceful window is over: start the forced watchdog.
    Escalate,
}

pub struct ShutdownView {
    pub requested: bool,
    pub mode: ShutdownMode,
    /// Seconds since the Unix epoch of the first signal.
    pub graceful_started_at: Option<u64>,
    pub main_loop_running: bool,
}

/// The process-wide shutdown latch. Once requested, shutdown stays
/// requested, and its mode never moves back.
#[derive(Debug, Clone, Copy)]
pub struct ShutdownState {
    requested: bool,
    mode: ShutdownMode,
    graceful_started_at: Option<u64>,
    main_loop_running: bool,
}

impl View for ShutdownState {
    type V = ShutdownView;

    closed spec fn view(&self) -> ShutdownView {
        ShutdownView {
            requested: self.requested,
            mode: self.mode,
            graceful_started_at: self.graceful_started_at,
            main_loop_running: self.main_loop_running,
        }
    }
}

/// The state after signal `signal` arrived at `now` (seconds since the epoch).
pub open spec fn after_signal(s: ShutdownView, signal: SignalType, now: u64) -> (
    ShutdownView,
    ShutdownAction,
) {
    match s.graceful_started_at {
        None => if signal.spec_is_immediate_exit() {
            (
                ShutdownView {
                    requested: true,
                    mode: ShutdownMode::Forced,
                    graceful_started_at: Some(now),
                    ..s
                },
                ShutdownAction::StartForcedWatchdog,
            )
        } else {
            (
                ShutdownView {
                    requested: true,
                    mode: if s.mode is Forced {
                        ShutdownMode::Forced
                    } else {
                        ShutdownMode::Graceful
                    },
                    graceful_started_at: Some(now),
                    ..s
                },
                ShutdownAction::StartGracefulWatchdog,
            )
        },
        Some(start) => {
            let elapsed = if now >= start {
                now - start
            } else {
                0
            };
            if elapsed > REPEATED_SIGNAL_ESCALATION_SECONDS {
                (
                    ShutdownView { requested: true, mode: ShutdownMode::Forced, ..s },
                    ShutdownAction::StartForcedWatchdog,
                )
            } else {
                (ShutdownView { requested: true, ..s }, ShutdownAction::NoAction)
            }
        },
    }
}

/// The state after the graceful watchdog checked, `elapsed` seconds after
/// it started.
pub open spec fn after_grace_check(s: ShutdownView, elapsed: u64) -> (
    ShutdownView,
    WatchdogDecision,
) {
    if !s.main_loop_running {
        (s, WatchdogDecision::Finish)
    } else if elapsed < GRACEFUL_SHUTDOWN_TIMEOUT_SECONDS {
        (s, WatchdogDecision::Wait)
    } else {
        (ShutdownView { mode: ShutdownMode::Forced, ..s }, WatchdogDecision::Escalate)
    }
}

/// Shutdown is a one-way latch: no transition withdraws a request or moves
/// the mode back.
pub proof fn lemma_shutdown_latch(s: ShutdownView, signal: SignalType, now: u64, elapsed: u64)
    ensures
        after_signal(s, signal, now).0.requested,
        mode_rank(s.mode) <= mode_rank(after_signal(s, signal, now).0.mode),
        s.requested ==> after_grace_check(s, elapsed).0.requested,
        mode_rank(s.mode) <= mode_rank(after_grace_check(s, elapsed).0.mode),
        s.requested ==> ({
            let t = ShutdownView { main_loop_running: false, ..s };
            t.requested && t.mode == s.mode
        }),
{
}

impl ShutdownState {
    pub fn new() -> (r: Self)
        ensures
            r@ == (ShutdownView {
                requested: false,
                mode: ShutdownMode::Idle,
                graceful_started_at: None,
                main_loop_running: true,
            }),
    {
        ShutdownState {
            requested: false,
            mode: ShutdownMode::Idle,
            graceful_started_at: None,
            main_loop_running: true,
        }
    }

    /// Records signal `signal`, received at `now`, and says which watchdog to
    /// start. The first signal sets the latch and the start time; a later one
    /// arriving more than five seconds after it escalates to forced shutdown.
    pub fn on_signal(&mut self, signal: SignalType, now: u64) -> (r: ShutdownAction)
        ensures
            (final(self)@, r) == after_signal(old(self)@, signal, now),
    {
        match self.graceful_started_at {
            None => {
                self.requested = true;
                self.graceful_started_at = Some(now);
                if signal.is_immediate_exit() {
                    self.mode = ShutdownMode::Forced;
                    ShutdownAction::StartForcedWatchdog
                } else {
                    if self.mode != ShutdownMode::Forced {
                        self.mode = ShutdownMode::Graceful;
                    }
                    ShutdownAction::StartGracefulWatchdog
                }
            },
            Some(start) => {
                self.requested = true;
                let elapsed = now.saturating_sub(start);
                if elapsed > REPEATED_SIGNAL_ESCALATION_SECONDS {
                    self.mode = ShutdownMode::Forced;
                    ShutdownAction::StartForcedWatchdog
                } else {
                    ShutdownAction::NoAction
                }
            },
        }
    }

    /// One check of the graceful watchdog, `elapsed` seconds after it started.
    pub fn on_grace_check(&mut self, elapsed: u64) -> (r: WatchdogDecision)
        ensures
            (final(self)@, r) == after_grace_check(old(self)@, elapsed),
    {
        if !self.main_loop_running {
            WatchdogDecision::Finish
        } else if elapsed < GRACEFUL_SHUTDOWN_TIMEOUT_SECONDS {
            WatchdogDecision::Wait
        } else {
            self.mode = ShutdownMode::Forced;
            WatchdogDecision::Escalate
        }
    }

    /// Records that the main loop has ended.
    pub fn mark_main_loop_exited(&mut self)
        ensures
            final(self)@ == (ShutdownView { main_loop_running: false, ..old(self)@ }),
    {
        self.main_loop_running = false;
    }

    pub fn mode(&self) -> (r: ShutdownMode)
        ensures
            r == self@.mode,
    {
        self.mode
    }

    pub fn graceful_started_at(&self) -> (r: Option<u64>)
        ensures
            r == self@.graceful_started_at,
    {
        self.graceful_started_at
    }
}

/// Whether shutdown has been requested.
pub fn is_shutdown_requested(state: &ShutdownState) -> (r: bool)
    ensures
        r == state@.requested,
{
    state.requested
}

/// Whether the main loop is still running.
pub fn is_main_loop_running(state: &ShutdownState) -> (r: bool)
    ensures
        r == state@.main_loop_running,
{
    state.main_loop_running
}

/// Registration of the console control handler.
pub struct SignalHandler {
    handler_registered: bool,
}

impl SignalHandler {
    pub closed spec fn spec_registered(self) -> bool {
        self.handler_registered
    }

    pub fn new() -> (r: Self)
        ensures
            !r.spec_registered(),
    {
        SignalHandler { handler_registered: false }
    }

    pub fn is_registered(&self) -> (r: bool)
        ensures
            r == self.spec_registered(),
    {
        self.handler_registered
    }

    /// Records the registration of the handler, which the OS accepted when
    /// `os_accepted` holds. Fails, changing nothing, when a handler is
    /// registered already or the OS refused.
    pub fn register(&mut self, os_accepted: bool) -> (r: Result<(), String>)
        ensures
            r is Ok <==> (!old(self).spec_registered() && os_accepted),
            final(self).spec_registered() == (old(self).spec_registered() || os_accepted),
    {
        if self.handler_registered {
            return Err(String::from_str("信号处理程序已经注册"));
        }
        if !os_accepted {
            return Err(String::from_str("无法设置控制台信号处理程序"));
        }
        self.handler_registered = true;
        Ok(())
    }

    /// Records the removal of the handler, which the OS accepted when
    /// `os_accepted` holds. Removing a handler that is not registered
    /// succeeds and changes nothing.
    pub fn unregister(&mut self, os_accepted: bool) -> (r: Result<(), String>)
        ensures
            r is Ok <==> (!old(self).spec_registered() || os_accepted),
            final(self).spec_registered() == (old(self).spec_registered() && !os_accepted),
    {
        if !self.handler_registered {
            return Ok(());
        }
        if !os_accepted {
            return Err(String::from_str("无法取消注册控制台信号处理程序"));
        }
        self.handler_registered = false;
        Ok(())
    }
}

} // verus!
