//! Decisions of the child-process monitors: one record per configured
//! process, and the step function that a monitor thread follows between
//! spawning, polling, backing off and terminating its child.
//!
//! The caller owns the OS children. It reports each event through
//! [`ProcessManager::on_event`] and performs the action returned.

use vstd::prelude::*;
use crate::restart_policy::{ProcessRestartPolicy, RestartPolicy};
use crate::text::views;

verus! {

#[derive(Debug, Clone, Copy, PartialEq, Eq, Structural)]
pub enum ProcessStatus {
    /// Registered; no child spawned yet.
    Starting,
    Running,
    /// Between two lives of the child, waiting out the backoff delay.
    Restarting,
    Stopped,
    /// The restart budget ran out.
    Failed,
}

impl ProcessStatus {
    pub open spec fn is_terminal(self) -> bool {
        self is Stopped || self is Failed
    }
}

/// What a monitor thread observed.
#[derive(Debug, Clone, Copy, PartialEq, Eq, Structural)]
pub enum MonitorEvent {
    /// The monitor begins, before any spawn.
    Started,
    /// A child was spawned with this process id.
    Spawned(u32),
    /// The OS refused to spawn the child, or its executable or working
    /// directory is missing.
    SpawnFailed,
    /// A poll found the child still running.
    StillRunning,
    /// The child exited.
    Exited,
    /// The backoff delay has passed.
    DelayElapsed,
    /// The child was terminated on request and has been waited for.
    Terminated,
    /// The monitor saw its shutdown flag raised; whatever it had decided
    /// before is decided again.
    ShutdownRequested,
}

/// What a monitor thread does next.
#[derive(Debug, Clone, Copy, PartialEq, Eq, Structural)]
pub enum MonitorAction {
    Spawn,
    /// Wait this many milliseconds, then report `DelayElapsed`.
    WaitThenSpawn(u64),
    /// Wait one poll interval, then look at the child again.
    Poll,
    /// Terminate the child, wait for it, then report `Terminated`.
    TerminateChild,
    /// Leave the monitor loop.
    Exit,
}

/// What is known of one managed process.
pub struct ProcessView {
    pub name: Seq<char>,
    pub command: Seq<char>,
    pub args: Seq<Seq<char>>,
    pub status: ProcessStatus,
    pub pid: Option<u32>,
    pub restart_policy: RestartPolicy,
    pub backoff: ProcessRestartPolicy,
    pub restart_count: u32,
    pub shutdown_signal: bool,
}

pub struct ProcessInfo {
    pub name: String,
    pub command: String,
    pub args: Vec<String>,
    pub status: ProcessStatus,
    pub pid: Option<u32>,
    /// How many restarts are allowed.
    pub restart_policy: RestartPolicy,
    /// The delays between restarts; its `max_restarts` is not consulted.
    pub backoff: ProcessRestartPolicy,
    pub restart_count: u32,
    pub shutdown_signal: bool,
}

impl View for ProcessInfo {
    type V = ProcessView;

    open spec fn view(&self) -> ProcessView {
        ProcessView {
            name: self.name@,
            command: self.command@,
            args: views(self.args@),
            status: self.status,
            pid: self.pid,
            restart_policy: self.restart_policy,
            backoff: self.backoff,
            restart_count: self.restart_count,
            shutdown_signal: self.shutdown_signal,
        }
    }
}

/// A child ended (or could not start): stop when asked to, restart while
/// the budget allows, else fail.
pub open spec fn after_child_end(p: ProcessView) -> (ProcessView, MonitorAction) {
    if p.shutdown_signal {
        (ProcessView { status: ProcessStatus::Stopped, pid: None, ..p }, MonitorAction::Exit)
    } else if p.restart_policy.permits(p.restart_count as nat) {
        (
            ProcessView {
                status: ProcessStatus::Restarting,
                pid: None,
                restart_count: if p.restart_count < u32::MAX {
                    (p.restart_count + 1) as u32
                } else {
                    p.restart_count
                },
                ..p
            },
            MonitorAction::WaitThenSpawn(p.backoff.spec_delay(p.restart_count as nat) as u64),
        )
    } else {
        (ProcessView { status: ProcessStatus::Failed, pid: None, ..p }, MonitorAction::Exit)
    }
}

/// One step of the monitor of process `p`.
pub open spec fn monitor_step(p: ProcessView, event: MonitorEvent) -> (ProcessView, MonitorAction) {
    match event {
        MonitorEvent::Started => if p.shutdown_signal {
            (ProcessView { status: ProcessStatus::Stopped, ..p }, MonitorAction::Exit)
        } else {
            (p, MonitorAction::Spawn)
        },
        MonitorEvent::Spawned(pid) => (
            ProcessView { status: ProcessStatus::Running, pid: Some(pid), ..p },
            if p.shutdown_signal {
                MonitorAction::TerminateChild
            } else {
                MonitorAction::Poll
            },
        ),
        MonitorEvent::SpawnFailed => after_child_end(p),
        MonitorEvent::StillRunning => (
            p,
            if p.shutdown_signal {
                MonitorAction::TerminateChild
            } else {
                MonitorAction::Poll
            },
        ),
        MonitorEvent::Exited => after_child_end(p),
        MonitorEvent::DelayElapsed => if p.shutdown_signal {
            (ProcessView { status: ProcessStatus::Stopped, ..p }, MonitorAction::Exit)
        } else {
            (p, MonitorAction::Spawn)
        },
        MonitorEvent::Terminated => (
            ProcessView { status: ProcessStatus::Stopped, pid: None, ..p },
            MonitorAction::Exit,
        ),
        MonitorEvent::ShutdownRequested => if p.pid is Some {
            (ProcessView { shutdown_signal: true, ..p }, MonitorAction::TerminateChild)
        } else {
            (
                ProcessView { shutdown_signal: true, status: ProcessStatus::Stopped, ..p },
                MonitorAction::Exit,
            )
        },
    }
}

/// Once a process is asked to stop, no step spawns a child for it again,
/// and the request stays. So a process asked to stop before its first spawn
/// never gets a child.
pub proof fn lemma_no_spawn_after_shutdown(p: ProcessView, event: MonitorEvent)
    requires
        p.shutdown_signal || event is ShutdownRequested,
    ensures
        !(monitor_step(p, event).1 is Spawn),
        !(monitor_step(p, event).1 is WaitThenSpawn),
        monitor_step(p, event).0.shutdown_signal,
{
}

/// A record within its restart budget: a bounded budget is never passed.
pub open spec fn within_budget(p: ProcessView) -> bool {
    match p.restart_policy {
        RestartPolicy::Limited(max) => p.restart_count <= max,
        RestartPolicy::Infinite => true,
    }
}

/// Every step keeps a record within its restart budget; a record whose
/// bounded budget is used up is never restarted.
pub proof fn lemma_restart_count_within_limit(p: ProcessView, event: MonitorEvent)
    requires
        within_budget(p),
    ensures
        within_budget(monitor_step(p, event).0),
        monitor_step(p, event).0.restart_policy == p.restart_policy,
        (p.restart_policy matches RestartPolicy::Limited(max) && p.restart_count == max) ==> !(
        monitor_step(p, event).1 is WaitThenSpawn),
{
}

pub struct ProcessManager {
    processes: Vec<ProcessInfo>,
}

impl View for ProcessManager {
    type V = Seq<ProcessView>;

    closed spec fn view(&self) -> Seq<ProcessView> {
        self.processes@.map_values(|p: ProcessInfo| p@)
    }
}

pub open spec fn names_distinct(ps: Seq<ProcessView>) -> bool {
    forall|i: int, j: int| 0 <= i < j < ps.len() ==> #[trigger] ps[i].name != #[trigger] ps[j].name
}

/// Names are distinct and every record is within its restart budget.
pub open spec fn table_wf(ps: Seq<ProcessView>) -> bool {
    &&& names_distinct(ps)
    &&& forall|i: int| 0 <= i < ps.len() ==> within_budget(#[trigger] ps[i])
}

/// The record of a process registered by `start_process`.
pub open spec fn fresh_process(
    name: Seq<char>,
    command: Seq<char>,
    args: Seq<Seq<char>>,
    restart_policy: RestartPolicy,
    backoff: ProcessRestartPolicy,
) -> ProcessView {
    ProcessView {
        name,
        command,
        args,
        status: ProcessStatus::Starting,
        pid: None,
        restart_policy,
        backoff,
        restart_count: 0,
        shutdown_signal: false,
    }
}

impl ProcessManager {
    pub closed spec fn wf(self) -> bool {
        table_wf(self@)
    }

    /// No managed process ever passes a bounded restart budget.
    pub proof fn lemma_all_within_budget(self, i: int)
        requires
            self.wf(),
            0 <= i < self@.len(),
        ensures
            within_budget(self@[i]),
    {
    }

    pub fn new() -> (r: Self)
        ensures
            r.wf(),
            r@ == Seq::<ProcessView>::empty(),
    {
        let r = ProcessManager { processes: Vec::new() };
        assert(r@ =~= Seq::<ProcessView>::empty());
        r
    }

    fn find(&self, name: &String) -> (r: Option<usize>)
        requires
            self.wf(),
        ensures
            match r {
                Some(i) => i < self@.len() && self@[i as int].name == name@,
                None => forall|j: int| 0 <= j < self@.len() ==> #[trigger] self@[j].name != name@,
            },
    {
        let mut i: usize = 0;
        while i < self.processes.len()
            invariant
                i <= self.processes@.len(),
                forall|j: int| 0 <= j < i ==> #[trigger] self.processes@[j].name@ != name@,
            decreases self.processes@.len() - i,
        {
            if self.processes[i].name == *name {
                return Some(i);
            }
            i = i + 1;
        }
        assert forall|j: int| 0 <= j < self@.len() implies #[trigger] self@[j].name != name@ by {
            assert(self@[j] == self.processes@[j]@);
        }
        None
    }

    fn copy_args(args: &Vec<String>) -> (r: Vec<String>)
        ensures
            views(r@) == views(args@),
    {
        let mut out: Vec<String> = Vec::new();
        let mut i: usize = 0;
        while i < args.len()
            invariant
                i <= args@.len(),
                views(out@) == views(args@.subrange(0, i as int)),
            decreases args@.len() - i,
        {
            let ghost before = views(out@);
            out.push(args[i].clone());
            assert(views(out@) =~= before.push(args@[i as int]@));
            assert(args@.subrange(0, (i + 1) as int) =~= args@.subrange(0, i as int).push(
                args@[i as int],
            ));
            assert(views(out@) =~= views(args@.subrange(0, (i + 1) as int)));
            i = i + 1;
        }
        assert(args@.subrange(0, args@.len() as int) =~= args@);
        out
    }

    fn duplicate(p: &ProcessInfo) -> (r: ProcessInfo)
        ensures
            r@ == p@,
    {
        ProcessInfo {
            name: p.name.clone(),
            command: p.command.clone(),
            args: Self::copy_args(&p.args),
            status: p.status,
            pid: p.pid,
            restart_policy: p.restart_policy,
            backoff: p.backoff,
            restart_count: p.restart_count,
            shutdown_signal: p.shutdown_signal,
        }
    }

    /// Registers process `name` to be started. Fails, changing nothing,
    /// when a process of that name is registered already.
    pub fn start_process(
        &mut self,
        name: String,
        command: String,
        args: Vec<String>,
        restart_policy: RestartPolicy,
        backoff: ProcessRestartPolicy,
    ) -> (r: Result<(), String>)
        requires
            old(self).wf(),
        ensures
            final(self).wf(),
            (forall|j: int| 0 <= j < old(self)@.len() ==> #[trigger] old(self)@[j].name != name@)
                ==> r is Ok && final(self)@ == old(self)@.push(
                fresh_process(name@, command@, views(args@), restart_policy, backoff),
            ),
            (exists|j: int| 0 <= j < old(self)@.len() && #[trigger] old(self)@[j].name == name@)
                ==> r is Err && final(self)@ == old(self)@,
    {
        match self.find(&name) {
            Some(_) => {
                let mut msg = String::from_str("进程已在运行: ");
                msg.append(name.as_str());
                Err(msg)
            },
            None => {
                let info = ProcessInfo {
                    name,
                    command,
                    args,
                    status: ProcessStatus::Starting,
                    pid: None,
                    restart_policy,
                    backoff,
                    restart_count: 0,
                    shutdown_signal: false,
                };
                let ghost before = self@;
                let ghost fresh = info@;
                self.processes.push(info);
                assert(self@ =~= before.push(fresh));
                assert forall|a: int, b: int|
                    0 <= a < b < self@.len() implies #[trigger] self@[a].name
                    != #[trigger] self@[b].name by {
                    if b < before.len() {
                        assert(self@[a] == before[a] && self@[b] == before[b]);
                    } else {
                        assert(self@[a] == before[a]);
                    }
                }
                assert forall|a: int| 0 <= a < self@.len() implies within_budget(
                    #[trigger] self@[a],
                ) by {
                    if a < before.len() {
                        assert(self@[a] == before[a]);
                    }
                }
                Ok(())
            },
        }
    }

    /// Removes the record of process `name`, for a start whose monitor could
    /// not be created. Fails, changing nothing, when no process has that name.
    pub fn remove_process(&mut self, name: &str) -> (r: Result<(), String>)
        requires
            old(self).wf(),
        ensures
            final(self).wf(),
            (forall|j: int| 0 <= j < old(self)@.len() ==> #[trigger] old(self)@[j].name != name@)
                ==> r is Err && final(self)@ == old(self)@,
            forall|i: int|
                0 <= i < old(self)@.len() && old(self)@[i].name == name@ ==> r is Ok && final(self)@ == old(self)@.remove(i),
    {
        let key = String::from_str(name);
        let ghost before = self@;
        match self.find(&key) {
            None => Err(String::from_str("没有这个名字的进程")),
            Some(i) => {
                proof {
                    assert forall|j: int|
                        0 <= j < before.len() && before[j].name == name@ implies j == i by {
                        if j != i {
                            assert(before[j].name != before[i as int].name);
                        }
                    }
                }
                self.processes.remove(i);
                assert(self@ =~= before.remove(i as int));
                assert forall|a: int, b: int|
                    0 <= a < b < self@.len() implies #[trigger] self@[a].name
                    != #[trigger] self@[b].name by {
                    let a0 = if a < i { a } else { a + 1 };
                    let b0 = if b < i { b } else { b + 1 };
                    assert(self@[a] == before[a0] && self@[b] == before[b0]);
                }
                assert forall|a: int| 0 <= a < self@.len() implies within_budget(
                    #[trigger] self@[a],
                ) by {
                    let a0 = if a < i { a } else { a + 1 };
                    assert(self@[a] == before[a0]);
                }
                Ok(())
            },
        }
    }

    /// Raises the shutdown flag of process `name`. Fails, changing nothing,
    /// when no process has that name.
    pub fn stop_process(&mut self, name: &str) -> (r: Result<(), String>)
        requires
            old(self).wf(),
        ensures
            final(self).wf(),
            (forall|j: int| 0 <= j < old(self)@.len() ==> #[trigger] old(self)@[j].name != name@)
                ==> r is Err && final(self)@ == old(self)@,
            forall|i: int|
                0 <= i < old(self)@.len() && old(self)@[i].name == name@ ==> r is Ok && final(self)@ == old(self)@.update(i, ProcessView { shutdown_signal: true, ..old(self)@[i] }),
    {
        let key = String::from_str(name);
        let ghost before = self@;
        match self.find(&key) {
            None => Err(String::from_str("no process has this name")),
            Some(i) => {
                proof {
                    assert forall|j: int|
                        0 <= j < before.len() && before[j].name == name@ implies j == i by {
                        if j != i {
                            assert(before[j].name != before[i as int].name);
                        }
                    }
                }
                let mut info = Self::duplicate(&self.processes[i]);
                info.shutdown_signal = true;
                let ghost updated = info@;
                self.processes.set(i, info);
                assert(self@ =~= before.update(i as int, updated));
                assert forall|a: int, b: int|
                    0 <= a < b < self@.len() implies #[trigger] self@[a].name
                    != #[trigger] self@[b].name by {
                    assert(self@[a].name == before[a].name);
                    assert(self@[b].name == before[b].name);
                }
                Ok(())
            },
        }
    }

    /// One step of the monitor of process `name`: records `event` and says
    /// what the monitor does next. An unknown name ends the monitor.
    pub fn on_event(&mut self, name: &str, event: MonitorEvent) -> (r: MonitorAction)
        requires
            old(self).wf(),
        ensures
            final(self).wf(),
            (forall|j: int| 0 <= j < old(self)@.len() ==> #[trigger] old(self)@[j].name != name@)
                ==> r is Exit && final(self)@ == old(self)@,
            forall|i: int|
                0 <= i < old(self)@.len() && old(self)@[i].name == name@ ==> final(self)@ == old(self)@.update(i, monitor_step(old(self)@[i], event).0) && r == monitor_step(
                    old(self)@[i],
                    event,
                ).1,
    {
        let key = String::from_str(name);
        let ghost before = self@;
        match self.find(&key) {
            None => MonitorAction::Exit,
            Some(i) => {
                proof {
                    assert forall|j: int|
                        0 <= j < before.len() && before[j].name == name@ implies j == i by {
                        if j != i {
                            assert(before[j].name != before[i as int].name);
                        }
                    }
                }
                let mut p = Self::duplicate(&self.processes[i]);
                let ghost old_p = p@;
                let action = match event {
                    MonitorEvent::Started => {
                        if p.shutdown_signal {
                            p.status = ProcessStatus::Stopped;
                            MonitorAction::Exit
                        } else {
                            MonitorAction::Spawn
                        }
                    },
                    MonitorEvent::Spawned(pid) => {
                        p.status = ProcessStatus::Running;
                        p.pid = Some(pid);
                        if p.shutdown_signal {
                            MonitorAction::TerminateChild
                        } else {
                            MonitorAction::Poll
                        }
                    },
                    MonitorEvent::StillRunning => {
                        if p.shutdown_signal {
                            MonitorAction::TerminateChild
                        } else {
                            MonitorAction::Poll
                        }
                    },
                    MonitorEvent::SpawnFailed | MonitorEvent::Exited => {
                        p.pid = None;
                        if p.shutdown_signal {
                            p.status = ProcessStatus::Stopped;
                            MonitorAction::Exit
                        } else if p.restart_policy.allows_restart(p.restart_count) {
                            let delay = p.backoff.delay_after(p.restart_count);
                            if p.restart_count < u32::MAX {
                                p.restart_count = p.restart_count + 1;
                            }
                            p.status = ProcessStatus::Restarting;
                            MonitorAction::WaitThenSpawn(delay)
                        } else {
                            p.status = ProcessStatus::Failed;
                            MonitorAction::Exit
                        }
                    },
                    MonitorEvent::DelayElapsed => {
                        if p.shutdown_signal {
                            p.status = ProcessStatus::Stopped;
                            MonitorAction::Exit
                        } else {
                            MonitorAction::Spawn
                        }
                    },
                    MonitorEvent::Terminated => {
                        p.status = ProcessStatus::Stopped;
                        p.pid = None;
                        MonitorAction::Exit
                    },
                    MonitorEvent::ShutdownRequested => {
                        p.shutdown_signal = true;
                        if p.pid.is_some() {
                            MonitorAction::TerminateChild
                        } else {
                            p.status = ProcessStatus::Stopped;
                            MonitorAction::Exit
                        }
                    },
                };
                assert((p@, action) == monitor_step(old_p, event));
                let ghost updated = p@;
                self.processes.set(i, p);
                assert(self@ =~= before.update(i as int, updated));
                assert forall|a: int, b: int|
                    0 <= a < b < self@.len() implies #[trigger] self@[a].name
                    != #[trigger] self@[b].name by {
                    assert(self@[a].name == before[a].name);
                    assert(self@[b].name == before[b].name);
                }
                action
            },
        }
    }

    /// Snapshot of (name, status) of every managed process.
    pub fn list_all_processes(&self) -> (r: Vec<(String, ProcessStatus)>)
        ensures
            r@.len() == self@.len(),
            forall|i: int|
                0 <= i < r@.len() ==> (#[trigger] r@[i]).0@ == self@[i].name && r@[i].1
                    == self@[i].status,
    {
        let mut out: Vec<(String, ProcessStatus)> = Vec::new();
        let mut i: usize = 0;
        while i < self.processes.len()
            invariant
                i <= self.processes@.len(),
                out@.len() == i,
                forall|j: int|
                    0 <= j < i ==> (#[trigger] out@[j]).0@ == self@[j].name && out@[j].1
                        == self@[j].status,
            decreases self.processes@.len() - i,
        {
            out.push((self.processes[i].name.clone(), self.processes[i].status));
            i = i + 1;
        }
        out
    }
}

} // verus!
