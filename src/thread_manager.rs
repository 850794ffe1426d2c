//! The worker registry: worker records, id allocation, stop requests and the
//! decisions of each worker's supervision loop.
//!
//! The caller owns the OS threads. Each supervision thread reports what its
//! body did through [`ThreadManager::supervise`] and performs the action it
//! returns; stopping a worker here raises its shutdown flag, after which the
//! caller joins the thread.

use vstd::prelude::*;
use crate::restart_policy::{ThreadRestartManager, ThreadRestartPolicy};

verus! {

#[derive(Debug, Clone, Copy, PartialEq, Eq, Structural)]
pub enum ThreadStatus {
    Created,
    Stopped,
    Restarting,
    Failed,
}

impl ThreadStatus {
    pub open spec fn is_terminal(self) -> bool {
        self is Stopped || self is Failed
    }
}

/// What is known of one worker.
pub struct WorkerView {
    pub id: u64,
    pub name: Seq<char>,
    pub status: ThreadStatus,
    pub restart_enabled: bool,
    pub shutdown_signal: bool,
    pub last_restart_at: Option<u64>,
}

/// One worker record of the registry.
pub struct ThreadInfo {
    pub id: u64,
    pub name: String,
    pub status: ThreadStatus,
    pub restart_enabled: bool,
    pub shutdown_signal: bool,
    /// Seconds since the Unix epoch of the last restart, if any.
    pub last_restart_at: Option<u64>,
}

impl View for ThreadInfo {
    type V = WorkerView;

    open spec fn view(&self) -> WorkerView {
        WorkerView {
            id: self.id,
            name: self.name@,
            status: self.status,
            restart_enabled: self.restart_enabled,
            shutdown_signal: self.shutdown_signal,
            last_restart_at: self.last_restart_at,
        }
    }
}

impl ThreadInfo {
    pub fn new(id: u64, name: String, restart_enabled: bool) -> (r: Self)
        ensures
            r@ == (WorkerView {
                id,
                name: name@,
                status: ThreadStatus::Created,
                restart_enabled,
                shutdown_signal: false,
                last_restart_at: None,
            }),
    {
        ThreadInfo {
            id,
            name,
            status: ThreadStatus::Created,
            restart_enabled,
            shutdown_signal: false,
            last_restart_at: None,
        }
    }

    pub fn set_status(&mut self, status: ThreadStatus)
        ensures
            final(self)@ == (WorkerView { status, ..old(self)@ }),
    {
        self.status = status;
    }

    pub fn get_status(&self) -> (r: ThreadStatus)
        ensures
            r == self@.status,
    {
        self.status
    }

    pub fn signal_shutdown(&mut self)
        ensures
            final(self)@ == (WorkerView { shutdown_signal: true, ..old(self)@ }),
    {
        self.shutdown_signal = true;
    }

    fn duplicate(&self) -> (r: Self)
        ensures
            r@ == self@,
    {
        ThreadInfo {
            id: self.id,
            name: self.name.clone(),
            status: self.status,
            restart_enabled: self.restart_enabled,
            shutdown_signal: self.shutdown_signal,
            last_restart_at: self.last_restart_at,
        }
    }
}

/// What a supervision thread reports about its worker.
#[derive(Debug, Clone, Copy, PartialEq, Eq, Structural)]
pub enum WorkerEvent {
    /// The body returned normally.
    Completed,
    /// The body faulted (a panic caught by the fault barrier).
    Faulted,
    /// The backoff delay that a restart asked for has passed.
    BackoffElapsed,
}

/// What a supervision thread does next.
#[derive(Debug, Clone, Copy, PartialEq, Eq, Structural)]
pub enum SupervisorAction {
    /// Leave the supervision loop.
    Exit,
    /// Sleep this many milliseconds, then report `BackoffElapsed`.
    RestartAfter(u64),
    /// Invoke the body again.
    RunBody,
}

/// What is known of the registry.
pub struct RegistryView {
    /// Worker records, in order of creation.
    pub workers: Seq<WorkerView>,
    pub next_thread_id: u64,
    pub policy: ThreadRestartPolicy,
    /// Restarts made so far, by worker name.
    pub restart_counts: Map<Seq<char>, u32>,
}

impl RegistryView {
    pub open spec fn has_id(self, id: u64) -> bool {
        exists|i: int| 0 <= i < self.workers.len() && #[trigger] self.workers[i].id == id
    }

    pub open spec fn has_name(self, name: Seq<char>) -> bool {
        exists|i: int| 0 <= i < self.workers.len() && #[trigger] self.workers[i].name == name
    }

    pub open spec fn count_of(self, name: Seq<char>) -> nat {
        if self.restart_counts.contains_key(name) {
            self.restart_counts[name] as nat
        } else {
            0
        }
    }

    pub open spec fn set_worker(self, i: int, w: WorkerView) -> RegistryView {
        RegistryView { workers: self.workers.update(i, w), ..self }
    }

    /// The registry after a worker named `name` was added under the next id.
    pub open spec fn created(self, name: Seq<char>, restart_enabled: bool) -> RegistryView {
        RegistryView {
            workers: self.workers.push(
                WorkerView {
                    id: self.next_thread_id,
                    name,
                    status: ThreadStatus::Created,
                    restart_enabled,
                    shutdown_signal: false,
                    last_restart_at: None,
                },
            ),
            next_thread_id: (self.next_thread_id + 1) as u64,
            ..self
        }
    }

    /// The registry after worker `i` was asked to stop: its flag is raised and
    /// it is in a terminal state.
    pub open spec fn stopped(self, i: int) -> RegistryView {
        let w = self.workers[i];
        self.set_worker(
            i,
            WorkerView {
                shutdown_signal: true,
                status: if w.status is Failed {
                    ThreadStatus::Failed
                } else {
                    ThreadStatus::Stopped
                },
                ..w
            },
        )
    }

    /// One step of the supervision loop of worker `i`.
    pub open spec fn supervised(self, i: int, event: WorkerEvent, now: u64) -> (
        RegistryView,
        SupervisorAction,
    ) {
        let w = self.workers[i];
        match event {
            WorkerEvent::Completed => (
                self.set_worker(i, WorkerView { status: ThreadStatus::Stopped, ..w }),
                SupervisorAction::Exit,
            ),
            WorkerEvent::Faulted => {
                if !w.restart_enabled {
                    (
                        self.set_worker(i, WorkerView { status: ThreadStatus::Failed, ..w }),
                        SupervisorAction::Exit,
                    )
                } else if w.shutdown_signal {
                    (
                        self.set_worker(i, WorkerView { status: ThreadStatus::Stopped, ..w }),
                        SupervisorAction::Exit,
                    )
                } else if self.count_of(w.name) >= self.policy.max_restarts {
                    (
                        self.set_worker(i, WorkerView { status: ThreadStatus::Failed, ..w }),
                        SupervisorAction::Exit,
                    )
                } else {
                    (
                        RegistryView {
                            restart_counts: self.restart_counts.insert(
                                w.name,
                                (self.count_of(w.name) + 1) as u32,
                            ),
                            ..self.set_worker(
                                i,
                                WorkerView {
                                    status: ThreadStatus::Restarting,
                                    last_restart_at: Some(now),
                                    ..w
                                },
                            )
                        },
                        SupervisorAction::RestartAfter(
                            self.policy.spec_delay(self.count_of(w.name)) as u64,
                        ),
                    )
                }
            },
            WorkerEvent::BackoffElapsed => {
                if w.shutdown_signal {
                    (
                        self.set_worker(i, WorkerView { status: ThreadStatus::Stopped, ..w }),
                        SupervisorAction::Exit,
                    )
                } else {
                    (
                        self.set_worker(i, WorkerView { status: ThreadStatus::Created, ..w }),
                        SupervisorAction::RunBody,
                    )
                }
            },
        }
    }
}

pub struct ThreadManager {
    threads: Vec<ThreadInfo>,
    next_thread_id: u64,
    restart_manager: ThreadRestartManager,
}

impl View for ThreadManager {
    type V = RegistryView;

    closed spec fn view(&self) -> RegistryView {
        RegistryView {
            workers: self.threads@.map_values(|t: ThreadInfo| t@),
            next_thread_id: self.next_thread_id,
            policy: self.restart_manager.spec_policy(),
            restart_counts: self.restart_manager.counts(),
        }
    }
}

/// Ids increase in order of creation and stay below the next id; names are
/// unique; no restart counter exceeds the budget.
pub open spec fn registry_wf(v: RegistryView) -> bool {
    &&& forall|i: int, j: int|
        0 <= i < j < v.workers.len() ==> #[trigger] v.workers[i].id < #[trigger] v.workers[j].id
    &&& forall|i: int| 0 <= i < v.workers.len() ==> #[trigger] v.workers[i].id < v.next_thread_id
    &&& forall|i: int, j: int|
        0 <= i < j < v.workers.len() ==> #[trigger] v.workers[i].name != #[trigger] v.workers[j].name
}

/// In a well-formed registry one index at most holds a given id.
proof fn lemma_id_at_one_index(v: RegistryView, i: int, j: int)
    requires
        registry_wf(v),
        0 <= i < v.workers.len(),
        0 <= j < v.workers.len(),
        v.workers[i].id == v.workers[j].id,
    ensures
        i == j,
{
    if i < j {
        assert(v.workers[i].id < v.workers[j].id);
    } else if j < i {
        assert(v.workers[j].id < v.workers[i].id);
    }
}

/// Ids handed out by the registry increase strictly in order of creation, and
/// every one of them is below the id that the next worker will get.
pub proof fn lemma_ids_strictly_increase(m: ThreadManager)
    requires
        m.wf(),
    ensures
        forall|i: int, j: int|
            0 <= i < j < m@.workers.len() ==> #[trigger] m@.workers[i].id < #[trigger] m@.workers[j].id,
        forall|i: int| 0 <= i < m@.workers.len() ==> #[trigger] m@.workers[i].id < m@.next_thread_id,
{
}

/// No worker's restart count ever exceeds the budget of the policy.
pub proof fn lemma_restart_count_within_budget(m: ThreadManager, name: Seq<char>)
    requires
        m.wf(),
    ensures
        m@.count_of(name) <= m@.policy.max_restarts,
{
    m.restart_manager.lemma_counts_within_budget(name);
}

/// Stopping a worker a second time succeeds and changes nothing.
pub proof fn lemma_stop_twice_is_noop(v: RegistryView, i: int)
    requires
        0 <= i < v.workers.len(),
    ensures
        v.stopped(i).stopped(i) == v.stopped(i),
{
    assert(v.stopped(i).stopped(i).workers =~= v.stopped(i).workers);
}

/// A worker created and then stopped stays in the registry in a terminal
/// state, and whatever its supervision thread reports next, it stays there
/// and the thread leaves its loop.
pub proof fn lemma_create_then_stop_is_terminal(
    v: RegistryView,
    name: Seq<char>,
    restart_enabled: bool,
    event: WorkerEvent,
    now: u64,
)
    ensures
        ({
            let c = v.created(name, restart_enabled);
            let i = v.workers.len() as int;
            let s = c.stopped(i);
            &&& c.workers[i].id == v.next_thread_id
            &&& s.workers.len() == c.workers.len()
            &&& s.workers[i].id == v.next_thread_id
            &&& s.workers[i].status.is_terminal()
            &&& s.supervised(i, event, now).0.workers[i].status.is_terminal()
            &&& s.supervised(i, event, now).1 is Exit
        }),
{
}

/// The registry after worker `i` faulted and then waited out its backoff,
/// `k` times in a row.
pub open spec fn fault_cycles(v: RegistryView, i: int, k: nat, now: u64) -> RegistryView
    decreases k,
{
    if k == 0 {
        v
    } else {
        let w = fault_cycles(v, i, (k - 1) as nat, now);
        w.supervised(i, WorkerEvent::Faulted, now).0.supervised(i, WorkerEvent::BackoffElapsed, now).0
    }
}

/// While its budget lasts, each fault of a restartable worker that is not
/// asked to stop is answered by a restart, and counts one restart more.
pub proof fn lemma_fault_cycles(v: RegistryView, i: int, k: nat, now: u64)
    requires
        0 <= i < v.workers.len(),
        v.workers[i].restart_enabled,
        !v.workers[i].shutdown_signal,
        v.count_of(v.workers[i].name) + k <= v.policy.max_restarts,
    ensures
        ({
            let w = fault_cycles(v, i, k, now);
            &&& w.workers.len() == v.workers.len()
            &&& w.workers[i].name == v.workers[i].name
            &&& w.workers[i].restart_enabled
            &&& !w.workers[i].shutdown_signal
            &&& w.policy == v.policy
            &&& w.count_of(v.workers[i].name) == v.count_of(v.workers[i].name) + k
        }),
        forall|j: nat|
            j < k ==> (#[trigger] fault_cycles(v, i, j, now)).supervised(
                i,
                WorkerEvent::Faulted,
                now,
            ).1 is RestartAfter,
    decreases k,
{
    if k > 0 {
        lemma_fault_cycles(v, i, (k - 1) as nat, now);
        let w = fault_cycles(v, i, (k - 1) as nat, now);
        let name = v.workers[i].name;
        assert(w.supervised(i, WorkerEvent::Faulted, now).1 is RestartAfter);
        let f = w.supervised(i, WorkerEvent::Faulted, now).0;
        assert(f.restart_counts[name] == (w.count_of(name) + 1) as u32);
        assert forall|j: nat| j < k implies (#[trigger] fault_cycles(v, i, j, now)).supervised(
            i,
            WorkerEvent::Faulted,
            now,
        ).1 is RestartAfter by {
            if j == k - 1 {
            }
        }
    }
}

/// A restartable worker whose body faults every time, and that is never
/// asked to stop, runs its body `max_restarts - c + 1` times (where `c` is
/// the restarts already counted for its name): `max_restarts - c` faults
/// are answered by a restart, and the next one marks it failed and ends its
/// loop.
pub proof fn lemma_faulting_worker_runs_budget_plus_one(v: RegistryView, i: int, now: u64)
    requires
        0 <= i < v.workers.len(),
        v.workers[i].restart_enabled,
        !v.workers[i].shutdown_signal,
        v.count_of(v.workers[i].name) <= v.policy.max_restarts,
    ensures
        ({
            let k = (v.policy.max_restarts - v.count_of(v.workers[i].name)) as nat;
            let w = fault_cycles(v, i, k, now);
            &&& forall|j: nat|
                j < k ==> (#[trigger] fault_cycles(v, i, j, now)).supervised(
                    i,
                    WorkerEvent::Faulted,
                    now,
                ).1 is RestartAfter
            &&& w.supervised(i, WorkerEvent::Faulted, now).1 is Exit
            &&& w.supervised(i, WorkerEvent::Faulted, now).0.workers[i].status is Failed
            &&& w.count_of(v.workers[i].name) == v.policy.max_restarts
        }),
{
    let k = (v.policy.max_restarts - v.count_of(v.workers[i].name)) as nat;
    lemma_fault_cycles(v, i, k, now);
}

/// With a budget of zero restarts, the first fault of a restartable worker
/// marks it failed and ends its loop without any delay.
pub proof fn lemma_zero_budget_fails_at_first_fault(v: RegistryView, i: int, now: u64)
    requires
        0 <= i < v.workers.len(),
        v.policy.max_restarts == 0,
        !v.workers[i].shutdown_signal,
    ensures
        v.supervised(i, WorkerEvent::Faulted, now).0.workers[i].status is Failed,
        v.supervised(i, WorkerEvent::Faulted, now).1 is Exit,
{
}

impl ThreadManager {
    pub closed spec fn wf(self) -> bool {
        &&& registry_wf(self@)
        &&& self.restart_manager.wf()
    }

    pub fn new() -> (r: Self)
        ensures
            r.wf(),
            r@.workers.len() == 0,
            r@.next_thread_id == 1,
            r@.policy == ThreadRestartPolicy::spec_default(),
            r@.restart_counts == Map::<Seq<char>, u32>::empty(),
    {
        ThreadManager {
            threads: Vec::new(),
            next_thread_id: 1,
            restart_manager: ThreadRestartManager::new(ThreadRestartPolicy::default()),
        }
    }

    /// Replaces the restart policy; restart counters start over.
    pub fn with_restart_policy(self, policy: ThreadRestartPolicy) -> (r: Self)
        requires
            self.wf(),
        ensures
            r.wf(),
            r@ == (RegistryView {
                policy,
                restart_counts: Map::<Seq<char>, u32>::empty(),
                ..self@
            }),
    {
        let r = ThreadManager {
            threads: self.threads,
            next_thread_id: self.next_thread_id,
            restart_manager: ThreadRestartManager::new(policy),
        };
        assert(r@.workers == self@.workers);
        r
    }

    /// Index of the worker with this id, if any.
    fn find_id(&self, id: u64) -> (r: Option<usize>)
        requires
            self.wf(),
        ensures
            match r {
                Some(i) => i < self@.workers.len() && self@.workers[i as int].id == id,
                None => !self@.has_id(id),
            },
    {
        let mut i: usize = 0;
        while i < self.threads.len()
            invariant
                i <= self.threads@.len(),
                forall|j: int| 0 <= j < i ==> #[trigger] self.threads@[j].id != id,
            decreases self.threads@.len() - i,
        {
            if self.threads[i].id == id {
                return Some(i);
            }
            i = i + 1;
        }
        assert forall|j: int| 0 <= j < self@.workers.len() implies #[trigger] self@.workers[j].id
            != id by {
            assert(self@.workers[j] == self.threads@[j]@);
        }
        None
    }

    fn contains_name(&self, name: &String) -> (r: bool)
        ensures
            r == self@.has_name(name@),
    {
        let mut i: usize = 0;
        while i < self.threads.len()
            invariant
                i <= self.threads@.len(),
                forall|j: int| 0 <= j < i ==> #[trigger] self.threads@[j].name@ != name@,
            decreases self.threads@.len() - i,
        {
            if self.threads[i].name == *name {
                assert(self@.workers[i as int] == self.threads@[i as int]@);
                assert(self@.workers[i as int].name == name@);
                return true;
            }
            i = i + 1;
        }
        assert forall|j: int| 0 <= j < self@.workers.len() implies #[trigger] self@.workers[j].name
            != name@ by {
            assert(self@.workers[j] == self.threads@[j]@);
        }
        false
    }

    /// Replaces record `i`, keeping everything else.
    fn replace(&mut self, i: usize, info: ThreadInfo)
        requires
            i < old(self)@.workers.len(),
        ensures
            final(self)@ == old(self)@.set_worker(i as int, info@),
            final(self).restart_manager == old(self).restart_manager,
    {
        self.threads.set(i, info);
        assert(self@.workers =~= old(self)@.workers.update(i as int, info@));
    }

    pub fn create_thread(&mut self, name: String) -> (r: Result<u64, String>)
        requires
            old(self).wf(),
        ensures
            final(self)@.next_thread_id >= old(self)@.next_thread_id,
            r matches Ok(id) ==> old(self)@.next_thread_id <= id < final(self)@.next_thread_id,
            final(self).wf(),
            match r {
                Ok(id) => !old(self)@.has_name(name@) && old(self)@.next_thread_id < u64::MAX
                    && id == old(self)@.next_thread_id && final(self)@ == old(self)@.created(
                    name@,
                    true,
                ),
                Err(_) => (old(self)@.has_name(name@) || old(self)@.next_thread_id == u64::MAX)
                    && final(self)@ == old(self)@,
            },
    {
        self.create_thread_with_restart(name, true)
    }

    /// Registers a worker named `name` under the next id. Fails, changing
    /// nothing, when a worker of that name is registered already or the ids
    /// are used up.
    pub fn create_thread_with_restart(&mut self, name: String, enable_restart: bool) -> (r: Result<
        u64,
        String,
    >)
        requires
            old(self).wf(),
        ensures
            final(self)@.next_thread_id >= old(self)@.next_thread_id,
            r matches Ok(id) ==> old(self)@.next_thread_id <= id < final(self)@.next_thread_id,
            final(self).wf(),
            match r {
                Ok(id) => !old(self)@.has_name(name@) && old(self)@.next_thread_id < u64::MAX
                    && id == old(self)@.next_thread_id && final(self)@ == old(self)@.created(
                    name@,
                    enable_restart,
                ),
                Err(_) => (old(self)@.has_name(name@) || old(self)@.next_thread_id == u64::MAX)
                    && final(self)@ == old(self)@,
            },
    {
        if self.contains_name(&name) {
            let mut msg = String::from_str("a worker with this name is already registered: ");
            msg.append(name.as_str());
            return Err(msg);
        }
        if self.next_thread_id == u64::MAX {
            return Err(String::from_str("worker ids are exhausted"));
        }
        let id = self.next_thread_id;
        let info = ThreadInfo::new(id, name, enable_restart);
        let ghost before = self@;
        self.threads.push(info);
        self.next_thread_id = id + 1;
        assert(self@.workers =~= before.workers.push(info@));
        assert(self@ =~= before.created(info@.name, enable_restart));
        Ok(id)
    }

    /// Raises the shutdown flag of worker `thread_id` and puts it in a
    /// terminal state (a failed worker stays failed). Fails, changing nothing,
    /// when no worker has that id. Stopping a stopped worker changes nothing.
    pub fn stop_thread(&mut self, thread_id: u64) -> (r: Result<(), String>)
        requires
            old(self).wf(),
        ensures
            final(self)@.next_thread_id == old(self)@.next_thread_id,
            final(self).wf(),
            !old(self)@.has_id(thread_id) ==> r is Err && final(self)@ == old(self)@,
            forall|i: int|
                0 <= i < old(self)@.workers.len() && old(self)@.workers[i].id == thread_id ==> r
                    is Ok && final(self)@ == old(self)@.stopped(i),
    {
        match self.find_id(thread_id) {
            None => Err(String::from_str("no worker has this id")),
            Some(i) => {
                proof {
                    assert forall|j: int|
                        0 <= j < self@.workers.len() && self@.workers[j].id
                            == thread_id implies j == i by {
                        if j < i {
                            assert(self@.workers[j].id < self@.workers[i as int].id);
                        } else if j > i {
                            assert(self@.workers[i as int].id < self@.workers[j].id);
                        }
                    }
                }
                let mut info = self.threads[i].duplicate();
                info.signal_shutdown();
                if info.status != ThreadStatus::Failed {
                    info.set_status(ThreadStatus::Stopped);
                }
                let ghost before = self@;
                self.replace(i, info);
                assert(self@ == before.stopped(i as int));
                Ok(())
            },
        }
    }

    /// Removes the record of worker `thread_id`, for a worker whose thread
    /// could not be started. Its id is not handed out again. Fails, changing
    /// nothing, when no worker has that id.
    pub fn remove_thread(&mut self, thread_id: u64) -> (r: Result<(), String>)
        requires
            old(self).wf(),
        ensures
            final(self).wf(),
            final(self)@.next_thread_id == old(self)@.next_thread_id,
            !old(self)@.has_id(thread_id) ==> r is Err && final(self)@ == old(self)@,
            forall|i: int|
                0 <= i < old(self)@.workers.len() && old(self)@.workers[i].id == thread_id ==> r
                    is Ok && final(self)@ == (RegistryView {
                    workers: old(self)@.workers.remove(i),
                    ..old(self)@
                }),
    {
        match self.find_id(thread_id) {
            None => Err(String::from_str("线程 ID 不存在")),
            Some(i) => {
                let ghost before = self@;
                proof {
                    assert forall|j: int|
                        0 <= j < before.workers.len() && before.workers[j].id
                            == thread_id implies j == i by {
                        lemma_id_at_one_index(before, i as int, j);
                    }
                }
                self.threads.remove(i);
                let ghost w = before.workers.remove(i as int);
                assert(self@.workers =~= w);
                assert forall|a: int, b: int| 0 <= a < b < w.len() implies #[trigger] w[a].id
                    < #[trigger] w[b].id && w[a].name != w[b].name by {
                    let a0 = if a < i { a } else { a + 1 };
                    let b0 = if b < i { b } else { b + 1 };
                    assert(w[a] == before.workers[a0] && w[b] == before.workers[b0]);
                }
                assert forall|a: int| 0 <= a < w.len() implies #[trigger] w[a].id
                    < before.next_thread_id by {
                    let a0 = if a < i { a } else { a + 1 };
                    assert(w[a] == before.workers[a0]);
                }
                Ok(())
            },
        }
    }

    /// Raises every worker's shutdown flag and empties the registry. Returns
    /// the ids that were registered, in order of creation, for the caller to
    /// join their threads.
    pub fn stop_all_threads(&mut self) -> (r: Vec<u64>)
        requires
            old(self).wf(),
        ensures
            final(self)@.next_thread_id == old(self)@.next_thread_id,
            final(self).wf(),
            r@ == old(self)@.workers.map_values(|w: WorkerView| w.id),
            final(self)@ == (RegistryView { workers: Seq::<WorkerView>::empty(), ..old(self)@ }),
    {
        let mut ids: Vec<u64> = Vec::new();
        let mut i: usize = 0;
        while i < self.threads.len()
            invariant
                i <= self.threads@.len(),
                ids@ == self@.workers.subrange(0, i as int).map_values(|w: WorkerView| w.id),
            decreases self.threads@.len() - i,
        {
            ids.push(self.threads[i].id);
            assert(self@.workers.subrange(0, (i + 1) as int) =~= self@.workers.subrange(
                0,
                i as int,
            ).push(self@.workers[i as int]));
            i = i + 1;
        }
        assert(self@.workers.subrange(0, self@.workers.len() as int) =~= self@.workers);
        self.threads.clear();
        assert(self@.workers =~= Seq::<WorkerView>::empty());
        ids
    }

    /// Snapshot of (id, name, status) of every worker, in order of creation.
    pub fn list_threads(&self) -> (r: Vec<(u64, String, ThreadStatus)>)
        ensures
            r@.len() == self@.workers.len(),
            forall|i: int|
                0 <= i < r@.len() ==> (#[trigger] r@[i]).0 == self@.workers[i].id && r@[i].1@
                    == self@.workers[i].name && r@[i].2 == self@.workers[i].status,
    {
        let mut out: Vec<(u64, String, ThreadStatus)> = Vec::new();
        let mut i: usize = 0;
        while i < self.threads.len()
            invariant
                i <= self.threads@.len(),
                out@.len() == i,
                forall|j: int|
                    0 <= j < i ==> (#[trigger] out@[j]).0 == self@.workers[j].id && out@[j].1@
                        == self@.workers[j].name && out@[j].2 == self@.workers[j].status,
            decreases self.threads@.len() - i,
        {
            let t = &self.threads[i];
            out.push((t.id, t.name.clone(), t.status));
            i = i + 1;
        }
        out
    }

    pub fn get_thread_count(&self) -> (r: usize)
        ensures
            r == self@.workers.len(),
    {
        self.threads.len()
    }

    /// Restarts made so far by the worker named `thread_name`, and whether
    /// the budget allows another.
    pub fn get_restart_info(&self, thread_name: &str) -> (r: (u32, bool))
        requires
            self.wf(),
        ensures
            r.0 == self@.count_of(thread_name@),
            r.1 == (self@.count_of(thread_name@) < self@.policy.max_restarts),
    {
        let count = self.restart_manager.get_restart_count(thread_name);
        let can_restart = self.restart_manager.can_restart(thread_name);
        (count, can_restart)
    }

    /// One step of the supervision loop of worker `thread_id`: records what
    /// its body did and says what the supervision thread does next. An
    /// unknown id ends the loop.
    pub fn supervise(&mut self, thread_id: u64, event: WorkerEvent, now: u64) -> (r:
        SupervisorAction)
        requires
            old(self).wf(),
        ensures
            final(self)@.next_thread_id == old(self)@.next_thread_id,
            final(self).wf(),
            !old(self)@.has_id(thread_id) ==> r is Exit && final(self)@ == old(self)@,
            forall|i: int|
                0 <= i < old(self)@.workers.len() && old(self)@.workers[i].id == thread_id ==> (
                final(self)@,
                r,
            ) == old(self)@.supervised(i, event, now),
    {
        match self.find_id(thread_id) {
            None => SupervisorAction::Exit,
            Some(i) => {
                proof {
                    assert forall|j: int|
                        0 <= j < self@.workers.len() && self@.workers[j].id
                            == thread_id implies j == i by {
                        lemma_id_at_one_index(self@, i as int, j);
                    }
                }
                let ghost before = self@;
                let mut info = self.threads[i].duplicate();
                assert(info@ == before.workers[i as int]);
                let action = match event {
                    WorkerEvent::Completed => {
                        info.set_status(ThreadStatus::Stopped);
                        SupervisorAction::Exit
                    },
                    WorkerEvent::Faulted => {
                        if !info.restart_enabled {
                            info.set_status(ThreadStatus::Failed);
                            SupervisorAction::Exit
                        } else if info.shutdown_signal {
                            info.set_status(ThreadStatus::Stopped);
                            SupervisorAction::Exit
                        } else if !self.restart_manager.can_restart(info.name.as_str()) {
                            info.set_status(ThreadStatus::Failed);
                            SupervisorAction::Exit
                        } else {
                            let delay = self.restart_manager.record_restart(info.name.as_str());
                            info.status = ThreadStatus::Restarting;
                            info.last_restart_at = Some(now);
                            SupervisorAction::RestartAfter(delay)
                        }
                    },
                    WorkerEvent::BackoffElapsed => {
                        if info.shutdown_signal {
                            info.set_status(ThreadStatus::Stopped);
                            SupervisorAction::Exit
                        } else {
                            info.set_status(ThreadStatus::Created);
                            SupervisorAction::RunBody
                        }
                    },
                };
                self.replace(i, info);
                assert((self@, action) == before.supervised(i as int, event, now));
                action
            },
        }
    }
}

} // verus!
