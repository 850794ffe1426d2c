use wei_daemon::restart_policy::ThreadRestartPolicy;
use wei_daemon::thread_manager::{SupervisorAction, ThreadManager, ThreadStatus, WorkerEvent};

fn policy(max_restarts: u32) -> ThreadRestartPolicy {
    ThreadRestartPolicy {
        max_restarts,
        restart_delay_ms: 1000,
        backoff_multiplier_milli: 2000,
        max_restart_delay_ms: 5000,
    }
}

fn status_of(m: &ThreadManager, id: u64) -> ThreadStatus {
    m.list_threads().into_iter().find(|t| t.0 == id).unwrap().2
}

#[test]
fn ids_strictly_increase() {
    let mut m = ThreadManager::new();
    let a = m.create_thread("a".to_string()).unwrap();
    let b = m.create_thread("b".to_string()).unwrap();
    let c = m.create_thread_with_restart("c".to_string(), false).unwrap();
    assert_eq!(a, 1);
    assert!(a < b && b < c);
    m.stop_all_threads();
    let d = m.create_thread("a".to_string()).unwrap();
    assert!(d > c);
}

#[test]
fn duplicate_worker_name_is_refused() {
    let mut m = ThreadManager::new();
    m.create_thread("svc".to_string()).unwrap();
    assert!(m.create_thread("svc".to_string()).is_err());
    assert_eq!(m.get_thread_count(), 1);
}

#[test]
fn stop_twice_is_a_no_op() {
    let mut m = ThreadManager::new();
    let id = m.create_thread("svc".to_string()).unwrap();
    assert!(m.stop_thread(id).is_ok());
    let after_first = m.list_threads();
    assert!(m.stop_thread(id).is_ok());
    assert_eq!(m.list_threads(), after_first);
    assert!(m.stop_thread(id + 100).is_err());
}

#[test]
fn create_then_stop_leaves_terminal_record() {
    let mut m = ThreadManager::new();
    let id = m.create_thread("svc".to_string()).unwrap();
    assert_eq!(status_of(&m, id), ThreadStatus::Created);
    m.stop_thread(id).unwrap();
    assert_eq!(status_of(&m, id), ThreadStatus::Stopped);
    assert_eq!(m.supervise(id, WorkerEvent::Faulted, 0), SupervisorAction::Exit);
    assert_eq!(status_of(&m, id), ThreadStatus::Stopped);
    assert_eq!(m.get_thread_count(), 1);
}

#[test]
fn zero_budget_fails_at_first_fault() {
    let mut m = ThreadManager::new().with_restart_policy(policy(0));
    let id = m.create_thread("svc".to_string()).unwrap();
    assert_eq!(m.supervise(id, WorkerEvent::Faulted, 0), SupervisorAction::Exit);
    assert_eq!(status_of(&m, id), ThreadStatus::Failed);
    assert_eq!(m.get_restart_info("svc"), (0, false));
}

#[test]
fn restarts_follow_backoff_until_budget_runs_out() {
    let mut m = ThreadManager::new().with_restart_policy(policy(3));
    let id = m.create_thread("svc".to_string()).unwrap();
    let mut delays = Vec::new();
    loop {
        match m.supervise(id, WorkerEvent::Faulted, 100) {
            SupervisorAction::RestartAfter(d) => {
                delays.push(d);
                assert_eq!(status_of(&m, id), ThreadStatus::Restarting);
                assert_eq!(m.supervise(id, WorkerEvent::BackoffElapsed, 101), SupervisorAction::RunBody);
                assert_eq!(status_of(&m, id), ThreadStatus::Created);
            }
            SupervisorAction::Exit => break,
            SupervisorAction::RunBody => panic!("a fault never reruns the body at once"),
        }
    }
    assert_eq!(delays, vec![1000, 2000, 4000]);
    assert_eq!(status_of(&m, id), ThreadStatus::Failed);
    assert_eq!(m.get_restart_info("svc"), (3, false));
}

#[test]
fn clean_return_stops_worker() {
    let mut m = ThreadManager::new();
    let id = m.create_thread("svc".to_string()).unwrap();
    assert_eq!(m.supervise(id, WorkerEvent::Completed, 0), SupervisorAction::Exit);
    assert_eq!(status_of(&m, id), ThreadStatus::Stopped);
}

#[test]
fn restart_disabled_fails_on_fault() {
    let mut m = ThreadManager::new();
    let id = m.create_thread_with_restart("svc".to_string(), false).unwrap();
    assert_eq!(m.supervise(id, WorkerEvent::Faulted, 0), SupervisorAction::Exit);
    assert_eq!(status_of(&m, id), ThreadStatus::Failed);
}

#[test]
fn shutdown_during_backoff_ends_loop() {
    let mut m = ThreadManager::new();
    let id = m.create_thread("svc".to_string()).unwrap();
    assert!(matches!(m.supervise(id, WorkerEvent::Faulted, 0), SupervisorAction::RestartAfter(1000)));
    m.stop_thread(id).unwrap();
    assert_eq!(m.supervise(id, WorkerEvent::BackoffElapsed, 1), SupervisorAction::Exit);
    assert_eq!(status_of(&m, id), ThreadStatus::Stopped);
}

#[test]
fn stop_all_returns_ids_and_empties_registry() {
    let mut m = ThreadManager::new();
    let a = m.create_thread("a".to_string()).unwrap();
    let b = m.create_thread("b".to_string()).unwrap();
    assert_eq!(m.stop_all_threads(), vec![a, b]);
    assert_eq!(m.get_thread_count(), 0);
    assert_eq!(m.supervise(a, WorkerEvent::Faulted, 0), SupervisorAction::Exit);
}

#[test]
fn removed_worker_id_is_not_reused() {
    let mut m = ThreadManager::new();
    let a = m.create_thread("a".to_string()).unwrap();
    assert!(m.remove_thread(a).is_ok());
    assert_eq!(m.get_thread_count(), 0);
    assert!(m.remove_thread(a).is_err());
    let b = m.create_thread("a".to_string()).unwrap();
    assert!(b > a);
}

#[test]
fn faulting_worker_runs_budget_plus_one_times() {
    for max in [0u32, 1, 4] {
        let mut m = ThreadManager::new().with_restart_policy(policy(max));
        let id = m.create_thread("w".to_string()).unwrap();
        let mut runs = 1;
        loop {
            match m.supervise(id, WorkerEvent::Faulted, 0) {
                SupervisorAction::RestartAfter(_) => {
                    assert_eq!(m.supervise(id, WorkerEvent::BackoffElapsed, 0), SupervisorAction::RunBody);
                    runs += 1;
                }
                SupervisorAction::Exit => break,
                SupervisorAction::RunBody => panic!("unexpected"),
            }
        }
        assert_eq!(runs, max + 1);
        assert_eq!(m.get_restart_info("w").0, max);
        assert_eq!(status_of(&m, id), ThreadStatus::Failed);
    }
}
