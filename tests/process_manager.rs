use wei_daemon::process_manager::{MonitorAction, MonitorEvent, ProcessManager, ProcessStatus};
use wei_daemon::restart_policy::{ProcessRestartPolicy, RestartPolicy};

fn status_of(pm: &ProcessManager, name: &str) -> ProcessStatus {
    pm.list_all_processes().into_iter().find(|p| p.0 == name).unwrap().1
}

fn start(pm: &mut ProcessManager, name: &str, limit: RestartPolicy, backoff: ProcessRestartPolicy) {
    pm.start_process(name.to_string(), format!("./{}", name), vec![], limit, backoff).unwrap();
}

#[test]
fn three_spawns_then_failed() {
    let backoff = ProcessRestartPolicy {
        max_restarts: 2,
        restart_delay_ms: 0,
        backoff_multiplier_milli: 2000,
        max_restart_delay_ms: 10000,
    };
    let mut pm = ProcessManager::new();
    start(&mut pm, "svc-a", RestartPolicy::Limited(2), backoff);
    let mut spawns = 0;
    let mut action = pm.on_event("svc-a", MonitorEvent::Started);
    let mut guard = 0;
    while action != MonitorAction::Exit {
        guard += 1;
        assert!(guard < 100);
        action = match action {
            MonitorAction::Spawn => {
                spawns += 1;
                pm.on_event("svc-a", MonitorEvent::Spawned(1000 + spawns))
            }
            MonitorAction::Poll => pm.on_event("svc-a", MonitorEvent::Exited),
            MonitorAction::WaitThenSpawn(d) => {
                assert_eq!(d, 0);
                pm.on_event("svc-a", MonitorEvent::DelayElapsed)
            }
            MonitorAction::TerminateChild => panic!("no shutdown was asked for"),
            MonitorAction::Exit => unreachable!(),
        };
    }
    assert_eq!(spawns, 3);
    assert_eq!(status_of(&pm, "svc-a"), ProcessStatus::Failed);
}

#[test]
fn inter_spawn_delays_follow_backoff() {
    let backoff = ProcessRestartPolicy {
        max_restarts: 5,
        restart_delay_ms: 1000,
        backoff_multiplier_milli: 2000,
        max_restart_delay_ms: 5000,
    };
    let mut pm = ProcessManager::new();
    start(&mut pm, "w", RestartPolicy::Limited(5), backoff);
    let mut delays = Vec::new();
    assert_eq!(pm.on_event("w", MonitorEvent::Started), MonitorAction::Spawn);
    loop {
        assert_eq!(pm.on_event("w", MonitorEvent::Spawned(7)), MonitorAction::Poll);
        match pm.on_event("w", MonitorEvent::Exited) {
            MonitorAction::WaitThenSpawn(d) => {
                delays.push(d);
                assert_eq!(status_of(&pm, "w"), ProcessStatus::Restarting);
                assert_eq!(pm.on_event("w", MonitorEvent::DelayElapsed), MonitorAction::Spawn);
            }
            MonitorAction::Exit => break,
            other => panic!("unexpected {:?}", other),
        }
    }
    assert_eq!(delays, vec![1000, 2000, 4000, 5000, 5000]);
}

#[test]
fn shutdown_before_first_spawn_never_spawns() {
    let mut pm = ProcessManager::new();
    start(&mut pm, "svc", RestartPolicy::Infinite, ProcessRestartPolicy::default());
    pm.stop_process("svc").unwrap();
    assert_eq!(pm.on_event("svc", MonitorEvent::Started), MonitorAction::Exit);
    assert_eq!(status_of(&pm, "svc"), ProcessStatus::Stopped);
    assert_eq!(pm.on_event("svc", MonitorEvent::DelayElapsed), MonitorAction::Exit);
}

#[test]
fn shutdown_terminates_running_child() {
    let mut pm = ProcessManager::new();
    start(&mut pm, "svc", RestartPolicy::Infinite, ProcessRestartPolicy::default());
    assert_eq!(pm.on_event("svc", MonitorEvent::Started), MonitorAction::Spawn);
    assert_eq!(pm.on_event("svc", MonitorEvent::Spawned(42)), MonitorAction::Poll);
    assert_eq!(pm.on_event("svc", MonitorEvent::StillRunning), MonitorAction::Poll);
    pm.stop_process("svc").unwrap();
    assert_eq!(pm.on_event("svc", MonitorEvent::StillRunning), MonitorAction::TerminateChild);
    assert_eq!(pm.on_event("svc", MonitorEvent::Terminated), MonitorAction::Exit);
    assert_eq!(status_of(&pm, "svc"), ProcessStatus::Stopped);
}

#[test]
fn spawn_failure_counts_as_a_fault() {
    let mut pm = ProcessManager::new();
    start(&mut pm, "svc", RestartPolicy::Limited(0), ProcessRestartPolicy::default());
    assert_eq!(pm.on_event("svc", MonitorEvent::Started), MonitorAction::Spawn);
    assert_eq!(pm.on_event("svc", MonitorEvent::SpawnFailed), MonitorAction::Exit);
    assert_eq!(status_of(&pm, "svc"), ProcessStatus::Failed);
}

#[test]
fn a_registered_name_cannot_be_started_again() {
    let mut pm = ProcessManager::new();
    start(&mut pm, "svc", RestartPolicy::Infinite, ProcessRestartPolicy::default());
    assert!(pm
        .start_process("svc".to_string(), "x".to_string(), vec![], RestartPolicy::Infinite, ProcessRestartPolicy::default())
        .is_err());
    pm.stop_process("svc").unwrap();
    assert_eq!(pm.on_event("svc", MonitorEvent::Started), MonitorAction::Exit);
    assert!(pm
        .start_process("svc".to_string(), "x".to_string(), vec![], RestartPolicy::Infinite, ProcessRestartPolicy::default())
        .is_err());
    assert_eq!(status_of(&pm, "svc"), ProcessStatus::Stopped);
    assert_eq!(pm.list_all_processes().len(), 1);
}

#[test]
fn removed_process_can_be_registered_again() {
    let mut pm = ProcessManager::new();
    start(&mut pm, "svc", RestartPolicy::Infinite, ProcessRestartPolicy::default());
    assert!(pm.remove_process("svc").is_ok());
    assert!(pm.list_all_processes().is_empty());
    assert!(pm.remove_process("svc").is_err());
    start(&mut pm, "svc", RestartPolicy::Infinite, ProcessRestartPolicy::default());
    assert_eq!(status_of(&pm, "svc"), ProcessStatus::Starting);
}

#[test]
fn shutdown_overrides_a_decided_spawn() {
    let mut pm = ProcessManager::new();
    start(&mut pm, "svc", RestartPolicy::Infinite, ProcessRestartPolicy::default());
    assert_eq!(pm.on_event("svc", MonitorEvent::Started), MonitorAction::Spawn);
    assert_eq!(pm.on_event("svc", MonitorEvent::ShutdownRequested), MonitorAction::Exit);
    assert_eq!(status_of(&pm, "svc"), ProcessStatus::Stopped);
    assert_eq!(pm.on_event("svc", MonitorEvent::DelayElapsed), MonitorAction::Exit);
}

#[test]
fn shutdown_with_live_child_terminates_it() {
    let mut pm = ProcessManager::new();
    start(&mut pm, "svc", RestartPolicy::Infinite, ProcessRestartPolicy::default());
    pm.on_event("svc", MonitorEvent::Started);
    assert_eq!(pm.on_event("svc", MonitorEvent::Spawned(9)), MonitorAction::Poll);
    assert_eq!(pm.on_event("svc", MonitorEvent::ShutdownRequested), MonitorAction::TerminateChild);
    assert_eq!(pm.on_event("svc", MonitorEvent::Terminated), MonitorAction::Exit);
    assert_eq!(status_of(&pm, "svc"), ProcessStatus::Stopped);
}

#[test]
fn unknown_process_ends_monitor() {
    let mut pm = ProcessManager::new();
    assert_eq!(pm.on_event("ghost", MonitorEvent::Started), MonitorAction::Exit);
    assert!(pm.stop_process("ghost").is_err());
}
