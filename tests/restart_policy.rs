use wei_daemon::restart_policy::{
    compute_backoff_delay, ProcessRestartPolicy, RestartPolicy, ThreadRestartManager,
    ThreadRestartPolicy,
};

#[test]
fn backoff_sequence_doubles_then_clamps() {
    let p = ProcessRestartPolicy {
        max_restarts: 5,
        restart_delay_ms: 1000,
        backoff_multiplier_milli: 2000,
        max_restart_delay_ms: 5000,
    };
    let delays: Vec<u64> = (0..5).map(|n| p.delay_after(n)).collect();
    assert_eq!(delays, vec![1000, 2000, 4000, 5000, 5000]);
}

#[test]
fn backoff_is_non_decreasing_and_bounded() {
    for &(base, mult, max) in &[(1000u64, 2000u32, 60000u64), (3, 1500, 100), (7, 1000, 7), (0, 3000, 10)] {
        let mut prev = 0u64;
        for n in 0..60u32 {
            let d = compute_backoff_delay(base, mult, max, n);
            assert!(d >= prev);
            assert!(d <= max);
            prev = d;
        }
    }
}

#[test]
fn unit_multiplier_gives_constant_delay() {
    for n in [0u32, 1, 2, 10, 1000, u32::MAX] {
        assert_eq!(compute_backoff_delay(2500, 1000, 60000, n), 2500);
    }
}

#[test]
fn zero_base_gives_zero_delay() {
    for n in [0u32, 1, 5, 100] {
        assert_eq!(compute_backoff_delay(0, 2000, 60000, n), 0);
        assert_eq!(compute_backoff_delay(0, 9000, 10, n), 0);
    }
}

#[test]
fn fractional_multiplier_rounds_down_each_step() {
    assert_eq!(compute_backoff_delay(1000, 1500, 100000, 0), 1000);
    assert_eq!(compute_backoff_delay(1000, 1500, 100000, 1), 1500);
    assert_eq!(compute_backoff_delay(1000, 1500, 100000, 2), 2250);
    assert_eq!(compute_backoff_delay(1000, 1500, 100000, 3), 3375);
    assert_eq!(compute_backoff_delay(1000, 1500, 100000, 4), 5062);
}

#[test]
fn base_above_max_is_clamped() {
    assert_eq!(compute_backoff_delay(9000, 2000, 5000, 0), 5000);
    assert_eq!(compute_backoff_delay(u64::MAX, u32::MAX, u64::MAX, 3), u64::MAX);
}

#[test]
fn default_policies() {
    assert_eq!(
        ThreadRestartPolicy::default(),
        ThreadRestartPolicy {
            max_restarts: 5,
            restart_delay_ms: 1000,
            backoff_multiplier_milli: 2000,
            max_restart_delay_ms: 60000
        }
    );
    assert_eq!(ProcessRestartPolicy::default().max_restarts, 3);
    assert_eq!(ProcessRestartPolicy::default().restart_delay_ms, 2000);
}

#[test]
fn restart_policy_budget() {
    assert!(RestartPolicy::Limited(2).allows_restart(1));
    assert!(!RestartPolicy::Limited(2).allows_restart(2));
    assert!(!RestartPolicy::Limited(0).allows_restart(0));
    assert!(RestartPolicy::Infinite.allows_restart(u32::MAX));
}

#[test]
fn restart_manager_counts_per_name_within_budget() {
    let policy = ThreadRestartPolicy {
        max_restarts: 2,
        restart_delay_ms: 100,
        backoff_multiplier_milli: 3000,
        max_restart_delay_ms: 1000,
    };
    let mut m = ThreadRestartManager::new(policy);
    assert_eq!(m.get_restart_count("a"), 0);
    assert!(m.can_restart("a"));
    assert_eq!(m.record_restart("a"), 100);
    assert_eq!(m.record_restart("b"), 100);
    assert_eq!(m.record_restart("a"), 300);
    assert_eq!(m.get_restart_count("a"), 2);
    assert_eq!(m.get_restart_count("b"), 1);
    assert!(!m.can_restart("a"));
    assert!(m.can_restart("b"));
    assert_eq!(m.policy(), policy);
}

#[test]
fn zero_base_records_zero_delays() {
    let mut m = ThreadRestartManager::new(ThreadRestartPolicy {
        max_restarts: 50,
        restart_delay_ms: 0,
        backoff_multiplier_milli: 10000,
        max_restart_delay_ms: 1000,
    });
    for _ in 0..50 {
        assert_eq!(m.record_restart("z"), 0);
    }
    assert!(!m.can_restart("z"));
}
