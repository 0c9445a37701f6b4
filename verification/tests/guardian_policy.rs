use std::time::Duration;
use store_system::guardian::{
    backoff_delay, backoff_secs, cooldown_round, handle_dead, on_probe, process_gone, select_processes,
    topological_sort, GuardedProcess, GuardianSettings, ProbeResult, ProcessConfig, ProcessState,
};

fn test_settings() -> GuardianSettings {
    GuardianSettings {
        probe_interval_secs: 5,
        probe_timeout_secs: 3,
        failure_threshold: 3,
        backoff_base_secs: 1,
        backoff_max_secs: 60,
        cooldown_after_failures: 10,
        cooldown_secs: 300,
    }
}

fn test_config() -> ProcessConfig {
    ProcessConfig {
        path: "true".to_string(),
        args: vec![],
        env: Default::default(),
        health_grpc: String::new(),
        depends_on: None,
    }
}

fn depending_on(dep: Option<&str>) -> ProcessConfig {
    ProcessConfig { depends_on: dep.map(|d| d.to_string()), ..test_config() }
}

#[test]
fn test_backoff_delay() {
    assert_eq!(backoff_delay(1, 1, 60), Duration::from_secs(1));
    assert_eq!(backoff_delay(3, 1, 60), Duration::from_secs(4)); // 1*2^2=4
    assert_eq!(backoff_delay(5, 1, 60), Duration::from_secs(16)); // 1*2^4=16
    assert_eq!(backoff_delay(10, 1, 60), Duration::from_secs(60)); // capped
}

#[test]
fn test_handle_dead_restart() {
    let mut proc = GuardedProcess::new("test".to_string(), test_config());
    proc.failures = 3;
    proc.state = ProcessState::Dead;

    let result = handle_dead(&mut proc, &test_settings(), 1_000);
    assert!(result.is_some());
    assert!(result.unwrap().as_secs() >= 1);
}

#[test]
fn test_handle_dead_cooldown() {
    let mut proc = GuardedProcess::new("test".to_string(), test_config());
    proc.failures = 15;
    proc.state = ProcessState::Dead;

    let result = handle_dead(&mut proc, &test_settings(), 1_000);
    assert!(result.is_none());
    assert_eq!(proc.state, ProcessState::Cooldown);
    assert!(proc.cooldown_until_ms.is_some());
}

#[test]
fn test_state_transitions() {
    let mut proc = GuardedProcess::new("test".to_string(), test_config());
    assert_eq!(proc.state, ProcessState::Starting);

    proc.mark_spawned(4242);
    assert_eq!(proc.state, ProcessState::Starting);
    proc.failures = 0;

    proc.state = ProcessState::Running;
    proc.failures = 1;
    assert_eq!(proc.state, ProcessState::Running);

    proc.failures = 3;
    proc.state = ProcessState::Dead;
    assert_eq!(proc.state, ProcessState::Dead);
}

#[test]
fn test_cooldown() {
    let now: u64 = 1_000_000;
    let mut proc = GuardedProcess::new("test".to_string(), test_config());
    assert!(!proc.is_in_cooldown(now));

    proc.cooldown_until_ms = Some(now + 300_000);
    assert!(proc.is_in_cooldown(now));

    proc.cooldown_until_ms = Some(now - 1_000);
    assert!(!proc.is_in_cooldown(now));
}

#[test]
fn backoff_doubles_from_base_and_saturates() {
    assert_eq!(backoff_secs(0, 2, 100), 2);
    assert_eq!(backoff_secs(1, 2, 100), 2);
    assert_eq!(backoff_secs(2, 2, 100), 4);
    assert_eq!(backoff_secs(4, 3, 100), 24);
    assert_eq!(backoff_secs(200, 1, 60), 60);
    assert_eq!(backoff_secs(u32::MAX, u64::MAX, u64::MAX), u64::MAX);
    assert_eq!(backoff_delay(2, 5, 7), Duration::from_secs(7));
}

#[test]
fn handle_dead_restart_clears_pid_and_keeps_state() {
    let mut proc = GuardedProcess::new("w".to_string(), test_config());
    proc.mark_spawned(77);
    proc.failures = 4;
    proc.state = ProcessState::Dead;
    let r = handle_dead(&mut proc, &test_settings(), 5_000);
    assert_eq!(r, Some(Duration::from_secs(8)));
    assert_eq!(proc.pid, None);
    assert_eq!(proc.state, ProcessState::Dead);
    assert_eq!(proc.failures, 4);
}

#[test]
fn handle_dead_starts_cooldown_for_configured_seconds() {
    let mut proc = GuardedProcess::new("w".to_string(), test_config());
    proc.failures = 10;
    let r = handle_dead(&mut proc, &test_settings(), 2_000);
    assert_eq!(r, None);
    assert_eq!(proc.cooldown_until_ms, Some(2_000 + 300 * 1000));
    assert_eq!(proc.state, ProcessState::Cooldown);
}

#[test]
fn handle_dead_while_cooling_keeps_deadline() {
    let mut proc = GuardedProcess::new("w".to_string(), test_config());
    proc.failures = 1;
    proc.cooldown_until_ms = Some(9_000);
    let r = handle_dead(&mut proc, &test_settings(), 8_000);
    assert_eq!(r, None);
    assert_eq!(proc.state, ProcessState::Cooldown);
    assert_eq!(proc.cooldown_until_ms, Some(9_000));
}

#[test]
fn cooldown_round_respawns_only_after_deadline() {
    let mut proc = GuardedProcess::new("w".to_string(), test_config());
    proc.failures = 12;
    proc.cooldown_until_ms = Some(10_000);
    assert!(!cooldown_round(&mut proc, 9_999));
    assert_eq!(proc.failures, 12);
    assert!(cooldown_round(&mut proc, 10_000));
    assert_eq!(proc.failures, 0);
    assert_eq!(proc.cooldown_until_ms, None);
}

#[test]
fn probe_answers_move_the_state() {
    let s = test_settings();
    let mut proc = GuardedProcess::new("w".to_string(), test_config());
    proc.failures = 2;
    assert_eq!(on_probe(&mut proc, &ProbeResult::Running, &s, 100), None);
    assert_eq!(proc.state, ProcessState::Running);
    assert_eq!(proc.failures, 0);

    assert_eq!(on_probe(&mut proc, &ProbeResult::Timeout, &s, 200), None);
    assert_eq!(proc.state, ProcessState::Degraded);
    assert_eq!(proc.failures, 1);
    assert_eq!(proc.last_failure_ms, Some(200));

    assert_eq!(on_probe(&mut proc, &ProbeResult::Degraded("slow".to_string()), &s, 300), None);
    assert_eq!(proc.state, ProcessState::Degraded);
    assert_eq!(proc.failures, 2);

    let r = on_probe(&mut proc, &ProbeResult::ConnectionRefused, &s, 400);
    assert_eq!(proc.state, ProcessState::Dead);
    assert_eq!(proc.failures, 3);
    assert_eq!(r, Some(Duration::from_secs(4)));
}

#[test]
fn vanished_process_counts_a_failure() {
    let s = test_settings();
    let mut proc = GuardedProcess::new("w".to_string(), test_config());
    proc.mark_spawned(9);
    let r = process_gone(&mut proc, &s, 700);
    assert_eq!(r, Some(Duration::from_secs(1)));
    assert_eq!(proc.failures, 1);
    assert_eq!(proc.last_failure_ms, Some(700));
    assert_eq!(proc.state, ProcessState::Dead);
    assert_eq!(proc.pid, None);
}

#[test]
fn state_names() {
    assert_eq!(ProcessState::Starting.as_str(), "starting");
    assert_eq!(ProcessState::Running.as_str(), "running");
    assert_eq!(ProcessState::Degraded.as_str(), "degraded");
    assert_eq!(ProcessState::Dead.as_str(), "dead");
    assert_eq!(ProcessState::Cooldown.as_str(), "cooldown");
}

#[test]
fn start_order_puts_dependencies_first() {
    let ps = vec![
        ("a".to_string(), depending_on(Some("master"))),
        ("b".to_string(), depending_on(Some("a"))),
        ("master".to_string(), depending_on(None)),
        ("z".to_string(), depending_on(None)),
    ];
    let order = topological_sort(&ps);
    assert_eq!(order, vec!["master", "z", "a", "b"]);
    for (name, cfg) in &ps {
        let pos = order.iter().position(|n| n == name).unwrap();
        if let Some(d) = &cfg.depends_on {
            let dpos = order.iter().position(|n| n == d).unwrap();
            assert!(dpos < pos);
        }
    }
    assert_eq!(order.len(), ps.len());
}

#[test]
fn start_order_with_cycle_appends_rest_in_order() {
    let ps = vec![
        ("a".to_string(), depending_on(Some("c"))),
        ("b".to_string(), depending_on(None)),
        ("c".to_string(), depending_on(Some("a"))),
        ("d".to_string(), depending_on(Some("missing"))),
    ];
    assert_eq!(topological_sort(&ps), vec!["b", "a", "c", "d"]);
}

#[test]
fn role_selects_processes() {
    let ps = || {
        vec![
            ("master".to_string(), test_config()),
            ("w0".to_string(), test_config()),
            ("w1".to_string(), test_config()),
        ]
    };
    let names = |v: Vec<(String, ProcessConfig)>| v.into_iter().map(|(n, _)| n).collect::<Vec<_>>();
    assert_eq!(names(select_processes(ps(), Some("master"))), vec!["master"]);
    assert_eq!(names(select_processes(ps(), Some("worker"))), vec!["w0", "w1"]);
    assert_eq!(names(select_processes(ps(), Some("other"))), vec!["master", "w0", "w1"]);
    assert_eq!(names(select_processes(ps(), None)), vec!["master", "w0", "w1"]);
}

#[test]
fn settings_defaults() {
    let s = GuardianSettings::default();
    assert_eq!(s, test_settings());
}

#[test]
fn backoff_never_shrinks() {
    let mut prev = 0;
    for f in 0..80u32 {
        let d = backoff_secs(f, 1, 60);
        assert!(d >= prev);
        prev = d;
    }
    assert_eq!(backoff_secs(100, 3, u64::MAX), u64::MAX);
}

#[test]
fn leftovers_come_last_in_name_order() {
    let ps = vec![
        ("a".to_string(), depending_on(Some("b"))),
        ("b".to_string(), depending_on(None)),
        ("c".to_string(), depending_on(Some("x"))),
    ];
    assert_eq!(topological_sort(&ps), vec!["b", "a", "c"]);
    let ps = vec![
        ("m".to_string(), depending_on(Some("z"))),
        ("n".to_string(), depending_on(Some("m"))),
        ("o".to_string(), depending_on(None)),
        ("z".to_string(), depending_on(Some("n"))),
    ];
    assert_eq!(topological_sort(&ps), vec!["o", "m", "n", "z"]);
}
