use oxide::startup::{
    breaker_message, OnExit, RestartDecision, RestartGate, MAX_EXITS_PER_WINDOW,
};

const MS: u64 = 1_000_000;

fn secs(n: u64) -> u64 {
    n * 1000 * MS
}

#[test]
fn backoff_doubles_then_breaker_trips() {
    let mut gate = RestartGate::default();
    let mut now: u64 = 12345;
    let mut delays = Vec::new();
    for _ in 0..4 {
        gate.record_start(now);
        now += 100 * MS;
        match gate.record_exit(now) {
            RestartDecision::After(d) => delays.push(d),
            RestartDecision::Stop => panic!("tripped too early"),
        }
        now += delays.last().copied().unwrap();
    }
    assert_eq!(delays, vec![secs(1), secs(2), secs(4), secs(8)]);
    gate.record_start(now);
    now += 100 * MS;
    assert_eq!(gate.record_exit(now), RestartDecision::Stop);
    assert_eq!(gate.exits_in_window(), MAX_EXITS_PER_WINDOW);
    assert!(breaker_message(gate.exits_in_window()).contains("5 times"));
}

#[test]
fn a_healthy_run_resets_the_counter() {
    let mut now: u64 = 12345;
    let mut gate = RestartGate::default();
    for _ in 0..3 {
        gate.record_start(now);
        now += secs(1);
        assert!(matches!(gate.record_exit(now), RestartDecision::After(_)));
    }
    assert_eq!(gate.exits_in_window(), 3);
    // Ran for over a minute: whatever happened before no longer counts.
    gate.record_start(now);
    now += secs(61);
    assert_eq!(gate.record_exit(now), RestartDecision::After(secs(1)));
    assert_eq!(gate.exits_in_window(), 1);
}

#[test]
fn old_exits_fall_out_of_the_window() {
    let mut now: u64 = 12345;
    let mut gate = RestartGate::default();
    for _ in 0..4 {
        gate.record_start(now);
        now += secs(2);
        gate.record_exit(now);
    }
    assert_eq!(gate.exits_in_window(), 4);
    // Nothing happens for a minute; the next quick exit is the only one
    // in the window, so the delay is back to the base.
    now += secs(61);
    gate.record_start(now);
    now += secs(1);
    assert_eq!(gate.record_exit(now), RestartDecision::After(secs(1)));
}

#[test]
fn on_exit_cycles_and_serialises_snake_case() {
    assert_eq!(OnExit::Shell.next(), OnExit::Close);
    assert_eq!(OnExit::Restart.next(), OnExit::Shell);
    assert_eq!(OnExit::Restart.label(), "restart");
    assert_eq!(OnExit::Close.label(), "close");
    assert_eq!(OnExit::default(), OnExit::Shell);
}
