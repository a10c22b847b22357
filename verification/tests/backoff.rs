use openfront_core::backoff::{supervisor_step, BackoffStrategy, SupervisorState, TaskSettings};

#[test]
fn linear_backoff_grows_then_plateaus() {
    let strategy = BackoffStrategy::Linear { start_ms: 5000, increment_ms: 5000, max_stacks: 10 };
    assert_eq!(strategy.next_backoff(0), 5000);
    assert_eq!(strategy.next_backoff(1), 10_000);
    assert_eq!(strategy.next_backoff(3), 20_000);
    assert_eq!(strategy.next_backoff(10), 55_000);
    assert_eq!(strategy.next_backoff(11), 55_000);
    assert_eq!(strategy.next_backoff(1000), 55_000);
}

#[test]
fn exponential_backoff_grows_then_plateaus() {
    let strategy = BackoffStrategy::Exponential {
        start_ms: 1000,
        increment_ms: 100,
        power: 2,
        max_stacks: 5,
    };
    assert_eq!(strategy.next_backoff(0), 1000);
    assert_eq!(strategy.next_backoff(1), 1100);
    assert_eq!(strategy.next_backoff(3), 1900);
    assert_eq!(strategy.next_backoff(5), 3500);
    assert_eq!(strategy.next_backoff(9), 3500);
}

#[test]
fn saturating_arithmetic_never_wraps() {
    let strategy = BackoffStrategy::Exponential {
        start_ms: u64::MAX,
        increment_ms: u64::MAX,
        power: 40,
        max_stacks: u64::MAX,
    };
    assert_eq!(strategy.next_backoff(u64::MAX), u64::MAX);
}

#[test]
fn default_settings_match_the_documented_policy() {
    let settings = TaskSettings::default();
    assert_eq!(settings.sleep_time_ms, 60_000);
    match settings.backoff_strategy {
        BackoffStrategy::Linear { start_ms, increment_ms, max_stacks } => {
            assert_eq!(start_ms, 5000);
            assert_eq!(increment_ms, 5000);
            assert_eq!(max_stacks, 10);
        }
        _ => panic!("default strategy is linear"),
    }
}

#[test]
fn supervisor_waits_backoff_on_failure_and_idles_on_success() {
    let settings = TaskSettings::default();
    let mut state = SupervisorState::new();

    let wait = supervisor_step(&mut state, &settings, false);
    assert_eq!(wait, 5000);
    assert_eq!(state.consecutive_failures, 1);

    let wait = supervisor_step(&mut state, &settings, false);
    assert_eq!(wait, 10_000);
    assert_eq!(state.consecutive_failures, 2);

    let wait = supervisor_step(&mut state, &settings, true);
    assert_eq!(wait, 60_000);
    assert_eq!(state.consecutive_failures, 0);

    let wait = supervisor_step(&mut state, &settings, false);
    assert_eq!(wait, 5000);
    assert_eq!(state.consecutive_failures, 1);
}
