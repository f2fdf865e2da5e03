use quic_ingress::{StreamDecision, StreamThrottler};

#[test]
fn budget_is_honoured_within_a_window() {
    let mut t = StreamThrottler::new(100, 3);
    let mut admitted = 0;
    for i in 0..10u64 {
        if t.on_stream_open(100 + i % 10, 10, 50) == StreamDecision::Admit {
            admitted += 1;
        }
        assert!(t.opens_in_window <= t.assigned_budget);
    }
    assert_eq!(admitted, 3);
    assert_eq!(t.opens_in_window, 3);
    assert_eq!(t.assigned_budget, 3);
    assert_eq!(t.window_start_ms, 100);
}

#[test]
fn window_rolls_over_at_the_interval() {
    let mut t = StreamThrottler::new(100, 1);
    assert_eq!(t.on_stream_open(100, 10, 2), StreamDecision::Admit);
    assert_eq!(t.on_stream_open(109, 10, 2), StreamDecision::Throttled);
    assert_eq!(t.window_start_ms, 100);
    assert_eq!(t.on_stream_open(110, 10, 2), StreamDecision::Admit);
    assert_eq!(t.window_start_ms, 110);
    assert_eq!(t.assigned_budget, 2);
    assert_eq!(t.opens_in_window, 1);
    assert_eq!(t.on_stream_open(111, 10, 7), StreamDecision::Admit);
    assert_eq!(t.on_stream_open(112, 10, 7), StreamDecision::Throttled);
    assert_eq!(t.assigned_budget, 2);
}

#[test]
fn zero_budget_throttles_everything() {
    let mut t = StreamThrottler::new(0, 0);
    assert_eq!(t.on_stream_open(1, 10, 0), StreamDecision::Throttled);
    assert_eq!(t.on_stream_open(50, 10, 0), StreamDecision::Throttled);
    assert_eq!(t.opens_in_window, 0);
}

#[test]
fn clock_that_runs_backwards_opens_no_window() {
    let mut t = StreamThrottler::new(1000, 1);
    assert_eq!(t.on_stream_open(5, 10, 9), StreamDecision::Admit);
    assert_eq!(t.on_stream_open(6, 10, 9), StreamDecision::Throttled);
    assert_eq!(t.window_start_ms, 1000);
}

#[test]
fn window_start_near_the_end_of_time_does_not_wrap() {
    let mut t = StreamThrottler::new(u64::MAX - 3, 1);
    assert_eq!(t.on_stream_open(u64::MAX, 10, 4), StreamDecision::Admit);
    assert_eq!(t.on_stream_open(u64::MAX, 10, 4), StreamDecision::Throttled);
    assert_eq!(t.window_start_ms, u64::MAX - 3);
}

#[test]
fn zero_interval_starts_a_window_with_every_open() {
    let mut t = StreamThrottler::new(10, 1);
    for _ in 0..5 {
        assert_eq!(t.on_stream_open(10, 0, 1), StreamDecision::Admit);
        assert_eq!(t.opens_in_window, 1);
    }
}
