use quic_ingress::{LoadConfig, PeerClass, StreamLoadEma, StreamStats, SAMPLING_INTERVAL_MS};

fn loaded(config: LoadConfig, samples: &[u64], stats: &mut StreamStats) -> StreamLoadEma {
    let mut load = StreamLoadEma::new(config, stats).unwrap();
    for s in samples {
        for _ in 0..*s {
            load.record_stream_open(stats);
        }
        load.sample(stats);
    }
    load
}

#[test]
fn default_configuration() {
    let c = LoadConfig::new(500);
    assert_eq!(c.max_streams_per_ms, 500);
    assert_eq!(c.sampling_interval_ms, 10);
    assert_eq!(SAMPLING_INTERVAL_MS, 10);
    assert_eq!((c.smoothing_num, c.smoothing_den), (1, 4));
    assert_eq!(c.budget_floor_per_ms, 1);
    assert_eq!(c.unstaked_pool_percent, 20);
    assert!(c.is_valid());
}

#[test]
fn invalid_configurations_are_refused() {
    let mut stats = StreamStats::new();
    let mut c = LoadConfig::new(1);
    c.smoothing_den = 0;
    assert!(!c.is_valid());
    assert!(StreamLoadEma::new(c, &mut stats).is_none());
    let mut c = LoadConfig::new(1);
    c.smoothing_num = 5;
    assert!(StreamLoadEma::new(c, &mut stats).is_none());
    let mut c = LoadConfig::new(1);
    c.unstaked_pool_percent = 101;
    assert!(StreamLoadEma::new(c, &mut stats).is_none());
    assert_eq!(stats.stream_load_capacity_overflow, 0);
}

#[test]
fn average_moves_a_quarter_of_the_way() {
    let mut stats = StreamStats::new();
    let mut load = StreamLoadEma::new(LoadConfig::new(500), &mut stats).unwrap();
    assert_eq!(load.current_load(), 0);
    for _ in 0..100 {
        load.record_stream_open(&mut stats);
    }
    load.sample(&mut stats);
    assert_eq!(load.current_load(), 25);
    assert_eq!(stats.stream_load_ema, 25);
    load.sample(&mut stats);
    assert_eq!(load.current_load(), 18);
    for _ in 0..7 {
        load.record_stream_open(&mut stats);
    }
    load.sample(&mut stats);
    assert_eq!(load.current_load(), 15);
    assert_eq!(stats.stream_load_ema, 15);
    assert_eq!(stats.stream_load_ema_overflow, 0);
}

#[test]
fn capacity_is_rate_times_interval() {
    let mut stats = StreamStats::new();
    let load = StreamLoadEma::new(LoadConfig::new(500), &mut stats).unwrap();
    assert_eq!(load.capacity(), 5000);
    assert_eq!(load.interval_ms(), 10);
    assert_eq!(stats.stream_load_capacity_overflow, 0);
}

#[test]
fn capacity_overflow_saturates_and_is_counted() {
    let mut stats = StreamStats::new();
    let load = StreamLoadEma::new(LoadConfig::new(u64::MAX), &mut stats).unwrap();
    assert_eq!(load.capacity(), u64::MAX);
    assert_eq!(stats.stream_load_capacity_overflow, 1);
}

#[test]
fn budgets_without_load() {
    let mut stats = StreamStats::new();
    let load = StreamLoadEma::new(LoadConfig::new(500), &mut stats).unwrap();
    // capacity 5000: 1000 for unstaked peers, 4000 for staked ones
    assert_eq!(load.assigned_budget(PeerClass::Unstaked, 0), 1000);
    assert_eq!(load.assigned_budget(PeerClass::Unstaked, 1), 1000);
    assert_eq!(load.assigned_budget(PeerClass::Unstaked, 3), 333);
    assert_eq!(load.assigned_budget(PeerClass::Unstaked, 500), 10);
    assert_eq!(load.assigned_budget(PeerClass::Staked { stake: 1, total_stake: 4 }, 0), 1000);
    assert_eq!(load.assigned_budget(PeerClass::Staked { stake: 4, total_stake: 4 }, 0), 4000);
    assert_eq!(load.assigned_budget(PeerClass::Staked { stake: 9, total_stake: 4 }, 0), 4000);
    assert_eq!(load.assigned_budget(PeerClass::Staked { stake: 1, total_stake: 3 }, 0), 1333);
    assert_eq!(load.assigned_budget(PeerClass::Staked { stake: 1, total_stake: 100000 }, 0), 10);
    assert_eq!(load.assigned_budget(PeerClass::Staked { stake: 1, total_stake: 0 }, 0), 10);
}

#[test]
fn budgets_contract_under_load() {
    let mut stats = StreamStats::new();
    let mut config = LoadConfig::new(1);
    config.smoothing_num = 1;
    config.smoothing_den = 1;
    config.budget_floor_per_ms = 0;
    config.unstaked_pool_percent = 50;
    config.sampling_interval_ms = 100;
    // capacity 100, pools of 50 each
    let idle = loaded(config, &[], &mut stats);
    assert_eq!(idle.assigned_budget(PeerClass::Unstaked, 1), 50);
    let at_capacity = loaded(config, &[100], &mut stats);
    assert_eq!(at_capacity.current_load(), 100);
    assert_eq!(at_capacity.assigned_budget(PeerClass::Unstaked, 1), 50);
    let double = loaded(config, &[200], &mut stats);
    assert_eq!(double.assigned_budget(PeerClass::Unstaked, 1), 25);
    assert_eq!(double.assigned_budget(PeerClass::Staked { stake: 1, total_stake: 2 }, 1), 12);
    let triple = loaded(config, &[300], &mut stats);
    assert_eq!(triple.assigned_budget(PeerClass::Unstaked, 1), 16);
}

#[test]
fn floor_holds_under_any_load() {
    let mut stats = StreamStats::new();
    let load = loaded(LoadConfig::new(1), &[4000, 4000, 4000], &mut stats);
    assert!(load.current_load() > load.capacity());
    assert_eq!(load.assigned_budget(PeerClass::Unstaked, 1), 10);
    assert_eq!(load.assigned_budget(PeerClass::Staked { stake: 1, total_stake: 1 }, 1), 10);
}
