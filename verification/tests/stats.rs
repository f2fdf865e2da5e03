use quic_ingress::StreamStats;

#[test]
fn report_resets_counters_and_keeps_gauges() {
    let mut stats = StreamStats::new();
    stats.total_connections = 3;
    stats.total_streams = 7;
    stats.total_new_streams = 5;
    stats.total_invalid_chunks = 2;
    stats.stream_load_ema = 11;
    let point = stats.report("quic_server");
    assert_eq!(point.name, "quic_server");
    assert_eq!(point.fields.len(), 49);
    assert_eq!(point.fields[0].name, "active_connections");
    assert_eq!(point.fields[0].value, 3);
    assert_eq!(point.fields[1].name, "active_streams");
    assert_eq!(point.fields[1].value, 7);
    assert_eq!(point.fields[3].name, "new_streams");
    assert_eq!(point.fields[3].value, 5);
    assert_eq!(point.fields[22].name, "invalid_chunk");
    assert_eq!(point.fields[22].value, 2);
    assert_eq!(point.fields[44].name, "stream_load_ema");
    assert_eq!(point.fields[44].value, 11);
    assert_eq!(point.fields[48].name, "throttled_staked_streams");
    assert_eq!(stats.total_connections, 3);
    assert_eq!(stats.total_streams, 7);
    assert_eq!(stats.stream_load_ema, 11);
    assert_eq!(stats.total_new_streams, 0);
    assert_eq!(stats.total_invalid_chunks, 0);
}
