use quic_ingress::{
    record_send, send_batch, BatchCoalescer, ChunkAssembler, IpAddress, Packet, PacketBatch,
    SendOutcome, SocketAddress, StreamStats, MAX_BATCH_PACKETS,
};

fn made_packet(len: usize, tag: u8, stats: &mut StreamStats) -> Packet {
    let source = SocketAddress { ip: IpAddress::V4([192, 168, 0, tag]), port: 1000 };
    let mut assembler = ChunkAssembler::new(source, false, stats);
    assembler.on_chunk(0, &vec![tag; len], stats);
    assert!(assembler.on_stream_end());
    assembler.take_packet(tag as u64).unwrap()
}

fn tags(batch: &PacketBatch) -> Vec<u8> {
    (0..batch.len()).map(|i| batch.get(i).data()[0]).collect()
}

#[test]
fn default_batch_size() {
    assert_eq!(MAX_BATCH_PACKETS, 64);
}

#[test]
fn batch_is_flushed_at_the_size_limit() {
    let mut stats = StreamStats::new();
    let mut c = BatchCoalescer::new(3, 1000);
    assert!(c.push(made_packet(10, 1, &mut stats), 1, 0, &mut stats).is_none());
    assert!(c.push(made_packet(10, 2, &mut stats), 1, 1, &mut stats).is_none());
    assert_eq!(c.pending_len(), 2);
    let batch = c.push(made_packet(10, 3, &mut stats), 1, 2, &mut stats).unwrap();
    assert_eq!(tags(&batch), vec![1, 2, 3]);
    assert_eq!(batch.payload_len(), 30);
    assert_eq!(c.pending_len(), 0);
    assert_eq!(stats.total_packet_batches_allocated, 1);
    assert_eq!(stats.total_chunks_processed_by_batcher, 3);
    assert!(c.push(made_packet(10, 4, &mut stats), 5, 3, &mut stats).is_none());
    assert_eq!(stats.total_packet_batches_allocated, 2);
    assert_eq!(stats.total_chunks_processed_by_batcher, 8);
}

#[test]
fn batch_is_flushed_when_the_coalesce_time_is_over() {
    let mut stats = StreamStats::new();
    let mut c = BatchCoalescer::new(64, 5);
    assert!(c.on_tick(100).is_none());
    assert!(c.push(made_packet(7, 1, &mut stats), 1, 100, &mut stats).is_none());
    assert!(c.push(made_packet(7, 2, &mut stats), 1, 103, &mut stats).is_none());
    assert!(c.on_tick(104).is_none());
    let batch = c.on_tick(105).unwrap();
    assert_eq!(tags(&batch), vec![1, 2]);
    assert!(c.on_tick(200).is_none());

    assert!(c.push(made_packet(7, 3, &mut stats), 1, 300, &mut stats).is_none());
    let late = c.push(made_packet(7, 4, &mut stats), 1, 305, &mut stats).unwrap();
    assert_eq!(tags(&late), vec![3, 4]);
}

#[test]
fn shutdown_flushes_what_waits() {
    let mut stats = StreamStats::new();
    let mut c = BatchCoalescer::new(64, 1000);
    assert!(c.on_shutdown().is_none());
    c.push(made_packet(5, 9, &mut stats), 1, 0, &mut stats);
    let batch = c.on_shutdown().unwrap();
    assert_eq!(tags(&batch), vec![9]);
    assert!(c.on_shutdown().is_none());
    assert_eq!(batch.into_packets().len(), 1);
}

#[test]
fn limit_of_zero_or_one_or_no_wait_flushes_every_packet() {
    let mut stats = StreamStats::new();
    for (max, coalesce) in [(0usize, 1000u64), (1, 1000), (64, 0)] {
        let mut c = BatchCoalescer::new(max, coalesce);
        for tag in 1..4u8 {
            let batch = c.push(made_packet(3, tag, &mut stats), 1, 50, &mut stats).unwrap();
            assert_eq!(tags(&batch), vec![tag]);
        }
    }
}

#[test]
fn no_packet_is_lost_or_reordered() {
    let mut stats = StreamStats::new();
    let mut c = BatchCoalescer::new(4, 10);
    let mut out: Vec<u8> = Vec::new();
    let mut now = 0u64;
    for tag in 1..=50u8 {
        now += (tag % 5) as u64;
        if let Some(b) = c.push(made_packet(1 + tag as usize, tag, &mut stats), 1, now, &mut stats) {
            assert!(b.len() >= 1 && b.len() <= 4);
            out.extend(tags(&b));
        }
        if tag % 7 == 0 {
            now += 10;
            if let Some(b) = c.on_tick(now) {
                out.extend(tags(&b));
            }
        }
    }
    if let Some(b) = c.on_shutdown() {
        out.extend(tags(&b));
    }
    assert_eq!(out, (1..=50u8).collect::<Vec<u8>>());
}

#[test]
fn sent_batch_arrives_and_is_counted() {
    let mut stats = StreamStats::new();
    let mut c = BatchCoalescer::new(2, 1000);
    c.push(made_packet(200, 1, &mut stats), 1, 0, &mut stats);
    let batch = c.push(made_packet(100, 2, &mut stats), 1, 0, &mut stats).unwrap();
    let (sender, receiver) = crossbeam_channel::bounded::<PacketBatch>(1);
    assert_eq!(send_batch(&sender, batch, &mut stats), SendOutcome::Sent);
    assert_eq!(stats.total_packet_batches_sent, 1);
    assert_eq!(stats.total_packets_sent_to_consumer, 2);
    assert_eq!(stats.total_bytes_sent_to_consumer, 300);
    assert_eq!(stats.total_packet_batch_send_err, 0);
    let got = receiver.try_recv().unwrap();
    assert_eq!(tags(&got), vec![1, 2]);
    assert_eq!(got.get(0).len(), 200);
}

#[test]
fn full_channel_drops_the_batch_and_counts_an_error() {
    let mut stats = StreamStats::new();
    let (sender, receiver) = crossbeam_channel::bounded::<PacketBatch>(1);
    let mut c = BatchCoalescer::new(1, 1000);
    let first = c.push(made_packet(8, 1, &mut stats), 1, 0, &mut stats).unwrap();
    let second = c.push(made_packet(8, 2, &mut stats), 1, 0, &mut stats).unwrap();
    assert_eq!(send_batch(&sender, first, &mut stats), SendOutcome::Sent);
    assert_eq!(send_batch(&sender, second, &mut stats), SendOutcome::Full);
    assert_eq!(stats.total_packet_batch_send_err, 1);
    assert_eq!(stats.total_packet_batches_sent, 1);
    assert_eq!(stats.total_packets_sent_to_consumer, 1);
    assert_eq!(tags(&receiver.try_recv().unwrap()), vec![1]);
    assert!(receiver.try_recv().is_err());
}

#[test]
fn channel_without_receiver_counts_an_error() {
    let mut stats = StreamStats::new();
    let (sender, receiver) = crossbeam_channel::bounded::<PacketBatch>(4);
    drop(receiver);
    let mut c = BatchCoalescer::new(1, 1000);
    let batch = c.push(made_packet(8, 1, &mut stats), 1, 0, &mut stats).unwrap();
    assert_eq!(send_batch(&sender, batch, &mut stats), SendOutcome::Disconnected);
    assert_eq!(stats.total_packet_batch_send_err, 1);
    assert_eq!(stats.total_packet_batches_sent, 0);
}

#[test]
fn send_outcomes_are_counted_by_kind() {
    let mut stats = StreamStats::new();
    record_send(&mut stats, SendOutcome::Sent, 3, 700);
    record_send(&mut stats, SendOutcome::Sent, 1, usize::MAX);
    record_send(&mut stats, SendOutcome::Full, 5, 50);
    record_send(&mut stats, SendOutcome::Disconnected, 5, 50);
    assert_eq!(stats.total_packet_batches_sent, 2);
    assert_eq!(stats.total_packets_sent_to_consumer, 4);
    assert_eq!(stats.total_bytes_sent_to_consumer, usize::MAX);
    assert_eq!(stats.total_packet_batch_send_err, 2);
}
