use quic_ingress::{
    AssemblerState, ChunkAssembler, ChunkError, IpAddress, SocketAddress, StreamStats,
    PACKET_DATA_SIZE,
};

fn stream_source() -> SocketAddress {
    SocketAddress { ip: IpAddress::V6([0, 0, 0, 0, 0, 0, 0, 0, 0, 0, 0, 0, 0, 0, 0, 1]), port: 4433 }
}

fn pattern(len: usize, seed: u8) -> Vec<u8> {
    (0..len).map(|i| (i as u8).wrapping_mul(31).wrapping_add(seed)).collect()
}

#[test]
fn packet_size_matches_the_network_limit() {
    assert_eq!(PACKET_DATA_SIZE, 1232);
    assert_eq!(PACKET_DATA_SIZE, solana_sdk::packet::PACKET_DATA_SIZE);
}

#[test]
fn fresh_assembler_counts_its_buffer() {
    let mut stats = StreamStats::new();
    let assembler = ChunkAssembler::new(stream_source(), false, &mut stats);
    assert_eq!(assembler.state(), AssemblerState::Reading { bytes_seen: 0 });
    assert_eq!(stats.total_packets_allocated, 1);
}

#[test]
fn chunks_in_order_make_one_packet() {
    let mut stats = StreamStats::new();
    let mut assembler = ChunkAssembler::new(stream_source(), true, &mut stats);
    let first = pattern(300, 1);
    let second = pattern(500, 2);
    let third = pattern(432, 3);
    assembler.on_chunk(0, &first, &mut stats);
    assert_eq!(assembler.state(), AssemblerState::Reading { bytes_seen: 300 });
    assembler.on_chunk(300, &second, &mut stats);
    assembler.on_chunk(800, &third, &mut stats);
    assert_eq!(assembler.state(), AssemblerState::Reading { bytes_seen: 1232 });
    assert_eq!(assembler.chunks(), 3);
    assert!(assembler.on_stream_end());
    assert_eq!(assembler.state(), AssemblerState::Finished { len: 1232 });
    assert_eq!(assembler.chunks(), 3);
    let packet = assembler.take_packet(42).unwrap();
    assert_eq!(assembler.state(), AssemblerState::Delivered);
    assert_eq!(assembler.chunks(), 0);
    let mut expected = first.clone();
    expected.extend_from_slice(&second);
    expected.extend_from_slice(&third);
    assert_eq!(packet.len(), PACKET_DATA_SIZE);
    assert_eq!(packet.data(), expected);
    assert_eq!(&packet.buffer()[..], &expected[..]);
    assert_eq!(packet.meta().size, 1232);
    assert_eq!(packet.meta().received_ms, 42);
    assert_eq!(packet.meta().source, stream_source());
    assert!(packet.meta().staked);
    assert_eq!(stats.total_chunks_received, 3);
    assert_eq!(stats.total_staked_chunks_received, 3);
    assert_eq!(stats.total_unstaked_chunks_received, 0);
    assert_eq!(stats.total_invalid_chunks, 0);
    assert_eq!(stats.total_invalid_chunk_size, 0);
    assert!(assembler.take_packet(43).is_none());
}

#[test]
fn every_stream_byte_sits_at_its_offset() {
    let mut stats = StreamStats::new();
    let mut assembler = ChunkAssembler::new(stream_source(), false, &mut stats);
    let chunks = [pattern(1, 9), pattern(0, 0), pattern(17, 4), pattern(100, 5)];
    let mut offset = 0u64;
    for c in chunks.iter() {
        assembler.on_chunk(offset, c, &mut stats);
        offset += c.len() as u64;
    }
    assert!(assembler.on_stream_end());
    let data = assembler.take_packet(0).unwrap().data();
    assert_eq!(data.len(), 118);
    let mut at = 0usize;
    for c in chunks.iter() {
        for (t, b) in c.iter().enumerate() {
            assert_eq!(data[at + t], *b);
        }
        at += c.len();
    }
}

#[test]
fn chunk_ahead_of_the_stream_fails_only_its_own_stream() {
    let mut stats = StreamStats::new();
    let mut bad = ChunkAssembler::new(stream_source(), false, &mut stats);
    let mut good = ChunkAssembler::new(stream_source(), false, &mut stats);
    good.on_chunk(0, &pattern(50, 1), &mut stats);
    bad.on_chunk(100, &pattern(20, 2), &mut stats);
    assert_eq!(bad.state(), AssemblerState::Failed { kind: ChunkError::InvalidChunk });
    assert_eq!(stats.total_invalid_chunks, 1);
    bad.on_chunk(0, &pattern(100, 3), &mut stats);
    assert_eq!(bad.state(), AssemblerState::Failed { kind: ChunkError::InvalidChunk });
    assert_eq!(stats.total_invalid_chunks, 1);
    assert!(!bad.on_stream_end());
    assert!(bad.take_packet(0).is_none());

    good.on_chunk(50, &pattern(50, 4), &mut stats);
    assert!(good.on_stream_end());
    assert_eq!(good.take_packet(0).unwrap().len(), 100);
    assert_eq!(stats.total_invalid_chunks, 1);
    assert_eq!(stats.total_invalid_chunk_size, 0);
}

#[test]
fn chunk_that_overruns_the_packet_fails_the_stream() {
    let mut stats = StreamStats::new();
    let mut assembler = ChunkAssembler::new(stream_source(), false, &mut stats);
    assembler.on_chunk(0, &pattern(1200, 1), &mut stats);
    assert_eq!(assembler.state(), AssemblerState::Reading { bytes_seen: 1200 });
    assembler.on_chunk(1200, &pattern(100, 2), &mut stats);
    assert_eq!(assembler.state(), AssemblerState::Failed { kind: ChunkError::InvalidChunkSize });
    assert_eq!(stats.total_invalid_chunk_size, 1);
    assert_eq!(stats.total_invalid_chunks, 0);
    assert!(assembler.take_packet(0).is_none());
}

#[test]
fn first_chunk_beyond_the_start_is_an_invalid_chunk() {
    let mut stats = StreamStats::new();
    let mut assembler = ChunkAssembler::new(stream_source(), false, &mut stats);
    assembler.on_chunk(1200, &pattern(100, 2), &mut stats);
    assert_eq!(assembler.state(), AssemblerState::Failed { kind: ChunkError::InvalidChunk });
    assert_eq!(stats.total_invalid_chunks, 1);
    assert_eq!(stats.total_invalid_chunk_size, 0);
}

#[test]
fn single_chunk_larger_than_a_packet_is_an_invalid_chunk_size() {
    let mut stats = StreamStats::new();
    let mut assembler = ChunkAssembler::new(stream_source(), false, &mut stats);
    assembler.on_chunk(0, &pattern(1233, 2), &mut stats);
    assert_eq!(assembler.state(), AssemblerState::Failed { kind: ChunkError::InvalidChunkSize });
    let mut exact = ChunkAssembler::new(stream_source(), false, &mut stats);
    exact.on_chunk(0, &pattern(1232, 2), &mut stats);
    assert_eq!(exact.state(), AssemblerState::Reading { bytes_seen: 1232 });
    exact.on_chunk(1232, &[], &mut stats);
    assert_eq!(exact.state(), AssemblerState::Reading { bytes_seen: 1232 });
    exact.on_chunk(1232, &[1], &mut stats);
    assert_eq!(exact.state(), AssemblerState::Failed { kind: ChunkError::InvalidChunkSize });
}

#[test]
fn huge_offset_is_an_invalid_chunk() {
    let mut stats = StreamStats::new();
    let mut assembler = ChunkAssembler::new(stream_source(), false, &mut stats);
    assembler.on_chunk(u64::MAX, &pattern(10, 2), &mut stats);
    assert_eq!(assembler.state(), AssemblerState::Failed { kind: ChunkError::InvalidChunk });
}

#[test]
fn timeout_and_read_error_fail_a_reading_stream() {
    let mut stats = StreamStats::new();
    let mut slow = ChunkAssembler::new(stream_source(), false, &mut stats);
    slow.on_chunk(0, &pattern(10, 1), &mut stats);
    slow.on_timeout(&mut stats);
    assert_eq!(slow.state(), AssemblerState::Failed { kind: ChunkError::Timeout });
    assert_eq!(stats.total_stream_read_timeouts, 1);
    slow.on_read_error(&mut stats);
    assert_eq!(slow.state(), AssemblerState::Failed { kind: ChunkError::Timeout });
    assert_eq!(stats.total_stream_read_errors, 0);

    let mut broken = ChunkAssembler::new(stream_source(), false, &mut stats);
    broken.on_read_error(&mut stats);
    assert_eq!(broken.state(), AssemblerState::Failed { kind: ChunkError::ReadError });
    assert_eq!(stats.total_stream_read_errors, 1);
    assert!(!broken.on_stream_end());
    assert!(broken.take_packet(0).is_none());
}

#[test]
fn finished_packet_is_not_touched_by_later_events() {
    let mut stats = StreamStats::new();
    let mut assembler = ChunkAssembler::new(stream_source(), false, &mut stats);
    assembler.on_chunk(0, &pattern(10, 1), &mut stats);
    assert!(assembler.on_stream_end());
    assembler.on_timeout(&mut stats);
    assembler.on_chunk(10, &pattern(10, 2), &mut stats);
    assert_eq!(assembler.state(), AssemblerState::Finished { len: 10 });
    assert_eq!(stats.total_stream_read_timeouts, 0);
    assert_eq!(stats.total_chunks_received, 1);
    assert_eq!(assembler.take_packet(5).unwrap().data(), pattern(10, 1));
}

#[test]
fn stream_that_ends_empty_brings_no_packet() {
    let mut stats = StreamStats::new();
    let mut assembler = ChunkAssembler::new(stream_source(), false, &mut stats);
    assert!(!assembler.on_stream_end());
    assert_eq!(assembler.state(), AssemblerState::Reading { bytes_seen: 0 });
    assert!(assembler.take_packet(0).is_none());
}
