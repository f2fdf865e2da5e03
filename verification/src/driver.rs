//! What the server decides for one connection: its admission, each stream
//! that it opens, each packet that it finishes, and its end.

use crate::assembler::{AssemblerState, ChunkAssembler};
use crate::coalescer::{BatchCoalescer, PacketBatch};
use crate::connection_table::{AdmitOutcome, ConnectionMeta, ConnectionRecord, ConnectionTable};
use crate::peer::{classify_in, PeerClass, PeerId, SocketAddress, StakedNodes};
use crate::stats::{bump, bumped, lower, lowered, raise, raised, StreamStats};
use crate::stream_load::{saturating_product, StreamLoadEma};
use crate::throttle::StreamDecision;
use vstd::prelude::*;

verus! {

/// Streams that a connection may have in reading at one time, per stream of its budget.
pub const STREAMS_PER_BUDGET: u64 = 4;

/// Streams that a connection with budget `budget` may have in reading at one time.
pub open spec fn max_concurrent_streams(budget: u64) -> u64 {
    saturating_product(budget, STREAMS_PER_BUDGET)
}

/// A gauge `by` steps back, stopping at zero.
pub open spec fn dropped(n: usize, by: u64) -> usize {
    if n >= by {
        (n - by) as usize
    } else {
        0
    }
}

fn drop_by(n: usize, by: u64) -> (m: usize)
    ensures
        m == dropped(n, by),
{
    if by <= n as u64 {
        n - (by as usize)
    } else {
        0
    }
}

/// The counters after a connection of class `class` was answered with `outcome`.
pub open spec fn stats_after_admission(stats: StreamStats, outcome: AdmitOutcome, class: PeerClass) -> StreamStats {
    match outcome {
        AdmitOutcome::Admit { evicted, .. } => StreamStats {
            total_connections: bumped(stats.total_connections),
            total_new_connections: bumped(stats.total_new_connections),
            connection_added_from_staked_peer: if class is Staked {
                bumped(stats.connection_added_from_staked_peer)
            } else {
                stats.connection_added_from_staked_peer
            },
            connection_added_from_unstaked_peer: if class is Staked {
                stats.connection_added_from_unstaked_peer
            } else {
                bumped(stats.connection_added_from_unstaked_peer)
            },
            num_evictions: if evicted is Some {
                bumped(stats.num_evictions)
            } else {
                stats.num_evictions
            },
            total_streams: match evicted {
                Some(e) => dropped(stats.total_streams, e.stream_count),
                None => stats.total_streams,
            },
            ..stats
        },
        AdmitOutcome::RejectCapacityPruning => StreamStats {
            connection_add_failed: bumped(stats.connection_add_failed),
            connection_add_failed_on_pruning: bumped(stats.connection_add_failed_on_pruning),
            ..stats
        },
        _ => StreamStats {
            connection_add_failed: bumped(stats.connection_add_failed),
            connection_add_failed_staked_node: if class is Staked {
                bumped(stats.connection_add_failed_staked_node)
            } else {
                stats.connection_add_failed_staked_node
            },
            connection_add_failed_unstaked_node: if class is Staked {
                stats.connection_add_failed_unstaked_node
            } else {
                bumped(stats.connection_add_failed_unstaked_node)
            },
            ..stats
        },
    }
}

/// Counts the answer that a connection of class `class` was given.
pub fn record_admission(stats: &mut StreamStats, outcome: &AdmitOutcome, class: PeerClass)
    ensures
        *final(stats) == stats_after_admission(*old(stats), *outcome, class),
{
    match outcome {
        AdmitOutcome::Admit { evicted, .. } => {
            stats.total_connections = bump(stats.total_connections);
            stats.total_new_connections = bump(stats.total_new_connections);
            if class.is_staked() {
                stats.connection_added_from_staked_peer = bump(
                    stats.connection_added_from_staked_peer,
                );
            } else {
                stats.connection_added_from_unstaked_peer = bump(
                    stats.connection_added_from_unstaked_peer,
                );
            }
            match evicted {
                Some(e) => {
                    stats.num_evictions = bump(stats.num_evictions);
                    stats.total_streams = drop_by(stats.total_streams, e.stream_count);
                },
                None => {},
            }
        },
        AdmitOutcome::RejectCapacityPruning => {
            stats.connection_add_failed = bump(stats.connection_add_failed);
            stats.connection_add_failed_on_pruning = bump(stats.connection_add_failed_on_pruning);
        },
        _ => {
            stats.connection_add_failed = bump(stats.connection_add_failed);
            if class.is_staked() {
                stats.connection_add_failed_staked_node = bump(
                    stats.connection_add_failed_staked_node,
                );
            } else {
                stats.connection_add_failed_unstaked_node = bump(
                    stats.connection_add_failed_unstaked_node,
                );
            }
        },
    }
}

/// Code with which a connection is closed that was evicted for a newcomer.
pub const CONNECTION_CLOSE_CODE_DROPPED_ENTRY: u32 = 1;

/// Code with which a connection is closed that the tables have no room for.
pub const CONNECTION_CLOSE_CODE_DISALLOWED: u32 = 2;

/// Code with which a connection is closed whose peer has too many already.
pub const CONNECTION_CLOSE_CODE_TOO_MANY: u32 = 4;

/// Code with which a throttled stream is stopped.
pub const STREAM_STOP_CODE_THROTTLING: u32 = 15;

/// The code with which a connection that got the answer `outcome` is closed;
/// none for a connection that was admitted.
pub open spec fn close_code_spec(outcome: AdmitOutcome) -> Option<u32> {
    match outcome {
        AdmitOutcome::Admit { .. } => None,
        AdmitOutcome::RejectPerPeer => Some(CONNECTION_CLOSE_CODE_TOO_MANY),
        AdmitOutcome::RejectCapacityPruning => Some(CONNECTION_CLOSE_CODE_DISALLOWED),
        AdmitOutcome::RejectCapacity => Some(CONNECTION_CLOSE_CODE_DISALLOWED),
    }
}

/// The code with which a connection that got the answer `outcome` is closed;
/// none for a connection that was admitted.
#[verifier::when_used_as_spec(close_code_spec)]
pub fn close_code(outcome: AdmitOutcome) -> (code: Option<u32>)
    ensures
        code == close_code_spec(outcome),
{
    match outcome {
        AdmitOutcome::Admit { .. } => None,
        AdmitOutcome::RejectPerPeer => Some(CONNECTION_CLOSE_CODE_TOO_MANY),
        AdmitOutcome::RejectCapacityPruning => Some(CONNECTION_CLOSE_CODE_DISALLOWED),
        AdmitOutcome::RejectCapacity => Some(CONNECTION_CLOSE_CODE_DISALLOWED),
    }
}

/// Handles a connection whose handshake has ended at `now_ms`: the peer is
/// classified by the stake snapshot, given the stream budget of its class
/// under the current load, and put to the table; the answer is counted.
pub fn admit_connection(
    table: &mut ConnectionTable,
    nodes: &StakedNodes,
    load: &StreamLoadEma,
    stats: &mut StreamStats,
    peer: PeerId,
    remote: SocketAddress,
    now_ms: u64,
) -> (outcome: AdmitOutcome)
    requires
        old(table).wf(),
        nodes.wf(),
        load.wf(),
    ensures
        final(table).wf(),
        ({
            let class = classify_in(nodes@, nodes.total_stake_spec(), peer@);
            let meta = ConnectionMeta {
                peer,
                remote,
                class,
                now_ms,
                budget: load@.config.budget(
                    class,
                    old(table)@.unstaked.len() as usize,
                    load@.ema,
                ) as u64,
            };
            &&& outcome == old(table)@.admit_outcome(meta)
            &&& final(table)@ == old(table)@.after_admit(meta)
            &&& *final(stats) == stats_after_admission(*old(stats), outcome, class)
        }),
{
    let class = nodes.classify(&peer);
    let budget = load.assigned_budget(class, table.unstaked_len());
    let meta = ConnectionMeta { peer, remote, class, now_ms, budget };
    let outcome = table.try_admit(meta);
    record_admission(stats, &outcome, class);
    outcome
}

/// What the driver does with a stream that a client has opened.
#[derive(Clone, Copy, Debug, PartialEq, Eq, Structural)]
pub enum StreamAction {
    /// Read the stream into a packet.
    Read,
    /// Close the stream at once: the connection is throttled.
    Close,
    /// Leave the stream until one of the connection's streams in reading has
    /// ended, then ask again: the connection reads as many as it may at a time.
    Hold,
    /// Stop serving the connection: it is no longer in the table.
    Stop,
}

/// The connection reads as many streams as it may at one time.
pub open spec fn at_stream_limit(r: ConnectionRecord) -> bool {
    r.stream_count > 0 && r.stream_count >= max_concurrent_streams(r.throttle.assigned_budget)
}

/// The record of a connection after it opened a stream at `now_ms` that was judged.
pub open spec fn record_after_open(r: ConnectionRecord, now_ms: u64, interval_ms: u64, budget: u64) -> ConnectionRecord {
    ConnectionRecord {
        throttle: r.throttle.after_open(now_ms, interval_ms, budget),
        last_activity_ms: now_ms,
        stream_count: if r.throttle.decision(now_ms, interval_ms, budget) == StreamDecision::Admit {
            (r.stream_count + 1) as u64
        } else {
            r.stream_count
        },
        ..r
    }
}

/// The counters after a stream of a connection of class `class` was judged
/// with `decision`, while `opens_in_interval` stream opens were counted for
/// the load.
pub open spec fn stats_after_open(
    stats: StreamStats,
    decision: StreamDecision,
    class: PeerClass,
    opens_in_interval: u64,
) -> StreamStats {
    let counted = StreamStats {
        stream_load_ema_overflow: if opens_in_interval < u64::MAX {
            stats.stream_load_ema_overflow
        } else {
            bumped(stats.stream_load_ema_overflow)
        },
        ..stats
    };
    match decision {
        StreamDecision::Admit => StreamStats {
            total_streams: bumped(stats.total_streams),
            total_new_streams: bumped(stats.total_new_streams),
            ..counted
        },
        StreamDecision::Throttled => StreamStats {
            throttled_streams: bumped(stats.throttled_streams),
            throttled_staked_streams: if class is Staked {
                bumped(stats.throttled_staked_streams)
            } else {
                stats.throttled_staked_streams
            },
            throttled_unstaked_streams: if class is Staked {
                stats.throttled_unstaked_streams
            } else {
                bumped(stats.throttled_unstaked_streams)
            },
            ..counted
        },
    }
}

/// Decides on a stream that connection `id` has opened at `now_ms`.
///
/// A connection that is no longer in the table is to be stopped. One that
/// reads as many streams as it may at a time is held, and nothing changes.
/// Otherwise the open is counted for the load and judged by the connection's
/// throttler, with the budget of its class under the current load for a
/// window that begins now; an admitted stream is read and counted among the
/// connection's streams, a throttled one is closed and counted as throttled.
pub fn open_stream(
    table: &mut ConnectionTable,
    load: &mut StreamLoadEma,
    stats: &mut StreamStats,
    id: u64,
    now_ms: u64,
) -> (action: StreamAction)
    requires
        old(table).wf(),
        old(load).wf(),
    ensures
        final(table).wf(),
        final(load).wf(),
        match old(table)@.find(id) {
            None => action == StreamAction::Stop && final(table)@ == old(table)@ && final(load)@
                == old(load)@ && *final(stats) == *old(stats),
            Some(r) => if at_stream_limit(r) {
                action == StreamAction::Hold && final(table)@ == old(table)@ && final(load)@
                    == old(load)@ && *final(stats) == *old(stats)
            } else {
                let interval_ms = old(load)@.config.sampling_interval_ms;
                let budget = old(load)@.config.budget(
                    r.class,
                    old(table)@.unstaked.len() as usize,
                    old(load)@.ema,
                ) as u64;
                let decision = r.throttle.decision(now_ms, interval_ms, budget);
                &&& action == if decision == StreamDecision::Admit {
                    StreamAction::Read
                } else {
                    StreamAction::Close
                }
                &&& final(table)@ == old(table)@.after_replace(
                    record_after_open(r, now_ms, interval_ms, budget),
                )
                &&& final(table)@.find(id) == Some(record_after_open(r, now_ms, interval_ms, budget))
                &&& final(load)@.config == old(load)@.config
                &&& final(load)@.ema == old(load)@.ema
                &&& final(load)@.opens_in_interval == if old(load)@.opens_in_interval < u64::MAX {
                    (old(load)@.opens_in_interval + 1) as u64
                } else {
                    u64::MAX
                }
                &&& *final(stats) == stats_after_open(
                    *old(stats),
                    decision,
                    r.class,
                    old(load)@.opens_in_interval,
                )
            },
        },
{
    let found = table.get(id);
    match found {
        None => StreamAction::Stop,
        Some(r) => {
            let limit = match r.throttle.assigned_budget.checked_mul(STREAMS_PER_BUDGET) {
                Some(l) => l,
                None => u64::MAX,
            };
            if r.stream_count > 0 && r.stream_count >= limit {
                return StreamAction::Hold;
            }
            let budget = load.assigned_budget(r.class, table.unstaked_len());
            let interval_ms = load.interval_ms();
            load.record_stream_open(stats);
            let mut record = r;
            let decision = record.throttle.on_stream_open(now_ms, interval_ms, budget);
            record.last_activity_ms = now_ms;
            let action = match decision {
                StreamDecision::Admit => {
                    record.stream_count = record.stream_count + 1;
                    stats.total_streams = bump(stats.total_streams);
                    stats.total_new_streams = bump(stats.total_new_streams);
                    StreamAction::Read
                },
                StreamDecision::Throttled => {
                    stats.throttled_streams = bump(stats.throttled_streams);
                    if r.class.is_staked() {
                        stats.throttled_staked_streams = bump(stats.throttled_staked_streams);
                    } else {
                        stats.throttled_unstaked_streams = bump(stats.throttled_unstaked_streams);
                    }
                    StreamAction::Close
                },
            };
            proof {
                old(table)@.lemma_found(id);
            }
            table.replace(record);
            proof {
                table@.lemma_replaced_is_found(old(table)@, record);
            }
            action
        },
    }
}

/// The record of a connection after one of its streams in reading has ended.
pub open spec fn record_after_stream_end(r: ConnectionRecord) -> ConnectionRecord {
    ConnectionRecord {
        stream_count: if r.stream_count > 0 {
            (r.stream_count - 1) as u64
        } else {
            0
        },
        ..r
    }
}

/// The counters after a stream in reading has ended with its assembler in `state`.
pub open spec fn stats_after_stream_end(stats: StreamStats, state: AssemblerState) -> StreamStats {
    StreamStats {
        total_streams: lowered(stats.total_streams),
        total_packet_batches_none: if state is Reading {
            bumped(stats.total_packet_batches_none)
        } else {
            stats.total_packet_batches_none
        },
        ..stats
    }
}

/// Notes that a stream of connection `id` which was being read has ended,
/// with its assembler in `state`. The stream no longer counts among the
/// connection's streams nor in the gauge of streams. A stream that ended
/// while its assembler was still reading, so without a byte, is counted as
/// having brought no packet.
pub fn finish_stream(table: &mut ConnectionTable, stats: &mut StreamStats, id: u64, state: AssemblerState)
    requires
        old(table).wf(),
    ensures
        final(table).wf(),
        final(table)@ == match old(table)@.find(id) {
            Some(r) => old(table)@.after_replace(record_after_stream_end(r)),
            None => old(table)@,
        },
        *final(stats) == stats_after_stream_end(*old(stats), state),
{
    stats.total_streams = lower(stats.total_streams);
    match state {
        AssemblerState::Reading { .. } => {
            stats.total_packet_batches_none = bump(stats.total_packet_batches_none);
        },
        _ => {},
    }
    match table.get(id) {
        Some(r) => {
            let mut record = r;
            if record.stream_count > 0 {
                record.stream_count = record.stream_count - 1;
            }
            proof {
                old(table)@.lemma_found(id);
            }
            table.replace(record);
        },
        None => {},
    }
}

/// The counters after a finished packet of `len` payload bytes, which
/// `chunks` chunks had brought from a peer that is staked or not, was handed
/// on for batching.
pub open spec fn stats_after_handoff(stats: StreamStats, len: usize, chunks: usize, staked: bool) -> StreamStats {
    StreamStats {
        total_packets_sent_for_batching: bumped(stats.total_packets_sent_for_batching),
        total_bytes_sent_for_batching: raised(stats.total_bytes_sent_for_batching, len),
        total_chunks_sent_for_batching: raised(stats.total_chunks_sent_for_batching, chunks),
        total_staked_packets_sent_for_batching: if staked {
            bumped(stats.total_staked_packets_sent_for_batching)
        } else {
            stats.total_staked_packets_sent_for_batching
        },
        total_unstaked_packets_sent_for_batching: if staked {
            stats.total_unstaked_packets_sent_for_batching
        } else {
            bumped(stats.total_unstaked_packets_sent_for_batching)
        },
        ..stats
    }
}

/// Hands the packet of a finished assembler to the coalescer, at `now_ms`,
/// and counts it with its bytes and chunks. Where the coalescer flushes a
/// batch on that, the batch is handed back. An assembler that has not
/// finished hands on nothing.
pub fn deliver(
    assembler: &mut ChunkAssembler,
    coalescer: &mut BatchCoalescer,
    stats: &mut StreamStats,
    now_ms: u64,
) -> (batch: Option<PacketBatch>)
    requires
        old(assembler).wf(),
        old(coalescer).wf(),
    ensures
        final(assembler).wf(),
        final(coalescer).wf(),
        final(assembler)@ == old(assembler)@.after_delivery(),
        !(old(assembler)@.state is Finished) ==> batch is None && final(coalescer)@ == old(coalescer)@
            && *final(stats) == *old(stats),
        old(assembler)@.state is Finished ==> ({
            let p = old(assembler).packet_spec(now_ms);
            let with = old(coalescer)@.with_packet(p, now_ms);
            &&& final(coalescer)@ == with.after_check(now_ms)
            &&& match batch {
                Some(b) => Some(b@) == with.flushed_at(now_ms),
                None => with.flushed_at(now_ms) is None,
            }
            &&& *final(stats) == (StreamStats {
                total_packet_batches_allocated: if old(coalescer)@.pending.len() == 0 {
                    bumped(old(stats).total_packet_batches_allocated)
                } else {
                    old(stats).total_packet_batches_allocated
                },
                total_chunks_processed_by_batcher: raised(
                    old(stats).total_chunks_processed_by_batcher,
                    old(assembler)@.chunks,
                ),
                ..stats_after_handoff(
                    *old(stats),
                    old(assembler)@.bytes.len() as usize,
                    old(assembler)@.chunks,
                    old(assembler).staked_spec(),
                )
            })
        }),
{
    let chunks = assembler.chunks();
    match assembler.take_packet(now_ms) {
        Some(p) => {
            stats.total_packets_sent_for_batching = bump(stats.total_packets_sent_for_batching);
            stats.total_bytes_sent_for_batching = raise(stats.total_bytes_sent_for_batching, p.len());
            stats.total_chunks_sent_for_batching = raise(
                stats.total_chunks_sent_for_batching,
                chunks,
            );
            if p.meta().staked {
                stats.total_staked_packets_sent_for_batching = bump(
                    stats.total_staked_packets_sent_for_batching,
                );
            } else {
                stats.total_unstaked_packets_sent_for_batching = bump(
                    stats.total_unstaked_packets_sent_for_batching,
                );
            }
            coalescer.push(p, chunks, now_ms, stats)
        },
        None => None,
    }
}

/// The counters after connection `id` has ended, given the table before.
pub open spec fn stats_after_close(stats: StreamStats, found: Option<ConnectionRecord>) -> StreamStats {
    match found {
        Some(r) => StreamStats {
            total_connections: lowered(stats.total_connections),
            total_streams: dropped(stats.total_streams, r.stream_count),
            connection_removed: bumped(stats.connection_removed),
            ..stats
        },
        None => StreamStats {
            total_connections: lowered(stats.total_connections),
            connection_remove_failed: bumped(stats.connection_remove_failed),
            ..stats
        },
    }
}

/// Notes that connection `id` has ended: it leaves the table, the gauge of
/// connections goes one back, and the streams that it still had in reading
/// leave the gauge of streams. A connection that the table no longer held,
/// because it was evicted, is counted as a failed removal.
pub fn close_connection(table: &mut ConnectionTable, stats: &mut StreamStats, id: u64) -> (removed:
    Option<ConnectionRecord>)
    requires
        old(table).wf(),
    ensures
        final(table).wf(),
        removed == old(table)@.find(id),
        final(table)@ == old(table)@.after_remove(id),
        *final(stats) == stats_after_close(*old(stats), removed),
{
    let removed = table.remove(id);
    stats.total_connections = lower(stats.total_connections);
    match removed {
        Some(r) => {
            stats.total_streams = drop_by(stats.total_streams, r.stream_count);
            stats.connection_removed = bump(stats.connection_removed);
        },
        None => {
            stats.connection_remove_failed = bump(stats.connection_remove_failed);
        },
    }
    removed
}

/// Why a handshake did not lead to a connection.
#[derive(Clone, Copy, Debug, PartialEq, Eq, Structural)]
pub enum HandshakeFailure {
    /// The handshake did not end within the time allowed for it.
    SetupTimeout,
    /// The peer went silent.
    TimedOut,
    /// The peer closed the connection.
    Closed,
    /// The peer's application closed the connection.
    AppClosed,
    /// The peer reset the connection.
    Reset,
    /// The transport, TLS included, reported an error.
    Transport,
    /// This side closed the connection.
    LocallyClosed,
}

/// The counters after a handshake failed with `kind`.
pub open spec fn stats_after_handshake_failure(stats: StreamStats, kind: HandshakeFailure) -> StreamStats {
    match kind {
        HandshakeFailure::SetupTimeout => StreamStats {
            connection_setup_timeout: bumped(stats.connection_setup_timeout),
            ..stats
        },
        HandshakeFailure::TimedOut => StreamStats {
            connection_setup_error: bumped(stats.connection_setup_error),
            connection_setup_error_timed_out: bumped(stats.connection_setup_error_timed_out),
            ..stats
        },
        HandshakeFailure::Closed => StreamStats {
            connection_setup_error: bumped(stats.connection_setup_error),
            connection_setup_error_closed: bumped(stats.connection_setup_error_closed),
            ..stats
        },
        HandshakeFailure::AppClosed => StreamStats {
            connection_setup_error: bumped(stats.connection_setup_error),
            connection_setup_error_app_closed: bumped(stats.connection_setup_error_app_closed),
            ..stats
        },
        HandshakeFailure::Reset => StreamStats {
            connection_setup_error: bumped(stats.connection_setup_error),
            connection_setup_error_reset: bumped(stats.connection_setup_error_reset),
            ..stats
        },
        HandshakeFailure::Transport => StreamStats {
            connection_setup_error: bumped(stats.connection_setup_error),
            connection_setup_error_transport: bumped(stats.connection_setup_error_transport),
            ..stats
        },
        HandshakeFailure::LocallyClosed => StreamStats {
            connection_setup_error: bumped(stats.connection_setup_error),
            connection_setup_error_locally_closed: bumped(
                stats.connection_setup_error_locally_closed,
            ),
            ..stats
        },
    }
}

/// Counts a failed handshake by its kind. The connection is dropped.
pub fn record_handshake_failure(stats: &mut StreamStats, kind: HandshakeFailure)
    ensures
        *final(stats) == stats_after_handshake_failure(*old(stats), kind),
{
    match kind {
        HandshakeFailure::SetupTimeout => {
            stats.connection_setup_timeout = bump(stats.connection_setup_timeout);
        },
        HandshakeFailure::TimedOut => {
            stats.connection_setup_error = bump(stats.connection_setup_error);
            stats.connection_setup_error_timed_out = bump(stats.connection_setup_error_timed_out);
        },
        HandshakeFailure::Closed => {
            stats.connection_setup_error = bump(stats.connection_setup_error);
            stats.connection_setup_error_closed = bump(stats.connection_setup_error_closed);
        },
        HandshakeFailure::AppClosed => {
            stats.connection_setup_error = bump(stats.connection_setup_error);
            stats.connection_setup_error_app_closed = bump(stats.connection_setup_error_app_closed);
        },
        HandshakeFailure::Reset => {
            stats.connection_setup_error = bump(stats.connection_setup_error);
            stats.connection_setup_error_reset = bump(stats.connection_setup_error_reset);
        },
        HandshakeFailure::Transport => {
            stats.connection_setup_error = bump(stats.connection_setup_error);
            stats.connection_setup_error_transport = bump(stats.connection_setup_error_transport);
        },
        HandshakeFailure::LocallyClosed => {
            stats.connection_setup_error = bump(stats.connection_setup_error);
            stats.connection_setup_error_locally_closed = bump(
                stats.connection_setup_error_locally_closed,
            );
        },
    }
}

} // verus!
