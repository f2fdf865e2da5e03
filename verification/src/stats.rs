//! Counters and gauges of the server, and the periodic snapshot that resets the counters.

use vstd::prelude::*;

verus! {

/// One named number of a snapshot.
#[derive(Clone, Copy, Debug)]
pub struct DatapointField {
    pub name: &'static str,
    pub value: i64,
}

/// A snapshot of all counters and gauges, ready to be handed to a metrics sink.
#[derive(Debug)]
pub struct Datapoint {
    pub name: &'static str,
    pub fields: Vec<DatapointField>,
}

/// A counter one step further: it stops at the largest value instead of wrapping.
pub open spec fn bumped(n: usize) -> usize {
    if n < usize::MAX {
        (n + 1) as usize
    } else {
        n
    }
}

/// A counter `by` steps further, stopping at the largest value.
pub open spec fn raised(n: usize, by: usize) -> usize {
    if n + by <= usize::MAX {
        (n + by) as usize
    } else {
        usize::MAX
    }
}

/// A gauge one step back, stopping at zero.
pub open spec fn lowered(n: usize) -> usize {
    if n > 0 {
        (n - 1) as usize
    } else {
        n
    }
}

/// Moves a counter one step further.
pub fn bump(n: usize) -> (m: usize)
    ensures
        m == bumped(n),
{
    if n < usize::MAX {
        n + 1
    } else {
        n
    }
}

/// Moves a counter `by` steps further.
pub fn raise(n: usize, by: usize) -> (m: usize)
    ensures
        m == raised(n, by),
{
    if by <= usize::MAX - n {
        n + by
    } else {
        usize::MAX
    }
}

/// Moves a gauge one step back.
pub fn lower(n: usize) -> (m: usize)
    ensures
        m == lowered(n),
{
    if n > 0 {
        n - 1
    } else {
        n
    }
}

/// The server's counters and gauges. Counters only grow between two snapshots
/// and start again from zero after each; gauges follow a current quantity and
/// are never reset: `total_connections`, `total_streams`, `stream_load_ema`,
/// `stream_load_ema_overflow` and `stream_load_capacity_overflow`.
#[derive(Clone, Copy, Debug)]
pub struct StreamStats {
    pub total_connections: usize,
    pub total_new_connections: usize,
    pub total_streams: usize,
    pub total_new_streams: usize,
    pub total_invalid_chunks: usize,
    pub total_invalid_chunk_size: usize,
    pub total_packets_allocated: usize,
    pub total_packet_batches_allocated: usize,
    pub total_chunks_received: usize,
    pub total_staked_chunks_received: usize,
    pub total_unstaked_chunks_received: usize,
    pub total_packet_batch_send_err: usize,
    pub total_handle_chunk_to_packet_batcher_send_err: usize,
    pub total_packet_batches_sent: usize,
    pub total_packet_batches_none: usize,
    pub total_packets_sent_for_batching: usize,
    pub total_bytes_sent_for_batching: usize,
    pub total_chunks_sent_for_batching: usize,
    pub total_packets_sent_to_consumer: usize,
    pub total_bytes_sent_to_consumer: usize,
    pub total_chunks_processed_by_batcher: usize,
    pub total_stream_read_errors: usize,
    pub total_stream_read_timeouts: usize,
    pub num_evictions: usize,
    pub connection_added_from_staked_peer: usize,
    pub connection_added_from_unstaked_peer: usize,
    pub connection_add_failed: usize,
    pub connection_add_failed_invalid_stream_count: usize,
    pub connection_add_failed_staked_node: usize,
    pub connection_add_failed_unstaked_node: usize,
    pub connection_add_failed_on_pruning: usize,
    pub connection_setup_timeout: usize,
    pub connection_setup_error: usize,
    pub connection_setup_error_closed: usize,
    pub connection_setup_error_timed_out: usize,
    pub connection_setup_error_transport: usize,
    pub connection_setup_error_app_closed: usize,
    pub connection_setup_error_reset: usize,
    pub connection_setup_error_locally_closed: usize,
    pub connection_removed: usize,
    pub connection_remove_failed: usize,
    pub throttled_streams: usize,
    pub stream_load_ema: usize,
    pub stream_load_ema_overflow: usize,
    pub stream_load_capacity_overflow: usize,
    pub total_staked_packets_sent_for_batching: usize,
    pub total_unstaked_packets_sent_for_batching: usize,
    pub throttled_staked_streams: usize,
    pub throttled_unstaked_streams: usize,
}

impl StreamStats {
    /// All counters and gauges at zero.
    pub open spec fn zero() -> StreamStats {
        StreamStats {
            total_connections: 0,
            total_new_connections: 0,
            total_streams: 0,
            total_new_streams: 0,
            total_invalid_chunks: 0,
            total_invalid_chunk_size: 0,
            total_packets_allocated: 0,
            total_packet_batches_allocated: 0,
            total_chunks_received: 0,
            total_staked_chunks_received: 0,
            total_unstaked_chunks_received: 0,
            total_packet_batch_send_err: 0,
            total_handle_chunk_to_packet_batcher_send_err: 0,
            total_packet_batches_sent: 0,
            total_packet_batches_none: 0,
            total_packets_sent_for_batching: 0,
            total_bytes_sent_for_batching: 0,
            total_chunks_sent_for_batching: 0,
            total_packets_sent_to_consumer: 0,
            total_bytes_sent_to_consumer: 0,
            total_chunks_processed_by_batcher: 0,
            total_stream_read_errors: 0,
            total_stream_read_timeouts: 0,
            num_evictions: 0,
            connection_added_from_staked_peer: 0,
            connection_added_from_unstaked_peer: 0,
            connection_add_failed: 0,
            connection_add_failed_invalid_stream_count: 0,
            connection_add_failed_staked_node: 0,
            connection_add_failed_unstaked_node: 0,
            connection_add_failed_on_pruning: 0,
            connection_setup_timeout: 0,
            connection_setup_error: 0,
            connection_setup_error_closed: 0,
            connection_setup_error_timed_out: 0,
            connection_setup_error_transport: 0,
            connection_setup_error_app_closed: 0,
            connection_setup_error_reset: 0,
            connection_setup_error_locally_closed: 0,
            connection_removed: 0,
            connection_remove_failed: 0,
            throttled_streams: 0,
            stream_load_ema: 0,
            stream_load_ema_overflow: 0,
            stream_load_capacity_overflow: 0,
            total_staked_packets_sent_for_batching: 0,
            total_unstaked_packets_sent_for_batching: 0,
            throttled_staked_streams: 0,
            throttled_unstaked_streams: 0,
        }
    }

    /// All counters and gauges at zero.
    pub fn new() -> (stats: StreamStats)
        ensures
            stats == StreamStats::zero(),
    {
        StreamStats {
            total_connections: 0,
            total_new_connections: 0,
            total_streams: 0,
            total_new_streams: 0,
            total_invalid_chunks: 0,
            total_invalid_chunk_size: 0,
            total_packets_allocated: 0,
            total_packet_batches_allocated: 0,
            total_chunks_received: 0,
            total_staked_chunks_received: 0,
            total_unstaked_chunks_received: 0,
            total_packet_batch_send_err: 0,
            total_handle_chunk_to_packet_batcher_send_err: 0,
            total_packet_batches_sent: 0,
            total_packet_batches_none: 0,
            total_packets_sent_for_batching: 0,
            total_bytes_sent_for_batching: 0,
            total_chunks_sent_for_batching: 0,
            total_packets_sent_to_consumer: 0,
            total_bytes_sent_to_consumer: 0,
            total_chunks_processed_by_batcher: 0,
            total_stream_read_errors: 0,
            total_stream_read_timeouts: 0,
            num_evictions: 0,
            connection_added_from_staked_peer: 0,
            connection_added_from_unstaked_peer: 0,
            connection_add_failed: 0,
            connection_add_failed_invalid_stream_count: 0,
            connection_add_failed_staked_node: 0,
            connection_add_failed_unstaked_node: 0,
            connection_add_failed_on_pruning: 0,
            connection_setup_timeout: 0,
            connection_setup_error: 0,
            connection_setup_error_closed: 0,
            connection_setup_error_timed_out: 0,
            connection_setup_error_transport: 0,
            connection_setup_error_app_closed: 0,
            connection_setup_error_reset: 0,
            connection_setup_error_locally_closed: 0,
            connection_removed: 0,
            connection_remove_failed: 0,
            throttled_streams: 0,
            stream_load_ema: 0,
            stream_load_ema_overflow: 0,
            stream_load_capacity_overflow: 0,
            total_staked_packets_sent_for_batching: 0,
            total_unstaked_packets_sent_for_batching: 0,
            throttled_staked_streams: 0,
            throttled_unstaked_streams: 0,
        }
    }

    /// The state that a snapshot leaves behind: the gauges as they were, every counter at zero.
    pub open spec fn after_report(self) -> StreamStats {
        StreamStats {
            total_connections: self.total_connections,
            total_streams: self.total_streams,
            stream_load_ema: self.stream_load_ema,
            stream_load_ema_overflow: self.stream_load_ema_overflow,
            stream_load_capacity_overflow: self.stream_load_capacity_overflow,
            ..StreamStats::zero()
        }
    }

    /// The fields of a snapshot, in the order in which they are reported.
    pub open spec fn reported(self) -> Seq<DatapointField> {
        Seq::empty()
            .push(DatapointField { name: "active_connections", value: self.total_connections as i64 })
            .push(DatapointField { name: "active_streams", value: self.total_streams as i64 })
            .push(DatapointField { name: "new_connections", value: self.total_new_connections as i64 })
            .push(DatapointField { name: "new_streams", value: self.total_new_streams as i64 })
            .push(DatapointField { name: "evictions", value: self.num_evictions as i64 })
            .push(DatapointField { name: "connection_added_from_staked_peer", value: self.connection_added_from_staked_peer as i64 })
            .push(DatapointField { name: "connection_added_from_unstaked_peer", value: self.connection_added_from_unstaked_peer as i64 })
            .push(DatapointField { name: "connection_add_failed", value: self.connection_add_failed as i64 })
            .push(DatapointField { name: "connection_add_failed_invalid_stream_count", value: self.connection_add_failed_invalid_stream_count as i64 })
            .push(DatapointField { name: "connection_add_failed_staked_node", value: self.connection_add_failed_staked_node as i64 })
            .push(DatapointField { name: "connection_add_failed_unstaked_node", value: self.connection_add_failed_unstaked_node as i64 })
            .push(DatapointField { name: "connection_add_failed_on_pruning", value: self.connection_add_failed_on_pruning as i64 })
            .push(DatapointField { name: "connection_removed", value: self.connection_removed as i64 })
            .push(DatapointField { name: "connection_remove_failed", value: self.connection_remove_failed as i64 })
            .push(DatapointField { name: "connection_setup_timeout", value: self.connection_setup_timeout as i64 })
            .push(DatapointField { name: "connection_setup_error", value: self.connection_setup_error as i64 })
            .push(DatapointField { name: "connection_setup_error_timed_out", value: self.connection_setup_error_timed_out as i64 })
            .push(DatapointField { name: "connection_setup_error_closed", value: self.connection_setup_error_closed as i64 })
            .push(DatapointField { name: "connection_setup_error_transport", value: self.connection_setup_error_transport as i64 })
            .push(DatapointField { name: "connection_setup_error_app_closed", value: self.connection_setup_error_app_closed as i64 })
            .push(DatapointField { name: "connection_setup_error_reset", value: self.connection_setup_error_reset as i64 })
            .push(DatapointField { name: "connection_setup_error_locally_closed", value: self.connection_setup_error_locally_closed as i64 })
            .push(DatapointField { name: "invalid_chunk", value: self.total_invalid_chunks as i64 })
            .push(DatapointField { name: "invalid_chunk_size", value: self.total_invalid_chunk_size as i64 })
            .push(DatapointField { name: "packets_allocated", value: self.total_packets_allocated as i64 })
            .push(DatapointField { name: "packet_batches_allocated", value: self.total_packet_batches_allocated as i64 })
            .push(DatapointField { name: "packets_sent_for_batching", value: self.total_packets_sent_for_batching as i64 })
            .push(DatapointField { name: "staked_packets_sent_for_batching", value: self.total_staked_packets_sent_for_batching as i64 })
            .push(DatapointField { name: "unstaked_packets_sent_for_batching", value: self.total_unstaked_packets_sent_for_batching as i64 })
            .push(DatapointField { name: "bytes_sent_for_batching", value: self.total_bytes_sent_for_batching as i64 })
            .push(DatapointField { name: "chunks_sent_for_batching", value: self.total_chunks_sent_for_batching as i64 })
            .push(DatapointField { name: "packets_sent_to_consumer", value: self.total_packets_sent_to_consumer as i64 })
            .push(DatapointField { name: "bytes_sent_to_consumer", value: self.total_bytes_sent_to_consumer as i64 })
            .push(DatapointField { name: "chunks_processed_by_batcher", value: self.total_chunks_processed_by_batcher as i64 })
            .push(DatapointField { name: "chunks_received", value: self.total_chunks_received as i64 })
            .push(DatapointField { name: "staked_chunks_received", value: self.total_staked_chunks_received as i64 })
            .push(DatapointField { name: "unstaked_chunks_received", value: self.total_unstaked_chunks_received as i64 })
            .push(DatapointField { name: "packet_batch_send_error", value: self.total_packet_batch_send_err as i64 })
            .push(DatapointField { name: "handle_chunk_to_packet_batcher_send_error", value: self.total_handle_chunk_to_packet_batcher_send_err as i64 })
            .push(DatapointField { name: "packet_batches_sent", value: self.total_packet_batches_sent as i64 })
            .push(DatapointField { name: "packet_batch_empty", value: self.total_packet_batches_none as i64 })
            .push(DatapointField { name: "stream_read_errors", value: self.total_stream_read_errors as i64 })
            .push(DatapointField { name: "stream_read_timeouts", value: self.total_stream_read_timeouts as i64 })
            .push(DatapointField { name: "throttled_streams", value: self.throttled_streams as i64 })
            .push(DatapointField { name: "stream_load_ema", value: self.stream_load_ema as i64 })
            .push(DatapointField { name: "stream_load_ema_overflow", value: self.stream_load_ema_overflow as i64 })
            .push(DatapointField { name: "stream_load_capacity_overflow", value: self.stream_load_capacity_overflow as i64 })
            .push(DatapointField { name: "throttled_unstaked_streams", value: self.throttled_unstaked_streams as i64 })
            .push(DatapointField { name: "throttled_staked_streams", value: self.throttled_staked_streams as i64 })
    }

    /// Takes a snapshot under the name `name`: every counter and gauge with
    /// its reported name and current value, in a fixed order. The counters
    /// then start again from zero; the gauges keep their values.
    pub fn report(&mut self, name: &'static str) -> (point: Datapoint)
        ensures
            point.name == name,
            point.fields@ == old(self).reported(),
            *final(self) == old(self).after_report(),
    {
        let mut fields: Vec<DatapointField> = Vec::with_capacity(49);
        fields.push(DatapointField { name: "active_connections", value: self.total_connections as i64 });
        fields.push(DatapointField { name: "active_streams", value: self.total_streams as i64 });
        fields.push(DatapointField { name: "new_connections", value: self.total_new_connections as i64 });
        fields.push(DatapointField { name: "new_streams", value: self.total_new_streams as i64 });
        fields.push(DatapointField { name: "evictions", value: self.num_evictions as i64 });
        fields.push(DatapointField { name: "connection_added_from_staked_peer", value: self.connection_added_from_staked_peer as i64 });
        fields.push(DatapointField { name: "connection_added_from_unstaked_peer", value: self.connection_added_from_unstaked_peer as i64 });
        fields.push(DatapointField { name: "connection_add_failed", value: self.connection_add_failed as i64 });
        fields.push(DatapointField { name: "connection_add_failed_invalid_stream_count", value: self.connection_add_failed_invalid_stream_count as i64 });
        fields.push(DatapointField { name: "connection_add_failed_staked_node", value: self.connection_add_failed_staked_node as i64 });
        fields.push(DatapointField { name: "connection_add_failed_unstaked_node", value: self.connection_add_failed_unstaked_node as i64 });
        fields.push(DatapointField { name: "connection_add_failed_on_pruning", value: self.connection_add_failed_on_pruning as i64 });
        fields.push(DatapointField { name: "connection_removed", value: self.connection_removed as i64 });
        fields.push(DatapointField { name: "connection_remove_failed", value: self.connection_remove_failed as i64 });
        fields.push(DatapointField { name: "connection_setup_timeout", value: self.connection_setup_timeout as i64 });
        fields.push(DatapointField { name: "connection_setup_error", value: self.connection_setup_error as i64 });
        fields.push(DatapointField { name: "connection_setup_error_timed_out", value: self.connection_setup_error_timed_out as i64 });
        fields.push(DatapointField { name: "connection_setup_error_closed", value: self.connection_setup_error_closed as i64 });
        fields.push(DatapointField { name: "connection_setup_error_transport", value: self.connection_setup_error_transport as i64 });
        fields.push(DatapointField { name: "connection_setup_error_app_closed", value: self.connection_setup_error_app_closed as i64 });
        fields.push(DatapointField { name: "connection_setup_error_reset", value: self.connection_setup_error_reset as i64 });
        fields.push(DatapointField { name: "connection_setup_error_locally_closed", value: self.connection_setup_error_locally_closed as i64 });
        fields.push(DatapointField { name: "invalid_chunk", value: self.total_invalid_chunks as i64 });
        fields.push(DatapointField { name: "invalid_chunk_size", value: self.total_invalid_chunk_size as i64 });
        fields.push(DatapointField { name: "packets_allocated", value: self.total_packets_allocated as i64 });
        fields.push(DatapointField { name: "packet_batches_allocated", value: self.total_packet_batches_allocated as i64 });
        fields.push(DatapointField { name: "packets_sent_for_batching", value: self.total_packets_sent_for_batching as i64 });
        fields.push(DatapointField { name: "staked_packets_sent_for_batching", value: self.total_staked_packets_sent_for_batching as i64 });
        fields.push(DatapointField { name: "unstaked_packets_sent_for_batching", value: self.total_unstaked_packets_sent_for_batching as i64 });
        fields.push(DatapointField { name: "bytes_sent_for_batching", value: self.total_bytes_sent_for_batching as i64 });
        fields.push(DatapointField { name: "chunks_sent_for_batching", value: self.total_chunks_sent_for_batching as i64 });
        fields.push(DatapointField { name: "packets_sent_to_consumer", value: self.total_packets_sent_to_consumer as i64 });
        fields.push(DatapointField { name: "bytes_sent_to_consumer", value: self.total_bytes_sent_to_consumer as i64 });
        fields.push(DatapointField { name: "chunks_processed_by_batcher", value: self.total_chunks_processed_by_batcher as i64 });
        fields.push(DatapointField { name: "chunks_received", value: self.total_chunks_received as i64 });
        fields.push(DatapointField { name: "staked_chunks_received", value: self.total_staked_chunks_received as i64 });
        fields.push(DatapointField { name: "unstaked_chunks_received", value: self.total_unstaked_chunks_received as i64 });
        fields.push(DatapointField { name: "packet_batch_send_error", value: self.total_packet_batch_send_err as i64 });
        fields.push(DatapointField { name: "handle_chunk_to_packet_batcher_send_error", value: self.total_handle_chunk_to_packet_batcher_send_err as i64 });
        fields.push(DatapointField { name: "packet_batches_sent", value: self.total_packet_batches_sent as i64 });
        fields.push(DatapointField { name: "packet_batch_empty", value: self.total_packet_batches_none as i64 });
        fields.push(DatapointField { name: "stream_read_errors", value: self.total_stream_read_errors as i64 });
        fields.push(DatapointField { name: "stream_read_timeouts", value: self.total_stream_read_timeouts as i64 });
        fields.push(DatapointField { name: "throttled_streams", value: self.throttled_streams as i64 });
        fields.push(DatapointField { name: "stream_load_ema", value: self.stream_load_ema as i64 });
        fields.push(DatapointField { name: "stream_load_ema_overflow", value: self.stream_load_ema_overflow as i64 });
        fields.push(DatapointField { name: "stream_load_capacity_overflow", value: self.stream_load_capacity_overflow as i64 });
        fields.push(DatapointField { name: "throttled_unstaked_streams", value: self.throttled_unstaked_streams as i64 });
        fields.push(DatapointField { name: "throttled_staked_streams", value: self.throttled_staked_streams as i64 });
        let kept = StreamStats {
            total_connections: self.total_connections,
            total_streams: self.total_streams,
            stream_load_ema: self.stream_load_ema,
            stream_load_ema_overflow: self.stream_load_ema_overflow,
            stream_load_capacity_overflow: self.stream_load_capacity_overflow,
            ..StreamStats::new()
        };
        *self = kept;
        Datapoint { name, fields }
    }
}

impl Default for StreamStats {
    fn default() -> (stats: StreamStats)
        ensures
            stats == StreamStats::zero(),
    {
        StreamStats::new()
    }
}

} // verus!
