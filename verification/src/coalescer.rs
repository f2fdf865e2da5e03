//! Gathering reassembled packets into batches, and handing batches downstream.

use crate::assembler::{Packet, PACKET_DATA_SIZE};
use crate::stats::{bump, bumped, raise, raised, StreamStats};
use vstd::prelude::*;

verus! {

/// Default number of packets at which a batch is flushed.
pub const MAX_BATCH_PACKETS: usize = 64;

/// An ordered group of packets that goes downstream together.
#[derive(Debug)]
pub struct PacketBatch {
    packets: Vec<Packet>,
}

impl View for PacketBatch {
    type V = Seq<Packet>;

    closed spec fn view(&self) -> Seq<Packet> {
        self.packets@
    }
}

/// Every packet of the list is well formed.
pub open spec fn all_wf(packets: Seq<Packet>) -> bool {
    forall|i: int| 0 <= i < packets.len() ==> (#[trigger] packets[i]).wf()
}

/// Payload bytes of all packets of the list together.
pub open spec fn payload_bytes(packets: Seq<Packet>) -> nat
    decreases packets.len(),
{
    if packets.len() == 0 {
        0
    } else {
        payload_bytes(packets.drop_last()) + packets.last()@.len()
    }
}

/// A number as a counter step: itself, or the largest step where it is larger.
pub open spec fn clipped(n: nat) -> usize {
    if n <= usize::MAX {
        n as usize
    } else {
        usize::MAX
    }
}

impl PacketBatch {
    /// Number of packets.
    pub fn len(&self) -> (n: usize)
        ensures
            n == self@.len(),
    {
        self.packets.len()
    }

    /// Packet `i`, counted from zero in the order in which the packets were finished.
    pub fn get(&self, i: usize) -> (p: Packet)
        requires
            i < self@.len(),
        ensures
            p == self@[i as int],
    {
        self.packets[i]
    }

    /// The packets, in the order in which they were finished.
    pub fn into_packets(self) -> (packets: Vec<Packet>)
        ensures
            packets@ == self@,
    {
        self.packets
    }

    /// Payload bytes of all packets together, or the largest number where they are more.
    pub fn payload_len(&self) -> (n: usize)
        requires
            all_wf(self@),
        ensures
            n == clipped(payload_bytes(self@)),
    {
        let mut n: usize = 0;
        let mut i: usize = 0;
        while i < self.packets.len()
            invariant
                0 <= i <= self.packets.len(),
                all_wf(self.packets@),
                n == clipped(payload_bytes(self.packets@.take(i as int))),
            decreases self.packets.len() - i,
        {
            proof {
                assert(self.packets@.take(i + 1).drop_last() =~= self.packets@.take(i as int));
                self.packets@[i as int].lemma_len();
            }
            n = raise(n, self.packets[i].len());
            i = i + 1;
        }
        proof {
            assert(self.packets@.take(i as int) =~= self.packets@);
        }
        n
    }
}

/// What a `BatchCoalescer` stands for.
pub struct CoalescerView {
    /// The packets of the batch in the making, in the order in which they came.
    pub pending: Seq<Packet>,
    /// Clock reading when the first of them came.
    pub first_packet_ms: u64,
    /// Number of packets at which a batch is flushed.
    pub max_packets: usize,
    /// Longest time that a packet waits in a batch, in milliseconds.
    pub coalesce_ms: u64,
}

impl CoalescerView {
    /// The packets that wait are well formed and fewer than the size limit.
    pub open spec fn wf(self) -> bool {
        &&& self.pending.len() == 0 || self.pending.len() < self.max_packets
        &&& all_wf(self.pending)
    }

    /// The batch in the making is to be flushed at `now_ms`: it holds a
    /// packet, and it has reached the size limit or its first packet has
    /// waited for the coalesce time.
    pub open spec fn due(self, now_ms: u64) -> bool {
        &&& self.pending.len() > 0
        &&& (self.pending.len() >= self.max_packets || now_ms >= self.first_packet_ms
            + self.coalesce_ms)
    }

    /// With `packet`, which came at `now_ms`, behind the packets that wait.
    pub open spec fn with_packet(self, packet: Packet, now_ms: u64) -> CoalescerView {
        CoalescerView {
            pending: self.pending.push(packet),
            first_packet_ms: if self.pending.len() == 0 {
                now_ms
            } else {
                self.first_packet_ms
            },
            ..self
        }
    }

    /// With no packet waiting.
    pub open spec fn emptied(self) -> CoalescerView {
        CoalescerView { pending: Seq::empty(), ..self }
    }

    /// What is flushed at `now_ms`: all that waits where a flush is due, nothing otherwise.
    pub open spec fn flushed_at(self, now_ms: u64) -> Option<Seq<Packet>> {
        if self.due(now_ms) {
            Some(self.pending)
        } else {
            None
        }
    }

    /// The state after a check at `now_ms`.
    pub open spec fn after_check(self, now_ms: u64) -> CoalescerView {
        if self.due(now_ms) {
            self.emptied()
        } else {
            self
        }
    }

    /// What is flushed at shutdown: all that waits, if anything does.
    pub open spec fn flushed_at_shutdown(self) -> Option<Seq<Packet>> {
        if self.pending.len() > 0 {
            Some(self.pending)
        } else {
            None
        }
    }
}

/// Gathers packets into batches. There is one for the whole server.
pub struct BatchCoalescer {
    current: Vec<Packet>,
    first_packet_ms: u64,
    max_packets: usize,
    coalesce_ms: u64,
}

impl View for BatchCoalescer {
    type V = CoalescerView;

    closed spec fn view(&self) -> CoalescerView {
        CoalescerView {
            pending: self.current@,
            first_packet_ms: self.first_packet_ms,
            max_packets: self.max_packets,
            coalesce_ms: self.coalesce_ms,
        }
    }
}

impl BatchCoalescer {
    /// The packets that wait are well formed and fewer than the size limit.
    pub open spec fn wf(&self) -> bool {
        self@.wf()
    }

    /// A coalescer with nothing waiting, which flushes a batch when it holds
    /// `max_packets` packets or its first packet has waited `coalesce_ms`.
    pub fn new(max_packets: usize, coalesce_ms: u64) -> (c: BatchCoalescer)
        ensures
            c.wf(),
            c@ == (CoalescerView {
                pending: Seq::empty(),
                first_packet_ms: 0,
                max_packets,
                coalesce_ms,
            }),
    {
        BatchCoalescer { current: Vec::new(), first_packet_ms: 0, max_packets, coalesce_ms }
    }

    /// Number of packets that wait in the batch in the making.
    pub fn pending_len(&self) -> (n: usize)
        ensures
            n == self@.pending.len(),
    {
        self.current.len()
    }

    fn is_due(&self, now_ms: u64) -> (d: bool)
        ensures
            d == self@.due(now_ms),
    {
        self.current.len() > 0 && (self.current.len() >= self.max_packets || (now_ms
            >= self.first_packet_ms && now_ms - self.first_packet_ms >= self.coalesce_ms))
    }

    fn flush(&mut self) -> (batch: PacketBatch)
        ensures
            batch@ == old(self)@.pending,
            final(self)@ == old(self)@.emptied(),
    {
        let mut packets: Vec<Packet> = Vec::new();
        std::mem::swap(&mut self.current, &mut packets);
        PacketBatch { packets }
    }

    /// Takes in a packet that was finished at `now_ms` and that `chunks`
    /// chunks had brought; the chunks are counted as processed. The packet goes
    /// behind the packets that wait; where it is the first, a batch is begun
    /// and counted in `total_packet_batches_allocated`. The batch is flushed,
    /// and handed back, where it has now reached the size limit or its first
    /// packet has waited for the coalesce time.
    pub fn push(&mut self, packet: Packet, chunks: usize, now_ms: u64, stats: &mut StreamStats) -> (batch:
        Option<PacketBatch>)
        requires
            old(self).wf(),
            packet.wf(),
        ensures
            final(self).wf(),
            final(self)@ == old(self)@.with_packet(packet, now_ms).after_check(now_ms),
            match batch {
                Some(b) => Some(b@) == old(self)@.with_packet(packet, now_ms).flushed_at(now_ms),
                None => old(self)@.with_packet(packet, now_ms).flushed_at(now_ms) is None,
            },
            batch matches Some(b) ==> all_wf(b@) && b@.len() > 0,
            *final(stats) == (StreamStats {
                total_packet_batches_allocated: if old(self)@.pending.len() == 0 {
                    bumped(old(stats).total_packet_batches_allocated)
                } else {
                    old(stats).total_packet_batches_allocated
                },
                total_chunks_processed_by_batcher: raised(
                    old(stats).total_chunks_processed_by_batcher,
                    chunks,
                ),
                ..*old(stats)
            }),
    {
        stats.total_chunks_processed_by_batcher = raise(
            stats.total_chunks_processed_by_batcher,
            chunks,
        );
        if self.current.len() == 0 {
            self.first_packet_ms = now_ms;
            stats.total_packet_batches_allocated = bump(stats.total_packet_batches_allocated);
        }
        self.current.push(packet);
        if self.is_due(now_ms) {
            Some(self.flush())
        } else {
            None
        }
    }

    /// Looks at the clock: the batch in the making is flushed, and handed
    /// back, where its first packet has waited for the coalesce time.
    pub fn on_tick(&mut self, now_ms: u64) -> (batch: Option<PacketBatch>)
        requires
            old(self).wf(),
        ensures
            final(self).wf(),
            final(self)@ == old(self)@.after_check(now_ms),
            match batch {
                Some(b) => Some(b@) == old(self)@.flushed_at(now_ms),
                None => old(self)@.flushed_at(now_ms) is None,
            },
            batch matches Some(b) ==> all_wf(b@) && b@.len() > 0,
    {
        if self.is_due(now_ms) {
            Some(self.flush())
        } else {
            None
        }
    }

    /// Flushes what waits, because the server shuts down.
    pub fn on_shutdown(&mut self) -> (batch: Option<PacketBatch>)
        requires
            old(self).wf(),
        ensures
            final(self).wf(),
            final(self)@ == old(self)@.emptied(),
            match batch {
                Some(b) => Some(b@) == old(self)@.flushed_at_shutdown(),
                None => old(self)@.flushed_at_shutdown() is None,
            },
            batch matches Some(b) ==> all_wf(b@) && b@.len() > 0,
    {
        if self.current.len() > 0 {
            Some(self.flush())
        } else {
            proof {
                assert(self@.pending =~= Seq::<Packet>::empty());
            }
            None
        }
    }
}

/// How an attempt to hand a batch downstream ended.
#[derive(Clone, Copy, Debug, PartialEq, Eq, Structural)]
pub enum SendOutcome {
    /// The channel took the batch.
    Sent,
    /// The channel was full; the batch is dropped.
    Full,
    /// Nobody receives any more; the batch is dropped.
    Disconnected,
}

/// The counters after an attempt to hand on a batch of `packets` packets with
/// `bytes` payload bytes: a batch that was taken is counted with its packets
/// and bytes, a dropped one as a send error.
pub open spec fn stats_after_send(stats: StreamStats, outcome: SendOutcome, packets: usize, bytes: usize) -> StreamStats {
    match outcome {
        SendOutcome::Sent => StreamStats {
            total_packet_batches_sent: bumped(stats.total_packet_batches_sent),
            total_packets_sent_to_consumer: raised(stats.total_packets_sent_to_consumer, packets),
            total_bytes_sent_to_consumer: raised(stats.total_bytes_sent_to_consumer, bytes),
            ..stats
        },
        _ => StreamStats {
            total_packet_batch_send_err: bumped(stats.total_packet_batch_send_err),
            ..stats
        },
    }
}

/// Counts the end of one attempt to hand a batch downstream.
pub fn record_send(stats: &mut StreamStats, outcome: SendOutcome, packets: usize, bytes: usize)
    ensures
        *final(stats) == stats_after_send(*old(stats), outcome, packets, bytes),
{
    match outcome {
        SendOutcome::Sent => {
            stats.total_packet_batches_sent = bump(stats.total_packet_batches_sent);
            stats.total_packets_sent_to_consumer = raise(
                stats.total_packets_sent_to_consumer,
                packets,
            );
            stats.total_bytes_sent_to_consumer = raise(stats.total_bytes_sent_to_consumer, bytes);
        },
        _ => {
            stats.total_packet_batch_send_err = bump(stats.total_packet_batch_send_err);
        },
    }
}

/// `crossbeam_channel::Sender`, the sending half of a channel. Nothing is
/// read in it.
#[verifier::external_type_specification]
#[verifier::external_body]
#[verifier::reject_recursive_types(T)]
pub struct ExSender<T>(crossbeam_channel::Sender<T>);

/// Calls `crossbeam_channel::Sender::try_send`, which never blocks: it puts
/// the batch into the channel, or gives it back because the channel is full
/// or has no receiver left. Which of the three happens depends on what other
/// threads do with the channel, so nothing is claimed of the result.
#[verifier::external_body]
fn try_send(sender: &crossbeam_channel::Sender<PacketBatch>, batch: PacketBatch) -> (outcome:
    SendOutcome) {
    match sender.try_send(batch) {
        Ok(()) => SendOutcome::Sent,
        Err(crossbeam_channel::TrySendError::Full(_)) => SendOutcome::Full,
        Err(crossbeam_channel::TrySendError::Disconnected(_)) => SendOutcome::Disconnected,
    }
}

/// Offers a flushed batch to the downstream channel without waiting, and
/// counts how that ended. A batch that the channel does not take is dropped.
pub fn send_batch(
    sender: &crossbeam_channel::Sender<PacketBatch>,
    batch: PacketBatch,
    stats: &mut StreamStats,
) -> (outcome: SendOutcome)
    requires
        all_wf(batch@),
    ensures
        *final(stats) == stats_after_send(
            *old(stats),
            outcome,
            batch@.len() as usize,
            clipped(payload_bytes(batch@)),
        ),
{
    let packets = batch.len();
    let bytes = batch.payload_len();
    let outcome = try_send(sender, batch);
    record_send(stats, outcome, packets, bytes);
    outcome
}

/// Well-formed packets together carry no more bytes than as many full packets.
pub proof fn lemma_payload_bounded(packets: Seq<Packet>)
    requires
        all_wf(packets),
    ensures
        payload_bytes(packets) <= packets.len() * PACKET_DATA_SIZE,
    decreases packets.len(),
{
    if packets.len() > 0 {
        lemma_payload_bounded(packets.drop_last());
        packets.last().lemma_len();
        assert((packets.len() - 1) * PACKET_DATA_SIZE + PACKET_DATA_SIZE == packets.len()
            * PACKET_DATA_SIZE) by (nonlinear_arith);
    }
}

/// What can happen to a coalescer.
pub enum CoalescerInput {
    /// A packet was finished at `now_ms`.
    Packet { packet: Packet, now_ms: u64 },
    /// The clock was looked at, at `now_ms`.
    Tick { now_ms: u64 },
    /// The server shuts down.
    Shutdown,
}

/// The coalescer after one input.
pub open spec fn after_input(v: CoalescerView, input: CoalescerInput) -> CoalescerView {
    match input {
        CoalescerInput::Packet { packet, now_ms } => v.with_packet(packet, now_ms).after_check(
            now_ms,
        ),
        CoalescerInput::Tick { now_ms } => v.after_check(now_ms),
        CoalescerInput::Shutdown => v.emptied(),
    }
}

/// The packets that one input makes the coalescer flush, in order.
pub open spec fn flushed_by(v: CoalescerView, input: CoalescerInput) -> Seq<Packet> {
    let batch = match input {
        CoalescerInput::Packet { packet, now_ms } => v.with_packet(packet, now_ms).flushed_at(
            now_ms,
        ),
        CoalescerInput::Tick { now_ms } => v.flushed_at(now_ms),
        CoalescerInput::Shutdown => v.flushed_at_shutdown(),
    };
    match batch {
        Some(packets) => packets,
        None => Seq::empty(),
    }
}

/// The coalescer after a run of inputs, oldest first.
pub open spec fn after_inputs(v: CoalescerView, inputs: Seq<CoalescerInput>) -> CoalescerView
    decreases inputs.len(),
{
    if inputs.len() == 0 {
        v
    } else {
        after_input(after_inputs(v, inputs.drop_last()), inputs.last())
    }
}

/// The packets of all batches that a run of inputs makes the coalescer
/// flush, batch after batch.
pub open spec fn emitted(v: CoalescerView, inputs: Seq<CoalescerInput>) -> Seq<Packet>
    decreases inputs.len(),
{
    if inputs.len() == 0 {
        Seq::empty()
    } else {
        emitted(v, inputs.drop_last()) + flushed_by(
            after_inputs(v, inputs.drop_last()),
            inputs.last(),
        )
    }
}

/// The packets that a run of inputs brings, in order.
pub open spec fn offered(inputs: Seq<CoalescerInput>) -> Seq<Packet>
    decreases inputs.len(),
{
    if inputs.len() == 0 {
        Seq::empty()
    } else {
        match inputs.last() {
            CoalescerInput::Packet { packet, .. } => offered(inputs.drop_last()).push(packet),
            _ => offered(inputs.drop_last()),
        }
    }
}

/// No packet is lost, doubled or reordered in the coalescer: whatever
/// happens, the packets flushed so far followed by those that wait are the
/// packets that waited at first followed by those that came, in their order.
/// Once the server has shut down nothing waits, so all of them were flushed.
pub proof fn lemma_packets_conserved(v: CoalescerView, inputs: Seq<CoalescerInput>)
    ensures
        emitted(v, inputs) + after_inputs(v, inputs).pending == v.pending + offered(inputs),
        inputs.len() > 0 && inputs.last() is Shutdown ==> emitted(v, inputs) == v.pending + offered(
            inputs,
        ),
        emitted(v, inputs).len() + after_inputs(v, inputs).pending.len() == v.pending.len()
            + offered(inputs).len(),
    decreases inputs.len(),
{
    if inputs.len() == 0 {
        assert(Seq::<Packet>::empty() + v.pending =~= v.pending + Seq::<Packet>::empty());
    } else {
        let front = inputs.drop_last();
        lemma_packets_conserved(v, front);
        let before = after_inputs(v, front);
        let out = emitted(v, front);
        assert(out + before.pending == v.pending + offered(front));
        match inputs.last() {
            CoalescerInput::Packet { packet, now_ms } => {
                let with = before.with_packet(packet, now_ms);
                assert((out + before.pending).push(packet) =~= out + with.pending);
                assert((v.pending + offered(front)).push(packet) =~= v.pending + offered(inputs));
                if with.due(now_ms) {
                    assert((out + with.pending) + Seq::<Packet>::empty() =~= out + with.pending);
                } else {
                    assert(out + Seq::<Packet>::empty() =~= out);
                }
            },
            CoalescerInput::Tick { now_ms } => {
                if before.due(now_ms) {
                    assert((out + before.pending) + Seq::<Packet>::empty() =~= out
                        + before.pending);
                } else {
                    assert(out + Seq::<Packet>::empty() =~= out);
                }
            },
            CoalescerInput::Shutdown => {
                if before.pending.len() > 0 {
                    assert((out + before.pending) + Seq::<Packet>::empty() =~= out
                        + before.pending);
                } else {
                    assert(out + Seq::<Packet>::empty() =~= out);
                    assert(out + before.pending =~= out);
                }
                assert(emitted(v, inputs) + Seq::<Packet>::empty() =~= emitted(v, inputs));
            },
        }
    }
}

/// A well-formed coalescer stays well formed whatever happens, and every
/// batch that it flushes holds at least one packet and no more than the size
/// limit, or one packet where the limit is zero.
pub proof fn lemma_batches_bounded(v: CoalescerView, input: CoalescerInput)
    requires
        v.wf(),
        input matches CoalescerInput::Packet { packet, .. } ==> packet.wf(),
    ensures
        after_input(v, input).wf(),
        all_wf(flushed_by(v, input)),
        flushed_by(v, input).len() <= v.max_packets || flushed_by(v, input).len() == 1,
{
    match input {
        CoalescerInput::Packet { packet, now_ms } => {
            let with = v.with_packet(packet, now_ms);
            assert forall|i: int| 0 <= i < with.pending.len() implies (
            #[trigger] with.pending[i]).wf() by {
                if i < v.pending.len() {
                    assert(with.pending[i] == v.pending[i]);
                }
            }
        },
        _ => {},
    }
}

} // verus!
