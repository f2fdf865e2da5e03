//! Reassembly of one packet from the chunks of one unidirectional stream.

use crate::peer::SocketAddress;
use crate::stats::{bump, bumped, StreamStats};
use vstd::prelude::*;

verus! {

/// Largest number of payload bytes that one packet carries.
pub const PACKET_DATA_SIZE: usize = 1232;

/// Why a stream was given up.
#[derive(Clone, Copy, Debug, PartialEq, Eq, Structural)]
pub enum ChunkError {
    /// A chunk did not begin where the bytes seen so far end.
    InvalidChunk,
    /// A chunk would have reached beyond the packet's size.
    InvalidChunkSize,
    /// No chunk arrived within the time allowed for one.
    Timeout,
    /// The transport reported an error while reading.
    ReadError,
}

/// Where the reassembly of a stream stands.
#[derive(Clone, Copy, Debug, PartialEq, Eq, Structural)]
pub enum AssemblerState {
    /// Chunks are being read; `bytes_seen` bytes are in place.
    Reading { bytes_seen: usize },
    /// The stream ended after `len` bytes; the packet waits to be handed on.
    Finished { len: usize },
    /// The packet was handed on.
    Delivered,
    /// The stream was given up and its bytes dropped.
    Failed { kind: ChunkError },
}

/// What travels with the bytes of a packet.
#[derive(Clone, Copy, Debug, PartialEq, Eq)]
pub struct PacketMeta {
    /// Number of valid bytes at the start of the buffer.
    pub size: usize,
    /// Where the bytes came from.
    pub source: SocketAddress,
    /// Clock reading when the packet was complete.
    pub received_ms: u64,
    /// Whether the sender is a staked peer.
    pub staked: bool,
}

/// One reassembled packet: a buffer of fixed size, of which the first
/// `meta.size` bytes are the payload.
#[derive(Clone, Copy, Debug)]
pub struct Packet {
    buffer: [u8; PACKET_DATA_SIZE],
    meta: PacketMeta,
}

impl View for Packet {
    type V = Seq<u8>;

    /// The payload.
    closed spec fn view(&self) -> Seq<u8> {
        self.buffer@.take(self.meta.size as int)
    }
}

impl Packet {
    /// What travels with the payload.
    pub closed spec fn meta_spec(&self) -> PacketMeta {
        self.meta
    }

    /// The payload fits in the buffer.
    pub closed spec fn wf(&self) -> bool {
        self.meta.size <= PACKET_DATA_SIZE
    }

    /// A well-formed packet holds as many payload bytes as its size says, and no more than fit.
    pub proof fn lemma_len(&self)
        requires
            self.wf(),
        ensures
            self@.len() == self.meta_spec().size <= PACKET_DATA_SIZE,
    {
    }

    /// What travels with the payload.
    #[verifier::when_used_as_spec(meta_spec)]
    pub fn meta(&self) -> (m: PacketMeta)
        ensures
            m == self.meta_spec(),
    {
        self.meta
    }

    /// Number of payload bytes.
    pub fn len(&self) -> (n: usize)
        ensures
            n == self.meta_spec().size,
    {
        self.meta.size
    }

    /// The whole buffer, of which only the first `len()` bytes are payload.
    pub fn buffer(&self) -> (b: &[u8; PACKET_DATA_SIZE])
        ensures
            self.wf() ==> b@.take(self.meta_spec().size as int) == self@,
    {
        &self.buffer
    }

    /// A copy of the payload.
    pub fn data(&self) -> (bytes: Vec<u8>)
        requires
            self.wf(),
        ensures
            bytes@ == self@,
    {
        let mut bytes: Vec<u8> = Vec::with_capacity(self.meta.size);
        let mut i: usize = 0;
        while i < self.meta.size
            invariant
                self.meta.size <= PACKET_DATA_SIZE,
                0 <= i <= self.meta.size,
                bytes@ == self.buffer@.take(i as int),
            decreases self.meta.size - i,
        {
            bytes.push(self.buffer[i]);
            proof {
                assert(self.buffer@.take(i + 1) =~= self.buffer@.take(i as int).push(
                    self.buffer@[i as int],
                ));
            }
            i = i + 1;
        }
        bytes
    }
}

/// What a `ChunkAssembler` stands for.
pub struct AssemblerView {
    pub state: AssemblerState,
    /// The bytes in place, in stream order; none once the packet was handed on
    /// or the stream given up.
    pub bytes: Seq<u8>,
    /// Chunks that brought those bytes, counted up to the largest number.
    pub chunks: usize,
}

impl AssemblerView {
    /// Before the first chunk.
    pub open spec fn fresh() -> AssemblerView {
        AssemblerView {
            state: AssemblerState::Reading { bytes_seen: 0 },
            bytes: Seq::empty(),
            chunks: 0,
        }
    }

    /// The state and the bytes in place agree, and the bytes fit in one
    /// packet.
    pub open spec fn wf(self) -> bool {
        match self.state {
            AssemblerState::Reading { bytes_seen } => bytes_seen == self.bytes.len()
                && bytes_seen <= PACKET_DATA_SIZE,
            AssemblerState::Finished { len } => len == self.bytes.len() && 0 < len
                <= PACKET_DATA_SIZE,
            AssemblerState::Delivered => self.bytes.len() == 0 && self.chunks == 0,
            AssemblerState::Failed { .. } => self.bytes.len() == 0 && self.chunks == 0,
        }
    }

    /// The state of a stream given up for `kind`.
    pub open spec fn failed(kind: ChunkError) -> AssemblerView {
        AssemblerView { state: AssemblerState::Failed { kind }, bytes: Seq::empty(), chunks: 0 }
    }

    /// After a chunk `data` arrived for stream offset `offset`.
    pub open spec fn after_chunk(self, offset: u64, data: Seq<u8>) -> AssemblerView {
        match self.state {
            AssemblerState::Reading { bytes_seen } => {
                if offset != bytes_seen {
                    AssemblerView::failed(ChunkError::InvalidChunk)
                } else if offset + data.len() > PACKET_DATA_SIZE {
                    AssemblerView::failed(ChunkError::InvalidChunkSize)
                } else {
                    AssemblerView {
                        state: AssemblerState::Reading {
                            bytes_seen: (bytes_seen + data.len()) as usize,
                        },
                        bytes: self.bytes + data,
                        chunks: bumped(self.chunks),
                    }
                }
            },
            _ => self,
        }
    }

    /// After the stream ended.
    pub open spec fn after_end(self) -> AssemblerView {
        match self.state {
            AssemblerState::Reading { bytes_seen } if bytes_seen > 0 => AssemblerView {
                state: AssemblerState::Finished { len: bytes_seen },
                ..self
            },
            _ => self,
        }
    }

    /// After a read gave up with `kind`, a timeout or a transport error.
    pub open spec fn after_failure(self, kind: ChunkError) -> AssemblerView {
        match self.state {
            AssemblerState::Reading { .. } => AssemblerView::failed(kind),
            _ => self,
        }
    }

    /// After the finished packet was handed on.
    pub open spec fn after_delivery(self) -> AssemblerView {
        match self.state {
            AssemblerState::Finished { .. } => AssemblerView {
                state: AssemblerState::Delivered,
                bytes: Seq::empty(),
                chunks: 0,
            },
            _ => self,
        }
    }
}

/// The counters after a chunk came to an assembler that went from `before` to `after`.
pub open spec fn stats_after_chunk(
    stats: StreamStats,
    before: AssemblerView,
    after: AssemblerView,
    staked: bool,
) -> StreamStats {
    if !(before.state is Reading) {
        stats
    } else {
        StreamStats {
            total_chunks_received: bumped(stats.total_chunks_received),
            total_staked_chunks_received: if staked {
                bumped(stats.total_staked_chunks_received)
            } else {
                stats.total_staked_chunks_received
            },
            total_unstaked_chunks_received: if staked {
                stats.total_unstaked_chunks_received
            } else {
                bumped(stats.total_unstaked_chunks_received)
            },
            total_invalid_chunks: if after.state == (AssemblerState::Failed {
                kind: ChunkError::InvalidChunk,
            }) {
                bumped(stats.total_invalid_chunks)
            } else {
                stats.total_invalid_chunks
            },
            total_invalid_chunk_size: if after.state == (AssemblerState::Failed {
                kind: ChunkError::InvalidChunkSize,
            }) {
                bumped(stats.total_invalid_chunk_size)
            } else {
                stats.total_invalid_chunk_size
            },
            ..stats
        }
    }
}

/// The counters after a read gave up with `kind` on an assembler in state `before`.
pub open spec fn stats_after_failure(stats: StreamStats, before: AssemblerView, kind: ChunkError) -> StreamStats {
    if !(before.state is Reading) {
        stats
    } else {
        match kind {
            ChunkError::InvalidChunk => StreamStats {
                total_invalid_chunks: bumped(stats.total_invalid_chunks),
                ..stats
            },
            ChunkError::InvalidChunkSize => StreamStats {
                total_invalid_chunk_size: bumped(stats.total_invalid_chunk_size),
                ..stats
            },
            ChunkError::Timeout => StreamStats {
                total_stream_read_timeouts: bumped(stats.total_stream_read_timeouts),
                ..stats
            },
            ChunkError::ReadError => StreamStats {
                total_stream_read_errors: bumped(stats.total_stream_read_errors),
                ..stats
            },
        }
    }
}

/// Reads the chunks of one stream into one packet buffer.
pub struct ChunkAssembler {
    buffer: [u8; PACKET_DATA_SIZE],
    state: AssemblerState,
    chunks: usize,
    source: SocketAddress,
    staked: bool,
}

impl View for ChunkAssembler {
    type V = AssemblerView;

    closed spec fn view(&self) -> AssemblerView {
        AssemblerView {
            state: self.state,
            bytes: match self.state {
                AssemblerState::Reading { bytes_seen } => self.buffer@.take(bytes_seen as int),
                AssemblerState::Finished { len } => self.buffer@.take(len as int),
                _ => Seq::empty(),
            },
            chunks: match self.state {
                AssemblerState::Reading { .. } => self.chunks,
                AssemblerState::Finished { .. } => self.chunks,
                _ => 0,
            },
        }
    }
}

impl ChunkAssembler {
    /// Where the stream comes from.
    pub closed spec fn source_spec(&self) -> SocketAddress {
        self.source
    }

    /// Whether the stream comes from a staked peer.
    pub closed spec fn staked_spec(&self) -> bool {
        self.staked
    }

    /// The state and the bytes in place agree, and the bytes fit in one
    /// packet.
    pub open spec fn wf(&self) -> bool {
        self@.wf()
    }

    /// The packet that a finished assembler hands on at `now_ms`.
    pub closed spec fn packet_spec(&self, now_ms: u64) -> Packet {
        Packet {
            buffer: self.buffer,
            meta: PacketMeta {
                size: self@.bytes.len() as usize,
                source: self.source,
                received_ms: now_ms,
                staked: self.staked,
            },
        }
    }

    /// The packet of a finished assembler carries the bytes in place, and
    /// says where they came from and when they were complete.
    pub proof fn lemma_packet_spec(&self, now_ms: u64)
        requires
            self.wf(),
            self@.state is Finished,
        ensures
            self.packet_spec(now_ms).wf(),
            self.packet_spec(now_ms)@ == self@.bytes,
            self.packet_spec(now_ms).meta_spec() == (PacketMeta {
                size: self@.bytes.len() as usize,
                source: self.source_spec(),
                received_ms: now_ms,
                staked: self.staked_spec(),
            }),
    {
    }

    /// An assembler for a stream of the connection from `source`, with its
    /// buffer allocated and counted in `total_packets_allocated`.
    pub fn new(source: SocketAddress, staked: bool, stats: &mut StreamStats) -> (a: ChunkAssembler)
        ensures
            a.wf(),
            a@ == AssemblerView::fresh(),
            a.source_spec() == source,
            a.staked_spec() == staked,
            *final(stats) == (StreamStats {
                total_packets_allocated: bumped(old(stats).total_packets_allocated),
                ..*old(stats)
            }),
    {
        stats.total_packets_allocated = bump(stats.total_packets_allocated);
        let a = ChunkAssembler {
            buffer: [0u8; PACKET_DATA_SIZE],
            state: AssemblerState::Reading { bytes_seen: 0 },
            chunks: 0,
            source,
            staked,
        };
        proof {
            assert(a@.bytes =~= Seq::<u8>::empty());
        }
        a
    }

    /// Where the reassembly stands.
    pub fn state(&self) -> (s: AssemblerState)
        ensures
            s == self@.state,
    {
        self.state
    }

    /// Chunks that brought the bytes in place.
    pub fn chunks(&self) -> (n: usize)
        ensures
            n == self@.chunks,
    {
        match self.state {
            AssemblerState::Reading { .. } => self.chunks,
            AssemblerState::Finished { .. } => self.chunks,
            _ => 0,
        }
    }

    /// Takes in the chunk `data` that the transport delivered for stream
    /// offset `offset`. While reading: a chunk that does not begin where the
    /// bytes seen so far end fails the stream as an invalid chunk; one that
    /// would reach beyond the packet's size fails it as an invalid chunk size;
    /// any other is copied behind the bytes in place. In every other state the
    /// chunk is ignored.
    pub fn on_chunk(&mut self, offset: u64, data: &[u8], stats: &mut StreamStats)
        requires
            old(self).wf(),
        ensures
            final(self).wf(),
            final(self)@ == old(self)@.after_chunk(offset, data@),
            final(self).source_spec() == old(self).source_spec(),
            final(self).staked_spec() == old(self).staked_spec(),
            *final(stats) == stats_after_chunk(
                *old(stats),
                old(self)@,
                final(self)@,
                old(self).staked_spec(),
            ),
    {
        match self.state {
            AssemblerState::Reading { bytes_seen } => {
                stats.total_chunks_received = bump(stats.total_chunks_received);
                if self.staked {
                    stats.total_staked_chunks_received = bump(stats.total_staked_chunks_received);
                } else {
                    stats.total_unstaked_chunks_received = bump(
                        stats.total_unstaked_chunks_received,
                    );
                }
                if offset != bytes_seen as u64 {
                    self.state = AssemblerState::Failed { kind: ChunkError::InvalidChunk };
                    stats.total_invalid_chunks = bump(stats.total_invalid_chunks);
                } else if data.len() > PACKET_DATA_SIZE - bytes_seen {
                    self.state = AssemblerState::Failed { kind: ChunkError::InvalidChunkSize };
                    stats.total_invalid_chunk_size = bump(stats.total_invalid_chunk_size);
                } else {
                    let ghost before = self.buffer@;
                    let mut i: usize = 0;
                    while i < data.len()
                        invariant
                            bytes_seen + data.len() <= PACKET_DATA_SIZE,
                            0 <= i <= data.len(),
                            self.source == old(self).source,
                            self.staked == old(self).staked,
                            self.chunks == old(self).chunks,
                            self.buffer@.take(bytes_seen as int) == before.take(bytes_seen as int),
                            forall|k: int| 0 <= k < i ==> self.buffer@[bytes_seen + k] == data@[k],
                        decreases data.len() - i,
                    {
                        let ghost prev = self.buffer@;
                        self.buffer[bytes_seen + i] = data[i];
                        proof {
                            assert(self.buffer@.take(bytes_seen as int) =~= prev.take(
                                bytes_seen as int,
                            ));
                        }
                        i = i + 1;
                    }
                    self.state = AssemblerState::Reading { bytes_seen: bytes_seen + data.len() };
                    self.chunks = bump(self.chunks);
                    proof {
                        assert(self.buffer@.take(bytes_seen + data.len()) =~= before.take(
                            bytes_seen as int,
                        ) + data@);
                    }
                }
            },
            _ => {},
        }
    }

    /// Notes that the stream ended. Where bytes are in place the packet is
    /// finished, and `true` is returned; a stream that ended before its first
    /// byte, or an assembler that is not reading, stays as it is.
    pub fn on_stream_end(&mut self) -> (finished: bool)
        requires
            old(self).wf(),
        ensures
            final(self).wf(),
            final(self)@ == old(self)@.after_end(),
            final(self).source_spec() == old(self).source_spec(),
            final(self).staked_spec() == old(self).staked_spec(),
            finished == (old(self)@.state is Reading && final(self)@.state is Finished),
    {
        match self.state {
            AssemblerState::Reading { bytes_seen } => {
                if bytes_seen > 0 {
                    self.state = AssemblerState::Finished { len: bytes_seen };
                    true
                } else {
                    false
                }
            },
            _ => false,
        }
    }

    /// Notes that a read gave up, by a timeout or a transport error: a
    /// reading assembler fails with `kind`, drops its bytes and counts the
    /// failure; any other stays as it is.
    pub fn on_failure(&mut self, kind: ChunkError, stats: &mut StreamStats)
        requires
            old(self).wf(),
        ensures
            final(self).wf(),
            final(self)@ == old(self)@.after_failure(kind),
            final(self).source_spec() == old(self).source_spec(),
            final(self).staked_spec() == old(self).staked_spec(),
            *final(stats) == stats_after_failure(*old(stats), old(self)@, kind),
    {
        match self.state {
            AssemblerState::Reading { .. } => {
                self.state = AssemblerState::Failed { kind };
                match kind {
                    ChunkError::InvalidChunk => {
                        stats.total_invalid_chunks = bump(stats.total_invalid_chunks);
                    },
                    ChunkError::InvalidChunkSize => {
                        stats.total_invalid_chunk_size = bump(stats.total_invalid_chunk_size);
                    },
                    ChunkError::Timeout => {
                        stats.total_stream_read_timeouts = bump(stats.total_stream_read_timeouts);
                    },
                    ChunkError::ReadError => {
                        stats.total_stream_read_errors = bump(stats.total_stream_read_errors);
                    },
                }
            },
            _ => {},
        }
    }

    /// Notes that no chunk arrived within the time allowed for one.
    pub fn on_timeout(&mut self, stats: &mut StreamStats)
        requires
            old(self).wf(),
        ensures
            final(self).wf(),
            final(self)@ == old(self)@.after_failure(ChunkError::Timeout),
            *final(stats) == stats_after_failure(*old(stats), old(self)@, ChunkError::Timeout),
    {
        self.on_failure(ChunkError::Timeout, stats)
    }

    /// Notes that the transport reported an error while reading.
    pub fn on_read_error(&mut self, stats: &mut StreamStats)
        requires
            old(self).wf(),
        ensures
            final(self).wf(),
            final(self)@ == old(self)@.after_failure(ChunkError::ReadError),
            *final(stats) == stats_after_failure(*old(stats), old(self)@, ChunkError::ReadError),
    {
        self.on_failure(ChunkError::ReadError, stats)
    }

    /// Hands on the finished packet, stamped with the clock reading `now_ms`.
    /// Only a finished assembler has one to hand on; it is then delivered.
    pub fn take_packet(&mut self, now_ms: u64) -> (packet: Option<Packet>)
        requires
            old(self).wf(),
        ensures
            final(self).wf(),
            final(self)@ == old(self)@.after_delivery(),
            packet == if old(self)@.state is Finished {
                Some(old(self).packet_spec(now_ms))
            } else {
                None
            },
            packet matches Some(p) ==> {
                &&& p.wf()
                &&& p@ == old(self)@.bytes
                &&& p.meta_spec() == (PacketMeta {
                    size: old(self)@.bytes.len() as usize,
                    source: old(self).source_spec(),
                    received_ms: now_ms,
                    staked: old(self).staked_spec(),
                })
            },
    {
        match self.state {
            AssemblerState::Finished { len } => {
                self.state = AssemblerState::Delivered;
                Some(
                    Packet {
                        buffer: self.buffer,
                        meta: PacketMeta {
                            size: len,
                            source: self.source,
                            received_ms: now_ms,
                            staked: self.staked,
                        },
                    },
                )
            },
            _ => None,
        }
    }
}

/// A chunk as the transport delivers it: bytes for a stream offset.
pub struct ChunkIn {
    pub offset: u64,
    pub data: Seq<u8>,
}

/// What can happen on a stream.
pub enum StreamInput {
    Chunk(ChunkIn),
    End,
    Timeout,
    ReadError,
}

/// The assembler after one input.
pub open spec fn after_input(v: AssemblerView, input: StreamInput) -> AssemblerView {
    match input {
        StreamInput::Chunk(c) => v.after_chunk(c.offset, c.data),
        StreamInput::End => v.after_end(),
        StreamInput::Timeout => v.after_failure(ChunkError::Timeout),
        StreamInput::ReadError => v.after_failure(ChunkError::ReadError),
    }
}

/// The assembler after a run of inputs, oldest first.
pub open spec fn after_inputs(v: AssemblerView, inputs: Seq<StreamInput>) -> AssemblerView
    decreases inputs.len(),
{
    if inputs.len() == 0 {
        v
    } else {
        after_input(after_inputs(v, inputs.drop_last()), inputs.last())
    }
}

/// The chunks of a run of inputs that a fresh assembler took in: each came
/// while the assembler was reading and left it reading.
pub open spec fn accepted_chunks(inputs: Seq<StreamInput>) -> Seq<ChunkIn>
    decreases inputs.len(),
{
    if inputs.len() == 0 {
        Seq::empty()
    } else {
        let before = after_inputs(AssemblerView::fresh(), inputs.drop_last());
        let rest = accepted_chunks(inputs.drop_last());
        match inputs.last() {
            StreamInput::Chunk(c) => if before.state is Reading && before.after_chunk(
                c.offset,
                c.data,
            ).state is Reading {
                rest.push(c)
            } else {
                rest
            },
            _ => rest,
        }
    }
}

/// The bytes of a run of chunks, one chunk behind the other.
pub open spec fn stream_bytes(chunks: Seq<ChunkIn>) -> Seq<u8>
    decreases chunks.len(),
{
    if chunks.len() == 0 {
        Seq::empty()
    } else {
        stream_bytes(chunks.drop_last()) + chunks.last().data
    }
}

/// Each chunk begins where the chunks before it end, the first at offset zero.
pub open spec fn contiguous(chunks: Seq<ChunkIn>) -> bool
    decreases chunks.len(),
{
    chunks.len() == 0 || (contiguous(chunks.drop_last()) && chunks.last().offset == stream_bytes(
        chunks.drop_last(),
    ).len())
}

/// Byte `t` of chunk `k` exists.
pub open spec fn in_chunk(chunks: Seq<ChunkIn>, k: int, t: int) -> bool {
    0 <= k < chunks.len() && 0 <= t < chunks[k].data.len()
}

/// Whatever happens on a stream, the assembler stays well formed. While it
/// reads, and when it has finished, its bytes are those of the chunks it took
/// in, which lie one behind the other from offset zero and fit in one packet,
/// and it has counted those chunks.
pub proof fn lemma_packet_is_stream_prefix(inputs: Seq<StreamInput>)
    ensures
        after_inputs(AssemblerView::fresh(), inputs).wf(),
        ({
            let v = after_inputs(AssemblerView::fresh(), inputs);
            v.state is Reading || v.state is Finished ==> {
                &&& contiguous(accepted_chunks(inputs))
                &&& v.bytes == stream_bytes(accepted_chunks(inputs))
                &&& v.bytes.len() <= PACKET_DATA_SIZE
                &&& v.chunks == if accepted_chunks(inputs).len() <= usize::MAX {
                    accepted_chunks(inputs).len() as usize
                } else {
                    usize::MAX
                }
            }
        }),
        after_inputs(AssemblerView::fresh(), inputs).state matches AssemblerState::Finished { len }
            ==> 0 < len <= PACKET_DATA_SIZE && len == stream_bytes(accepted_chunks(inputs)).len(),
    decreases inputs.len(),
{
    if inputs.len() > 0 {
        lemma_packet_is_stream_prefix(inputs.drop_last());
        let before = after_inputs(AssemblerView::fresh(), inputs.drop_last());
        let rest = accepted_chunks(inputs.drop_last());
        match inputs.last() {
            StreamInput::Chunk(c) => {
                if before.state is Reading && before.after_chunk(c.offset, c.data).state is Reading {
                    assert(rest.push(c).drop_last() =~= rest);
                }
            },
            _ => {},
        }
    }
}

/// In a contiguous run, a chunk ends no later than any later chunk begins,
/// and no chunk reaches beyond the end of the stream's bytes.
pub proof fn lemma_contiguous_offsets(chunks: Seq<ChunkIn>, a: int, b: int)
    requires
        contiguous(chunks),
        0 <= a <= b < chunks.len(),
    ensures
        a < b ==> chunks[a].offset + chunks[a].data.len() <= chunks[b].offset,
        chunks[b].offset + chunks[b].data.len() <= stream_bytes(chunks).len(),
        stream_bytes(chunks).subrange(
            chunks[b].offset as int,
            chunks[b].offset + chunks[b].data.len(),
        ) == chunks[b].data,
    decreases chunks.len(),
{
    let front = chunks.drop_last();
    let last = chunks.last();
    if b < chunks.len() - 1 {
        lemma_contiguous_offsets(front, a, b);
        assert(front[a] == chunks[a]);
        assert(front[b] == chunks[b]);
        assert(stream_bytes(chunks).subrange(
            chunks[b].offset as int,
            chunks[b].offset + chunks[b].data.len(),
        ) =~= stream_bytes(front).subrange(
            chunks[b].offset as int,
            chunks[b].offset + chunks[b].data.len(),
        ));
    } else {
        if a < b {
            lemma_contiguous_offsets(front, a, b - 1);
            assert(front[a] == chunks[a]);
        }
        assert(stream_bytes(chunks).subrange(
            last.offset as int,
            last.offset + last.data.len(),
        ) =~= last.data);
    }
}

/// In a contiguous run, every byte of every chunk sits in the stream's bytes
/// at its chunk's offset plus its place in the chunk.
pub proof fn lemma_byte_at_offset(chunks: Seq<ChunkIn>, k: int, t: int)
    requires
        contiguous(chunks),
        in_chunk(chunks, k, t),
    ensures
        chunks[k].offset + t < stream_bytes(chunks).len(),
        stream_bytes(chunks)[chunks[k].offset + t] == chunks[k].data[t],
{
    lemma_contiguous_offsets(chunks, k, k);
    let o = chunks[k].offset as int;
    let n = chunks[k].data.len() as int;
    assert(stream_bytes(chunks).subrange(o, o + n)[t] == stream_bytes(chunks)[o + t]);
}

/// In a contiguous run, every position of the stream's bytes is filled by
/// exactly one byte of one chunk.
pub proof fn lemma_each_byte_once(chunks: Seq<ChunkIn>, i: int)
    requires
        contiguous(chunks),
        0 <= i < stream_bytes(chunks).len(),
    ensures
        exists|k: int, t: int| #[trigger]
            in_chunk(chunks, k, t) && chunks[k].offset + t == i && stream_bytes(chunks)[i]
                == chunks[k].data[t],
        forall|k1: int, t1: int, k2: int, t2: int|
            #[trigger] in_chunk(chunks, k1, t1) && #[trigger] in_chunk(chunks, k2, t2)
                && chunks[k1].offset + t1 == i && chunks[k2].offset + t2 == i ==> k1 == k2 && t1
                == t2,
    decreases chunks.len(),
{
    let front = chunks.drop_last();
    let last = chunks.last();
    let n = chunks.len() - 1;
    if i < stream_bytes(front).len() {
        lemma_each_byte_once(front, i);
        let (k, t) = choose|k: int, t: int| #[trigger]
            in_chunk(front, k, t) && front[k].offset + t == i && stream_bytes(front)[i]
                == front[k].data[t];
        assert(front[k] == chunks[k]);
        assert(in_chunk(chunks, k, t));
    } else {
        let t = i - last.offset;
        assert(in_chunk(chunks, n, t));
    }
    assert forall|k1: int, t1: int, k2: int, t2: int|
        #[trigger] in_chunk(chunks, k1, t1) && #[trigger] in_chunk(chunks, k2, t2)
            && chunks[k1].offset + t1 == i && chunks[k2].offset + t2 == i implies k1 == k2 && t1
        == t2 by {
        if k1 < k2 {
            lemma_contiguous_offsets(chunks, k1, k2);
        } else if k2 < k1 {
            lemma_contiguous_offsets(chunks, k2, k1);
        }
    }
}

/// A stream that carries one payload of at least one byte and at most a
/// packet's size in a single chunk at offset zero, and then ends, yields a
/// finished packet with exactly that payload.
pub proof fn lemma_single_chunk_round_trip(payload: Seq<u8>)
    requires
        0 < payload.len() <= PACKET_DATA_SIZE,
    ensures
        AssemblerView::fresh().after_chunk(0, payload).after_end() == (AssemblerView {
            state: AssemblerState::Finished { len: payload.len() as usize },
            bytes: payload,
            chunks: 1,
        }),
{
    assert(Seq::<u8>::empty() + payload =~= payload);
}

} // verus!
