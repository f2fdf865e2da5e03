//! Admission, classification, throttling and stream-to-batch assembly for a
//! QUIC transaction ingress server of a staked peer-to-peer network.
//!
//! Every rule of the server that decides which connections live, how many
//! streams each may open and how stream bytes become packets and batches is
//! an executable function here with a proved contract. Sockets, the TLS and
//! QUIC stacks, timers and tasks are the embedding program's business: it
//! feeds these functions plain values and performs what they decide.

pub mod assembler;
pub mod coalescer;
pub mod connection_table;
pub mod driver;
pub mod endpoint;
pub mod peer;
pub mod stats;
pub mod stream_load;
pub mod throttle;

pub use assembler::{
    AssemblerState, ChunkAssembler, ChunkError, Packet, PacketMeta, PACKET_DATA_SIZE,
};
pub use coalescer::{
    record_send, send_batch, BatchCoalescer, PacketBatch, SendOutcome, MAX_BATCH_PACKETS,
};
pub use connection_table::{
    AdmitOutcome, ConnectionMeta, ConnectionRecord, ConnectionTable, MAX_STAKED_CONNECTIONS,
    MAX_UNSTAKED_CONNECTIONS,
};
pub use driver::{
    admit_connection, close_code, close_connection, deliver, finish_stream, open_stream,
    record_admission, record_handshake_failure, HandshakeFailure, StreamAction,
    CONNECTION_CLOSE_CODE_DISALLOWED, CONNECTION_CLOSE_CODE_DROPPED_ENTRY,
    CONNECTION_CLOSE_CODE_TOO_MANY, STREAMS_PER_BUDGET, STREAM_STOP_CODE_THROTTLING,
};
pub use endpoint::{
    alpn_protocol, configure_server, ed25519_pkcs8_der, EndpointHost, QuicServerError, ServerSettings,
    SkipClientVerification, CERTIFICATE_TAG, QUIC_MAX_TIMEOUT_MS,
    QUIC_MAX_UNSTAKED_CONCURRENT_STREAMS,
};
pub use peer::{
    peer_id_from_certificate, IpAddress, PeerClass, PeerId, SocketAddress, StakeEntry, StakedNodes,
    PEER_ID_LEN,
};
pub use stats::{Datapoint, DatapointField, StreamStats};
pub use stream_load::{LoadConfig, StreamLoadEma, SAMPLING_INTERVAL_MS};
pub use throttle::{StreamDecision, StreamThrottler};
