//! The endpoint's configuration, its client-certificate policy, its errors,
//! and the rotation of its TLS key.

use crate::assembler::PACKET_DATA_SIZE;
use std::sync::Arc;
use vstd::prelude::*;
use vstd::std_specs::convert::FromSpecImpl;

verus! {

/// Longest time that a connection may stay silent, in milliseconds.
pub const QUIC_MAX_TIMEOUT_MS: u64 = 2000;

/// Streams that an unstaked connection is meant to have open at one time.
pub const QUIC_MAX_UNSTAKED_CONCURRENT_STREAMS: usize = 128;

/// The tag under which a certificate stands in a PEM text.
pub const CERTIFICATE_TAG: &'static str = "CERTIFICATE";

/// The application protocol that the endpoint speaks, `solana-tpu`, as bytes.
pub open spec fn alpn_tpu_protocol_id() -> Seq<u8> {
    Seq::empty().push(115u8).push(111u8).push(108u8).push(97u8).push(110u8).push(97u8).push(
        45u8,
    ).push(116u8).push(112u8).push(117u8)
}

/// What the QUIC endpoint is configured with, as plain values.
#[derive(Debug)]
pub struct ServerSettings {
    /// The application protocol offered in the TLS handshake.
    pub alpn_protocol: Vec<u8>,
    /// Connections that the endpoint serves at one time.
    pub concurrent_connections: u32,
    /// Whether a client must prove its address with a retry token.
    pub use_retry: bool,
    /// Unidirectional streams that a client may have open at one time.
    pub max_concurrent_uni_streams: u32,
    /// Bidirectional streams that a client may have open at one time.
    pub max_concurrent_bidi_streams: u32,
    /// Bytes that a client may send on one stream before they are read.
    pub stream_receive_window: u32,
    /// Bytes that a client may send on all streams before they are read.
    pub receive_window: u32,
    /// Longest time that a connection may stay silent, in milliseconds.
    pub max_idle_timeout_ms: u64,
    /// Room for incoming datagrams; none switches datagrams off.
    pub datagram_receive_buffer_size: Option<usize>,
    /// Whether replies may be handed to the network in segments to be split there.
    pub enable_segmentation_offload: bool,
    /// Whether a client must present a certificate.
    pub client_certificate_required: bool,
}

/// What a `ServerSettings` stands for.
pub struct SettingsView {
    pub alpn_protocol: Seq<u8>,
    pub concurrent_connections: u32,
    pub use_retry: bool,
    pub max_concurrent_uni_streams: u32,
    pub max_concurrent_bidi_streams: u32,
    pub stream_receive_window: u32,
    pub receive_window: u32,
    pub max_idle_timeout_ms: u64,
    pub datagram_receive_buffer_size: Option<usize>,
    pub enable_segmentation_offload: bool,
    pub client_certificate_required: bool,
}

impl View for ServerSettings {
    type V = SettingsView;

    open spec fn view(&self) -> SettingsView {
        SettingsView {
            alpn_protocol: self.alpn_protocol@,
            concurrent_connections: self.concurrent_connections,
            use_retry: self.use_retry,
            max_concurrent_uni_streams: self.max_concurrent_uni_streams,
            max_concurrent_bidi_streams: self.max_concurrent_bidi_streams,
            stream_receive_window: self.stream_receive_window,
            receive_window: self.receive_window,
            max_idle_timeout_ms: self.max_idle_timeout_ms,
            datagram_receive_buffer_size: self.datagram_receive_buffer_size,
            enable_segmentation_offload: self.enable_segmentation_offload,
            client_certificate_required: self.client_certificate_required,
        }
    }
}

/// The settings of an endpoint that serves `max_concurrent_connections`
/// connections at a time: the protocol `solana-tpu`; retry tokens; twice the
/// streams of an unstaked connection as unidirectional streams and no
/// bidirectional ones; windows of one packet; the idle timeout; no datagrams;
/// no segmentation offload, since no reply exceeds one datagram; a client
/// certificate required.
pub open spec fn settings_for(max_concurrent_connections: usize) -> SettingsView {
    SettingsView {
        alpn_protocol: alpn_tpu_protocol_id(),
        concurrent_connections: max_concurrent_connections as u32,
        use_retry: true,
        max_concurrent_uni_streams: (2 * QUIC_MAX_UNSTAKED_CONCURRENT_STREAMS) as u32,
        max_concurrent_bidi_streams: 0,
        stream_receive_window: PACKET_DATA_SIZE as u32,
        receive_window: PACKET_DATA_SIZE as u32,
        max_idle_timeout_ms: QUIC_MAX_TIMEOUT_MS,
        datagram_receive_buffer_size: None,
        enable_segmentation_offload: false,
        client_certificate_required: true,
    }
}

/// The PEM text that `pem::encode_many` gives for a list of one block with
/// tag `tag` and contents `contents`.
pub uninterp spec fn pem_encoded(tag: Seq<char>, contents: Seq<u8>) -> Seq<char>;

/// Calls `pem::encode_many` on a list of one block, with tag `tag` and
/// contents `contents`. The text depends on the two alone: a line that begins
/// the block and names the tag, the contents in base 64 on lines of 64
/// characters, a line that ends the block, each line closed by a carriage
/// return and a line feed.
#[verifier::external_body]
fn pem_encode_one(tag: &str, contents: &Vec<u8>) -> (text: String)
    ensures
        text@ == pem_encoded(tag@, contents@),
{
    pem::encode_many(&[pem::Pem { tag: tag.to_string(), contents: contents.clone() }])
}

/// The application protocol that the endpoint speaks, `solana-tpu`, as bytes.
pub fn alpn_protocol() -> (id: Vec<u8>)
    ensures
        id@ == alpn_tpu_protocol_id(),
{
    let mut id: Vec<u8> = Vec::with_capacity(10);
    id.push(115);
    id.push(111);
    id.push(108);
    id.push(97);
    id.push(110);
    id.push(97);
    id.push(45);
    id.push(116);
    id.push(112);
    id.push(117);
    id
}

/// The configuration of the endpoint for the certificate `cert_der`, given
/// in DER: the settings for `max_concurrent_connections`, and the certificate
/// chain as PEM text.
pub fn configure_server(cert_der: &Vec<u8>, max_concurrent_connections: usize) -> (res: (
    ServerSettings,
    String,
))
    ensures
        res.0@ == settings_for(max_concurrent_connections),
        res.1@ == pem_encoded(CERTIFICATE_TAG@, cert_der@),
{
    let cert_chain_pem = pem_encode_one(CERTIFICATE_TAG, cert_der);
    let settings = ServerSettings {
        alpn_protocol: alpn_protocol(),
        concurrent_connections: #[verifier::truncate]
        (max_concurrent_connections as u32),
        use_retry: true,
        max_concurrent_uni_streams: (2 * QUIC_MAX_UNSTAKED_CONCURRENT_STREAMS) as u32,
        max_concurrent_bidi_streams: 0,
        stream_receive_window: PACKET_DATA_SIZE as u32,
        receive_window: PACKET_DATA_SIZE as u32,
        max_idle_timeout_ms: QUIC_MAX_TIMEOUT_MS,
        datagram_receive_buffer_size: None,
        enable_segmentation_offload: false,
        client_certificate_required: true,
    };
    (settings, cert_chain_pem)
}

/// The bytes that stand before an Ed25519 private key in its PKCS#8 encoding
/// of version 1: the headers of the outer sequence, the version, the
/// algorithm and the two octet strings that wrap the key.
pub open spec fn pkcs8_ed25519_prefix() -> Seq<u8> {
    Seq::empty().push(0x30u8).push(0x2eu8).push(0x02u8).push(0x01u8).push(0x00u8).push(0x30u8).push(
        0x05u8,
    ).push(0x06u8).push(0x03u8).push(0x2bu8).push(0x65u8).push(0x70u8).push(0x04u8).push(
        0x22u8,
    ).push(0x04u8).push(0x20u8)
}

/// The PKCS#8 encoding, in DER, of the Ed25519 private key `secret`: what a
/// certificate generator takes in place of the bare key.
pub fn ed25519_pkcs8_der(secret: &[u8; 32]) -> (der: Vec<u8>)
    ensures
        der@ == pkcs8_ed25519_prefix() + secret@,
        der@.len() == 48,
{
    let mut der: Vec<u8> = Vec::with_capacity(48);
    der.push(0x30);
    der.push(0x2e);
    der.push(0x02);
    der.push(0x01);
    der.push(0x00);
    der.push(0x30);
    der.push(0x05);
    der.push(0x06);
    der.push(0x03);
    der.push(0x2b);
    der.push(0x65);
    der.push(0x70);
    der.push(0x04);
    der.push(0x22);
    der.push(0x04);
    der.push(0x20);
    let mut i: usize = 0;
    while i < 32
        invariant
            0 <= i <= 32,
            der@ == pkcs8_ed25519_prefix() + secret@.take(i as int),
        decreases 32 - i,
    {
        der.push(secret[i]);
        proof {
            assert(secret@.take(i + 1) =~= secret@.take(i as int).push(secret@[i as int]));
            assert((pkcs8_ed25519_prefix() + secret@.take(i as int)).push(secret@[i as int])
                =~= pkcs8_ed25519_prefix() + secret@.take(i + 1));
        }
        i += 1;
    }
    proof {
        assert(secret@.take(32) =~= secret@);
    }
    der
}

/// `rustls::Certificate`, a certificate in DER. It is passed through unread.
#[verifier::external_type_specification]
#[verifier::external_body]
pub struct ExCertificate(rustls::Certificate);

/// `rustls::server::ClientCertVerified`, the token of an accepted client
/// certificate.
#[verifier::external_type_specification]
#[verifier::external_body]
pub struct ExClientCertVerified(rustls::server::ClientCertVerified);

/// `rustls::DistinguishedName`, the name of a certificate authority.
#[verifier::external_type_specification]
#[verifier::external_body]
pub struct ExDistinguishedName(rustls::DistinguishedName);

/// `rustls::Error`, carried from where it arose to the caller.
#[verifier::external_type_specification]
#[verifier::external_body]
pub struct ExTlsError(rustls::Error);

/// `rcgen::RcgenError`, carried from where it arose to the caller.
#[verifier::external_type_specification]
#[verifier::external_body]
pub struct ExRcgenError(rcgen::RcgenError);

/// `std::io::Error`, carried from where it arose to the caller.
#[verifier::external_type_specification]
#[verifier::external_body]
pub struct ExIoError(std::io::Error);

/// `std::time::SystemTime`, the time at which a certificate is judged. It is
/// not read.
#[verifier::external_type_specification]
#[verifier::external_body]
pub struct ExSystemTime(std::time::SystemTime);

/// Calls `rustls::server::ClientCertVerified::assertion`, which makes the
/// token by which a verifier says that it accepts a client's certificate.
/// The token holds nothing, so nothing is claimed of it.
#[verifier::external_body]
fn client_cert_verified() -> rustls::server::ClientCertVerified {
    rustls::server::ClientCertVerified::assertion()
}

/// The policy on client certificates: a client must present one, and
/// whatever it presents is accepted. Who the client is follows after the
/// handshake, from the public key in its certificate.
pub struct SkipClientVerification;

impl SkipClientVerification {
    /// The policy, ready to be shared with the TLS stack.
    pub fn new() -> Arc<Self> {
        Arc::new(Self)
    }

    /// The certificate authorities named to a client: none.
    pub fn client_auth_root_subjects(&self) -> (subjects: &[rustls::DistinguishedName])
        ensures
            subjects@.len() == 0,
    {
        &[]
    }

    /// Accepts the client's certificate chain, whatever it is.
    pub fn verify_client_cert(
        &self,
        _end_entity: &rustls::Certificate,
        _intermediates: &[rustls::Certificate],
        _now: std::time::SystemTime,
    ) -> (verdict: Result<rustls::server::ClientCertVerified, rustls::Error>)
        ensures
            verdict is Ok,
    {
        Ok(client_cert_verified())
    }
}

/// Why the server could not be started or its key not be changed.
#[derive(Debug)]
pub enum QuicServerError {
    /// The endpoint could not be created on the socket.
    EndpointFailed(std::io::Error),
    /// No certificate could be made for the key.
    CertificateError(rcgen::RcgenError),
    /// The TLS configuration was refused.
    TlsError(rustls::Error),
}

impl From<rcgen::RcgenError> for QuicServerError {
    fn from(e: rcgen::RcgenError) -> (err: QuicServerError) {
        QuicServerError::CertificateError(e)
    }
}

impl FromSpecImpl<rcgen::RcgenError> for QuicServerError {
    open spec fn obeys_from_spec() -> bool {
        true
    }

    open spec fn from_spec(e: rcgen::RcgenError) -> QuicServerError {
        QuicServerError::CertificateError(e)
    }
}

impl From<rustls::Error> for QuicServerError {
    fn from(e: rustls::Error) -> (err: QuicServerError) {
        QuicServerError::TlsError(e)
    }
}

impl FromSpecImpl<rustls::Error> for QuicServerError {
    open spec fn obeys_from_spec() -> bool {
        true
    }

    open spec fn from_spec(e: rustls::Error) -> QuicServerError {
        QuicServerError::TlsError(e)
    }
}

/// What an `EndpointHost` stands for.
pub struct HostView {
    pub max_concurrent_connections: usize,
    /// The certificate chain under which new handshakes are served, as PEM text.
    pub cert_chain_pem: Seq<char>,
    /// Key rotations that succeeded.
    pub rotations: u64,
    /// Whether new connections are accepted.
    pub accepting: bool,
}

/// The state of the endpoint that outlives single connections: the
/// credentials for new handshakes, and whether the endpoint still accepts.
pub struct EndpointHost {
    max_concurrent_connections: usize,
    cert_chain_pem: String,
    rotations: u64,
    accepting: bool,
}

impl View for EndpointHost {
    type V = HostView;

    closed spec fn view(&self) -> HostView {
        HostView {
            max_concurrent_connections: self.max_concurrent_connections,
            cert_chain_pem: self.cert_chain_pem@,
            rotations: self.rotations,
            accepting: self.accepting,
        }
    }
}

impl EndpointHost {
    /// An accepting endpoint with the certificate `cert_der`, and the
    /// settings to configure the transport with.
    pub fn start(cert_der: &Vec<u8>, max_concurrent_connections: usize) -> (res: (
        EndpointHost,
        ServerSettings,
    ))
        ensures
            res.0@ == (HostView {
                max_concurrent_connections,
                cert_chain_pem: pem_encoded(CERTIFICATE_TAG@, cert_der@),
                rotations: 0,
                accepting: true,
            }),
            res.1@ == settings_for(max_concurrent_connections),
    {
        let (settings, cert_chain_pem) = configure_server(cert_der, max_concurrent_connections);
        (
            EndpointHost { max_concurrent_connections, cert_chain_pem, rotations: 0, accepting: true },
            settings,
        )
    }

    /// Changes the key. `cert` is what the certificate generator made of the
    /// new key. With a certificate, the endpoint serves new handshakes under
    /// it from now on, and the settings to install are handed back; connections
    /// made before keep the credentials they were made under. Without one, the
    /// error is handed back and the endpoint stays as it is.
    pub fn rotate_key(&mut self, cert: Result<Vec<u8>, QuicServerError>) -> (res: Result<
        ServerSettings,
        QuicServerError,
    >)
        ensures
            match cert {
                Ok(cert_der) => {
                    &&& res matches Ok(settings)
                    &&& settings@ == settings_for(old(self)@.max_concurrent_connections)
                    &&& final(self)@ == (HostView {
                        cert_chain_pem: pem_encoded(CERTIFICATE_TAG@, cert_der@),
                        rotations: if old(self)@.rotations < u64::MAX {
                            (old(self)@.rotations + 1) as u64
                        } else {
                            u64::MAX
                        },
                        ..old(self)@
                    })
                },
                Err(e) => res == Err::<ServerSettings, QuicServerError>(e) && final(self)@
                    == old(self)@,
            },
    {
        match cert {
            Ok(cert_der) => {
                let (settings, cert_chain_pem) = configure_server(
                    &cert_der,
                    self.max_concurrent_connections,
                );
                self.cert_chain_pem = cert_chain_pem;
                if self.rotations < u64::MAX {
                    self.rotations = self.rotations + 1;
                }
                Ok(settings)
            },
            Err(e) => Err(e),
        }
    }

    /// The credentials under which a handshake that begins now is served, or
    /// nothing where the endpoint no longer accepts.
    pub fn accept(&self) -> (credentials: Option<String>)
        ensures
            match credentials {
                Some(pem) => self@.accepting && pem@ == self@.cert_chain_pem,
                None => !self@.accepting,
            },
    {
        if self.accepting {
            Some(self.cert_chain_pem.clone())
        } else {
            None
        }
    }

    /// Stops accepting. Connections that exist are to be drained by their drivers.
    pub fn shutdown(&mut self)
        ensures
            final(self)@ == (HostView { accepting: false, ..old(self)@ }),
    {
        self.accepting = false;
    }

    /// Whether new connections are accepted.
    pub fn is_accepting(&self) -> (b: bool)
        ensures
            b == self@.accepting,
    {
        self.accepting
    }

    /// Key rotations that succeeded.
    pub fn rotations(&self) -> (n: u64)
        ensures
            n == self@.rotations,
    {
        self.rotations
    }
}

} // verus!
