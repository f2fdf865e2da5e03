use quic_ingress::{
    alpn_protocol, configure_server, BatchCoalescer, ChunkAssembler, EndpointHost, IpAddress,
    QuicServerError, SkipClientVerification, SocketAddress, StreamStats, CERTIFICATE_TAG,
    QUIC_MAX_TIMEOUT_MS, QUIC_MAX_UNSTAKED_CONCURRENT_STREAMS,
};

fn cert(seed: u8) -> Vec<u8> {
    (0..100u8).map(|i| i.wrapping_mul(7).wrapping_add(seed)).collect()
}

#[test]
fn constants_match_the_network_definitions() {
    assert_eq!(QUIC_MAX_TIMEOUT_MS as u128, solana_sdk::quic::QUIC_MAX_TIMEOUT.as_millis());
    assert_eq!(
        QUIC_MAX_UNSTAKED_CONCURRENT_STREAMS,
        solana_sdk::quic::QUIC_MAX_UNSTAKED_CONCURRENT_STREAMS
    );
    assert_eq!(alpn_protocol(), b"solana-tpu".to_vec());
    assert_eq!(CERTIFICATE_TAG, "CERTIFICATE");
}

#[test]
fn settings_follow_the_wire_parameters() {
    let (settings, _) = configure_server(&cert(1), 2500);
    assert_eq!(settings.alpn_protocol, b"solana-tpu".to_vec());
    assert_eq!(settings.concurrent_connections, 2500);
    assert!(settings.use_retry);
    assert_eq!(settings.max_concurrent_uni_streams, 256);
    assert_eq!(settings.max_concurrent_bidi_streams, 0);
    assert_eq!(settings.stream_receive_window, 1232);
    assert_eq!(settings.receive_window, 1232);
    assert_eq!(settings.max_idle_timeout_ms, 2000);
    assert_eq!(settings.datagram_receive_buffer_size, None);
    assert!(!settings.enable_segmentation_offload);
    assert!(settings.client_certificate_required);
}

#[test]
fn certificate_chain_is_pem_text() {
    let der = cert(3);
    let (_, text) = configure_server(&der, 1);
    let expected = pem::encode_many(&[pem::Pem { tag: "CERTIFICATE".to_string(), contents: der.clone() }]);
    assert_eq!(text, expected);
    assert!(text.starts_with("-----BEGIN CERTIFICATE-----\r\n"));
    assert!(text.ends_with("-----END CERTIFICATE-----\r\n"));
    assert_ne!(text.as_bytes(), &der[..]);
    let back = pem::parse(&text).unwrap();
    assert_eq!(back.contents, der);
    let (_, other) = configure_server(&cert(4), 1);
    assert_ne!(text, other);
}

#[test]
fn any_client_certificate_is_accepted() {
    let verifier = SkipClientVerification::new();
    assert!(verifier.client_auth_root_subjects().is_empty());
    let odd = rustls::Certificate(vec![0xde, 0xad]);
    let chain = [rustls::Certificate(Vec::new())];
    assert!(verifier.verify_client_cert(&odd, &chain, std::time::SystemTime::now()).is_ok());
    assert!(verifier
        .verify_client_cert(&odd, &[], std::time::SystemTime::UNIX_EPOCH)
        .is_ok());
}

#[test]
fn errors_keep_their_source() {
    let tls = QuicServerError::from(rustls::Error::General("bad".to_string()));
    match tls {
        QuicServerError::TlsError(rustls::Error::General(text)) => assert_eq!(text, "bad"),
        other => panic!("unexpected error: {:?}", other),
    }
    let cert = QuicServerError::from(rcgen::RcgenError::CouldNotParseCertificate);
    assert!(matches!(
        cert,
        QuicServerError::CertificateError(rcgen::RcgenError::CouldNotParseCertificate)
    ));
    let io = QuicServerError::EndpointFailed(std::io::Error::new(
        std::io::ErrorKind::AddrInUse,
        "taken",
    ));
    match io {
        QuicServerError::EndpointFailed(e) => assert_eq!(e.kind(), std::io::ErrorKind::AddrInUse),
        other => panic!("unexpected error: {:?}", other),
    }
}

#[test]
fn rotated_key_serves_new_handshakes_only() {
    let mut stats = StreamStats::new();
    let mut coalescer = BatchCoalescer::new(64, 1000);
    let source = SocketAddress { ip: IpAddress::V4([127, 0, 0, 1]), port: 1 };
    let (mut host, settings) = EndpointHost::start(&cert(1), 10);
    assert_eq!(settings.concurrent_connections, 10);

    // connection X is made under the first key
    let x_credentials = host.accept().unwrap();
    let mut x_stream = ChunkAssembler::new(source, false, &mut stats);
    x_stream.on_chunk(0, &[1; 50], &mut stats);

    let installed = host.rotate_key(Ok(cert(2))).unwrap();
    assert_eq!(installed.concurrent_connections, 10);
    assert_eq!(host.rotations(), 1);

    // connection Y is made under the second key
    let y_credentials = host.accept().unwrap();
    assert_ne!(x_credentials, y_credentials);
    assert_eq!(x_credentials, configure_server(&cert(1), 10).1);
    assert_eq!(y_credentials, configure_server(&cert(2), 10).1);

    // X still delivers
    x_stream.on_chunk(50, &[2; 50], &mut stats);
    assert!(x_stream.on_stream_end());
    quic_ingress::deliver(&mut x_stream, &mut coalescer, &mut stats, 9);
    let batch = coalescer.on_shutdown().unwrap();
    assert_eq!(batch.len(), 1);
    assert_eq!(batch.get(0).len(), 100);
}

#[test]
fn failed_rotation_keeps_the_old_credentials() {
    let (mut host, _) = EndpointHost::start(&cert(1), 10);
    let before = host.accept().unwrap();
    let res = host.rotate_key(Err(QuicServerError::CertificateError(
        rcgen::RcgenError::KeyGenerationUnavailable,
    )));
    assert!(matches!(
        res,
        Err(QuicServerError::CertificateError(rcgen::RcgenError::KeyGenerationUnavailable))
    ));
    assert_eq!(host.rotations(), 0);
    assert_eq!(host.accept().unwrap(), before);
    assert!(host.is_accepting());
}

#[test]
fn shutdown_stops_accepting() {
    let (mut host, _) = EndpointHost::start(&cert(1), 10);
    assert!(host.is_accepting());
    host.shutdown();
    assert!(!host.is_accepting());
    assert!(host.accept().is_none());
    host.rotate_key(Ok(cert(2))).unwrap();
    assert!(host.accept().is_none());
}

#[test]
fn ed25519_key_is_wrapped_for_the_certificate_generator() {
    let secret: [u8; 32] = core::array::from_fn(|i| (i as u8).wrapping_mul(3).wrapping_add(1));
    let der = quic_ingress::ed25519_pkcs8_der(&secret);
    assert_eq!(der.len(), 48);
    assert_eq!(
        &der[..16],
        &[0x30, 0x2e, 0x02, 0x01, 0x00, 0x30, 0x05, 0x06, 0x03, 0x2b, 0x65, 0x70, 0x04, 0x22, 0x04, 0x20]
    );
    assert_eq!(&der[16..], &secret[..]);
    let key_pair = rcgen::KeyPair::from_der(&der).unwrap();
    assert!(key_pair.is_compatible(&rcgen::PKCS_ED25519));
    assert_eq!(key_pair.public_key_raw().len(), 32);
}
