use quic_ingress::{PeerClass, PeerId, StakeEntry, StakedNodes};

fn node_id(n: u8) -> PeerId {
    PeerId::new([n; 32])
}

#[test]
fn identities_compare_byte_by_byte() {
    let a = node_id(1);
    let mut bytes = [1u8; 32];
    assert!(a.same(&PeerId::new(bytes)));
    bytes[31] = 2;
    assert!(!a.same(&PeerId::new(bytes)));
    bytes[31] = 1;
    bytes[0] = 0;
    assert!(!a.same(&PeerId::new(bytes)));
}

#[test]
fn class_stake_and_flag() {
    let staked = PeerClass::Staked { stake: 9, total_stake: 90 };
    assert_eq!(staked.stake(), 9);
    assert!(staked.is_staked());
    assert_eq!(PeerClass::Unstaked.stake(), 0);
    assert!(!PeerClass::Unstaked.is_staked());
}

#[test]
fn classify_listed_missing_and_zero() {
    let nodes = StakedNodes::from_entries(vec![
        StakeEntry { peer: node_id(1), stake: 10 },
        StakeEntry { peer: node_id(2), stake: 0 },
        StakeEntry { peer: node_id(3), stake: 32 },
    ])
    .unwrap();
    assert_eq!(nodes.total_stake(), 42);
    assert_eq!(nodes.classify(&node_id(1)), PeerClass::Staked { stake: 10, total_stake: 42 });
    assert_eq!(nodes.classify(&node_id(3)), PeerClass::Staked { stake: 32, total_stake: 42 });
    assert_eq!(nodes.classify(&node_id(2)), PeerClass::Unstaked);
    assert_eq!(nodes.classify(&node_id(4)), PeerClass::Unstaked);
}

#[test]
fn empty_snapshot_knows_nobody() {
    let nodes = StakedNodes::from_entries(Vec::new()).unwrap();
    assert_eq!(nodes.total_stake(), 0);
    assert_eq!(nodes.classify(&node_id(1)), PeerClass::Unstaked);
}

#[test]
fn snapshot_refuses_duplicates_and_overflow() {
    assert!(StakedNodes::from_entries(vec![
        StakeEntry { peer: node_id(1), stake: 10 },
        StakeEntry { peer: node_id(2), stake: 5 },
        StakeEntry { peer: node_id(1), stake: 7 },
    ])
    .is_none());
    assert!(StakedNodes::from_entries(vec![
        StakeEntry { peer: node_id(1), stake: u64::MAX },
        StakeEntry { peer: node_id(2), stake: 1 },
    ])
    .is_none());
    let full = StakedNodes::from_entries(vec![
        StakeEntry { peer: node_id(1), stake: u64::MAX - 1 },
        StakeEntry { peer: node_id(2), stake: 1 },
    ])
    .unwrap();
    assert_eq!(full.total_stake(), u64::MAX);
}

#[test]
fn identity_from_key_bytes() {
    let key: Vec<u8> = (0..32u8).collect();
    let id = PeerId::from_slice(&key).unwrap();
    assert_eq!(&id.bytes[..], &key[..]);
    assert_eq!(quic_ingress::PEER_ID_LEN, 32);
    assert!(PeerId::from_slice(&key[..31]).is_none());
    assert!(PeerId::from_slice(&[0u8; 33]).is_none());
    assert!(PeerId::from_slice(&[]).is_none());
}

#[test]
fn identity_is_read_from_an_ed25519_certificate() {
    let key_pair = rcgen::KeyPair::generate(&rcgen::PKCS_ED25519).unwrap();
    let public = key_pair.public_key_raw().to_vec();
    assert_eq!(public.len(), 32);
    let mut params = rcgen::CertificateParams::new(Vec::<String>::new());
    params.alg = &rcgen::PKCS_ED25519;
    params.key_pair = Some(key_pair);
    let der = rcgen::Certificate::from_params(params).unwrap().serialize_der().unwrap();
    let id = quic_ingress::peer_id_from_certificate(&der).unwrap();
    assert_eq!(&id.bytes[..], &public[..]);
    assert_ne!(&id.bytes[..], &der[..32]);
}

#[test]
fn certificate_with_another_key_gives_no_identity() {
    let cert = rcgen::generate_simple_self_signed(vec!["localhost".to_string()]).unwrap();
    let der = cert.serialize_der().unwrap();
    assert!(quic_ingress::peer_id_from_certificate(&der).is_none());
}

#[test]
fn bytes_that_are_no_certificate_give_no_identity() {
    assert!(quic_ingress::peer_id_from_certificate(&[]).is_none());
    assert!(quic_ingress::peer_id_from_certificate(&[7u8; 32]).is_none());
    assert!(quic_ingress::peer_id_from_certificate(&[0x30, 0x82, 0xff, 0xff, 1, 2, 3]).is_none());
}
