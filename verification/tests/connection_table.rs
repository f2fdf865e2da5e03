use quic_ingress::{
    AdmitOutcome, ConnectionMeta, ConnectionTable, IpAddress, PeerClass, PeerId, SocketAddress,
    MAX_STAKED_CONNECTIONS, MAX_UNSTAKED_CONNECTIONS,
};

fn table_peer(n: u8) -> PeerId {
    let mut bytes = [0u8; 32];
    bytes[0] = n;
    bytes[31] = 0xa5;
    PeerId::new(bytes)
}

fn table_addr(port: u16) -> SocketAddress {
    SocketAddress { ip: IpAddress::V4([10, 0, 0, 1]), port }
}

fn staked_meta(n: u8, stake: u64) -> ConnectionMeta {
    ConnectionMeta {
        peer: table_peer(n),
        remote: table_addr(8000 + n as u16),
        class: PeerClass::Staked { stake, total_stake: 1000 },
        now_ms: 0,
        budget: 10,
    }
}

fn unstaked_meta(n: u8) -> ConnectionMeta {
    ConnectionMeta {
        peer: table_peer(n),
        remote: table_addr(9000 + n as u16),
        class: PeerClass::Unstaked,
        now_ms: 0,
        budget: 10,
    }
}

fn admitted_id(outcome: &AdmitOutcome) -> u64 {
    match outcome {
        AdmitOutcome::Admit { id, .. } => *id,
        other => panic!("not admitted: {:?}", other),
    }
}

#[test]
fn default_limits() {
    assert_eq!(MAX_STAKED_CONNECTIONS, 2000);
    assert_eq!(MAX_UNSTAKED_CONNECTIONS, 500);
}

#[test]
fn full_staked_table_lets_go_of_lower_stake_only() {
    let mut table = ConnectionTable::new(2, 2, 8);
    let a = admitted_id(&table.try_admit(staked_meta(1, 10)));
    let b = admitted_id(&table.try_admit(staked_meta(2, 20)));
    assert_eq!(table.staked_len(), 2);

    let c = table.try_admit(staked_meta(3, 5));
    assert!(matches!(c, AdmitOutcome::RejectCapacityPruning));
    assert_eq!(table.staked_len(), 2);
    assert!(table.get(a).is_some());
    assert!(table.get(b).is_some());

    let d = table.try_admit(staked_meta(4, 15));
    let d_id = match d {
        AdmitOutcome::Admit { id, evicted: Some(gone) } => {
            assert_eq!(gone.id, a);
            assert_eq!(gone.class, PeerClass::Staked { stake: 10, total_stake: 1000 });
            id
        }
        other => panic!("unexpected outcome: {:?}", other),
    };
    assert_eq!(table.staked_len(), 2);
    assert!(table.get(a).is_none());
    assert_eq!(table.get(b).unwrap().class.stake(), 20);
    assert_eq!(table.get(d_id).unwrap().class.stake(), 15);
    assert_eq!(table.unstaked_len(), 0);
}

#[test]
fn tables_never_exceed_their_limits() {
    let mut table = ConnectionTable::new(3, 2, 100);
    for n in 0..20u8 {
        table.try_admit(staked_meta(n, 1 + n as u64));
        table.try_admit(unstaked_meta(100 + n));
        assert!(table.staked_len() <= 3);
        assert!(table.unstaked_len() <= 2);
    }
    assert_eq!(table.staked_len(), 3);
    assert_eq!(table.unstaked_len(), 2);
}

#[test]
fn per_peer_cap_is_enforced() {
    let mut table = ConnectionTable::new(10, 10, 2);
    let first = table.try_admit(unstaked_meta(7));
    let second = table.try_admit(staked_meta(7, 50));
    assert!(matches!(first, AdmitOutcome::Admit { .. }));
    assert!(matches!(second, AdmitOutcome::Admit { .. }));
    assert_eq!(table.peer_count(&table_peer(7)), 2);
    let third = table.try_admit(unstaked_meta(7));
    assert!(matches!(third, AdmitOutcome::RejectPerPeer));
    assert_eq!(table.peer_count(&table_peer(7)), 2);
    assert_eq!(table.peer_count(&table_peer(8)), 0);

    table.remove(admitted_id(&first));
    assert_eq!(table.peer_count(&table_peer(7)), 1);
    assert!(matches!(table.try_admit(unstaked_meta(7)), AdmitOutcome::Admit { .. }));
}

#[test]
fn per_peer_cap_of_zero_admits_nobody() {
    let mut table = ConnectionTable::new(10, 10, 0);
    assert!(matches!(table.try_admit(unstaked_meta(1)), AdmitOutcome::RejectPerPeer));
    assert!(matches!(table.try_admit(staked_meta(2, 5)), AdmitOutcome::RejectPerPeer));
}

#[test]
fn full_unstaked_table_evicts_oldest_and_spares_staked() {
    let mut table = ConnectionTable::new(2, 2, 8);
    let s1 = admitted_id(&table.try_admit(staked_meta(1, 1)));
    let s2 = admitted_id(&table.try_admit(staked_meta(2, 2)));
    let u1 = admitted_id(&table.try_admit(unstaked_meta(11)));
    let u2 = admitted_id(&table.try_admit(unstaked_meta(12)));
    let outcome = table.try_admit(unstaked_meta(13));
    match outcome {
        AdmitOutcome::Admit { evicted: Some(gone), .. } => {
            assert_eq!(gone.id, u1);
            assert_eq!(gone.class, PeerClass::Unstaked);
        }
        other => panic!("unexpected outcome: {:?}", other),
    }
    assert_eq!(table.staked_len(), 2);
    assert!(table.get(s1).is_some());
    assert!(table.get(s2).is_some());
    assert!(table.get(u1).is_none());
    assert!(table.get(u2).is_some());
    assert_eq!(table.unstaked_len(), 2);
}

#[test]
fn unstaked_table_without_room_rejects_for_capacity() {
    let mut table = ConnectionTable::new(2, 0, 8);
    assert!(matches!(table.try_admit(unstaked_meta(1)), AdmitOutcome::RejectCapacity));
    assert_eq!(table.unstaked_len(), 0);
}

#[test]
fn staked_table_without_room_rejects_for_pruning() {
    let mut table = ConnectionTable::new(0, 2, 8);
    assert!(matches!(table.try_admit(staked_meta(1, 99)), AdmitOutcome::RejectCapacityPruning));
}

#[test]
fn equal_stake_does_not_evict() {
    let mut table = ConnectionTable::new(1, 1, 8);
    table.try_admit(staked_meta(1, 10));
    assert!(matches!(table.try_admit(staked_meta(2, 10)), AdmitOutcome::RejectCapacityPruning));
}

#[test]
fn lowest_stake_leaves_and_ties_go_to_the_oldest() {
    let mut table = ConnectionTable::new(4, 1, 8);
    let a = admitted_id(&table.try_admit(staked_meta(1, 30)));
    let b = admitted_id(&table.try_admit(staked_meta(2, 7)));
    let c = admitted_id(&table.try_admit(staked_meta(3, 7)));
    let d = admitted_id(&table.try_admit(staked_meta(4, 12)));
    match table.try_admit(staked_meta(5, 100)) {
        AdmitOutcome::Admit { evicted: Some(gone), .. } => assert_eq!(gone.id, b),
        other => panic!("unexpected outcome: {:?}", other),
    }
    match table.try_admit(staked_meta(6, 100)) {
        AdmitOutcome::Admit { evicted: Some(gone), .. } => assert_eq!(gone.id, c),
        other => panic!("unexpected outcome: {:?}", other),
    }
    match table.try_admit(staked_meta(7, 13)) {
        AdmitOutcome::Admit { evicted: Some(gone), .. } => assert_eq!(gone.id, d),
        other => panic!("unexpected outcome: {:?}", other),
    }
    assert!(table.get(a).is_some());
    assert_eq!(table.staked_len(), 4);
}

#[test]
fn admission_numbers_grow_and_record_starts_fresh() {
    let mut table = ConnectionTable::new(4, 4, 8);
    let mut meta = unstaked_meta(1);
    meta.now_ms = 77;
    meta.budget = 5;
    let first = admitted_id(&table.try_admit(meta));
    let second = admitted_id(&table.try_admit(staked_meta(2, 3)));
    assert!(second > first);
    let record = table.get(first).unwrap();
    assert_eq!(record.stream_count, 0);
    assert_eq!(record.last_activity_ms, 77);
    assert_eq!(record.throttle.window_start_ms, 77);
    assert_eq!(record.throttle.opens_in_window, 0);
    assert_eq!(record.throttle.assigned_budget, 5);
    assert_eq!(record.remote, table_addr(9001));
    assert!(record.peer.same(&table_peer(1)));
}

#[test]
fn remove_hands_back_the_record_once() {
    let mut table = ConnectionTable::new(4, 4, 8);
    let id = admitted_id(&table.try_admit(unstaked_meta(1)));
    let other = admitted_id(&table.try_admit(staked_meta(2, 3)));
    assert_eq!(table.remove(id).unwrap().id, id);
    assert!(table.remove(id).is_none());
    assert!(table.get(id).is_none());
    assert!(table.get(other).is_some());
    assert_eq!(table.unstaked_len(), 0);
    assert_eq!(table.staked_len(), 1);
    assert!(table.remove(12345).is_none());
}

#[test]
fn replace_keeps_identity() {
    let mut table = ConnectionTable::new(4, 4, 8);
    let id = admitted_id(&table.try_admit(unstaked_meta(1)));
    let mut record = table.get(id).unwrap();
    record.stream_count = 3;
    record.last_activity_ms = 9;
    assert!(table.replace(record));
    assert_eq!(table.get(id).unwrap().stream_count, 3);

    let mut other_peer = record;
    other_peer.peer = table_peer(2);
    assert!(!table.replace(other_peer));

    let mut other_class = record;
    other_class.class = PeerClass::Staked { stake: 1, total_stake: 2 };
    assert!(!table.replace(other_class));

    let mut over_budget = record;
    over_budget.throttle.opens_in_window = over_budget.throttle.assigned_budget + 1;
    assert!(!table.replace(over_budget));

    let mut unknown = record;
    unknown.id = 999;
    assert!(!table.replace(unknown));
    assert_eq!(table.get(id).unwrap().stream_count, 3);
    assert_eq!(table.peer_count(&table_peer(1)), 1);
}
