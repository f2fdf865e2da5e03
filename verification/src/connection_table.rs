//! The bounded tables of admitted connections: per-peer cap, capacity and eviction.

use crate::peer::{PeerClass, PeerId, SocketAddress};
use crate::throttle::StreamThrottler;
use vstd::prelude::*;

verus! {

/// Default limit on staked connections.
pub const MAX_STAKED_CONNECTIONS: usize = 2000;

/// Default limit on unstaked connections.
pub const MAX_UNSTAKED_CONNECTIONS: usize = 500;

/// What is known of a connection when it asks to be admitted.
#[derive(Clone, Copy, Debug)]
pub struct ConnectionMeta {
    pub peer: PeerId,
    pub remote: SocketAddress,
    pub class: PeerClass,
    /// Clock reading at the end of the handshake.
    pub now_ms: u64,
    /// Streams that the connection may open in its first window.
    pub budget: u64,
}

/// An admitted connection.
#[derive(Clone, Copy, Debug)]
pub struct ConnectionRecord {
    /// Admission number: larger for a connection admitted later, never used twice.
    /// It is the handle by which the connection's tasks are found and cancelled.
    pub id: u64,
    pub peer: PeerId,
    pub remote: SocketAddress,
    pub class: PeerClass,
    /// Streams of the connection that are being read.
    pub stream_count: u64,
    /// Clock reading when the connection last opened a stream.
    pub last_activity_ms: u64,
    pub throttle: StreamThrottler,
}

/// The answer to a connection that asks to be admitted.
#[derive(Clone, Copy, Debug)]
pub enum AdmitOutcome {
    /// The connection is in the table under `id`. Where room had to be made,
    /// `evicted` is the connection that left the table for it.
    Admit { id: u64, evicted: Option<ConnectionRecord> },
    /// The peer already has as many connections as one peer may have.
    RejectPerPeer,
    /// The staked table is full and nobody in it has less stake than the newcomer.
    RejectCapacityPruning,
    /// The table cannot take the connection: it is full with nobody in it
    /// who could leave, or no admission number is left.
    RejectCapacity,
}

/// Number of records of `records` that belong to `peer`.
pub open spec fn count_peer(records: Seq<ConnectionRecord>, peer: Seq<u8>) -> nat
    decreases records.len(),
{
    if records.len() == 0 {
        0
    } else {
        let rest = count_peer(records.drop_last(), peer);
        if records.last().peer@ == peer {
            rest + 1
        } else {
            rest
        }
    }
}

/// Records stand in the order of their admission.
pub open spec fn ascending_ids(records: Seq<ConnectionRecord>) -> bool {
    forall|i: int, j: int|
        0 <= i < j < records.len() ==> (#[trigger] records[i]).id < (#[trigger] records[j]).id
}

/// Some record has less stake than `stake`.
pub open spec fn has_lower_stake(records: Seq<ConnectionRecord>, stake: u64) -> bool {
    exists|j: int| 0 <= j < records.len() && (#[trigger] records[j]).class.stake() < stake
}

/// Record `i` is the one that leaves for a newcomer with `stake`: it has less
/// stake than the newcomer, nobody has less than it, and of those with as
/// little it was admitted first.
pub open spec fn is_evictee(records: Seq<ConnectionRecord>, stake: u64, i: int) -> bool {
    &&& 0 <= i < records.len()
    &&& records[i].class.stake() < stake
    &&& forall|j: int|
        0 <= j < records.len() ==> {
            ||| records[i].class.stake() < (#[trigger] records[j]).class.stake()
            ||| (records[i].class.stake() == records[j].class.stake() && records[i].id
                <= records[j].id)
        }
}

/// Position of the record that leaves for a newcomer with `stake`.
pub open spec fn evictee_index(records: Seq<ConnectionRecord>, stake: u64) -> int {
    choose|i: int| is_evictee(records, stake, i)
}

/// Some record carries the admission number `id`.
pub open spec fn holds_id(records: Seq<ConnectionRecord>, id: u64) -> bool {
    exists|i: int| 0 <= i < records.len() && (#[trigger] records[i]).id == id
}

/// Position of the record with admission number `id`.
pub open spec fn position_of(records: Seq<ConnectionRecord>, id: u64) -> int {
    choose|i: int| 0 <= i < records.len() && (#[trigger] records[i]).id == id
}

/// Appending a record raises the count of its peer by one and no other count.
proof fn lemma_count_peer_push(records: Seq<ConnectionRecord>, r: ConnectionRecord, peer: Seq<u8>)
    ensures
        count_peer(records.push(r), peer) == count_peer(records, peer) + if r.peer@ == peer {
            1nat
        } else {
            0nat
        },
{
    assert(records.push(r).drop_last() =~= records);
}

/// Taking a record out lowers the count of its peer by one and no other count.
proof fn lemma_count_peer_remove(records: Seq<ConnectionRecord>, i: int, peer: Seq<u8>)
    requires
        0 <= i < records.len(),
    ensures
        count_peer(records, peer) == count_peer(records.remove(i), peer) + if records[i].peer@
            == peer {
            1nat
        } else {
            0nat
        },
    decreases records.len(),
{
    if i == records.len() - 1 {
        assert(records.remove(i) =~= records.drop_last());
    } else {
        lemma_count_peer_remove(records.drop_last(), i, peer);
        assert(records.remove(i).drop_last() =~= records.drop_last().remove(i));
        assert(records.remove(i).last() == records.last());
    }
}

/// Putting a record in the place of one of the same peer changes no count.
proof fn lemma_count_peer_update(
    records: Seq<ConnectionRecord>,
    i: int,
    r: ConnectionRecord,
    peer: Seq<u8>,
)
    requires
        0 <= i < records.len(),
        r.peer@ == records[i].peer@,
    ensures
        count_peer(records.update(i, r), peer) == count_peer(records, peer),
    decreases records.len(),
{
    if i == records.len() - 1 {
        assert(records.update(i, r).drop_last() =~= records.drop_last());
    } else {
        lemma_count_peer_update(records.drop_last(), i, r, peer);
        assert(records.update(i, r).drop_last() =~= records.drop_last().update(i, r));
    }
}

/// Among records in the order of their admission, only one can be the evictee.
pub proof fn lemma_evictee_unique(records: Seq<ConnectionRecord>, stake: u64, i: int)
    requires
        ascending_ids(records),
        is_evictee(records, stake, i),
    ensures
        evictee_index(records, stake) == i,
        has_lower_stake(records, stake),
{
    let k = evictee_index(records, stake);
    assert(is_evictee(records, stake, k));
    assert(records[k].class.stake() == records[i].class.stake());
    assert(records[k].id == records[i].id);
    if k < i {
        assert(records[k].id < records[i].id);
    } else if i < k {
        assert(records[i].id < records[k].id);
    }
}

/// Among records in the order of their admission, an admission number has one position.
pub proof fn lemma_position_unique(records: Seq<ConnectionRecord>, id: u64, i: int)
    requires
        ascending_ids(records),
        0 <= i < records.len(),
        records[i].id == id,
    ensures
        position_of(records, id) == i,
        holds_id(records, id),
{
    let k = position_of(records, id);
    if k < i {
        assert(records[k].id < records[i].id);
    } else if i < k {
        assert(records[i].id < records[k].id);
    }
}

/// A record is fit for the table of its class: its admission number is below
/// `next_id`, and it never admitted more streams than its window allowed.
pub open spec fn record_fits(r: ConnectionRecord, staked: bool, next_id: u64) -> bool {
    &&& r.id < next_id
    &&& staked <==> r.class is Staked
    &&& r.throttle.wf()
}

/// Every record is fit for the table of its class.
pub open spec fn records_fit(records: Seq<ConnectionRecord>, staked: bool, next_id: u64) -> bool {
    forall|i: int| 0 <= i < records.len() ==> record_fits(#[trigger] records[i], staked, next_id)
}

/// No admission number occurs in both lists.
pub open spec fn disjoint_ids(a: Seq<ConnectionRecord>, b: Seq<ConnectionRecord>) -> bool {
    forall|i: int, j: int|
        0 <= i < a.len() && 0 <= j < b.len() ==> (#[trigger] a[i]).id != (#[trigger] b[j]).id
}

/// `at` gives each record of `part` its place in `whole`, in the same order.
spec fn embeds(
    at: spec_fn(int) -> int,
    part: Seq<ConnectionRecord>,
    whole: Seq<ConnectionRecord>,
) -> bool {
    &&& forall|i: int|
        0 <= i < part.len() ==> 0 <= #[trigger] at(i) < whole.len() && whole[at(i)] == part[i]
    &&& forall|i: int, j: int| 0 <= i < j < part.len() ==> #[trigger] at(i) < #[trigger] at(j)
}

/// Every record of `part` is a record of `whole`, and two records of `part`
/// stand in the order in which they stand in `whole`.
spec fn sublist(part: Seq<ConnectionRecord>, whole: Seq<ConnectionRecord>) -> bool {
    exists|at: spec_fn(int) -> int| #[trigger] embeds(at, part, whole)
}

/// A list without one of its records is a sublist of it.
proof fn lemma_remove_is_sublist(records: Seq<ConnectionRecord>, i: int)
    requires
        0 <= i < records.len(),
    ensures
        sublist(records.remove(i), records),
{
    let at = |k: int| if k < i { k } else { k + 1 };
    let part = records.remove(i);
    assert(embeds(at, part, records));
}

/// A list is a sublist of itself.
proof fn lemma_sublist_refl(records: Seq<ConnectionRecord>)
    ensures
        sublist(records, records),
{
    let at = |k: int| k;
    assert(embeds(at, records, records));
}

/// What holds of every record of a list holds of every record of a sublist.
proof fn lemma_sublist_keeps(
    part: Seq<ConnectionRecord>,
    whole: Seq<ConnectionRecord>,
    other: Seq<ConnectionRecord>,
    staked: bool,
    next_id: u64,
)
    requires
        sublist(part, whole),
    ensures
        ascending_ids(whole) ==> ascending_ids(part),
        records_fit(whole, staked, next_id) ==> records_fit(part, staked, next_id),
        disjoint_ids(whole, other) ==> disjoint_ids(part, other),
        disjoint_ids(other, whole) ==> disjoint_ids(other, part),
{
    let at = choose|at: spec_fn(int) -> int| #[trigger] embeds(at, part, whole);
    if ascending_ids(whole) {
        assert forall|i: int, j: int| 0 <= i < j < part.len() implies (#[trigger] part[i]).id < (
        #[trigger] part[j]).id by {
            assert(at(i) < at(j));
            assert(whole[at(i)].id < whole[at(j)].id);
        }
    }
    if records_fit(whole, staked, next_id) {
        assert forall|i: int| 0 <= i < part.len() implies record_fits(
            #[trigger] part[i],
            staked,
            next_id,
        ) by {
            assert(record_fits(whole[at(i)], staked, next_id));
        }
    }
    if disjoint_ids(whole, other) {
        assert forall|i: int, j: int| 0 <= i < part.len() && 0 <= j < other.len() implies (
        #[trigger] part[i]).id != (#[trigger] other[j]).id by {
            assert(whole[at(i)].id != other[j].id);
        }
    }
    if disjoint_ids(other, whole) {
        assert forall|i: int, j: int| 0 <= i < other.len() && 0 <= j < part.len() implies (
        #[trigger] other[i]).id != (#[trigger] part[j]).id by {
            assert(other[i].id != whole[at(j)].id);
        }
    }
}

/// A list stays in order, fit and apart from another list when a record with
/// the next admission number is appended.
proof fn lemma_push_keeps(
    records: Seq<ConnectionRecord>,
    other: Seq<ConnectionRecord>,
    r: ConnectionRecord,
    staked: bool,
    next_id: u64,
)
    requires
        next_id < u64::MAX,
        ascending_ids(records),
        records_fit(records, staked, next_id),
        records_fit(other, !staked, next_id),
        record_fits(r, staked, (next_id + 1) as u64),
        r.id == next_id,
    ensures
        ascending_ids(records.push(r)),
        records_fit(records.push(r), staked, (next_id + 1) as u64),
        records_fit(other, !staked, (next_id + 1) as u64),
        disjoint_ids(records, other) ==> disjoint_ids(records.push(r), other),
        disjoint_ids(other, records) ==> disjoint_ids(other, records.push(r)),
{
    let grown = records.push(r);
    assert forall|i: int, j: int| 0 <= i < j < grown.len() implies (#[trigger] grown[i]).id < (
    #[trigger] grown[j]).id by {
        assert(record_fits(records[i], staked, next_id));
        if j < records.len() {
            assert(grown[j] == records[j]);
        }
    }
    assert forall|i: int| 0 <= i < grown.len() implies record_fits(
        #[trigger] grown[i],
        staked,
        (next_id + 1) as u64,
    ) by {
        if i < records.len() {
            assert(record_fits(records[i], staked, next_id));
        }
    }
    assert forall|i: int| 0 <= i < other.len() implies record_fits(
        #[trigger] other[i],
        !staked,
        (next_id + 1) as u64,
    ) by {
        assert(record_fits(other[i], !staked, next_id));
    }
    if disjoint_ids(records, other) {
        assert forall|i: int, j: int| 0 <= i < grown.len() && 0 <= j < other.len() implies (
        #[trigger] grown[i]).id != (#[trigger] other[j]).id by {
            assert(record_fits(other[j], !staked, next_id));
            if i < records.len() {
                assert(grown[i] == records[i]);
            }
        }
    }
    if disjoint_ids(other, records) {
        assert forall|i: int, j: int| 0 <= i < other.len() && 0 <= j < grown.len() implies (
        #[trigger] other[i]).id != (#[trigger] grown[j]).id by {
            assert(record_fits(other[i], !staked, next_id));
            if j < records.len() {
                assert(grown[j] == records[j]);
            }
        }
    }
}

/// What a `ConnectionTable` stands for.
pub struct TableView {
    /// Staked connections, oldest first.
    pub staked: Seq<ConnectionRecord>,
    /// Unstaked connections, oldest first.
    pub unstaked: Seq<ConnectionRecord>,
    pub max_staked: usize,
    pub max_unstaked: usize,
    pub max_connections_per_peer: usize,
    /// The admission number that the next admitted connection gets.
    pub next_id: u64,
}

impl TableView {
    /// Connections of `peer` in both tables together.
    pub open spec fn peer_count(self, peer: Seq<u8>) -> nat {
        count_peer(self.staked, peer) + count_peer(self.unstaked, peer)
    }

    /// Neither table exceeds its limit; records stand in the order of their
    /// admission, each in the table of its class and under a number of its
    /// own; no peer has more connections than one peer may have.
    pub open spec fn wf(self) -> bool {
        &&& self.staked.len() <= self.max_staked
        &&& self.unstaked.len() <= self.max_unstaked
        &&& ascending_ids(self.staked)
        &&& ascending_ids(self.unstaked)
        &&& records_fit(self.staked, true, self.next_id)
        &&& records_fit(self.unstaked, false, self.next_id)
        &&& disjoint_ids(self.staked, self.unstaked)
        &&& forall|peer: Seq<u8>| #[trigger] self.peer_count(peer) <= self.max_connections_per_peer
    }

    /// The record under which a newcomer is admitted.
    pub open spec fn record_for(self, meta: ConnectionMeta) -> ConnectionRecord {
        ConnectionRecord {
            id: self.next_id,
            peer: meta.peer,
            remote: meta.remote,
            class: meta.class,
            stream_count: 0,
            last_activity_ms: meta.now_ms,
            throttle: StreamThrottler {
                window_start_ms: meta.now_ms,
                opens_in_window: 0,
                assigned_budget: meta.budget,
            },
        }
    }

    /// The newcomer's table is full.
    pub open spec fn full_for(self, class: PeerClass) -> bool {
        if class is Staked {
            self.staked.len() >= self.max_staked
        } else {
            self.unstaked.len() >= self.max_unstaked
        }
    }

    /// The connection that leaves for the newcomer, if one does.
    pub open spec fn evicted_by(self, meta: ConnectionMeta) -> Option<ConnectionRecord> {
        if self.peer_count(meta.peer@) >= self.max_connections_per_peer || self.next_id == u64::MAX
            || !self.full_for(meta.class) {
            None
        } else if meta.class is Staked {
            if has_lower_stake(self.staked, meta.class.stake()) {
                Some(self.staked[evictee_index(self.staked, meta.class.stake())])
            } else {
                None
            }
        } else {
            if self.unstaked.len() > 0 {
                Some(self.unstaked[0])
            } else {
                None
            }
        }
    }

    /// The answer to a newcomer.
    pub open spec fn admit_outcome(self, meta: ConnectionMeta) -> AdmitOutcome {
        if self.peer_count(meta.peer@) >= self.max_connections_per_peer {
            AdmitOutcome::RejectPerPeer
        } else if self.next_id == u64::MAX {
            AdmitOutcome::RejectCapacity
        } else if !self.full_for(meta.class) || self.evicted_by(meta) is Some {
            AdmitOutcome::Admit { id: self.next_id, evicted: self.evicted_by(meta) }
        } else if meta.class is Staked {
            AdmitOutcome::RejectCapacityPruning
        } else {
            AdmitOutcome::RejectCapacity
        }
    }

    /// The table after a newcomer was answered.
    pub open spec fn after_admit(self, meta: ConnectionMeta) -> TableView {
        if !(self.admit_outcome(meta) is Admit) {
            self
        } else {
            let record = self.record_for(meta);
            let next_id = (self.next_id + 1) as u64;
            if meta.class is Staked {
                let kept = if self.full_for(meta.class) {
                    self.staked.remove(evictee_index(self.staked, meta.class.stake()))
                } else {
                    self.staked
                };
                TableView { staked: kept.push(record), next_id, ..self }
            } else {
                let kept = if self.full_for(meta.class) {
                    self.unstaked.remove(0)
                } else {
                    self.unstaked
                };
                TableView { unstaked: kept.push(record), next_id, ..self }
            }
        }
    }

    /// The record with admission number `id`, if the table holds one.
    pub open spec fn find(self, id: u64) -> Option<ConnectionRecord> {
        if holds_id(self.staked, id) {
            Some(self.staked[position_of(self.staked, id)])
        } else if holds_id(self.unstaked, id) {
            Some(self.unstaked[position_of(self.unstaked, id)])
        } else {
            None
        }
    }

    /// `record` may take the place of the record with its admission number:
    /// the table holds one, for the same peer and in the table of the same
    /// class, and `record` never admitted more streams than its window allowed.
    pub open spec fn can_replace(self, record: ConnectionRecord) -> bool {
        &&& record.throttle.wf()
        &&& self.find(record.id) matches Some(current)
        &&& current.peer@ == record.peer@
        &&& holds_id(self.staked, record.id) <==> record.class is Staked
    }

    /// The table with `record` in the place of the record with its admission number.
    pub open spec fn after_replace(self, record: ConnectionRecord) -> TableView {
        if !self.can_replace(record) {
            self
        } else if holds_id(self.staked, record.id) {
            TableView {
                staked: self.staked.update(position_of(self.staked, record.id), record),
                ..self
            }
        } else {
            TableView {
                unstaked: self.unstaked.update(position_of(self.unstaked, record.id), record),
                ..self
            }
        }
    }

    /// A record that the table holds is fit to be put back in its own place.
    pub proof fn lemma_found(self, id: u64)
        requires
            self.wf(),
        ensures
            self.find(id) matches Some(r) ==> {
                &&& r.id == id
                &&& r.throttle.wf()
                &&& holds_id(self.staked, id) <==> r.class is Staked
                &&& forall|c: ConnectionRecord|
                    c.id == id && c.peer@ == r.peer@ && c.class == r.class && c.throttle.wf()
                        ==> #[trigger] self.can_replace(c)
            },
    {
        if holds_id(self.staked, id) {
            let i = position_of(self.staked, id);
            assert(record_fits(self.staked[i], true, self.next_id));
        } else if holds_id(self.unstaked, id) {
            let i = position_of(self.unstaked, id);
            assert(record_fits(self.unstaked[i], false, self.next_id));
        }
    }

    /// After a record was put in the place of another, it is what the table
    /// holds under its admission number.
    pub proof fn lemma_replaced_is_found(self, before: TableView, record: ConnectionRecord)
        requires
            before.wf(),
            before.can_replace(record),
            self == before.after_replace(record),
        ensures
            self.find(record.id) == Some(record),
    {
        if holds_id(before.staked, record.id) {
            let i = position_of(before.staked, record.id);
            assert(self.staked[i] == record);
            assert forall|a: int, b: int| 0 <= a < b < self.staked.len() implies (
            #[trigger] self.staked[a]).id < (#[trigger] self.staked[b]).id by {
                assert(self.staked[a].id == before.staked[a].id);
                assert(self.staked[b].id == before.staked[b].id);
            }
            lemma_position_unique(self.staked, record.id, i);
        } else {
            let i = position_of(before.unstaked, record.id);
            assert(self.unstaked[i] == record);
            assert forall|a: int, b: int| 0 <= a < b < self.unstaked.len() implies (
            #[trigger] self.unstaked[a]).id < (#[trigger] self.unstaked[b]).id by {
                assert(self.unstaked[a].id == before.unstaked[a].id);
                assert(self.unstaked[b].id == before.unstaked[b].id);
            }
            lemma_position_unique(self.unstaked, record.id, i);
        }
    }

    /// The table without the record with admission number `id`.
    pub open spec fn after_remove(self, id: u64) -> TableView {
        if holds_id(self.staked, id) {
            TableView { staked: self.staked.remove(position_of(self.staked, id)), ..self }
        } else if holds_id(self.unstaked, id) {
            TableView { unstaked: self.unstaked.remove(position_of(self.unstaked, id)), ..self }
        } else {
            self
        }
    }
}

/// The tables of admitted connections, staked and unstaked, each bounded.
pub struct ConnectionTable {
    staked: Vec<ConnectionRecord>,
    unstaked: Vec<ConnectionRecord>,
    max_staked: usize,
    max_unstaked: usize,
    max_connections_per_peer: usize,
    next_id: u64,
}

impl View for ConnectionTable {
    type V = TableView;

    closed spec fn view(&self) -> TableView {
        TableView {
            staked: self.staked@,
            unstaked: self.unstaked@,
            max_staked: self.max_staked,
            max_unstaked: self.max_unstaked,
            max_connections_per_peer: self.max_connections_per_peer,
            next_id: self.next_id,
        }
    }
}

/// Counts the records of `records` that belong to `peer`.
fn count_in(records: &Vec<ConnectionRecord>, peer: &PeerId) -> (n: usize)
    ensures
        n == count_peer(records@, peer@),
{
    let mut n: usize = 0;
    let mut k: usize = 0;
    while k < records.len()
        invariant
            0 <= k <= records.len(),
            n == count_peer(records@.take(k as int), peer@),
            n <= k,
        decreases records.len() - k,
    {
        proof {
            assert(records@.take(k + 1).drop_last() =~= records@.take(k as int));
        }
        if records[k].peer.same(peer) {
            n = n + 1;
        }
        k = k + 1;
    }
    proof {
        assert(records@.take(k as int) =~= records@);
    }
    n
}

/// Finds the record that leaves for a newcomer with `stake`.
fn find_evictee(records: &Vec<ConnectionRecord>, stake: u64) -> (found: Option<usize>)
    requires
        ascending_ids(records@),
    ensures
        match found {
            Some(i) => is_evictee(records@, stake, i as int),
            None => !has_lower_stake(records@, stake),
        },
{
    let mut best: Option<usize> = None;
    let mut k: usize = 0;
    while k < records.len()
        invariant
            0 <= k <= records.len(),
            ascending_ids(records@),
            match best {
                Some(b) => {
                    &&& b < k
                    &&& records@[b as int].class.stake() < stake
                    &&& forall|j: int|
                        0 <= j < k ==> {
                            ||| records@[b as int].class.stake() < (#[trigger] records@[j]).class.stake()
                            ||| (records@[b as int].class.stake() == records@[j].class.stake()
                                && records@[b as int].id <= records@[j].id)
                        }
                },
                None => forall|j: int| 0 <= j < k ==> (#[trigger] records@[j]).class.stake() >= stake,
            },
        decreases records.len() - k,
    {
        let s = records[k].class.stake();
        if s < stake {
            match best {
                Some(b) => {
                    if s < records[b].class.stake() {
                        best = Some(k);
                    } else {
                        assert(records@[b as int].id < records@[k as int].id);
                    }
                },
                None => {
                    best = Some(k);
                },
            }
        }
        k = k + 1;
    }
    best
}

/// Finds the record with admission number `id`, by halving the range in
/// which it can stand: the records stand in the order of their numbers.
fn find_id(records: &Vec<ConnectionRecord>, id: u64) -> (found: Option<usize>)
    requires
        ascending_ids(records@),
    ensures
        match found {
            Some(i) => i < records.len() && records@[i as int].id == id && position_of(records@, id) == i
                && holds_id(records@, id),
            None => !holds_id(records@, id),
        },
{
    let mut lo: usize = 0;
    let mut hi: usize = records.len();
    while lo < hi
        invariant
            0 <= lo <= hi <= records.len(),
            ascending_ids(records@),
            forall|j: int| 0 <= j < lo ==> (#[trigger] records@[j]).id < id,
            forall|j: int| hi <= j < records.len() ==> (#[trigger] records@[j]).id > id,
        decreases hi - lo,
    {
        let mid = lo + (hi - lo) / 2;
        let mid_id = records[mid].id;
        if mid_id == id {
            proof {
                lemma_position_unique(records@, id, mid as int);
            }
            return Some(mid);
        } else if mid_id < id {
            assert forall|j: int| 0 <= j < mid + 1 implies (#[trigger] records@[j]).id < id by {
                if j < mid {
                    assert(records@[j].id < records@[mid as int].id);
                }
            }
            lo = mid + 1;
        } else {
            assert forall|j: int| mid <= j < records.len() implies (#[trigger] records@[j]).id
                > id by {
                if mid < j {
                    assert(records@[mid as int].id < records@[j].id);
                }
            }
            hi = mid;
        }
    }
    None
}

impl ConnectionTable {
    /// Neither table exceeds its limit, records stand in the order of their
    /// admission, and no peer has more connections than one peer may have.
    pub open spec fn wf(&self) -> bool {
        self@.wf()
    }

    /// Empty tables with the given limits.
    pub fn new(max_staked: usize, max_unstaked: usize, max_connections_per_peer: usize) -> (table:
        ConnectionTable)
        ensures
            table.wf(),
            table@ == (TableView {
                staked: Seq::empty(),
                unstaked: Seq::empty(),
                max_staked,
                max_unstaked,
                max_connections_per_peer,
                next_id: 0,
            }),
    {
        let table = ConnectionTable {
            staked: Vec::new(),
            unstaked: Vec::new(),
            max_staked,
            max_unstaked,
            max_connections_per_peer,
            next_id: 0,
        };
        proof {
            assert forall|peer: Seq<u8>| #[trigger] table@.peer_count(peer) == 0 by {}
        }
        table
    }

    /// Number of staked connections.
    pub fn staked_len(&self) -> (n: usize)
        ensures
            n == self@.staked.len(),
    {
        self.staked.len()
    }

    /// Number of unstaked connections.
    pub fn unstaked_len(&self) -> (n: usize)
        ensures
            n == self@.unstaked.len(),
    {
        self.unstaked.len()
    }

    /// Number of connections that `peer` has in both tables together.
    pub fn peer_count(&self, peer: &PeerId) -> (n: usize)
        requires
            self.wf(),
        ensures
            n == self@.peer_count(peer@),
    {
        proof {
            assert(self@.peer_count(peer@) <= self.max_connections_per_peer);
        }
        let a = count_in(&self.staked, peer);
        let b = count_in(&self.unstaked, peer);
        a + b
    }

    /// Answers a connection that asks to be admitted.
    ///
    /// A peer that already has as many connections as one peer may have is
    /// refused. Otherwise the connection goes to the table of its class. Where
    /// that table has room it is admitted. A full unstaked table lets its
    /// oldest connection go for the newcomer. A full staked table lets go the
    /// connection of least stake below the newcomer's, the oldest of them; where
    /// nobody has less stake than the newcomer, the newcomer is refused.
    pub fn try_admit(&mut self, meta: ConnectionMeta) -> (outcome: AdmitOutcome)
        requires
            old(self).wf(),
        ensures
            final(self).wf(),
            outcome == old(self)@.admit_outcome(meta),
            final(self)@ == old(self)@.after_admit(meta),
    {
        let count = self.peer_count(&meta.peer);
        if count >= self.max_connections_per_peer {
            return AdmitOutcome::RejectPerPeer;
        }
        if self.next_id == u64::MAX {
            return AdmitOutcome::RejectCapacity;
        }
        let id = self.next_id;
        let record = ConnectionRecord {
            id,
            peer: meta.peer,
            remote: meta.remote,
            class: meta.class,
            stream_count: 0,
            last_activity_ms: meta.now_ms,
            throttle: StreamThrottler::new(meta.now_ms, meta.budget),
        };
        let ghost before = self@;
        match meta.class {
            PeerClass::Staked { stake, .. } => {
                if self.staked.len() < self.max_staked {
                    self.staked.push(record);
                    self.next_id = id + 1;
                    proof {
                        lemma_admitted(before, self@, before.staked, None, record, true);
                    }
                    AdmitOutcome::Admit { id, evicted: None }
                } else {
                    match find_evictee(&self.staked, stake) {
                        Some(i) => {
                            proof {
                                lemma_evictee_unique(self.staked@, stake, i as int);
                            }
                            let evicted = self.staked.remove(i);
                            let ghost kept = self.staked@;
                            self.staked.push(record);
                            self.next_id = id + 1;
                            proof {
                                lemma_admitted(before, self@, kept, Some(i as int), record, true);
                            }
                            AdmitOutcome::Admit { id, evicted: Some(evicted) }
                        },
                        None => AdmitOutcome::RejectCapacityPruning,
                    }
                }
            },
            PeerClass::Unstaked => {
                if self.unstaked.len() < self.max_unstaked {
                    self.unstaked.push(record);
                    self.next_id = id + 1;
                    proof {
                        lemma_admitted(before, self@, before.unstaked, None, record, false);
                    }
                    AdmitOutcome::Admit { id, evicted: None }
                } else if self.unstaked.len() > 0 {
                    let evicted = self.unstaked.remove(0);
                    let ghost kept = self.unstaked@;
                    self.unstaked.push(record);
                    self.next_id = id + 1;
                    proof {
                        lemma_admitted(before, self@, kept, Some(0), record, false);
                    }
                    AdmitOutcome::Admit { id, evicted: Some(evicted) }
                } else {
                    AdmitOutcome::RejectCapacity
                }
            },
        }
    }

    /// The record with admission number `id`, or nothing where the table does not hold it.
    pub fn get(&self, id: u64) -> (found: Option<ConnectionRecord>)
        requires
            self.wf(),
        ensures
            found == self@.find(id),
    {
        match find_id(&self.staked, id) {
            Some(i) => Some(self.staked[i]),
            None => {
                match find_id(&self.unstaked, id) {
                    Some(i) => Some(self.unstaked[i]),
                    None => None,
                }
            },
        }
    }

    /// Puts `record` in the place of the record with the same admission
    /// number. This is done, and `true` returned, where the table holds such a
    /// record for the same peer and class and `record` never admitted more
    /// streams than its window allowed; otherwise the table stays as it is.
    pub fn replace(&mut self, record: ConnectionRecord) -> (done: bool)
        requires
            old(self).wf(),
        ensures
            final(self).wf(),
            done == old(self)@.can_replace(record),
            final(self)@ == old(self)@.after_replace(record),
    {
        let ghost before = self@;
        if record.throttle.opens_in_window > record.throttle.assigned_budget {
            return false;
        }
        match find_id(&self.staked, record.id) {
            Some(i) => {
                let current = self.staked[i];
                if current.peer.same(&record.peer) && record.class.is_staked() {
                    self.staked.set(i, record);
                    proof {
                        lemma_replaced(before, self@, i as int, record, true);
                    }
                    true
                } else {
                    false
                }
            },
            None => {
                match find_id(&self.unstaked, record.id) {
                    Some(i) => {
                        let current = self.unstaked[i];
                        if current.peer.same(&record.peer) && !record.class.is_staked() {
                            self.unstaked.set(i, record);
                            proof {
                                lemma_replaced(before, self@, i as int, record, false);
                            }
                            true
                        } else {
                            false
                        }
                    },
                    None => false,
                }
            },
        }
    }

    /// Takes the connection with admission number `id` out of the table and
    /// hands its record back, or nothing where the table does not hold it.
    pub fn remove(&mut self, id: u64) -> (removed: Option<ConnectionRecord>)
        requires
            old(self).wf(),
        ensures
            final(self).wf(),
            removed == old(self)@.find(id),
            final(self)@ == old(self)@.after_remove(id),
    {
        let ghost before = self@;
        match find_id(&self.staked, id) {
            Some(i) => {
                let record = self.staked.remove(i);
                proof {
                    lemma_removed(before, self@, i as int, true);
                }
                Some(record)
            },
            None => {
                match find_id(&self.unstaked, id) {
                    Some(i) => {
                        let record = self.unstaked.remove(i);
                        proof {
                            lemma_removed(before, self@, i as int, false);
                        }
                        Some(record)
                    },
                    None => None,
                }
            },
        }
    }
}

/// A table stays well formed when one record leaves it.
proof fn lemma_removed(before: TableView, after: TableView, i: int, staked: bool)
    requires
        before.wf(),
        staked ==> 0 <= i < before.staked.len() && after == (TableView {
            staked: before.staked.remove(i),
            ..before
        }),
        !staked ==> 0 <= i < before.unstaked.len() && after == (TableView {
            unstaked: before.unstaked.remove(i),
            ..before
        }),
    ensures
        after.wf(),
        forall|peer: Seq<u8>| #[trigger] after.peer_count(peer) <= before.peer_count(peer),
{
    if staked {
        lemma_remove_is_sublist(before.staked, i);
        lemma_sublist_keeps(after.staked, before.staked, before.unstaked, true, before.next_id);
    } else {
        lemma_remove_is_sublist(before.unstaked, i);
        lemma_sublist_keeps(after.unstaked, before.unstaked, before.staked, false, before.next_id);
    }
    assert forall|peer: Seq<u8>| #[trigger] after.peer_count(peer) <= before.peer_count(peer) by {
        if staked {
            lemma_count_peer_remove(before.staked, i, peer);
        } else {
            lemma_count_peer_remove(before.unstaked, i, peer);
        }
    }
    assert forall|peer: Seq<u8>| #[trigger]
        after.peer_count(peer) <= after.max_connections_per_peer by {
        assert(after.peer_count(peer) <= before.peer_count(peer));
        assert(before.peer_count(peer) <= before.max_connections_per_peer);
    }
}

/// A table stays well formed when a newcomer whose peer is below the cap is
/// appended with the next admission number, after at most one record left
/// the newcomer's table to make room.
proof fn lemma_admitted(
    before: TableView,
    after: TableView,
    kept: Seq<ConnectionRecord>,
    left: Option<int>,
    record: ConnectionRecord,
    staked: bool,
)
    requires
        before.wf(),
        before.next_id < u64::MAX,
        before.peer_count(record.peer@) < before.max_connections_per_peer,
        record.id == before.next_id,
        record.throttle.wf(),
        staked <==> record.class is Staked,
        ({
            let table = if staked { before.staked } else { before.unstaked };
            let limit = if staked { before.max_staked } else { before.max_unstaked };
            match left {
                Some(i) => 0 <= i < table.len() <= limit && kept == table.remove(i),
                None => kept == table && table.len() < limit,
            }
        }),
        staked ==> after == (TableView {
            staked: kept.push(record),
            next_id: (before.next_id + 1) as u64,
            ..before
        }),
        !staked ==> after == (TableView {
            unstaked: kept.push(record),
            next_id: (before.next_id + 1) as u64,
            ..before
        }),
    ensures
        after.wf(),
{
    let table = if staked { before.staked } else { before.unstaked };
    let other = if staked { before.unstaked } else { before.staked };
    match left {
        Some(l) => {
            lemma_remove_is_sublist(table, l);
        },
        None => {
            lemma_sublist_refl(table);
        },
    }
    lemma_sublist_keeps(kept, table, other, staked, before.next_id);
    lemma_push_keeps(kept, other, record, staked, before.next_id);
    assert forall|peer: Seq<u8>| #[trigger]
        after.peer_count(peer) <= after.max_connections_per_peer by {
        lemma_count_peer_push(kept, record, peer);
        match left {
            Some(l) => {
                lemma_count_peer_remove(table, l, peer);
            },
            None => {},
        }
        assert(before.peer_count(peer) <= before.max_connections_per_peer);
    }
}

/// A table stays well formed, with every peer's count unchanged, when a
/// record is replaced by one with the same admission number, peer and class.
proof fn lemma_replaced(
    before: TableView,
    after: TableView,
    i: int,
    record: ConnectionRecord,
    staked: bool,
)
    requires
        before.wf(),
        record.throttle.wf(),
        staked <==> record.class is Staked,
        ({
            let table = if staked { before.staked } else { before.unstaked };
            0 <= i < table.len() && table[i].id == record.id && table[i].peer@ == record.peer@
        }),
        staked ==> after == (TableView { staked: before.staked.update(i, record), ..before }),
        !staked ==> after == (TableView { unstaked: before.unstaked.update(i, record), ..before }),
    ensures
        after.wf(),
        forall|peer: Seq<u8>| #[trigger] after.peer_count(peer) == before.peer_count(peer),
{
    let table = if staked { before.staked } else { before.unstaked };
    let other = if staked { before.unstaked } else { before.staked };
    let changed = table.update(i, record);
    assert(record_fits(table[i], staked, before.next_id));
    assert forall|a: int, b: int| 0 <= a < b < changed.len() implies (#[trigger] changed[a]).id < (
    #[trigger] changed[b]).id by {
        assert(changed[a].id == table[a].id);
        assert(changed[b].id == table[b].id);
    }
    assert forall|k: int| 0 <= k < changed.len() implies record_fits(
        #[trigger] changed[k],
        staked,
        before.next_id,
    ) by {
        if k != i {
            assert(record_fits(table[k], staked, before.next_id));
        }
    }
    if staked {
        assert forall|a: int, b: int| 0 <= a < changed.len() && 0 <= b < other.len() implies (
        #[trigger] changed[a]).id != (#[trigger] other[b]).id by {
            assert(changed[a].id == table[a].id);
        }
    } else {
        assert forall|a: int, b: int| 0 <= a < other.len() && 0 <= b < changed.len() implies (
        #[trigger] other[a]).id != (#[trigger] changed[b]).id by {
            assert(changed[b].id == table[b].id);
        }
    }
    assert forall|peer: Seq<u8>| #[trigger] after.peer_count(peer) == before.peer_count(peer) by {
        lemma_count_peer_update(table, i, record, peer);
    }
    assert forall|peer: Seq<u8>| #[trigger]
        after.peer_count(peer) <= after.max_connections_per_peer by {
        assert(after.peer_count(peer) == before.peer_count(peer));
        assert(before.peer_count(peer) <= before.max_connections_per_peer);
    }
}

/// Where some record has less stake than `stake`, one record is the evictee.
pub proof fn lemma_evictee_exists(records: Seq<ConnectionRecord>, stake: u64)
    requires
        has_lower_stake(records, stake),
    ensures
        is_evictee(records, stake, evictee_index(records, stake)),
{
    let i = evictee_witness(records, stake);
    assert(is_evictee(records, stake, i));
}

proof fn evictee_witness(records: Seq<ConnectionRecord>, stake: u64) -> (i: int)
    requires
        has_lower_stake(records, stake),
    ensures
        is_evictee(records, stake, i),
    decreases records.len(),
{
    let n = records.len() as int;
    let front = records.drop_last();
    let last = records.last();
    if has_lower_stake(front, stake) {
        let f = evictee_witness(front, stake);
        assert(front[f] == records[f]);
        let i = if last.class.stake() < front[f].class.stake() || (last.class.stake()
            == front[f].class.stake() && last.id < front[f].id) {
            n - 1
        } else {
            f
        };
        assert forall|j: int| 0 <= j < n implies {
            ||| records[i].class.stake() < (#[trigger] records[j]).class.stake()
            ||| (records[i].class.stake() == records[j].class.stake() && records[i].id
                <= records[j].id)
        } by {
            if j < n - 1 {
                assert(front[j] == records[j]);
            }
        }
        i
    } else {
        let w = choose|j: int| 0 <= j < records.len() && (#[trigger] records[j]).class.stake() < stake;
        if w < n - 1 {
            assert(front[w] == records[w]);
            assert(false);
        }
        assert forall|j: int| 0 <= j < n implies {
            ||| records[n - 1].class.stake() < (#[trigger] records[j]).class.stake()
            ||| (records[n - 1].class.stake() == records[j].class.stake() && records[n - 1].id
                <= records[j].id)
        } by {
            if j < n - 1 {
                assert(front[j] == records[j]);
                assert(front[j].class.stake() >= stake);
            }
        }
        n - 1
    }
}

/// Answering a newcomer leaves a well-formed table well formed.
pub proof fn lemma_admit_keeps_wf(table: TableView, meta: ConnectionMeta)
    requires
        table.wf(),
    ensures
        table.after_admit(meta).wf(),
{
    if table.admit_outcome(meta) is Admit {
        let record = table.record_for(meta);
        let staked = meta.class is Staked;
        let after = table.after_admit(meta);
        if !table.full_for(meta.class) {
            let kept = if staked { table.staked } else { table.unstaked };
            lemma_admitted(table, after, kept, None, record, staked);
        } else if staked {
            lemma_evictee_exists(table.staked, meta.class.stake());
            let i = evictee_index(table.staked, meta.class.stake());
            lemma_admitted(table, after, table.staked.remove(i), Some(i), record, true);
        } else {
            lemma_admitted(table, after, table.unstaked.remove(0), Some(0), record, false);
        }
    }
}

/// Taking a connection out leaves a well-formed table well formed.
pub proof fn lemma_remove_keeps_wf(table: TableView, id: u64)
    requires
        table.wf(),
    ensures
        table.after_remove(id).wf(),
{
    if holds_id(table.staked, id) {
        lemma_removed(table, table.after_remove(id), position_of(table.staked, id), true);
    } else if holds_id(table.unstaked, id) {
        lemma_removed(table, table.after_remove(id), position_of(table.unstaked, id), false);
    }
}

/// Putting a record in the place of another leaves a well-formed table well formed.
pub proof fn lemma_replace_keeps_wf(table: TableView, record: ConnectionRecord)
    requires
        table.wf(),
    ensures
        table.after_replace(record).wf(),
{
    if table.can_replace(record) {
        table.lemma_found(record.id);
        if holds_id(table.staked, record.id) {
            lemma_replaced(
                table,
                table.after_replace(record),
                position_of(table.staked, record.id),
                record,
                true,
            );
        } else {
            lemma_replaced(
                table,
                table.after_replace(record),
                position_of(table.unstaked, record.id),
                record,
                false,
            );
        }
    }
}

/// One request to a table.
pub enum TableOp {
    /// A connection asks to be admitted.
    Admit(ConnectionMeta),
    /// The connection with this admission number leaves.
    Remove(u64),
    /// This record takes the place of the one with its admission number.
    Replace(ConnectionRecord),
}

/// The table after one request.
pub open spec fn after_op(table: TableView, op: TableOp) -> TableView {
    match op {
        TableOp::Admit(meta) => table.after_admit(meta),
        TableOp::Remove(id) => table.after_remove(id),
        TableOp::Replace(record) => table.after_replace(record),
    }
}

/// The table after a run of requests, oldest first.
pub open spec fn after_ops(table: TableView, ops: Seq<TableOp>) -> TableView
    decreases ops.len(),
{
    if ops.len() == 0 {
        table
    } else {
        after_op(after_ops(table, ops.drop_last()), ops.last())
    }
}

/// Whatever connections ask to be admitted, leave or have their records
/// brought up to date, and in whatever order, neither table ever holds more
/// connections than its limit, and the limits stay.
pub proof fn lemma_tables_stay_bounded(table: TableView, ops: Seq<TableOp>)
    requires
        table.wf(),
    ensures
        after_ops(table, ops).wf(),
        after_ops(table, ops).max_staked == table.max_staked,
        after_ops(table, ops).max_unstaked == table.max_unstaked,
        after_ops(table, ops).max_connections_per_peer == table.max_connections_per_peer,
        after_ops(table, ops).staked.len() <= table.max_staked,
        after_ops(table, ops).unstaked.len() <= table.max_unstaked,
    decreases ops.len(),
{
    if ops.len() > 0 {
        lemma_tables_stay_bounded(table, ops.drop_last());
        let before = after_ops(table, ops.drop_last());
        match ops.last() {
            TableOp::Admit(meta) => {
                lemma_admit_keeps_wf(before, meta);
            },
            TableOp::Remove(id) => {
                lemma_remove_keeps_wf(before, id);
            },
            TableOp::Replace(record) => {
                lemma_replace_keeps_wf(before, record);
            },
        }
    }
}

/// Whatever connections ask to be admitted, leave or have their records
/// brought up to date, and in whatever order, no peer ever has more
/// connections in the tables than one peer may have.
pub proof fn lemma_per_peer_cap_holds(table: TableView, ops: Seq<TableOp>, peer: Seq<u8>)
    requires
        table.wf(),
    ensures
        after_ops(table, ops).peer_count(peer) <= table.max_connections_per_peer,
{
    lemma_tables_stay_bounded(table, ops);
    assert(after_ops(table, ops).peer_count(peer) <= after_ops(
        table,
        ops,
    ).max_connections_per_peer);
}

/// An unstaked newcomer never costs a staked connection its place: the staked
/// table is the same before and after, and whoever leaves is unstaked.
pub proof fn lemma_unstaked_newcomer_spares_staked(table: TableView, meta: ConnectionMeta)
    requires
        table.wf(),
        meta.class is Unstaked,
    ensures
        table.after_admit(meta).staked == table.staked,
        table.evicted_by(meta) matches Some(r) ==> r.class is Unstaked && r == table.unstaked[0],
{
    if table.evicted_by(meta) is Some {
        assert(record_fits(table.unstaked[0], false, table.next_id));
    }
}

/// A staked newcomer with stake `S` whose peer is below the per-peer cap
/// comes to a full staked table. Then somebody leaves for it exactly if some
/// staked connection has less stake than `S`. Whoever leaves is a staked
/// connection with less stake than `S`; no staked connection has less stake
/// than it, and those with as little were all admitted after it. The newcomer
/// is admitted exactly if somebody leaves; otherwise the table stays as it is.
pub proof fn lemma_staked_newcomer_evicts_least(table: TableView, meta: ConnectionMeta)
    requires
        table.wf(),
        meta.class is Staked,
        table.staked.len() >= table.max_staked,
        table.peer_count(meta.peer@) < table.max_connections_per_peer,
        table.next_id < u64::MAX,
    ensures
        table.evicted_by(meta) is Some <==> has_lower_stake(table.staked, meta.class.stake()),
        table.evicted_by(meta) is Some <==> table.admit_outcome(meta) is Admit,
        table.evicted_by(meta) is None ==> table.admit_outcome(meta)
            == AdmitOutcome::RejectCapacityPruning && table.after_admit(meta) == table,
        table.evicted_by(meta) matches Some(r) ==> {
            &&& table.staked.contains(r)
            &&& !table.after_admit(meta).staked.contains(r)
            &&& r.class.stake() < meta.class.stake()
            &&& forall|j: int|
                0 <= j < table.staked.len() ==> {
                    ||| r.class.stake() < (#[trigger] table.staked[j]).class.stake()
                    ||| (r.class.stake() == table.staked[j].class.stake() && r.id
                        <= table.staked[j].id)
                }
        },
{
    let stake = meta.class.stake();
    if has_lower_stake(table.staked, stake) {
        lemma_evictee_exists(table.staked, stake);
        let i = evictee_index(table.staked, stake);
        let r = table.staked[i];
        let record = table.record_for(meta);
        let kept = table.staked.remove(i);
        let after = table.after_admit(meta);
        assert(after.staked == kept.push(record));
        if after.staked.contains(r) {
            let k = choose|k: int| 0 <= k < after.staked.len() && after.staked[k] == r;
            assert(record_fits(table.staked[i], true, table.next_id));
            if k < kept.len() {
                let from = if k < i { k } else { k + 1 };
                assert(kept[k] == table.staked[from]);
                if from < i {
                    assert(table.staked[from].id < table.staked[i].id);
                } else {
                    assert(table.staked[i].id < table.staked[from].id);
                }
            }
            assert(false);
        }
    }
}

} // verus!
