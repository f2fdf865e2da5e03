//! Peer identities, remote addresses and the stake table that classifies peers.

use vstd::prelude::*;

verus! {

/// Number of bytes of a TLS public identity.
pub const PEER_ID_LEN: usize = 32;

/// The public key that a peer presented in its TLS certificate.
#[derive(Clone, Copy, Debug)]
pub struct PeerId {
    pub bytes: [u8; 32],
}

impl View for PeerId {
    type V = Seq<u8>;

    open spec fn view(&self) -> Seq<u8> {
        self.bytes@
    }
}

impl PeerId {
    /// The identity with the public key `bytes`.
    pub fn new(bytes: [u8; 32]) -> (id: PeerId)
        ensures
            id@ == bytes@,
    {
        PeerId { bytes }
    }

    /// The identity that a public key of `PEER_ID_LEN` bytes stands for; a
    /// key of any other length stands for none.
    pub fn from_slice(key: &[u8]) -> (id: Option<PeerId>)
        ensures
            id is Some <==> key@.len() == PEER_ID_LEN,
            id matches Some(p) ==> p@ == key@,
    {
        if key.len() != PEER_ID_LEN {
            return None;
        }
        let mut bytes = [0u8; 32];
        let mut i: usize = 0;
        while i < 32
            invariant
                key@.len() == 32,
                0 <= i <= 32,
                forall|k: int| 0 <= k < i ==> bytes@[k] == key@[k],
            decreases 32 - i,
        {
            bytes[i] = key[i];
            i += 1;
        }
        proof {
            assert(bytes@ =~= key@);
        }
        Some(PeerId { bytes })
    }

    /// Byte-wise comparison of two identities.
    pub fn same(&self, other: &PeerId) -> (r: bool)
        ensures
            r == (self@ == other@),
    {
        let mut i: usize = 0;
        while i < 32
            invariant
                0 <= i <= 32,
                forall|k: int| 0 <= k < i ==> self.bytes@[k] == other.bytes@[k],
            decreases 32 - i,
        {
            if self.bytes[i] != other.bytes[i] {
                return false;
            }
            i += 1;
        }
        proof {
            assert(self.bytes@ =~= other.bytes@);
        }
        true
    }
}

/// The subject public key, as the bytes of its bit string, of the certificate
/// that `x509_parser::parse_x509_certificate` reads at the start of `der`; or
/// nothing where it reads no certificate there.
pub uninterp spec fn x509_subject_public_key(der: Seq<u8>) -> Option<Seq<u8>>;

/// Calls `x509_parser::parse_x509_certificate` on `der` and picks the subject
/// public key out of the certificate read. The parser reads one DER-encoded
/// X.509 certificate at the start of its input and fails on anything else;
/// what it reads depends on the bytes alone.
#[verifier::external_body]
fn subject_public_key(der: &[u8]) -> (key: Option<Vec<u8>>)
    ensures
        match key {
            Some(k) => x509_subject_public_key(der@) == Some(k@),
            None => x509_subject_public_key(der@) is None,
        },
{
    match x509_parser::parse_x509_certificate(der) {
        Ok((_, cert)) => Some(cert.tbs_certificate.subject_pki.subject_public_key.data.to_vec()),
        Err(_) => None,
    }
}

/// The identity that the subject public key `key` of a certificate gives, if any.
pub open spec fn identity_of_key(key: Option<Seq<u8>>) -> Option<Seq<u8>> {
    match key {
        Some(k) => if k.len() == PEER_ID_LEN {
            Some(k)
        } else {
            None
        },
        None => None,
    }
}

/// The identity of the peer that presented the certificate `der` in its TLS
/// handshake: the subject public key of the certificate, where `der` is a
/// certificate and its key has the length of an identity.
pub fn peer_id_from_certificate(der: &[u8]) -> (id: Option<PeerId>)
    ensures
        match id {
            Some(p) => identity_of_key(x509_subject_public_key(der@)) == Some(p@),
            None => identity_of_key(x509_subject_public_key(der@)) is None,
        },
{
    match subject_public_key(der) {
        Some(key) => PeerId::from_slice(key.as_slice()),
        None => None,
    }
}

/// An IP address as raw octets.
#[derive(Clone, Copy, Debug, PartialEq, Eq)]
pub enum IpAddress {
    V4([u8; 4]),
    V6([u8; 16]),
}

/// The remote end of a connection.
#[derive(Clone, Copy, Debug, PartialEq, Eq)]
pub struct SocketAddress {
    pub ip: IpAddress,
    pub port: u16,
}

/// How the network weighs a peer.
#[derive(Clone, Copy, Debug, PartialEq, Eq, Structural)]
pub enum PeerClass {
    /// The peer holds `stake` out of `total_stake` in the whole network.
    Staked { stake: u64, total_stake: u64 },
    /// The peer is unknown to the stake table, or holds nothing.
    Unstaked,
}

impl PeerClass {
    /// The stake that counts for admission: zero for an unstaked peer.
    pub open spec fn stake_spec(self) -> u64 {
        match self {
            PeerClass::Staked { stake, .. } => stake,
            PeerClass::Unstaked => 0,
        }
    }

    /// The stake that counts for admission: zero for an unstaked peer.
    #[verifier::when_used_as_spec(stake_spec)]
    pub fn stake(self) -> (s: u64)
        ensures
            s == self.stake_spec(),
    {
        match self {
            PeerClass::Staked { stake, .. } => stake,
            PeerClass::Unstaked => 0,
        }
    }

    /// Whether the peer holds stake.
    pub open spec fn is_staked_spec(self) -> bool {
        self is Staked
    }

    /// Whether the peer holds stake.
    #[verifier::when_used_as_spec(is_staked_spec)]
    pub fn is_staked(self) -> (b: bool)
        ensures
            b == (self is Staked),
    {
        match self {
            PeerClass::Staked { .. } => true,
            PeerClass::Unstaked => false,
        }
    }
}

/// One line of the stake table.
#[derive(Clone, Copy, Debug)]
pub struct StakeEntry {
    pub peer: PeerId,
    pub stake: u64,
}

/// Sum of the stakes of all entries.
pub open spec fn stake_sum(entries: Seq<StakeEntry>) -> nat
    decreases entries.len(),
{
    if entries.len() == 0 {
        0
    } else {
        stake_sum(entries.drop_last()) + entries.last().stake as nat
    }
}

/// No identity occurs in two entries.
pub open spec fn distinct_peers(entries: Seq<StakeEntry>) -> bool {
    forall|i: int, j: int|
        0 <= i < j < entries.len() ==> (#[trigger] entries[i]).peer@ != (#[trigger] entries[j]).peer@
}

/// The mapping from identity to stake that a list of entries stands for.
pub open spec fn stake_map(entries: Seq<StakeEntry>) -> Map<Seq<u8>, u64> {
    Map::new(
        |p: Seq<u8>| exists|i: int| 0 <= i < entries.len() && (#[trigger] entries[i]).peer@ == p,
        |p: Seq<u8>|
            entries[choose|i: int| 0 <= i < entries.len() && (#[trigger] entries[i]).peer@ == p].stake,
    )
}

/// The class of identity `peer` under the mapping `stakes` with network total `total`.
pub open spec fn classify_in(stakes: Map<Seq<u8>, u64>, total: u64, peer: Seq<u8>) -> PeerClass {
    if stakes.contains_key(peer) && stakes[peer] > 0 {
        PeerClass::Staked { stake: stakes[peer], total_stake: total }
    } else {
        PeerClass::Unstaked
    }
}

/// Every entry of a duplicate-free list is found in its map, with its own stake.
pub proof fn lemma_stake_map_entry(entries: Seq<StakeEntry>, i: int)
    requires
        distinct_peers(entries),
        0 <= i < entries.len(),
    ensures
        stake_map(entries).contains_key(entries[i].peer@),
        stake_map(entries)[entries[i].peer@] == entries[i].stake,
{
    let p = entries[i].peer@;
    let j = choose|j: int| 0 <= j < entries.len() && (#[trigger] entries[j]).peer@ == p;
    assert(j == i) by {
        if j < i {
            assert(entries[j].peer@ != entries[i].peer@);
        } else if i < j {
            assert(entries[i].peer@ != entries[j].peer@);
        }
    }
}

/// No single stake exceeds the sum of all.
pub proof fn lemma_stake_le_sum(entries: Seq<StakeEntry>, i: int)
    requires
        0 <= i < entries.len(),
    ensures
        entries[i].stake <= stake_sum(entries),
    decreases entries.len(),
{
    if i < entries.len() - 1 {
        lemma_stake_le_sum(entries.drop_last(), i);
    }
}

/// A consistent snapshot of the network's stakes: identity to stake, and the total.
pub struct StakedNodes {
    entries: Vec<StakeEntry>,
    total_stake: u64,
}

impl View for StakedNodes {
    type V = Map<Seq<u8>, u64>;

    closed spec fn view(&self) -> Map<Seq<u8>, u64> {
        stake_map(self.entries@)
    }
}

impl StakedNodes {
    /// The entries that the snapshot was made of.
    pub closed spec fn entries(&self) -> Seq<StakeEntry> {
        self.entries@
    }

    /// The stake of the whole network.
    pub closed spec fn total_stake_spec(&self) -> u64 {
        self.total_stake
    }

    /// Identities are distinct and the total is the sum of all stakes.
    pub open spec fn wf(&self) -> bool {
        &&& distinct_peers(self.entries())
        &&& self.total_stake_spec() == stake_sum(self.entries())
        &&& self@ == stake_map(self.entries())
    }

    /// Builds a snapshot. It is refused where an identity occurs twice or the
    /// stakes do not add up within 64 bits.
    pub fn from_entries(entries: Vec<StakeEntry>) -> (res: Option<StakedNodes>)
        ensures
            res is Some <==> distinct_peers(entries@) && stake_sum(entries@) <= u64::MAX,
            res matches Some(n) ==> n.wf() && n.entries() == entries@,
    {
        let n = entries.len();
        let mut total: u64 = 0;
        let mut i: usize = 0;
        while i < n
            invariant
                n == entries.len(),
                0 <= i <= n,
                total == stake_sum(entries@.take(i as int)),
                forall|a: int, b: int|
                    0 <= a < b < i ==> (#[trigger] entries@[a]).peer@ != (#[trigger] entries@[b]).peer@,
            decreases n - i,
        {
            let mut k: usize = 0;
            while k < i
                invariant
                    n == entries.len(),
                    0 <= k <= i < n,
                    forall|a: int| 0 <= a < k ==> (#[trigger] entries@[a]).peer@ != entries@[i as int].peer@,
                decreases i - k,
            {
                if entries[k].peer.same(&entries[i].peer) {
                    proof {
                        assert(entries@[k as int].peer@ == entries@[i as int].peer@);
                    }
                    return None;
                }
                k += 1;
            }
            proof {
                assert(entries@.take(i + 1).drop_last() =~= entries@.take(i as int));
                lemma_stake_sum_prefix(entries@, i + 1);
            }
            match total.checked_add(entries[i].stake) {
                Some(t) => {
                    total = t;
                },
                None => {
                    return None;
                },
            }
            i += 1;
        }
        proof {
            assert(entries@.take(n as int) =~= entries@);
        }
        Some(StakedNodes { entries, total_stake: total })
    }

    /// The stake of the whole network.
    #[verifier::when_used_as_spec(total_stake_spec)]
    pub fn total_stake(&self) -> (t: u64)
        ensures
            t == self.total_stake_spec(),
    {
        self.total_stake
    }

    /// The class of `peer`: unstaked where the snapshot does not list it or
    /// lists it with nothing, staked with its stake and the network total otherwise.
    pub fn classify(&self, peer: &PeerId) -> (class: PeerClass)
        requires
            self.wf(),
        ensures
            class == classify_in(self@, self.total_stake_spec(), peer@),
            class matches PeerClass::Staked { stake, total_stake } ==> 0 < stake <= total_stake,
    {
        let n = self.entries.len();
        let mut i: usize = 0;
        while i < n
            invariant
                self.wf(),
                n == self.entries.len(),
                0 <= i <= n,
                forall|a: int| 0 <= a < i ==> (#[trigger] self.entries@[a]).peer@ != peer@,
            decreases n - i,
        {
            if self.entries[i].peer.same(peer) {
                let stake = self.entries[i].stake;
                proof {
                    lemma_stake_map_entry(self.entries@, i as int);
                    lemma_stake_le_sum(self.entries@, i as int);
                }
                if stake > 0 {
                    return PeerClass::Staked { stake, total_stake: self.total_stake };
                } else {
                    return PeerClass::Unstaked;
                }
            }
            i += 1;
        }
        PeerClass::Unstaked
    }
}

/// The sum over a prefix is no more than the sum over the whole list.
pub proof fn lemma_stake_sum_prefix(entries: Seq<StakeEntry>, k: int)
    requires
        0 <= k <= entries.len(),
    ensures
        stake_sum(entries.take(k)) <= stake_sum(entries),
    decreases entries.len() - k,
{
    if k < entries.len() {
        assert(entries.take(k + 1).drop_last() =~= entries.take(k));
        lemma_stake_sum_prefix(entries, k + 1);
    } else {
        assert(entries.take(k) =~= entries);
    }
}

} // verus!
