//! The session engine: peers by public key, sessions by index, the timer
//! queue, rate limiting of handshake senders, and the handling of every
//! message kind.

use vstd::prelude::*;

use super::bytes::from_le32;
use super::crypto::{aead_len_ok, x25519_public, blake2s_256, EphemeralPrivateKey, PublicKey, StaticPrivateKey};
use super::handshake::{dh, HandshakeState};
use super::replay::marked;
use super::crypto::{chacha_open, xchacha_seal, xchacha_tag, CryptoError, Mac};
use super::bytes::le32;
use super::messages::{
    cookie_input, encrypt_cookie, decrypt_cookie, resp_bytes, Cookie, CookieMessage, HandshakeResp,
    COOKIE_MESSAGE_LEN, HANDSHAKE_INIT_LEN, HANDSHAKE_RESP_LEN, MSG_COOKIE, MSG_SECOND,
};
use super::protocol::{decrypt_handshake_init, decrypt_handshake_resp, encrypt_handshake_resp, HasMac};
use super::session::SessionTransport;
use super::crypto::blake2s_mac_128;
use super::messages::{
    header_of, DATA_HEADER_LEN,
    data_header_bytes, init_bytes, CookieState, DataHeader, HandshakeInit, IpAddress, SocketAddress, LABEL_COOKIE,
    LABEL_MAC1, MSG_FIRST,
};
use super::protocol::{encrypt_handshake_init, StaticInitiatorConfig, StaticPeerConfig, Tai64N, NANOS_PER_SECOND};
use super::crypto::chacha_tag;
use super::messages::MSG_DATA;
use super::transport::spec_nonce;
use super::session::{
    EncryptedMetadata, MessageEncrypter, REKEY_AFTER_MESSAGES, REKEY_AFTER_TIME, REJECT_AFTER_TIME,
    Error, PeerId, PeerState, Session, SessionHandshake, SessionState, TimerEntry, TimerEntryType,
    KEEPALIVE_TIMEOUT, REKEY_ATTEMPT_TIME, REKEY_TIMEOUT,
};
use super::transport::Tag;
use super::transport::constant_time_eq;
use super::noise::kdf;
use super::handshake::{CONSTRUCTION_HASH, IDENTIFIER_HASH};
use super::protocol::{spec_init_recv, spec_resp_recv, spec_resp_send};
use super::session::error_of;

verus! {

// ───────────────────────────────────────────────────────────────────────
// OUTSIDE TYPES

#[verifier::external_type_specification]
#[verifier::external_body]
pub struct ExChaCha20Rng(rand_chacha::ChaCha20Rng);

#[verifier::external_type_specification]
#[verifier::external_body]
pub struct ExFixedState(foldhash::fast::FixedState);

/// `RngCore::next_u32` of a ChaCha20 generator. The value is random, so
/// nothing is stated of it.
#[verifier::external_body]
fn rng_next_u32(rng: &mut rand_chacha::ChaCha20Rng) -> u32 {
    rand_core::RngCore::next_u32(rng)
}

/// `RngCore::fill_bytes` of a ChaCha20 generator into 32 bytes. Random.
#[verifier::external_body]
pub(crate) fn rng_bytes32(rng: &mut rand_chacha::ChaCha20Rng) -> [u8; 32] {
    let mut b = [0u8; 32];
    rand_core::RngCore::fill_bytes(rng, &mut b);
    b
}

/// `RngCore::fill_bytes` of a ChaCha20 generator into 24 bytes. Random.
#[verifier::external_body]
pub(crate) fn rng_bytes24(rng: &mut rand_chacha::ChaCha20Rng) -> [u8; 24] {
    let mut b = [0u8; 24];
    rand_core::RngCore::fill_bytes(rng, &mut b);
    b
}

/// `SeedableRng::from_rng`: a fresh ChaCha20 generator seeded from `rng`.
/// Filling a seed from a ChaCha20 generator cannot fail, so the `expect`
/// never fires. The new generator is random.
#[verifier::external_body]
pub(crate) fn rng_reseed(rng: &mut rand_chacha::ChaCha20Rng) -> rand_chacha::ChaCha20Rng {
    <rand_chacha::ChaCha20Rng as rand_core::SeedableRng>::from_rng(rng).expect("ChaCha20 fills any seed")
}

/// `foldhash::fast::FixedState::with_seed`. What it holds is opaque.
#[verifier::external_body]
fn fixed_state(seed: u64) -> foldhash::fast::FixedState {
    foldhash::fast::FixedState::with_seed(seed)
}

/// `BuildHasher::hash_one` of a foldhash state on a `u64`. foldhash gives
/// different values on 32- and 64-bit machines, so nothing is stated of
/// the result.
#[verifier::external_body]
fn hash_u64(state: &foldhash::fast::FixedState, value: u64) -> u64 {
    core::hash::BuildHasher::hash_one(state, value)
}

// ───────────────────────────────────────────────────────────────────────
// RATE LIMITING: A COUNT-MIN SKETCH

/// Rows of the sketch.
pub const CMS_ROWS: usize = 4;
/// Counters per row.
pub const CMS_COLS: usize = 1024;
/// Added per row to the key before hashing, times the row number.
pub const CMS_ROW_MIX: u64 = 0x9E37_79B9_7F4A_7C15;

/// A counter plus one, stuck at the maximum.
pub open spec fn sat_inc(x: u64) -> u64 {
    if x == u64::MAX {
        x
    } else {
        (x + 1) as u64
    }
}

/// Position of column `c` of row `r` in the flat table.
pub open spec fn cell(r: int, c: int) -> int {
    r * CMS_COLS + c
}

/// The table after counting once in column `cols[r]` of each row `r`.
pub open spec fn bumped(table: Seq<u64>, cols: Seq<usize>) -> Seq<u64> {
    Seq::new(
        table.len(),
        |i: int|
            if exists|r: int| 0 <= r < CMS_ROWS && i == cell(r, cols[r] as int) {
                sat_inc(table[i])
            } else {
                table[i]
            },
    )
}

/// The smallest of the counted cells, after counting.
pub open spec fn smallest_count(table: Seq<u64>, cols: Seq<usize>, rows: int) -> u64
    decreases rows,
{
    if rows <= 0 {
        u64::MAX
    } else {
        let rest = smallest_count(table, cols, rows - 1);
        let here = sat_inc(table[cell(rows - 1, cols[rows - 1] as int)]);
        if here < rest {
            here
        } else {
            rest
        }
    }
}

/// A sketch of how often each key was counted: every row counts the key
/// in one hashed column, and the estimate is the smallest of those
/// counters, so it never falls below the true count.
pub struct CountMinSketch {
    table: Vec<u64>,
    hasher: foldhash::fast::FixedState,
}

impl CountMinSketch {
    /// The counters, row after row.
    pub closed spec fn counters(&self) -> Seq<u64> {
        self.table@
    }

    pub open spec fn wf(&self) -> bool {
        self.counters().len() == CMS_ROWS * CMS_COLS
    }

    /// An empty sketch hashing with `seed`. (Its size is fixed: the error
    /// bounds a caller may ask for do not change it.)
    pub fn with_params(seed: u64) -> (r: Self)
        ensures
            r.wf(),
            forall|i: int| 0 <= i < CMS_ROWS * CMS_COLS ==> r.counters()[i] == 0,
    {
        CountMinSketch { table: vec![0u64; CMS_ROWS * CMS_COLS], hasher: fixed_state(seed) }
    }

    /// Counts once in column `cols[r]` of each row `r` and returns the
    /// smallest counter touched.
    pub fn count_at(&mut self, cols: [usize; 4]) -> (r: u64)
        requires
            old(self).wf(),
            forall|k: int| 0 <= k < CMS_ROWS ==> cols@[k] < CMS_COLS,
        ensures
            final(self).wf(),
            final(self).counters() == bumped(old(self).counters(), cols@),
            r == smallest_count(old(self).counters(), cols@, CMS_ROWS as int),
    {
        let ghost start = self.table@;
        let mut min = u64::MAX;
        let mut row: usize = 0;
        while row < CMS_ROWS
            invariant
                row <= CMS_ROWS,
                self.table@.len() == start.len(),
                start.len() == CMS_ROWS * CMS_COLS,
                forall|k: int| 0 <= k < CMS_ROWS ==> cols@[k] < CMS_COLS,
                min == smallest_count(start, cols@, row as int),
                forall|i: int|
                    0 <= i < start.len() ==> self.table@[i] == (if exists|r: int|
                        0 <= r < row && i == cell(r, cols@[r] as int) {
                        sat_inc(start[i])
                    } else {
                        start[i]
                    }),
            decreases CMS_ROWS - row,
        {
            let idx = row * CMS_COLS + cols[row];
            let v = self.table[idx];
            let nv = if v == u64::MAX {
                v
            } else {
                v + 1
            };
            self.table.set(idx, nv);
            proof {
                assert forall|i: int| 0 <= i < start.len() implies self.table@[i] == (if exists|r: int|
                    0 <= r < row + 1 && i == cell(r, cols@[r] as int) {
                    sat_inc(start[i])
                } else {
                    start[i]
                }) by {
                    if i == idx {
                        assert(cell(row as int, cols@[row as int] as int) == i);
                        if exists|r: int| 0 <= r < row && i == cell(r, cols@[r] as int) {
                            let r = choose|r: int| 0 <= r < row && i == cell(r, cols@[r] as int);
                            assert(r * CMS_COLS + cols@[r] == row * CMS_COLS + cols@[row as int]);
                            assert(r < row);
                            assert(false) by (nonlinear_arith)
                                requires
                                    r * 1024 + cols@[r] == row * 1024 + cols@[row as int],
                                    r < row,
                                    0 <= r,
                                    cols@[r] < 1024,
                                    cols@[row as int] < 1024,
                            ;
                        }
                    } else {
                        if exists|r: int| 0 <= r < row + 1 && i == cell(r, cols@[r] as int) {
                            let r = choose|r: int| 0 <= r < row + 1 && i == cell(r, cols@[r] as int);
                            assert(r != row);
                        }
                    }
                }
            }
            if nv < min {
                min = nv;
            }
            row = row + 1;
        }
        assert(self.table@ =~= bumped(start, cols@));
        min
    }

    /// Counts `key` once and returns the new estimate of its count.
    pub fn count(&mut self, key: &u64) -> (r: u64)
        requires
            old(self).wf(),
        ensures
            final(self).wf(),
            exists|cols: Seq<usize>|
                cols.len() == CMS_ROWS && (forall|k: int| 0 <= k < CMS_ROWS ==> cols[k] < CMS_COLS)
                    && #[trigger] bumped(old(self).counters(), cols) == final(self).counters()
                    && r == smallest_count(old(self).counters(), cols, CMS_ROWS as int),
    {
        let mut cols = [0usize; 4];
        let mut row: usize = 0;
        while row < CMS_ROWS
            invariant
                row <= CMS_ROWS,
                cols@.len() == 4,
                forall|k: int| 0 <= k < CMS_ROWS ==> cols@[k] < CMS_COLS,
            decreases CMS_ROWS - row,
        {
            let tweaked = key.wrapping_add((row as u64).wrapping_mul(CMS_ROW_MIX));
            let h = hash_u64(&self.hasher, tweaked);
            cols[row] = (h % (CMS_COLS as u64)) as usize;
            row = row + 1;
        }
        let r = self.count_at(cols);
        assert(bumped(old(self).counters(), cols@) == self.counters());
        r
    }

    /// Clears every counter and hashes with `seed` from now on.
    pub fn reset(&mut self, seed: u64)
        ensures
            final(self).wf(),
            forall|i: int| 0 <= i < CMS_ROWS * CMS_COLS ==> final(self).counters()[i] == 0,
    {
        self.table = vec![0u64; CMS_ROWS * CMS_COLS];
        self.hasher = fixed_state(seed);
    }
}

/// The seed taken from random bytes: their first eight, little-endian.
pub open spec fn seed_of(b: Seq<u8>) -> u64 {
    (from_le32(b.subrange(0, 4)) + from_le32(b.subrange(4, 8)) * 0x1_0000_0000) as u64
}

/// The first eight of 32 random bytes as a little-endian seed.
pub fn seed_from(b: &[u8; 32]) -> (r: u64)
    ensures
        r == seed_of(b@),
{
    let lo = super::bytes::read_u32_le(b, 0);
    let hi = super::bytes::read_u32_le(b, 4);
    lo as u64 + (hi as u64) * 0x1_0000_0000
}

/// The key a sender's address is counted under: an IPv4 address as its
/// 32-bit number, an IPv6 address as its upper 64 bits.
pub open spec fn rate_key(ip: IpAddress) -> u64 {
    match ip {
        IpAddress::V4(o) => (o[0] * 0x100_0000 + o[1] * 0x1_0000 + o[2] * 0x100 + o[3]) as u64,
        IpAddress::V6(o) => (o[0] * 0x100_0000_0000_0000 + o[1] * 0x1_0000_0000_0000 + o[2] * 0x100_0000_0000
            + o[3] * 0x1_0000_0000 + o[4] * 0x100_0000 + o[5] * 0x1_0000 + o[6] * 0x100 + o[7]) as u64,
    }
}

pub fn rate_key_of(ip: &IpAddress) -> (r: u64)
    ensures
        r == rate_key(*ip),
{
    match ip {
        IpAddress::V4(o) => (o[0] as u64) * 0x100_0000 + (o[1] as u64) * 0x1_0000 + (o[2] as u64) * 0x100 + (o[3] as u64),
        IpAddress::V6(o) => (o[0] as u64) * 0x100_0000_0000_0000 + (o[1] as u64) * 0x1_0000_0000_0000 + (o[2] as u64)
            * 0x100_0000_0000 + (o[3] as u64) * 0x1_0000_0000 + (o[4] as u64) * 0x100_0000 + (o[5] as u64) * 0x1_0000
            + (o[6] as u64) * 0x100 + (o[7] as u64),
    }
}


// ───────────────────────────────────────────────────────────────────────
// SESSIONS BY INDEX

/// The sessions by the index this host gave them, in a
/// `hashbrown::HashMap` keyed by `u32` with a fixed foldhash state.
#[verifier::external_body]
pub struct SessionMap {
    map: hashbrown::HashMap<u32, Session, foldhash::fast::FixedState>,
}

/// What a session map holds.
pub uninterp spec fn session_entries(m: SessionMap) -> Map<u32, Session>;

impl SessionMap {
    /// `HashMap::default`: an empty map.
    #[verifier::external_body]
    pub fn new() -> (r: SessionMap)
        ensures
            session_entries(r) =~= Map::empty(),
    {
        SessionMap { map: hashbrown::HashMap::default() }
    }

    /// `HashMap::contains_key`.
    #[verifier::external_body]
    pub fn contains_key(&self, k: u32) -> (r: bool)
        ensures
            r == session_entries(*self).contains_key(k),
    {
        self.map.contains_key(&k)
    }

    /// `HashMap::get`: the session under `k`, if any.
    #[verifier::external_body]
    pub fn get(&self, k: u32) -> (r: Option<&Session>)
        ensures
            match r {
                Some(s) => session_entries(*self).contains_key(k) && *s == session_entries(*self)[k],
                None => !session_entries(*self).contains_key(k),
            },
    {
        self.map.get(&k)
    }

    /// `HashMap::insert`: puts `v` under `k` and returns what was there.
    #[verifier::external_body]
    pub fn insert(&mut self, k: u32, v: Session) -> (r: Option<Session>)
        ensures
            session_entries(*final(self)) == session_entries(*old(self)).insert(k, v),
            match r {
                Some(s) => session_entries(*old(self)).contains_key(k) && s == session_entries(*old(self))[k],
                None => !session_entries(*old(self)).contains_key(k),
            },
    {
        self.map.insert(k, v)
    }

    /// `HashMap::remove`: takes out the session under `k`, if any.
    #[verifier::external_body]
    pub fn remove(&mut self, k: u32) -> (r: Option<Session>)
        ensures
            session_entries(*final(self)) == session_entries(*old(self)).remove(k),
            match r {
                Some(s) => session_entries(*old(self)).contains_key(k) && s == session_entries(*old(self))[k],
                None => !session_entries(*old(self)).contains_key(k),
            },
    {
        self.map.remove(&k)
    }
}

// ───────────────────────────────────────────────────────────────────────
// PEERS BY PUBLIC KEY

/// Whether two keys are the same bytes.
pub fn same_key(a: &[u8; 32], b: &[u8; 32]) -> (r: bool)
    ensures
        r == (a@ == b@),
{
    constant_time_eq(a, b)
}

/// `BuildHasher::hash_one` of a foldhash state on a 32-byte key. Differs
/// between 32- and 64-bit machines, so nothing is stated of the result.
#[verifier::external_body]
fn hash_key(state: &foldhash::fast::FixedState, key: &[u8; 32]) -> u64 {
    core::hash::BuildHasher::hash_one(state, key)
}

/// Peer indices by public key, in a `hashbrown::HashTable` of
/// (key, index) pairs hashed with a fixed foldhash state that never
/// changes.
#[verifier::external_body]
pub struct PeerIndex {
    table: hashbrown::HashTable<([u8; 32], PeerId)>,
    hasher: foldhash::fast::FixedState,
}

/// The peer index of each public key held.
pub uninterp spec fn indexed_peers(t: PeerIndex) -> Map<Seq<u8>, u32>;

impl PeerIndex {
    /// `HashTable::new` with `FixedState::with_seed(0)`: empty.
    #[verifier::external_body]
    pub fn new() -> (r: PeerIndex)
        ensures
            indexed_peers(r) =~= Map::empty(),
    {
        PeerIndex { table: hashbrown::HashTable::new(), hasher: foldhash::fast::FixedState::with_seed(0) }
    }

    /// `HashTable::find` by the key's hash, matching pairs by key. Every
    /// pair went in hashed with the same state, so the pair with the key is
    /// found if there is one.
    #[verifier::external_body]
    pub fn find(&self, key: &[u8; 32]) -> (r: Option<PeerId>)
        ensures
            match r {
                Some(id) => indexed_peers(*self).contains_key(key@) && id.0 == indexed_peers(*self)[key@],
                None => !indexed_peers(*self).contains_key(key@),
            },
    {
        self.table.find(hash_key(&self.hasher, key), |e| same_key(&e.0, key)).map(|e| e.1)
    }

    /// `HashTable::insert_unique` of a key not held yet.
    #[verifier::external_body]
    pub fn insert_unique(&mut self, key: [u8; 32], id: PeerId)
        requires
            !indexed_peers(*old(self)).contains_key(key@),
        ensures
            indexed_peers(*final(self)) == indexed_peers(*old(self)).insert(key@, id.0),
    {
        let h = hash_key(&self.hasher, &key);
        let hasher = &self.hasher;
        self.table.insert_unique(h, (key, id), |e| hash_key(hasher, &e.0));
    }
}


// ───────────────────────────────────────────────────────────────────────
// CONFIGURATION

/// The index holds each peer's key at the peer's position, and nothing
/// else.
pub open spec fn index_wf(idx: Map<Seq<u8>, u32>, peers: Seq<StaticPeerConfig>) -> bool {
    &&& forall|k: Seq<u8>| #[trigger]
        idx.contains_key(k) ==> idx[k] < peers.len() && peers[idx[k] as int].key.0@ == k
    &&& forall|i: int|
        0 <= i < peers.len() ==> idx.contains_key(#[trigger] peers[i].key.0@) && idx[peers[i].key.0@] == i
}

/// This host's identity and its peers, found by public key.
pub struct Config {
    pub static_: StaticInitiatorConfig,
    pub peers_by_pubkey: PeerIndex,
    pub peers: Vec<StaticPeerConfig>,
}

impl Config {
    pub open spec fn wf(&self) -> bool {
        index_wf(indexed_peers(self.peers_by_pubkey), self.peers@)
    }

    /// The identity of `private_key`, with no peers.
    pub fn new(private_key: StaticPrivateKey) -> (r: Self)
        ensures
            r.wf(),
            r.peers@.len() == 0,
            r.static_.private_key == private_key,
            r.static_.public_key.0@ == x25519_public(private_key.0@),
            r.static_.mac1_key@ == blake2s_256(LABEL_MAC1@ + r.static_.public_key.0@),
            r.static_.cookie_key@ == blake2s_256(LABEL_COOKIE@ + r.static_.public_key.0@),
    {
        Config {
            static_: StaticInitiatorConfig::new(private_key),
            peers_by_pubkey: PeerIndex::new(),
            peers: Vec::new(),
        }
    }

    /// Adds a peer, or replaces the peer with the same public key; returns
    /// its index.
    pub fn insert_peer(&mut self, peer: StaticPeerConfig) -> (r: PeerId)
        requires
            old(self).wf(),
            old(self).peers@.len() < u32::MAX,
        ensures
            final(self).wf(),
            final(self).static_ == old(self).static_,
            ({
                let idx = indexed_peers(old(self).peers_by_pubkey);
                if idx.contains_key(peer.key.0@) {
                    &&& r.0 == idx[peer.key.0@]
                    &&& final(self).peers@ == old(self).peers@.update(r.0 as int, peer)
                } else {
                    &&& r.0 == old(self).peers@.len()
                    &&& final(self).peers@ == old(self).peers@.push(peer)
                }
            }),
            indexed_peers(final(self).peers_by_pubkey).contains_key(peer.key.0@),
            indexed_peers(final(self).peers_by_pubkey)[peer.key.0@] == r.0,
    {
        match self.peers_by_pubkey.find(&peer.key.0) {
            Some(id) => {
                self.peers.set(id.0 as usize, peer);
                proof {
                    let idx = indexed_peers(self.peers_by_pubkey);
                    assert forall|i: int| 0 <= i < self.peers@.len() implies idx.contains_key(
                        #[trigger] self.peers@[i].key.0@,
                    ) && idx[self.peers@[i].key.0@] == i by {
                        if i != id.0 {
                            assert(self.peers@[i] == old(self).peers@[i]);
                        }
                    }
                }
                id
            },
            None => {
                let id = PeerId(self.peers.len() as u32);
                let key = peer.key.0;
                self.peers.push(peer);
                self.peers_by_pubkey.insert_unique(key, id);
                proof {
                    let idx = indexed_peers(self.peers_by_pubkey);
                    let old_idx = indexed_peers(old(self).peers_by_pubkey);
                    assert forall|k: Seq<u8>| #[trigger] idx.contains_key(k) implies idx[k] < self.peers@.len()
                        && self.peers@[idx[k] as int].key.0@ == k by {
                        if k != key@ {
                            assert(old_idx.contains_key(k));
                        }
                    }
                    assert forall|i: int| 0 <= i < self.peers@.len() implies idx.contains_key(
                        #[trigger] self.peers@[i].key.0@,
                    ) && idx[self.peers@[i].key.0@] == i by {
                        if i < old(self).peers@.len() {
                            assert(self.peers@[i] == old(self).peers@[i]);
                            assert(old_idx.contains_key(old(self).peers@[i].key.0@));
                        }
                    }
                }
                id
            },
        }
    }

    /// The index of the peer with public key `pk`, if there is one.
    pub fn get_peer_idx(&self, pk: &PublicKey) -> (r: Option<PeerId>)
        requires
            self.wf(),
        ensures
            match r {
                Some(id) => id.0 < self.peers@.len() && self.peers@[id.0 as int].key.0@ == pk.0@,
                None => forall|i: int| 0 <= i < self.peers@.len() ==> self.peers@[i].key.0@ != pk.0@,
            },
    {
        let r = self.peers_by_pubkey.find(&pk.0);
        proof {
            if r is None {
                assert forall|i: int| 0 <= i < self.peers@.len() implies self.peers@[i].key.0@ != pk.0@ by {
                    assert(indexed_peers(self.peers_by_pubkey).contains_key(self.peers@[i].key.0@));
                }
            }
        }
        r
    }
}


// ───────────────────────────────────────────────────────────────────────
// DYNAMIC STATE

/// The largest timestamp (in seconds) the engine runs at: every delay it
/// adds to a timestamp still fits.
pub const MAX_SECS: u64 = 0xFFFF_FFFF_FFFF_0000;

/// Every session belongs to a known peer and its times leave room for
/// the delays added to them.
pub open spec fn sessions_ok(m: Map<u32, Session>, npeers: nat) -> bool {
    forall|k: u32| #[trigger]
        m.contains_key(k) ==> m[k].peer.0 < npeers && m[k].started.secs <= MAX_SECS && m[k].sent.secs
            <= MAX_SECS && (m[k].state is Transport ==> m[k].state->Transport_0.decrypt.replay().wf())
}

/// No session index is in use.
pub open spec fn no_sessions(m: Map<u32, Session>) -> bool {
    forall|k: u32| !#[trigger] m.contains_key(k)
}

/// The engine's moving parts as plain values.
#[verifier::ext_equal]
pub struct EngineView {
    pub sessions: Map<u32, Session>,
    pub peers: Seq<PeerState>,
    pub timers: Seq<TimerEntry>,
    pub now: Tai64N,
}

/// What a fired timer asks for once the timer queue has been worked off.
#[derive(Clone, Copy, PartialEq, Eq, Structural)]
pub enum Action {
    DoInitHandshake { peer_idx: PeerId },
    DoRekey { peer_idx: PeerId },
    DoKeepalive { session_id: u32 },
}

/// An action names a known peer.
pub open spec fn action_ok(a: Action, npeers: nat) -> bool {
    match a {
        Action::DoInitHandshake { peer_idx } => peer_idx.0 < npeers,
        Action::DoRekey { peer_idx } => peer_idx.0 < npeers,
        Action::DoKeepalive { .. } => true,
    }
}

/// Keys, timers, sessions and per-peer state that change as the tunnel
/// runs.
pub struct DynamicState {
    pub rng: rand_chacha::ChaCha20Rng,
    pub cookie: CookieState,
    pub last_reseed: Tai64N,
    pub now: Tai64N,
    pub last_rate_reset: Tai64N,
    pub ip_rate_limit: CountMinSketch,
    pub peers: Vec<PeerState>,
    pub peers_by_session: SessionMap,
    pub timers: Vec<TimerEntry>,
}

/// The position of the earliest timer; among equally early ones, the
/// first.
pub open spec fn earliest(ts: Seq<TimerEntry>) -> int
    decreases ts.len(),
{
    if ts.len() <= 1 {
        0
    } else {
        let j = earliest(ts.drop_last());
        if ts.last().time.spec_lt(ts[j].time) {
            ts.len() - 1
        } else {
            j
        }
    }
}

/// One fired timer: what it does to the sessions and peers, and the
/// action it asks for.
pub open spec fn apply_timer(v: EngineView, e: TimerEntry) -> (EngineView, Option<Action>) {
    match e.kind {
        TimerEntryType::InitAttempt { session_id } => (
            v,
            if v.sessions.contains_key(session_id) && v.sessions[session_id].state is Handshake
                && v.sessions[session_id].spec_should_reinit(v.now) {
                Some(Action::DoInitHandshake { peer_idx: v.sessions[session_id].peer })
            } else {
                None
            },
        ),
        TimerEntryType::RekeyAttempt { session_id } => (
            v,
            if v.sessions.contains_key(session_id) && v.sessions[session_id].state is Transport
                && v.sessions[session_id].spec_should_rekey(
                v.now,
                v.sessions[session_id].state->Transport_0.encrypt.spec_counter(),
            ) {
                Some(Action::DoRekey { peer_idx: v.sessions[session_id].peer })
            } else {
                None
            },
        ),
        TimerEntryType::Keepalive { session_id } => (
            v,
            if v.sessions.contains_key(session_id) && v.sessions[session_id].state is Transport
                && v.sessions[session_id].spec_should_keepalive(v.now)
                && !v.sessions[session_id].keepalive_pending {
                Some(Action::DoKeepalive { session_id })
            } else {
                None
            },
        ),
        TimerEntryType::ExpireTransport { session_id } => {
            if v.sessions.contains_key(session_id) {
                let p = v.sessions[session_id].peer.0 as int;
                (
                    EngineView {
                        sessions: v.sessions.remove(session_id),
                        peers: if v.peers[p].current_transport == Some(session_id) {
                            v.peers.update(p, PeerState { current_transport: None, ..v.peers[p] })
                        } else {
                            v.peers
                        },
                        ..v
                    },
                    None,
                )
            } else {
                (v, None)
            }
        },
        TimerEntryType::ExpireHandshake { session_id } => {
            if v.sessions.contains_key(session_id) {
                let p = v.sessions[session_id].peer.0 as int;
                (
                    EngineView {
                        sessions: v.sessions.remove(session_id),
                        peers: if v.peers[p].current_handshake == Some(session_id) {
                            v.peers.update(p, PeerState { current_handshake: None, ..v.peers[p] })
                        } else {
                            v.peers
                        },
                        ..v
                    },
                    None,
                )
            } else {
                (v, None)
            }
        },
    }
}

/// Works off every timer that is due, earliest first: the state after,
/// and the actions asked for in order.
pub open spec fn drain(v: EngineView) -> (EngineView, Seq<Action>)
    decreases v.timers.len(),
{
    if v.timers.len() == 0 {
        (v, Seq::empty())
    } else {
        let i = earliest(v.timers);
        let e = v.timers[i];
        if v.now.spec_lt(e.time) {
            (v, Seq::empty())
        } else {
            let (w, a) = apply_timer(EngineView { timers: v.timers.remove(i), ..v }, e);
            proof {
                lemma_earliest_in_range(v.timers);
                lemma_apply_timer_keeps_timers(EngineView { timers: v.timers.remove(i), ..v }, e);
            }
            let (z, rest) = drain(w);
            (
                z,
                match a {
                    Some(x) => seq![x] + rest,
                    None => rest,
                },
            )
        }
    }
}

/// A fired timer leaves the queue and the clock alone.
pub proof fn lemma_apply_timer_keeps_timers(v: EngineView, e: TimerEntry)
    ensures
        apply_timer(v, e).0.timers == v.timers,
        apply_timer(v, e).0.now == v.now,
{
}

/// The earliest timer is one of the timers.
pub proof fn lemma_earliest_in_range(ts: Seq<TimerEntry>)
    requires
        ts.len() > 0,
    ensures
        0 <= earliest(ts) < ts.len(),
    decreases ts.len(),
{
    if ts.len() > 1 {
        lemma_earliest_in_range(ts.drop_last());
    }
}

/// Working off the timers leaves the clock alone.
pub proof fn lemma_drain_keeps_now(v: EngineView)
    ensures
        drain(v).0.now == v.now,
    decreases v.timers.len(),
{
    if v.timers.len() > 0 {
        let i = earliest(v.timers);
        lemma_earliest_in_range(v.timers);
        if !v.now.spec_lt(v.timers[i].time) {
            let u = EngineView { timers: v.timers.remove(i), ..v };
            lemma_apply_timer_keeps_timers(u, v.timers[i]);
            lemma_drain_keeps_now(apply_timer(u, v.timers[i]).0);
        }
    }
}

/// The timer that fires first is never later than any other.
pub proof fn lemma_earliest_is_first(ts: Seq<TimerEntry>, j: int)
    requires
        0 <= j < ts.len(),
    ensures
        !ts[j].time.spec_lt(ts[earliest(ts)].time),
    decreases ts.len(),
{
    lemma_earliest_in_range(ts);
    if ts.len() > 1 {
        let t = ts.drop_last();
        lemma_earliest_in_range(t);
        if j < ts.len() - 1 {
            lemma_earliest_is_first(t, j);
        } else {
            let k = earliest(t);
            assert(!t[j - 0].time.spec_lt(t[k].time) || j == ts.len() - 1);
        }
    }
}

impl DynamicState {
    pub open spec fn engine(&self) -> EngineView {
        EngineView {
            sessions: session_entries(self.peers_by_session),
            peers: self.peers@,
            timers: self.timers@,
            now: self.now,
        }
    }

    pub open spec fn wf(&self) -> bool {
        &&& self.ip_rate_limit.wf()
        &&& self.now.secs <= MAX_SECS
        &&& self.now.nanos < NANOS_PER_SECOND
        &&& self.last_reseed.nanos < NANOS_PER_SECOND
        &&& self.last_rate_reset.nanos < NANOS_PER_SECOND
        &&& !self.now.spec_lt(self.last_reseed)
        &&& !self.now.spec_lt(self.last_rate_reset)
        &&& sessions_ok(session_entries(self.peers_by_session), self.peers@.len())
    }

    /// Fresh state for `peers`: cookie secret, rate-limit seed and the
    /// engine's own generator drawn from `rng`; no sessions, no timers, the
    /// clock at zero.
    pub fn new(peers: &Vec<StaticPeerConfig>, rng: &mut rand_chacha::ChaCha20Rng) -> (r: Self)
        ensures
            r.wf(),
            r.now == (Tai64N { secs: 0, nanos: 0 }),
            r.last_reseed == r.now,
            r.last_rate_reset == r.now,
            r.peers@.len() == peers@.len(),
            forall|i: int| #![trigger r.peers@[i]]
                0 <= i < peers@.len() ==> r.peers@[i].endpoint == peers@[i].endpoint
                    && r.peers@[i].cookie is None && r.peers@[i].current_handshake is None
                    && r.peers@[i].current_transport is None,
            session_entries(r.peers_by_session) =~= Map::empty(),
            r.timers@.len() == 0,
    {
        let cookie = CookieState::new(rng_bytes32(rng));
        let zero = Tai64N { secs: 0, nanos: 0 };
        let seed = rng_bytes32(rng);
        let ip_rate_limit = CountMinSketch::with_params(seed_from(&seed));
        let own = rng_reseed(rng);
        let mut states: Vec<PeerState> = Vec::new();
        let mut i: usize = 0;
        while i < peers.len()
            invariant
                i <= peers.len(),
                states@.len() == i,
                forall|k: int| #![trigger states@[k]]
                    0 <= k < i ==> states@[k].endpoint == peers@[k].endpoint && states@[k].cookie is None
                        && states@[k].current_handshake is None && states@[k].current_transport is None,
            decreases peers.len() - i,
        {
            states.push(PeerState::new(peers[i].endpoint));
            i = i + 1;
        }
        DynamicState {
            rng: own,
            cookie,
            last_reseed: zero,
            now: zero,
            last_rate_reset: zero,
            ip_rate_limit,
            peers: states,
            peers_by_session: SessionMap::new(),
            timers: Vec::new(),
        }
    }

    /// Draws session indices until one is not in use. Gives up (`None`)
    /// only after `u32::MAX` draws that were all in use; with no session in
    /// use the first draw is taken.
    pub fn allocate_session_id(&mut self) -> (r: Option<u32>)
        ensures
            final(self).engine() == old(self).engine(),
            final(self).cookie == old(self).cookie,
            final(self).ip_rate_limit == old(self).ip_rate_limit,
            final(self).last_reseed == old(self).last_reseed,
            final(self).last_rate_reset == old(self).last_rate_reset,
            final(self).peers_by_session == old(self).peers_by_session,
            r matches Some(id) ==> !session_entries(old(self).peers_by_session).contains_key(id),
            no_sessions(session_entries(old(self).peers_by_session)) ==> r is Some,
    {
        let mut tries: u32 = 0;
        while tries < u32::MAX
            invariant
                self.engine() == old(self).engine(),
                self.cookie == old(self).cookie,
                self.ip_rate_limit == old(self).ip_rate_limit,
                self.last_reseed == old(self).last_reseed,
                self.last_rate_reset == old(self).last_rate_reset,
                self.peers_by_session == old(self).peers_by_session,
                no_sessions(session_entries(old(self).peers_by_session)) ==> tries == 0,
            decreases u32::MAX - tries,
        {
            let id = rng_next_u32(&mut self.rng);
            if !self.peers_by_session.contains_key(id) {
                return Some(id);
            }
            tries = tries + 1;
        }
        None
    }

    /// Counts a handshake from `ip` and tells whether its sender has sent
    /// more than ten since the counters were last cleared (by the
    /// sketch's estimate).
    pub fn overloaded(&mut self, ip: &IpAddress) -> (r: bool)
        requires
            old(self).wf(),
        ensures
            final(self).wf(),
            final(self).engine() == old(self).engine(),
            final(self).cookie == old(self).cookie,
            final(self).peers_by_session == old(self).peers_by_session,
            exists|cols: Seq<usize>|
                cols.len() == CMS_ROWS && (forall|k: int| 0 <= k < CMS_ROWS ==> cols[k] < CMS_COLS)
                    && #[trigger] bumped(old(self).ip_rate_limit.counters(), cols)
                    == final(self).ip_rate_limit.counters() && r == (smallest_count(
                    old(self).ip_rate_limit.counters(),
                    cols,
                    CMS_ROWS as int,
                ) > 10),
    {
        let key = rate_key_of(ip);
        self.ip_rate_limit.count(&key) > 10
    }

    /// Takes out the earliest timer if it is due.
    pub fn pop_due(&mut self) -> (r: Option<TimerEntry>)
        ensures
            final(self).engine() == (if old(self).timers@.len() > 0 && !old(self).now.spec_lt(
                old(self).timers@[earliest(old(self).timers@)].time,
            ) {
                EngineView { timers: old(self).timers@.remove(earliest(old(self).timers@)), ..old(self).engine() }
            } else {
                old(self).engine()
            }),
            r == (if old(self).timers@.len() > 0 && !old(self).now.spec_lt(
                old(self).timers@[earliest(old(self).timers@)].time,
            ) {
                Some(old(self).timers@[earliest(old(self).timers@)])
            } else {
                None
            }),
            final(self).cookie == old(self).cookie,
            final(self).ip_rate_limit == old(self).ip_rate_limit,
            final(self).peers_by_session == old(self).peers_by_session,
            final(self).last_reseed == old(self).last_reseed,
            final(self).last_rate_reset == old(self).last_rate_reset,
    {
        if self.timers.len() == 0 {
            return None;
        }
        let mut best: usize = 0;
        let mut i: usize = 1;
        while i < self.timers.len()
            invariant
                1 <= i <= self.timers@.len(),
                best < i,
                best == earliest(self.timers@.take(i as int)),
            decreases self.timers@.len() - i,
        {
            let ghost t = self.timers@.take(i + 1);
            assert(t.drop_last() =~= self.timers@.take(i as int));
            if self.timers[i].time.lt(&self.timers[best].time) {
                best = i;
            }
            i = i + 1;
        }
        assert(self.timers@.take(self.timers@.len() as int) =~= self.timers@);
        if self.now.lt(&self.timers[best].time) {
            return None;
        }
        let e = self.timers.remove(best);
        Some(e)
    }
}


impl DynamicState {
    /// Fires one timer (see `apply_timer`).
    #[verifier::spinoff_prover]
    pub fn fire_timer(&mut self, e: TimerEntry) -> (r: Option<Action>)
        requires
            old(self).wf(),
        ensures
            final(self).wf(),
            (final(self).engine(), r) == apply_timer(old(self).engine(), e),
            final(self).peers@.len() == old(self).peers@.len(),
            r matches Some(a) ==> action_ok(a, old(self).peers@.len()),
            final(self).cookie == old(self).cookie,
            final(self).ip_rate_limit == old(self).ip_rate_limit,
            final(self).last_reseed == old(self).last_reseed,
            final(self).last_rate_reset == old(self).last_rate_reset,
    {
        let now = self.now;
        match e.kind {
            TimerEntryType::InitAttempt { session_id } => match self.peers_by_session.get(session_id) {
                Some(session) => match &session.state {
                    SessionState::Handshake(hs) => {
                        let fire = session.should_reinit(now, hs);
                        assert(session.state is Handshake);
                        if fire {
                            Some(Action::DoInitHandshake { peer_idx: session.peer })
                        } else {
                            None
                        }
                    },
                    SessionState::Transport(_) => None,
                },
                None => None,
            },
            TimerEntryType::RekeyAttempt { session_id } => match self.peers_by_session.get(session_id) {
                Some(session) => match &session.state {
                    SessionState::Transport(ts) => {
                        if session.should_rekey(now, ts) {
                            Some(Action::DoRekey { peer_idx: session.peer })
                        } else {
                            None
                        }
                    },
                    SessionState::Handshake(_) => None,
                },
                None => None,
            },
            TimerEntryType::Keepalive { session_id } => match self.peers_by_session.get(session_id) {
                Some(session) => match &session.state {
                    SessionState::Transport(ts) => {
                        if session.should_keepalive(now, ts) && !session.keepalive_pending {
                            Some(Action::DoKeepalive { session_id })
                        } else {
                            None
                        }
                    },
                    SessionState::Handshake(_) => None,
                },
                None => None,
            },
            TimerEntryType::ExpireTransport { session_id } => {
                match self.peers_by_session.remove(session_id) {
                    Some(session) => {
                        let p = session.peer.0 as usize;
                        let mut ps = self.peers[p];
                        if let Some(x) = ps.current_transport {
                            if x == session_id {
                                ps.current_transport = None;
                                self.peers.set(p, ps);
                            }
                        }
                        None
                    },
                    None => None,
                }
            },
            TimerEntryType::ExpireHandshake { session_id } => {
                match self.peers_by_session.remove(session_id) {
                    Some(session) => {
                        let p = session.peer.0 as usize;
                        let mut ps = self.peers[p];
                        if let Some(x) = ps.current_handshake {
                            if x == session_id {
                                ps.current_handshake = None;
                                self.peers.set(p, ps);
                            }
                        }
                        None
                    },
                    None => None,
                }
            },
        }
    }

    /// Works off every due timer, earliest first (see `drain`), and
    /// returns the actions they ask for.
    pub fn drain_timers(&mut self) -> (r: Vec<Action>)
        requires
            old(self).wf(),
        ensures
            final(self).wf(),
            final(self).engine() == drain(old(self).engine()).0,
            r@ == drain(old(self).engine()).1,
            final(self).peers@.len() == old(self).peers@.len(),
            forall|k: int| 0 <= k < r@.len() ==> action_ok(#[trigger] r@[k], old(self).peers@.len()),
            final(self).cookie == old(self).cookie,
            final(self).ip_rate_limit == old(self).ip_rate_limit,
            final(self).last_reseed == old(self).last_reseed,
            final(self).last_rate_reset == old(self).last_rate_reset,
    {
        let mut actions: Vec<Action> = Vec::new();
        loop
            invariant
                self.wf(),
                drain(self.engine()).0 == drain(old(self).engine()).0,
                actions@ + drain(self.engine()).1 == drain(old(self).engine()).1,
                self.peers@.len() == old(self).peers@.len(),
                forall|k: int| 0 <= k < actions@.len() ==> action_ok(#[trigger] actions@[k], old(self).peers@.len()),
                self.cookie == old(self).cookie,
                self.ip_rate_limit == old(self).ip_rate_limit,
                self.last_reseed == old(self).last_reseed,
                self.last_rate_reset == old(self).last_rate_reset,
            ensures
                self.wf(),
                self.engine() == drain(old(self).engine()).0,
                actions@ == drain(old(self).engine()).1,
                self.peers@.len() == old(self).peers@.len(),
                forall|k: int| 0 <= k < actions@.len() ==> action_ok(#[trigger] actions@[k], old(self).peers@.len()),
                self.cookie == old(self).cookie,
                self.ip_rate_limit == old(self).ip_rate_limit,
                self.last_reseed == old(self).last_reseed,
                self.last_rate_reset == old(self).last_rate_reset,
            decreases self.timers@.len(),
        {
            let ghost v = self.engine();
            match self.pop_due() {
                None => {
                    assert(drain(v) == (v, Seq::<Action>::empty()));
                    assert(actions@ + Seq::<Action>::empty() =~= actions@);
                    break ;
                },
                Some(e) => {
                    proof {
                        lemma_earliest_in_range(v.timers);
                    }
                    let a = self.fire_timer(e);
                    match a {
                        Some(x) => {
                            assert(actions@.push(x) + drain(self.engine()).1 =~= actions@ + (seq![x] + drain(
                                self.engine(),
                            ).1));
                            actions.push(x);
                        },
                        None => {},
                    }
                },
            }
        }
        actions
    }
}


// ───────────────────────────────────────────────────────────────────────
// MAINTENANCE MESSAGES

/// An empty transport message: header and tag.
#[derive(Clone, Copy)]
pub struct Keepalive {
    pub header: DataHeader,
    pub tag: Tag,
}

/// What a maintenance message carries.
#[derive(Clone, Copy)]
pub enum MaintenanceRepr {
    Init(HandshakeInit),
    Data(Keepalive),
}

/// A message the engine sends on its own: a handshake initiation or a
/// keepalive, with the address it goes to.
#[derive(Clone, Copy)]
pub struct MaintenanceMsg {
    pub socket: SocketAddress,
    pub data: MaintenanceRepr,
}

/// The wire bytes of a maintenance message.
pub open spec fn maintenance_bytes(d: MaintenanceRepr) -> Seq<u8> {
    match d {
        MaintenanceRepr::Init(init) => init_bytes(init),
        MaintenanceRepr::Data(ka) => data_header_bytes(ka.header) + ka.tag.0@,
    }
}

impl MaintenanceMsg {
    /// Where the message goes.
    pub fn to(&self) -> (r: SocketAddress)
        ensures
            r == self.socket,
    {
        self.socket
    }

    /// The message's bytes.
    pub fn data(&self) -> (r: Vec<u8>)
        ensures
            r@ == maintenance_bytes(self.data),
    {
        match &self.data {
            MaintenanceRepr::Init(init) => init.to_bytes(),
            MaintenanceRepr::Data(ka) => {
                let mut v = ka.header.to_bytes();
                super::bytes::push_all(&mut v, &ka.tag.0);
                v
            },
        }
    }
}

// ───────────────────────────────────────────────────────────────────────
// THE ENGINE

/// The configuration and the state of every peer and session.
pub struct Sessions {
    pub config: Config,
    pub dynamic: DynamicState,
}

impl Sessions {
    pub open spec fn wf(&self) -> bool {
        &&& self.config.wf()
        &&& self.dynamic.wf()
        &&& self.dynamic.peers@.len() == self.config.peers@.len()
    }

    /// An engine for `config`, its secrets drawn from `rng`.
    pub fn new(config: Config, rng: &mut rand_chacha::ChaCha20Rng) -> (r: Self)
        requires
            config.wf(),
        ensures
            r.wf(),
            r.config == config,
            session_entries(r.dynamic.peers_by_session) =~= Map::empty(),
            r.dynamic.timers@.len() == 0,
    {
        let dynamic = DynamicState::new(&config.peers, rng);
        Sessions { config, dynamic }
    }
}

/// Sessions and peers after a handshake was started with peer `p` under
/// the index `id`: the peer's previous handshake, if any, is dropped, the
/// new handshake session is in under `id`, started and last sent at `now`,
/// and the peer points at it.
pub open spec fn handshake_started(old: EngineView, new: EngineView, p: int, id: u32) -> bool {
    let dropped = match old.peers[p].current_handshake {
        Some(h) => old.sessions.remove(h),
        None => old.sessions,
    };
    &&& !dropped.contains_key(id)
    &&& new.sessions.contains_key(id)
    &&& new.sessions.remove(id) == dropped
    &&& new.sessions[id].peer.0 == p
    &&& new.sessions[id].started == old.now
    &&& new.sessions[id].sent == old.now
    &&& new.sessions[id].state is Handshake
    &&& !new.sessions[id].keepalive_pending
    &&& new.peers == old.peers.update(p, PeerState { current_handshake: Some(id), ..old.peers[p] })
    &&& new.now == old.now
}

/// The sessions left once peer `p`'s previous handshake, if any, is
/// dropped.
pub open spec fn dropped_sessions(v: EngineView, p: int) -> Map<u32, Session> {
    match v.peers[p].current_handshake {
        Some(h) => v.sessions.remove(h),
        None => v.sessions,
    }
}

/// Why a handshake with peer `p` can fail to start: every session index
/// in use was drawn again and again, the static keys agree on a
/// low-order point, or the ephemeral key drawn could do so.
pub open spec fn handshake_blocked(v: EngineView, c: Config, p: int) -> bool {
    let peer = c.peers@[p].key.0@;
    ||| !no_sessions(dropped_sessions(v, p))
    ||| dh(c.static_.private_key.0@, peer) is None
    ||| exists|esk: Seq<u8>| esk.len() == 32 && #[trigger] dh(esk, peer) is None
}

/// Sessions and peers after a handshake with peer `p` failed to start:
/// the peer's previous handshake is dropped and its handshake index
/// changed, nothing else.
pub open spec fn abandoned(v: EngineView, v2: EngineView, p: int) -> bool {
    &&& v2.sessions == dropped_sessions(v, p)
    &&& v2.peers == v.peers.update(p, PeerState { current_handshake: v2.peers[p].current_handshake, ..v.peers[p] })
    &&& v2.timers == v.timers
    &&& v2.now == v.now
}

/// The two timers a new handshake schedules: a retry and an expiry.
pub open spec fn handshake_timers(now: Tai64N, id: u32) -> Seq<TimerEntry> {
    seq![
        TimerEntry { time: now.spec_add_secs(REKEY_TIMEOUT), kind: TimerEntryType::InitAttempt { session_id: id } },
        TimerEntry {
            time: now.spec_add_secs(REKEY_ATTEMPT_TIME),
            kind: TimerEntryType::ExpireHandshake { session_id: id },
        },
    ]
}

/// Starts a handshake with `peer_idx`: drops its previous handshake,
/// draws a fresh session index and ephemeral key, seals the initiation
/// and schedules its retry and expiry. The initiation's sender field is
/// the new index.
pub fn new_handshake(sessions: &mut Sessions, peer_idx: PeerId) -> (r: Result<HandshakeInit, Error>)
    requires
        old(sessions).wf(),
        peer_idx.0 < old(sessions).config.peers@.len(),
    ensures
        final(sessions).wf(),
        final(sessions).config == old(sessions).config,
        final(sessions).dynamic.cookie == old(sessions).dynamic.cookie,
        final(sessions).dynamic.ip_rate_limit == old(sessions).dynamic.ip_rate_limit,
        final(sessions).dynamic.last_reseed == old(sessions).dynamic.last_reseed,
        final(sessions).dynamic.last_rate_reset == old(sessions).dynamic.last_rate_reset,
        final(sessions).dynamic.now == old(sessions).dynamic.now,
        r matches Ok(init) ==> {
            &&& init.msg_type == MSG_FIRST
            &&& handshake_started(
                old(sessions).dynamic.engine(),
                final(sessions).dynamic.engine(),
                peer_idx.0 as int,
                init.sender,
            )
            &&& final(sessions).dynamic.timers@ == old(sessions).dynamic.timers@ + handshake_timers(
                old(sessions).dynamic.now,
                init.sender,
            )
        },
        r is Err ==> final(sessions).dynamic.timers@ == old(sessions).dynamic.timers@,
        r is Err ==> r == Err::<HandshakeInit, Error>(Error::Rejected),
        r is Err ==> handshake_blocked(old(sessions).dynamic.engine(), old(sessions).config, peer_idx.0 as int),
        r is Err ==> abandoned(old(sessions).dynamic.engine(), final(sessions).dynamic.engine(), peer_idx.0 as int),
        dh(old(sessions).config.static_.private_key.0@, old(sessions).config.peers@[peer_idx.0 as int].key.0@)
            is None ==> r is Err,
{
    let p = peer_idx.0 as usize;
    let now = sessions.dynamic.now;
    let ghost v0 = sessions.dynamic.engine();
    let mut ps = sessions.dynamic.peers[p];
    if let Some(old_id) = ps.current_handshake {
        sessions.dynamic.peers_by_session.remove(old_id);
    }
    ps.current_handshake = None;
    sessions.dynamic.peers.set(p, ps);
    let ghost dropped = session_entries(sessions.dynamic.peers_by_session);
    assert(dropped == dropped_sessions(v0, p as int));
    let session_id = match sessions.dynamic.allocate_session_id() {
        Some(id) => id,
        None => {
            return Err(Error::Rejected);
        },
    };
    ps.current_handshake = Some(session_id);
    sessions.dynamic.peers.set(p, ps);
    let esk_i = EphemeralPrivateKey::generate(rng_bytes32(&mut sessions.dynamic.rng));
    let mut hs = HandshakeState::default();
    let init = match encrypt_handshake_init(
        &mut hs,
        &sessions.config.static_,
        &sessions.config.peers[p],
        &esk_i,
        now,
        session_id,
        ps.cookie.as_ref(),
    ) {
        Ok(init) => init,
        Err(e) => {
            proof {
                let key = sessions.config.peers@[p as int].key.0@;
                if dh(esk_i.0.0@, key) is None {
                    assert(esk_i.0.0@.len() == 32);
                }
                let v2 = sessions.dynamic.engine();
                assert(v2.peers =~= v0.peers.update(p as int, PeerState { current_handshake: v2.peers[p as int].current_handshake, ..v0.peers[p as int] }));
            }
            return Err(Error::from(e));
        },
    };
    let session = Session {
        peer: peer_idx,
        started: now,
        sent: now,
        state: SessionState::Handshake(SessionHandshake { esk_i, state: hs }),
        keepalive_pending: false,
    };
    sessions.dynamic.peers_by_session.insert(session_id, session);
    sessions.dynamic.timers.push(
        TimerEntry { time: now.add_secs(REKEY_TIMEOUT), kind: TimerEntryType::InitAttempt { session_id } },
    );
    sessions.dynamic.timers.push(
        TimerEntry {
            time: now.add_secs(REKEY_ATTEMPT_TIME),
            kind: TimerEntryType::ExpireHandshake { session_id },
        },
    );
    proof {
        let v1 = sessions.dynamic.engine();
        assert(v1.sessions.remove(session_id) =~= dropped);
        assert(v1.peers =~= v0.peers.update(p as int, PeerState { current_handshake: Some(session_id), ..v0.peers[p as int] }));
        assert(sessions.dynamic.timers@ =~= v0.timers + handshake_timers(now, session_id));
        let m = session_entries(sessions.dynamic.peers_by_session);
        assert forall|k: u32| #[trigger] m.contains_key(k) implies m[k].peer.0 < sessions.dynamic.peers@.len()
            && m[k].started.secs <= MAX_SECS && m[k].sent.secs <= MAX_SECS by {
            if k != session_id {
                assert(dropped.contains_key(k));
                assert(v0.sessions.contains_key(k));
            }
        }
    }
    Ok(init)
}


/// Sends a keepalive on the session `session_id` if it is still a
/// transport session that has been silent too long with no keepalive
/// pending, and its peer has an endpoint. (A session whose counter is
/// used up sends nothing.)
pub fn keepalive_action(sessions: &mut Sessions, session_id: u32) -> (r: Option<MaintenanceMsg>)
    requires
        old(sessions).wf(),
    ensures
        final(sessions).wf(),
        final(sessions).config == old(sessions).config,
        final(sessions).dynamic.timers == old(sessions).dynamic.timers,
        final(sessions).dynamic.peers == old(sessions).dynamic.peers,
        final(sessions).dynamic.now == old(sessions).dynamic.now,
        final(sessions).dynamic.cookie == old(sessions).dynamic.cookie,
        final(sessions).dynamic.ip_rate_limit == old(sessions).dynamic.ip_rate_limit,
        final(sessions).dynamic.last_reseed == old(sessions).dynamic.last_reseed,
        final(sessions).dynamic.last_rate_reset == old(sessions).dynamic.last_rate_reset,
        ({
            let m = session_entries(old(sessions).dynamic.peers_by_session);
            let m2 = session_entries(final(sessions).dynamic.peers_by_session);
            let now = old(sessions).dynamic.now;
            if m.contains_key(session_id) && m[session_id].state is Transport && m[session_id].spec_should_keepalive(
                now,
            ) && !m[session_id].keepalive_pending
                && m[session_id].state->Transport_0.encrypt.spec_counter() < u64::MAX
                && old(sessions).dynamic.peers@[m[session_id].peer.0 as int].endpoint is Some {
                let s = m[session_id];
                let ts = s.state->Transport_0;
                let n = ts.encrypt.spec_counter();
                &&& r is Some
                &&& r->Some_0.socket == old(sessions).dynamic.peers@[s.peer.0 as int].endpoint->0
                &&& r->Some_0.data is Data
                &&& r->Some_0.data->Data_0.header == (DataHeader { msg_type: MSG_DATA, receiver: ts.receiver, counter: n })
                &&& r->Some_0.data->Data_0.tag.0@ == chacha_tag(ts.encrypt.key(), spec_nonce(n), seq![], seq![])
                &&& m2.dom() == m.dom()
                &&& m2.remove(session_id) == m.remove(session_id)
                &&& m2[session_id].sent == now
                &&& m2[session_id].state is Transport
                &&& m2[session_id].state->Transport_0.encrypt.spec_counter() == n + 1
            } else {
                &&& r is None
                &&& m2 == m
            }
        }),
{
    let now = sessions.dynamic.now;
    let ghost m = session_entries(sessions.dynamic.peers_by_session);
    match sessions.dynamic.peers_by_session.remove(session_id) {
        None => {
            proof {
                assert(session_entries(sessions.dynamic.peers_by_session) =~= m);
            }
            None
        },
        Some(session) => {
            let mut session = session;
            let fire = match &session.state {
                SessionState::Transport(ts) => session.should_keepalive(now, ts) && !session.keepalive_pending
                    && ts.encrypt.counter() < u64::MAX,
                SessionState::Handshake(_) => false,
            };
            let p = session.peer.0 as usize;
            let ep = sessions.dynamic.peers[p].endpoint;
            let mut out: Option<MaintenanceMsg> = None;
            if fire {
                session.keepalive_pending = false;
                if let Some(ep) = ep {
                    let mut ps = sessions.dynamic.peers[p];
                    let meta = ps.keepalive(&mut session, now);
                    out = Some(
                        MaintenanceMsg {
                            socket: ep,
                            data: MaintenanceRepr::Data(Keepalive { header: meta.header, tag: meta.tag }),
                        },
                    );
                }
            }
            sessions.dynamic.peers_by_session.insert(session_id, session);
            proof {
                let m2 = session_entries(sessions.dynamic.peers_by_session);
                assert(m2.remove(session_id) =~= m.remove(session_id));
                assert(m2.dom() =~= m.dom());
                if out is None {
                    assert(m2 =~= m);
                }
                assert forall|k: u32| #[trigger] m2.contains_key(k) implies m2[k].peer.0
                    < sessions.dynamic.peers@.len() && m2[k].started.secs <= MAX_SECS && m2[k].sent.secs
                    <= MAX_SECS by {
                    assert(m.contains_key(k));
                    if k == session_id {
                        assert(m2[k].started == m[k].started);
                        assert(m2[k].peer == m[k].peer);
                    }
                }
            }
            out
        },
    }
}

/// A keepalive is due on session `id` in `v`: a transport session silent
/// too long, with no keepalive pending, a counter left, and a peer with an
/// endpoint.
pub open spec fn keepalive_due(v: EngineView, id: u32) -> bool {
    let m = v.sessions;
    &&& m.contains_key(id)
    &&& m[id].state is Transport
    &&& m[id].spec_should_keepalive(v.now)
    &&& !m[id].keepalive_pending
    &&& m[id].state->Transport_0.encrypt.spec_counter() < u64::MAX
    &&& v.peers[m[id].peer.0 as int].endpoint is Some
}

/// The keepalive `k` went out on session `id`, taking `v` to `v2`: an
/// empty payload sealed under the session's next counter, sent to the
/// peer's endpoint.
pub open spec fn keepalive_sent(v: EngineView, v2: EngineView, id: u32, k: MaintenanceMsg) -> bool {
    let s = v.sessions[id];
    let ts = s.state->Transport_0;
    let n = ts.encrypt.spec_counter();
    &&& k.socket == v.peers[s.peer.0 as int].endpoint->0
    &&& k.data is Data
    &&& k.data->Data_0.header == (DataHeader { msg_type: MSG_DATA, receiver: ts.receiver, counter: n })
    &&& k.data->Data_0.tag.0@ == chacha_tag(ts.encrypt.key(), spec_nonce(n), seq![], seq![])
    &&& v2.sessions.dom() == v.sessions.dom()
    &&& v2.sessions.remove(id) == v.sessions.remove(id)
    &&& v2.sessions[id].sent == v.now
    &&& v2.sessions[id].state is Transport
    &&& v2.sessions[id].state->Transport_0.encrypt.spec_counter() == n + 1
    &&& v2.peers == v.peers
    &&& v2.timers == v.timers
    &&& v2.now == v.now
}

/// The action `a` gave nothing in `v` and left `v2`: a handshake that
/// could not start, or a keepalive that was not due.
pub open spec fn passed_over(c: Config, v: EngineView, v2: EngineView, a: Action) -> bool {
    match a {
        Action::DoInitHandshake { peer_idx } => handshake_blocked(v, c, peer_idx.0 as int) && abandoned(
            v,
            v2,
            peer_idx.0 as int,
        ),
        Action::DoRekey { peer_idx } => handshake_blocked(v, c, peer_idx.0 as int) && abandoned(v, v2, peer_idx.0 as int),
        Action::DoKeepalive { session_id } => !keepalive_due(v, session_id) && v2 == v,
    }
}

/// A handshake with peer `p` was started in `v`, leaving `v2`; its
/// initiation goes to the peer's configured endpoint, and with no endpoint
/// nothing goes out.
pub open spec fn handshake_sent(c: Config, v: EngineView, v2: EngineView, p: int, r: Option<MaintenanceMsg>) -> bool {
    exists|id: u32|
        #[trigger] handshake_started(v, v2, p, id) && v2.timers == v.timers + handshake_timers(v.now, id) && match c.peers@[p].endpoint {
            Some(ep) => r is Some && r->Some_0.socket == ep && r->Some_0.data is Init && r->Some_0.data->Init_0.sender
                == id && r->Some_0.data->Init_0.msg_type == MSG_FIRST,
            None => r is None,
        }
}

/// The action `a` gave `r` in `v` and left `v2`.
pub open spec fn acted(c: Config, v: EngineView, v2: EngineView, a: Action, r: Option<MaintenanceMsg>) -> bool {
    match a {
        Action::DoInitHandshake { peer_idx } => handshake_sent(c, v, v2, peer_idx.0 as int, r),
        Action::DoRekey { peer_idx } => handshake_sent(c, v, v2, peer_idx.0 as int, r),
        Action::DoKeepalive { session_id } => keepalive_due(v, session_id) && r is Some && keepalive_sent(
            v,
            v2,
            session_id,
            r->Some_0,
        ),
    }
}

/// The first `k` of `acts` gave nothing, going through the states `vs`.
pub open spec fn passed_to(c: Config, acts: Seq<Action>, vs: Seq<EngineView>, k: int) -> bool {
    &&& 0 <= k <= acts.len()
    &&& vs.len() == k + 1
    &&& forall|j: int| 0 <= j < k ==> #[trigger] passed_over(c, vs[j], vs[j + 1], acts[j])
}

/// Working off `acts` in order from `v` gave `r` and left `v2`: the
/// actions before the `k`-th gave nothing (through the states `vs`), and
/// the `k`-th gave `r`; or none gave anything and `r` is `None`.
pub open spec fn worked_off(c: Config, v: EngineView, acts: Seq<Action>, v2: EngineView, r: Option<MaintenanceMsg>) -> bool {
    exists|vs: Seq<EngineView>, k: int|
        #[trigger] passed_to(c, acts, vs, k) && vs[0] == v && if k == acts.len() {
            r is None && v2 == vs[k]
        } else {
            acted(c, vs[k], v2, acts[k], r)
        }
}

/// Fires every due timer (see `drain`), then carries out the actions they
/// asked for in order until one yields a message to send: a handshake
/// started with a peer (stopping with nothing if that peer has no
/// endpoint), or a keepalive (see `worked_off`). A handshake is passed
/// over only when it could not start.
pub fn tick_timers(sessions: &mut Sessions) -> (r: Option<MaintenanceMsg>)
    requires
        old(sessions).wf(),
    ensures
        final(sessions).wf(),
        final(sessions).config == old(sessions).config,
        final(sessions).dynamic.now == old(sessions).dynamic.now,
        final(sessions).dynamic.cookie == old(sessions).dynamic.cookie,
        final(sessions).dynamic.ip_rate_limit == old(sessions).dynamic.ip_rate_limit,
        final(sessions).dynamic.last_reseed == old(sessions).dynamic.last_reseed,
        final(sessions).dynamic.last_rate_reset == old(sessions).dynamic.last_rate_reset,
        worked_off(
            old(sessions).config,
            drain(old(sessions).dynamic.engine()).0,
            drain(old(sessions).dynamic.engine()).1,
            final(sessions).dynamic.engine(),
            r,
        ),
{
    let ghost v0 = sessions.dynamic.engine();
    let actions = sessions.dynamic.drain_timers();
    proof {
        lemma_drain_keeps_now(v0);
    }
    let ghost acts = actions@;
    let ghost c = sessions.config;
    let ghost mut vs: Seq<EngineView> = seq![sessions.dynamic.engine()];
    let mut i: usize = 0;
    while i < actions.len()
        invariant
            sessions.wf(),
            sessions.config == old(sessions).config,
            c == old(sessions).config,
            i <= actions@.len(),
            actions@ == acts,
            acts == drain(old(sessions).dynamic.engine()).1,
            forall|k: int| 0 <= k < acts.len() ==> action_ok(#[trigger] acts[k], sessions.config.peers@.len()),
            passed_to(c, acts, vs, i as int),
            vs[0] == drain(old(sessions).dynamic.engine()).0,
            vs[i as int] == sessions.dynamic.engine(),
            sessions.dynamic.now == old(sessions).dynamic.now,
            sessions.dynamic.cookie == old(sessions).dynamic.cookie,
            sessions.dynamic.ip_rate_limit == old(sessions).dynamic.ip_rate_limit,
            sessions.dynamic.last_reseed == old(sessions).dynamic.last_reseed,
            sessions.dynamic.last_rate_reset == old(sessions).dynamic.last_rate_reset,
        decreases actions.len() - i,
    {
        let a = actions[i];
        let ghost v = sessions.dynamic.engine();
        match a {
            Action::DoInitHandshake { peer_idx } => {
                let h = new_handshake(sessions, peer_idx);
                if let Ok(init) = h {
                    let out = match sessions.config.peers[peer_idx.0 as usize].endpoint {
                        Some(ep) => Some(MaintenanceMsg { socket: ep, data: MaintenanceRepr::Init(init) }),
                        None => None,
                    };
                    proof {
                        assert(handshake_started(v, sessions.dynamic.engine(), peer_idx.0 as int, init.sender));
                        assert(acted(c, vs[i as int], sessions.dynamic.engine(), acts[i as int], out));
                        assert(passed_to(c, acts, vs, i as int));
                    }
                    return out;
                }
            },
            Action::DoRekey { peer_idx } => {
                let h = new_handshake(sessions, peer_idx);
                if let Ok(init) = h {
                    let out = match sessions.config.peers[peer_idx.0 as usize].endpoint {
                        Some(ep) => Some(MaintenanceMsg { socket: ep, data: MaintenanceRepr::Init(init) }),
                        None => None,
                    };
                    proof {
                        assert(handshake_started(v, sessions.dynamic.engine(), peer_idx.0 as int, init.sender));
                        assert(acted(c, vs[i as int], sessions.dynamic.engine(), acts[i as int], out));
                        assert(passed_to(c, acts, vs, i as int));
                    }
                    return out;
                }
            },
            Action::DoKeepalive { session_id } => {
                if let Some(m) = keepalive_action(sessions, session_id) {
                    proof {
                        assert(acted(c, vs[i as int], sessions.dynamic.engine(), acts[i as int], Some(m)));
                        assert(passed_to(c, acts, vs, i as int));
                    }
                    return Some(m);
                }
                assert(sessions.dynamic.engine() == v);
            },
        }
        proof {
            let vs0 = vs;
            assert(passed_over(c, v, sessions.dynamic.engine(), acts[i as int]));
            vs = vs.push(sessions.dynamic.engine());
            assert forall|j: int| 0 <= j < i + 1 implies #[trigger] passed_over(c, vs[j], vs[j + 1], acts[j]) by {
                if j < i {
                    assert(vs[j] == vs0[j] && vs[j + 1] == vs0[j + 1]);
                }
            }
        }
        i = i + 1;
    }
    proof {
        assert(passed_to(c, acts, vs, acts.len() as int));
    }
    None
}


// ───────────────────────────────────────────────────────────────────────
// THE CLOCK

/// A timestamp in nanoseconds.
pub open spec fn nanos_of(t: Tai64N) -> int {
    t.secs * 1_000_000_000 + t.nanos
}

/// More than `secs` seconds passed from `earlier` to `later`.
pub open spec fn elapsed_over(later: Tai64N, earlier: Tai64N, secs: u64) -> bool {
    nanos_of(later) - nanos_of(earlier) > secs * 1_000_000_000
}

/// Seconds after which the cookie secret and the engine's generator are
/// renewed.
pub const RESEED_AFTER: u64 = 120;
/// Seconds after which the rate-limit counters are cleared.
pub const RATE_RESET_AFTER: u64 = 1;

fn elapsed_more_than(later: Tai64N, earlier: Tai64N, secs: u64) -> (r: bool)
    requires
        !later.spec_lt(earlier),
        later.nanos < NANOS_PER_SECOND,
        earlier.nanos < NANOS_PER_SECOND,
    ensures
        r == elapsed_over(later, earlier, secs),
{
    let ds = later.secs - earlier.secs;
    proof {
        assert(nanos_of(later) - nanos_of(earlier) == ds * 1_000_000_000 + later.nanos - earlier.nanos);
        if ds > secs {
            assert(ds * 1_000_000_000 >= (secs + 1) * 1_000_000_000) by (nonlinear_arith)
                requires
                    ds >= secs + 1,
            ;
        } else if ds < secs {
            assert(ds * 1_000_000_000 + 1_000_000_000 <= secs * 1_000_000_000) by (nonlinear_arith)
                requires
                    ds + 1 <= secs,
            ;
        }
    }
    ds > secs || (ds == secs && later.nanos > earlier.nanos)
}

/// The clock after a turn to `now`: it never goes back.
pub open spec fn later_of(old_now: Tai64N, now: Tai64N) -> Tai64N {
    if old_now.spec_lt(now) {
        now
    } else {
        old_now
    }
}

/// The engine once its clock has moved to `now`.
pub open spec fn turned(d: DynamicState, now: Tai64N) -> EngineView {
    EngineView { now: later_of(d.now, now), ..d.engine() }
}

/// A turn to `now` renews the cookie secret and the generator.
pub open spec fn reseeds(d: DynamicState, now: Tai64N) -> bool {
    d.now.spec_lt(now) && elapsed_over(now, d.last_reseed, RESEED_AFTER)
}

/// A turn to `now` clears the rate-limit counters.
pub open spec fn clears(d: DynamicState, now: Tai64N) -> bool {
    d.now.spec_lt(now) && elapsed_over(now, d.last_rate_reset, RATE_RESET_AFTER)
}

impl Sessions {
    /// Moves the clock to `now` (it never goes back). Past the renewal
    /// period the cookie secret and the engine's generator are drawn anew
    /// from `rng`; past a second since the last clearing the rate-limit
    /// counters are cleared and reseeded (the clearing time itself is
    /// never moved, so once a second has passed this happens on every
    /// turn). Then the timers run (see `tick_timers`).
    pub fn turn(&mut self, now: Tai64N, rng: &mut rand_chacha::ChaCha20Rng) -> (r: Option<MaintenanceMsg>)
        requires
            old(self).wf(),
            now.secs <= MAX_SECS,
            now.nanos < NANOS_PER_SECOND,
        ensures
            final(self).wf(),
            final(self).config == old(self).config,
            final(self).dynamic.now == later_of(old(self).dynamic.now, now),
            final(self).dynamic.last_reseed == (if reseeds(old(self).dynamic, now) {
                now
            } else {
                old(self).dynamic.last_reseed
            }),
            final(self).dynamic.last_rate_reset == old(self).dynamic.last_rate_reset,
            !reseeds(old(self).dynamic, now) ==> final(self).dynamic.cookie == old(self).dynamic.cookie,
            clears(old(self).dynamic, now) ==> forall|i: int|
                0 <= i < CMS_ROWS * CMS_COLS ==> final(self).dynamic.ip_rate_limit.counters()[i] == 0,
            !clears(old(self).dynamic, now) ==> final(self).dynamic.ip_rate_limit == old(self).dynamic.ip_rate_limit,
            worked_off(
                old(self).config,
                drain(turned(old(self).dynamic, now)).0,
                drain(turned(old(self).dynamic, now)).1,
                final(self).dynamic.engine(),
                r,
            ),
    {
        if self.dynamic.now.lt(&now) {
            self.dynamic.now = now;
            if elapsed_more_than(now, self.dynamic.last_reseed, RESEED_AFTER) {
                self.dynamic.cookie.generate(rng_bytes32(rng));
                self.dynamic.rng = rng_reseed(rng);
                self.dynamic.last_reseed = now;
            }
            if elapsed_more_than(now, self.dynamic.last_rate_reset, RATE_RESET_AFTER) {
                let seed = rng_bytes32(rng);
                self.dynamic.ip_rate_limit.reset(seed_from(&seed));
            }
        }
        assert(self.dynamic.engine() =~= turned(old(self).dynamic, now));
        let ghost mid = self.dynamic.engine();
        let r = tick_timers(self);
        r
    }
}


// ───────────────────────────────────────────────────────────────────────
// SENDING

/// Every session's times leave room for the delays added to them.
pub open spec fn times_ok(m: Map<u32, Session>) -> bool {
    forall|k: u32| #[trigger]
        m.contains_key(k) ==> m[k].started.secs <= MAX_SECS && m[k].sent.secs <= MAX_SECS
}

/// A payload the transport can encrypt: whole 16-byte blocks, within the
/// cipher's limit.
pub open spec fn payload_ok(len: nat) -> bool {
    len % 16 == 0 && aead_len_ok(len)
}

/// The session `id` may carry data at `now`: it is a transport session
/// that has neither expired nor used up its counter.
pub open spec fn can_send(m: Map<u32, Session>, id: u32, now: Tai64N) -> bool {
    &&& m.contains_key(id)
    &&& m[id].state is Transport
    &&& !m[id].spec_should_reject(now, m[id].state->Transport_0.encrypt.spec_counter())
}

/// `payload` encrypted on session `id` at `now`: the metadata and
/// ciphertext returned, and the session afterwards (counter advanced,
/// last sent at `now`, everything else kept).
pub open spec fn sent_on(
    m: Map<u32, Session>,
    m2: Map<u32, Session>,
    id: u32,
    now: Tai64N,
    payload: Seq<u8>,
    ct: Seq<u8>,
    meta: EncryptedMetadata,
) -> bool {
    let s = m[id];
    let ts = s.state->Transport_0;
    let n = ts.encrypt.spec_counter();
    let k = ts.encrypt.key();
    &&& meta.header == (DataHeader { msg_type: MSG_DATA, receiver: ts.receiver, counter: n })
    &&& meta.tag.0@ == chacha_tag(k, spec_nonce(n), seq![], payload)
    &&& meta.payload_len == payload.len()
    &&& ct == super::crypto::chacha_seal(k, spec_nonce(n), seq![], payload)
    &&& m2.dom() == m.dom()
    &&& m2.remove(id) == m.remove(id)
    &&& m2[id].sent == now
    &&& m2[id].started == s.started
    &&& m2[id].peer == s.peer
    &&& m2[id].keepalive_pending == s.keepalive_pending
    &&& m2[id].state is Transport
    &&& m2[id].state->Transport_0.receiver == ts.receiver
    &&& m2[id].state->Transport_0.encrypt.key() == k
    &&& m2[id].state->Transport_0.encrypt.spec_counter() == n + 1
    &&& m2[id].state->Transport_0.decrypt == ts.decrypt
}

/// Encrypts `payload` in place on session `id` if it may send; the
/// session map is otherwise untouched.
fn encrypt_on(sessions: &mut SessionMap, id: u32, payload: &mut [u8], now: Tai64N) -> (r: Option<EncryptedMetadata>)
    requires
        times_ok(session_entries(*old(sessions))),
        payload_ok(old(payload)@.len()),
    ensures
        final(payload)@.len() == old(payload)@.len(),
        can_send(session_entries(*old(sessions)), id, now) ==> r is Some && sent_on(
            session_entries(*old(sessions)),
            session_entries(*final(sessions)),
            id,
            now,
            old(payload)@,
            final(payload)@,
            r->Some_0,
        ),
        !can_send(session_entries(*old(sessions)), id, now) ==> r is None && session_entries(*final(sessions))
            == session_entries(*old(sessions)) && final(payload)@ == old(payload)@,
        forall|k: u32|
            session_entries(*final(sessions)).contains_key(k) ==> #[trigger] session_entries(
                *final(sessions),
            )[k].peer == session_entries(*old(sessions))[k].peer,
        now.secs <= MAX_SECS ==> times_ok(session_entries(*final(sessions))),
{
    let ghost m = session_entries(*sessions);
    match sessions.remove(id) {
        None => {
            assert(session_entries(*sessions) =~= m);
            None
        },
        Some(session) => {
            let mut session = session;
            let ok = match &session.state {
                SessionState::Transport(ts) => !session.should_reject(now, ts),
                SessionState::Handshake(_) => false,
            };
            let mut out: Option<EncryptedMetadata> = None;
            if ok {
                let mut holder = PeerState::new(None);
                let meta = holder.force_encrypt(&mut session, payload, now);
                out = Some(meta);
            }
            sessions.insert(id, session);
            proof {
                let m2 = session_entries(*sessions);
                assert(m2.remove(id) =~= m.remove(id));
                assert(m2.dom() =~= m.dom());
                if !ok {
                    assert(m2 =~= m);
                }
            }
            out
        },
    }
}

/// Transport data ready to go out: where to, and its header and tag.
pub enum SendMessage {
    Maintenance(MaintenanceMsg),
    Data(SocketAddress, EncryptedMetadata),
}

impl PeerState {
    /// Encrypts `payload` on the peer's current transport session if it may
    /// still send.
    pub fn encrypt_message(&mut self, sessions: &mut SessionMap, payload: &mut [u8], now: Tai64N) -> (r: Option<
        EncryptedMetadata,
    >)
        requires
            times_ok(session_entries(*old(sessions))),
            payload_ok(old(payload)@.len()),
        ensures
            *final(self) == *old(self),
            final(payload)@.len() == old(payload)@.len(),
            ({
                let m = session_entries(*old(sessions));
                let m2 = session_entries(*final(sessions));
                if old(self).current_transport is Some && can_send(m, old(self).current_transport->0, now) {
                    r is Some && sent_on(m, m2, old(self).current_transport->0, now, old(payload)@, final(payload)@, r->Some_0)
                } else {
                    r is None && m2 == m && final(payload)@ == old(payload)@
                }
            }),
    {
        match self.current_transport {
            Some(id) => encrypt_on(sessions, id, payload, now),
            None => None,
        }
    }
}

impl Sessions {
    /// Sends `payload` to a peer: encrypted in place on its current session
    /// when that session may send (scheduling a re-key once the counter
    /// reaches the re-key threshold), otherwise a new handshake to send
    /// first. A peer unknown or without an endpoint is `Rejected`.
    pub fn send_message(&mut self, peer_idx: PeerId, payload: &mut [u8]) -> (r: Result<SendMessage, Error>)
        requires
            old(self).wf(),
            payload_ok(old(payload)@.len()),
        ensures
            final(self).wf(),
            final(self).config == old(self).config,
            ({
                let d = old(self).dynamic;
                let p = peer_idx.0 as int;
                let m = session_entries(d.peers_by_session);
                let m2 = session_entries(final(self).dynamic.peers_by_session);
                if p >= d.peers@.len() || d.peers@[p].endpoint is None {
                    r == Err::<SendMessage, Error>(Error::Rejected) && final(self).dynamic.engine() == d.engine()
                } else if d.peers@[p].current_transport is Some && can_send(m, d.peers@[p].current_transport->0, d.now) {
                    let id = d.peers@[p].current_transport->0;
                    &&& r is Ok
                    &&& r->Ok_0 is Data
                    &&& r->Ok_0->Data_0 == d.peers@[p].endpoint->0
                    &&& sent_on(m, m2, id, d.now, old(payload)@, final(payload)@, r->Ok_0->Data_1)
                    &&& final(self).dynamic.peers == d.peers
                    &&& final(self).dynamic.timers@ == (if m[id].state->Transport_0.encrypt.spec_counter() + 1
                        >= REKEY_AFTER_MESSAGES {
                        d.timers@.push(TimerEntry { time: d.now, kind: TimerEntryType::RekeyAttempt { session_id: id } })
                    } else {
                        d.timers@
                    })
                } else {
                    &&& final(payload)@ == old(payload)@
                    &&& !handshake_blocked(d.engine(), old(self).config, p) ==> r is Ok
                    &&& r is Err ==> r == Err::<SendMessage, Error>(Error::Rejected)
                    &&& r is Ok ==> r->Ok_0 is Maintenance && r->Ok_0->Maintenance_0.socket == d.peers@[p].endpoint->0
                        && r->Ok_0->Maintenance_0.data is Init && handshake_started(
                        d.engine(),
                        final(self).dynamic.engine(),
                        p,
                        r->Ok_0->Maintenance_0.data->Init_0.sender,
                    )
                }
            }),
    {
        let p = peer_idx.0 as usize;
        if p >= self.dynamic.peers.len() {
            return Err(Error::Rejected);
        }
        let mut ps = self.dynamic.peers[p];
        let ep = match ps.endpoint {
            Some(ep) => ep,
            None => {
                return Err(Error::Rejected);
            },
        };
        let now = self.dynamic.now;
        let ghost m = session_entries(self.dynamic.peers_by_session);
        match ps.encrypt_message(&mut self.dynamic.peers_by_session, payload, now) {
            Some(meta) => {
                let id = match ps.current_transport {
                    Some(id) => id,
                    None => {
                        assert(false);
                        0
                    },
                };
                let counter = match self.dynamic.peers_by_session.get(id) {
                    Some(session) => match &session.state {
                        SessionState::Transport(ts) => ts.encrypt.counter(),
                        SessionState::Handshake(_) => 0,
                    },
                    None => 0,
                };
                if counter >= REKEY_AFTER_MESSAGES {
                    self.dynamic.timers.push(
                        TimerEntry { time: now, kind: TimerEntryType::RekeyAttempt { session_id: id } },
                    );
                }
                proof {
                    let m2 = session_entries(self.dynamic.peers_by_session);
                    assert forall|k: u32| #[trigger] m2.contains_key(k) implies m2[k].peer.0
                        < self.dynamic.peers@.len() && m2[k].started.secs <= MAX_SECS && m2[k].sent.secs
                        <= MAX_SECS && (m2[k].state is Transport ==> m2[k].state->Transport_0.decrypt.replay().wf()) by {
                        assert(m.contains_key(k));
                        if k != id {
                            assert(m2.remove(id)[k] == m.remove(id)[k]);
                        }
                    }
                }
                Ok(SendMessage::Data(ep, meta))
            },
            None => {
                let init = match new_handshake(self, peer_idx) {
                    Ok(init) => init,
                    Err(e) => {
                        return Err(e);
                    },
                };
                Ok(SendMessage::Maintenance(MaintenanceMsg { socket: ep, data: MaintenanceRepr::Init(init) }))
            },
        }
    }
}


// ───────────────────────────────────────────────────────────────────────
// RECEIVING TRANSPORT DATA

/// The engine's parts other than the session map, peers, timers and
/// clock are as they were.
pub open spec fn rest_kept(d: DynamicState, d2: DynamicState) -> bool {
    &&& d2.cookie == d.cookie
    &&& d2.ip_rate_limit == d.ip_rate_limit
    &&& d2.last_reseed == d.last_reseed
    &&& d2.last_rate_reset == d.last_rate_reset
}

/// What receiving the transport message `msg` does (see `decrypt_packet`).
pub open spec fn decrypt_outcome(
    d: DynamicState,
    d2: DynamicState,
    socket: SocketAddress,
    msg: Seq<u8>,
    msg2: Seq<u8>,
    r: Result<(PeerId, usize), Error>,
) -> bool {
    let m = session_entries(d.peers_by_session);
    let m2 = session_entries(d2.peers_by_session);
    let unchanged = d2.engine() == d.engine() && msg2 == msg;
    if msg.len() < DATA_HEADER_LEN {
        r == Err::<(PeerId, usize), Error>(Error::InvalidMessage) && unchanged
    } else {
        let h = header_of(msg);
        let id = h.receiver;
        if !m.contains_key(id) || m[id].state is Handshake {
            r == Err::<(PeerId, usize), Error>(Error::Rejected) && unchanged
        } else {
            let s = m[id];
            let dk = s.state->Transport_0.decrypt;
            let len = msg.len() - 32;
            let ct = msg.subrange(16, 16 + len);
            let tag = msg.subrange(16 + len, msg.len() as int);
            let opened = chacha_open(dk.key(), spec_nonce(h.counter), seq![], ct, tag);
            if !dk.replay().accepts(h.counter) {
                r == Err::<(PeerId, usize), Error>(Error::Rejected) && unchanged
            } else if opened is None {
                r == Err::<(PeerId, usize), Error>(Error::DecryptionError) && unchanged
            } else {
                let ka = s.spec_should_keepalive(d.now) && !s.keepalive_pending;
                let p = s.peer.0 as int;
                &&& r == Ok::<(PeerId, usize), Error>((s.peer, len as usize))
                &&& msg2.len() == msg.len()
                &&& msg2.subrange(16, 16 + len) == opened->Some_0
                &&& msg2.subrange(0, 16) == msg.subrange(0, 16)
                &&& msg2.subrange(16 + len, msg.len() as int) == tag
                &&& m2.dom() == m.dom()
                &&& m2.remove(id) == m.remove(id)
                &&& m2[id].peer == s.peer
                &&& m2[id].started == s.started
                &&& m2[id].sent == s.sent
                &&& m2[id].keepalive_pending == (s.keepalive_pending || ka)
                &&& m2[id].state is Transport
                &&& m2[id].state->Transport_0.receiver == s.state->Transport_0.receiver
                &&& m2[id].state->Transport_0.encrypt == s.state->Transport_0.encrypt
                &&& m2[id].state->Transport_0.decrypt.key() == dk.key()
                &&& marked(dk.replay(), m2[id].state->Transport_0.decrypt.replay(), h.counter)
                &&& d2.peers@ == d.peers@.update(p, PeerState { endpoint: Some(socket), ..d.peers@[p] })
                &&& d2.timers@ == (if ka {
                    d.timers@.push(TimerEntry { time: d.now, kind: TimerEntryType::Keepalive { session_id: id } })
                } else {
                    d.timers@
                })
                &&& d2.now == d.now
            }
        }
    }
}

/// The payload of a transport message opened on `s`, as `open_payload`
/// leaves it.
pub open spec fn payload_opened(s: Session, s2: Session, counter: u64, msg: Seq<u8>, msg2: Seq<u8>, r: Result<usize, CryptoError>) -> bool {
    let dk = s.state->Transport_0.decrypt;
    let len = msg.len() - 32;
    let ct = msg.subrange(16, 16 + len);
    let tag = msg.subrange(16 + len, msg.len() as int);
    let opened = chacha_open(dk.key(), spec_nonce(counter), seq![], ct, tag);
    if !dk.replay().accepts(counter) {
        r == Err::<usize, CryptoError>(CryptoError::Rejected) && s2 == s && msg2 == msg
    } else if opened is None {
        r == Err::<usize, CryptoError>(CryptoError::DecryptionError) && s2 == s && msg2 == msg
    } else {
        &&& r == Ok::<usize, CryptoError>(len as usize)
        &&& msg2.len() == msg.len()
        &&& msg2.subrange(16, 16 + len) == opened->Some_0
        &&& msg2.subrange(0, 16) == msg.subrange(0, 16)
        &&& msg2.subrange(16 + len, msg.len() as int) == tag
        &&& s2.peer == s.peer
        &&& s2.started == s.started
        &&& s2.sent == s.sent
        &&& s2.keepalive_pending == s.keepalive_pending
        &&& s2.state is Transport
        &&& s2.state->Transport_0.receiver == s.state->Transport_0.receiver
        &&& s2.state->Transport_0.encrypt == s.state->Transport_0.encrypt
        &&& s2.state->Transport_0.decrypt.key() == dk.key()
        &&& marked(dk.replay(), s2.state->Transport_0.decrypt.replay(), counter)
    }
}

/// Opens `msg[16..]` (ciphertext then tag) on the transport session `s`
/// under `counter`.
fn open_payload(s: &mut Session, counter: u64, msg: &mut [u8]) -> (r: Result<usize, CryptoError>)
    requires
        old(s).state is Transport,
        old(s).state->Transport_0.decrypt.replay().wf(),
        old(msg)@.len() >= 32,
    ensures
        payload_opened(*old(s), *final(s), counter, old(msg)@, final(msg)@, r),
{
    let ghost msg0 = msg@;
    let ghost s0 = *s;
    let (head, rest) = msg.split_at_mut(16);
    let res = match &mut s.state {
        SessionState::Transport(ts) => ts.decrypt.decrypt(counter, rest),
        SessionState::Handshake(_) => Err(CryptoError::Rejected),
    };
    proof {
        let n = (msg0.len() - 32) as int;
        assert(msg0.subrange(16, 16 + n) =~= msg0.subrange(16, msg0.len() as int).subrange(0, n));
        assert(msg0.subrange(16 + n, msg0.len() as int) =~= msg0.subrange(16, msg0.len() as int).subrange(
            n,
            n + 16,
        ));
        if res is Ok {
            assert(msg@.subrange(0, 16) =~= msg0.subrange(0, 16));
            assert(msg@.subrange(16, 16 + n) =~= rest@.subrange(0, n));
            assert(msg@.subrange(16 + n, msg0.len() as int) =~= rest@.subrange(n, n + 16));
        } else {
            assert(msg@ =~= msg0);
        }
    }
    res
}

impl Sessions {
    /// Authenticates and decrypts a transport message in place: on success
    /// the plaintext is at `msg[16..16 + n]` and `(peer, n)` is returned,
    /// the peer's endpoint becomes `socket`, and a keepalive is scheduled
    /// if the session has been silent too long. (A message of 16 to 31
    /// bytes is not taken: it has no room for a tag.)
    #[verifier::spinoff_prover]
    #[verifier::rlimit(60)]
    pub fn decrypt_packet(&mut self, socket: SocketAddress, msg: &mut [u8]) -> (r: Result<(PeerId, usize), Error>)
        requires
            old(self).wf(),
            old(msg)@.len() < DATA_HEADER_LEN || old(msg)@.len() >= 32,
        ensures
            final(self).wf(),
            final(self).config == old(self).config,
            rest_kept(old(self).dynamic, final(self).dynamic),
            decrypt_outcome(old(self).dynamic, final(self).dynamic, socket, old(msg)@, final(msg)@, r),
    {
        let ghost m = session_entries(self.dynamic.peers_by_session);
        let ghost msg0 = msg@;
        let header = match DataHeader::message_mut_from(msg) {
            Some(h) => h,
            None => {
                return Err(Error::InvalidMessage);
            },
        };
        let id = header.receiver;
        let now = self.dynamic.now;
        let is_transport = match self.dynamic.peers_by_session.get(id) {
            Some(session) => match &session.state {
                SessionState::Transport(_) => true,
                SessionState::Handshake(_) => false,
            },
            None => false,
        };
        if !is_transport {
            return Err(Error::Rejected);
        }
        let mut session = match self.dynamic.peers_by_session.remove(id) {
            Some(s) => s,
            None => {
                assert(false);
                return Err(Error::Rejected);
            },
        };
        let ghost s0 = session;
        let res = open_payload(&mut session, header.counter, msg);
        match res {
            Err(e) => {
                self.dynamic.peers_by_session.insert(id, session);
                proof {
                    assert(session_entries(self.dynamic.peers_by_session) =~= m);
                }
                Err(Error::from(e))
            },
            Ok(len) => {
                let p = session.peer.0 as usize;
                let ka = session.sent.add_secs(KEEPALIVE_TIMEOUT).lt(&now) && !session.keepalive_pending;
                if ka {
                    session.keepalive_pending = true;
                }
                self.dynamic.peers_by_session.insert(id, session);
                let mut ps = self.dynamic.peers[p];
                ps.endpoint = Some(socket);
                self.dynamic.peers.set(p, ps);
                if ka {
                    self.dynamic.timers.push(TimerEntry { time: now, kind: TimerEntryType::Keepalive { session_id: id } });
                }
                proof {
                    let m2 = session_entries(self.dynamic.peers_by_session);
                    assert(m2.remove(id) =~= m.remove(id));
                    assert(m2.dom() =~= m.dom());
                    assert forall|k: u32| #[trigger] m2.contains_key(k) implies m2[k].peer.0
                        < self.dynamic.peers@.len() && m2[k].started.secs <= MAX_SECS && m2[k].sent.secs
                        <= MAX_SECS && (m2[k].state is Transport ==> m2[k].state->Transport_0.decrypt.replay().wf()) by {
                        assert(m.contains_key(k));
                        if k != id {
                            assert(m2.remove(id)[k] == m.remove(id)[k]);
                        }
                    }
                }
                Ok((PeerId(p as u32), len))
            },
        }
    }
}


// ───────────────────────────────────────────────────────────────────────
// COOKIES

/// Copies `bytes` over the front of `buf`.
fn write_prefix(buf: &mut [u8], bytes: &[u8])
    requires
        bytes@.len() <= old(buf)@.len(),
    ensures
        final(buf)@.len() == old(buf)@.len(),
        final(buf)@.subrange(0, bytes@.len() as int) == bytes@,
        final(buf)@.subrange(bytes@.len() as int, old(buf)@.len() as int) == old(buf)@.subrange(
            bytes@.len() as int,
            old(buf)@.len() as int,
        ),
{
    let mut i: usize = 0;
    while i < bytes.len()
        invariant
            i <= bytes@.len() <= buf@.len(),
            buf@.len() == old(buf)@.len(),
            forall|k: int| 0 <= k < i ==> buf@[k] == bytes@[k],
            forall|k: int| i <= k < buf@.len() ==> buf@[k] == old(buf)@[k],
        decreases bytes.len() - i,
    {
        buf[i] = bytes[i];
        i = i + 1;
    }
    assert(buf@.subrange(0, bytes@.len() as int) =~= bytes@);
    assert(buf@.subrange(bytes@.len() as int, old(buf)@.len() as int) =~= old(buf)@.subrange(
        bytes@.len() as int,
        old(buf)@.len() as int,
    ));
}

/// The bytes of a cookie reply to `receiver`: the cookie sealed with
/// XChaCha20-Poly1305 under `key` and `nonce`, authenticating `mac1`.
pub open spec fn cookie_reply(receiver: u32, nonce: Seq<u8>, key: Seq<u8>, mac1: Seq<u8>, cookie: Seq<u8>) -> Seq<u8> {
    le32(MSG_COOKIE) + le32(receiver) + nonce + xchacha_seal(key, nonce, mac1, cookie) + xchacha_tag(
        key,
        nonce,
        mac1,
        cookie,
    )
}

/// Taking the cookie reply `msg` took `s0` to `s1` and gave `r`.
pub open spec fn cookie_taken(s0: Sessions, s1: Sessions, msg: Seq<u8>, r: Result<(), Error>) -> bool {
    let d = s0.dynamic;
    let m = session_entries(d.peers_by_session);
    if msg.len() != COOKIE_MESSAGE_LEN {
        r == Err::<(), Error>(Error::InvalidMessage) && s1.dynamic.engine() == d.engine()
    } else {
        let id = from_le32(msg.subrange(4, 8));
        let nonce = msg.subrange(8, 32);
        if !m.contains_key(id) {
            r == Err::<(), Error>(Error::Rejected) && s1.dynamic.engine() == d.engine()
        } else {
            let p = m[id].peer.0 as int;
            let opened = super::crypto::xchacha_open(
                s0.config.peers@[p].cookie_key@,
                nonce,
                d.peers@[p].last_sent_mac1@,
                msg.subrange(32, 48),
                msg.subrange(48, 64),
            );
            if opened is None {
                r == Err::<(), Error>(Error::DecryptionError) && s1.dynamic.engine()
                    == d.engine()
            } else {
                &&& r is Ok
                &&& s1.dynamic.engine() == (EngineView {
                    peers: d.peers@.update(
                        p,
                        PeerState {
                            cookie: Some(s1.dynamic.peers@[p].cookie->0),
                            ..d.peers@[p]
                        },
                    ),
                    ..d.engine()
                })
                &&& s1.dynamic.peers@[p].cookie is Some
                &&& (s1.dynamic.peers@[p].cookie->0).0@ == opened->Some_0
            }
        }
    }
}

impl Sessions {
    /// Writes a cookie reply to `receiver` over the front of `buf` (its
    /// first 64 bytes), sealed with a fresh random nonce under this host's
    /// cookie key and authenticating `mac1`, the MAC of the message being
    /// answered. Returns the reply's length.
    pub fn write_cookie_message(&mut self, mac1: Mac, receiver: u32, cookie: Cookie, buf: &mut [u8]) -> (r: usize)
        requires
            old(buf)@.len() >= COOKIE_MESSAGE_LEN,
        ensures
            r == COOKIE_MESSAGE_LEN,
            final(buf)@.len() == old(buf)@.len(),
            final(buf)@.subrange(64, old(buf)@.len() as int) == old(buf)@.subrange(64, old(buf)@.len() as int),
            exists|nonce: Seq<u8>|
                nonce.len() == 24 && #[trigger] final(buf)@.subrange(0, 64) == cookie_reply(
                    receiver,
                    nonce,
                    old(self).config.static_.cookie_key@,
                    mac1@,
                    cookie.0@,
                ),
            final(self).config == old(self).config,
            final(self).dynamic.engine() == old(self).dynamic.engine(),
            rest_kept(old(self).dynamic, final(self).dynamic),
            final(self).wf() == old(self).wf(),
    {
        let nonce = rng_bytes24(&mut self.dynamic.rng);
        let enc = encrypt_cookie(cookie, &self.config.static_.cookie_key, &nonce, &mac1);
        let msg = CookieMessage { msg_type: MSG_COOKIE, receiver, nonce, cookie: enc };
        let bytes = msg.to_bytes();
        write_prefix(buf, bytes.as_slice());
        assert(bytes@ =~= cookie_reply(receiver, nonce@, self.config.static_.cookie_key@, mac1@, cookie.0@));
        COOKIE_MESSAGE_LEN
    }

    /// Takes a cookie reply: the cookie it carries, opened with the
    /// peer's cookie key against the MAC this host last sent that peer,
    /// becomes the peer's cookie for its next handshake messages.
    pub fn handle_cookie(&mut self, msg: &[u8]) -> (r: Result<(), Error>)
        requires
            old(self).wf(),
        ensures
            final(self).wf(),
            final(self).config == old(self).config,
            rest_kept(old(self).dynamic, final(self).dynamic),
            cookie_taken(*old(self), *final(self), msg@, r),
    {
        let mut cm = match CookieMessage::from_bytes(msg) {
            Some(c) => c,
            None => {
                return Err(Error::InvalidMessage);
            },
        };
        let p = match self.dynamic.peers_by_session.get(cm.receiver) {
            Some(session) => session.peer.0 as usize,
            None => {
                return Err(Error::Rejected);
            },
        };
        let mut ps = self.dynamic.peers[p];
        let opened = decrypt_cookie(&mut cm.cookie, &self.config.peers[p].cookie_key, &cm.nonce, &ps.last_sent_mac1);
        match opened {
            Ok(c) => {
                ps.cookie = Some(c);
                self.dynamic.peers.set(p, ps);
                Ok(())
            },
            Err(e) => Err(Error::from(e)),
        }
    }
}


// ───────────────────────────────────────────────────────────────────────
// HANDSHAKES RECEIVED

/// `a` comes before `b` in byte order (the order of TAI64N timestamps).
pub open spec fn lex_lt(a: Seq<u8>, b: Seq<u8>) -> bool
    decreases a.len(),
{
    if a.len() == 0 || b.len() == 0 {
        a.len() < b.len()
    } else if a[0] != b[0] {
        a[0] < b[0]
    } else {
        lex_lt(a.drop_first(), b.drop_first())
    }
}

/// Whether timestamp `a` is earlier than `b`, byte by byte.
pub fn timestamp_lt(a: &[u8; 12], b: &[u8; 12]) -> (r: bool)
    ensures
        r == lex_lt(a@, b@),
{
    let mut i: usize = 0;
    assert(a@.skip(0) =~= a@);
    assert(b@.skip(0) =~= b@);
    while i < 12
        invariant
            i <= 12,
            a@.len() == 12 && b@.len() == 12,
            lex_lt(a@, b@) == lex_lt(a@.skip(i as int), b@.skip(i as int)),
        decreases 12 - i,
    {
        if a[i] != b[i] {
            return a[i] < b[i];
        }
        assert(a@.skip(i as int).drop_first() =~= a@.skip(i + 1));
        assert(b@.skip(i as int).drop_first() =~= b@.skip(i + 1));
        i = i + 1;
    }
    false
}

/// Sessions and peers once the transport session `id`, `sess`, is
/// installed for peer `p`: it goes in, the peer's previous transport
/// session goes out, and the peer points at the new one.
pub open spec fn transport_installed(old: Map<u32, Session>, new: Map<u32, Session>, prev: Option<u32>, id: u32, sess: Session) -> bool {
    let with = old.insert(id, sess);
    new == match prev {
        Some(o) => with.remove(o),
        None => with,
    }
}

impl DynamicState {
    /// Installs `session` under `id` as peer `p`'s transport session,
    /// dropping the peer's previous one.
    fn install_transport(&mut self, p: usize, id: u32, session: Session)
        requires
            old(self).wf(),
            p < old(self).peers@.len(),
            session.peer.0 == p,
            session.started.secs <= MAX_SECS,
            session.sent.secs <= MAX_SECS,
            session.state is Transport ==> session.state->Transport_0.decrypt.replay().wf(),
        ensures
            final(self).wf(),
            transport_installed(
                session_entries(old(self).peers_by_session),
                session_entries(final(self).peers_by_session),
                old(self).peers@[p as int].current_transport,
                id,
                session,
            ),
            final(self).peers@ == old(self).peers@.update(
                p as int,
                PeerState { current_transport: Some(id), ..old(self).peers@[p as int] },
            ),
            final(self).timers == old(self).timers,
            final(self).now == old(self).now,
            rest_kept(*old(self), *final(self)),
    {
        let ghost m = session_entries(self.peers_by_session);
        let ghost sess = session;
        self.peers_by_session.insert(id, session);
        let mut ps = self.peers[p];
        if let Some(o) = ps.current_transport {
            self.peers_by_session.remove(o);
        }
        ps.current_transport = Some(id);
        self.peers.set(p, ps);
        proof {
            let m2 = session_entries(self.peers_by_session);
            assert forall|k: u32| #[trigger] m2.contains_key(k) implies m2[k].peer.0 < self.peers@.len()
                && m2[k].started.secs <= MAX_SECS && m2[k].sent.secs <= MAX_SECS && (m2[k].state is Transport
                ==> m2[k].state->Transport_0.decrypt.replay().wf()) by {
                if k != id {
                    assert(m.contains_key(k));
                }
            }
        }
    }
}

/// The first MAC of a 148-byte initiation checks out under `key`.
pub open spec fn init_mac1_ok(msg: Seq<u8>, key: Seq<u8>) -> bool {
    msg.subrange(116, 132) == blake2s_mac_128(key, msg.subrange(0, 116))
}

/// The second MAC of a 148-byte initiation checks out under `cookie`.
pub open spec fn init_mac2_ok(msg: Seq<u8>, cookie: Seq<u8>) -> bool {
    msg.subrange(132, 148) == blake2s_mac_128(cookie, msg.subrange(0, 132))
}

/// The cookie this host hands the sender at `socket` when under load.
pub open spec fn cookie_for(d: DynamicState, socket: SocketAddress) -> Seq<u8> {
    blake2s_mac_128(d.cookie.key(), cookie_input(socket))
}

/// Counting one handshake took the rate counters from `c0` to `c1`, and
/// `ov` tells whether its sender was then over the limit.
pub open spec fn rate_counted(c0: Seq<u64>, c1: Seq<u64>, ov: bool) -> bool {
    exists|cols: Seq<usize>|
        cols.len() == CMS_ROWS && (forall|k: int| 0 <= k < CMS_ROWS ==> cols[k] < CMS_COLS) && #[trigger] bumped(
            c0,
            cols,
        ) == c1 && ov == (smallest_count(c0, cols, CMS_ROWS as int) > 10)
}

/// A sender whose counters all stood below ten before this handshake is
/// not over the limit.
pub proof fn lemma_quiet_sender(c0: Seq<u64>, c1: Seq<u64>, ov: bool)
    requires
        rate_counted(c0, c1, ov),
        c0.len() == CMS_ROWS * CMS_COLS,
        forall|i: int| 0 <= i < c0.len() ==> c0[i] < 10,
    ensures
        !ov,
{
    let cols = choose|cols: Seq<usize>|
        cols.len() == CMS_ROWS && (forall|k: int| 0 <= k < CMS_ROWS ==> cols[k] < CMS_COLS) && #[trigger] bumped(
            c0,
            cols,
        ) == c1 && ov == (smallest_count(c0, cols, CMS_ROWS as int) > 10);
    let r = CMS_ROWS as int - 1;
    assert(0 <= cell(r, cols[r] as int) < c0.len());
    assert(smallest_count(c0, cols, CMS_ROWS as int) <= sat_inc(c0[cell(r, cols[r] as int)]));
}

/// The responder's opening of a 148-byte initiation with its identity
/// `st`: `(hash, chain, outcome)`.
pub open spec fn init_opening(st: StaticInitiatorConfig, msg: Seq<u8>) -> (
    Seq<u8>,
    Seq<u8>,
    Result<(Seq<u8>, Seq<u8>), CryptoError>,
) {
    spec_init_recv(
        IDENTIFIER_HASH@,
        CONSTRUCTION_HASH@,
        st.private_key.0@,
        st.public_key.0@,
        msg.subrange(8, 40),
        msg.subrange(40, 72),
        msg.subrange(72, 88),
        msg.subrange(88, 100),
        msg.subrange(100, 116),
    )
}

/// The bytes of the response under index `id` to `receiver`: the public
/// key of `esk`, the tag of the sealed empty payload, the first MAC under
/// `mac1_key`, and the second under `cookie` (zeros without one).
pub open spec fn resp_answer(
    id: u32,
    receiver: u32,
    esk: Seq<u8>,
    tag: Seq<u8>,
    mac1_key: Seq<u8>,
    cookie: Option<Cookie>,
) -> Seq<u8> {
    let prefix = le32(MSG_SECOND) + le32(id) + le32(receiver) + x25519_public(esk) + tag;
    let mac1 = blake2s_mac_128(mac1_key, prefix);
    prefix + mac1 + match cookie {
        Some(c) => blake2s_mac_128(c.0@, prefix + mac1),
        None => Seq::new(16, |i: int| 0u8),
    }
}

/// Keys fresh from a handshake with chaining key `chain`: the initiator
/// sends under the first block of the split and receives under the
/// second, the responder the other way round; nothing sent or seen yet.
pub open spec fn fresh_transport(t: SessionTransport, chain: Seq<u8>, initiator: bool) -> bool {
    &&& t.encrypt.key() == kdf(chain, seq![], if initiator { 1 } else { 2 })
    &&& t.decrypt.key() == kdf(chain, seq![], if initiator { 2 } else { 1 })
    &&& t.encrypt.spec_counter() == 0
    &&& t.decrypt.replay().wf() && t.decrypt.replay().last() == 0
    &&& forall|n: u64| !t.decrypt.replay().seen(n)
}

/// An initiation from peer `p` that opened to the static key `spk` with a
/// timestamp no older than the peer's last, the handshake standing at
/// `h`, `c`, answered with `r`. `esk` is the ephemeral key drawn for the
/// answer: the answer goes out unless the draw of a session index fails
/// (never with no session in use) or a Diffie-Hellman step with `esk`
/// meets a low-order point.
pub open spec fn init_accepted(
    s0: Sessions,
    s1: Sessions,
    msg0: Seq<u8>,
    msg1: Seq<u8>,
    p: int,
    spk: Seq<u8>,
    ts: Seq<u8>,
    h: Seq<u8>,
    c: Seq<u8>,
    esk: Seq<u8>,
    r: Result<usize, Error>,
) -> bool {
    let d = s0.dynamic;
    let m = session_entries(d.peers_by_session);
    let m2 = session_entries(s1.dynamic.peers_by_session);
    let sender = from_le32(msg0.subrange(4, 8));
    let peer = s0.config.peers@[p];
    let t = spec_resp_send(h, c, esk, msg0.subrange(8, 40), spk, peer.preshared_key@);
    let ps = s1.dynamic.peers@[p];
    &&& ps.latest_ts@ == ts
    &&& no_sessions(m) && t.2 is Some ==> r == Ok::<usize, Error>(HANDSHAKE_RESP_LEN)
    &&& r is Err ==> r == Err::<usize, Error>(Error::Rejected) && s1.dynamic.peers@ == d.peers@.update(
        p,
        PeerState { latest_ts: ps.latest_ts, ..d.peers@[p] },
    )
    &&& r is Ok ==> r == Ok::<usize, Error>(HANDSHAKE_RESP_LEN) && t.2 is Some && exists|id: u32, tr: SessionTransport|
        #![trigger resp_answer(id, sender, esk, t.2->Some_0, peer.mac1_key@, d.peers@[p].cookie), fresh_transport(tr, t.1, false)]
        {
            let answer = resp_answer(id, sender, esk, t.2->Some_0, peer.mac1_key@, d.peers@[p].cookie);
            let sess = Session {
                peer: PeerId(p as u32),
                started: d.now,
                sent: d.now,
                state: SessionState::Transport(tr),
                keepalive_pending: false,
            };
            &&& !m.contains_key(id)
            &&& tr.receiver == sender && fresh_transport(tr, t.1, false)
            &&& transport_installed(m, m2, d.peers@[p].current_transport, id, sess)
            &&& msg1.subrange(0, 92) == answer
            &&& ps.last_sent_mac1@ == answer.subrange(60, 76)
            &&& s1.dynamic.peers@ == d.peers@.update(
                p,
                PeerState {
                    latest_ts: ps.latest_ts,
                    last_sent_mac1: ps.last_sent_mac1,
                    current_transport: Some(id),
                    ..d.peers@[p]
                },
            )
            &&& s1.dynamic.timers@ == d.timers@.push(
                TimerEntry {
                    time: d.now.spec_add_secs(REJECT_AFTER_TIME),
                    kind: TimerEntryType::ExpireTransport { session_id: id },
                },
            )
        }
}

/// Receiving the initiation `msg0` from `socket` took `s0` to `s1`, left
/// `msg1` in the buffer and gave `r`.
pub open spec fn init_answered(
    s0: Sessions,
    s1: Sessions,
    socket: SocketAddress,
    msg0: Seq<u8>,
    msg1: Seq<u8>,
    r: Result<usize, Error>,
) -> bool {
    let d = s0.dynamic;
    let st = s0.config.static_;
    let kept = s1.dynamic.engine() == d.engine();
    &&& msg1.len() == msg0.len()
    &&& msg0.len() != HANDSHAKE_INIT_LEN ==> r == Err::<usize, Error>(Error::InvalidMessage) && kept
        && s1.dynamic.ip_rate_limit == d.ip_rate_limit
    &&& r is Err ==> session_entries(s1.dynamic.peers_by_session) == session_entries(d.peers_by_session)
        && s1.dynamic.timers@ == d.timers@ && msg1 == msg0
    &&& msg0.len() == HANDSHAKE_INIT_LEN ==> exists|ov: bool|
        #[trigger] rate_counted(d.ip_rate_limit.counters(), s1.dynamic.ip_rate_limit.counters(), ov) && if !init_mac1_ok(
            msg0,
            st.mac1_key@,
        ) {
            r == Err::<usize, Error>(Error::Rejected) && kept
        } else if ov && !init_mac2_ok(msg0, cookie_for(d, socket)) {
            &&& r == Ok::<usize, Error>(COOKIE_MESSAGE_LEN) && kept
            &&& msg1.subrange(64, 148) == msg0.subrange(64, 148)
            &&& exists|nonce: Seq<u8>|
                nonce.len() == 24 && #[trigger] msg1.subrange(0, 64) == cookie_reply(
                    from_le32(msg0.subrange(4, 8)),
                    nonce,
                    st.cookie_key@,
                    msg0.subrange(116, 132),
                    cookie_for(d, socket),
                )
        } else {
            let o = init_opening(st, msg0);
            match o.2 {
                Err(e) => r == Err::<usize, Error>(error_of(e)) && kept,
                Ok((spk, ts)) => if forall|i: int| 0 <= i < s0.config.peers@.len() ==> s0.config.peers@[i].key.0@ != spk {
                    r == Err::<usize, Error>(Error::KeyExchangeError) && kept
                } else {
                    forall|p: int|
                        0 <= p < s0.config.peers@.len() && #[trigger] s0.config.peers@[p].key.0@ == spk ==> if lex_lt(
                            ts,
                            d.peers@[p].latest_ts@,
                        ) {
                            r == Err::<usize, Error>(Error::Rejected) && kept
                        } else {
                            exists|esk: Seq<u8>| #[trigger]
                                init_accepted(s0, s1, msg0, msg1, p, spk, ts, o.0, o.1, esk, r)
                        }
                },
            }
        }
}

impl Sessions {
    /// Answers a handshake initiation in place. The sender's address is
    /// counted for rate limiting first. A message of the wrong size is
    /// `InvalidMessage`, a bad first MAC `Rejected`; under load without a
    /// valid second MAC the answer is a cookie reply (64 bytes). Otherwise
    /// the initiation is opened; an unknown static key is
    /// `KeyExchangeError`, a timestamp older than the peer's last one
    /// `Rejected`. On success a transport session under a fresh index
    /// replaces the peer's previous one, expires after the reject time,
    /// and the response (92 bytes) is written over the front of `msg`
    /// (see `init_answered`). Success is owed whenever no session is in
    /// use and the ephemeral key drawn meets no low-order point; with
    /// sessions in use the draw of an index may in principle fail.
    #[verifier::spinoff_prover]
    #[verifier::rlimit(40)]
    pub fn handle_handshake_init(&mut self, socket: SocketAddress, msg: &mut [u8]) -> (r: Result<usize, Error>)
        requires
            old(self).wf(),
        ensures
            final(self).wf(),
            final(self).config == old(self).config,
            final(self).dynamic.now == old(self).dynamic.now,
            init_answered(*old(self), *final(self), socket, old(msg)@, final(msg)@, r),
            r is Ok ==> r == Ok::<usize, Error>(COOKIE_MESSAGE_LEN) || r == Ok::<usize, Error>(HANDSHAKE_RESP_LEN),
    {
        let ghost msg0 = msg@;
        let ghost s0 = *self;
        let mut init = match HandshakeInit::from_bytes(msg) {
            Some(i) => i,
            None => {
                return Err(Error::InvalidMessage);
            },
        };
        let ghost init0 = init;
        proof {
            assert(msg0.subrange(0, 116) =~= init_bytes(init).subrange(0, 116));
            assert(msg0.subrange(0, 132) =~= init_bytes(init).subrange(0, 132));
            assert(msg0.subrange(116, 132) =~= init.mac1@);
            assert(msg0.subrange(132, 148) =~= init.mac2@);
            assert(msg0.subrange(8, 40) =~= init.ephemeral_key@);
            assert(msg0.subrange(40, 72) =~= init.static_key.msg@);
            assert(msg0.subrange(72, 88) =~= init.static_key.tag.0@);
            assert(msg0.subrange(88, 100) =~= init.timestamp.msg@);
            assert(msg0.subrange(100, 116) =~= init.timestamp.tag.0@);
        }
        let overloaded = self.dynamic.overloaded(&socket.ip);
        let ghost c1 = self.dynamic.ip_rate_limit.counters();
        assert(rate_counted(s0.dynamic.ip_rate_limit.counters(), c1, overloaded));
        let mac1 = init.compute_mac1(&self.config.static_.mac1_key);
        match init.verify(&self.config.static_, overloaded, &self.dynamic.cookie, &socket) {
            Err(_) => {
                assert(!init_mac1_ok(msg0, s0.config.static_.mac1_key@));
                return Err(Error::Rejected);
            },
            Ok(Some(cookie)) => {
                let n = self.write_cookie_message(mac1, init.sender, cookie, msg);
                proof {
                    assert(init_mac1_ok(msg0, s0.config.static_.mac1_key@));
                    assert(overloaded && !init_mac2_ok(msg0, cookie_for(s0.dynamic, socket)));
                    assert(mac1@ == msg0.subrange(116, 132));
                }
                return Ok(n);
            },
            Ok(None) => {},
        }
        assert(init_mac1_ok(msg0, s0.config.static_.mac1_key@));
        assert(!(overloaded && !init_mac2_ok(msg0, cookie_for(s0.dynamic, socket))));
        let ghost o = init_opening(s0.config.static_, msg0);
        let now = self.dynamic.now;
        let mut hs = HandshakeState::default();
        let decrypted = match decrypt_handshake_init(&mut init, &mut hs, &self.config.static_) {
            Ok(d) => d,
            Err(e) => {
                assert(o.2 == Err::<(Seq<u8>, Seq<u8>), CryptoError>(e));
                return Err(Error::from(e));
            },
        };
        let ghost spk = o.2->Ok_0.0;
        let ghost ts0 = o.2->Ok_0.1;
        let spk_key = decrypted.static_key();
        let p = match self.config.get_peer_idx(&spk_key) {
            Some(id) => id.0 as usize,
            None => {
                return Err(Error::KeyExchangeError);
            },
        };
        proof {
            assert forall|q: int|
                0 <= q < s0.config.peers@.len() && #[trigger] s0.config.peers@[q].key.0@ == spk implies q == p by {
                let idx = indexed_peers(s0.config.peers_by_pubkey);
                assert(idx[s0.config.peers@[q].key.0@] == q);
                assert(idx[s0.config.peers@[p as int].key.0@] == p);
            }
        }
        let ts = decrypted.timestamp();
        let mut ps = self.dynamic.peers[p];
        if timestamp_lt(&ts, &ps.latest_ts) {
            return Err(Error::Rejected);
        }
        ps.latest_ts = ts;
        self.dynamic.peers.set(p, ps);
        let session_id = match self.dynamic.allocate_session_id() {
            Some(i) => i,
            None => {
                proof {
                    let w = Seq::<u8>::empty();
                    assert(init_accepted(s0, *self, msg0, msg@, p as int, spk, ts0, o.0, o.1, w, Err(Error::Rejected)));
                }
                return Err(Error::Rejected);
            },
        };
        let esk_r = EphemeralPrivateKey::generate(rng_bytes32(&mut self.dynamic.rng));
        let ghost esk = esk_r.0.0@;
        let ghost t = spec_resp_send(o.0, o.1, esk, msg0.subrange(8, 40), spk, s0.config.peers@[p as int].preshared_key@);
        let resp = match encrypt_handshake_resp(
            &mut hs,
            &decrypted,
            &esk_r,
            &self.config.peers[p],
            session_id,
            ps.cookie.as_ref(),
        ) {
            Ok(resp) => resp,
            Err(e) => {
                assert(t.2 is None);
                assert(init_accepted(s0, *self, msg0, msg@, p as int, spk, ts0, o.0, o.1, esk, Err(Error::Rejected)));
                return Err(Error::from(e));
            },
        };
        ps.last_sent_mac1 = resp.mac1;
        self.dynamic.peers.set(p, ps);
        let (encrypt, decrypt) = hs.split(false);
        let tr = SessionTransport { receiver: init.sender, encrypt, decrypt };
        let session = Session {
            peer: PeerId(p as u32),
            started: now,
            sent: now,
            state: SessionState::Transport(tr),
            keepalive_pending: false,
        };
        let ghost sess = session;
        let ghost m = session_entries(self.dynamic.peers_by_session);
        self.dynamic.install_transport(p, session_id, session);
        self.dynamic.timers.push(
            TimerEntry {
                time: now.add_secs(REJECT_AFTER_TIME),
                kind: TimerEntryType::ExpireTransport { session_id },
            },
        );
        let bytes = resp.to_bytes();
        write_prefix(msg, bytes.as_slice());
        proof {
            let d = s0.dynamic;
            let sender = from_le32(msg0.subrange(4, 8));
            let answer = resp_answer(session_id, sender, esk, t.2->Some_0, s0.config.peers@[p as int].mac1_key@, d.peers@[p as int].cookie);
            assert(resp_bytes(resp) =~= answer);
            assert(msg@.subrange(0, 92) == answer);
            assert(answer.subrange(60, 76) =~= resp.mac1@);
            assert(fresh_transport(tr, t.1, false));
            assert(self.dynamic.peers@ =~= d.peers@.update(
                p as int,
                PeerState {
                    latest_ts: ps.latest_ts,
                    last_sent_mac1: ps.last_sent_mac1,
                    current_transport: Some(session_id),
                    ..d.peers@[p as int]
                },
            ));
            assert(init_accepted(s0, *self, msg0, msg@, p as int, spk, ts0, o.0, o.1, esk, Ok(HANDSHAKE_RESP_LEN)));
            assert(rate_counted(s0.dynamic.ip_rate_limit.counters(), self.dynamic.ip_rate_limit.counters(), overloaded));
            assert(msg@.len() == msg0.len());
            assert(o.2 == Ok::<(Seq<u8>, Seq<u8>), CryptoError>((spk, ts0)));
            assert(s0.config.peers@[p as int].key.0@ == spk);
            assert(!lex_lt(ts0, d.peers@[p as int].latest_ts@));
        }
        Ok(HANDSHAKE_RESP_LEN)
    }
}


/// What receiving a message produced: a reply written over the front of
/// the buffer (its length), transport data decrypted in place (the peer
/// and the plaintext's length, at offset 16), nothing, or a completed
/// handshake with the means to send on it.
#[derive(Clone, Copy)]
pub enum Message {
    Write(usize),
    Read(PeerId, usize),
    Noop,
    HandshakeComplete(MessageEncrypter),
}

/// The first MAC of a 92-byte response checks out under `key`.
pub open spec fn resp_mac1_ok(msg: Seq<u8>, key: Seq<u8>) -> bool {
    msg.subrange(60, 76) == blake2s_mac_128(key, msg.subrange(0, 60))
}

/// The two timers a completed handshake schedules: a re-key and an
/// expiry.
pub open spec fn transport_timers(now: Tai64N, id: u32) -> Seq<TimerEntry> {
    seq![
        TimerEntry { time: now.spec_add_secs(REKEY_AFTER_TIME), kind: TimerEntryType::RekeyAttempt { session_id: id } },
        TimerEntry {
            time: now.spec_add_secs(REJECT_AFTER_TIME),
            kind: TimerEntryType::ExpireTransport { session_id: id },
        },
    ]
}

/// The second MAC of a 92-byte response checks out under `cookie`.
pub open spec fn resp_mac2_ok(msg: Seq<u8>, cookie: Seq<u8>) -> bool {
    msg.subrange(76, 92) == blake2s_mac_128(cookie, msg.subrange(0, 76))
}

/// The initiator's opening of a 92-byte response with its identity `st`,
/// from the handshake it keeps for the response's session and the pre-shared
/// key of that session's peer: `(hash, chain, outcome)`.
pub open spec fn resp_opening(st: StaticInitiatorConfig, hs: SessionHandshake, psk: Seq<u8>, msg: Seq<u8>) -> (
    Seq<u8>,
    Seq<u8>,
    Result<(), CryptoError>,
) {
    spec_resp_recv(
        hs.state.hash(),
        hs.state.chain(),
        hs.esk_i.0.0@,
        st.private_key.0@,
        msg.subrange(12, 44),
        psk,
        Seq::<u8>::empty(),
        msg.subrange(44, 60),
    )
}

/// Receiving the response `msg0` from `socket` took `s0` to `s1`, left
/// `msg1` in the buffer and gave `r`.
pub open spec fn resp_answered(
    s0: Sessions,
    s1: Sessions,
    socket: SocketAddress,
    msg0: Seq<u8>,
    msg1: Seq<u8>,
    r: Result<Message, Error>,
) -> bool {
    let d = s0.dynamic;
    let st = s0.config.static_;
    let kept = s1.dynamic.engine() == d.engine();
    let m = session_entries(d.peers_by_session);
    let m2 = session_entries(s1.dynamic.peers_by_session);
    &&& msg1.len() == msg0.len()
    &&& msg0.len() != HANDSHAKE_RESP_LEN ==> r == Err::<Message, Error>(Error::InvalidMessage) && kept
        && s1.dynamic.ip_rate_limit == d.ip_rate_limit
    &&& r is Err ==> kept && msg1 == msg0
    &&& msg0.len() == HANDSHAKE_RESP_LEN ==> exists|ov: bool|
        #[trigger] rate_counted(d.ip_rate_limit.counters(), s1.dynamic.ip_rate_limit.counters(), ov) && if !resp_mac1_ok(
            msg0,
            st.mac1_key@,
        ) {
            r == Err::<Message, Error>(Error::Rejected) && kept
        } else if ov && !resp_mac2_ok(msg0, cookie_for(d, socket)) {
            &&& r == Ok::<Message, Error>(Message::Write(COOKIE_MESSAGE_LEN)) && kept
            &&& msg1.subrange(64, 92) == msg0.subrange(64, 92)
            &&& exists|nonce: Seq<u8>|
                nonce.len() == 24 && #[trigger] msg1.subrange(0, 64) == cookie_reply(
                    from_le32(msg0.subrange(4, 8)),
                    nonce,
                    st.cookie_key@,
                    msg0.subrange(60, 76),
                    cookie_for(d, socket),
                )
        } else {
            let id = from_le32(msg0.subrange(8, 12));
            if !(m.contains_key(id) && m[id].state is Handshake) {
                r == Err::<Message, Error>(Error::Rejected) && kept
            } else {
                let p = m[id].peer.0 as int;
                let o = resp_opening(st, m[id].state->Handshake_0, s0.config.peers@[p].preshared_key@, msg0);
                match o.2 {
                    Err(e) => r == Err::<Message, Error>(error_of(e)) && kept,
                    Ok(()) => {
                        &&& r == Ok::<Message, Error>(Message::HandshakeComplete(MessageEncrypter(id)))
                        &&& msg1 == msg0
                        &&& exists|tr: SessionTransport|
                            #[trigger] fresh_transport(tr, o.1, true) && tr.receiver == from_le32(msg0.subrange(4, 8))
                                && transport_installed(
                                m,
                                m2,
                                d.peers@[p].current_transport,
                                id,
                                Session {
                                    peer: m[id].peer,
                                    started: d.now,
                                    sent: d.now,
                                    state: SessionState::Transport(tr),
                                    keepalive_pending: m[id].keepalive_pending,
                                },
                            )
                        &&& s1.dynamic.peers@ == d.peers@.update(
                            p,
                            PeerState {
                                endpoint: Some(socket),
                                current_handshake: None,
                                current_transport: Some(id),
                                ..d.peers@[p]
                            },
                        )
                        &&& s1.dynamic.timers@ == d.timers@ + transport_timers(d.now, id)
                    },
                }
            }
        }
}

impl Sessions {
    /// Completes a handshake this host started, from the peer's response.
    /// A message of the wrong size is `InvalidMessage`, a bad first MAC
    /// `Rejected`; under load without a valid second MAC the answer is a
    /// cookie reply. A response to no session, or to a session that is no
    /// longer a handshake, is `Rejected`. When it opens, the session
    /// becomes the peer's transport session (replacing its previous one),
    /// the peer's endpoint becomes `socket`, and a re-key and an expiry are
    /// scheduled (see `resp_answered`).
    #[verifier::spinoff_prover]
    #[verifier::rlimit(40)]
    pub fn handle_handshake_resp(&mut self, socket: SocketAddress, msg: &mut [u8]) -> (r: Result<Message, Error>)
        requires
            old(self).wf(),
        ensures
            final(self).wf(),
            final(self).config == old(self).config,
            final(self).dynamic.now == old(self).dynamic.now,
            resp_answered(*old(self), *final(self), socket, old(msg)@, final(msg)@, r),
            r is Ok ==> r == Ok::<Message, Error>(Message::Write(COOKIE_MESSAGE_LEN)) || r->Ok_0 is HandshakeComplete,
    {
        let ghost msg0 = msg@;
        let ghost s0 = *self;
        let mut resp = match HandshakeResp::from_bytes(msg) {
            Some(r) => r,
            None => {
                return Err(Error::InvalidMessage);
            },
        };
        assert(msg0.subrange(0, 60) =~= resp_bytes(resp).subrange(0, 60));
        assert(msg0.subrange(60, 76) =~= resp.mac1@);
        assert(msg0.subrange(0, 76) =~= resp_bytes(resp).subrange(0, 76));
        assert(msg0.subrange(76, 92) =~= resp.mac2@);
        assert(msg0.subrange(12, 44) =~= resp.ephemeral_key@);
        assert(msg0.subrange(44, 60) =~= resp.empty.tag.0@);
        assert(resp.empty.msg@ =~= Seq::<u8>::empty());
        let overloaded = self.dynamic.overloaded(&socket.ip);
        assert(rate_counted(s0.dynamic.ip_rate_limit.counters(), self.dynamic.ip_rate_limit.counters(), overloaded));
        let mac1 = resp.compute_mac1(&self.config.static_.mac1_key);
        match resp.verify(&self.config.static_, overloaded, &self.dynamic.cookie, &socket) {
            Err(_) => {
                assert(!resp_mac1_ok(msg0, s0.config.static_.mac1_key@));
                return Err(Error::Rejected);
            },
            Ok(Some(cookie)) => {
                let n = self.write_cookie_message(mac1, resp.sender, cookie, msg);
                proof {
                    assert(resp_mac1_ok(msg0, s0.config.static_.mac1_key@));
                    assert(overloaded && !resp_mac2_ok(msg0, cookie_for(s0.dynamic, socket)));
                    assert(mac1@ == msg0.subrange(60, 76));
                }
                return Ok(Message::Write(n));
            },
            Ok(None) => {},
        }
        assert(resp_mac1_ok(msg0, s0.config.static_.mac1_key@));
        assert(!(overloaded && !resp_mac2_ok(msg0, cookie_for(s0.dynamic, socket))));
        let session_id = resp.receiver;
        let sender = resp.sender;
        let (p, esk_i, hs0) = match self.dynamic.peers_by_session.get(session_id) {
            Some(session) => match &session.state {
                SessionState::Handshake(hs) => (session.peer.0 as usize, hs.esk_i, hs.state),
                SessionState::Transport(_) => {
                    return Err(Error::Rejected);
                },
            },
            None => {
                return Err(Error::Rejected);
            },
        };
        let mut hs_state = hs0;
        match decrypt_handshake_resp(&mut resp, &mut hs_state, &self.config.static_, &self.config.peers[p], &esk_i) {
            Ok(()) => {},
            Err(e) => {
                proof {
                    let m0 = session_entries(s0.dynamic.peers_by_session);
                    let o = resp_opening(s0.config.static_, m0[session_id].state->Handshake_0, s0.config.peers@[p as int].preshared_key@, msg0);
                    assert(o.2 == Err::<(), CryptoError>(e));
                }
                return Err(Error::from(e));
            },
        }
        let ghost o = resp_opening(s0.config.static_, session_entries(s0.dynamic.peers_by_session)[session_id].state->Handshake_0, s0.config.peers@[p as int].preshared_key@, msg0);
        let now = self.dynamic.now;
        let ghost m = session_entries(self.dynamic.peers_by_session);
        let mut session = match self.dynamic.peers_by_session.remove(session_id) {
            Some(s) => s,
            None => {
                assert(false);
                return Err(Error::Rejected);
            },
        };
        let (encrypt, decrypt) = hs_state.split(true);
        let tr = SessionTransport { receiver: sender, encrypt, decrypt };
        assert(fresh_transport(tr, o.1, true));
        session.state = SessionState::Transport(tr);
        session.started = now;
        session.sent = now;
        let ghost sess = session;
        let ghost m1 = session_entries(self.dynamic.peers_by_session);
        self.dynamic.install_transport(p, session_id, session);
        let mut ps = self.dynamic.peers[p];
        ps.endpoint = Some(socket);
        ps.current_handshake = None;
        self.dynamic.peers.set(p, ps);
        self.dynamic.timers.push(
            TimerEntry {
                time: now.add_secs(REKEY_AFTER_TIME),
                kind: TimerEntryType::RekeyAttempt { session_id },
            },
        );
        self.dynamic.timers.push(
            TimerEntry {
                time: now.add_secs(REJECT_AFTER_TIME),
                kind: TimerEntryType::ExpireTransport { session_id },
            },
        );
        proof {
            let d = old(self).dynamic;
            assert(m == session_entries(d.peers_by_session));
            assert(session_id == from_le32(msg0.subrange(8, 12)));
            assert(sender == from_le32(msg0.subrange(4, 8)));
            assert(m.contains_key(session_id) && m[session_id].state is Handshake);
            assert(sess.peer == m[session_id].peer && sess.keepalive_pending == m[session_id].keepalive_pending);
            assert(m1.insert(session_id, sess) =~= m.insert(session_id, sess));
            assert(transport_installed(m, session_entries(self.dynamic.peers_by_session), d.peers@[p as int].current_transport, session_id, sess));
            assert(self.dynamic.timers@ =~= d.timers@ + transport_timers(now, session_id));
            assert(self.dynamic.peers@ =~= d.peers@.update(
                p as int,
                PeerState {
                    endpoint: Some(socket),
                    current_handshake: None,
                    current_transport: Some(session_id),
                    ..d.peers@[p as int]
                },
            ));
            assert(rate_counted(d.ip_rate_limit.counters(), self.dynamic.ip_rate_limit.counters(), overloaded));
            assert(msg@ == msg0);
            assert(m[session_id].peer.0 == p);
            assert(o.2 == Ok::<(), CryptoError>(()));
            assert(sess.state == SessionState::Transport(tr));
            assert(transport_installed(m, session_entries(self.dynamic.peers_by_session), d.peers@[p as int].current_transport, session_id, Session {
                                    peer: m[session_id].peer,
                                    started: d.now,
                                    sent: d.now,
                                    state: SessionState::Transport(tr),
                                    keepalive_pending: m[session_id].keepalive_pending,
                                }));
        }
        Ok(Message::HandshakeComplete(MessageEncrypter(session_id)))
    }
}


/// Copies `bytes` into `buf` at `at`.
fn write_at(buf: &mut [u8], at: usize, bytes: &[u8])
    requires
        at + bytes@.len() <= old(buf)@.len(),
    ensures
        final(buf)@ == old(buf)@.subrange(0, at as int) + bytes@ + old(buf)@.subrange(
            at + bytes@.len(),
            old(buf)@.len() as int,
        ),
{
    let blen = buf.len();
    let mut i: usize = 0;
    while i < bytes.len()
        invariant
            i <= bytes@.len(),
            blen == buf@.len(),
            at + bytes@.len() <= buf@.len(),
            buf@.len() == old(buf)@.len(),
            forall|k: int| 0 <= k < at ==> buf@[k] == old(buf)@[k],
            forall|k: int| 0 <= k < i ==> buf@[at + k] == bytes@[k],
            forall|k: int| at + i <= k < buf@.len() ==> buf@[k] == old(buf)@[k],
        decreases bytes.len() - i,
    {
        buf[at + i] = bytes[i];
        i = i + 1;
    }
    assert(buf@ =~= old(buf)@.subrange(0, at as int) + bytes@ + old(buf)@.subrange(
        at + bytes@.len(),
        old(buf)@.len() as int,
    ));
}

impl EncryptedMetadata {
    /// Writes the header in front of the encrypted payload and the tag
    /// after it; `buffer` holds exactly header, payload and tag.
    pub fn frame_in_place(self, buffer: &mut [u8])
        requires
            self.payload_len + 32 == old(buffer)@.len(),
        ensures
            final(buffer)@ == data_header_bytes(self.header) + old(buffer)@.subrange(16, 16 + self.payload_len)
                + self.tag.0@,
    {
        let blen = buffer.len();
        let h = self.header.to_bytes();
        write_at(buffer, 0, h.as_slice());
        write_at(buffer, 16 + self.payload_len, &self.tag.0);
        assert(buffer@ =~= data_header_bytes(self.header) + old(buffer)@.subrange(16, 16 + self.payload_len)
            + self.tag.0@);
    }
}

impl MessageEncrypter {
    /// Encrypts `payload` in place on the session this handshake created,
    /// if it may still send.
    pub fn encrypt(self, sessions: &mut Sessions, payload: &mut [u8]) -> (r: Option<EncryptedMetadata>)
        requires
            old(sessions).wf(),
            payload_ok(old(payload)@.len()),
        ensures
            final(sessions).wf(),
            final(sessions).config == old(sessions).config,
            final(sessions).dynamic.peers == old(sessions).dynamic.peers,
            final(sessions).dynamic.timers == old(sessions).dynamic.timers,
            final(sessions).dynamic.now == old(sessions).dynamic.now,
            rest_kept(old(sessions).dynamic, final(sessions).dynamic),
            final(payload)@.len() == old(payload)@.len(),
            ({
                let m = session_entries(old(sessions).dynamic.peers_by_session);
                let m2 = session_entries(final(sessions).dynamic.peers_by_session);
                let now = old(sessions).dynamic.now;
                if can_send(m, self.0, now) {
                    r is Some && sent_on(m, m2, self.0, now, old(payload)@, final(payload)@, r->Some_0)
                } else {
                    r is None && m2 == m && final(payload)@ == old(payload)@
                }
            }),
    {
        let now = sessions.dynamic.now;
        let ghost m = session_entries(sessions.dynamic.peers_by_session);
        let r = encrypt_on(&mut sessions.dynamic.peers_by_session, self.0, payload, now);
        proof {
            let m2 = session_entries(sessions.dynamic.peers_by_session);
            assert forall|k: u32| #[trigger] m2.contains_key(k) implies m2[k].peer.0 < sessions.dynamic.peers@.len()
                && m2[k].started.secs <= MAX_SECS && m2[k].sent.secs <= MAX_SECS && (m2[k].state is Transport
                ==> m2[k].state->Transport_0.decrypt.replay().wf()) by {
                assert(m.contains_key(k));
                if k != self.0 || r is None {
                    if r is Some {
                        assert(m2.remove(self.0)[k] == m.remove(self.0)[k]);
                    }
                }
            }
        }
        r
    }

    /// Encrypts the payload in `buffer[16..len - 16]` and frames it in
    /// place: header in front, tag behind. `false` (and nothing changed)
    /// when the session may not send.
    pub fn encrypt_and_frame(self, sessions: &mut Sessions, buffer: &mut [u8]) -> (r: bool)
        requires
            old(sessions).wf(),
            old(buffer)@.len() >= 32,
            payload_ok((old(buffer)@.len() - 32) as nat),
        ensures
            final(sessions).wf(),
            final(sessions).config == old(sessions).config,
            final(sessions).dynamic.peers == old(sessions).dynamic.peers,
            final(sessions).dynamic.timers == old(sessions).dynamic.timers,
            ({
                let m = session_entries(old(sessions).dynamic.peers_by_session);
                let m2 = session_entries(final(sessions).dynamic.peers_by_session);
                let now = old(sessions).dynamic.now;
                let n = old(buffer)@.len() - 32;
                let payload = old(buffer)@.subrange(16, 16 + n);
                if can_send(m, self.0, now) {
                    &&& r
                    &&& exists|meta: EncryptedMetadata|
                        #[trigger] sent_on(m, m2, self.0, now, payload, final(buffer)@.subrange(16, 16 + n), meta)
                            && final(buffer)@ == data_header_bytes(meta.header) + final(buffer)@.subrange(
                            16,
                            16 + n,
                        ) + meta.tag.0@
                } else {
                    !r && m2 == m && final(buffer)@ == old(buffer)@
                }
            }),
    {
        let len = buffer.len();
        let ghost b0 = buffer@;
        let ghost mut ct: Seq<u8> = Seq::empty();
        let meta = {
            let (head, rest) = buffer.split_at_mut(16);
            let (payload, tail) = rest.split_at_mut(len - 32);
            let ghost p0 = payload@;
            assert(p0 =~= b0.subrange(16, len - 16));
            let res = self.encrypt(sessions, payload);
            proof {
                ct = payload@;
            }
            match res {
                Some(meta) => meta,
                None => {
                    proof {
                        assert(buffer@ =~= b0);
                    }
                    return false;
                },
            }
        };
        let ghost b1 = buffer@;
        proof {
            let n = (len - 32) as int;
            assert(b1.subrange(16, 16 + n) =~= ct);
        }
        meta.frame_in_place(buffer);
        proof {
            let n = (len - 32) as int;
            assert(buffer@.subrange(16, 16 + n) =~= ct);
        }
        true
    }
}

/// A result of `recv_message` seen as one of `decrypt_packet`.
pub open spec fn as_read(r: Result<Message, Error>) -> Result<(PeerId, usize), Error> {
    match r {
        Ok(Message::Read(p, n)) => Ok((p, n)),
        Ok(_) => Err(Error::InvalidMessage),
        Err(e) => Err(e),
    }
}

/// A result of `recv_message` seen as one of `handle_handshake_init`.
pub open spec fn as_written(r: Result<Message, Error>) -> Result<usize, Error> {
    match r {
        Ok(Message::Write(n)) => Ok(n),
        Ok(_) => Err(Error::InvalidMessage),
        Err(e) => Err(e),
    }
}

/// A result of `recv_message` seen as one of `handle_cookie`.
pub open spec fn as_taken(r: Result<Message, Error>) -> Result<(), Error> {
    match r {
        Ok(Message::Noop) => Ok(()),
        Ok(_) => Err(Error::InvalidMessage),
        Err(e) => Err(e),
    }
}

/// The message type in the first four bytes, little-endian.
pub open spec fn msg_type_of(msg: Seq<u8>) -> u32 {
    from_le32(msg.subrange(0, 4))
}

impl Sessions {
    /// Takes any message from the network by its type: an initiation is
    /// answered in place, a response completes a handshake, a cookie reply
    /// is stored, transport data is decrypted in place. Shorter than four
    /// bytes or of an unknown type is `InvalidMessage`. (Transport data of
    /// 16 to 31 bytes is not taken: it has no room for a tag.)
    pub fn recv_message(&mut self, socket: SocketAddress, msg: &mut [u8]) -> (r: Result<Message, Error>)
        requires
            old(self).wf(),
            old(msg)@.len() >= 4 && msg_type_of(old(msg)@) == MSG_DATA ==> old(msg)@.len() < DATA_HEADER_LEN
                || old(msg)@.len() >= 32,
        ensures
            final(self).wf(),
            final(self).config == old(self).config,
            old(msg)@.len() < 4 || !(1 <= msg_type_of(old(msg)@) <= 4) ==> r == Err::<Message, Error>(
                Error::InvalidMessage,
            ) && final(self).dynamic.engine() == old(self).dynamic.engine() && final(msg)@ == old(msg)@,
            old(msg)@.len() >= 4 && msg_type_of(old(msg)@) == MSG_FIRST ==> (r is Ok ==> r->Ok_0 is Write)
                && init_answered(*old(self), *final(self), socket, old(msg)@, final(msg)@, as_written(r)),
            old(msg)@.len() >= 4 && msg_type_of(old(msg)@) == MSG_SECOND ==> resp_answered(
                *old(self),
                *final(self),
                socket,
                old(msg)@,
                final(msg)@,
                r,
            ),
            old(msg)@.len() >= 4 && msg_type_of(old(msg)@) == MSG_COOKIE ==> (r is Ok ==> r->Ok_0 is Noop)
                && cookie_taken(*old(self), *final(self), old(msg)@, as_taken(r)) && final(msg)@ == old(msg)@,
            old(msg)@.len() >= 4 && msg_type_of(old(msg)@) == MSG_DATA ==> (r is Ok ==> r->Ok_0 is Read)
                && decrypt_outcome(old(self).dynamic, final(self).dynamic, socket, old(msg)@, final(msg)@, as_read(r)),
    {
        if msg.len() < 4 {
            return Err(Error::InvalidMessage);
        }
        let t = super::bytes::read_u32_le(msg, 0);
        if t == MSG_FIRST {
            match self.handle_handshake_init(socket, msg) {
                Ok(n) => Ok(Message::Write(n)),
                Err(e) => Err(e),
            }
        } else if t == MSG_SECOND {
            self.handle_handshake_resp(socket, msg)
        } else if t == MSG_COOKIE {
            match self.handle_cookie(msg) {
                Ok(()) => Ok(Message::Noop),
                Err(e) => Err(e),
            }
        } else if t == MSG_DATA {
            match self.decrypt_packet(socket, msg) {
                Ok((p, n)) => Ok(Message::Read(p, n)),
                Err(e) => Err(e),
            }
        } else {
            Err(Error::InvalidMessage)
        }
    }
}

} // verus!
