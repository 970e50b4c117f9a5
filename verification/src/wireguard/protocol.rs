//! Peer configuration and the four handshake steps of Noise IKpsk2 as
//! WireGuard uses them.

use vstd::prelude::*;

use super::bytes::le32;
use super::crypto::{blake2s_256, blake2s_mac_128, x25519_public, CryptoError, EphemeralPrivateKey, Key, PublicKey, StaticPrivateKey};
use super::handshake::{
    dh, field_open, field_seal, field_tag, Encrypted, EncryptedEmpty, EncryptedPublicKey, EncryptedTimestamp,
    HandshakeState,
};
use super::messages::{
    cookie_input, cookie_key, init_bytes, mac1_key, resp_bytes, Cookie, CookieState, HandshakeInit, HandshakeResp,
    SocketAddress, LABEL_COOKIE, LABEL_MAC1, MSG_FIRST, MSG_SECOND,
};
use super::noise::{kdf, Core, CryptoPrimitives};
use super::transport::Tag;

verus! {

/// A TAI64N timestamp: TAI64 seconds and nanoseconds.
#[derive(Clone, Copy, PartialEq, Eq)]
pub struct Tai64N {
    pub secs: u64,
    pub nanos: u32,
}

/// External TAI64N form: seconds then nanoseconds, both big-endian.
pub open spec fn tai64n_bytes(t: Tai64N) -> Seq<u8> {
    super::bytes::be64(t.secs) + super::bytes::be32(t.nanos)
}

impl Tai64N {
    pub fn to_bytes(&self) -> (r: [u8; 12])
        ensures
            r@ == tai64n_bytes(*self),
    {
        let s = super::bytes::u64_to_be(self.secs);
        let n = super::bytes::u32_to_be(self.nanos);
        let mut v: Vec<u8> = Vec::new();
        super::bytes::push_all(&mut v, s.as_slice());
        super::bytes::push_all(&mut v, &n);
        super::bytes::copy_array(v.as_slice(), 0)
    }

    /// `self` is earlier than `other` (seconds first, then nanoseconds).
    pub open spec fn spec_lt(self, other: Tai64N) -> bool {
        self.secs < other.secs || (self.secs == other.secs && self.nanos < other.nanos)
    }

    /// `self` plus a whole number of seconds; a nanosecond field of a full
    /// second or more carries into the seconds.
    pub open spec fn spec_add_secs(self, s: u64) -> Tai64N {
        if self.nanos >= NANOS_PER_SECOND {
            Tai64N { secs: (self.secs + s + 1) as u64, nanos: (self.nanos - NANOS_PER_SECOND) as u32 }
        } else {
            Tai64N { secs: (self.secs + s) as u64, nanos: self.nanos }
        }
    }

    pub fn lt(&self, other: &Tai64N) -> (r: bool)
        ensures
            r == self.spec_lt(*other),
    {
        self.secs < other.secs || (self.secs == other.secs && self.nanos < other.nanos)
    }

    pub fn add_secs(&self, s: u64) -> (r: Tai64N)
        requires
            self.secs + s + 1 <= u64::MAX,
        ensures
            r == self.spec_add_secs(s),
    {
        if self.nanos >= NANOS_PER_SECOND {
            Tai64N { secs: self.secs + s + 1, nanos: self.nanos - NANOS_PER_SECOND }
        } else {
            Tai64N { secs: self.secs + s, nanos: self.nanos }
        }
    }
}

pub const NANOS_PER_SECOND: u32 = 1_000_000_000;

/// TAI64 seconds of the moment the uptime clock starts from.
pub const BASE_TAI64_SECS: u64 = 0x6000_0000;

/// The timestamp `uptime_us` microseconds after the base moment.
pub fn monotonic_tai64n(uptime_us: u64) -> (r: Tai64N)
    ensures
        r.secs == BASE_TAI64_SECS + uptime_us / 1_000_000,
        r.nanos == (uptime_us % 1_000_000) * 1000,
{
    Tai64N { secs: BASE_TAI64_SECS + uptime_us / 1_000_000, nanos: ((uptime_us % 1_000_000) * 1000) as u32 }
}

// ───────────────────────────────────────────────────────────────────────
// CONFIGURATION

/// What this host knows about a peer.
pub struct StaticPeerConfig {
    pub key: PublicKey,
    pub preshared_key: Key,
    pub mac1_key: Key,
    pub cookie_key: Key,
    pub endpoint: Option<SocketAddress>,
}

impl StaticPeerConfig {
    /// Configuration of the peer `key`; no pre-shared key means 32 zero
    /// bytes.
    pub fn new(key: PublicKey, preshared_key: Option<Key>, endpoint: Option<SocketAddress>) -> (r: Self)
        ensures
            r.key == key,
            r.preshared_key@ == (match preshared_key {
                Some(k) => k@,
                None => Seq::new(32, |i: int| 0u8),
            }),
            r.mac1_key@ == blake2s_256(LABEL_MAC1@ + key.0@),
            r.cookie_key@ == blake2s_256(LABEL_COOKIE@ + key.0@),
            r.endpoint == endpoint,
    {
        let psk = match preshared_key {
            Some(k) => k,
            None => {
                let z = [0u8; 32];
                assert(z@ =~= Seq::new(32, |i: int| 0u8));
                z
            },
        };
        StaticPeerConfig {
            mac1_key: mac1_key(&key.0),
            cookie_key: cookie_key(&key.0),
            key,
            preshared_key: psk,
            endpoint,
        }
    }
}

/// This host's static identity.
pub struct StaticInitiatorConfig {
    pub private_key: StaticPrivateKey,
    pub public_key: PublicKey,
    pub mac1_key: Key,
    pub cookie_key: Key,
}

impl StaticInitiatorConfig {
    pub fn new(key: StaticPrivateKey) -> (r: Self)
        ensures
            r.private_key == key,
            r.public_key.0@ == x25519_public(key.0@),
            r.mac1_key@ == blake2s_256(LABEL_MAC1@ + r.public_key.0@),
            r.cookie_key@ == blake2s_256(LABEL_COOKIE@ + r.public_key.0@),
    {
        let public_key = Core::x25519_pubkey(&key);
        StaticInitiatorConfig {
            mac1_key: mac1_key(&public_key.0),
            cookie_key: cookie_key(&public_key.0),
            public_key,
            private_key: key,
        }
    }
}

/// Wraps the raw bytes of a private key.
pub fn static_private_key(b: &[u8; 32]) -> (r: StaticPrivateKey)
    ensures
        r.0 == *b,
{
    StaticPrivateKey(*b)
}

/// Wraps the raw bytes of a public key.
pub fn public_key(b: &[u8; 32]) -> (r: PublicKey)
    ensures
        r.0 == *b,
{
    PublicKey(*b)
}

// ───────────────────────────────────────────────────────────────────────
// MAC CHECKS

/// Handshake messages protected by the two MACs.
pub trait HasMac: Sized {
    /// `mac1` is the MAC of the message under `key`.
    spec fn mac1_valid(&self, key: Seq<u8>) -> bool;

    /// `mac2` is the MAC of the message under the cookie `cookie`.
    spec fn mac2_valid(&self, cookie: Seq<u8>) -> bool;

    /// Checks `mac1`; when the host is under load also checks `mac2`
    /// against the cookie of `addr` and, if it does not match, returns
    /// that cookie so a cookie reply can be sent instead.
    fn verify(&self, config: &StaticInitiatorConfig, overload: bool, cookie: &CookieState, addr: &SocketAddress) -> (r:
        Result<Option<Cookie>, CryptoError>)
        ensures
            !self.mac1_valid(config.mac1_key@) ==> r == Err::<Option<Cookie>, CryptoError>(CryptoError::Rejected),
            self.mac1_valid(config.mac1_key@) ==> ({
                let c = blake2s_mac_128(cookie.key(), cookie_input(*addr));
                &&& (!overload || self.mac2_valid(c)) ==> r == Ok::<Option<Cookie>, CryptoError>(None)
                &&& (overload && !self.mac2_valid(c)) ==> r is Ok && r->Ok_0 is Some && r->Ok_0->Some_0.0@ == c
            }),
    ;
}

impl HasMac for HandshakeInit {
    open spec fn mac1_valid(&self, key: Seq<u8>) -> bool {
        self.mac1@ == blake2s_mac_128(key, init_bytes(*self).subrange(0, 116))
    }

    open spec fn mac2_valid(&self, cookie: Seq<u8>) -> bool {
        self.mac2@ == blake2s_mac_128(cookie, init_bytes(*self).subrange(0, 132))
    }

    fn verify(&self, config: &StaticInitiatorConfig, overload: bool, cookie: &CookieState, addr: &SocketAddress) -> (r:
        Result<Option<Cookie>, CryptoError>) {
        self.verify_mac1(&config.mac1_key)?;
        if overload {
            let c = cookie.new_cookie(addr);
            if self.verify_mac2(&c).is_err() {
                return Ok(Some(c));
            }
        }
        Ok(None)
    }
}

impl HasMac for HandshakeResp {
    open spec fn mac1_valid(&self, key: Seq<u8>) -> bool {
        self.mac1@ == blake2s_mac_128(key, resp_bytes(*self).subrange(0, 60))
    }

    open spec fn mac2_valid(&self, cookie: Seq<u8>) -> bool {
        self.mac2@ == blake2s_mac_128(cookie, resp_bytes(*self).subrange(0, 76))
    }

    fn verify(&self, config: &StaticInitiatorConfig, overload: bool, cookie: &CookieState, addr: &SocketAddress) -> (r:
        Result<Option<Cookie>, CryptoError>) {
        self.verify_mac1(&config.mac1_key)?;
        if overload {
            let c = cookie.new_cookie(addr);
            if self.verify_mac2(&c).is_err() {
                return Ok(Some(c));
            }
        }
        Ok(None)
    }
}

/// A handshake initiation whose static key and timestamp have been
/// opened in place.
#[derive(Clone, Copy)]
pub struct DecryptedHandshakeInit(pub HandshakeInit);

impl DecryptedHandshakeInit {
    pub fn static_key(&self) -> (r: PublicKey)
        ensures
            r.0 == self.0.static_key.msg,
    {
        PublicKey(self.0.static_key.msg)
    }

    pub fn timestamp(&self) -> (r: [u8; 12])
        ensures
            r == self.0.timestamp.msg,
    {
        self.0.timestamp.msg
    }
}

// ───────────────────────────────────────────────────────────────────────
// HANDSHAKE STEPS

/// Transcript hash after mixing `b`.
pub open spec fn mixed(h: Seq<u8>, b: Seq<u8>) -> Seq<u8> {
    blake2s_256(h + b)
}

/// The initiator's first message. Returns `(hash, chain, fields)` where
/// `fields` is `None` when a Diffie-Hellman step meets a low-order point
/// (the state then stays as far as it got) and otherwise holds the sealed
/// static key, its tag, the sealed timestamp and its tag.
pub open spec fn spec_init_send(
    h0: Seq<u8>,
    c0: Seq<u8>,
    peer: Seq<u8>,
    esk: Seq<u8>,
    s_priv: Seq<u8>,
    s_pub: Seq<u8>,
    ts: Seq<u8>,
) -> (Seq<u8>, Seq<u8>, Option<(Seq<u8>, Seq<u8>, Seq<u8>, Seq<u8>)>) {
    let epk = x25519_public(esk);
    let h2 = mixed(mixed(h0, peer), epk);
    let c1 = kdf(c0, epk, 1);
    match dh(esk, peer) {
        None => (h2, c1, None),
        Some(s1) => {
            let k1 = kdf(c1, s1, 2);
            let c2 = kdf(c1, s1, 1);
            let sct = field_seal(k1, h2, s_pub);
            let stag = field_tag(k1, h2, s_pub);
            let h3 = mixed(h2, sct + stag);
            match dh(s_priv, peer) {
                None => (h3, c2, None),
                Some(s2) => {
                    let k2 = kdf(c2, s2, 2);
                    let c3 = kdf(c2, s2, 1);
                    let tct = field_seal(k2, h3, ts);
                    let ttag = field_tag(k2, h3, ts);
                    (mixed(h3, tct + ttag), c3, Some((sct, stag, tct, ttag)))
                },
            }
        },
    }
}

/// Builds and seals the handshake initiation to `peer`.
pub fn encrypt_handshake_init(
    hs: &mut HandshakeState,
    initiator: &StaticInitiatorConfig,
    peer: &StaticPeerConfig,
    esk_i: &EphemeralPrivateKey,
    now: Tai64N,
    sender: u32,
    cookie: Option<&Cookie>,
) -> (r: Result<HandshakeInit, CryptoError>)
    ensures
        ({
            let s = spec_init_send(
                old(hs).hash(),
                old(hs).chain(),
                peer.key.0@,
                esk_i.0.0@,
                initiator.private_key.0@,
                initiator.public_key.0@,
                tai64n_bytes(now),
            );
            &&& final(hs).hash() == s.0
            &&& final(hs).chain() == s.1
            &&& s.2 is None ==> r == Err::<HandshakeInit, CryptoError>(CryptoError::Rejected)
            &&& s.2 is Some ==> {
                let (sct, stag, tct, ttag) = s.2->Some_0;
                let m = r->Ok_0;
                let prefix = le32(MSG_FIRST) + le32(sender) + x25519_public(esk_i.0.0@) + sct + stag + tct + ttag;
                &&& r is Ok
                &&& m.msg_type == MSG_FIRST
                &&& m.sender == sender
                &&& m.ephemeral_key@ == x25519_public(esk_i.0.0@)
                &&& m.static_key.msg@ == sct && m.static_key.tag.0@ == stag
                &&& m.timestamp.msg@ == tct && m.timestamp.tag.0@ == ttag
                &&& m.mac1@ == blake2s_mac_128(peer.mac1_key@, prefix)
                &&& m.mac2@ == (match cookie {
                    Some(c) => blake2s_mac_128(c.0@, prefix + m.mac1@),
                    None => Seq::new(16, |i: int| 0u8),
                })
            }
        }),
{
    let epk_i = Core::x25519_pubkey(&esk_i.0);
    hs.mix_hash(&peer.key.0);
    hs.mix_hash(&epk_i.0);
    hs.mix_chain(&epk_i.0);
    let k = hs.mix_key_edh(esk_i, &peer.key)?;
    let static_key = EncryptedPublicKey::encrypt_and_hash(initiator.public_key.0, hs, &k);
    let k = hs.mix_key_dh(&initiator.private_key, &peer.key)?;
    let timestamp = EncryptedTimestamp::encrypt_and_hash(now.to_bytes(), hs, &k);
    let mut msg = HandshakeInit {
        msg_type: MSG_FIRST,
        sender,
        ephemeral_key: epk_i.0,
        static_key,
        timestamp,
        mac1: [0u8; 16],
        mac2: [0u8; 16],
    };
    let ghost m0 = msg;
    msg.mac1 = msg.compute_mac1(&peer.mac1_key);
    proof {
        assert(init_bytes(m0).subrange(0, 116) =~= init_bytes(msg).subrange(0, 116));
    }
    let ghost m1 = msg;
    match cookie {
        Some(c) => {
            msg.mac2 = msg.compute_mac2(c);
            proof {
                assert(init_bytes(m1).subrange(0, 132) =~= init_bytes(msg).subrange(0, 132));
            }
        },
        None => {
            assert(msg.mac2@ =~= Seq::new(16, |i: int| 0u8));
        },
    }
    proof {
        let prefix = le32(MSG_FIRST) + le32(sender) + epk_i.0@ + static_key.msg@ + static_key.tag.0@
            + timestamp.msg@ + timestamp.tag.0@;
        assert(init_bytes(m0).subrange(0, 116) =~= prefix);
        assert(init_bytes(m1).subrange(0, 132) =~= prefix + msg.mac1@);
    }
    Ok(msg)
}

/// The responder's processing of an initiation. Returns `(hash, chain,
/// outcome)`; the outcome is `Rejected` when a Diffie-Hellman step meets
/// a low-order point, `DecryptionError` when a field does not open, and
/// otherwise the opened static key and timestamp.
pub open spec fn spec_init_recv(
    h0: Seq<u8>,
    c0: Seq<u8>,
    s_priv: Seq<u8>,
    s_pub: Seq<u8>,
    epk: Seq<u8>,
    sct: Seq<u8>,
    stag: Seq<u8>,
    tct: Seq<u8>,
    ttag: Seq<u8>,
) -> (Seq<u8>, Seq<u8>, Result<(Seq<u8>, Seq<u8>), CryptoError>) {
    let h2 = mixed(mixed(h0, s_pub), epk);
    let c1 = kdf(c0, epk, 1);
    match dh(s_priv, epk) {
        None => (h2, c1, Err(CryptoError::Rejected)),
        Some(s1) => {
            let k1 = kdf(c1, s1, 2);
            let c2 = kdf(c1, s1, 1);
            let h3 = mixed(h2, sct + stag);
            match field_open(k1, h2, sct, stag) {
                None => (h3, c2, Err(CryptoError::DecryptionError)),
                Some(spk) => match dh(s_priv, spk) {
                    None => (h3, c2, Err(CryptoError::Rejected)),
                    Some(s2) => {
                        let k2 = kdf(c2, s2, 2);
                        let c3 = kdf(c2, s2, 1);
                        let h4 = mixed(h3, tct + ttag);
                        match field_open(k2, h3, tct, ttag) {
                            None => (h4, c3, Err(CryptoError::DecryptionError)),
                            Some(ts) => (h4, c3, Ok((spk, ts))),
                        }
                    },
                },
            }
        },
    }
}

/// Opens the static key and timestamp of an initiation addressed to
/// `receiver`, advancing the handshake state.
pub fn decrypt_handshake_init(init: &mut HandshakeInit, hs: &mut HandshakeState, receiver: &StaticInitiatorConfig) -> (r:
    Result<DecryptedHandshakeInit, CryptoError>)
    ensures
        ({
            let s = spec_init_recv(
                old(hs).hash(),
                old(hs).chain(),
                receiver.private_key.0@,
                receiver.public_key.0@,
                old(init).ephemeral_key@,
                old(init).static_key.msg@,
                old(init).static_key.tag.0@,
                old(init).timestamp.msg@,
                old(init).timestamp.tag.0@,
            );
            &&& final(hs).hash() == s.0
            &&& final(hs).chain() == s.1
            &&& s.2 is Err ==> r == Err::<DecryptedHandshakeInit, CryptoError>(s.2->Err_0)
            &&& s.2 is Ok ==> r is Ok && r->Ok_0.0 == *final(init) && final(init).static_key.msg@ == s.2->Ok_0.0
                && final(init).timestamp.msg@ == s.2->Ok_0.1 && final(init).ephemeral_key == old(init).ephemeral_key
                && final(init).sender == old(init).sender
        }),
{
    hs.mix_hash(&receiver.public_key.0);
    hs.mix_hash(&init.ephemeral_key);
    hs.mix_chain(&init.ephemeral_key);
    let epk_i = PublicKey(init.ephemeral_key);
    let k = hs.mix_key_dh(&receiver.private_key, &epk_i)?;
    let spk_i = init.static_key.decrypt_and_hash(hs, &k)?;
    let spk_i = PublicKey(spk_i);
    let k = hs.mix_key_dh(&receiver.private_key, &spk_i)?;
    let _ts = init.timestamp.decrypt_and_hash(hs, &k)?;
    Ok(DecryptedHandshakeInit(*init))
}

/// The responder's reply. Returns `(hash, chain, fields)` with the tag of
/// the sealed empty payload, `None` on a low-order point.
pub open spec fn spec_resp_send(
    h0: Seq<u8>,
    c0: Seq<u8>,
    esk: Seq<u8>,
    epk_i: Seq<u8>,
    spk_i: Seq<u8>,
    psk: Seq<u8>,
) -> (Seq<u8>, Seq<u8>, Option<Seq<u8>>) {
    let epk = x25519_public(esk);
    let c1 = kdf(c0, epk, 1);
    let h1 = mixed(h0, epk);
    match dh(esk, epk_i) {
        None => (h1, c1, None),
        Some(s1) => {
            let c2 = kdf(c1, s1, 1);
            match dh(esk, spk_i) {
                None => (h1, c2, None),
                Some(s2) => {
                    let c3 = kdf(c2, s2, 1);
                    let c4 = kdf(c3, psk, 1);
                    let h2 = mixed(h1, kdf(c3, psk, 2));
                    let k = kdf(c3, psk, 3);
                    let ect = field_seal(k, h2, seq![]);
                    let etag = field_tag(k, h2, seq![]);
                    (mixed(h2, ect + etag), c4, Some(etag))
                },
            }
        },
    }
}

/// Builds the handshake response to an opened initiation.
pub fn encrypt_handshake_resp(
    hs: &mut HandshakeState,
    data: &DecryptedHandshakeInit,
    esk_r: &EphemeralPrivateKey,
    peer: &StaticPeerConfig,
    sender: u32,
    cookie: Option<&Cookie>,
) -> (r: Result<HandshakeResp, CryptoError>)
    ensures
        ({
            let s = spec_resp_send(
                old(hs).hash(),
                old(hs).chain(),
                esk_r.0.0@,
                data.0.ephemeral_key@,
                data.0.static_key.msg@,
                peer.preshared_key@,
            );
            &&& final(hs).hash() == s.0
            &&& final(hs).chain() == s.1
            &&& s.2 is None ==> r == Err::<HandshakeResp, CryptoError>(CryptoError::Rejected)
            &&& s.2 is Some ==> {
                let m = r->Ok_0;
                let prefix = le32(MSG_SECOND) + le32(sender) + le32(data.0.sender) + x25519_public(esk_r.0.0@)
                    + s.2->Some_0;
                &&& r is Ok
                &&& m.msg_type == MSG_SECOND
                &&& m.sender == sender
                &&& m.receiver == data.0.sender
                &&& m.ephemeral_key@ == x25519_public(esk_r.0.0@)
                &&& m.empty.tag.0@ == s.2->Some_0
                &&& m.mac1@ == blake2s_mac_128(peer.mac1_key@, prefix)
                &&& m.mac2@ == (match cookie {
                    Some(c) => blake2s_mac_128(c.0@, prefix + m.mac1@),
                    None => Seq::new(16, |i: int| 0u8),
                })
            }
        }),
{
    let epk_r = Core::x25519_pubkey(&esk_r.0);
    hs.mix_chain(&epk_r.0);
    hs.mix_hash(&epk_r.0);
    let epk_i = PublicKey(data.0.ephemeral_key);
    hs.mix_edh(esk_r, &epk_i)?;
    let spk_i = PublicKey(data.0.static_key.msg);
    hs.mix_edh(esk_r, &spk_i)?;
    let k = hs.mix_key_and_hash(&peer.preshared_key);
    let nothing: [u8; 0] = [];
    assert(nothing@ =~= seq![]);
    let empty = EncryptedEmpty::encrypt_and_hash(nothing, hs, &k);
    let mut msg = HandshakeResp {
        msg_type: MSG_SECOND,
        sender,
        receiver: data.0.sender,
        ephemeral_key: epk_r.0,
        empty,
        mac1: [0u8; 16],
        mac2: [0u8; 16],
    };
    let ghost m0 = msg;
    msg.mac1 = msg.compute_mac1(&peer.mac1_key);
    proof {
        assert(resp_bytes(m0).subrange(0, 60) =~= resp_bytes(msg).subrange(0, 60));
    }
    let ghost m1 = msg;
    match cookie {
        Some(c) => {
            msg.mac2 = msg.compute_mac2(c);
            proof {
                assert(resp_bytes(m1).subrange(0, 76) =~= resp_bytes(msg).subrange(0, 76));
            }
        },
        None => {
            assert(msg.mac2@ =~= Seq::new(16, |i: int| 0u8));
        },
    }
    proof {
        let prefix = le32(MSG_SECOND) + le32(sender) + le32(data.0.sender) + epk_r.0@ + empty.tag.0@;
        assert(resp_bytes(m0).subrange(0, 60) =~= prefix);
        assert(resp_bytes(m1).subrange(0, 76) =~= prefix + msg.mac1@);
    }
    Ok(msg)
}

/// The initiator's processing of a response. Returns `(hash, chain,
/// outcome)`: `Rejected` on a low-order point, `DecryptionError` when the
/// empty payload does not open.
pub open spec fn spec_resp_recv(
    h0: Seq<u8>,
    c0: Seq<u8>,
    esk: Seq<u8>,
    s_priv: Seq<u8>,
    epk_r: Seq<u8>,
    psk: Seq<u8>,
    ect: Seq<u8>,
    etag: Seq<u8>,
) -> (Seq<u8>, Seq<u8>, Result<(), CryptoError>) {
    let c1 = kdf(c0, epk_r, 1);
    let h1 = mixed(h0, epk_r);
    match dh(esk, epk_r) {
        None => (h1, c1, Err(CryptoError::Rejected)),
        Some(s1) => {
            let c2 = kdf(c1, s1, 1);
            match dh(s_priv, epk_r) {
                None => (h1, c2, Err(CryptoError::Rejected)),
                Some(s2) => {
                    let c3 = kdf(c2, s2, 1);
                    let c4 = kdf(c3, psk, 1);
                    let h2 = mixed(h1, kdf(c3, psk, 2));
                    let k = kdf(c3, psk, 3);
                    (
                        mixed(h2, ect + etag),
                        c4,
                        if field_open(k, h2, ect, etag) is Some { Ok(()) } else { Err(CryptoError::DecryptionError) },
                    )
                },
            }
        },
    }
}

/// Checks a handshake response against the initiator's ephemeral key.
pub fn decrypt_handshake_resp(
    resp: &mut HandshakeResp,
    hs: &mut HandshakeState,
    initiator: &StaticInitiatorConfig,
    peer: &StaticPeerConfig,
    esk_i: &EphemeralPrivateKey,
) -> (r: Result<(), CryptoError>)
    ensures
        ({
            let s = spec_resp_recv(
                old(hs).hash(),
                old(hs).chain(),
                esk_i.0.0@,
                initiator.private_key.0@,
                old(resp).ephemeral_key@,
                peer.preshared_key@,
                old(resp).empty.msg@,
                old(resp).empty.tag.0@,
            );
            &&& final(hs).hash() == s.0
            &&& final(hs).chain() == s.1
            &&& r == s.2
        }),
{
    let epk_r = PublicKey(resp.ephemeral_key);
    hs.mix_chain(&epk_r.0);
    hs.mix_hash(&epk_r.0);
    hs.mix_edh(esk_i, &epk_r)?;
    hs.mix_dh(&initiator.private_key, &epk_r)?;
    let k = hs.mix_key_and_hash(&peer.preshared_key);
    resp.empty.decrypt_and_hash(hs, &k)?;
    Ok(())
}

} // verus!
