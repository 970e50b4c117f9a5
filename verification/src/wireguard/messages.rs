//! WireGuard wire messages, their byte layout, MACs and cookies.

use vstd::prelude::*;

use super::bytes::{copy_array, from_le32, le16, le32, le64, push_all, read_u32_le, u16_to_le, u32_to_le, u64_to_le};
use super::crypto::{
    aead_len_ok, blake2s_256, blake2s_mac_128, x25519_public, xchacha_open, xchacha_seal, xchacha_tag, CryptoError,
    Key, Mac, PublicKey, StaticPrivateKey,
};
use super::handshake::{EncryptedEmpty, EncryptedPublicKey, EncryptedTimestamp};
use super::noise::{Core, CryptoPrimitives};
use super::transport::{constant_time_eq, Tag};

verus! {

/// Message type of a handshake initiation.
pub const MSG_FIRST: u32 = 1;
/// Message type of a handshake response.
pub const MSG_SECOND: u32 = 2;
/// Message type of a cookie reply.
pub const MSG_COOKIE: u32 = 3;
/// Message type of transport data.
pub const MSG_DATA: u32 = 4;

/// Size of a handshake initiation on the wire.
pub const HANDSHAKE_INIT_LEN: usize = 148;
/// Size of a handshake response on the wire.
pub const HANDSHAKE_RESP_LEN: usize = 92;
/// Size of a cookie reply on the wire.
pub const COOKIE_MESSAGE_LEN: usize = 64;
/// Size of a transport data header.
pub const DATA_HEADER_LEN: usize = 16;

/// An IPv4 or IPv6 address.
#[derive(Clone, Copy, PartialEq, Eq)]
pub enum IpAddress {
    V4([u8; 4]),
    V6([u8; 16]),
}

/// An IP address and UDP port.
#[derive(Clone, Copy, PartialEq, Eq)]
pub struct SocketAddress {
    pub ip: IpAddress,
    pub port: u16,
}

// ───────────────────────────────────────────────────────────────────────
// MAC KEYS AND COOKIES

/// `"mac1----"`.
pub const LABEL_MAC1: [u8; 8] = [0x6d, 0x61, 0x63, 0x31, 0x2d, 0x2d, 0x2d, 0x2d];
/// `"cookie--"`.
pub const LABEL_COOKIE: [u8; 8] = [0x63, 0x6f, 0x6f, 0x6b, 0x69, 0x65, 0x2d, 0x2d];

/// Key of the first MAC of messages sent to the holder of `spk`.
pub fn mac1_key(spk: &[u8]) -> (r: Key)
    ensures
        r@ == blake2s_256(LABEL_MAC1@ + spk@),
{
    Core::blake2s_hash(&LABEL_MAC1, spk)
}

/// Key under which the holder of `spk` seals its cookies.
pub fn cookie_key(spk: &[u8]) -> (r: Key)
    ensures
        r@ == blake2s_256(LABEL_COOKIE@ + spk@),
{
    Core::blake2s_hash(&LABEL_COOKIE, spk)
}

/// A cookie: a MAC of the sender's address.
#[derive(Clone, Copy, PartialEq, Eq)]
pub struct Cookie(pub Mac);

/// A cookie sealed with XChaCha20-Poly1305.
#[derive(Clone, Copy)]
pub struct EncryptedCookie {
    pub msg: Cookie,
    pub tag: Tag,
}

/// The 18 bytes a cookie authenticates: the address (IPv4 zero-extended
/// to 16 bytes) and the port little-endian.
pub open spec fn cookie_input(addr: SocketAddress) -> Seq<u8> {
    let ip = match addr.ip {
        IpAddress::V4(o) => o@ + Seq::new(12, |i: int| 0u8),
        IpAddress::V6(o) => o@,
    };
    ip + le16(addr.port)
}

/// The secret from which this host's cookies are made; rotated with
/// fresh random bytes.
pub struct CookieState {
    key: Key,
}

impl CookieState {
    pub closed spec fn key(&self) -> Seq<u8> {
        self.key@
    }

    /// A cookie secret from 32 random bytes.
    pub fn new(random: Key) -> (r: Self)
        ensures
            r.key() == random@,
    {
        CookieState { key: random }
    }

    /// Replaces the secret with 32 fresh random bytes.
    pub fn generate(&mut self, random: Key)
        ensures
            final(self).key() == random@,
    {
        self.key = random;
    }

    /// The cookie of `addr` under the current secret.
    pub fn new_cookie(&self, addr: &SocketAddress) -> (r: Cookie)
        ensures
            r.0@ == blake2s_mac_128(self.key(), cookie_input(*addr)),
    {
        let mut a = [0u8; 18];
        match addr.ip {
            IpAddress::V4(o) => {
                let mut i: usize = 0;
                while i < 4
                    invariant
                        i <= 4,
                        a@.len() == 18,
                        forall|k: int| 0 <= k < i ==> a@[k] == o@[k],
                        forall|k: int| i <= k < 18 ==> a@[k] == 0u8,
                    decreases 4 - i,
                {
                    a[i] = o[i];
                    i = i + 1;
                }
            },
            IpAddress::V6(o) => {
                let mut i: usize = 0;
                while i < 16
                    invariant
                        i <= 16,
                        a@.len() == 18,
                        forall|k: int| 0 <= k < i ==> a@[k] == o@[k],
                        forall|k: int| i <= k < 18 ==> a@[k] == 0u8,
                    decreases 16 - i,
                {
                    a[i] = o[i];
                    i = i + 1;
                }
            },
        }
        let p = u16_to_le(addr.port);
        a[16] = p[0];
        a[17] = p[1];
        assert(a@ =~= cookie_input(*addr));
        Cookie(Core::blake2s_mac(&self.key, &a))
    }
}

/// Opens a sealed cookie in place; the cookie is untouched on failure.
pub fn decrypt_cookie(cookie: &mut EncryptedCookie, key: &Key, nonce: &[u8; 24], aad: &[u8]) -> (r: Result<
    Cookie,
    CryptoError,
>)
    ensures
        final(cookie).tag == old(cookie).tag,
        ({
            let opened = xchacha_open(key@, nonce@, aad@, old(cookie).msg.0@, old(cookie).tag.0@);
            &&& opened is None ==> r == Err::<Cookie, CryptoError>(CryptoError::DecryptionError)
                && final(cookie).msg.0@ == old(cookie).msg.0@
            &&& opened is Some ==> r is Ok && r->Ok_0 == final(cookie).msg && final(cookie).msg.0@ == opened->Some_0
        }),
        forall|c: Seq<u8>|
            c.len() == 16 && old(cookie).msg.0@ == #[trigger] xchacha_seal(key@, nonce@, aad@, c) && old(cookie).tag.0@
                == xchacha_tag(key@, nonce@, aad@, c) ==> r is Ok && r->Ok_0.0@ == c,
{
    let tag = cookie.tag.0;
    Core::xchacha20poly1305_dec(key, nonce, aad, &mut cookie.msg.0, &tag)?;
    Ok(cookie.msg)
}

/// Seals a cookie with XChaCha20-Poly1305.
pub fn encrypt_cookie(cookie: Cookie, key: &Key, nonce: &[u8; 24], aad: &[u8]) -> (r: EncryptedCookie)
    ensures
        r.msg.0@ == xchacha_seal(key@, nonce@, aad@, cookie.0@),
        r.tag.0@ == xchacha_tag(key@, nonce@, aad@, cookie.0@),
{
    let mut out = EncryptedCookie { msg: cookie, tag: Tag([0u8; 16]) };
    Core::xchacha20poly1305_enc(key, nonce, aad, &mut out.msg.0, &mut out.tag.0);
    out
}

// ───────────────────────────────────────────────────────────────────────
// MESSAGES

/// First handshake message, initiator to responder.
#[derive(Clone, Copy)]
pub struct HandshakeInit {
    pub msg_type: u32,
    pub sender: u32,
    pub ephemeral_key: [u8; 32],
    pub static_key: EncryptedPublicKey,
    pub timestamp: EncryptedTimestamp,
    pub mac1: [u8; 16],
    pub mac2: [u8; 16],
}

/// Second handshake message, responder to initiator.
#[derive(Clone, Copy)]
pub struct HandshakeResp {
    pub msg_type: u32,
    pub sender: u32,
    pub receiver: u32,
    pub ephemeral_key: [u8; 32],
    pub empty: EncryptedEmpty,
    pub mac1: [u8; 16],
    pub mac2: [u8; 16],
}

/// Cookie reply to a handshake message sent under load.
#[derive(Clone, Copy)]
pub struct CookieMessage {
    pub msg_type: u32,
    pub receiver: u32,
    pub nonce: [u8; 24],
    pub cookie: EncryptedCookie,
}

/// Header of a transport data message.
#[derive(Clone, Copy, PartialEq, Eq)]
pub struct DataHeader {
    pub msg_type: u32,
    pub receiver: u32,
    pub counter: u64,
}

/// Wire bytes of a handshake initiation (all integers little-endian).
pub open spec fn init_bytes(m: HandshakeInit) -> Seq<u8> {
    le32(m.msg_type) + le32(m.sender) + m.ephemeral_key@ + m.static_key.msg@ + m.static_key.tag.0@
        + m.timestamp.msg@ + m.timestamp.tag.0@ + m.mac1@ + m.mac2@
}

/// Wire bytes of a handshake response.
pub open spec fn resp_bytes(m: HandshakeResp) -> Seq<u8> {
    le32(m.msg_type) + le32(m.sender) + le32(m.receiver) + m.ephemeral_key@ + m.empty.tag.0@ + m.mac1@
        + m.mac2@
}

/// Wire bytes of a cookie reply.
pub open spec fn cookie_message_bytes(m: CookieMessage) -> Seq<u8> {
    le32(m.msg_type) + le32(m.receiver) + m.nonce@ + m.cookie.msg.0@ + m.cookie.tag.0@
}

/// Wire bytes of a transport header.
pub open spec fn data_header_bytes(h: DataHeader) -> Seq<u8> {
    le32(h.msg_type) + le32(h.receiver) + le64(h.counter)
}

impl HandshakeInit {
    pub fn to_bytes(&self) -> (r: Vec<u8>)
        ensures
            r@ == init_bytes(*self),
            r@.len() == HANDSHAKE_INIT_LEN,
    {
        let mut v: Vec<u8> = Vec::new();
        push_all(&mut v, &u32_to_le(self.msg_type));
        push_all(&mut v, &u32_to_le(self.sender));
        push_all(&mut v, &self.ephemeral_key);
        push_all(&mut v, &self.static_key.msg);
        push_all(&mut v, &self.static_key.tag.0);
        push_all(&mut v, &self.timestamp.msg);
        push_all(&mut v, &self.timestamp.tag.0);
        push_all(&mut v, &self.mac1);
        push_all(&mut v, &self.mac2);
        v
    }

    /// Reads a handshake initiation; the buffer must be exactly its size.
    pub fn from_bytes(b: &[u8]) -> (r: Option<Self>)
        ensures
            b@.len() != HANDSHAKE_INIT_LEN ==> r is None,
            b@.len() == HANDSHAKE_INIT_LEN ==> r is Some && init_bytes(r->Some_0) == b@,
            b@.len() == HANDSHAKE_INIT_LEN ==> r->Some_0.msg_type == from_le32(b@.subrange(0, 4))
                && r->Some_0.sender == from_le32(b@.subrange(4, 8)),
    {
        if b.len() != HANDSHAKE_INIT_LEN {
            return None;
        }
        let m = HandshakeInit {
            msg_type: read_u32_le(b, 0),
            sender: read_u32_le(b, 4),
            ephemeral_key: copy_array(b, 8),
            static_key: EncryptedPublicKey { msg: copy_array(b, 40), tag: Tag(copy_array(b, 72)) },
            timestamp: EncryptedTimestamp { msg: copy_array(b, 88), tag: Tag(copy_array(b, 100)) },
            mac1: copy_array(b, 116),
            mac2: copy_array(b, 132),
        };
        proof {
            lemma_le32_roundtrip(b@.subrange(0, 4));
            lemma_le32_roundtrip(b@.subrange(4, 8));
            assert(init_bytes(m) =~= b@);
        }
        Some(m)
    }

    /// MAC over the bytes before `mac1`.
    pub fn compute_mac1(&self, mac1_key: &Key) -> (r: Mac)
        ensures
            r@ == blake2s_mac_128(mac1_key@, init_bytes(*self).subrange(0, 116)),
    {
        let b = self.to_bytes();
        Core::blake2s_mac(mac1_key, &b.as_slice()[0..116])
    }

    /// MAC over the bytes before `mac2`, keyed by a cookie.
    pub fn compute_mac2(&self, cookie: &Cookie) -> (r: Mac)
        ensures
            r@ == blake2s_mac_128(cookie.0@, init_bytes(*self).subrange(0, 132)),
    {
        let b = self.to_bytes();
        Core::blake2s_mac(&cookie.0, &b.as_slice()[0..132])
    }

    pub fn verify_mac1(&self, mac1_key: &Key) -> (r: Result<(), CryptoError>)
        ensures
            r is Ok <==> self.mac1@ == blake2s_mac_128(mac1_key@, init_bytes(*self).subrange(0, 116)),
            r is Err ==> r == Err::<(), CryptoError>(CryptoError::Rejected),
    {
        let actual = self.compute_mac1(mac1_key);
        if constant_time_eq(&actual, &self.mac1) {
            Ok(())
        } else {
            Err(CryptoError::Rejected)
        }
    }

    pub fn verify_mac2(&self, cookie: &Cookie) -> (r: Result<(), CryptoError>)
        ensures
            r is Ok <==> self.mac2@ == blake2s_mac_128(cookie.0@, init_bytes(*self).subrange(0, 132)),
            r is Err ==> r == Err::<(), CryptoError>(CryptoError::Rejected),
    {
        let actual = self.compute_mac2(cookie);
        if constant_time_eq(&actual, &self.mac2) {
            Ok(())
        } else {
            Err(CryptoError::Rejected)
        }
    }
}

impl HandshakeResp {
    pub fn to_bytes(&self) -> (r: Vec<u8>)
        ensures
            r@ == resp_bytes(*self),
            r@.len() == HANDSHAKE_RESP_LEN,
    {
        let mut v: Vec<u8> = Vec::new();
        push_all(&mut v, &u32_to_le(self.msg_type));
        push_all(&mut v, &u32_to_le(self.sender));
        push_all(&mut v, &u32_to_le(self.receiver));
        push_all(&mut v, &self.ephemeral_key);
        push_all(&mut v, &self.empty.tag.0);
        push_all(&mut v, &self.mac1);
        push_all(&mut v, &self.mac2);
        v
    }

    /// Reads a handshake response; the buffer must be exactly its size.
    pub fn from_bytes(b: &[u8]) -> (r: Option<Self>)
        ensures
            b@.len() != HANDSHAKE_RESP_LEN ==> r is None,
            b@.len() == HANDSHAKE_RESP_LEN ==> r is Some && resp_bytes(r->Some_0) == b@,
            b@.len() == HANDSHAKE_RESP_LEN ==> r->Some_0.msg_type == from_le32(b@.subrange(0, 4))
                && r->Some_0.sender == from_le32(b@.subrange(4, 8)) && r->Some_0.receiver == from_le32(
                b@.subrange(8, 12),
            ),
    {
        if b.len() != HANDSHAKE_RESP_LEN {
            return None;
        }
        let m = HandshakeResp {
            msg_type: read_u32_le(b, 0),
            sender: read_u32_le(b, 4),
            receiver: read_u32_le(b, 8),
            ephemeral_key: copy_array(b, 12),
            empty: EncryptedEmpty { msg: [], tag: Tag(copy_array(b, 44)) },
            mac1: copy_array(b, 60),
            mac2: copy_array(b, 76),
        };
        proof {
            lemma_le32_roundtrip(b@.subrange(0, 4));
            lemma_le32_roundtrip(b@.subrange(4, 8));
            lemma_le32_roundtrip(b@.subrange(8, 12));
            assert(m.empty.msg@ =~= Seq::<u8>::empty());
            assert(resp_bytes(m) =~= b@);
        }
        Some(m)
    }

    /// MAC over the bytes before `mac1`.
    pub fn compute_mac1(&self, mac1_key: &Key) -> (r: Mac)
        ensures
            r@ == blake2s_mac_128(mac1_key@, resp_bytes(*self).subrange(0, 60)),
    {
        let b = self.to_bytes();
        Core::blake2s_mac(mac1_key, &b.as_slice()[0..60])
    }

    /// MAC over the bytes before `mac2`, keyed by a cookie.
    pub fn compute_mac2(&self, cookie: &Cookie) -> (r: Mac)
        ensures
            r@ == blake2s_mac_128(cookie.0@, resp_bytes(*self).subrange(0, 76)),
    {
        let b = self.to_bytes();
        Core::blake2s_mac(&cookie.0, &b.as_slice()[0..76])
    }

    pub fn verify_mac1(&self, mac1_key: &Key) -> (r: Result<(), CryptoError>)
        ensures
            r is Ok <==> self.mac1@ == blake2s_mac_128(mac1_key@, resp_bytes(*self).subrange(0, 60)),
            r is Err ==> r == Err::<(), CryptoError>(CryptoError::Rejected),
    {
        let actual = self.compute_mac1(mac1_key);
        if constant_time_eq(&actual, &self.mac1) {
            Ok(())
        } else {
            Err(CryptoError::Rejected)
        }
    }

    pub fn verify_mac2(&self, cookie: &Cookie) -> (r: Result<(), CryptoError>)
        ensures
            r is Ok <==> self.mac2@ == blake2s_mac_128(cookie.0@, resp_bytes(*self).subrange(0, 76)),
            r is Err ==> r == Err::<(), CryptoError>(CryptoError::Rejected),
    {
        let actual = self.compute_mac2(cookie);
        if constant_time_eq(&actual, &self.mac2) {
            Ok(())
        } else {
            Err(CryptoError::Rejected)
        }
    }
}

impl CookieMessage {
    pub fn to_bytes(&self) -> (r: Vec<u8>)
        ensures
            r@ == cookie_message_bytes(*self),
            r@.len() == COOKIE_MESSAGE_LEN,
    {
        let mut v: Vec<u8> = Vec::new();
        push_all(&mut v, &u32_to_le(self.msg_type));
        push_all(&mut v, &u32_to_le(self.receiver));
        push_all(&mut v, &self.nonce);
        push_all(&mut v, &self.cookie.msg.0);
        push_all(&mut v, &self.cookie.tag.0);
        v
    }

    /// Reads a cookie reply; the buffer must be exactly its size.
    pub fn from_bytes(b: &[u8]) -> (r: Option<Self>)
        ensures
            b@.len() != COOKIE_MESSAGE_LEN ==> r is None,
            b@.len() == COOKIE_MESSAGE_LEN ==> r is Some && cookie_message_bytes(r->Some_0) == b@,
            b@.len() == COOKIE_MESSAGE_LEN ==> r->Some_0.receiver == from_le32(b@.subrange(4, 8))
                && r->Some_0.nonce@ == b@.subrange(8, 32) && r->Some_0.cookie.msg.0@ == b@.subrange(32, 48)
                && r->Some_0.cookie.tag.0@ == b@.subrange(48, 64),
    {
        if b.len() != COOKIE_MESSAGE_LEN {
            return None;
        }
        let m = CookieMessage {
            msg_type: read_u32_le(b, 0),
            receiver: read_u32_le(b, 4),
            nonce: copy_array(b, 8),
            cookie: EncryptedCookie { msg: Cookie(copy_array(b, 32)), tag: Tag(copy_array(b, 48)) },
        };
        proof {
            lemma_le32_roundtrip(b@.subrange(0, 4));
            lemma_le32_roundtrip(b@.subrange(4, 8));
            assert(cookie_message_bytes(m) =~= b@);
        }
        Some(m)
    }
}

/// The transport header at the front of `msg`, field by field.
pub open spec fn header_of(msg: Seq<u8>) -> DataHeader {
    DataHeader {
        msg_type: from_le32(msg.subrange(0, 4)),
        receiver: from_le32(msg.subrange(4, 8)),
        counter: (from_le32(msg.subrange(8, 12)) + from_le32(msg.subrange(12, 16)) * 0x1_0000_0000) as u64,
    }
}

impl DataHeader {
    pub fn to_bytes(&self) -> (r: Vec<u8>)
        ensures
            r@ == data_header_bytes(*self),
    {
        let mut v: Vec<u8> = Vec::new();
        push_all(&mut v, &u32_to_le(self.msg_type));
        push_all(&mut v, &u32_to_le(self.receiver));
        let c = u64_to_le(self.counter);
        push_all(&mut v, c.as_slice());
        v
    }

    /// Reads the header at the front of a transport message; the rest is
    /// payload and tag. `None` when the message is shorter than a header.
    #[verifier::spinoff_prover]
    #[verifier::rlimit(30)]
    pub fn message_mut_from(msg: &[u8]) -> (r: Option<Self>)
        ensures
            msg@.len() < DATA_HEADER_LEN ==> r is None,
            msg@.len() >= DATA_HEADER_LEN ==> r is Some && data_header_bytes(r->Some_0) == msg@.subrange(0, 16),
            msg@.len() >= DATA_HEADER_LEN ==> r->Some_0 == header_of(msg@),
    {
        if msg.len() < DATA_HEADER_LEN {
            return None;
        }
        let lo = read_u32_le(msg, 8);
        let hi = read_u32_le(msg, 12);
        let counter = (lo as u64) | ((hi as u64) << 32u64);
        assert((lo as u64) | ((hi as u64) << 32u64) == lo as u64 + hi as u64 * 0x1_0000_0000) by (bit_vector);
        let h = DataHeader { msg_type: read_u32_le(msg, 0), receiver: read_u32_le(msg, 4), counter };
        proof {
            lemma_le32_roundtrip(msg@.subrange(0, 4));
            lemma_le32_roundtrip(msg@.subrange(4, 8));
            lemma_le32_roundtrip(msg@.subrange(8, 12));
            lemma_le32_roundtrip(msg@.subrange(12, 16));
            assert((counter % 0x1_0000_0000) as u32 == lo);
            assert((counter / 0x1_0000_0000) as u32 == hi);
            assert(data_header_bytes(h) =~= msg@.subrange(0, 16));
        }
        Some(h)
    }
}

/// Four bytes read as a little-endian `u32` and written back are unchanged.
pub proof fn lemma_le32_roundtrip(b: Seq<u8>)
    requires
        b.len() == 4,
    ensures
        le32(from_le32(b)) =~= b,
{
    let a0 = b[0];
    let a1 = b[1];
    let a2 = b[2];
    let a3 = b[3];
    assert({
        let x = (a0 as int + a1 as int * 0x100 + a2 as int * 0x10000 + a3 as int * 0x1000000) as u32;
        &&& (x % 0x100) as u8 == a0
        &&& ((x / 0x100) % 0x100) as u8 == a1
        &&& ((x / 0x10000) % 0x100) as u8 == a2
        &&& (x / 0x1000000) as u8 == a3
    }) by (bit_vector);
}

} // verus!
