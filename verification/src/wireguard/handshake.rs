//! The Noise IKpsk2 symmetric state and the AEAD-protected handshake
//! fields.

use vstd::prelude::*;

use super::crypto::{
    aead_len_ok, blake2s_256, chacha_open, chacha_seal, chacha_tag, x25519_shared, CryptoError,
    EphemeralPrivateKey, Key, PublicKey, StaticPrivateKey,
};
use super::noise::{concat, is_zero_key, kdf, Core, CryptoPrimitives};
use super::transport::{nonce, spec_nonce, DecryptionKey, EncryptionKey, Tag};

verus! {

/// `HASH("Noise_IKpsk2_25519_ChaChaPoly_BLAKE2s")`, the initial chaining key.
pub const CONSTRUCTION_HASH: [u8; 32] = [
    96, 226, 109, 174, 243, 39, 239, 192, 46, 195, 53, 226, 160, 37, 210, 208, 22, 235, 66, 6, 248, 114,
    119, 245, 45, 56, 209, 152, 139, 120, 205, 54,
];

/// `HASH(CONSTRUCTION_HASH || "WireGuard v1 zx2c4 Jason@zx2c4.com")`, the
/// initial transcript hash.
pub const IDENTIFIER_HASH: [u8; 32] = [
    34, 17, 179, 97, 8, 26, 197, 102, 105, 18, 67, 219, 69, 138, 213, 50, 45, 156, 108, 102, 34, 147,
    232, 183, 14, 225, 156, 101, 186, 7, 158, 243,
];

/// Transcript hash and chaining key of a handshake in progress.
#[derive(Clone, Copy)]
pub struct HandshakeState {
    hash: [u8; 32],
    chain: Key,
}

/// The shared secret of `sk` and `pk`, or `None` for the all-zero secret
/// of a low-order point.
pub open spec fn dh(sk: Seq<u8>, pk: Seq<u8>) -> Option<Seq<u8>> {
    let s = x25519_shared(sk, pk);
    if is_zero_key(s) { None } else { Some(s) }
}

impl HandshakeState {
    pub closed spec fn hash(&self) -> Seq<u8> {
        self.hash@
    }

    pub closed spec fn chain(&self) -> Seq<u8> {
        self.chain@
    }

    /// The state every handshake starts from.
    pub fn initial() -> (r: Self)
        ensures
            r.hash() == IDENTIFIER_HASH@,
            r.chain() == CONSTRUCTION_HASH@,
    {
        HandshakeState { hash: IDENTIFIER_HASH, chain: CONSTRUCTION_HASH }
    }

    /// Chains `b` into the chaining key.
    pub fn mix_chain(&mut self, b: &[u8])
        ensures
            final(self).chain() == kdf(old(self).chain(), b@, 1),
            final(self).hash() == old(self).hash(),
    {
        let mut out: [Key; 0] = [];
        Core::hkdf_blake2s(&mut self.chain, b, &mut out);
    }

    /// Chains the X25519 secret of `sk` and `pk`; a low-order point is
    /// rejected and leaves the state as it was.
    pub fn mix_dh(&mut self, sk: &StaticPrivateKey, pk: &PublicKey) -> (r: Result<(), CryptoError>)
        ensures
            dh(sk.0@, pk.0@) is None ==> r == Err::<(), CryptoError>(CryptoError::Rejected) && *final(self) == *old(self),
            dh(sk.0@, pk.0@) is Some ==> r is Ok && final(self).chain() == kdf(
                old(self).chain(),
                dh(sk.0@, pk.0@)->Some_0,
                1,
            ) && final(self).hash() == old(self).hash(),
    {
        let shared_secret = Core::x25519(sk, pk)?;
        let mut out: [Key; 0] = [];
        Core::hkdf_blake2s(&mut self.chain, &shared_secret, &mut out);
        Ok(())
    }

    /// Chains the X25519 secret and returns the derived key.
    pub fn mix_key_dh(&mut self, sk: &StaticPrivateKey, pk: &PublicKey) -> (r: Result<Key, CryptoError>)
        ensures
            dh(sk.0@, pk.0@) is None ==> r == Err::<Key, CryptoError>(CryptoError::Rejected) && *final(self) == *old(self),
            dh(sk.0@, pk.0@) is Some ==> ({
                let s = dh(sk.0@, pk.0@)->Some_0;
                &&& r is Ok
                &&& r->Ok_0@ == kdf(old(self).chain(), s, 2)
                &&& final(self).chain() == kdf(old(self).chain(), s, 1)
                &&& final(self).hash() == old(self).hash()
            }),
    {
        let shared_secret = Core::x25519(sk, pk)?;
        Ok(self.mix_key(&shared_secret))
    }

    /// `mix_dh` with an ephemeral key.
    pub fn mix_edh(&mut self, sk: &EphemeralPrivateKey, pk: &PublicKey) -> (r: Result<(), CryptoError>)
        ensures
            dh(sk.0.0@, pk.0@) is None ==> r == Err::<(), CryptoError>(CryptoError::Rejected) && *final(self) == *old(
                self,
            ),
            dh(sk.0.0@, pk.0@) is Some ==> r is Ok && final(self).chain() == kdf(
                old(self).chain(),
                dh(sk.0.0@, pk.0@)->Some_0,
                1,
            ) && final(self).hash() == old(self).hash(),
    {
        self.mix_dh(&sk.0, pk)
    }

    /// `mix_key_dh` with an ephemeral key.
    pub fn mix_key_edh(&mut self, sk: &EphemeralPrivateKey, pk: &PublicKey) -> (r: Result<Key, CryptoError>)
        ensures
            dh(sk.0.0@, pk.0@) is None ==> r == Err::<Key, CryptoError>(CryptoError::Rejected) && *final(self) == *old(
                self,
            ),
            dh(sk.0.0@, pk.0@) is Some ==> ({
                let s = dh(sk.0.0@, pk.0@)->Some_0;
                &&& r is Ok
                &&& r->Ok_0@ == kdf(old(self).chain(), s, 2)
                &&& final(self).chain() == kdf(old(self).chain(), s, 1)
                &&& final(self).hash() == old(self).hash()
            }),
    {
        self.mix_key_dh(&sk.0, pk)
    }

    /// Chains `b` and returns the second HKDF block as a key.
    pub fn mix_key(&mut self, b: &[u8]) -> (r: Key)
        ensures
            r@ == kdf(old(self).chain(), b@, 2),
            final(self).chain() == kdf(old(self).chain(), b@, 1),
            final(self).hash() == old(self).hash(),
    {
        let mut k: [Key; 1] = [[0u8; 32]];
        Core::hkdf_blake2s(&mut self.chain, b, &mut k);
        k[0]
    }

    /// Chains `b` (the pre-shared key), hashes the second block into the
    /// transcript and returns the third as a key.
    pub fn mix_key_and_hash(&mut self, b: &[u8]) -> (r: Key)
        ensures
            r@ == kdf(old(self).chain(), b@, 3),
            final(self).chain() == kdf(old(self).chain(), b@, 1),
            final(self).hash() == blake2s_256(old(self).hash() + kdf(old(self).chain(), b@, 2)),
    {
        let mut tk: [Key; 2] = [[0u8; 32], [0u8; 32]];
        Core::hkdf_blake2s(&mut self.chain, b, &mut tk);
        let t0 = tk[0];
        self.mix_hash(&t0);
        tk[1]
    }

    /// Hashes `b` into the transcript.
    pub fn mix_hash(&mut self, b: &[u8])
        ensures
            final(self).hash() == blake2s_256(old(self).hash() + b@),
            final(self).chain() == old(self).chain(),
    {
        let h = self.hash;
        self.hash = Core::blake2s_hash(&h, b);
    }

    /// Derives the transport keys and wipes the state: the first HKDF
    /// block of the empty input sends for the initiator, the second for
    /// the responder.
    pub fn split(&mut self, initiator: bool) -> (r: (EncryptionKey, DecryptionKey))
        ensures
            final(self).hash() == Seq::new(32, |i: int| 0u8),
            final(self).chain() == Seq::new(32, |i: int| 0u8),
            r.0.spec_counter() == 0,
            r.1.replay().wf() && r.1.replay().last() == 0 && forall|n: u64| !r.1.replay().seen(n),
            initiator ==> r.0.key() == kdf(old(self).chain(), seq![], 1) && r.1.key() == kdf(
                old(self).chain(),
                seq![],
                2,
            ),
            !initiator ==> r.0.key() == kdf(old(self).chain(), seq![], 2) && r.1.key() == kdf(
                old(self).chain(),
                seq![],
                1,
            ),
    {
        let empty: [u8; 0] = [];
        assert(empty@ =~= Seq::<u8>::empty());
        let k2 = self.mix_key(&empty);
        let k1 = self.chain;
        self.hash = [0u8; 32];
        self.chain = [0u8; 32];
        assert(self.hash@ =~= Seq::new(32, |i: int| 0u8));
        assert(self.chain@ =~= Seq::new(32, |i: int| 0u8));
        if initiator {
            (EncryptionKey::new(k1), DecryptionKey::new(k2))
        } else {
            (EncryptionKey::new(k2), DecryptionKey::new(k1))
        }
    }
}

impl Default for HandshakeState {
    fn default() -> (r: Self)
        ensures
            r.hash() == IDENTIFIER_HASH@,
            r.chain() == CONSTRUCTION_HASH@,
    {
        Self::initial()
    }
}

// ───────────────────────────────────────────────────────────────────────
// AEAD-PROTECTED HANDSHAKE FIELDS

/// Ciphertext of `msg` in a handshake field: sealed under `key` with
/// counter 0 and the transcript hash as associated data.
pub open spec fn field_seal(key: Seq<u8>, hash: Seq<u8>, msg: Seq<u8>) -> Seq<u8> {
    chacha_seal(key, spec_nonce(0), hash, msg)
}

pub open spec fn field_tag(key: Seq<u8>, hash: Seq<u8>, msg: Seq<u8>) -> Seq<u8> {
    chacha_tag(key, spec_nonce(0), hash, msg)
}

pub open spec fn field_open(key: Seq<u8>, hash: Seq<u8>, ct: Seq<u8>, tag: Seq<u8>) -> Option<Seq<u8>> {
    chacha_open(key, spec_nonce(0), hash, ct, tag)
}

/// A handshake field of `N` plaintext bytes sealed with a tag.
pub trait Encrypted<const N: usize>: Sized {
    /// The ciphertext bytes.
    spec fn msg_bytes(&self) -> Seq<u8>;

    /// The tag bytes.
    spec fn tag_bytes(&self) -> Seq<u8>;

    /// Hashes the sealed field into the transcript, then opens it with the
    /// previous transcript hash as associated data.
    fn decrypt_and_hash(&mut self, state: &mut HandshakeState, key: &Key) -> (r: Result<[u8; N], CryptoError>)
        ensures
            final(state).chain() == old(state).chain(),
            final(state).hash() == blake2s_256(old(state).hash() + (old(self).msg_bytes() + old(self).tag_bytes())),
            final(self).tag_bytes() == old(self).tag_bytes(),
            ({
                let opened = field_open(key@, old(state).hash(), old(self).msg_bytes(), old(self).tag_bytes());
                &&& opened is None ==> r == Err::<[u8; N], CryptoError>(CryptoError::DecryptionError)
                    && final(self).msg_bytes() == old(self).msg_bytes()
                &&& opened is Some ==> r is Ok && r->Ok_0@ == opened->Some_0 && final(self).msg_bytes()
                    == opened->Some_0
            }),
    ;

    /// Seals `msg` with the transcript hash as associated data, then hashes
    /// the sealed field into the transcript.
    fn encrypt_and_hash(msg: [u8; N], state: &mut HandshakeState, key: &Key) -> (r: Self)
        ensures
            r.msg_bytes() == field_seal(key@, old(state).hash(), msg@),
            r.tag_bytes() == field_tag(key@, old(state).hash(), msg@),
            final(state).hash() == blake2s_256(old(state).hash() + (r.msg_bytes() + r.tag_bytes())),
            final(state).chain() == old(state).chain(),
    ;
}

/// The empty payload of the handshake response.
#[derive(Clone, Copy)]
pub struct EncryptedEmpty {
    pub msg: [u8; 0],
    pub tag: Tag,
}

/// The sealed TAI64N timestamp of the handshake initiation.
#[derive(Clone, Copy)]
pub struct EncryptedTimestamp {
    pub msg: [u8; 12],
    pub tag: Tag,
}

/// The sealed static public key of the handshake initiation.
#[derive(Clone, Copy)]
pub struct EncryptedPublicKey {
    pub msg: [u8; 32],
    pub tag: Tag,
}

impl Encrypted<0> for EncryptedEmpty {
    open spec fn msg_bytes(&self) -> Seq<u8> {
        self.msg@
    }

    open spec fn tag_bytes(&self) -> Seq<u8> {
        self.tag.0@
    }

    fn decrypt_and_hash(&mut self, state: &mut HandshakeState, key: &Key) -> (r: Result<[u8; 0], CryptoError>) {
        let aad = state.hash;
        let bytes = concat(&self.msg, &self.tag.0);
        state.mix_hash(&bytes);
        let n = nonce(0);
        let tag = self.tag.0;
        Core::chacha20poly1305_dec(key, &n, &aad, &mut self.msg, &tag)?;
        Ok(self.msg)
    }

    fn encrypt_and_hash(msg: [u8; 0], state: &mut HandshakeState, key: &Key) -> (r: Self) {
        let aad = state.hash;
        let mut out = EncryptedEmpty { msg, tag: Tag([0u8; 16]) };
        let n = nonce(0);
        Core::chacha20poly1305_enc(key, &n, &aad, &mut out.msg, &mut out.tag.0);
        let bytes = concat(&out.msg, &out.tag.0);
        state.mix_hash(&bytes);
        out
    }
}

impl Encrypted<12> for EncryptedTimestamp {
    open spec fn msg_bytes(&self) -> Seq<u8> {
        self.msg@
    }

    open spec fn tag_bytes(&self) -> Seq<u8> {
        self.tag.0@
    }

    fn decrypt_and_hash(&mut self, state: &mut HandshakeState, key: &Key) -> (r: Result<[u8; 12], CryptoError>) {
        let aad = state.hash;
        let bytes = concat(&self.msg, &self.tag.0);
        state.mix_hash(&bytes);
        let n = nonce(0);
        let tag = self.tag.0;
        Core::chacha20poly1305_dec(key, &n, &aad, &mut self.msg, &tag)?;
        Ok(self.msg)
    }

    fn encrypt_and_hash(msg: [u8; 12], state: &mut HandshakeState, key: &Key) -> (r: Self) {
        let aad = state.hash;
        let mut out = EncryptedTimestamp { msg, tag: Tag([0u8; 16]) };
        let n = nonce(0);
        Core::chacha20poly1305_enc(key, &n, &aad, &mut out.msg, &mut out.tag.0);
        let bytes = concat(&out.msg, &out.tag.0);
        state.mix_hash(&bytes);
        out
    }
}

impl Encrypted<32> for EncryptedPublicKey {
    open spec fn msg_bytes(&self) -> Seq<u8> {
        self.msg@
    }

    open spec fn tag_bytes(&self) -> Seq<u8> {
        self.tag.0@
    }

    fn decrypt_and_hash(&mut self, state: &mut HandshakeState, key: &Key) -> (r: Result<[u8; 32], CryptoError>) {
        let aad = state.hash;
        let bytes = concat(&self.msg, &self.tag.0);
        state.mix_hash(&bytes);
        let n = nonce(0);
        let tag = self.tag.0;
        Core::chacha20poly1305_dec(key, &n, &aad, &mut self.msg, &tag)?;
        Ok(self.msg)
    }

    fn encrypt_and_hash(msg: [u8; 32], state: &mut HandshakeState, key: &Key) -> (r: Self) {
        let aad = state.hash;
        let mut out = EncryptedPublicKey { msg, tag: Tag([0u8; 16]) };
        let n = nonce(0);
        Core::chacha20poly1305_enc(key, &n, &aad, &mut out.msg, &mut out.tag.0);
        let bytes = concat(&out.msg, &out.tag.0);
        state.mix_hash(&bytes);
        out
    }
}

} // verus!
