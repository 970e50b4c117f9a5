//! Cryptographic primitives of the WireGuard handshake and transport.
//!
//! BLAKE2s, X25519 and (X)ChaCha20-Poly1305 come from their crates; each is
//! reached through one trusted wrapper below, whose result is tied to the
//! arguments by a named function. Everything built on them (HMAC, HKDF, the
//! Noise state, the low-order-point check) is verified.

use chacha20poly1305::aead::AeadInPlace;
use chacha20poly1305::KeyInit;
use vstd::prelude::*;

verus! {

/// A 32-byte symmetric key or hash.
pub type Key = [u8; 32];
/// A 16-byte BLAKE2s MAC.
pub type Mac = [u8; 16];

/// Why a cryptographic operation did not complete.
#[derive(Debug, Clone, Copy, PartialEq, Eq)]
pub enum CryptoError {
    KeyExchangeError,
    DecryptionError,
    Rejected,
}

/// A long-term X25519 private key.
#[derive(Clone, Copy, PartialEq, Eq)]
pub struct StaticPrivateKey(pub [u8; 32]);

/// An X25519 public key.
#[derive(Clone, Copy, PartialEq, Eq)]
pub struct PublicKey(pub [u8; 32]);

/// A per-handshake X25519 private key; its bytes come from the caller's
/// random number generator.
#[derive(Clone, Copy)]
pub struct EphemeralPrivateKey(pub StaticPrivateKey);

impl EphemeralPrivateKey {
    /// Wraps 32 random bytes drawn by the caller.
    pub fn generate(random: [u8; 32]) -> (r: Self)
        ensures
            r.0.0 == random,
    {
        EphemeralPrivateKey(StaticPrivateKey(random))
    }
}

// ───────────────────────────────────────────────────────────────────────
// NAMES FOR WHAT THE OUTSIDE PRIMITIVES RETURN

/// BLAKE2s-256 digest of `data`.
pub uninterp spec fn blake2s_256(data: Seq<u8>) -> Seq<u8>;

/// Keyed BLAKE2s with a 16-byte output.
pub uninterp spec fn blake2s_mac_128(key: Seq<u8>, msg: Seq<u8>) -> Seq<u8>;

/// X25519 Diffie-Hellman of `secret` with `public`.
pub uninterp spec fn x25519_shared(secret: Seq<u8>, public: Seq<u8>) -> Seq<u8>;

/// X25519 public key of `secret`.
pub uninterp spec fn x25519_public(secret: Seq<u8>) -> Seq<u8>;

/// ChaCha20-Poly1305 ciphertext of `plaintext`.
pub uninterp spec fn chacha_seal(key: Seq<u8>, nonce: Seq<u8>, aad: Seq<u8>, plaintext: Seq<u8>) -> Seq<u8>;

/// ChaCha20-Poly1305 tag of `plaintext`.
pub uninterp spec fn chacha_tag(key: Seq<u8>, nonce: Seq<u8>, aad: Seq<u8>, plaintext: Seq<u8>) -> Seq<u8>;

/// ChaCha20-Poly1305 opening of `ciphertext` under `tag`; `None` when the
/// tag does not authenticate it.
pub uninterp spec fn chacha_open(
    key: Seq<u8>,
    nonce: Seq<u8>,
    aad: Seq<u8>,
    ciphertext: Seq<u8>,
    tag: Seq<u8>,
) -> Option<Seq<u8>>;

/// XChaCha20-Poly1305 ciphertext of `plaintext`.
pub uninterp spec fn xchacha_seal(key: Seq<u8>, nonce: Seq<u8>, aad: Seq<u8>, plaintext: Seq<u8>) -> Seq<u8>;

/// XChaCha20-Poly1305 tag of `plaintext`.
pub uninterp spec fn xchacha_tag(key: Seq<u8>, nonce: Seq<u8>, aad: Seq<u8>, plaintext: Seq<u8>) -> Seq<u8>;

/// XChaCha20-Poly1305 opening of `ciphertext` under `tag`.
pub uninterp spec fn xchacha_open(
    key: Seq<u8>,
    nonce: Seq<u8>,
    aad: Seq<u8>,
    ciphertext: Seq<u8>,
    tag: Seq<u8>,
) -> Option<Seq<u8>>;

/// Largest buffer the AEAD accepts: fewer than `u32::MAX` 64-byte blocks.
pub open spec fn aead_len_ok(len: nat) -> bool {
    len / 64 < 0xFFFF_FFFF
}

// ───────────────────────────────────────────────────────────────────────
// TRUSTED WRAPPERS

/// `blake2s_simd::State` fed `left` then `right`: the crate documents that
/// incremental updates hash the concatenation, so the result is the
/// BLAKE2s-256 digest of `left ++ right`.
#[verifier::external_body]
pub(crate) fn blake2s_two(left: &[u8], right: &[u8]) -> (r: [u8; 32])
    ensures
        r@ == blake2s_256(left@ + right@),
{
    let mut s = blake2s_simd::State::new();
    s.update(left);
    s.update(right);
    *s.finalize().as_array()
}

/// `blake2s_simd::Params` with a 16-byte output keyed with `key`, hashing
/// `msg`. `Params::key` panics above 32 key bytes, hence the `requires`.
#[verifier::external_body]
pub(crate) fn blake2s_keyed_16(key: &[u8], msg: &[u8]) -> (r: [u8; 16])
    requires
        key.len() <= 32,
    ensures
        r@ == blake2s_mac_128(key@, msg@),
{
    let h = blake2s_simd::Params::new().hash_length(16).key(key).hash(msg);
    let mut out = [0u8; 16];
    out.copy_from_slice(h.as_bytes());
    out
}

/// `x25519_dalek::StaticSecret::diffie_hellman`, bytes in and out.
#[verifier::external_body]
pub(crate) fn x25519_dh(secret: &[u8; 32], public: &[u8; 32]) -> (r: [u8; 32])
    ensures
        r@ == x25519_shared(secret@, public@),
{
    let ss = x25519_dalek::StaticSecret::from(*secret);
    let pk = x25519_dalek::PublicKey::from(*public);
    ss.diffie_hellman(&pk).to_bytes()
}

/// `x25519_dalek::PublicKey::from(&StaticSecret)`, bytes in and out.
#[verifier::external_body]
pub(crate) fn x25519_base(secret: &[u8; 32]) -> (r: [u8; 32])
    ensures
        r@ == x25519_public(secret@),
{
    let ss = x25519_dalek::StaticSecret::from(*secret);
    x25519_dalek::PublicKey::from(&ss).to_bytes()
}

/// `ChaCha20Poly1305::encrypt_in_place_detached`: the buffer is encrypted
/// in place (same length) and the tag is returned. The crate fails only
/// for buffers of `u32::MAX` blocks or more, excluded by `requires`.
#[verifier::external_body]
pub(crate) fn chacha_encrypt(key: &[u8; 32], nonce: &[u8; 12], aad: &[u8], payload: &mut [u8]) -> (r: [u8; 16])
    requires
        aead_len_ok(old(payload)@.len()),
    ensures
        final(payload)@ == chacha_seal(key@, nonce@, aad@, old(payload)@),
        final(payload)@.len() == old(payload)@.len(),
        r@ == chacha_tag(key@, nonce@, aad@, old(payload)@),
{
    let cipher = chacha20poly1305::ChaCha20Poly1305::new(key.into());
    let n = chacha20poly1305::Nonce::from_slice(nonce);
    cipher.encrypt_in_place_detached(n, aad, payload).expect("length checked").into()
}

/// `ChaCha20Poly1305::decrypt_in_place_detached`: on success the buffer
/// holds the plaintext; on failure the crate leaves it untouched (the
/// keystream is applied only after the tag checks). As an AEAD, a buffer
/// and tag produced by sealing `p` under the same key, nonce and data open
/// to `p`.
#[verifier::external_body]
pub(crate) fn chacha_decrypt(
    key: &[u8; 32],
    nonce: &[u8; 12],
    aad: &[u8],
    payload: &mut [u8],
    tag: &[u8; 16],
) -> (r: bool)
    ensures
        final(payload)@.len() == old(payload)@.len(),
        r == chacha_open(key@, nonce@, aad@, old(payload)@, tag@) is Some,
        r ==> final(payload)@ == chacha_open(key@, nonce@, aad@, old(payload)@, tag@)->Some_0,
        !r ==> final(payload)@ == old(payload)@,
        forall|p: Seq<u8>|
            aead_len_ok(p.len()) && old(payload)@ == #[trigger] chacha_seal(key@, nonce@, aad@, p) && tag@
                == chacha_tag(key@, nonce@, aad@, p) ==> r && final(payload)@ == p,
{
    let cipher = chacha20poly1305::ChaCha20Poly1305::new(key.into());
    let n = chacha20poly1305::Nonce::from_slice(nonce);
    cipher.decrypt_in_place_detached(n, aad, payload, tag.into()).is_ok()
}

/// `XChaCha20Poly1305::encrypt_in_place_detached`, as `chacha_encrypt`.
#[verifier::external_body]
pub(crate) fn xchacha_encrypt(key: &[u8; 32], nonce: &[u8; 24], aad: &[u8], payload: &mut [u8]) -> (r: [u8; 16])
    requires
        aead_len_ok(old(payload)@.len()),
    ensures
        final(payload)@ == xchacha_seal(key@, nonce@, aad@, old(payload)@),
        final(payload)@.len() == old(payload)@.len(),
        r@ == xchacha_tag(key@, nonce@, aad@, old(payload)@),
{
    let cipher = chacha20poly1305::XChaCha20Poly1305::new(key.into());
    let n = chacha20poly1305::XNonce::from_slice(nonce);
    cipher.encrypt_in_place_detached(n, aad, payload).expect("length checked").into()
}

/// `XChaCha20Poly1305::decrypt_in_place_detached`, as `chacha_decrypt`.
#[verifier::external_body]
pub(crate) fn xchacha_decrypt(
    key: &[u8; 32],
    nonce: &[u8; 24],
    aad: &[u8],
    payload: &mut [u8],
    tag: &[u8; 16],
) -> (r: bool)
    ensures
        final(payload)@.len() == old(payload)@.len(),
        r == xchacha_open(key@, nonce@, aad@, old(payload)@, tag@) is Some,
        r ==> final(payload)@ == xchacha_open(key@, nonce@, aad@, old(payload)@, tag@)->Some_0,
        !r ==> final(payload)@ == old(payload)@,
        forall|p: Seq<u8>|
            aead_len_ok(p.len()) && old(payload)@ == #[trigger] xchacha_seal(key@, nonce@, aad@, p) && tag@
                == xchacha_tag(key@, nonce@, aad@, p) ==> r && final(payload)@ == p,
{
    let cipher = chacha20poly1305::XChaCha20Poly1305::new(key.into());
    let n = chacha20poly1305::XNonce::from_slice(nonce);
    cipher.decrypt_in_place_detached(n, aad, payload, tag.into()).is_ok()
}

} // verus!
