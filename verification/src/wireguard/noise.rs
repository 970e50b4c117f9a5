//! HMAC-BLAKE2s, HKDF and the Noise IKpsk2 symmetric state.

use vstd::prelude::*;

use super::crypto::{
    aead_len_ok, blake2s_256, blake2s_keyed_16, blake2s_mac_128, blake2s_two, chacha_decrypt, chacha_encrypt,
    chacha_open, chacha_seal, chacha_tag, x25519_base, x25519_dh, x25519_public, x25519_shared, xchacha_decrypt,
    xchacha_encrypt, xchacha_open, xchacha_seal, xchacha_tag, CryptoError, Key, Mac, PublicKey, StaticPrivateKey,
};

verus! {

/// `a ++ b` as a fresh vector.
pub fn concat(a: &[u8], b: &[u8]) -> (r: Vec<u8>)
    ensures
        r@ == a@ + b@,
{
    let mut r: Vec<u8> = Vec::new();
    let mut i: usize = 0;
    while i < a.len()
        invariant
            i <= a.len(),
            r@ == a@.subrange(0, i as int),
        decreases a.len() - i,
    {
        r.push(a[i]);
        i = i + 1;
    }
    let mut j: usize = 0;
    while j < b.len()
        invariant
            j <= b.len(),
            r@ == a@ + b@.subrange(0, j as int),
        decreases b.len() - j,
    {
        r.push(b[j]);
        j = j + 1;
    }
    assert(a@.subrange(0, a@.len() as int) == a@);
    assert(b@.subrange(0, b@.len() as int) == b@);
    r
}

// ───────────────────────────────────────────────────────────────────────
// HMAC

/// A 32-byte key zero-extended to the 64-byte BLAKE2s block.
pub open spec fn der_key(key: Seq<u8>) -> Seq<u8> {
    key + Seq::new((64 - key.len()) as nat, |i: int| 0u8)
}

/// Every byte of `s` xor-ed with `b`.
pub open spec fn xor_all(s: Seq<u8>, b: u8) -> Seq<u8> {
    Seq::new(s.len(), |i: int| s[i] ^ b)
}

/// Inner and outer HMAC pads of `key`.
pub open spec fn ipad(key: Seq<u8>) -> Seq<u8> {
    xor_all(der_key(key), 0x36)
}

pub open spec fn opad(key: Seq<u8>) -> Seq<u8> {
    xor_all(der_key(key), 0x5C)
}

/// The two-pass HMAC over BLAKE2s-256 given the prepared pads.
pub open spec fn hmac_with_pads(ipad: Seq<u8>, opad: Seq<u8>, msg: Seq<u8>) -> Seq<u8> {
    blake2s_256(opad + blake2s_256(ipad + msg))
}

/// HMAC-BLAKE2s of `msg` under the 32-byte `key`.
pub open spec fn spec_hmac(key: Seq<u8>, msg: Seq<u8>) -> Seq<u8> {
    hmac_with_pads(ipad(key), opad(key), msg)
}

/// HKDF output block `i` (counting from 1) for pseudo-random key `prk`.
pub open spec fn hkdf_t(prk: Seq<u8>, i: nat) -> Seq<u8>
    decreases i,
{
    if i <= 1 {
        spec_hmac(prk, seq![1u8])
    } else {
        spec_hmac(prk, hkdf_t(prk, (i - 1) as nat) + seq![i as u8])
    }
}

/// HKDF block `i` of `msg` keyed by the chaining key `chain`.
pub open spec fn kdf(chain: Seq<u8>, msg: Seq<u8>, i: nat) -> Seq<u8> {
    hkdf_t(spec_hmac(chain, msg), i)
}

/// `key` zero-extended to 64 bytes.
pub fn get_der_key(key: &Key) -> (r: [u8; 64])
    ensures
        r@ == der_key(key@),
{
    let mut der_key_buf = [0u8; 64];
    let mut i: usize = 0;
    while i < 32
        invariant
            i <= 32,
            der_key_buf@.len() == 64,
            forall|k: int| 0 <= k < i ==> der_key_buf@[k] == key@[k],
            forall|k: int| 32 <= k < 64 ==> der_key_buf@[k] == 0u8,
        decreases 32 - i,
    {
        der_key_buf[i] = key[i];
        i = i + 1;
    }
    assert(der_key_buf@ =~= der_key(key@));
    der_key_buf
}

/// The HMAC inner (0x36) and outer (0x5C) pads of `key`.
pub fn get_pad(key: &Key) -> (r: ([u8; 64], [u8; 64]))
    ensures
        r.0@ == ipad(key@),
        r.1@ == opad(key@),
{
    let der = get_der_key(key);
    let mut ipad_key = der;
    let mut opad_key = der;
    let mut i: usize = 0;
    while i < 64
        invariant
            i <= 64,
            der@ == der_key(key@),
            ipad_key@.len() == 64 && opad_key@.len() == 64,
            forall|k: int| 0 <= k < i ==> ipad_key@[k] == der@[k] ^ 0x36u8,
            forall|k: int| 0 <= k < i ==> opad_key@[k] == der@[k] ^ 0x5Cu8,
        decreases 64 - i,
    {
        ipad_key[i] = der[i] ^ 0x36;
        opad_key[i] = der[i] ^ 0x5C;
        i = i + 1;
    }
    assert(ipad_key@ =~= ipad(key@));
    assert(opad_key@ =~= opad(key@));
    (ipad_key, opad_key)
}

/// HMAC from prepared pads: `H(opad ++ H(ipad ++ msg))`.
pub fn hmac_inner(ipad_key: &[u8; 64], opad_key: &[u8; 64], msg: &[u8]) -> (r: Key)
    ensures
        r@ == hmac_with_pads(ipad_key@, opad_key@, msg@),
{
    let inner = Core::blake2s_hash(ipad_key, msg);
    Core::blake2s_hash(opad_key, &inner)
}

// ───────────────────────────────────────────────────────────────────────
// CORE PRIMITIVES

/// The primitives WireGuard is built from.
pub trait CryptoPrimitives {
    /// BLAKE2s-256 of `left ++ right`.
    fn blake2s_hash(left: &[u8], right: &[u8]) -> (r: Key)
        ensures
            r@ == blake2s_256(left@ + right@),
    ;

    /// 16-byte keyed BLAKE2s.
    fn blake2s_mac(key: &[u8], msg: &[u8]) -> (r: Mac)
        requires
            key.len() <= 32,
        ensures
            r@ == blake2s_mac_128(key@, msg@),
    ;

    /// HMAC-BLAKE2s.
    fn hmac_blake2s(key: &Key, msg: &[u8]) -> (r: Key)
        ensures
            r@ == spec_hmac(key@, msg@),
    ;

    /// HKDF-BLAKE2s: `key` becomes the first output block, `output[i]`
    /// block `i + 2`.
    fn hkdf_blake2s<const N: usize>(key: &mut Key, msg: &[u8], output: &mut [Key; N])
        requires
            N < 255,
        ensures
            final(key)@ == kdf(old(key)@, msg@, 1),
            forall|i: int| 0 <= i < N ==> (#[trigger] final(output)@[i])@ == kdf(old(key)@, msg@, (i + 2) as nat),
    ;

    /// X25519, rejecting the all-zero shared secret of a low-order point.
    fn x25519(secret: &StaticPrivateKey, public: &PublicKey) -> (r: Result<Key, CryptoError>)
        ensures
            is_zero_key(x25519_shared(secret.0@, public.0@)) ==> r == Err::<Key, CryptoError>(CryptoError::Rejected),
            !is_zero_key(x25519_shared(secret.0@, public.0@)) ==> r is Ok && r->Ok_0@ == x25519_shared(
                secret.0@,
                public.0@,
            ),
    ;

    /// X25519 public key of `secret`.
    fn x25519_pubkey(secret: &StaticPrivateKey) -> (r: PublicKey)
        ensures
            r.0@ == x25519_public(secret.0@),
    ;

    /// ChaCha20-Poly1305 in place with a detached tag.
    fn chacha20poly1305_enc(key: &Key, nonce: &[u8; 12], aad: &[u8], payload: &mut [u8], tag: &mut [u8; 16])
        requires
            aead_len_ok(old(payload)@.len()),
        ensures
            final(payload)@ == chacha_seal(key@, nonce@, aad@, old(payload)@),
            final(payload)@.len() == old(payload)@.len(),
            final(tag)@ == chacha_tag(key@, nonce@, aad@, old(payload)@),
    ;

    /// ChaCha20-Poly1305 opening in place; the buffer is untouched on error.
    fn chacha20poly1305_dec(key: &Key, nonce: &[u8; 12], aad: &[u8], payload: &mut [u8], tag: &[u8; 16]) -> (r:
        Result<(), CryptoError>)
        ensures
            final(payload)@.len() == old(payload)@.len(),
            r is Ok == chacha_open(key@, nonce@, aad@, old(payload)@, tag@) is Some,
            r is Ok ==> final(payload)@ == chacha_open(key@, nonce@, aad@, old(payload)@, tag@)->Some_0,
            r is Err ==> r == Err::<(), CryptoError>(CryptoError::DecryptionError) && final(payload)@ == old(payload)@,
            forall|p: Seq<u8>|
                aead_len_ok(p.len()) && old(payload)@ == #[trigger] chacha_seal(key@, nonce@, aad@, p) && tag@
                    == chacha_tag(key@, nonce@, aad@, p) ==> r is Ok && final(payload)@ == p,
    ;

    /// XChaCha20-Poly1305 in place with a detached tag.
    fn xchacha20poly1305_enc(key: &Key, nonce: &[u8; 24], aad: &[u8], payload: &mut [u8], tag: &mut [u8; 16])
        requires
            aead_len_ok(old(payload)@.len()),
        ensures
            final(payload)@ == xchacha_seal(key@, nonce@, aad@, old(payload)@),
            final(payload)@.len() == old(payload)@.len(),
            final(tag)@ == xchacha_tag(key@, nonce@, aad@, old(payload)@),
    ;

    /// XChaCha20-Poly1305 opening in place; the buffer is untouched on error.
    fn xchacha20poly1305_dec(key: &Key, nonce: &[u8; 24], aad: &[u8], payload: &mut [u8], tag: &[u8; 16]) -> (r:
        Result<(), CryptoError>)
        ensures
            final(payload)@.len() == old(payload)@.len(),
            r is Ok == xchacha_open(key@, nonce@, aad@, old(payload)@, tag@) is Some,
            r is Ok ==> final(payload)@ == xchacha_open(key@, nonce@, aad@, old(payload)@, tag@)->Some_0,
            r is Err ==> r == Err::<(), CryptoError>(CryptoError::DecryptionError) && final(payload)@ == old(payload)@,
            forall|p: Seq<u8>|
                aead_len_ok(p.len()) && old(payload)@ == #[trigger] xchacha_seal(key@, nonce@, aad@, p) && tag@
                    == xchacha_tag(key@, nonce@, aad@, p) ==> r is Ok && final(payload)@ == p,
    ;
}

/// The primitives, on the outside crates.
pub struct Core;

impl CryptoPrimitives for Core {
    fn blake2s_hash(left: &[u8], right: &[u8]) -> (r: Key)
    {
        blake2s_two(left, right)
    }

    fn blake2s_mac(key: &[u8], msg: &[u8]) -> (r: Mac)
    {
        blake2s_keyed_16(key, msg)
    }

    fn hmac_blake2s(key: &Key, msg: &[u8]) -> (r: Key)
    {
        let (ipad_key, opad_key) = get_pad(key);
        hmac_inner(&ipad_key, &opad_key, msg)
    }

    fn hkdf_blake2s<const N: usize>(key: &mut Key, msg: &[u8], output: &mut [Key; N])
    {
        let prk = Self::hmac_blake2s(key, msg);
        let (ipad_key, opad_key) = get_pad(&prk);
        let one: [u8; 1] = [1u8];
        let mut ti = hmac_inner(&ipad_key, &opad_key, &one);
        assert(one@ =~= seq![1u8]);
        *key = ti;
        let ghost out0 = output@;
        let mut i: usize = 0;
        while i < N
            invariant
                N < 255,
                i <= N,
                output@.len() == N,
                ipad_key@ == ipad(prk@),
                opad_key@ == opad(prk@),
                prk@ == spec_hmac(old(key)@, msg@),
                ti@ == hkdf_t(prk@, (i + 1) as nat),
                forall|k: int| 0 <= k < i ==> (#[trigger] output@[k])@ == hkdf_t(prk@, (k + 2) as nat),
            decreases N - i,
        {
            let counter: [u8; 1] = [(i + 2) as u8];
            let m = concat(&ti, &counter);
            assert(counter@ =~= seq![(i + 2) as u8]);
            ti = hmac_inner(&ipad_key, &opad_key, &m);
            output[i] = ti;
            i = i + 1;
        }
    }

    fn x25519(secret: &StaticPrivateKey, public: &PublicKey) -> (r: Result<Key, CryptoError>)
    {
        let key = x25519_dh(&secret.0, &public.0);
        let mut all_zero = true;
        let mut i: usize = 0;
        while i < 32
            invariant
                i <= 32,
                key@.len() == 32,
                all_zero == (forall|k: int| 0 <= k < i ==> key@[k] == 0u8),
            decreases 32 - i,
        {
            if key[i] != 0 {
                all_zero = false;
            }
            i = i + 1;
        }
        if all_zero {
            return Err(CryptoError::Rejected);
        }
        Ok(key)
    }

    fn x25519_pubkey(secret: &StaticPrivateKey) -> (r: PublicKey)
    {
        PublicKey(x25519_base(&secret.0))
    }

    fn chacha20poly1305_enc(key: &Key, nonce: &[u8; 12], aad: &[u8], payload: &mut [u8], tag: &mut [u8; 16])
    {
        *tag = chacha_encrypt(key, nonce, aad, payload);
    }

    fn chacha20poly1305_dec(key: &Key, nonce: &[u8; 12], aad: &[u8], payload: &mut [u8], tag: &[u8; 16]) -> (r:
        Result<(), CryptoError>)
    {
        if chacha_decrypt(key, nonce, aad, payload, tag) {
            Ok(())
        } else {
            Err(CryptoError::DecryptionError)
        }
    }

    fn xchacha20poly1305_enc(key: &Key, nonce: &[u8; 24], aad: &[u8], payload: &mut [u8], tag: &mut [u8; 16])
    {
        *tag = xchacha_encrypt(key, nonce, aad, payload);
    }

    fn xchacha20poly1305_dec(key: &Key, nonce: &[u8; 24], aad: &[u8], payload: &mut [u8], tag: &[u8; 16]) -> (r:
        Result<(), CryptoError>)
    {
        if xchacha_decrypt(key, nonce, aad, payload, tag) {
            Ok(())
        } else {
            Err(CryptoError::DecryptionError)
        }
    }
}

/// All 32 bytes are zero.
pub open spec fn is_zero_key(k: Seq<u8>) -> bool {
    forall|i: int| 0 <= i < 32 ==> k[i] == 0u8
}

} // verus!
