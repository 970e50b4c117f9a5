//! Transport data keys, nonces, payload framing and constant-time
//! comparison.

use vstd::prelude::*;

use super::crypto::{aead_len_ok, chacha_open, chacha_seal, chacha_tag, CryptoError, Key};
use super::noise::{Core, CryptoPrimitives};
use super::replay::{marked, settled, lemma_mark_keeps_settled, AntiReplay};

verus! {

/// A 16-byte Poly1305 tag.
#[derive(Clone, Copy, PartialEq, Eq)]
pub struct Tag(pub [u8; 16]);

/// The 12-byte AEAD nonce of a counter: four zero bytes, then the counter
/// little-endian.
pub open spec fn spec_nonce(counter: u64) -> Seq<u8> {
    Seq::new(12, |i: int| if i < 4 { 0u8 } else { ((counter >> (8 * (i - 4)) as u64) & 0xFF) as u8 })
}

pub fn nonce(counter: u64) -> (r: [u8; 12])
    ensures
        r@ == spec_nonce(counter),
{
    let mut n = [0u8; 12];
    let mut i: usize = 0;
    while i < 8
        invariant
            i <= 8,
            n@.len() == 12,
            forall|k: int| 0 <= k < 4 ==> n@[k] == 0u8,
            forall|k: int| 4 <= k < 4 + i ==> n@[k] == spec_nonce(counter)[k],
            forall|k: int| 4 + i <= k < 12 ==> n@[k] == 0u8,
        decreases 8 - i,
    {
        n[4 + i] = ((counter >> (8 * i) as u64) & 0xFF) as u8;
        i = i + 1;
    }
    assert(n@ =~= spec_nonce(counter));
    n
}

/// Compares two byte strings without an early exit.
pub fn constant_time_eq(a: &[u8], b: &[u8]) -> (r: bool)
    ensures
        r == (a@ == b@),
{
    if a.len() != b.len() {
        return false;
    }
    let mut diff: u8 = 0;
    let mut i: usize = 0;
    while i < a.len()
        invariant
            i <= a.len() == b.len(),
            (diff == 0) == (forall|k: int| 0 <= k < i ==> a@[k] == b@[k]),
        decreases a.len() - i,
    {
        let x = a[i];
        let y = b[i];
        assert(((diff | (x ^ y)) == 0) == (diff == 0 && x == y)) by (bit_vector);
        diff = diff | (x ^ y);
        i = i + 1;
    }
    assert(diff == 0 ==> a@ =~= b@);
    diff == 0
}

// ───────────────────────────────────────────────────────────────────────
// KEYS

/// Sending key with its message counter.
pub struct EncryptionKey {
    key: Key,
    counter: u64,
}

impl EncryptionKey {
    pub closed spec fn key(&self) -> Seq<u8> {
        self.key@
    }

    pub closed spec fn spec_counter(&self) -> u64 {
        self.counter
    }

    pub fn new(key: Key) -> (r: Self)
        ensures
            r.key() == key@,
            r.spec_counter() == 0,
    {
        EncryptionKey { key, counter: 0 }
    }

    /// Encrypts `payload` in place under the next counter and returns the
    /// tag.
    pub fn encrypt(&mut self, payload: &mut [u8]) -> (r: Tag)
        requires
            old(self).spec_counter() < u64::MAX,
            aead_len_ok(old(payload)@.len()),
        ensures
            final(self).key() == old(self).key(),
            final(self).spec_counter() == old(self).spec_counter() + 1,
            final(payload)@.len() == old(payload)@.len(),
            final(payload)@ == chacha_seal(old(self).key(), spec_nonce(old(self).spec_counter()), seq![], old(payload)@),
            r.0@ == chacha_tag(old(self).key(), spec_nonce(old(self).spec_counter()), seq![], old(payload)@),
    {
        let n = self.counter;
        self.counter = self.counter + 1;
        let nonce = nonce(n);
        let mut tag = [0u8; 16];
        let empty: [u8; 0] = [];
        assert(empty@ =~= Seq::<u8>::empty());
        Core::chacha20poly1305_enc(&self.key, &nonce, &empty, payload, &mut tag);
        Tag(tag)
    }

    pub fn counter(&self) -> (r: u64)
        ensures
            r == self.spec_counter(),
    {
        self.counter
    }
}

/// Receiving key with its replay window.
pub struct DecryptionKey {
    key: Key,
    replay: AntiReplay,
}

impl DecryptionKey {
    pub closed spec fn key(&self) -> Seq<u8> {
        self.key@
    }

    pub closed spec fn replay(&self) -> AntiReplay {
        self.replay
    }

    pub fn new(key: Key) -> (r: Self)
        ensures
            r.key() == key@,
            r.replay().wf(),
            r.replay().last() == 0,
            forall|n: u64| !r.replay().seen(n),
    {
        DecryptionKey { key, replay: AntiReplay::default() }
    }

    /// Authenticates and decrypts `payload_and_tag` (the last 16 bytes are
    /// the tag) sent under `counter`. On success the plaintext fills the
    /// front of the buffer, its length is returned and the counter is
    /// marked; a counter the window rejects gives `Rejected`, a bad tag
    /// `DecryptionError`, and in both cases nothing changes.
    pub fn decrypt(&mut self, counter: u64, payload_and_tag: &mut [u8]) -> (r: Result<usize, CryptoError>)
        requires
            old(self).replay().wf(),
            old(payload_and_tag)@.len() >= 16,
        ensures
            final(self).key() == old(self).key(),
            final(payload_and_tag)@.len() == old(payload_and_tag)@.len(),
            settled(old(self).replay()) ==> settled(final(self).replay()),
            ({
                let len = old(payload_and_tag)@.len() - 16;
                let ct = old(payload_and_tag)@.subrange(0, len);
                let tag = old(payload_and_tag)@.subrange(len, len + 16);
                let opened = chacha_open(old(self).key(), spec_nonce(counter), seq![], ct, tag);
                &&& !old(self).replay().accepts(counter) ==> r == Err::<usize, CryptoError>(CryptoError::Rejected)
                &&& old(self).replay().accepts(counter) && opened is None ==> r == Err::<usize, CryptoError>(
                    CryptoError::DecryptionError,
                )
                &&& r is Err ==> *final(self) == *old(self) && final(payload_and_tag)@ == old(payload_and_tag)@
                &&& old(self).replay().accepts(counter) && opened is Some ==> {
                    &&& r == Ok::<usize, CryptoError>(len as usize)
                    &&& final(payload_and_tag)@.subrange(0, len) == opened->Some_0
                    &&& final(payload_and_tag)@.subrange(len, len + 16) == tag
                    &&& marked(old(self).replay(), final(self).replay(), counter)
                }
                &&& forall|p: Seq<u8>|
                    aead_len_ok(p.len()) && old(self).replay().accepts(counter) && ct == #[trigger] chacha_seal(
                        old(self).key(),
                        spec_nonce(counter),
                        seq![],
                        p,
                    ) && tag == chacha_tag(old(self).key(), spec_nonce(counter), seq![], p) ==> r == Ok::<
                        usize,
                        CryptoError,
                    >(len as usize) && final(payload_and_tag)@.subrange(0, len) == p
            }),
    {
        if !self.replay.would_accept(counter) {
            return Err(CryptoError::Rejected);
        }
        let nonce = nonce(counter);
        let len = payload_and_tag.len() - 16;
        let ghost before = payload_and_tag@;
        let (payload, tag_bytes) = payload_and_tag.split_at_mut(len);
        let mut tag = [0u8; 16];
        let mut i: usize = 0;
        while i < 16
            invariant
                i <= 16,
                tag_bytes@.len() == 16,
                tag@.len() == 16,
                forall|k: int| 0 <= k < i ==> tag@[k] == tag_bytes@[k],
            decreases 16 - i,
        {
            tag[i] = tag_bytes[i];
            i = i + 1;
        }
        assert(tag@ =~= tag_bytes@);
        let empty: [u8; 0] = [];
        assert(empty@ =~= Seq::<u8>::empty());
        let res = Core::chacha20poly1305_dec(&self.key, &nonce, &empty, payload, &tag);
        proof {
            assert(payload_and_tag@ == payload@ + tag_bytes@);
            assert(payload_and_tag@.subrange(0, len as int) =~= payload@);
            assert(payload_and_tag@.subrange(len as int, len + 16) =~= tag_bytes@);
        }
        match res {
            Ok(()) => {
                let ghost before = self.replay;
                self.replay.mark_seen(counter);
                proof {
                    if settled(before) {
                        lemma_mark_keeps_settled(before, self.replay, counter);
                    }
                }
                Ok(len)
            },
            Err(e) => Err(e),
        }
    }
}

// ───────────────────────────────────────────────────────────────────────
// FRAMING

/// Length of a framed payload: two length bytes plus the payload, rounded
/// up to a multiple of 16.
pub open spec fn padded_len(len: nat) -> nat {
    ((len + 2 + 15) / 16 * 16) as nat
}

/// Writes `raw` into `out` as a big-endian `u16` length, the bytes, and
/// zero padding to a multiple of 16; returns the padded length. Bytes of
/// `out` past it are left as they were.
pub fn frame_payload(raw: &[u8], out: &mut [u8]) -> (r: usize)
    requires
        raw@.len() <= 0xFFFF,
        old(out)@.len() >= padded_len(raw@.len()),
    ensures
        r == padded_len(raw@.len()),
        final(out)@.len() == old(out)@.len(),
        final(out)@[0] == (raw@.len() / 256) as u8,
        final(out)@[1] == (raw@.len() % 256) as u8,
        final(out)@.subrange(2, 2 + raw@.len() as int) == raw@,
        forall|k: int| 2 + raw@.len() <= k < r ==> final(out)@[k] == 0u8,
        forall|k: int| r <= k < old(out)@.len() ==> final(out)@[k] == old(out)@[k],
{
    let len = raw.len();
    let l16 = len as u16;
    out[0] = (l16 >> 8u16) as u8;
    out[1] = (l16 & 0xFF) as u8;
    assert(l16 >> 8u16 == l16 / 256 && l16 & 0xFF == l16 % 256) by (bit_vector);
    let mut i: usize = 0;
    while i < len
        invariant
            i <= len == raw@.len() <= 0xFFFF,
            out@.len() == old(out)@.len() >= padded_len(len as nat),
            out@[0] == (len / 256) as u8,
            out@[1] == (len % 256) as u8,
            forall|k: int| 0 <= k < i ==> out@[2 + k] == raw@[k],
            forall|k: int| 2 + i <= k < out@.len() ==> out@[k] == old(out)@[k],
        decreases len - i,
    {
        out[2 + i] = raw[i];
        i = i + 1;
    }
    let total = len + 2;
    let t15: usize = total + 15;
    let padded = t15 & !15usize;
    assert((t15 & !15usize) == t15 / 16 * 16) by (bit_vector)
        requires
            t15 < 0x10020,
    ;
    let mut j = total;
    while j < padded
        invariant
            total <= j <= padded,
            padded == padded_len(len as nat),
            total == len + 2,
            len == raw@.len() <= 0xFFFF,
            out@.len() == old(out)@.len() >= padded,
            out@[0] == (len / 256) as u8,
            out@[1] == (len % 256) as u8,
            forall|k: int| 0 <= k < len ==> out@[2 + k] == raw@[k],
            forall|k: int| total <= k < j ==> out@[k] == 0u8,
            forall|k: int| j <= k < out@.len() ==> out@[k] == old(out)@[k],
        decreases padded - j,
    {
        out[j] = 0;
        j = j + 1;
    }
    assert(out@.subrange(2, 2 + raw@.len() as int) =~= raw@);
    padded
}

/// The payload of a framed buffer: the bytes after the two-byte length,
/// `None` when the buffer is too short for its length field.
pub fn unframe_payload(padded: &[u8]) -> (r: Option<&[u8]>)
    ensures
        padded@.len() < 2 ==> r is None,
        padded@.len() >= 2 ==> ({
            let len = padded@[0] as int * 256 + padded@[1] as int;
            &&& padded@.len() < 2 + len ==> r is None
            &&& padded@.len() >= 2 + len ==> r is Some && r->Some_0@ == padded@.subrange(2, 2 + len)
        }),
{
    if padded.len() < 2 {
        return None;
    }
    let len = (padded[0] as usize) * 256 + padded[1] as usize;
    if padded.len() < 2 + len {
        return None;
    }
    Some(&padded[2..2 + len])
}

/// Unframing a framed payload gives it back.
pub proof fn lemma_frame_roundtrip(raw: Seq<u8>, out: Seq<u8>)
    requires
        raw.len() <= 0xFFFF,
        out.len() >= padded_len(raw.len()),
        out[0] == (raw.len() / 256) as u8,
        out[1] == (raw.len() % 256) as u8,
        out.subrange(2, 2 + raw.len() as int) == raw,
    ensures
        out[0] as int * 256 + out[1] as int == raw.len(),
        out.len() >= 2 + raw.len(),
{
}

} // verus!
