//! Sliding-window replay protection for transport counters (RFC 6479).
//!
//! The window is a ring of 32 words of 64 bits. Word `w` of counter space
//! (counters `64 * w .. 64 * w + 63`) lives in slot `w % 32`; when the
//! highest counter moves forward the slots of the words it passes are
//! cleared.

use vstd::prelude::*;

verus! {

/// Bits per bitmap word.
pub const SIZE_OF_WORD: u64 = 64;
/// `log2(SIZE_OF_WORD)`: counter to word index.
pub const REDUNDANT_BIT_SHIFTS: u64 = 6;
/// Bits in the whole bitmap.
pub const BITMAP_BITLEN: u64 = 2048;
/// Words in the bitmap.
pub const BITMAP_LEN: usize = 32;
pub const BITMAP_INDEX_MASK: u64 = 31;
pub const BITMAP_LOC_MASK: u64 = 63;
/// Counters more than this far below the highest one are always rejected.
pub const WINDOW_SIZE: u64 = 1984;

/// Replay window: the highest counter seen and a bitmap of recent ones.
pub struct AntiReplay {
    bitmap: [u64; 32],
    last: u64,
}

/// Word of counter space that holds counter `n`.
pub open spec fn word_of(n: u64) -> int {
    n as int / 64
}

/// Bitmap slot of counter `n`.
pub open spec fn slot_of(n: u64) -> int {
    word_of(n) % 32
}

/// Bit `b` of `w` is set.
pub open spec fn has_bit(w: u64, b: u64) -> bool {
    (w >> b) & 1 == 1
}

/// Slot `s` is cleared when the highest counter moves from `last` to
/// `n`: it is the slot of one of the words `word_of(last) + 1 ..=
/// word_of(n)` (all of them once 32 or more words are passed).
pub open spec fn slot_cleared(last: u64, n: u64, s: int) -> bool {
    let nx = word_of(last) + 1;
    let wn = word_of(n);
    &&& n > last
    &&& wn >= nx
    &&& (wn - nx >= 31 || (s - nx) % 32 <= wn - nx)
}

/// `m` and `n` use the same bit of the bitmap.
pub open spec fn shares_bit(m: u64, n: u64) -> bool {
    slot_of(m) == slot_of(n) && m % 64 == n % 64
}

/// `b` is `a` after `a.mark_seen(n)`: the highest counter is raised to
/// `n`, the bit of `n` is set, and every other counter keeps its bit
/// unless its slot was cleared (or it shares `n`'s bit).
pub open spec fn marked(a: AntiReplay, b: AntiReplay, n: u64) -> bool {
    &&& b.wf()
    &&& b.last() == (if n > a.last() { n } else { a.last() })
    &&& b.seen(n)
    &&& forall|m: u64|
        m != n ==> #[trigger] b.seen(m) == (shares_bit(m, n) || (a.seen(m) && !slot_cleared(a.last(), n, slot_of(m))))
}

impl AntiReplay {
    /// Highest counter marked so far (0 initially).
    pub closed spec fn last(&self) -> u64 {
        self.last
    }

    /// Raw bitmap words.
    pub closed spec fn words(&self) -> Seq<u64> {
        self.bitmap@
    }

    /// The bit of counter `n` is set.
    pub open spec fn seen(&self, n: u64) -> bool {
        has_bit(self.words()[slot_of(n)], n % 64)
    }

    /// `n` passes the window check.
    pub open spec fn accepts(&self, n: u64) -> bool {
        n > self.last() || (self.last() - n < WINDOW_SIZE && !self.seen(n))
    }

    pub open spec fn wf(&self) -> bool {
        self.words().len() == 32
    }

    /// An empty window.
    pub fn default() -> (r: Self)
        ensures
            r.wf(),
            r.last() == 0,
            forall|n: u64| !r.seen(n),
    {
        let r = AntiReplay { bitmap: [0u64; 32], last: 0 };
        assert forall|n: u64| !r.seen(n) by {
            let b = n % 64;
            assert(((0u64 >> b) & 1) == 0) by (bit_vector);
        }
        r
    }

    /// Whether counter `n` would be accepted.
    pub fn would_accept(&self, n: u64) -> (r: bool)
        requires
            self.wf(),
        ensures
            r == self.accepts(n),
    {
        if n > self.last {
            return true;
        }
        let d = self.last - n;
        if d >= WINDOW_SIZE {
            return false;
        }
        let index = n >> REDUNDANT_BIT_SHIFTS;
        let shift = n & BITMAP_LOC_MASK;
        assert(n >> 6u64 == n / 64 && n & 63u64 == n % 64) by (bit_vector);
        assert((index & 31u64) == index % 32) by (bit_vector);
        let w = self.bitmap[(index & BITMAP_INDEX_MASK) as usize];
        assert(((w >> shift) & 1 == 0) == !((w >> shift) & 1 == 1)) by (bit_vector);
        (w >> shift) & 1 == 0
    }

    /// Records counter `n`, moving the window forward when `n` is the new
    /// highest counter.
    pub fn mark_seen(&mut self, n: u64)
        requires
            old(self).wf(),
        ensures
            marked(*old(self), *final(self), n),
    {
        let index = n >> REDUNDANT_BIT_SHIFTS;
        let shift = n & BITMAP_LOC_MASK;
        assert(n >> 6u64 == n / 64 && n & 63u64 == n % 64) by (bit_vector);
        let ghost old_words = self.bitmap@;
        let ghost old_last = self.last;
        if n > self.last {
            let l = self.last;
            let last_word = l >> REDUNDANT_BIT_SHIFTS;
            assert(l >> 6u64 == l / 64) by (bit_vector);
            let next_index = last_word + 1;
            if index > next_index && index - next_index > 32 {
                self.bitmap = [0u64; 32];
                assert forall|s: int| 0 <= s < 32 implies slot_cleared(self.last, n, s) by {}
            } else {
                let mut i = next_index;
                while i <= index
                    invariant
                        next_index <= i <= index + 1,
                        index == n / 64,
                        index - next_index <= 32 || index < next_index,
                        self.bitmap@.len() == 32,
                        forall|s: int|
                            0 <= s < 32 ==> #[trigger] self.bitmap@[s] == (if i - next_index >= 32 || (s
                                - next_index) % 32 < i - next_index {
                                0u64
                            } else {
                                old_words[s]
                            }),
                    decreases index + 1 - i,
                {
                    assert((i & 31u64) == i % 32) by (bit_vector);
                    self.bitmap[(i & BITMAP_INDEX_MASK) as usize] = 0;
                    i = i + 1;
                }
            }
            self.last = n;
        }
        proof {
            assert forall|s: int| 0 <= s < 32 implies #[trigger] self.bitmap@[s] == (if slot_cleared(old_last, n, s) {
                0u64
            } else {
                old_words[s]
            }) by {}
        }
        let slot = (index & BITMAP_INDEX_MASK) as usize;
        assert((index & 31u64) == index % 32) by (bit_vector);
        let ghost before = self.bitmap@;
        self.bitmap[slot] = self.bitmap[slot] | (1u64 << shift);
        proof {
            let w = before[slot as int];
            assert(shift < 64);
            assert(has_bit(w | (1u64 << shift), shift)) by (bit_vector)
                requires
                    shift < 64,
            ;
            assert forall|m: u64| m != n implies #[trigger] self.seen(m) == (shares_bit(m, n) || (old(self).seen(m)
                && !slot_cleared(old(self).last, n, slot_of(m)))) by {
                let b = m % 64;
                assert(!has_bit(0u64, b)) by (bit_vector);
                if slot_of(m) == slot as int && b != shift {
                    assert(has_bit(w | (1u64 << shift), b) == has_bit(w, b)) by (bit_vector)
                        requires
                            shift < 64,
                            b < 64,
                            b != shift,
                    ;
                }
            }
        }
    }
}

/// No counter above the highest marked one has its bit set in the
/// highest one's word. Every window built from the empty one by marking
/// counters inside the window has this shape.
pub open spec fn settled(a: AntiReplay) -> bool {
    forall|m: u64| m > a.last() && word_of(m) == word_of(a.last()) ==> !#[trigger] a.seen(m)
}

/// The empty window is settled.
pub proof fn lemma_default_settled(a: AntiReplay)
    requires
        forall|n: u64| !a.seen(n),
    ensures
        settled(a),
{
}

/// Marking a counter inside the window keeps the window settled.
pub proof fn lemma_mark_keeps_settled(a: AntiReplay, b: AntiReplay, n: u64)
    requires
        a.wf(),
        settled(a),
        marked(a, b, n),
        n + WINDOW_SIZE > a.last(),
    ensures
        settled(b),
{
    assert forall|m: u64| m > b.last() && word_of(m) == word_of(b.last()) implies !#[trigger] b.seen(m) by {
        assert(m != n);
        if n > a.last() && word_of(n) == word_of(a.last()) {
            assert(!a.seen(m));
        }
    }
}

/// Marking a counter inside the window changes the verdict on no other
/// counter inside the new window: one above the old highest counter was
/// accepted and stays so, one below keeps its bit.
pub proof fn lemma_mark_keeps_verdicts(a: AntiReplay, b: AntiReplay, n: u64, m: u64)
    requires
        a.wf(),
        settled(a),
        marked(a, b, n),
        n + WINDOW_SIZE > a.last(),
        m != n,
        m + WINDOW_SIZE > b.last(),
    ensures
        b.accepts(m) == a.accepts(m),
{
    if n > a.last() && m < n {
        let nx = word_of(a.last()) + 1;
        let wn = word_of(n);
        let wm = word_of(m);
        assert(!shares_bit(m, n));
        if m > a.last() {
            if wm == word_of(a.last()) {
                assert(!a.seen(m));
            } else {
                assert(slot_cleared(a.last(), n, slot_of(m)));
            }
        } else {
            assert(wm < nx);
            assert(wn - wm <= 31);
            assert((slot_of(m) - nx) % 32 == 32 - (nx - wm));
            assert(!slot_cleared(a.last(), n, slot_of(m)));
        }
    }
}

/// A counter that has been marked is rejected from then on.
pub proof fn lemma_marked_rejected(a: AntiReplay, b: AntiReplay, n: u64)
    requires
        a.wf(),
        marked(a, b, n),
    ensures
        !b.accepts(n),
{
}

/// The window never forgets: marking any counter keeps every rejected
/// counter rejected.
pub proof fn lemma_rejection_persists(a: AntiReplay, b: AntiReplay, n: u64, m: u64)
    requires
        a.wf(),
        marked(a, b, n),
        !a.accepts(m),
    ensures
        !b.accepts(m),
{
    if m != n && a.last() - m < WINDOW_SIZE && n > a.last() && n - m < WINDOW_SIZE {
        let nx = word_of(a.last()) + 1;
        let wn = word_of(n);
        let wm = word_of(m);
        assert(wm < nx);
        assert(wn - wm <= 31);
        assert((slot_of(m) - nx) % 32 == 32 - (nx - wm));
        assert(!slot_cleared(a.last(), n, slot_of(m)));
    }
}

/// A counter above every marked one is always accepted.
pub proof fn lemma_fresh_accepted(a: AntiReplay, n: u64)
    requires
        n > a.last(),
    ensures
        a.accepts(n),
{
}

} // verus!
