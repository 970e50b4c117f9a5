//! Small byte-level text helpers shared by the configuration and shell
//! parsers: ASCII trimming, case-insensitive comparison, searching and
//! decimal numbers. Every helper works on a window `[a, b)` of a byte
//! string, so that parsers can describe their results by positions.

use vstd::prelude::*;
use vstd::string::StringSliceAdditionalSpecFns;

verus! {

/// ASCII white space, as `u8::is_ascii_whitespace` plus vertical tab.
pub open spec fn is_space(c: u8) -> bool {
    c == 32 || (9 <= c && c <= 13)
}

/// First position of `[a, b)` that is not white space (`b` when there is
/// none).
pub open spec fn trim_start_at(s: Seq<u8>, a: int, b: int) -> int
    decreases b - a,
{
    if a < b && is_space(s[a]) {
        trim_start_at(s, a + 1, b)
    } else {
        a
    }
}

/// End of `[a, b)` once trailing white space is dropped.
pub open spec fn trim_end_at(s: Seq<u8>, a: int, b: int) -> int
    decreases b - a,
{
    if a < b && is_space(s[b - 1]) {
        trim_end_at(s, a, b - 1)
    } else {
        b
    }
}

/// The window `[a, b)` with white space trimmed at both ends.
pub open spec fn trimmed(s: Seq<u8>, a: int, b: int) -> (int, int) {
    let t = trim_start_at(s, a, b);
    (t, trim_end_at(s, t, b))
}

/// `c` in lower case, for ASCII letters.
pub open spec fn lower_byte(c: u8) -> u8 {
    if 65 <= c && c <= 90 {
        (c + 32) as u8
    } else {
        c
    }
}

/// The window `[a, b)` spells `word` once lowered.
pub open spec fn lower_eq(s: Seq<u8>, a: int, b: int, word: Seq<u8>) -> bool {
    &&& b - a == word.len()
    &&& forall|i: int| 0 <= i < word.len() ==> lower_byte(#[trigger] s[a + i]) == word[i]
}

/// First position of `c` in `[a, b)`.
pub open spec fn find_first_at(s: Seq<u8>, a: int, b: int, c: u8) -> Option<int>
    decreases b - a,
{
    if a >= b {
        None
    } else if s[a] == c {
        Some(a)
    } else {
        find_first_at(s, a + 1, b, c)
    }
}

/// Last position of `c` in `[a, b)`.
pub open spec fn find_last_at(s: Seq<u8>, a: int, b: int, c: u8) -> Option<int>
    decreases b - a,
{
    if a >= b {
        None
    } else if s[b - 1] == c {
        Some(b - 1)
    } else {
        find_last_at(s, a, b - 1, c)
    }
}

pub open spec fn is_digit(c: u8) -> bool {
    48 <= c && c <= 57
}

pub open spec fn all_digits_at(s: Seq<u8>, a: int, b: int) -> bool {
    forall|i: int| a <= i < b ==> is_digit(#[trigger] s[i])
}

/// The decimal number written in `[a, b)`.
pub open spec fn dec_value_at(s: Seq<u8>, a: int, b: int) -> nat
    decreases b - a,
{
    if b <= a {
        0
    } else {
        dec_value_at(s, a, b - 1) * 10 + (s[b - 1] - 48) as nat
    }
}

/// What `str::parse` gives for an unsigned type whose largest value is
/// `max`: an optional `+`, then at least one digit and nothing else, of
/// value at most `max`.
pub open spec fn parse_uint_at(s: Seq<u8>, a: int, b: int, max: nat) -> Option<nat> {
    let d = if a < b && s[a] == 43 {
        a + 1
    } else {
        a
    };
    if d < b && all_digits_at(s, d, b) && dec_value_at(s, d, b) <= max {
        Some(dec_value_at(s, d, b))
    } else {
        None
    }
}

/// Trims the window `[a, b)` of `s`.
pub fn trim_window(s: &[u8], a: usize, b: usize) -> (r: (usize, usize))
    requires
        a <= b <= s@.len(),
    ensures
        r.0 == trimmed(s@, a as int, b as int).0,
        r.1 == trimmed(s@, a as int, b as int).1,
        a <= r.0 <= r.1 <= b,
{
    let mut i = a;
    while i < b && (s[i] == 32 || (9 <= s[i] && s[i] <= 13))
        invariant
            a <= i <= b <= s@.len(),
            trim_start_at(s@, a as int, b as int) == trim_start_at(s@, i as int, b as int),
        decreases b - i,
    {
        i = i + 1;
    }
    let mut j = b;
    while j > i && (s[j - 1] == 32 || (9 <= s[j - 1] && s[j - 1] <= 13))
        invariant
            a <= i <= j <= b <= s@.len(),
            trim_start_at(s@, a as int, b as int) == i,
            trim_end_at(s@, i as int, b as int) == trim_end_at(s@, i as int, j as int),
        decreases j - i,
    {
        j = j - 1;
    }
    (i, j)
}

/// Lowers the window `[a, b)` and compares it with `word`.
pub fn window_lower_eq(s: &[u8], a: usize, b: usize, word: &[u8]) -> (r: bool)
    requires
        a <= b <= s@.len(),
    ensures
        r == lower_eq(s@, a as int, b as int, word@),
{
    if b - a != word.len() {
        return false;
    }
    let mut i: usize = 0;
    while i < word.len()
        invariant
            a <= b <= s@.len(),
            b - a == word@.len(),
            i <= word@.len(),
            forall|k: int| 0 <= k < i ==> lower_byte(#[trigger] s@[a + k]) == word@[k],
        decreases word.len() - i,
    {
        let c = s[a + i];
        let l = if 65 <= c && c <= 90 {
            c + 32
        } else {
            c
        };
        if l != word[i] {
            return false;
        }
        i = i + 1;
    }
    true
}

/// First position of `c` in `[a, b)`.
pub fn find_first(s: &[u8], a: usize, b: usize, c: u8) -> (r: Option<usize>)
    requires
        a <= b <= s@.len(),
    ensures
        match find_first_at(s@, a as int, b as int, c) {
            Some(k) => r == Some(k as usize),
            None => r is None,
        },
{
    let mut i = a;
    while i < b
        invariant
            a <= i <= b <= s@.len(),
            find_first_at(s@, a as int, b as int, c) == find_first_at(s@, i as int, b as int, c),
        decreases b - i,
    {
        if s[i] == c {
            return Some(i);
        }
        i = i + 1;
    }
    None
}

/// Last position of `c` in `[a, b)`.
pub fn find_last(s: &[u8], a: usize, b: usize, c: u8) -> (r: Option<usize>)
    requires
        a <= b <= s@.len(),
    ensures
        match find_last_at(s@, a as int, b as int, c) {
            Some(k) => r == Some(k as usize),
            None => r is None,
        },
{
    let mut j = b;
    while j > a
        invariant
            a <= j <= b <= s@.len(),
            find_last_at(s@, a as int, b as int, c) == find_last_at(s@, a as int, j as int, c),
        decreases j - a,
    {
        if s[j - 1] == c {
            return Some(j - 1);
        }
        j = j - 1;
    }
    None
}

/// Parses the window `[a, b)` as an unsigned decimal number no larger
/// than `max`, as `str::parse` does.
pub fn parse_uint(s: &[u8], a: usize, b: usize, max: u32) -> (r: Option<u32>)
    requires
        a <= b <= s@.len(),
        max < 0x1000_0000,
    ensures
        match parse_uint_at(s@, a as int, b as int, max as nat) {
            Some(v) => r == Some(v as u32),
            None => r is None,
        },
{
    let d = if a < b && s[a] == 43 {
        a + 1
    } else {
        a
    };
    if d >= b {
        return None;
    }
    let mut i = d;
    // The value read so far, held at `max + 1` once it passes `max`.
    let mut acc: u32 = 0;
    while i < b
        invariant
            d <= i <= b <= s@.len(),
            d == (if a < b && s@[a as int] == 43 { a + 1 } else { a as int }),
            max < 0x1000_0000,
            all_digits_at(s@, d as int, i as int),
            acc <= max + 1,
            acc <= max ==> acc == dec_value_at(s@, d as int, i as int),
            acc > max ==> dec_value_at(s@, d as int, i as int) > max,
        decreases b - i,
    {
        let c = s[i];
        if c < 48 || c > 57 {
            assert(!all_digits_at(s@, d as int, b as int));
            return None;
        }
        let ghost prev = dec_value_at(s@, d as int, i as int);
        assert(dec_value_at(s@, d as int, i + 1) == prev * 10 + (c - 48) as nat);
        if acc <= max {
            let next = acc * 10 + (c - 48) as u32;
            acc = if next > max {
                max + 1
            } else {
                next
            };
        } else {
            assert(prev * 10 + (c - 48) as nat > max) by (nonlinear_arith)
                requires
                    prev > max,
            ;
        }
        i = i + 1;
    }
    if acc > max {
        None
    } else {
        Some(acc)
    }
}

/// Value of a hexadecimal digit of either case.
pub open spec fn hex_val(c: u8) -> u8 {
    if 48 <= c && c <= 57 {
        (c - 48) as u8
    } else if 97 <= c && c <= 102 {
        (c - 87) as u8
    } else {
        (c - 55) as u8
    }
}

pub open spec fn is_hex_digit(c: u8) -> bool {
    (48 <= c && c <= 57) || (97 <= c && c <= 102) || (65 <= c && c <= 70)
}

fn hex_digit(b: u8) -> (r: u8)
    requires
        is_hex_digit(b),
    ensures
        r == hex_val(b),
        r < 16,
{
    if 48 <= b && b <= 57 {
        b - 48
    } else if 97 <= b && b <= 102 {
        b - 87
    } else {
        b - 55
    }
}

/// Reads `N` bytes written as `2 * N` hexadecimal digits, high digit
/// first.
pub fn hex_to_bytes<const N: usize>(hex: &str) -> (r: [u8; N])
    requires
        hex.spec_bytes().len() == 2 * N,
        forall|i: int| 0 <= i < 2 * N ==> is_hex_digit(#[trigger] hex.spec_bytes()[i]),
    ensures
        forall|i: int|
            0 <= i < N ==> r[i] == hex_val(hex.spec_bytes()[2 * i]) * 16 + hex_val(hex.spec_bytes()[2 * i + 1]),
{
    let bytes = hex.as_bytes();
    let n = bytes.len();
    let mut out = [0u8; N];
    let mut i: usize = 0;
    while i < N
        invariant
            bytes@ == hex.spec_bytes(),
            bytes@.len() == 2 * N,
            n == 2 * N,
            forall|k: int| 0 <= k < 2 * N ==> is_hex_digit(#[trigger] bytes@[k]),
            i <= N,
            forall|k: int| 0 <= k < i ==> out[k] == hex_val(bytes@[2 * k]) * 16 + hex_val(bytes@[2 * k + 1]),
        decreases N - i,
    {
        let hi = hex_digit(bytes[2 * i]);
        let lo = hex_digit(bytes[2 * i + 1]);
        assert((hi << 4u8) | lo == hi * 16 + lo) by (bit_vector)
            requires
                hi < 16,
                lo < 16,
        ;
        out[i] = (hi << 4u8) | lo;
        i = i + 1;
    }
    out
}

} // verus!
