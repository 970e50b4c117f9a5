//! Reading a `wg-quick` style configuration file: the `[Interface]` and
//! `[Peer]` sections, and the base64 keys in them.

use vstd::prelude::*;

use super::bytes::push_all;
use crate::text::{
    find_first, find_first_at, find_last, find_last_at, parse_uint, parse_uint_at, trimmed,
};

verus! {

/// `"interface"`.
pub const WORD_INTERFACE: [u8; 9] = [105, 110, 116, 101, 114, 102, 97, 99, 101];
/// `"peer"`.
pub const WORD_PEER: [u8; 4] = [112, 101, 101, 114];
/// `"privatekey"`.
pub const WORD_PRIVATE_KEY: [u8; 10] = [112, 114, 105, 118, 97, 116, 101, 107, 101, 121];
/// `"address"`.
pub const WORD_ADDRESS: [u8; 7] = [97, 100, 100, 114, 101, 115, 115];
/// `"dns"`.
pub const WORD_DNS: [u8; 3] = [100, 110, 115];
/// `"publickey"`.
pub const WORD_PUBLIC_KEY: [u8; 9] = [112, 117, 98, 108, 105, 99, 107, 101, 121];
/// `"endpoint"`.
pub const WORD_ENDPOINT: [u8; 8] = [101, 110, 100, 112, 111, 105, 110, 116];
/// `"persistentkeepalive"`.
pub const WORD_KEEPALIVE: [u8; 19] = [
    112, 101, 114, 115, 105, 115, 116, 101, 110, 116, 107, 101, 101, 112, 97, 108, 105, 118, 101,
];

// ───────────────────────────────────────────────────────────────────────
// TEXT AS `str` SEES IT

/// A continuation byte of UTF-8.
pub open spec fn cont(c: u8) -> bool {
    0x80 <= c <= 0xBF
}

/// The length of the well-formed UTF-8 character at `i` (the table of
/// the Unicode standard), 0 when none starts there.
pub open spec fn utf8_char_len(s: Seq<u8>, i: int) -> int {
    let n = s.len();
    let b0 = s[i];
    if b0 < 0x80 {
        1
    } else if 0xC2 <= b0 <= 0xDF {
        if i + 1 < n && cont(s[i + 1]) { 2 } else { 0 }
    } else if b0 == 0xE0 {
        if n - i > 2 && 0xA0 <= s[i + 1] <= 0xBF && cont(s[i + 2]) { 3 } else { 0 }
    } else if (0xE1 <= b0 <= 0xEC) || b0 == 0xEE || b0 == 0xEF {
        if n - i > 2 && cont(s[i + 1]) && cont(s[i + 2]) { 3 } else { 0 }
    } else if b0 == 0xED {
        if n - i > 2 && 0x80 <= s[i + 1] <= 0x9F && cont(s[i + 2]) { 3 } else { 0 }
    } else if b0 == 0xF0 {
        if n - i > 3 && 0x90 <= s[i + 1] <= 0xBF && cont(s[i + 2]) && cont(s[i + 3]) { 4 } else { 0 }
    } else if 0xF1 <= b0 <= 0xF3 {
        if n - i > 3 && cont(s[i + 1]) && cont(s[i + 2]) && cont(s[i + 3]) { 4 } else { 0 }
    } else if b0 == 0xF4 {
        if n - i > 3 && 0x80 <= s[i + 1] <= 0x8F && cont(s[i + 2]) && cont(s[i + 3]) { 4 } else { 0 }
    } else {
        0
    }
}

/// The bytes from `i` on are well-formed UTF-8.
pub open spec fn utf8_from(s: Seq<u8>, i: int) -> bool
    decreases s.len() - i,
{
    if i < 0 || i >= s.len() {
        true
    } else {
        let k = utf8_char_len(s, i);
        k > 0 && utf8_from(s, i + k)
    }
}

/// `s` is well-formed UTF-8 (what `str::from_utf8` accepts).
pub open spec fn valid_utf8(s: Seq<u8>) -> bool {
    utf8_from(s, 0)
}

fn char_len_at(s: &[u8], i: usize) -> (r: usize)
    requires
        i < s@.len(),
    ensures
        r == utf8_char_len(s@, i as int),
{
    let n = s.len();
    let b0 = s[i];
    if b0 < 0x80 {
        1
    } else if 0xC2 <= b0 && b0 <= 0xDF {
        if n - i > 1 && 0x80 <= s[i + 1] && s[i + 1] <= 0xBF { 2 } else { 0 }
    } else if b0 == 0xE0 {
        if n - i > 2 && 0xA0 <= s[i + 1] && s[i + 1] <= 0xBF && 0x80 <= s[i + 2] && s[i + 2] <= 0xBF { 3 } else { 0 }
    } else if (0xE1 <= b0 && b0 <= 0xEC) || b0 == 0xEE || b0 == 0xEF {
        if n - i > 2 && 0x80 <= s[i + 1] && s[i + 1] <= 0xBF && 0x80 <= s[i + 2] && s[i + 2] <= 0xBF { 3 } else { 0 }
    } else if b0 == 0xED {
        if n - i > 2 && 0x80 <= s[i + 1] && s[i + 1] <= 0x9F && 0x80 <= s[i + 2] && s[i + 2] <= 0xBF { 3 } else { 0 }
    } else if b0 == 0xF0 {
        if n - i > 3 && 0x90 <= s[i + 1] && s[i + 1] <= 0xBF && 0x80 <= s[i + 2] && s[i + 2] <= 0xBF && 0x80
            <= s[i + 3] && s[i + 3] <= 0xBF {
            4
        } else {
            0
        }
    } else if 0xF1 <= b0 && b0 <= 0xF3 {
        if n - i > 3 && 0x80 <= s[i + 1] && s[i + 1] <= 0xBF && 0x80 <= s[i + 2] && s[i + 2] <= 0xBF && 0x80
            <= s[i + 3] && s[i + 3] <= 0xBF {
            4
        } else {
            0
        }
    } else if b0 == 0xF4 {
        if n - i > 3 && 0x80 <= s[i + 1] && s[i + 1] <= 0x8F && 0x80 <= s[i + 2] && s[i + 2] <= 0xBF && 0x80
            <= s[i + 3] && s[i + 3] <= 0xBF {
            4
        } else {
            0
        }
    } else {
        0
    }
}

/// Whether `s` is well-formed UTF-8.
pub fn is_utf8(s: &[u8]) -> (r: bool)
    ensures
        r == valid_utf8(s@),
{
    let n = s.len();
    let mut i: usize = 0;
    while i < n
        invariant
            i <= n == s@.len(),
            valid_utf8(s@) == utf8_from(s@, i as int),
        decreases n - i,
    {
        let k = char_len_at(s, i);
        if k == 0 {
            return false;
        }
        i = i + k;
    }
    true
}

/// A three-byte white-space character of Unicode: U+1680, U+2000 to
/// U+200A, U+2028, U+2029, U+202F, U+205F, U+3000.
pub open spec fn is_ws3(x: u8, y: u8, z: u8) -> bool {
    ||| x == 0xE1 && y == 0x9A && z == 0x80
    ||| x == 0xE2 && y == 0x80 && ((0x80 <= z <= 0x8A) || z == 0xA8 || z == 0xA9 || z == 0xAF)
    ||| x == 0xE2 && y == 0x81 && z == 0x9F
    ||| x == 0xE3 && y == 0x80 && z == 0x80
}

/// The length of the white-space character that starts at `i` within
/// `[i, b)` (ASCII white space, U+0085, U+00A0 or a three-byte one), 0
/// when there is none.
pub open spec fn ws_len_at(s: Seq<u8>, i: int, b: int) -> int {
    if i >= b {
        0
    } else if crate::text::is_space(s[i]) {
        1
    } else if i + 2 <= b && s[i] == 0xC2 && (s[i + 1] == 0x85 || s[i + 1] == 0xA0) {
        2
    } else if i + 3 <= b && is_ws3(s[i], s[i + 1], s[i + 2]) {
        3
    } else {
        0
    }
}

/// The length of the white-space character that ends at `j` within
/// `[a, j)`, 0 when there is none.
pub open spec fn ws_len_before(s: Seq<u8>, a: int, j: int) -> int {
    if j <= a {
        0
    } else if crate::text::is_space(s[j - 1]) {
        1
    } else if j - 2 >= a && s[j - 2] == 0xC2 && (s[j - 1] == 0x85 || s[j - 1] == 0xA0) {
        2
    } else if j - 3 >= a && is_ws3(s[j - 3], s[j - 2], s[j - 1]) {
        3
    } else {
        0
    }
}

/// Start of `[a, b)` once leading white space (of Unicode) is dropped.
pub open spec fn utrim_start(s: Seq<u8>, a: int, b: int) -> int
    decreases b - a,
{
    let k = ws_len_at(s, a, b);
    if k > 0 {
        utrim_start(s, a + k, b)
    } else {
        a
    }
}

/// End of `[a, b)` once trailing white space (of Unicode) is dropped.
pub open spec fn utrim_end(s: Seq<u8>, a: int, b: int) -> int
    decreases b - a,
{
    let k = ws_len_before(s, a, b);
    if k > 0 {
        utrim_end(s, a, b - k)
    } else {
        b
    }
}

/// The window `[a, b)` trimmed as `str::trim` trims it.
pub open spec fn utrimmed(s: Seq<u8>, a: int, b: int) -> (int, int) {
    let t = utrim_start(s, a, b);
    (t, utrim_end(s, t, b))
}

proof fn lemma_utrim_start_in(s: Seq<u8>, a: int, b: int)
    requires
        a <= b,
    ensures
        a <= utrim_start(s, a, b) <= b,
    decreases b - a,
{
    let k = ws_len_at(s, a, b);
    if k > 0 {
        lemma_utrim_start_in(s, a + k, b);
    }
}

proof fn lemma_utrim_end_in(s: Seq<u8>, a: int, b: int)
    requires
        a <= b,
    ensures
        a <= utrim_end(s, a, b) <= b,
    decreases b - a,
{
    let k = ws_len_before(s, a, b);
    if k > 0 {
        lemma_utrim_end_in(s, a, b - k);
    }
}

pub proof fn lemma_utrimmed_in(s: Seq<u8>, a: int, b: int)
    requires
        a <= b,
    ensures
        a <= utrimmed(s, a, b).0 <= utrimmed(s, a, b).1 <= b,
{
    lemma_utrim_start_in(s, a, b);
    lemma_utrim_end_in(s, utrim_start(s, a, b), b);
}

fn ws_len_at_exec(s: &[u8], i: usize, b: usize) -> (r: usize)
    requires
        i <= b <= s@.len(),
    ensures
        r == ws_len_at(s@, i as int, b as int),
{
    if i >= b {
        return 0;
    }
    let c = s[i];
    if c == 32 || (9 <= c && c <= 13) {
        1
    } else if b - i >= 2 && c == 0xC2 && (s[i + 1] == 0x85 || s[i + 1] == 0xA0) {
        2
    } else if b - i >= 3 && ws3(s[i], s[i + 1], s[i + 2]) {
        3
    } else {
        0
    }
}

fn ws3(x: u8, y: u8, z: u8) -> (r: bool)
    ensures
        r == is_ws3(x, y, z),
{
    (x == 0xE1 && y == 0x9A && z == 0x80) || (x == 0xE2 && y == 0x80 && ((0x80 <= z && z <= 0x8A) || z == 0xA8
        || z == 0xA9 || z == 0xAF)) || (x == 0xE2 && y == 0x81 && z == 0x9F) || (x == 0xE3 && y == 0x80 && z
        == 0x80)
}

fn ws_len_before_exec(s: &[u8], a: usize, j: usize) -> (r: usize)
    requires
        a <= j <= s@.len(),
    ensures
        r == ws_len_before(s@, a as int, j as int),
{
    if j <= a {
        return 0;
    }
    let c = s[j - 1];
    if c == 32 || (9 <= c && c <= 13) {
        1
    } else if j - a >= 2 && s[j - 2] == 0xC2 && (c == 0x85 || c == 0xA0) {
        2
    } else if j - a >= 3 && ws3(s[j - 3], s[j - 2], s[j - 1]) {
        3
    } else {
        0
    }
}

/// Trims the window `[a, b)` as `str::trim` does.
pub fn utrim_window(s: &[u8], a: usize, b: usize) -> (r: (usize, usize))
    requires
        a <= b <= s@.len(),
    ensures
        r.0 == utrimmed(s@, a as int, b as int).0,
        r.1 == utrimmed(s@, a as int, b as int).1,
        a <= r.0 <= r.1 <= b,
{
    let mut i = a;
    loop
        invariant
            a <= i <= b <= s@.len(),
            utrim_start(s@, a as int, b as int) == utrim_start(s@, i as int, b as int),
        ensures
            a <= i <= b,
            utrim_start(s@, a as int, b as int) == i,
        decreases b - i,
    {
        let k = ws_len_at_exec(s, i, b);
        if k == 0 {
            break;
        }
        i = i + k;
    }
    let mut j = b;
    loop
        invariant
            a <= i <= j <= b <= s@.len(),
            utrim_start(s@, a as int, b as int) == i,
            utrim_end(s@, i as int, b as int) == utrim_end(s@, i as int, j as int),
        ensures
            i <= j <= b,
            utrim_end(s@, i as int, b as int) == j,
        decreases j - i,
    {
        let k = ws_len_before_exec(s, i, j);
        if k == 0 {
            break;
        }
        j = j - k;
    }
    (i, j)
}

/// `[a, b)` lowered as `str::to_lowercase` lowers it is `word` (all ASCII
/// lower case): ASCII letters lower, the Kelvin sign U+212A lowers to
/// `k`, and every other character lowers to something outside ASCII.
pub open spec fn key_is(s: Seq<u8>, a: int, b: int, word: Seq<u8>) -> bool
    decreases b - a,
{
    if a >= b {
        word.len() == 0
    } else if word.len() == 0 {
        false
    } else if s[a] < 0x80 {
        crate::text::lower_byte(s[a]) == word[0] && key_is(s, a + 1, b, word.drop_first())
    } else {
        word[0] == 107 && a + 3 <= b && s[a] == 0xE2 && s[a + 1] == 0x84 && s[a + 2] == 0xAA && key_is(
            s,
            a + 3,
            b,
            word.drop_first(),
        )
    }
}

/// Whether `[a, b)` lowers to `word` (see `key_is`).
pub fn window_key_is(s: &[u8], a: usize, b: usize, word: &[u8]) -> (r: bool)
    requires
        a <= b <= s@.len(),
    ensures
        r == key_is(s@, a as int, b as int, word@),
{
    let mut i = a;
    let mut j: usize = 0;
    assert(word@.skip(0) =~= word@);
    while i < b
        invariant
            a <= i <= b <= s@.len(),
            j <= word@.len(),
            key_is(s@, a as int, b as int, word@) == key_is(s@, i as int, b as int, word@.skip(j as int)),
        decreases b - i,
    {
        if j == word.len() {
            return false;
        }
        assert(word@.skip(j as int).drop_first() =~= word@.skip(j + 1));
        let c = s[i];
        if c < 0x80 {
            let l = if 65 <= c && c <= 90 {
                c + 32
            } else {
                c
            };
            if l != word[j] {
                return false;
            }
            i = i + 1;
        } else {
            if word[j] == 107 && b - i >= 3 && c == 0xE2 && s[i + 1] == 0x84 && s[i + 2] == 0xAA {
                i = i + 3;
            } else {
                return false;
            }
        }
        j = j + 1;
    }
    j == word.len()
}

// ───────────────────────────────────────────────────────────────────────
// BASE64 KEYS

/// Value of a base64 symbol; 64 for anything outside the alphabet,
/// padding included.
pub open spec fn b64_val(c: u8) -> u8 {
    if 65 <= c && c <= 90 {
        (c - 65) as u8
    } else if 97 <= c && c <= 122 {
        (c - 71) as u8
    } else if 48 <= c && c <= 57 {
        (c + 4) as u8
    } else if c == 43 {
        62
    } else if c == 47 {
        63
    } else {
        64
    }
}

/// A 32-byte key: 43 symbols of the alphabet and one `=`.
pub open spec fn b64_key_ok(t: Seq<u8>) -> bool {
    &&& t.len() == 44
    &&& t[43] == 61
    &&& forall|i: int| 0 <= i < 43 ==> b64_val(#[trigger] t[i]) < 64
}

/// 44 symbols of the alphabet and no padding: one byte too many for a
/// key, which `base64_decode` cannot take.
pub open spec fn b64_key_overlong(t: Seq<u8>) -> bool {
    &&& t.len() == 44
    &&& forall|i: int| 0 <= i < 44 ==> b64_val(#[trigger] t[i]) < 64
}

/// Byte `j` of the decoding of `t`: every four symbols give three bytes.
pub open spec fn b64_byte(t: Seq<u8>, j: int) -> u8 {
    let g = j / 3;
    let v0 = b64_val(t[4 * g]);
    let v1 = b64_val(t[4 * g + 1]);
    let v2 = b64_val(t[4 * g + 2]);
    let v3 = b64_val(t[4 * g + 3]);
    if j % 3 == 0 {
        (v0 * 4 + v1 / 16) as u8
    } else if j % 3 == 1 {
        ((v1 % 16) * 16 + v2 / 4) as u8
    } else {
        ((v2 % 4) * 64 + v3) as u8
    }
}

fn b64_value(c: u8) -> (r: u8)
    ensures
        r == b64_val(c),
{
    if 65 <= c && c <= 90 {
        c - 65
    } else if 97 <= c && c <= 122 {
        c - 71
    } else if 48 <= c && c <= 57 {
        c + 4
    } else if c == 43 {
        62
    } else if c == 47 {
        63
    } else {
        64
    }
}

/// Decodes a base64 WireGuard key; `None` unless the text is 43 symbols
/// followed by one `=`.
pub fn base64_decode(input: &[u8]) -> (r: Option<[u8; 32]>)
    requires
        !b64_key_overlong(input@),
    ensures
        r is Some <==> b64_key_ok(input@),
        r is Some ==> forall|j: int| 0 <= j < 32 ==> r->Some_0[j] == b64_byte(input@, j),
{
    if input.len() != 44 {
        return None;
    }
    let mut i: usize = 0;
    while i < 43
        invariant
            input@.len() == 44,
            i <= 43,
            forall|k: int| 0 <= k < i ==> b64_val(#[trigger] input@[k]) < 64,
        decreases 43 - i,
    {
        if b64_value(input[i]) >= 64 {
            return None;
        }
        i = i + 1;
    }
    if input[43] != 61 {
        return None;
    }
    let mut out = [0u8; 32];
    let mut j: usize = 0;
    while j < 32
        invariant
            b64_key_ok(input@),
            j <= 32,
            forall|k: int| 0 <= k < j ==> out[k] == b64_byte(input@, k),
        decreases 32 - j,
    {
        let g = j / 3;
        let v0 = b64_value(input[4 * g]);
        let v1 = b64_value(input[4 * g + 1]);
        let v2 = b64_value(input[4 * g + 2]);
        let v3 = b64_value(input[4 * g + 3]);
        let byte = if j % 3 == 0 {
            v0 * 4 + v1 / 16
        } else if j % 3 == 1 {
            (v1 % 16) * 16 + v2 / 4
        } else {
            (v2 % 4) * 64 + v3
        };
        out[j] = byte;
        j = j + 1;
    }
    Some(out)
}

// ───────────────────────────────────────────────────────────────────────
// SCANNING THE LINES

/// The section the following keys belong to.
#[derive(Clone, Copy, PartialEq, Eq, Structural)]
pub enum Section {
    Other,
    Interface,
    Peer,
}

/// What the lines read so far have set: the section and, as windows of
/// the text, the last value given to each key of interest.
#[derive(Clone, Copy)]
pub struct ConfScan {
    pub section: Section,
    pub private_key: Option<(usize, usize)>,
    pub address: Option<(usize, usize)>,
    pub dns: Option<(usize, usize)>,
    pub peer_public_key: Option<(usize, usize)>,
    pub endpoint_host: Option<(usize, usize)>,
    pub endpoint_port: Option<u16>,
    pub persistent_keepalive: u16,
}

pub open spec fn scan_start() -> ConfScan {
    ConfScan {
        section: Section::Other,
        private_key: None,
        address: None,
        dns: None,
        peer_public_key: None,
        endpoint_host: None,
        endpoint_port: None,
        persistent_keepalive: 0,
    }
}

/// The effect of `key = value` (windows `[ks, ke)` and `[vs, ve)`).
pub open spec fn assign(s: Seq<u8>, st: ConfScan, ks: int, ke: int, vs: int, ve: int) -> ConfScan {
    let value = Some((vs as usize, ve as usize));
    match st.section {
        Section::Interface => if key_is(s, ks, ke, WORD_PRIVATE_KEY@) {
            ConfScan { private_key: value, ..st }
        } else if key_is(s, ks, ke, WORD_ADDRESS@) {
            ConfScan { address: value, ..st }
        } else if key_is(s, ks, ke, WORD_DNS@) {
            ConfScan { dns: value, ..st }
        } else {
            st
        },
        Section::Peer => if key_is(s, ks, ke, WORD_PUBLIC_KEY@) {
            ConfScan { peer_public_key: value, ..st }
        } else if key_is(s, ks, ke, WORD_ENDPOINT@) {
            match find_last_at(s, vs, ve, 58) {
                Some(c) => ConfScan {
                    endpoint_host: Some((vs as usize, c as usize)),
                    endpoint_port: match parse_uint_at(s, c + 1, ve, 65535) {
                        Some(p) => Some(p as u16),
                        None => None,
                    },
                    ..st
                },
                None => st,
            }
        } else if key_is(s, ks, ke, WORD_KEEPALIVE@) {
            ConfScan {
                persistent_keepalive: match parse_uint_at(s, vs, ve, 65535) {
                    Some(p) => p as u16,
                    None => 0,
                },
                ..st
            }
        } else {
            st
        },
        Section::Other => st,
    }
}

/// The effect of the line `[a, b)`: blank lines and `#` comments change
/// nothing, `[name]` opens a section, `key = value` sets a key of the
/// current section.
pub open spec fn step_line(s: Seq<u8>, st: ConfScan, a: int, b: int) -> ConfScan {
    let (ls, le) = utrimmed(s, a, b);
    if ls >= le || s[ls] == 35 {
        st
    } else if s[ls] == 91 && s[le - 1] == 93 {
        let (ns, ne) = utrimmed(s, ls + 1, le - 1);
        let section = if key_is(s, ns, ne, WORD_INTERFACE@) {
            Section::Interface
        } else if key_is(s, ns, ne, WORD_PEER@) {
            Section::Peer
        } else {
            Section::Other
        };
        ConfScan { section, ..st }
    } else {
        match find_first_at(s, ls, le, 61) {
            None => st,
            Some(k) => {
                let (ks, ke) = utrimmed(s, ls, k);
                let (vs, ve) = utrimmed(s, k + 1, le);
                assign(s, st, ks, ke, vs, ve)
            },
        }
    }
}

pub proof fn lemma_find_first_in(s: Seq<u8>, a: int, b: int, c: u8)
    ensures
        find_first_at(s, a, b, c) matches Some(k) ==> a <= k < b && s[k] == c,
    decreases b - a,
{
    if a < b && s[a] != c {
        lemma_find_first_in(s, a + 1, b, c);
    }
}

pub proof fn lemma_find_last_in(s: Seq<u8>, a: int, b: int, c: u8)
    ensures
        find_last_at(s, a, b, c) matches Some(k) ==> a <= k < b && s[k] == c,
    decreases b - a,
{
    if a < b && s[b - 1] != c {
        lemma_find_last_in(s, a, b - 1, c);
    }
}

pub proof fn lemma_trimmed_in(s: Seq<u8>, a: int, b: int)
    requires
        a <= b,
    ensures
        a <= trimmed(s, a, b).0 <= trimmed(s, a, b).1 <= b,
{
    lemma_trim_start_in(s, a, b);
    lemma_trim_end_in(s, trimmed(s, a, b).0, b);
}

proof fn lemma_trim_start_in(s: Seq<u8>, a: int, b: int)
    requires
        a <= b,
    ensures
        a <= crate::text::trim_start_at(s, a, b) <= b,
    decreases b - a,
{
    if a < b && crate::text::is_space(s[a]) {
        lemma_trim_start_in(s, a + 1, b);
    }
}

proof fn lemma_trim_end_in(s: Seq<u8>, a: int, b: int)
    requires
        a <= b,
    ensures
        a <= crate::text::trim_end_at(s, a, b) <= b,
    decreases b - a,
{
    if a < b && crate::text::is_space(s[b - 1]) {
        lemma_trim_end_in(s, a, b - 1);
    }
}

/// The scan of the lines from `pos` on, lines being separated by `\n`.
pub open spec fn scan_from(s: Seq<u8>, st: ConfScan, pos: int) -> ConfScan
    decreases s.len() - pos,
{
    if pos > s.len() {
        st
    } else {
        match find_first_at(s, pos, s.len() as int, 10) {
            None => step_line(s, st, pos, s.len() as int),
            Some(nl) => {
                proof {
                    lemma_find_first_in(s, pos, s.len() as int, 10);
                }
                scan_from(s, step_line(s, st, pos, nl), nl + 1)
            },
        }
    }
}

/// The scan of a whole configuration text.
pub open spec fn conf_scan(s: Seq<u8>) -> ConfScan {
    scan_from(s, scan_start(), 0)
}

fn assign_key(text: &[u8], st: ConfScan, ks: usize, ke: usize, vs: usize, ve: usize) -> (r: ConfScan)
    requires
        ks <= ke <= text@.len(),
        vs <= ve <= text@.len(),
    ensures
        r == assign(text@, st, ks as int, ke as int, vs as int, ve as int),
{
    let mut r = st;
    let value = Some((vs, ve));
    match st.section {
        Section::Interface => {
            if window_key_is(text, ks, ke, &WORD_PRIVATE_KEY) {
                r.private_key = value;
            } else if window_key_is(text, ks, ke, &WORD_ADDRESS) {
                r.address = value;
            } else if window_key_is(text, ks, ke, &WORD_DNS) {
                r.dns = value;
            }
        },
        Section::Peer => {
            if window_key_is(text, ks, ke, &WORD_PUBLIC_KEY) {
                r.peer_public_key = value;
            } else if window_key_is(text, ks, ke, &WORD_ENDPOINT) {
                proof {
                    lemma_find_last_in(text@, vs as int, ve as int, 58);
                }
                if let Some(c) = find_last(text, vs, ve, 58) {
                    r.endpoint_host = Some((vs, c));
                    r.endpoint_port = match parse_uint(text, c + 1, ve, 65535) {
                        Some(p) => Some(p as u16),
                        None => None,
                    };
                }
            } else if window_key_is(text, ks, ke, &WORD_KEEPALIVE) {
                r.persistent_keepalive = match parse_uint(text, vs, ve, 65535) {
                    Some(p) => p as u16,
                    None => 0,
                };
            }
        },
        Section::Other => {},
    }
    r
}

fn scan_line(text: &[u8], st: ConfScan, a: usize, b: usize) -> (r: ConfScan)
    requires
        a <= b <= text@.len(),
    ensures
        r == step_line(text@, st, a as int, b as int),
{
    proof {
        lemma_utrimmed_in(text@, a as int, b as int);
    }
    let (ls, le) = utrim_window(text, a, b);
    if ls >= le || text[ls] == 35 {
        return st;
    }
    if text[ls] == 91 && text[le - 1] == 93 {
        proof {
            lemma_utrimmed_in(text@, ls + 1, le - 1);
        }
        let (ns, ne) = utrim_window(text, ls + 1, le - 1);
        let section = if window_key_is(text, ns, ne, &WORD_INTERFACE) {
            Section::Interface
        } else if window_key_is(text, ns, ne, &WORD_PEER) {
            Section::Peer
        } else {
            Section::Other
        };
        let mut r = st;
        r.section = section;
        return r;
    }
    proof {
        lemma_find_first_in(text@, ls as int, le as int, 61);
    }
    match find_first(text, ls, le, 61) {
        None => st,
        Some(k) => {
            proof {
                lemma_utrimmed_in(text@, ls as int, k as int);
                lemma_utrimmed_in(text@, k + 1, le as int);
            }
            let (ks, ke) = utrim_window(text, ls, k);
            let (vs, ve) = utrim_window(text, k + 1, le);
            assign_key(text, st, ks, ke, vs, ve)
        },
    }
}

/// Reads every line of `text`.
pub fn scan_conf(text: &[u8]) -> (r: ConfScan)
    ensures
        r == conf_scan(text@),
{
    let n = text.len();
    let mut st = ConfScan {
        section: Section::Other,
        private_key: None,
        address: None,
        dns: None,
        peer_public_key: None,
        endpoint_host: None,
        endpoint_port: None,
        persistent_keepalive: 0,
    };
    let mut pos: usize = 0;
    loop
        invariant
            n == text@.len(),
            pos <= n,
            scan_from(text@, st, pos as int) == conf_scan(text@),
        decreases n - pos,
    {
        proof {
            lemma_find_first_in(text@, pos as int, n as int, 10);
        }
        match find_first(text, pos, n, 10) {
            None => {
                return scan_line(text, st, pos, n);
            },
            Some(nl) => {
                st = scan_line(text, st, pos, nl);
                pos = nl + 1;
            },
        }
    }
}

// ───────────────────────────────────────────────────────────────────────
// WINDOWS STAY INSIDE THE TEXT

pub open spec fn window_in(s: Seq<u8>, w: Option<(usize, usize)>) -> bool {
    w matches Some(x) ==> x.0 <= x.1 <= s.len()
}

/// Every window recorded by a scan lies inside the text.
pub open spec fn scan_wf(s: Seq<u8>, st: ConfScan) -> bool {
    &&& window_in(s, st.private_key)
    &&& window_in(s, st.address)
    &&& window_in(s, st.dns)
    &&& window_in(s, st.peer_public_key)
    &&& window_in(s, st.endpoint_host)
}

proof fn lemma_step_wf(s: Seq<u8>, st: ConfScan, a: int, b: int)
    requires
        scan_wf(s, st),
        0 <= a <= b <= s.len(),
        s.len() <= usize::MAX,
    ensures
        scan_wf(s, step_line(s, st, a, b)),
{
    lemma_utrimmed_in(s, a, b);
    let (ls, le) = utrimmed(s, a, b);
    if ls < le && s[ls] != 35 && !(s[ls] == 91 && s[le - 1] == 93) {
        lemma_find_first_in(s, ls, le, 61);
        if let Some(k) = find_first_at(s, ls, le, 61) {
            lemma_utrimmed_in(s, ls, k);
            lemma_utrimmed_in(s, k + 1, le);
            let (vs, ve) = utrimmed(s, k + 1, le);
            lemma_find_last_in(s, vs, ve, 58);
        }
    }
}

proof fn lemma_scan_wf(s: Seq<u8>, st: ConfScan, pos: int)
    requires
        scan_wf(s, st),
        0 <= pos,
        s.len() <= usize::MAX,
    ensures
        scan_wf(s, scan_from(s, st, pos)),
    decreases s.len() - pos,
{
    if pos <= s.len() {
        lemma_find_first_in(s, pos, s.len() as int, 10);
        match find_first_at(s, pos, s.len() as int, 10) {
            None => lemma_step_wf(s, st, pos, s.len() as int),
            Some(nl) => {
                lemma_step_wf(s, st, pos, nl);
                lemma_scan_wf(s, step_line(s, st, pos, nl), nl + 1);
            },
        }
    }
}

// ───────────────────────────────────────────────────────────────────────
// DOTTED QUADS

/// `[a, b)` cut at its first `n - 1` dots, as `str::splitn(n, '.')` does.
pub open spec fn dot_parts(s: Seq<u8>, a: int, b: int, n: nat) -> Seq<(int, int)>
    decreases n,
{
    if n <= 1 {
        seq![(a, b)]
    } else {
        match find_first_at(s, a, b, 46) {
            None => seq![(a, b)],
            Some(k) => seq![(a, k)] + dot_parts(s, k + 1, b, (n - 1) as nat),
        }
    }
}

/// Every part is a number below 256.
pub open spec fn octets_ok(s: Seq<u8>, parts: Seq<(int, int)>) -> bool {
    forall|i: int| 0 <= i < parts.len() ==> (#[trigger] parse_uint_at(s, parts[i].0, parts[i].1, 255)) is Some
}

/// The parts as four octets, missing ones zero.
pub open spec fn octets(s: Seq<u8>, parts: Seq<(int, int)>) -> Seq<u8> {
    Seq::new(
        4,
        |i: int|
            if i < parts.len() {
                parse_uint_at(s, parts[i].0, parts[i].1, 255)->Some_0 as u8
            } else {
                0u8
            },
    )
}

/// Reads up to four dot-separated octets from `[a, b)`; with
/// `exactly_four`, fewer parts are refused.
fn parse_octets(text: &[u8], a: usize, b: usize, exactly_four: bool) -> (r: Option<[u8; 4]>)
    requires
        a <= b <= text@.len(),
    ensures
        ({
            let parts = dot_parts(text@, a as int, b as int, 4);
            if (exactly_four ==> parts.len() == 4) && octets_ok(text@, parts) {
                r is Some && r->Some_0@ == octets(text@, parts)
            } else {
                r is None
            }
        }),
{
    let ghost all = dot_parts(text@, a as int, b as int, 4);
    let mut out = [0u8; 4];
    let mut pos = a;
    let mut idx: usize = 0;
    let ghost mut done: Seq<(int, int)> = seq![];
    loop
        invariant
            a <= pos <= b <= text@.len(),
            idx < 4,
            done.len() == idx,
            all == dot_parts(text@, a as int, b as int, 4),
            all == done + dot_parts(text@, pos as int, b as int, (4 - idx) as nat),
            octets_ok(text@, done),
            out@.len() == 4,
            forall|k: int| 0 <= k < idx ==> out@[k] == parse_uint_at(text@, done[k].0, done[k].1, 255)->Some_0 as u8,
            forall|k: int| idx <= k < 4 ==> out@[k] == 0,
        decreases 4 - idx,
    {
        proof {
            lemma_find_first_in(text@, pos as int, b as int, 46);
        }
        let found = if idx == 3 {
            None
        } else {
            find_first(text, pos, b, 46)
        };
        let end = match found {
            Some(k) => k,
            None => b,
        };
        let ghost rest = dot_parts(text@, pos as int, b as int, (4 - idx) as nat);
        assert(rest[0] == (pos as int, end as int));
        match parse_uint(text, pos, end, 255) {
            None => {
                assert(all[idx as int] == rest[0]);
                assert(parse_uint_at(text@, all[idx as int].0, all[idx as int].1, 255) is None);
                return None;
            },
            Some(v) => {
                out[idx] = v as u8;
                match found {
                    None => {
                        assert(rest =~= seq![(pos as int, end as int)]);
                        assert(all =~= done.push((pos as int, end as int)));
                        if exactly_four && idx != 3 {
                            return None;
                        }
                        assert(octets_ok(text@, all)) by {
                            assert forall|i: int| 0 <= i < all.len() implies (#[trigger] parse_uint_at(
                                text@,
                                all[i].0,
                                all[i].1,
                                255,
                            )) is Some by {
                                if i < idx {
                                    assert(all[i] == done[i]);
                                }
                            }
                        }
                        assert(out@ =~= octets(text@, all));
                        return Some(out);
                    },
                    Some(k) => {
                        let ghost nd = done.push((pos as int, end as int));
                        assert(all =~= nd + dot_parts(text@, k + 1, b as int, (4 - (idx + 1)) as nat));
                        assert(octets_ok(text@, nd)) by {
                            assert forall|i: int| 0 <= i < nd.len() implies (#[trigger] parse_uint_at(
                                text@,
                                nd[i].0,
                                nd[i].1,
                                255,
                            )) is Some by {
                                if i < idx {
                                    assert(nd[i] == done[i]);
                                }
                            }
                        }
                        proof {
                            done = nd;
                        }
                        pos = k + 1;
                        idx = idx + 1;
                    },
                }
            },
        }
    }
}

// ───────────────────────────────────────────────────────────────────────
// THE CONFIGURATION

/// An IPv4 address with the length of its network prefix.
#[derive(Clone, Copy, PartialEq, Eq)]
pub struct Ipv4Cidr {
    pub address: [u8; 4],
    pub prefix_len: u8,
}

impl Ipv4Cidr {
    pub fn new(address: [u8; 4], prefix_len: u8) -> (r: Self)
        requires
            prefix_len <= 32,
        ensures
            r.address == address,
            r.prefix_len == prefix_len,
    {
        Ipv4Cidr { address, prefix_len }
    }
}

/// The client configuration: this host's key and tunnel address, the
/// peer's key and endpoint.
pub struct WgConfig {
    pub private_key: [u8; 32],
    pub peer_public_key: [u8; 32],
    pub endpoint_host: Vec<u8>,
    pub endpoint_port: u16,
    pub address: Ipv4Cidr,
    pub dns: Option<[u8; 4]>,
    pub persistent_keepalive: u16,
}

pub open spec fn key_text(s: Seq<u8>, w: (usize, usize)) -> Seq<u8> {
    s.subrange(w.0 as int, w.1 as int)
}

/// The `Address` value split at its first `/`: the octets before it and
/// the prefix length after it.
pub open spec fn address_parts(s: Seq<u8>, st: ConfScan) -> Option<(Seq<u8>, nat)> {
    match st.address {
        None => None,
        Some(w) => match find_first_at(s, w.0 as int, w.1 as int, 47) {
            None => None,
            Some(k) => {
                let parts = dot_parts(s, w.0 as int, k, 4);
                if !octets_ok(s, parts) {
                    None
                } else {
                    match parse_uint_at(s, k + 1, w.1 as int, 255) {
                        None => None,
                        Some(p) => Some((octets(s, parts), p)),
                    }
                }
            },
        },
    }
}

/// The `DNS` value, when it is four octets.
pub open spec fn dns_octets(s: Seq<u8>, st: ConfScan) -> Option<Seq<u8>> {
    match st.dns {
        None => None,
        Some(w) => {
            let parts = dot_parts(s, w.0 as int, w.1 as int, 4);
            if parts.len() == 4 && octets_ok(s, parts) {
                Some(octets(s, parts))
            } else {
                None
            }
        },
    }
}

/// Texts that reach a key of 44 symbols without padding, or a prefix
/// length above 32, before anything else makes them fail.
pub open spec fn wg_conf_unreadable(s: Seq<u8>) -> bool {
    let st = conf_scan(s);
    match st.private_key {
        None => false,
        Some(pk) => b64_key_overlong(key_text(s, pk)) || (b64_key_ok(key_text(s, pk)) && match st.peer_public_key {
            None => false,
            Some(pp) => b64_key_overlong(key_text(s, pp)) || (b64_key_ok(key_text(s, pp)) && match address_parts(
                s,
                st,
            ) {
                Some(a) => a.1 > 32,
                None => false,
            }),
        }),
    }
}

/// The text gives both keys, an address with its prefix length and an
/// endpoint with its port.
pub open spec fn wg_conf_ok(s: Seq<u8>) -> bool {
    let st = conf_scan(s);
    &&& st.private_key matches Some(pk) && b64_key_ok(key_text(s, pk))
    &&& st.peer_public_key matches Some(pp) && b64_key_ok(key_text(s, pp))
    &&& address_parts(s, st) is Some
    &&& st.endpoint_host is Some
    &&& st.endpoint_port is Some
}

/// Reads the configuration file `text`: nothing unless it is UTF-8;
/// lines, keys and values are trimmed of Unicode white space and keys
/// compared as `str::to_lowercase` lowers them.
pub fn parse_wg_conf(text: &[u8]) -> (r: Option<WgConfig>)
    requires
        valid_utf8(text@) ==> !wg_conf_unreadable(text@),
    ensures
        r is Some <==> valid_utf8(text@) && wg_conf_ok(text@),
        r matches Some(c) ==> ({
            let st = conf_scan(text@);
            &&& forall|j: int| 0 <= j < 32 ==> c.private_key[j] == b64_byte(key_text(text@, st.private_key->Some_0), j)
            &&& forall|j: int|
                0 <= j < 32 ==> c.peer_public_key[j] == b64_byte(key_text(text@, st.peer_public_key->Some_0), j)
            &&& c.endpoint_host@ == key_text(text@, st.endpoint_host->Some_0)
            &&& c.endpoint_port == st.endpoint_port->Some_0
            &&& c.address.address@ == address_parts(text@, st)->Some_0.0
            &&& c.address.prefix_len == address_parts(text@, st)->Some_0.1
            &&& match dns_octets(text@, st) {
                Some(o) => c.dns matches Some(d) && d@ == o,
                None => c.dns is None,
            }
            &&& c.persistent_keepalive == st.persistent_keepalive
        }),
{
    if !is_utf8(text) {
        return None;
    }
    let st = scan_conf(text);
    let n = text.len();
    proof {
        assert(text@.len() == n);
        lemma_scan_wf(text@, scan_start(), 0);
    }
    let pk_w = match st.private_key {
        Some(w) => w,
        None => return None,
    };
    let private_key = match base64_decode(&text[pk_w.0..pk_w.1]) {
        Some(k) => k,
        None => return None,
    };
    let pp_w = match st.peer_public_key {
        Some(w) => w,
        None => return None,
    };
    let peer_public_key = match base64_decode(&text[pp_w.0..pp_w.1]) {
        Some(k) => k,
        None => return None,
    };
    let addr_w = match st.address {
        Some(w) => w,
        None => return None,
    };
    proof {
        lemma_find_first_in(text@, addr_w.0 as int, addr_w.1 as int, 47);
    }
    let slash = match find_first(text, addr_w.0, addr_w.1, 47) {
        Some(k) => k,
        None => return None,
    };
    let ip = match parse_octets(text, addr_w.0, slash, false) {
        Some(o) => o,
        None => return None,
    };
    let prefix = match parse_uint(text, slash + 1, addr_w.1, 255) {
        Some(p) => p,
        None => return None,
    };
    let address = Ipv4Cidr::new(ip, prefix as u8);
    let dns = match st.dns {
        Some(w) => parse_octets(text, w.0, w.1, true),
        None => None,
    };
    let host_w = match st.endpoint_host {
        Some(w) => w,
        None => return None,
    };
    let endpoint_port = match st.endpoint_port {
        Some(p) => p,
        None => return None,
    };
    let mut endpoint_host: Vec<u8> = Vec::new();
    push_all(&mut endpoint_host, &text[host_w.0..host_w.1]);
    Some(
        WgConfig {
            private_key,
            peer_public_key,
            endpoint_host,
            endpoint_port,
            address,
            dns,
            persistent_keepalive: st.persistent_keepalive,
        },
    )
}

fn b64_overlong(t: &[u8]) -> (r: bool)
    ensures
        r == b64_key_overlong(t@),
{
    if t.len() != 44 {
        return false;
    }
    let mut i: usize = 0;
    while i < 44
        invariant
            t@.len() == 44,
            i <= 44,
            forall|k: int| 0 <= k < i ==> b64_val(#[trigger] t@[k]) < 64,
        decreases 44 - i,
    {
        if b64_value(t[i]) >= 64 {
            return false;
        }
        i = i + 1;
    }
    true
}

/// Whether `parse_wg_conf` can take `text`: false exactly when the text
/// is UTF-8 and a key is one base64 symbol too long or the address prefix
/// is over 32, inputs the configuration is never meant to hold.
pub fn wg_conf_readable(text: &[u8]) -> (r: bool)
    ensures
        r == !(valid_utf8(text@) && wg_conf_unreadable(text@)),
{
    if !is_utf8(text) {
        return true;
    }
    let st = scan_conf(text);
    let n = text.len();
    proof {
        assert(text@.len() == n);
        lemma_scan_wf(text@, scan_start(), 0);
    }
    let pk_w = match st.private_key {
        Some(w) => w,
        None => return true,
    };
    if b64_overlong(&text[pk_w.0..pk_w.1]) {
        return false;
    }
    if base64_decode(&text[pk_w.0..pk_w.1]).is_none() {
        return true;
    }
    let pp_w = match st.peer_public_key {
        Some(w) => w,
        None => return true,
    };
    if b64_overlong(&text[pp_w.0..pp_w.1]) {
        return false;
    }
    if base64_decode(&text[pp_w.0..pp_w.1]).is_none() {
        return true;
    }
    let addr_w = match st.address {
        Some(w) => w,
        None => return true,
    };
    proof {
        lemma_find_first_in(text@, addr_w.0 as int, addr_w.1 as int, 47);
    }
    let slash = match find_first(text, addr_w.0, addr_w.1, 47) {
        Some(k) => k,
        None => return true,
    };
    if parse_octets(text, addr_w.0, slash, false).is_none() {
        return true;
    }
    match parse_uint(text, slash + 1, addr_w.1, 255) {
        Some(p) => p <= 32,
        None => true,
    }
}

} // verus!
