//! SD-card storage: file names and paths, the playlist and favourites
//! files (M3U), and picking the song that best matches a spoken name. The
//! card itself is read and written by the caller; these functions work on
//! the bytes.

use vstd::prelude::*;

use crate::text::{lower_byte, find_first, find_first_at, find_last, find_last_at, trim_window, trimmed, trim_start_at, trim_end_at, is_space};

verus! {

/// The playlist file.
pub const PLAYLIST_PATH: [u8; 19] = [
    47, 77, 117, 115, 105, 99, 47, 112, 108, 97, 121, 108, 105, 115, 116, 46, 109, 51, 117,
];
/// The favourites file.
pub const FAVOURITES_PATH: [u8; 19] = [
    47, 77, 117, 115, 105, 99, 47, 102, 97, 118, 111, 117, 114, 105, 116, 46, 109, 51, 117,
];
/// Largest file read whole into memory, in bytes.
pub const MAX_READ_LEN: usize = 4_000_000;
/// Trigram score below which a candidate is not considered.
pub const TRIGRAM_THRESHOLD: u8 = 5;

#[derive(Clone, Copy, PartialEq, Eq, Structural)]
pub enum StorageCommand {
    Enable,
    Disable,
}

#[derive(Clone, Copy, PartialEq, Eq, Structural)]
pub enum SdState {
    NotInserted,
    Mounted,
    Error,
}

#[derive(Clone, Copy, PartialEq, Eq, Structural)]
pub enum SdError {
    NotInitialized,
    Volume,
    RootDir,
    Directory,
    File,
    Read,
    Write,
}

/// Whether the card can be used: it can once mounted; otherwise the
/// caller asks the storage task to mount it and reports it not ready.
pub fn ensure_sd_ready(mounted: bool) -> (r: Result<(), SdError>)
    ensures
        mounted ==> r is Ok,
        !mounted ==> r == Err::<(), SdError>(SdError::NotInitialized),
{
    if mounted {
        Ok(())
    } else {
        Err(SdError::NotInitialized)
    }
}

/// What the storage task is asked to do when the card is needed: mount
/// it when it is not mounted, nothing otherwise.
pub fn sd_request(mounted: bool) -> (r: Option<StorageCommand>)
    ensures
        r == (if mounted { None } else { Some(StorageCommand::Enable) }),
{
    if mounted {
        None
    } else {
        Some(StorageCommand::Enable)
    }
}

/// Whether the storage task mounts the card on `cmd`: enabling mounts a
/// card that is present and not yet mounted; disabling is ignored, as the
/// card can only be enabled once.
pub fn storage_mounts(cmd: StorageCommand, mounted: bool, present: bool) -> (r: bool)
    ensures
        r == (cmd == StorageCommand::Enable && !mounted && present),
{
    match cmd {
        StorageCommand::Enable => !mounted && present,
        StorageCommand::Disable => false,
    }
}

/// Appends a chunk read from a file to what was read before; a file
/// longer than `MAX_READ_LEN` is refused.
pub fn append_chunk(buffer: &mut Vec<u8>, chunk: &[u8]) -> (r: Result<(), SdError>)
    requires
        old(buffer)@.len() <= MAX_READ_LEN,
        chunk@.len() <= MAX_READ_LEN,
    ensures
        final(buffer)@ == old(buffer)@ + chunk@,
        r is Ok <==> final(buffer)@.len() <= MAX_READ_LEN,
        r is Err ==> r == Err::<(), SdError>(SdError::File),
{
    crate::wireguard::bytes::push_all(buffer, chunk);
    if buffer.len() > MAX_READ_LEN {
        Err(SdError::File)
    } else {
        Ok(())
    }
}

// ───────────────────────────────────────────────────────────────────────
// PATHS AND FILE NAMES

/// First position of `[a, b)` that is not a slash.
pub open spec fn slash_start(s: Seq<u8>, a: int, b: int) -> int
    decreases b - a,
{
    if a < b && s[a] == 47 {
        slash_start(s, a + 1, b)
    } else {
        a
    }
}

/// End of `[a, b)` once trailing slashes are dropped.
pub open spec fn slash_end(s: Seq<u8>, a: int, b: int) -> int
    decreases b - a,
{
    if a < b && s[b - 1] == 47 {
        slash_end(s, a, b - 1)
    } else {
        b
    }
}

/// `t` with every run of slashes made one slash.
pub open spec fn collapse_slashes(t: Seq<u8>) -> Seq<u8>
    decreases t.len(),
{
    if t.len() == 0 {
        t
    } else {
        let p = collapse_slashes(t.drop_last());
        if t.last() == 47 && t.len() >= 2 && t[t.len() - 2] == 47 {
            p
        } else {
            p.push(t.last())
        }
    }
}

/// A path cut into its directory and its file name: slashes at either
/// end dropped, runs of slashes made one, then split at the last slash.
pub open spec fn path_parts(s: Seq<u8>) -> (Seq<u8>, Seq<u8>) {
    let a = slash_start(s, 0, s.len() as int);
    let b = slash_end(s, a, s.len() as int);
    let c = collapse_slashes(s.subrange(a, b));
    match find_last_at(c, 0, c.len() as int, 47) {
        Some(k) => (c.subrange(0, k), c.subrange(k + 1, c.len() as int)),
        None => (seq![], c),
    }
}

proof fn lemma_slash_bounds(s: Seq<u8>, a: int, b: int)
    requires
        a <= b,
    ensures
        a <= slash_start(s, a, b) <= b,
        a <= slash_end(s, a, b) <= b,
    decreases b - a,
{
    if a < b && s[a] == 47 {
        lemma_slash_bounds(s, a + 1, b);
    }
    if a < b && s[b - 1] == 47 {
        lemma_slash_bounds(s, a, b - 1);
    }
}

fn copy_window(s: &[u8], a: usize, b: usize) -> (r: Vec<u8>)
    requires
        a <= b <= s@.len(),
    ensures
        r@ == s@.subrange(a as int, b as int),
{
    let mut v: Vec<u8> = Vec::new();
    let mut i = a;
    while i < b
        invariant
            a <= i <= b <= s@.len(),
            v@ == s@.subrange(a as int, i as int),
        decreases b - i,
    {
        v.push(s[i]);
        i = i + 1;
        assert(v@ =~= s@.subrange(a as int, i as int));
    }
    v
}

/// Splits a path into its directory and file name.
pub fn split_path(full: &[u8]) -> (r: (Vec<u8>, Vec<u8>))
    ensures
        (r.0@, r.1@) == path_parts(full@),
{
    let n = full.len();
    proof {
        lemma_slash_bounds(full@, 0, n as int);
    }
    let mut a: usize = 0;
    while a < n && full[a] == 47
        invariant
            a <= n == full@.len(),
            slash_start(full@, 0, n as int) == slash_start(full@, a as int, n as int),
        decreases n - a,
    {
        a = a + 1;
    }
    let mut b: usize = n;
    while b > a && full[b - 1] == 47
        invariant
            a <= b <= n == full@.len(),
            slash_start(full@, 0, n as int) == a,
            slash_end(full@, a as int, n as int) == slash_end(full@, a as int, b as int),
        decreases b - a,
    {
        b = b - 1;
    }
    let mut c: Vec<u8> = Vec::new();
    let mut i = a;
    while i < b
        invariant
            a <= i <= b <= n == full@.len(),
            c@ == collapse_slashes(full@.subrange(a as int, i as int)),
        decreases b - i,
    {
        proof {
            let t = full@.subrange(a as int, i + 1);
            assert(t.drop_last() =~= full@.subrange(a as int, i as int));
        }
        if !(full[i] == 47 && i > a && full[i - 1] == 47) {
            c.push(full[i]);
        }
        i = i + 1;
    }
    let cn = c.len();
    match find_last(c.as_slice(), 0, cn, 47) {
        Some(k) => {
            proof {
                crate::wireguard::config::lemma_find_last_in(c@, 0, cn as int, 47);
            }
            (copy_window(c.as_slice(), 0, k), copy_window(c.as_slice(), k + 1, cn))
        },
        None => {
            let empty: Vec<u8> = Vec::new();
            assert(c@.subrange(0, cn as int) =~= c@);
            (empty, copy_window(c.as_slice(), 0, cn))
        },
    }
}

/// Index `i` of UTF-8 text `s` starts a character (or ends the text).
pub open spec fn char_boundary(s: Seq<u8>, i: int) -> bool {
    i == s.len() || s[i] < 0x80 || s[i] >= 0xC0
}

/// An 8.3 name: the part before the last dot cut to 8 bytes and the part
/// after it to 3, joined by a dot when the extension is not empty.
pub open spec fn short_name(name: Seq<u8>) -> Seq<u8> {
    let (base, ext) = match find_last_at(name, 0, name.len() as int, 46) {
        Some(p) => (name.subrange(0, p), name.subrange(p + 1, name.len() as int)),
        None => (name, seq![]),
    };
    let b = if base.len() > 8 {
        base.subrange(0, 8)
    } else {
        base
    };
    let e = if ext.len() > 3 {
        ext.subrange(0, 3)
    } else {
        ext
    };
    if e.len() == 0 {
        b
    } else {
        b + seq![46u8] + e
    }
}

/// Cutting a name to 8.3 falls on character boundaries.
pub open spec fn short_name_cuts_ok(name: Seq<u8>) -> bool {
    let (base, ext) = match find_last_at(name, 0, name.len() as int, 46) {
        Some(p) => (name.subrange(0, p), name.subrange(p + 1, name.len() as int)),
        None => (name, seq![]),
    };
    (base.len() > 8 ==> char_boundary(base, 8)) && (ext.len() > 3 ==> char_boundary(ext, 3))
}

/// The short (8.3) form of a long file name.
pub fn to_short_filename(name: &[u8]) -> (r: Vec<u8>)
    requires
        short_name_cuts_ok(name@),
    ensures
        r@ == short_name(name@),
{
    let n = name.len();
    proof {
        crate::wireguard::config::lemma_find_last_in(name@, 0, n as int, 46);
    }
    let (bs, be, es, ee) = match find_last(name, 0, n, 46) {
        Some(p) => (0, p, p + 1, n),
        None => (0, n, n, n),
    };
    let be2 = if be - bs > 8 {
        bs + 8
    } else {
        be
    };
    let ee2 = if ee - es > 3 {
        es + 3
    } else {
        ee
    };
    let mut r = copy_window(name, bs, be2);
    if ee2 > es {
        r.push(46);
        let e = copy_window(name, es, ee2);
        crate::wireguard::bytes::push_all(&mut r, e.as_slice());
    }
    proof {
        let base = name@.subrange(bs as int, be as int);
        let ext = name@.subrange(es as int, ee as int);
        assert(name@.subrange(0, n as int) =~= name@);
        if be - bs > 8 {
            assert(base.subrange(0, 8) =~= name@.subrange(bs as int, be2 as int));
        }
        if ee - es > 3 {
            assert(ext.subrange(0, 3) =~= name@.subrange(es as int, ee2 as int));
        }
        if find_last_at(name@, 0, n as int, 46) is None {
            assert(ext =~= seq![]);
        }
    }
    r
}

// ───────────────────────────────────────────────────────────────────────
// NUMBERS IN TEXT

/// Decimal digits of `v`.
pub open spec fn dec_digits(v: nat) -> Seq<u8>
    decreases v,
{
    if v < 10 {
        seq![(48 + v) as u8]
    } else {
        dec_digits(v / 10).push((48 + v % 10) as u8)
    }
}

/// Appends the decimal digits of `v`.
pub fn push_decimal_u64(out: &mut Vec<u8>, v: u64)
    ensures
        final(out)@ == old(out)@ + dec_digits(v as nat),
    decreases v,
{
    if v >= 10 {
        push_decimal_u64(out, v / 10);
    }
    let ghost mid = out@;
    out.push((48 + v % 10) as u8);
    proof {
        if v >= 10 {
            assert(out@ =~= old(out)@ + dec_digits(v as nat));
        } else {
            assert(dec_digits(v as nat) =~= seq![(48 + v) as u8]);
            assert(out@ =~= old(out)@ + dec_digits(v as nat));
        }
    }
}

fn push_decimal(out: &mut Vec<u8>, v: u8)
    ensures
        final(out)@ == old(out)@ + dec_digits(v as nat),
{
    if v >= 100 {
        out.push(48 + v / 100);
        out.push(48 + (v / 10) % 10);
        out.push(48 + v % 10);
        assert(dec_digits(v as nat) =~= seq![(48 + v / 100) as u8, (48 + (v / 10) % 10) as u8, (48 + v % 10) as u8])
            by {
            assert(dec_digits((v / 10) as nat) == dec_digits((v / 100) as nat).push((48 + (v / 10) % 10) as u8));
        }
    } else if v >= 10 {
        out.push(48 + v / 10);
        out.push(48 + v % 10);
        assert(dec_digits((v / 10) as nat) =~= seq![(48 + v / 10) as u8]);
        assert(dec_digits(v as nat) =~= seq![(48 + v / 10) as u8, (48 + v % 10) as u8]);
    } else {
        out.push(48 + v);
        assert(dec_digits(v as nat) =~= seq![(48 + v) as u8]);
    }
    assert(final(out)@ =~= old(out)@ + dec_digits(v as nat));
}

// ───────────────────────────────────────────────────────────────────────
// M3U PLAYLISTS

/// `"#EXTM3U"`, the first line of a playlist.
pub const M3U_HEADER: [u8; 7] = [35, 69, 88, 84, 77, 51, 85];
/// `"#EXTINF"`, the start of a tag line.
pub const EXTINF: [u8; 7] = [35, 69, 88, 84, 73, 78, 70];
/// `"#EXTINF:-1,"`, the start of the tags written for a song.
pub const EXTINF_SONG: [u8; 11] = [35, 69, 88, 84, 73, 78, 70, 58, 45, 49, 44];

/// A playlist entry: an optional `#EXTINF` line and the file path.
pub struct PlaylistEntry {
    pub tag: Option<Vec<u8>>,
    pub path: Vec<u8>,
}

pub open spec fn entry_view(e: PlaylistEntry) -> (Option<Seq<u8>>, Seq<u8>) {
    (
        match e.tag {
            Some(t) => Some(t@),
            None => None,
        },
        e.path@,
    )
}

pub open spec fn entries_view(v: Seq<PlaylistEntry>) -> Seq<(Option<Seq<u8>>, Seq<u8>)> {
    v.map_values(|e: PlaylistEntry| entry_view(e))
}

/// The lines of `s` as `str::lines` gives them: cut at each `\n`, with no
/// empty line after a final `\n`. (A `\r` before the `\n` stays; every
/// line is trimmed before use.)
pub open spec fn lines_of(s: Seq<u8>) -> Seq<Seq<u8>>
    decreases s.len(),
{
    if s.len() == 0 {
        seq![]
    } else {
        match find_first_at(s, 0, s.len() as int, 10) {
            None => seq![s],
            Some(k) => {
                proof {
                    crate::wireguard::config::lemma_find_first_in(s, 0, s.len() as int, 10);
                }
                seq![s.subrange(0, k)] + lines_of(s.subrange(k + 1, s.len() as int))
            },
        }
    }
}

/// `t` without white space at either end.
pub open spec fn trim_seq(t: Seq<u8>) -> Seq<u8> {
    t.subrange(trimmed(t, 0, t.len() as int).0, trimmed(t, 0, t.len() as int).1)
}

pub open spec fn is_tag_line(t: Seq<u8>) -> bool {
    t.len() >= 7 && t.subrange(0, 7) == EXTINF@
}

/// Entries of a list of lines: blank lines are skipped, an `#EXTINF` line
/// tags the line after it (a tag on the last line is dropped), any other
/// line is an untagged path.
pub open spec fn parse_lines(ls: Seq<Seq<u8>>) -> Seq<(Option<Seq<u8>>, Seq<u8>)>
    decreases ls.len(),
{
    if ls.len() == 0 {
        seq![]
    } else {
        let l = trim_seq(ls[0]);
        if l.len() == 0 {
            parse_lines(ls.drop_first())
        } else if is_tag_line(l) {
            if ls.len() >= 2 {
                seq![(Some(l), trim_seq(ls[1]))] + parse_lines(ls.subrange(2, ls.len() as int))
            } else {
                seq![]
            }
        } else {
            seq![(None::<Seq<u8>>, l)] + parse_lines(ls.drop_first())
        }
    }
}

/// The entries of a playlist text, after an optional `#EXTM3U` line.
pub open spec fn playlist_of(s: Seq<u8>) -> Seq<(Option<Seq<u8>>, Seq<u8>)> {
    let ls = lines_of(s);
    if ls.len() > 0 && trim_seq(ls[0]) == M3U_HEADER@ {
        parse_lines(ls.drop_first())
    } else {
        parse_lines(ls)
    }
}

/// The text of one entry: its tag line if any, then its path line.
pub open spec fn entry_text(e: (Option<Seq<u8>>, Seq<u8>)) -> Seq<u8> {
    let tag_line = match e.0 {
        Some(t) => t + seq![10u8],
        None => seq![],
    };
    tag_line + e.1 + seq![10u8]
}

pub open spec fn body_text(es: Seq<(Option<Seq<u8>>, Seq<u8>)>) -> Seq<u8>
    decreases es.len(),
{
    if es.len() == 0 {
        seq![]
    } else {
        body_text(es.drop_last()) + entry_text(es.last())
    }
}

/// A playlist file: the `#EXTM3U` line, then each entry.
pub open spec fn playlist_text(es: Seq<(Option<Seq<u8>>, Seq<u8>)>) -> Seq<u8> {
    M3U_HEADER@ + seq![10u8] + body_text(es)
}

pub open spec fn no_newline(t: Seq<u8>) -> bool {
    forall|i: int| 0 <= i < t.len() ==> t[i] != 10
}

/// An entry that reads back as itself: one-line, trimmed tag and path,
/// the tag an `#EXTINF` line, and an untagged path neither blank nor
/// looking like a tag.
pub open spec fn entry_ok(e: (Option<Seq<u8>>, Seq<u8>)) -> bool {
    &&& no_newline(e.1)
    &&& trim_seq(e.1) == e.1
    &&& match e.0 {
        Some(t) => no_newline(t) && trim_seq(t) == t && is_tag_line(t),
        None => e.1.len() > 0 && !is_tag_line(e.1),
    }
}

proof fn lemma_find_newline_at(a: Seq<u8>, b: Seq<u8>, i: int)
    requires
        no_newline(a),
        0 <= i <= a.len(),
    ensures
        find_first_at(a + seq![10u8] + b, i, (a + seq![10u8] + b).len() as int, 10) == Some(a.len() as int),
    decreases a.len() - i,
{
    if i < a.len() {
        lemma_find_newline_at(a, b, i + 1);
    }
}

/// A line followed by `\n` is the first line, whatever follows.
proof fn lemma_lines_cons(a: Seq<u8>, b: Seq<u8>)
    requires
        no_newline(a),
    ensures
        lines_of(a + seq![10u8] + b) == seq![a] + lines_of(b),
{
    let s = a + seq![10u8] + b;
    lemma_find_newline_at(a, b, 0);
    assert(s.subrange(0, a.len() as int) =~= a);
    assert(s.subrange(a.len() as int + 1, s.len() as int) =~= b);
}

proof fn lemma_body_front(es: Seq<(Option<Seq<u8>>, Seq<u8>)>)
    requires
        es.len() > 0,
    ensures
        body_text(es) == entry_text(es[0]) + body_text(es.drop_first()),
    decreases es.len(),
{
    if es.len() == 1 {
        assert(es.drop_last() =~= seq![]);
        assert(es.drop_first() =~= seq![]);
        assert(body_text(es.drop_first()) =~= seq![]);
        assert(body_text(es) =~= entry_text(es[0]) + body_text(es.drop_first()));
    } else {
        lemma_body_front(es.drop_last());
        assert(es.drop_last().drop_first() =~= es.drop_first().drop_last());
        assert(es.drop_first().last() == es.last());
        assert(body_text(es) =~= entry_text(es[0]) + body_text(es.drop_first()));
    }
}

/// Lines of the text of well-formed entries, then the parse of those
/// lines, give back the entries.
proof fn lemma_parse_body(es: Seq<(Option<Seq<u8>>, Seq<u8>)>)
    requires
        forall|i: int| 0 <= i < es.len() ==> entry_ok(#[trigger] es[i]),
    ensures
        parse_lines(lines_of(body_text(es))) == es,
    decreases es.len(),
{
    if es.len() == 0 {
        assert(body_text(es) =~= seq![]);
        assert(lines_of(body_text(es)) =~= seq![]);
    } else {
        let e = es[0];
        let rest = es.drop_first();
        assert forall|i: int| 0 <= i < rest.len() implies entry_ok(#[trigger] rest[i]) by {
            assert(rest[i] == es[i + 1]);
        }
        lemma_parse_body(rest);
        lemma_body_front(es);
        assert(entry_ok(es[0]));
        let rb = body_text(rest);
        match e.0 {
            Some(t) => {
                assert(entry_text(e) + rb =~= t + seq![10u8] + (e.1 + seq![10u8] + rb));
                lemma_lines_cons(t, e.1 + seq![10u8] + rb);
                lemma_lines_cons(e.1, rb);
                let ls = lines_of(body_text(es));
                assert(ls =~= seq![t] + (seq![e.1] + lines_of(rb)));
                assert(trim_seq(ls[0]) == t);
                assert(trim_seq(ls[1]) == e.1);
                assert(ls.subrange(2, ls.len() as int) =~= lines_of(rb));
                assert(t.len() > 0);
                assert(parse_lines(ls) =~= seq![e] + rest);
            },
            None => {
                assert(entry_text(e) + rb =~= e.1 + seq![10u8] + rb);
                lemma_lines_cons(e.1, rb);
                let ls = lines_of(body_text(es));
                assert(ls =~= seq![e.1] + lines_of(rb));
                assert(trim_seq(ls[0]) == e.1);
                assert(ls.drop_first() =~= lines_of(rb));
                assert(parse_lines(ls) =~= seq![e] + rest);
            },
        }
        assert(es =~= seq![e] + rest);
    }
}

/// A playlist written with well-formed entries reads back as the same
/// entries.
pub proof fn lemma_playlist_roundtrip(es: Seq<(Option<Seq<u8>>, Seq<u8>)>)
    requires
        forall|i: int| 0 <= i < es.len() ==> entry_ok(#[trigger] es[i]),
    ensures
        playlist_of(playlist_text(es)) == es,
{
    let h = M3U_HEADER@;
    assert(no_newline(h));
    lemma_lines_cons(h, body_text(es));
    let ls = lines_of(playlist_text(es));
    assert(ls =~= seq![h] + lines_of(body_text(es)));
    assert(trim_seq(h) =~= h) by {
        assert(trim_start_at(h, 0, 7) == 0);
        assert(trim_end_at(h, 0, 7) == 7);
    }
    assert(ls.drop_first() =~= lines_of(body_text(es)));
    lemma_parse_body(es);
}

proof fn lemma_trim_start_stops(s: Seq<u8>, a: int, b: int)
    requires
        a <= b,
    ensures
        trim_start_at(s, a, b) < b ==> !is_space(s[trim_start_at(s, a, b)]),
    decreases b - a,
{
    if a < b && is_space(s[a]) {
        lemma_trim_start_stops(s, a + 1, b);
    }
}

proof fn lemma_trim_end_stops(s: Seq<u8>, a: int, b: int)
    requires
        a <= b,
    ensures
        trim_end_at(s, a, b) > a ==> !is_space(s[trim_end_at(s, a, b) - 1]),
    decreases b - a,
{
    if a < b && is_space(s[b - 1]) {
        lemma_trim_end_stops(s, a, b - 1);
    }
}

/// A text whose ends are not white space is its own trim.
proof fn lemma_trim_fixed(t: Seq<u8>)
    requires
        t.len() > 0 ==> !is_space(t[0]) && !is_space(t[t.len() - 1]),
    ensures
        trim_seq(t) == t,
{
    let n = t.len() as int;
    assert(trim_start_at(t, 0, n) == 0);
    assert(trim_end_at(t, 0, n) == n);
    assert(t.subrange(0, n) =~= t);
}

/// Trimming twice trims no more than once, and keeps a text free of
/// line breaks.
proof fn lemma_trim_twice(t: Seq<u8>)
    ensures
        trim_seq(trim_seq(t)) == trim_seq(t),
        no_newline(t) ==> no_newline(trim_seq(t)),
{
    let n = t.len() as int;
    crate::wireguard::config::lemma_trimmed_in(t, 0, n);
    let (a, b) = trimmed(t, 0, n);
    lemma_trim_start_stops(t, 0, n);
    lemma_trim_end_stops(t, a, n);
    lemma_trim_fixed(trim_seq(t));
}

proof fn lemma_find_first_clear(s: Seq<u8>, a: int, b: int, c: u8)
    ensures
        forall|i: int|
            a <= i < (match find_first_at(s, a, b, c) {
                Some(k) => k,
                None => b,
            }) ==> s[i] != c,
    decreases b - a,
{
    if a < b && s[a] != c {
        lemma_find_first_clear(s, a + 1, b, c);
    }
}

/// No line of a text holds a line break.
proof fn lemma_lines_one_line(s: Seq<u8>)
    ensures
        forall|i: int| 0 <= i < lines_of(s).len() ==> no_newline(#[trigger] lines_of(s)[i]),
    decreases s.len(),
{
    if s.len() > 0 {
        lemma_find_first_clear(s, 0, s.len() as int, 10);
        match find_first_at(s, 0, s.len() as int, 10) {
            None => {},
            Some(k) => {
                crate::wireguard::config::lemma_find_first_in(s, 0, s.len() as int, 10);
                let rest = s.subrange(k + 1, s.len() as int);
                lemma_lines_one_line(rest);
                let ls = lines_of(s);
                assert forall|i: int| 0 <= i < ls.len() implies no_newline(#[trigger] ls[i]) by {
                    if i > 0 {
                        assert(ls[i] == lines_of(rest)[i - 1]);
                    }
                }
            },
        }
    }
}

/// Parsing one-line lines gives entries that read back as themselves.
proof fn lemma_parse_lines_ok(ls: Seq<Seq<u8>>)
    requires
        forall|i: int| 0 <= i < ls.len() ==> no_newline(#[trigger] ls[i]),
    ensures
        forall|j: int| 0 <= j < parse_lines(ls).len() ==> entry_ok(#[trigger] parse_lines(ls)[j]),
    decreases ls.len(),
{
    if ls.len() > 0 {
        let l = trim_seq(ls[0]);
        lemma_trim_twice(ls[0]);
        let ps = parse_lines(ls);
        if l.len() == 0 {
            let rest = ls.drop_first();
            assert forall|i: int| 0 <= i < rest.len() implies no_newline(#[trigger] rest[i]) by {
                assert(rest[i] == ls[i + 1]);
            }
            lemma_parse_lines_ok(rest);
            assert(ps == parse_lines(rest));
        } else if is_tag_line(l) {
            if ls.len() >= 2 {
                let rest = ls.subrange(2, ls.len() as int);
                assert forall|i: int| 0 <= i < rest.len() implies no_newline(#[trigger] rest[i]) by {
                    assert(rest[i] == ls[i + 2]);
                }
                lemma_parse_lines_ok(rest);
                lemma_trim_twice(ls[1]);
                assert(ps == seq![(Some(l), trim_seq(ls[1]))] + parse_lines(rest));
                assert forall|j: int| 0 <= j < ps.len() implies entry_ok(#[trigger] ps[j]) by {
                    if j > 0 {
                        assert(ps[j] == parse_lines(rest)[j - 1]);
                    } else {
                        assert(ps[j] == (Some(l), trim_seq(ls[1])));
                    }
                }
            }
        } else {
            let rest = ls.drop_first();
            assert forall|i: int| 0 <= i < rest.len() implies no_newline(#[trigger] rest[i]) by {
                assert(rest[i] == ls[i + 1]);
            }
            lemma_parse_lines_ok(rest);
            assert(ps == seq![(None::<Seq<u8>>, l)] + parse_lines(rest));
            assert forall|j: int| 0 <= j < ps.len() implies entry_ok(#[trigger] ps[j]) by {
                if j > 0 {
                    assert(ps[j] == parse_lines(rest)[j - 1]);
                } else {
                    assert(ps[j] == (None::<Seq<u8>>, l));
                }
            }
        }
    }
}

/// Every entry read from a playlist text reads back as itself when
/// written out again.
pub proof fn lemma_playlist_entries_ok(s: Seq<u8>)
    ensures
        forall|j: int| 0 <= j < playlist_of(s).len() ==> entry_ok(#[trigger] playlist_of(s)[j]),
{
    let ls = lines_of(s);
    lemma_lines_one_line(s);
    if ls.len() > 0 && trim_seq(ls[0]) == M3U_HEADER@ {
        let rest = ls.drop_first();
        assert forall|i: int| 0 <= i < rest.len() implies no_newline(#[trigger] rest[i]) by {
            assert(rest[i] == ls[i + 1]);
        }
        lemma_parse_lines_ok(rest);
    } else {
        lemma_parse_lines_ok(ls);
    }
}

proof fn lemma_find_shift(s: Seq<u8>, a: int, i: int, b: int, c: u8)
    requires
        0 <= a <= i <= b <= s.len(),
    ensures
        find_first_at(s.subrange(a, b), i - a, b - a, c) == (match find_first_at(s, i, b, c) {
            Some(k) => Some(k - a),
            None => None,
        }),
    decreases b - i,
{
    if i < b {
        lemma_find_shift(s, a, i + 1, b, c);
    }
}

proof fn lemma_trim_shift(s: Seq<u8>, a: int, b: int)
    requires
        0 <= a <= b <= s.len(),
    ensures
        trim_seq(s.subrange(a, b)) == s.subrange(trimmed(s, a, b).0, trimmed(s, a, b).1),
{
    let t = s.subrange(a, b);
    lemma_trim_start_shift(s, a, a, b);
    let x = trim_start_at(s, a, b);
    crate::wireguard::config::lemma_trimmed_in(s, a, b);
    lemma_trim_end_shift(s, a, x, b, b);
    assert(t.subrange(trimmed(t, 0, b - a).0, trimmed(t, 0, b - a).1) =~= s.subrange(
        trimmed(s, a, b).0,
        trimmed(s, a, b).1,
    ));
}

proof fn lemma_trim_start_shift(s: Seq<u8>, a: int, i: int, b: int)
    requires
        0 <= a <= i <= b <= s.len(),
    ensures
        trim_start_at(s.subrange(a, b), i - a, b - a) == trim_start_at(s, i, b) - a,
    decreases b - i,
{
    if i < b {
        lemma_trim_start_shift(s, a, i + 1, b);
    }
}

proof fn lemma_trim_end_shift(s: Seq<u8>, a: int, x: int, j: int, b: int)
    requires
        0 <= a <= x <= j <= b <= s.len(),
    ensures
        trim_end_at(s.subrange(a, b), x - a, j - a) == trim_end_at(s, x, j) - a,
    decreases j - x,
{
    if x < j {
        lemma_trim_end_shift(s, a, x, j - 1, b);
    }
}

/// Each window of `lines` lies in `text` and holds the matching line.
pub open spec fn lines_ok(text: Seq<u8>, lines: Seq<(usize, usize)>, ls: Seq<Seq<u8>>) -> bool {
    &&& lines.len() == ls.len()
    &&& forall|k: int|
        #![trigger lines[k]]
        0 <= k < lines.len() ==> lines[k].0 <= lines[k].1 <= text.len() && text.subrange(
            lines[k].0 as int,
            lines[k].1 as int,
        ) == ls[k]
}

/// The windows of the lines of `text`.
fn split_lines(text: &[u8]) -> (r: Vec<(usize, usize)>)
    ensures
        lines_ok(text@, r@, lines_of(text@)),
{
    let n = text.len();
    let mut r: Vec<(usize, usize)> = Vec::new();
    let mut pos: usize = 0;
    let ghost mut done: Seq<Seq<u8>> = seq![];
    assert(text@.subrange(0, n as int) =~= text@);
    while pos < n
        invariant
            n == text@.len(),
            pos <= n,
            lines_ok(text@, r@, done),
            lines_of(text@) == done + lines_of(text@.subrange(pos as int, n as int)),
        decreases n - pos,
    {
        let ghost t = text@.subrange(pos as int, n as int);
        proof {
            lemma_find_shift(text@, pos as int, pos as int, n as int, 10);
            crate::wireguard::config::lemma_find_first_in(text@, pos as int, n as int, 10);
        }
        let ghost r0 = r@;
        let ghost d0 = done;
        let (end, next) = match find_first(text, pos, n, 10) {
            None => (n, n),
            Some(k) => (k, k + 1),
        };
        r.push((pos, end));
        proof {
            done = done.push(text@.subrange(pos as int, end as int));
            assert forall|i: int| #![trigger r@[i]] 0 <= i < r@.len() implies r@[i].0 <= r@[i].1 <= text@.len()
                && text@.subrange(r@[i].0 as int, r@[i].1 as int) == done[i] by {
                if i < r0.len() {
                    assert(r@[i] == r0[i]);
                    assert(done[i] == d0[i]);
                }
            }
            if end == n {
                assert(lines_of(t) == seq![t]);
                assert(text@.subrange(n as int, n as int) =~= seq![]);
                assert(lines_of(text@) =~= done + lines_of(text@.subrange(n as int, n as int)));
            } else {
                assert(t.subrange(0, end - pos) =~= text@.subrange(pos as int, end as int));
                assert(t.subrange(end - pos + 1, t.len() as int) =~= text@.subrange(end + 1, n as int));
                assert(lines_of(text@) =~= done + lines_of(text@.subrange(end + 1, n as int)));
            }
        }
        pos = next;
    }
    proof {
        assert(text@.subrange(pos as int, n as int) =~= seq![]);
        assert(lines_of(text@) =~= done);
    }
    r
}

/// The window `[a, b)` of `s` starts with `word`.
fn window_starts_with(s: &[u8], a: usize, b: usize, word: &[u8]) -> (r: bool)
    requires
        a <= b <= s@.len(),
    ensures
        r == (b - a >= word@.len() && s@.subrange(a as int, a + word@.len()) == word@),
{
    if b - a < word.len() {
        return false;
    }
    let mut i: usize = 0;
    while i < word.len()
        invariant
            a <= b <= s@.len(),
            b - a >= word@.len(),
            i <= word@.len(),
            forall|k: int| 0 <= k < i ==> s@[a + k] == word@[k],
        decreases word.len() - i,
    {
        if s[a + i] != word[i] {
            assert(s@.subrange(a as int, a + word@.len())[i as int] != word@[i as int]);
            return false;
        }
        i = i + 1;
    }
    assert(s@.subrange(a as int, a + word@.len()) =~= word@);
    true
}

/// Reads the entry (if any) that starts at line `i`, and where the next
/// one starts.
#[verifier::rlimit(30)]
fn entry_at(text: &[u8], lines: &Vec<(usize, usize)>, i: usize, Ghost(ls): Ghost<Seq<Seq<u8>>>) -> (r: (
    Option<PlaylistEntry>,
    usize,
))
    requires
        lines_ok(text@, lines@, ls),
        i < lines@.len(),
    ensures
        i < r.1 <= lines@.len(),
        parse_lines(ls.subrange(i as int, ls.len() as int)) == (match r.0 {
            Some(e) => seq![entry_view(e)],
            None => seq![],
        }) + parse_lines(ls.subrange(r.1 as int, ls.len() as int)),
{
    let nl = lines.len();
    let ghost rest = ls.subrange(i as int, nl as int);
    let (a, b) = lines[i];
    assert(lines@[i as int] == (a, b));
    proof {
        crate::wireguard::config::lemma_trimmed_in(text@, a as int, b as int);
        lemma_trim_shift(text@, a as int, b as int);
        assert(rest[0] == ls[i as int]);
        assert(rest.drop_first() =~= ls.subrange(i + 1, nl as int));
    }
    let (ta, tb) = trim_window(text, a, b);
    let ghost l = text@.subrange(ta as int, tb as int);
    if ta == tb {
        assert(l.len() == 0);
        return (None, i + 1);
    }
    if window_starts_with(text, ta, tb, &EXTINF) {
        assert(is_tag_line(l)) by {
            assert(l.subrange(0, 7) =~= text@.subrange(ta as int, ta + 7));
        }
        if i + 1 < nl {
            let (a2, b2) = lines[i + 1];
            assert(lines@[i + 1] == (a2, b2));
            proof {
                crate::wireguard::config::lemma_trimmed_in(text@, a2 as int, b2 as int);
                lemma_trim_shift(text@, a2 as int, b2 as int);
                assert(rest[1] == ls[i + 1]);
                assert(rest.subrange(2, rest.len() as int) =~= ls.subrange(i + 2, nl as int));
            }
            let (ta2, tb2) = trim_window(text, a2, b2);
            let tag = copy_window(text, ta, tb);
            let path = copy_window(text, ta2, tb2);
            return (Some(PlaylistEntry { tag: Some(tag), path }), i + 2);
        } else {
            proof {
                assert(parse_lines(rest) =~= seq![]);
                assert(ls.subrange(nl as int, nl as int) =~= seq![]);
                assert(parse_lines(ls.subrange(nl as int, nl as int)) =~= seq![]);
            }
            return (None, nl);
        }
    }
    assert(!is_tag_line(l)) by {
        if is_tag_line(l) {
            assert(l.subrange(0, 7) =~= text@.subrange(ta as int, ta + 7));
        }
    }
    let path = copy_window(text, ta, tb);
    (Some(PlaylistEntry { tag: None, path }), i + 1)
}

/// Reads the entries of a playlist file.
pub fn parse_playlist_entries(text: &[u8]) -> (r: Vec<PlaylistEntry>)
    ensures
        entries_view(r@) == playlist_of(text@),
        forall|j: int| 0 <= j < r@.len() ==> entry_ok(#[trigger] entries_view(r@)[j]),
{
    proof {
        lemma_playlist_entries_ok(text@);
    }
    let lines = split_lines(text);
    let ghost ls = lines_of(text@);
    let nl = lines.len();
    let mut i: usize = 0;
    if nl > 0 {
        let (a, b) = lines[0];
        assert(lines@[0] == (a, b));
        proof {
            crate::wireguard::config::lemma_trimmed_in(text@, a as int, b as int);
            lemma_trim_shift(text@, a as int, b as int);
        }
        let (ta, tb) = trim_window(text, a, b);
        if tb - ta == 7 && window_starts_with(text, ta, tb, &M3U_HEADER) {
            assert(text@.subrange(ta as int, tb as int) =~= M3U_HEADER@);
            i = 1;
        } else {
            assert(text@.subrange(ta as int, tb as int) != M3U_HEADER@) by {
                if text@.subrange(ta as int, tb as int) == M3U_HEADER@ {
                    assert(text@.subrange(ta as int, ta + 7) =~= M3U_HEADER@);
                }
            }
        }
    }
    assert(playlist_of(text@) == parse_lines(ls.subrange(i as int, nl as int))) by {
        if i == 1 {
            assert(ls.drop_first() =~= ls.subrange(1, nl as int));
        } else {
            assert(ls =~= ls.subrange(0, nl as int));
        }
    }
    let mut out: Vec<PlaylistEntry> = Vec::new();
    while i < nl
        invariant
            nl == lines@.len() == ls.len(),
            ls == lines_of(text@),
            i <= nl,
            lines_ok(text@, lines@, ls),
            playlist_of(text@) == entries_view(out@) + parse_lines(ls.subrange(i as int, nl as int)),
        decreases nl - i,
    {
        let (e, next) = entry_at(text, &lines, i, Ghost(ls));
        match e {
            Some(entry) => {
                let ghost before = entries_view(out@);
                let ghost ev = entry_view(entry);
                out.push(entry);
                assert(entries_view(out@) =~= before.push(ev));
            },
            None => {},
        }
        i = next;
    }
    proof {
        assert(ls.subrange(nl as int, nl as int) =~= seq![]);
        assert(parse_lines(ls.subrange(nl as int, nl as int)) =~= seq![]);
    }
    out
}

/// `a` and `b` hold the same bytes.
pub fn bytes_eq(a: &[u8], b: &[u8]) -> (r: bool)
    ensures
        r == (a@ == b@),
{
    if a.len() != b.len() {
        return false;
    }
    let mut i: usize = 0;
    while i < a.len()
        invariant
            a@.len() == b@.len(),
            i <= a@.len(),
            forall|k: int| 0 <= k < i ==> a@[k] == b@[k],
        decreases a.len() - i,
    {
        if a[i] != b[i] {
            return false;
        }
        i = i + 1;
    }
    assert(a@ =~= b@);
    true
}

fn clone_entry(e: &PlaylistEntry) -> (r: PlaylistEntry)
    ensures
        entry_view(r) == entry_view(*e),
{
    let tag = match &e.tag {
        Some(t) => Some(copy_window(t.as_slice(), 0, t.len())),
        None => None,
    };
    let path = copy_window(e.path.as_slice(), 0, e.path.len());
    proof {
        assert(e.path@.subrange(0, e.path@.len() as int) =~= e.path@);
        if let Some(t) = &e.tag {
            assert(t@.subrange(0, t@.len() as int) =~= t@);
        }
    }
    PlaylistEntry { tag, path }
}

/// The text of a playlist file holding `entries`.
pub fn render_playlist(entries: &Vec<PlaylistEntry>) -> (r: Vec<u8>)
    ensures
        r@ == playlist_text(entries_view(entries@)),
{
    let mut out: Vec<u8> = Vec::new();
    crate::wireguard::bytes::push_all(&mut out, &M3U_HEADER);
    out.push(10);
    let mut i: usize = 0;
    while i < entries.len()
        invariant
            i <= entries@.len(),
            out@ == M3U_HEADER@ + seq![10u8] + body_text(entries_view(entries@.take(i as int))),
        decreases entries.len() - i,
    {
        let e = &entries[i];
        let ghost before = out@;
        match &e.tag {
            Some(t) => {
                crate::wireguard::bytes::push_all(&mut out, t.as_slice());
                out.push(10);
            },
            None => {},
        }
        crate::wireguard::bytes::push_all(&mut out, e.path.as_slice());
        out.push(10);
        proof {
            let v = entries_view(entries@.take(i + 1));
            assert(v.drop_last() =~= entries_view(entries@.take(i as int)));
            assert(v.last() == entry_view(entries@[i as int]));
            assert(out@ =~= before + entry_text(entry_view(entries@[i as int])));
        }
        i = i + 1;
    }
    assert(entries@.take(entries@.len() as int) =~= entries@);
    out
}

/// The tag written for `song`: `#EXTINF:-1,` and the song's name.
pub open spec fn song_tag(song: Seq<u8>) -> Seq<u8> {
    EXTINF_SONG@ + song
}

fn song_entry(song: &[u8]) -> (r: PlaylistEntry)
    ensures
        entry_view(r) == (Some(song_tag(song@)), song@),
{
    let mut tag: Vec<u8> = Vec::new();
    crate::wireguard::bytes::push_all(&mut tag, &EXTINF_SONG);
    crate::wireguard::bytes::push_all(&mut tag, song);
    let path = copy_window(song, 0, song.len());
    assert(song@.subrange(0, song@.len() as int) =~= song@);
    PlaylistEntry { tag: Some(tag), path }
}

/// Adds `song` at the end of the playlist.
pub fn append_to_playlist(entries: &mut Vec<PlaylistEntry>, song: &[u8])
    ensures
        entries_view(final(entries)@) == entries_view(old(entries)@).push((Some(song_tag(song@)), song@)),
{
    let e = song_entry(song);
    entries.push(e);
    assert(entries_view(entries@) =~= entries_view(old(entries)@).push((Some(song_tag(song@)), song@)));
}

proof fn lemma_trim_ends(t: Seq<u8>)
    requires
        trim_seq(t) == t,
        t.len() > 0,
    ensures
        !is_space(t[0]),
        !is_space(t[t.len() - 1]),
{
    let n = t.len() as int;
    crate::wireguard::config::lemma_trimmed_in(t, 0, n);
    let (a, b) = trimmed(t, 0, n);
    lemma_trim_start_stops(t, 0, n);
    lemma_trim_end_stops(t, a, n);
    assert(trim_seq(t).len() == b - a);
}

/// Adding a song (one line, no white space at either end) to the entries
/// read from a playlist file, and writing them out, gives a file that
/// reads back as those entries with the song's entry at the end.
pub proof fn lemma_append_roundtrip(text: Seq<u8>, song: Seq<u8>)
    requires
        no_newline(song),
        trim_seq(song) == song,
    ensures
        playlist_of(playlist_text(playlist_of(text).push((Some(song_tag(song)), song)))) == playlist_of(text).push(
            (Some(song_tag(song)), song),
        ),
{
    let es = playlist_of(text);
    let tag = song_tag(song);
    let e = (Some(tag), song);
    lemma_playlist_entries_ok(text);
    assert(EXTINF_SONG@ =~= seq![35u8, 69, 88, 84, 73, 78, 70, 58, 45, 49, 44]);
    assert(EXTINF@ =~= seq![35u8, 69, 88, 84, 73, 78, 70]);
    assert(no_newline(tag));
    if song.len() > 0 {
        lemma_trim_ends(song);
        assert(tag[tag.len() - 1] == song[song.len() - 1]);
    }
    lemma_trim_fixed(tag);
    assert(tag.subrange(0, 7) =~= EXTINF@);
    assert(entry_ok(e));
    let es2 = es.push(e);
    assert forall|i: int| 0 <= i < es2.len() implies entry_ok(#[trigger] es2[i]) by {
        if i < es.len() {
            assert(es2[i] == es[i]);
        }
    }
    lemma_playlist_roundtrip(es2);
}

/// Entries whose path is not `song`.
pub open spec fn without_song(
    es: Seq<(Option<Seq<u8>>, Seq<u8>)>,
    song: Seq<u8>,
) -> Seq<(Option<Seq<u8>>, Seq<u8>)> {
    es.filter(|e: (Option<Seq<u8>>, Seq<u8>)| e.1 != song)
}

/// The playlist without the entries of `song`.
pub fn remove_from_playlist(entries: &Vec<PlaylistEntry>, song: &[u8]) -> (r: Vec<PlaylistEntry>)
    ensures
        entries_view(r@) == without_song(entries_view(entries@), song@),
{
    let mut out: Vec<PlaylistEntry> = Vec::new();
    let mut i: usize = 0;
    while i < entries.len()
        invariant
            i <= entries@.len(),
            entries_view(out@) == without_song(entries_view(entries@.take(i as int)), song@),
        decreases entries.len() - i,
    {
        let ghost before = entries_view(out@);
        let keep = !bytes_eq(entries[i].path.as_slice(), song);
        if keep {
            let c = clone_entry(&entries[i]);
            out.push(c);
            assert(entries_view(out@) =~= before.push(entry_view(entries@[i as int])));
        }
        proof {
            let v = entries_view(entries@.take(i + 1));
            assert(v.drop_last() =~= entries_view(entries@.take(i as int)));
            assert(v.last() == entry_view(entries@[i as int]));
            reveal(Seq::filter);
        }
        i = i + 1;
    }
    assert(entries@.take(entries@.len() as int) =~= entries@);
    out
}

/// An empty playlist.
pub fn clear_playlist() -> (r: Vec<PlaylistEntry>)
    ensures
        r@.len() == 0,
{
    Vec::new()
}

/// Some entry has the path `song`.
pub open spec fn has_song(es: Seq<(Option<Seq<u8>>, Seq<u8>)>, song: Seq<u8>) -> bool {
    exists|i: int| 0 <= i < es.len() && (#[trigger] es[i]).1 == song
}

/// A song just added is found among the entries, so adding it to the
/// favourites a second time changes nothing.
pub proof fn lemma_added_song_found(es: Seq<(Option<Seq<u8>>, Seq<u8>)>, song: Seq<u8>)
    ensures
        has_song(es.push((Some(song_tag(song)), song)), song),
{
    let es2 = es.push((Some(song_tag(song)), song));
    assert(es2[es.len() as int].1 == song);
}

fn contains_song(entries: &Vec<PlaylistEntry>, song: &[u8]) -> (r: bool)
    ensures
        r == has_song(entries_view(entries@), song@),
{
    let mut i: usize = 0;
    while i < entries.len()
        invariant
            i <= entries@.len(),
            forall|k: int| 0 <= k < i ==> entries@[k].path@ != song@,
        decreases entries.len() - i,
    {
        if bytes_eq(entries[i].path.as_slice(), song) {
            assert(entries_view(entries@)[i as int].1 == song@);
            return true;
        }
        i = i + 1;
    }
    assert(!has_song(entries_view(entries@), song@)) by {
        if has_song(entries_view(entries@), song@) {
            let k = choose|k: int| 0 <= k < entries_view(entries@).len() && (#[trigger] entries_view(entries@)[k]).1
                == song@;
            assert(entries@[k].path@ == song@);
        }
    }
    false
}

/// Adds `song` to the favourites unless it is there already; says whether
/// the list changed.
pub fn append_to_favourites(entries: &mut Vec<PlaylistEntry>, song: &[u8]) -> (r: bool)
    ensures
        r == !has_song(entries_view(old(entries)@), song@),
        r ==> entries_view(final(entries)@) == entries_view(old(entries)@).push((Some(song_tag(song@)), song@)),
        !r ==> final(entries)@ == old(entries)@,
{
    if contains_song(entries, song) {
        return false;
    }
    append_to_playlist(entries, song);
    true
}

/// The favourites without `song`.
pub fn remove_from_favourites(entries: &Vec<PlaylistEntry>, song: &[u8]) -> (r: Vec<PlaylistEntry>)
    ensures
        entries_view(r@) == without_song(entries_view(entries@), song@),
{
    remove_from_playlist(entries, song)
}

// ───────────────────────────────────────────────────────────────────────
// FAVOURITES KEPT IN MEMORY

pub open spec fn names_view(v: Seq<Vec<u8>>) -> Seq<Seq<u8>> {
    v.map_values(|n: Vec<u8>| n@)
}

/// The cached favourites hold `song`.
pub fn check_favourites(cache: &Vec<Vec<u8>>, song: &[u8]) -> (r: bool)
    ensures
        r == names_view(cache@).contains(song@),
{
    let mut i: usize = 0;
    while i < cache.len()
        invariant
            i <= cache@.len(),
            forall|k: int| 0 <= k < i ==> cache@[k]@ != song@,
        decreases cache.len() - i,
    {
        if bytes_eq(cache[i].as_slice(), song) {
            assert(names_view(cache@)[i as int] == song@);
            return true;
        }
        i = i + 1;
    }
    assert(!names_view(cache@).contains(song@)) by {
        if names_view(cache@).contains(song@) {
            let k = choose|k: int| 0 <= k < names_view(cache@).len() && names_view(cache@)[k] == song@;
            assert(cache@[k]@ == song@);
        }
    }
    false
}

/// Adds `song` to the cached favourites and marks the cache for writing,
/// unless it is there already.
pub fn cache_add_favourite(cache: &mut Vec<Vec<u8>>, dirty: &mut bool, song: &[u8])
    ensures
        names_view(old(cache)@).contains(song@) ==> final(cache)@ == old(cache)@ && *final(dirty) == *old(dirty),
        !names_view(old(cache)@).contains(song@) ==> names_view(final(cache)@) == names_view(old(cache)@).push(song@)
            && *final(dirty),
{
    if check_favourites(cache, song) {
        return;
    }
    let n = copy_window(song, 0, song.len());
    assert(song@.subrange(0, song@.len() as int) =~= song@);
    cache.push(n);
    *dirty = true;
    assert(names_view(cache@) =~= names_view(old(cache)@).push(song@));
}

/// Drops `song` from the cached favourites and marks the cache for
/// writing, when it is there.
pub fn cache_remove_favourite(cache: &mut Vec<Vec<u8>>, dirty: &mut bool, song: &[u8])
    ensures
        !names_view(old(cache)@).contains(song@) ==> final(cache)@ == old(cache)@ && *final(dirty) == *old(dirty),
        names_view(old(cache)@).contains(song@) ==> names_view(final(cache)@) == names_view(old(cache)@).filter(
            |n: Seq<u8>| n != song@,
        ) && *final(dirty),
{
    if !check_favourites(cache, song) {
        return;
    }
    let mut kept: Vec<Vec<u8>> = Vec::new();
    let mut i: usize = 0;
    while i < cache.len()
        invariant
            i <= cache@.len(),
            cache@ == old(cache)@,
            names_view(kept@) == names_view(cache@.take(i as int)).filter(|n: Seq<u8>| n != song@),
        decreases cache.len() - i,
    {
        let ghost before = names_view(kept@);
        if !bytes_eq(cache[i].as_slice(), song) {
            let c = copy_window(cache[i].as_slice(), 0, cache[i].len());
            assert(cache@[i as int]@.subrange(0, cache@[i as int]@.len() as int) =~= cache@[i as int]@);
            kept.push(c);
            assert(names_view(kept@) =~= before.push(cache@[i as int]@));
        }
        proof {
            let v = names_view(cache@.take(i + 1));
            assert(v.drop_last() =~= names_view(cache@.take(i as int)));
            assert(v.last() == cache@[i as int]@);
            reveal(Seq::filter);
        }
        i = i + 1;
    }
    assert(cache@.take(cache@.len() as int) =~= cache@);
    *cache = kept;
    *dirty = true;
}

/// The favourites file entries for the cached names, when the cache has
/// changes to write.
pub fn flush_favourites_cache(cache: &Vec<Vec<u8>>, dirty: bool) -> (r: Option<Vec<PlaylistEntry>>)
    ensures
        !dirty ==> r is None,
        dirty ==> r is Some && entries_view(r->Some_0@) == names_view(cache@).map_values(
            |n: Seq<u8>| (Some(song_tag(n)), n),
        ),
{
    if !dirty {
        return None;
    }
    let mut out: Vec<PlaylistEntry> = Vec::new();
    let mut i: usize = 0;
    while i < cache.len()
        invariant
            i <= cache@.len(),
            entries_view(out@) == names_view(cache@.take(i as int)).map_values(
                |n: Seq<u8>| (Some(song_tag(n)), n),
            ),
        decreases cache.len() - i,
    {
        let ghost before = entries_view(out@);
        let e = song_entry(cache[i].as_slice());
        out.push(e);
        proof {
            let f = |n: Seq<u8>| (Some(song_tag(n)), n);
            assert(names_view(cache@.take(i + 1)) =~= names_view(cache@.take(i as int)).push(cache@[i as int]@));
            assert(names_view(cache@.take(i + 1)).map_values(f) =~= names_view(cache@.take(i as int)).map_values(
                f,
            ).push(f(cache@[i as int]@)));
            assert(entries_view(out@) =~= before.push(f(cache@[i as int]@)));
        }
        i = i + 1;
    }
    assert(cache@.take(cache@.len() as int) =~= cache@);
    Some(out)
}

/// The names of the favourites file's entries, for the cache.
pub fn load_favourites_cache(entries: &Vec<PlaylistEntry>) -> (r: Vec<Vec<u8>>)
    ensures
        names_view(r@) == entries_view(entries@).map_values(|e: (Option<Seq<u8>>, Seq<u8>)| e.1),
{
    let mut out: Vec<Vec<u8>> = Vec::new();
    let mut i: usize = 0;
    while i < entries.len()
        invariant
            i <= entries@.len(),
            names_view(out@) == entries_view(entries@.take(i as int)).map_values(
                |e: (Option<Seq<u8>>, Seq<u8>)| e.1,
            ),
        decreases entries.len() - i,
    {
        let c = copy_window(entries[i].path.as_slice(), 0, entries[i].path.len());
        assert(entries@[i as int].path@.subrange(0, entries@[i as int].path@.len() as int) =~= entries@[i as int].path@);
        let ghost before = names_view(out@);
        out.push(c);
        proof {
            let f = |e: (Option<Seq<u8>>, Seq<u8>)| e.1;
            assert(entries_view(entries@.take(i + 1)) =~= entries_view(entries@.take(i as int)).push(
                entry_view(entries@[i as int]),
            ));
            assert(entries_view(entries@.take(i + 1)).map_values(f) =~= entries_view(
                entries@.take(i as int),
            ).map_values(f).push(entries@[i as int].path@));
            assert(names_view(out@) =~= before.push(entries@[i as int].path@));
        }
        i = i + 1;
    }
    assert(entries@.take(entries@.len() as int) =~= entries@);
    out
}

// ───────────────────────────────────────────────────────────────────────
// FINDING SONGS BY NAME

/// The pick of `best_fuz` over `names`, starting from `init` with score
/// 0: a name is skipped when its trigram similarity to the query (both
/// lowered) is under `threshold`; otherwise its Levenshtein similarity
/// replaces the best so far when strictly higher.
pub open spec fn fuzz_scan(query: Seq<u8>, names: Seq<Seq<u8>>, threshold: u8, init: Seq<u8>) -> (Seq<u8>, u8)
    decreases names.len(),
{
    if names.len() == 0 {
        (init, 0)
    } else {
        let prev = fuzz_scan(query, names.drop_last(), threshold, init);
        let name = names.last();
        if trigram_score(lowered(query), lowered(name)) < threshold {
            prev
        } else {
            let score = levenshtein_score(lowered(query), lowered(name));
            if score > prev.1 {
                (name, score)
            } else {
                prev
            }
        }
    }
}

/// What `best_fuz` returns: nothing (empty, 0) without candidates, else
/// the first candidate of strictly highest score among those passing the
/// trigram filter, or the first candidate with score 0 when none scores
/// above 0.
pub open spec fn fuzzy_best(query: Seq<u8>, names: Seq<Seq<u8>>, threshold: u8) -> (Seq<u8>, u8) {
    if names.len() == 0 {
        (Seq::empty(), 0)
    } else {
        fuzz_scan(query, names, threshold, names[0])
    }
}

/// Calls `barely_fuzzy::best_fuz`, which lowers both sides, skips
/// candidates whose trigram similarity is under `threshold`, and keeps the
/// first candidate of strictly best Levenshtein similarity (starting from
/// the first candidate with score 0). Claimed: the result is
/// `fuzzy_best` of the arguments, over the trigram and Levenshtein scores
/// of `trigram` and `levenshtein`; the score is at most 100.
#[verifier::external_body]
fn best_fuz(query: &[u8], candidates: &Vec<Vec<u8>>, threshold: u8) -> (r: (Vec<u8>, u8))
    ensures
        (r.0@, r.1) == fuzzy_best(query@, names_view(candidates@), threshold),
        r.1 <= 100,
{
    let cands: Vec<&[u8]> = candidates.iter().map(|c| c.as_slice()).collect();
    let (best, score) = barely_fuzzy::best_fuz(query, &cands, threshold);
    (best.to_vec(), score)
}

proof fn lemma_fuzz_scan_picks(query: Seq<u8>, names: Seq<Seq<u8>>, threshold: u8, init: Seq<u8>)
    ensures
        fuzz_scan(query, names, threshold, init).0 == init || names.contains(fuzz_scan(query, names, threshold, init).0),
    decreases names.len(),
{
    if names.len() > 0 {
        let rest = names.drop_last();
        lemma_fuzz_scan_picks(query, rest, threshold, init);
        let p = fuzz_scan(query, rest, threshold, init).0;
        if rest.contains(p) {
            let i = choose|i: int| 0 <= i < rest.len() && rest[i] == p;
            assert(names[i] == p);
        }
        assert(names[names.len() - 1] == names.last());
    }
}

/// The song among `names` (the files of the music folder) that best
/// matches `query`, with its score; `None` when there are no songs.
pub fn search_song(query: &[u8], names: &Vec<Vec<u8>>) -> (r: Option<(Vec<u8>, u8)>)
    ensures
        names@.len() == 0 ==> r is None,
        names@.len() > 0 ==> (r matches Some(m) && (m.0@, m.1) == fuzzy_best(
            query@,
            names_view(names@),
            TRIGRAM_THRESHOLD,
        ) && names_view(names@).contains(m.0@) && m.1 <= 100),
{
    if names.len() == 0 {
        return None;
    }
    let (best, score) = best_fuz(query, names, TRIGRAM_THRESHOLD);
    proof {
        let ns = names_view(names@);
        lemma_fuzz_scan_picks(query@, ns, TRIGRAM_THRESHOLD, ns[0]);
        assert(ns.contains(ns[0]));
    }
    Some((best, score))
}

/// Trigram similarity of two byte strings as `barely_fuzzy` computes it.
pub uninterp spec fn trigram_score(a: Seq<u8>, b: Seq<u8>) -> u8;

/// Levenshtein similarity (0 to 100, with a bonus for a common first byte)
/// as `barely_fuzzy` computes it.
pub uninterp spec fn levenshtein_score(a: Seq<u8>, b: Seq<u8>) -> u8;

/// `barely_fuzzy::normalize_ascii_lowercase`: every ASCII capital lowered,
/// every other byte kept.
#[verifier::external_body]
fn lowercase(input: &[u8]) -> (r: Vec<u8>)
    ensures
        r@ == input@.map_values(|b: u8| lower_byte(b)),
{
    barely_fuzzy::normalize_ascii_lowercase(input)
}

/// `barely_fuzzy::trigram_similarity`: the result is `trigram_score` of the
/// arguments, and 0 when either has fewer than three bytes.
#[verifier::external_body]
fn trigram(a: &[u8], b: &[u8]) -> (r: u8)
    ensures
        r == trigram_score(a@, b@),
        a@.len() < 3 || b@.len() < 3 ==> r == 0,
{
    barely_fuzzy::trigram_similarity(a, b)
}

/// `barely_fuzzy::levenshtein_similarity`: the result is
/// `levenshtein_score` of the arguments, at most 100.
#[verifier::external_body]
fn levenshtein(a: &[u8], b: &[u8]) -> (r: u8)
    ensures
        r == levenshtein_score(a@, b@),
        r <= 100,
{
    barely_fuzzy::levenshtein_similarity(a, b)
}

/// A name lowered as the matcher compares it.
pub open spec fn lowered(s: Seq<u8>) -> Seq<u8> {
    s.map_values(|b: u8| lower_byte(b))
}

/// The names that pass the trigram filter against `query` (both lowered),
/// in their order, each with its Levenshtein score.
pub open spec fn fuzzy_candidates(query: Seq<u8>, names: Seq<Seq<u8>>, threshold: u8) -> Seq<(Seq<u8>, u8)>
    decreases names.len(),
{
    if names.len() == 0 {
        Seq::empty()
    } else {
        let rest = fuzzy_candidates(query, names.drop_last(), threshold);
        let name = names.last();
        if trigram_score(lowered(query), lowered(name)) >= threshold {
            rest.push((name, levenshtein_score(lowered(query), lowered(name))))
        } else {
            rest
        }
    }
}

/// The position of the first best-scored candidate.
pub open spec fn first_best(s: Seq<(Seq<u8>, u8)>) -> int
    decreases s.len(),
{
    if s.len() <= 1 {
        0
    } else {
        let j = first_best(s.drop_last());
        if s.last().1 > s[j].1 {
            s.len() - 1
        } else {
            j
        }
    }
}

/// The `n` best candidates, best first; equal scores keep their order.
pub open spec fn top_n(s: Seq<(Seq<u8>, u8)>, n: nat) -> Seq<(Seq<u8>, u8)>
    decreases n,
{
    if n == 0 || s.len() == 0 {
        Seq::empty()
    } else {
        let i = first_best(s);
        seq![s[i]] + top_n(s.remove(i), (n - 1) as nat)
    }
}

proof fn lemma_first_best_in_range(s: Seq<(Seq<u8>, u8)>)
    requires
        s.len() > 0,
    ensures
        0 <= first_best(s) < s.len(),
    decreases s.len(),
{
    if s.len() > 1 {
        lemma_first_best_in_range(s.drop_last());
    }
}

/// Plain view of scored names.
pub open spec fn scored_view(v: Seq<(Vec<u8>, u8)>) -> Seq<(Seq<u8>, u8)> {
    v.map_values(|t: (Vec<u8>, u8)| (t.0@, t.1))
}

fn best_index(c: &Vec<(Vec<u8>, u8)>) -> (r: usize)
    requires
        c@.len() > 0,
    ensures
        r == first_best(scored_view(c@)),
        r < c@.len(),
{
    let ghost s = scored_view(c@);
    let mut best: usize = 0;
    let mut i: usize = 1;
    while i < c.len()
        invariant
            1 <= i <= c@.len(),
            s == scored_view(c@),
            best < i,
            best == first_best(s.take(i as int)),
        decreases c@.len() - i,
    {
        assert(s.take(i + 1).drop_last() =~= s.take(i as int));
        if c[i].1 > c[best].1 {
            best = i;
        }
        i = i + 1;
    }
    assert(s.take(c@.len() as int) =~= s);
    best
}

/// The `n` songs among `names` that best match `query`, best first, each
/// with its score: names are lowered, those under the trigram threshold
/// left out, the rest ranked by Levenshtein similarity (equal scores in
/// the order of `names`).
pub fn search_top_n(query: &[u8], names: &Vec<Vec<u8>>, n: usize) -> (r: Vec<(Vec<u8>, u8)>)
    ensures
        scored_view(r@) == top_n(fuzzy_candidates(query@, names_view(names@), TRIGRAM_THRESHOLD), n as nat),
{
    let lq = lowercase(query);
    let mut cands: Vec<(Vec<u8>, u8)> = Vec::new();
    let mut i: usize = 0;
    while i < names.len()
        invariant
            i <= names@.len(),
            lq@ == lowered(query@),
            scored_view(cands@) == fuzzy_candidates(query@, names_view(names@.take(i as int)), TRIGRAM_THRESHOLD),
        decreases names.len() - i,
    {
        let ln = lowercase(names[i].as_slice());
        assert(names_view(names@.take(i + 1)).drop_last() =~= names_view(names@.take(i as int)));
        if trigram(lq.as_slice(), ln.as_slice()) >= TRIGRAM_THRESHOLD {
            let score = levenshtein(lq.as_slice(), ln.as_slice());
            let name = copy_window(names[i].as_slice(), 0, names[i].len());
            assert(name@ =~= names[i as int]@);
            cands.push((name, score));
            assert(scored_view(cands@) =~= fuzzy_candidates(query@, names_view(names@.take(i as int)), TRIGRAM_THRESHOLD).push(
                (names[i as int]@, score),
            ));
        }
        i = i + 1;
    }
    assert(names@.take(names@.len() as int) =~= names@);
    let ghost all = scored_view(cands@);
    let mut out: Vec<(Vec<u8>, u8)> = Vec::new();
    let mut k: usize = 0;
    while k < n && cands.len() > 0
        invariant
            k <= n,
            scored_view(out@) + top_n(scored_view(cands@), (n - k) as nat) == top_n(all, n as nat),
        decreases n - k,
    {
        let b = best_index(&cands);
        let ghost s = scored_view(cands@);
        proof {
            lemma_first_best_in_range(s);
        }
        let e = cands.remove(b);
        assert(scored_view(cands@) =~= s.remove(b as int));
        assert(scored_view(out@.push(e)) =~= scored_view(out@).push(s[b as int]));
        out.push(e);
        k = k + 1;
    }
    proof {
        assert(top_n(scored_view(cands@), (n - k) as nat) =~= Seq::<(Seq<u8>, u8)>::empty());
        assert(scored_view(out@) + Seq::<(Seq<u8>, u8)>::empty() =~= scored_view(out@));
    }
    out
}

/// The entry written for a song found with score `score`.
pub open spec fn scored_entry(name: Seq<u8>, score: u8) -> (Option<Seq<u8>>, Seq<u8>) {
    (Some(song_tag(name) + seq![32u8, 40u8] + dec_digits(score as nat) + seq![37u8, 41u8]), name)
}

pub open spec fn scored_entries(top: Seq<(Vec<u8>, u8)>) -> Seq<(Option<Seq<u8>>, Seq<u8>)> {
    top.map_values(|t: (Vec<u8>, u8)| scored_entry(t.0@, t.1))
}

/// The playlist made of the best matches `top`, each tagged with its
/// score; refused when there are none.
pub fn generate_playlist(top: &Vec<(Vec<u8>, u8)>) -> (r: Result<Vec<u8>, SdError>)
    ensures
        top@.len() == 0 ==> r == Err::<Vec<u8>, SdError>(SdError::File),
        top@.len() > 0 ==> (r matches Ok(t) && t@ == playlist_text(scored_entries(top@))),
{
    if top.len() == 0 {
        return Err(SdError::File);
    }
    let mut entries: Vec<PlaylistEntry> = Vec::new();
    let mut i: usize = 0;
    while i < top.len()
        invariant
            i <= top@.len(),
            entries_view(entries@) == scored_entries(top@.take(i as int)),
        decreases top.len() - i,
    {
        let (name, score) = (&top[i].0, top[i].1);
        let mut tag: Vec<u8> = Vec::new();
        crate::wireguard::bytes::push_all(&mut tag, &EXTINF_SONG);
        crate::wireguard::bytes::push_all(&mut tag, name.as_slice());
        tag.push(32);
        tag.push(40);
        push_decimal(&mut tag, score);
        tag.push(37);
        tag.push(41);
        let path = copy_window(name.as_slice(), 0, name.len());
        let ghost before = entries_view(entries@);
        entries.push(PlaylistEntry { tag: Some(tag), path });
        proof {
            assert(name@.subrange(0, name@.len() as int) =~= name@);
            assert(tag@ =~= song_tag(name@) + seq![32u8, 40u8] + dec_digits(score as nat) + seq![37u8, 41u8]);
            assert(entries_view(entries@) =~= before.push(scored_entry(name@, score)));
            assert(scored_entries(top@.take(i + 1)) =~= scored_entries(top@.take(i as int)).push(
                scored_entry(name@, score),
            ));
        }
        i = i + 1;
    }
    assert(top@.take(top@.len() as int) =~= top@);
    Ok(render_playlist(&entries))
}

// ───────────────────────────────────────────────────────────────────────
// DIRECTORY LISTINGS

/// An entry of a directory listing as the card reports it.
pub struct DirEntryInfo {
    /// The long name, or the short name as `BASE.EXT`.
    pub name: Vec<u8>,
    pub is_dir: bool,
    pub is_volume: bool,
    pub size: u32,
}

/// The name shown for a directory entry: its long name when it has one,
/// else the short name's base and extension, trimmed and joined by a dot
/// (no dot when the extension is empty).
pub open spec fn display_name(lfn: Option<Seq<u8>>, base: Seq<u8>, ext: Seq<u8>) -> Seq<u8> {
    match lfn {
        Some(l) => l,
        None => if ext.len() == 0 {
            trim_seq(base)
        } else {
            trim_seq(base) + seq![46u8] + trim_seq(ext)
        },
    }
}

fn trimmed_copy(s: &[u8]) -> (r: Vec<u8>)
    ensures
        r@ == trim_seq(s@),
{
    let n = s.len();
    proof {
        crate::wireguard::config::lemma_trimmed_in(s@, 0, n as int);
    }
    let (a, b) = trim_window(s, 0, n);
    copy_window(s, a, b)
}

/// The name of a directory entry from its long name, if any, and its short
/// name's parts.
pub fn entry_name(lfn: Option<&[u8]>, base: &[u8], ext: &[u8]) -> (r: Vec<u8>)
    ensures
        r@ == display_name(
            match lfn {
                Some(l) => Some(l@),
                None => None,
            },
            base@,
            ext@,
        ),
{
    match lfn {
        Some(l) => {
            assert(l@.subrange(0, l@.len() as int) =~= l@);
            copy_window(l, 0, l.len())
        },
        None => {
            let mut r = trimmed_copy(base);
            if ext.len() != 0 {
                r.push(46);
                let e = trimmed_copy(ext);
                crate::wireguard::bytes::push_all(&mut r, e.as_slice());
            }
            r
        },
    }
}

/// `a` and `b` are equal once ASCII letters are lowered.
pub open spec fn eq_ignore_case(a: Seq<u8>, b: Seq<u8>) -> bool {
    a.len() == b.len() && forall|i: int|
        0 <= i < a.len() ==> crate::text::lower_byte(#[trigger] a[i]) == crate::text::lower_byte(b[i])
}

pub fn eq_ignore_ascii_case(a: &[u8], b: &[u8]) -> (r: bool)
    ensures
        r == eq_ignore_case(a@, b@),
{
    if a.len() != b.len() {
        return false;
    }
    let mut i: usize = 0;
    while i < a.len()
        invariant
            a@.len() == b@.len(),
            i <= a@.len(),
            forall|k: int| 0 <= k < i ==> crate::text::lower_byte(#[trigger] a@[k]) == crate::text::lower_byte(b@[k]),
        decreases a.len() - i,
    {
        let x = if 65 <= a[i] && a[i] <= 90 {
            a[i] + 32
        } else {
            a[i]
        };
        let y = if 65 <= b[i] && b[i] <= 90 {
            b[i] + 32
        } else {
            b[i]
        };
        if x != y {
            return false;
        }
        i = i + 1;
    }
    true
}

/// First position of a file (not a directory) named `name`, ignoring
/// case.
pub open spec fn file_match(es: Seq<DirEntryInfo>, name: Seq<u8>, i: int) -> bool {
    !es[i].is_dir && eq_ignore_case(es[i].name@, name)
}

/// The size of the file `file_name` in a directory listing: the first
/// file whose name matches it, ignoring case.
pub fn file_size(entries: &Vec<DirEntryInfo>, file_name: &[u8]) -> (r: Result<u32, SdError>)
    ensures
        match r {
            Ok(size) => exists|i: int|
                0 <= i < entries@.len() && file_match(entries@, file_name@, i) && entries@[i].size == size && forall|
                    j: int,
                | 0 <= j < i ==> !#[trigger] file_match(entries@, file_name@, j),
            Err(e) => e == SdError::File && forall|i: int|
                0 <= i < entries@.len() ==> !#[trigger] file_match(entries@, file_name@, i),
        },
{
    let mut i: usize = 0;
    while i < entries.len()
        invariant
            i <= entries@.len(),
            forall|j: int| 0 <= j < i ==> !#[trigger] file_match(entries@, file_name@, j),
        decreases entries.len() - i,
    {
        let e = &entries[i];
        if !e.is_dir && eq_ignore_ascii_case(e.name.as_slice(), file_name) {
            assert(file_match(entries@, file_name@, i as int));
            return Ok(e.size);
        }
        i = i + 1;
    }
    Err(SdError::File)
}

/// The name, as stored, of the first sub-directory of a listing that
/// matches `component` ignoring case; volume labels are skipped.
pub fn find_dir_name(entries: &Vec<DirEntryInfo>, component: &[u8]) -> (r: Option<Vec<u8>>)
    ensures
        match r {
            Some(n) => exists|i: int|
                0 <= i < entries@.len() && entries@[i].is_dir && !entries@[i].is_volume && eq_ignore_case(
                    entries@[i].name@,
                    component@,
                ) && n@ == entries@[i].name@ && forall|j: int|
                    0 <= j < i ==> !(#[trigger] entries@[j].is_dir && !entries@[j].is_volume && eq_ignore_case(
                        entries@[j].name@,
                        component@,
                    )),
            None => forall|i: int|
                0 <= i < entries@.len() ==> !(#[trigger] entries@[i].is_dir && !entries@[i].is_volume
                    && eq_ignore_case(entries@[i].name@, component@)),
        },
{
    let mut i: usize = 0;
    while i < entries.len()
        invariant
            i <= entries@.len(),
            forall|j: int|
                0 <= j < i ==> !(#[trigger] entries@[j].is_dir && !entries@[j].is_volume && eq_ignore_case(
                    entries@[j].name@,
                    component@,
                )),
        decreases entries.len() - i,
    {
        let e = &entries[i];
        if e.is_dir && !e.is_volume && eq_ignore_ascii_case(e.name.as_slice(), component) {
            let n = copy_window(e.name.as_slice(), 0, e.name.len());
            assert(e.name@.subrange(0, e.name@.len() as int) =~= e.name@);
            return Some(n);
        }
        i = i + 1;
    }
    None
}

/// `s` cut at every `c`, empty pieces included (`str::split`).
pub open spec fn split_on(s: Seq<u8>, c: u8) -> Seq<Seq<u8>>
    decreases s.len(),
{
    match find_first_at(s, 0, s.len() as int, c) {
        None => seq![s],
        Some(k) => {
            proof {
                crate::wireguard::config::lemma_find_first_in(s, 0, s.len() as int, c);
            }
            seq![s.subrange(0, k)] + split_on(s.subrange(k + 1, s.len() as int), c)
        },
    }
}

/// The directory names along `dir_path`, cut at each slash.
pub fn path_components(dir_path: &[u8]) -> (r: Vec<Vec<u8>>)
    ensures
        names_view(r@) == split_on(dir_path@, 47),
{
    let n = dir_path.len();
    let mut r: Vec<Vec<u8>> = Vec::new();
    let mut pos: usize = 0;
    assert(dir_path@.subrange(0, n as int) =~= dir_path@);
    loop
        invariant
            n == dir_path@.len(),
            pos <= n,
            split_on(dir_path@, 47) == names_view(r@) + split_on(dir_path@.subrange(pos as int, n as int), 47),
        decreases n - pos,
    {
        let ghost t = dir_path@.subrange(pos as int, n as int);
        proof {
            lemma_find_shift(dir_path@, pos as int, pos as int, n as int, 47);
            crate::wireguard::config::lemma_find_first_in(dir_path@, pos as int, n as int, 47);
        }
        let ghost before = names_view(r@);
        match find_first(dir_path, pos, n, 47) {
            None => {
                let piece = copy_window(dir_path, pos, n);
                r.push(piece);
                assert(names_view(r@) =~= before.push(t));
                assert(split_on(t, 47) == seq![t]);
                assert(split_on(dir_path@, 47) =~= names_view(r@));
                return r;
            },
            Some(k) => {
                let piece = copy_window(dir_path, pos, k);
                r.push(piece);
                proof {
                    assert(t.subrange(0, k - pos) =~= dir_path@.subrange(pos as int, k as int));
                    assert(t.subrange(k - pos + 1, t.len() as int) =~= dir_path@.subrange(k + 1, n as int));
                    assert(names_view(r@) =~= before.push(dir_path@.subrange(pos as int, k as int)));
                    assert(split_on(dir_path@, 47) =~= names_view(r@) + split_on(
                        dir_path@.subrange(k + 1, n as int),
                        47,
                    ));
                }
                pos = k + 1;
            },
        }
    }
}

} // verus!
