//! The SSH shell's fixed answers, the icons of its file listings, and the
//! output buffer that turns `\n` into `\r\n`.

use vstd::prelude::*;
use vstd::string::StringSliceAdditionalSpecFns;

verus! {

pub fn get_battery_percent() -> (r: u8)
    ensures
        r == 80,
{
    80
}

pub fn build_all_sensors_json() -> (r: &'static str)
    ensures
        r == "{\"battery\":80}",
{
    "{\"battery\":80}"
}

pub fn media_play() {
}

pub fn media_pause() {
}

pub fn media_next() {
}

pub fn media_prev() {
}

pub fn media_heart() {
}

pub fn media_search(_q: &str) -> (r: &'static str)
    ensures
        r == "No results",
{
    "No results"
}

pub fn set_display_brightness(_val: u8) {
}

pub fn display_on() {
}

pub fn display_off() {
}

/// State the shell's commands share.
pub struct AppState {}

impl AppState {
    pub fn new() -> (r: Self) {
        AppState {  }
    }
}

/// `name` ends with `suffix`.
pub open spec fn ends_with(name: Seq<u8>, suffix: Seq<u8>) -> bool {
    name.len() >= suffix.len() && name.subrange(name.len() - suffix.len(), name.len() as int) == suffix
}

fn has_suffix(name: &[u8], suffix: &[u8]) -> (r: bool)
    ensures
        r == ends_with(name@, suffix@),
{
    if name.len() < suffix.len() {
        return false;
    }
    let nl = name.len();
    let off = nl - suffix.len();
    let mut i: usize = 0;
    while i < suffix.len()
        invariant
            nl == name@.len(),
            off + suffix@.len() == name@.len(),
            i <= suffix@.len(),
            forall|k: int| 0 <= k < i ==> name@[off + k] == suffix@[k],
        decreases suffix.len() - i,
    {
        if name[off + i] != suffix[i] {
            assert(name@.subrange(off as int, name@.len() as int)[i as int] != suffix@[i as int]);
            return false;
        }
        i = i + 1;
    }
    assert(name@.subrange(off as int, name@.len() as int) =~= suffix@);
    true
}

/// What a listed file is, for its icon.
#[derive(Clone, Copy, PartialEq, Eq, Structural)]
pub enum FileKind {
    AssetsDir,
    Dir,
    Image,
    Audio,
    Other,
}

pub open spec fn is_image(name: Seq<u8>) -> bool {
    ends_with(name, seq![46u8, 112, 110, 103]) || ends_with(name, seq![46u8, 106, 112, 103]) || ends_with(
        name,
        seq![46u8, 106, 112, 101, 103],
    ) || ends_with(name, seq![46u8, 103, 105, 102]) || ends_with(name, seq![46u8, 98, 109, 112]) || ends_with(
        name,
        seq![46u8, 119, 101, 98, 112],
    ) || ends_with(name, seq![46u8, 115, 118, 103])
}

pub open spec fn is_audio(name: Seq<u8>) -> bool {
    ends_with(name, seq![46u8, 109, 112, 51]) || ends_with(name, seq![46u8, 119, 97, 118]) || ends_with(
        name,
        seq![46u8, 102, 108, 97, 99],
    ) || ends_with(name, seq![46u8, 111, 103, 103]) || ends_with(name, seq![46u8, 109, 52, 97]) || ends_with(
        name,
        seq![46u8, 97, 97, 99],
    )
}

/// The kind of a listed entry: the `assets` folder, other folders, and
/// files by extension (images, audio, the rest).
pub open spec fn file_kind(name: Seq<u8>, is_dir: bool) -> FileKind {
    if is_dir {
        if name == seq![97u8, 115, 115, 101, 116, 115] {
            FileKind::AssetsDir
        } else {
            FileKind::Dir
        }
    } else if is_image(name) {
        FileKind::Image
    } else if is_audio(name) {
        FileKind::Audio
    } else {
        FileKind::Other
    }
}

pub open spec fn glyph(k: FileKind) -> &'static str {
    match k {
        FileKind::AssetsDir => "\u{f0c7} ",
        FileKind::Dir => "\u{f115} ",
        FileKind::Image => "\u{f1c5} ",
        FileKind::Audio => "\u{1f3b5} ",
        FileKind::Other => "\u{f15b} ",
    }
}

/// The icon shown before an entry of a listing.
pub fn icon(name: &[u8], is_dir: bool) -> (r: &'static str)
    ensures
        r == glyph(file_kind(name@, is_dir)),
{
    if is_dir {
        let assets: [u8; 6] = [97, 115, 115, 101, 116, 115];
        if crate::storage::bytes_eq(name, &assets) {
            "\u{f0c7} "
        } else {
            "\u{f115} "
        }
    } else if has_suffix(name, &[46, 112, 110, 103]) || has_suffix(name, &[46, 106, 112, 103]) || has_suffix(
        name,
        &[46, 106, 112, 101, 103],
    ) || has_suffix(name, &[46, 103, 105, 102]) || has_suffix(name, &[46, 98, 109, 112]) || has_suffix(
        name,
        &[46, 119, 101, 98, 112],
    ) || has_suffix(name, &[46, 115, 118, 103]) {
        "\u{f1c5} "
    } else if has_suffix(name, &[46, 109, 112, 51]) || has_suffix(name, &[46, 119, 97, 118]) || has_suffix(
        name,
        &[46, 102, 108, 97, 99],
    ) || has_suffix(name, &[46, 111, 103, 103]) || has_suffix(name, &[46, 109, 52, 97]) || has_suffix(
        name,
        &[46, 97, 97, 99],
    ) {
        "\u{1f3b5} "
    } else {
        "\u{f15b} "
    }
}

/// Capacity of the shell's output buffer.
pub const MENU_BUF_CAPACITY: usize = 1024;

/// What writing `data` into a buffer with `room` bytes left puts in it
/// and how many bytes of `data` it takes: each `\n` goes in as `\r\n`;
/// writing stops at the first byte that no longer fits (a `\r` that fits
/// without its `\n` stays).
pub open spec fn menu_write(room: nat, data: Seq<u8>) -> (Seq<u8>, nat)
    decreases data.len(),
{
    if data.len() == 0 {
        (seq![], 0)
    } else if data[0] == 10 {
        if room == 0 {
            (seq![], 0)
        } else if room == 1 {
            (seq![13u8], 0)
        } else {
            let r = menu_write((room - 2) as nat, data.drop_first());
            (seq![13u8, 10u8] + r.0, r.1 + 1)
        }
    } else {
        if room == 0 {
            (seq![], 0)
        } else {
            let r = menu_write((room - 1) as nat, data.drop_first());
            (seq![data[0]] + r.0, r.1 + 1)
        }
    }
}

/// The shell's output, gathered before it is sent.
pub struct AsyncMenuBuf {
    pub buf: Vec<u8>,
}

impl AsyncMenuBuf {
    pub fn new() -> (r: Self)
        ensures
            r.buf@.len() == 0,
    {
        AsyncMenuBuf { buf: Vec::new() }
    }

    /// Appends `data` with line feeds made `\r\n`, as far as it fits;
    /// returns how many bytes of `data` went in.
    pub fn write(&mut self, data: &[u8]) -> (r: usize)
        requires
            old(self).buf@.len() <= MENU_BUF_CAPACITY,
        ensures
            final(self).buf@.len() <= MENU_BUF_CAPACITY,
            (final(self).buf@, r as nat) == ({
                let w = menu_write((MENU_BUF_CAPACITY - old(self).buf@.len()) as nat, data@);
                (old(self).buf@ + w.0, w.1)
            }),
    {
        let ghost room0 = (MENU_BUF_CAPACITY - old(self).buf@.len()) as nat;
        let ghost w = menu_write(room0, data@);
        let mut written: usize = 0;
        let mut done = false;
        assert(data@.subrange(0, data@.len() as int) =~= data@);
        assert(old(self).buf@ + w.0 =~= self.buf@ + w.0);
        while written < data.len() && !done
            invariant
                self.buf@.len() <= MENU_BUF_CAPACITY,
                written <= data@.len(),
                w == menu_write(room0, data@),
                !done ==> ({
                    let rest = menu_write(
                        (MENU_BUF_CAPACITY - self.buf@.len()) as nat,
                        data@.subrange(written as int, data@.len() as int),
                    );
                    old(self).buf@ + w.0 == self.buf@ + rest.0 && w.1 == written + rest.1
                }),
                done ==> old(self).buf@ + w.0 == self.buf@ && w.1 == written,
            decreases data.len() - written, (if done { 0int } else { 1int }),
        {
            let b = data[written];
            let ghost rest = data@.subrange(written as int, data@.len() as int);
            assert(rest.drop_first() =~= data@.subrange(written + 1, data@.len() as int));
            assert(rest[0] == b);
            let ghost before = self.buf@;
            let room = MENU_BUF_CAPACITY - self.buf.len();
            if b == 10 {
                if room == 0 {
                    assert(self.buf@ + seq![] =~= self.buf@);
                    done = true;
                } else if room == 1 {
                    self.buf.push(13);
                    assert(self.buf@ =~= before + seq![13u8]);
                    done = true;
                } else {
                    self.buf.push(13);
                    self.buf.push(10);
                    proof {
                        let w2 = menu_write((MENU_BUF_CAPACITY - self.buf@.len()) as nat, rest.drop_first());
                        assert(before + (seq![13u8, 10u8] + w2.0) =~= self.buf@ + w2.0);
                    }
                    written = written + 1;
                }
            } else {
                if room == 0 {
                    assert(self.buf@ + seq![] =~= self.buf@);
                    done = true;
                } else {
                    self.buf.push(b);
                    proof {
                        let w2 = menu_write((MENU_BUF_CAPACITY - self.buf@.len()) as nat, rest.drop_first());
                        assert(before + (seq![b] + w2.0) =~= self.buf@ + w2.0);
                    }
                    written = written + 1;
                }
            }
        }
        proof {
            if !done {
                assert(data@.subrange(written as int, data@.len() as int) =~= seq![]);
                assert(self.buf@ + seq![] =~= self.buf@);
            }
        }
        written
    }

    /// Empties the buffer once its contents were sent.
    pub fn clear(&mut self)
        ensures
            final(self).buf@.len() == 0,
    {
        self.buf.clear();
    }
}

} // verus!

verus! {

// ───────────────────────────────────────────────────────────────────────
// HEXDUMP

/// The lower-case hexadecimal digit of `n` (0 to 15).
pub open spec fn hex_digit(n: int) -> u8 {
    if n < 10 {
        (48 + n) as u8
    } else {
        (87 + n) as u8
    }
}

/// The last `width` hexadecimal digits of `v`, zero-padded.
pub open spec fn hex_fixed(v: nat, width: nat) -> Seq<u8>
    decreases width,
{
    if width == 0 {
        seq![]
    } else {
        hex_fixed(v / 16, (width - 1) as nat).push(hex_digit((v % 16) as int))
    }
}

/// Each byte as two hexadecimal digits and a space.
pub open spec fn hex_bytes(b: Seq<u8>) -> Seq<u8>
    decreases b.len(),
{
    if b.len() == 0 {
        seq![]
    } else {
        hex_bytes(b.drop_last()) + hex_fixed(b.last() as nat, 2) + seq![32u8]
    }
}

/// Line `i` of a dump of `data`: the offset in eight digits, a colon, the
/// (at most) sixteen bytes from there, a line feed.
pub open spec fn dump_line(data: Seq<u8>, i: int) -> Seq<u8> {
    let end = if 16 * i + 16 < data.len() {
        16 * i + 16
    } else {
        data.len() as int
    };
    hex_fixed((16 * i) as nat, 8) + seq![58u8, 32u8] + hex_bytes(data.subrange(16 * i, end)) + seq![10u8]
}

/// The first `n` lines of a dump of `data`.
pub open spec fn dump_lines(data: Seq<u8>, n: int) -> Seq<u8>
    decreases n,
{
    if n <= 0 {
        seq![]
    } else {
        dump_lines(data, n - 1) + dump_line(data, n - 1)
    }
}

/// Lines a dump shows at most; past them it ends with `...`.
pub const DUMP_MAX_LINES: usize = 32;

/// The dump of `data`: one line per sixteen bytes, at most 32 lines, and
/// a `...` line when the 32nd line is reached.
pub open spec fn hexdump_text(data: Seq<u8>) -> Seq<u8> {
    let chunks = (data.len() + 15) / 16;
    if chunks >= DUMP_MAX_LINES {
        dump_lines(data, DUMP_MAX_LINES as int) + seq![46u8, 46u8, 46u8, 10u8]
    } else {
        dump_lines(data, chunks as int)
    }
}

fn push_hex(out: &mut Vec<u8>, v: u32, width: u32)
    requires
        width <= 8,
    ensures
        final(out)@ == old(out)@ + hex_fixed(v as nat, width as nat),
    decreases width,
{
    if width == 0 {
        assert(final(out)@ =~= old(out)@ + hex_fixed(v as nat, 0));
        return;
    }
    push_hex(out, v / 16, width - 1);
    let d = (v % 16) as u8;
    let c = if d < 10 {
        48 + d
    } else {
        87 + d
    };
    out.push(c);
    assert(final(out)@ =~= old(out)@ + hex_fixed(v as nat, width as nat));
}

/// The text the `hexdump` command prints for a file holding `data`.
pub fn hexdump_lines(data: &[u8]) -> (r: Vec<u8>)
    ensures
        r@ == hexdump_text(data@),
{
    let len = data.len();
    let chunks = len / 16 + if len % 16 == 0 {
        0
    } else {
        1
    };
    assert(chunks == (len + 15) / 16) by (nonlinear_arith)
        requires
            chunks == len / 16 + if len % 16 == 0 {
                0int
            } else {
                1int
            },
    ;
    let lines = if chunks >= DUMP_MAX_LINES {
        DUMP_MAX_LINES
    } else {
        chunks
    };
    let mut out: Vec<u8> = Vec::new();
    let mut i: usize = 0;
    while i < lines
        invariant
            len == data@.len(),
            lines <= DUMP_MAX_LINES,
            lines <= chunks,
            chunks == (len + 15) / 16,
            i <= lines,
            out@ == dump_lines(data@, i as int),
        decreases lines - i,
    {
        let start = 16 * i;
        let end = if start + 16 < len {
            start + 16
        } else {
            len
        };
        let ghost before = out@;
        push_hex(&mut out, start as u32, 8);
        out.push(58);
        out.push(32);
        let ghost mid = out@;
        let mut k = start;
        while k < end
            invariant
                start <= k <= end <= len == data@.len(),
                out@ == mid + hex_bytes(data@.subrange(start as int, k as int)),
            decreases end - k,
        {
            let ghost before_k = out@;
            push_hex(&mut out, data[k] as u32, 2);
            out.push(32);
            assert(data@.subrange(start as int, k + 1).drop_last() =~= data@.subrange(start as int, k as int));
            assert(out@ =~= mid + hex_bytes(data@.subrange(start as int, k + 1)));
            k = k + 1;
        }
        out.push(10);
        assert(out@ =~= dump_lines(data@, i + 1));
        i = i + 1;
    }
    if chunks >= DUMP_MAX_LINES {
        out.push(46);
        out.push(46);
        out.push(46);
        out.push(10);
    }
    assert(out@ =~= hexdump_text(data@));
    out
}

// ───────────────────────────────────────────────────────────────────────
// DIRECTORY LISTING LINES

/// `digits` right-aligned in a field of `width` (wider text is kept).
pub open spec fn right_aligned(digits: Seq<u8>, width: nat) -> Seq<u8> {
    if digits.len() < width {
        Seq::new((width - digits.len()) as nat, |i: int| 32u8) + digits
    } else {
        digits
    }
}

/// The line `ls` prints for an entry: `[DIR]` for a directory, else its
/// size right-aligned in eight columns, then the name.
pub open spec fn ls_text(name: Seq<u8>, is_dir: bool, size: u32) -> Seq<u8> {
    seq![32u8, 32u8] + (if is_dir {
        seq![91u8, 68, 73, 82, 93]
    } else {
        right_aligned(crate::storage::dec_digits(size as nat), 8)
    }) + seq![32u8, 32u8] + name + seq![10u8]
}

pub fn ls_line(name: &[u8], is_dir: bool, size: u32) -> (r: Vec<u8>)
    ensures
        r@ == ls_text(name@, is_dir, size),
{
    let mut out: Vec<u8> = Vec::new();
    out.push(32);
    out.push(32);
    if is_dir {
        out.push(91);
        out.push(68);
        out.push(73);
        out.push(82);
        out.push(93);
    } else {
        let mut digits: Vec<u8> = Vec::new();
        crate::storage::push_decimal_u64(&mut digits, size as u64);
        assert(digits@ =~= Seq::<u8>::empty() + crate::storage::dec_digits(size as nat));
        let n = digits.len();
        if n < 8 {
            let mut p: usize = 0;
            while p < 8 - n
                invariant
                    n < 8,
                    p <= 8 - n,
                    out@ == seq![32u8, 32u8] + Seq::new(p as nat, |i: int| 32u8),
                decreases 8 - n - p,
            {
                out.push(32);
                p = p + 1;
                assert(out@ =~= seq![32u8, 32u8] + Seq::new(p as nat, |i: int| 32u8));
            }
        }
        crate::wireguard::bytes::push_all(&mut out, digits.as_slice());
    }
    out.push(32);
    out.push(32);
    crate::wireguard::bytes::push_all(&mut out, name);
    out.push(10);
    assert(out@ =~= ls_text(name@, is_dir, size));
    out
}

} // verus!

verus! {

// ───────────────────────────────────────────────────────────────────────
// CHANGING DIRECTORY

/// The non-empty names of a path cut at its slashes.
pub open spec fn path_names(path: Seq<u8>) -> Seq<Seq<u8>> {
    crate::storage::split_on(path, 47).filter(|p: Seq<u8>| p.len() > 0)
}

/// Each name behind a slash, in order.
pub open spec fn slash_joined(names: Seq<Seq<u8>>) -> Seq<u8>
    decreases names.len(),
{
    if names.len() == 0 {
        seq![]
    } else {
        slash_joined(names.drop_last()) + seq![47u8] + names.last()
    }
}

/// The directory `levels` above `cwd`: its names with the last `levels`
/// dropped, behind slashes; the root when none is left.
pub open spec fn up_from(cwd: Seq<u8>, levels: nat) -> Seq<u8> {
    let names = path_names(cwd);
    let kept = if levels >= names.len() {
        seq![]
    } else {
        names.take(names.len() - levels)
    };
    if kept.len() == 0 {
        seq![47u8]
    } else {
        slash_joined(kept)
    }
}

/// `arg` is made of dots only.
pub open spec fn all_dots(arg: Seq<u8>) -> bool {
    forall|i: int| 0 <= i < arg.len() ==> arg[i] == 46
}

/// `arg` from the working directory `cwd`: kept when it starts with a
/// slash, else behind `cwd` and one slash.
pub open spec fn joined_path(cwd: Seq<u8>, arg: Seq<u8>) -> Seq<u8> {
    if arg.len() > 0 && arg[0] == 47 {
        arg
    } else if cwd.len() > 0 && cwd.last() == 47 {
        cwd + arg
    } else {
        cwd + seq![47u8] + arg
    }
}

/// Where `cd` goes from `cwd`: the root without an argument; for `.`,
/// `..`, `...` and so on, one directory up per dot after the first; any
/// other argument joined to `cwd`.
pub open spec fn cd_path(cwd: Seq<u8>, arg: Option<Seq<u8>>) -> Seq<u8> {
    match arg {
        None => seq![47u8],
        Some(a) => if all_dots(a) {
            if a.len() <= 1 {
                cwd
            } else {
                up_from(cwd, (a.len() - 1) as nat)
            }
        } else {
            joined_path(cwd, a)
        },
    }
}

fn copy_all(s: &[u8]) -> (r: Vec<u8>)
    ensures
        r@ == s@,
{
    let mut v: Vec<u8> = Vec::new();
    crate::wireguard::bytes::push_all(&mut v, s);
    assert(v@ =~= s@);
    v
}

/// The directory `cd` changes to from `cwd` given its argument.
pub fn cd_target(cwd: &[u8], arg: Option<&[u8]>) -> (r: Vec<u8>)
    ensures
        r@ == cd_path(
            cwd@,
            match arg {
                Some(a) => Some(a@),
                None => None,
            },
        ),
{
    let a = match arg {
        None => {
            let mut root: Vec<u8> = Vec::new();
            root.push(47);
            assert(root@ =~= seq![47u8]);
            return root;
        },
        Some(a) => a,
    };
    let mut dots = true;
    let mut i: usize = 0;
    while i < a.len()
        invariant
            i <= a@.len(),
            dots == (forall|k: int| 0 <= k < i ==> a@[k] == 46),
        decreases a.len() - i,
    {
        if a[i] != 46 {
            dots = false;
        }
        i = i + 1;
    }
    if !dots {
        let mut out = copy_all(cwd);
        if a.len() > 0 && a[0] == 47 {
            return copy_all(a);
        }
        let n = cwd.len();
        if !(n > 0 && cwd[n - 1] == 47) {
            out.push(47);
        }
        crate::wireguard::bytes::push_all(&mut out, a);
        return out;
    }
    if a.len() <= 1 {
        return copy_all(cwd);
    }
    let levels = a.len() - 1;
    let parts = crate::storage::path_components(cwd);
    let ghost split = crate::storage::split_on(cwd@, 47);
    let mut names: Vec<Vec<u8>> = Vec::new();
    let mut j: usize = 0;
    while j < parts.len()
        invariant
            crate::storage::names_view(parts@) == split,
            j <= parts@.len(),
            crate::storage::names_view(names@) == split.take(j as int).filter(|p: Seq<u8>| p.len() > 0),
        decreases parts.len() - j,
    {
        let ghost before = crate::storage::names_view(names@);
        if parts[j].len() > 0 {
            let c = copy_all(parts[j].as_slice());
            names.push(c);
            assert(crate::storage::names_view(names@) =~= before.push(split[j as int]));
        }
        proof {
            assert(split.take(j + 1).drop_last() =~= split.take(j as int));
            reveal(Seq::filter);
        }
        j = j + 1;
    }
    assert(split.take(parts@.len() as int) =~= split);
    let keep = if levels >= names.len() {
        0
    } else {
        names.len() - levels
    };
    let mut out: Vec<u8> = Vec::new();
    if keep == 0 {
        out.push(47);
        assert(out@ =~= seq![47u8]);
        return out;
    }
    let ghost all = crate::storage::names_view(names@);
    let mut k: usize = 0;
    while k < keep
        invariant
            keep <= names@.len(),
            all == crate::storage::names_view(names@),
            k <= keep,
            out@ == slash_joined(all.take(k as int)),
        decreases keep - k,
    {
        out.push(47);
        crate::wireguard::bytes::push_all(&mut out, names[k].as_slice());
        assert(all.take(k + 1).drop_last() =~= all.take(k as int));
        k = k + 1;
    }
    out
}

} // verus!

verus! {

// ───────────────────────────────────────────────────────────────────────
// TREE LISTING

/// `a` sorts strictly before `b`, byte by byte, a prefix first.
pub open spec fn name_lt(a: Seq<u8>, b: Seq<u8>) -> bool
    decreases a.len(),
{
    if b.len() == 0 {
        false
    } else if a.len() == 0 {
        true
    } else if a[0] != b[0] {
        a[0] < b[0]
    } else {
        name_lt(a.drop_first(), b.drop_first())
    }
}

/// No name sorts before one in front of it.
pub open spec fn names_sorted(s: Seq<Seq<u8>>) -> bool {
    forall|i: int, j: int| 0 <= i < j < s.len() ==> !name_lt(#[trigger] s[j], #[trigger] s[i])
}

/// Sorting before is transitive.
pub proof fn lemma_name_lt_trans(a: Seq<u8>, b: Seq<u8>, c: Seq<u8>)
    requires
        name_lt(a, b),
        name_lt(b, c),
    ensures
        name_lt(a, c),
    decreases a.len(),
{
    if a.len() > 0 && b.len() > 0 && c.len() > 0 && a[0] == b[0] && b[0] == c[0] {
        lemma_name_lt_trans(a.drop_first(), b.drop_first(), c.drop_first());
    }
}

/// No name sorts before itself.
pub proof fn lemma_name_lt_irrefl(a: Seq<u8>)
    ensures
        !name_lt(a, a),
    decreases a.len(),
{
    if a.len() > 0 {
        lemma_name_lt_irrefl(a.drop_first());
    }
}

fn name_less(a: &[u8], b: &[u8]) -> (r: bool)
    ensures
        r == name_lt(a@, b@),
{
    let mut i: usize = 0;
    assert(a@.skip(0) =~= a@ && b@.skip(0) =~= b@);
    while i < a.len() && i < b.len()
        invariant
            i <= a@.len(),
            i <= b@.len(),
            name_lt(a@, b@) == name_lt(a@.skip(i as int), b@.skip(i as int)),
        decreases a.len() - i,
    {
        if a[i] != b[i] {
            return a[i] < b[i];
        }
        assert(a@.skip(i as int).drop_first() =~= a@.skip(i + 1));
        assert(b@.skip(i as int).drop_first() =~= b@.skip(i + 1));
        i = i + 1;
    }
    i < b.len()
}

/// `names` sorted by name (equal names side by side).
pub fn sort_names(names: &Vec<Vec<u8>>) -> (r: Vec<Vec<u8>>)
    ensures
        names_sorted(crate::storage::names_view(r@)),
        crate::storage::names_view(r@).to_multiset() == crate::storage::names_view(names@).to_multiset(),
{
    broadcast use vstd::seq_lib::group_to_multiset_ensures;

    let mut out: Vec<Vec<u8>> = Vec::new();
    let mut i: usize = 0;
    while i < names.len()
        invariant
            i <= names@.len(),
            names_sorted(crate::storage::names_view(out@)),
            crate::storage::names_view(out@).to_multiset() == crate::storage::names_view(
                names@.take(i as int),
            ).to_multiset(),
        decreases names.len() - i,
    {
        let x = copy_all(names[i].as_slice());
        let ghost xs = x@;
        let ghost view = crate::storage::names_view(out@);
        let mut pos: usize = 0;
        while pos < out.len() && !name_less(x.as_slice(), out[pos].as_slice())
            invariant
                pos <= out@.len(),
                view == crate::storage::names_view(out@),
                xs == x@,
                forall|k: int| 0 <= k < pos ==> !name_lt(xs, #[trigger] view[k]),
            decreases out.len() - pos,
        {
            pos = pos + 1;
        }
        out.insert(pos, x);
        proof {
            let nv = crate::storage::names_view(out@);
            assert(nv =~= view.insert(pos as int, xs));
            assert forall|a: int, b: int| 0 <= a < b < nv.len() implies !name_lt(#[trigger] nv[b], #[trigger] nv[a]) by {
                if a == pos {
                    // nv[b] == view[b - 1], which the search passed or comes after view[pos].
                    if pos < view.len() {
                        assert(name_lt(xs, view[pos as int]));
                        if name_lt(nv[b], xs) {
                            assert(nv[b] == view[b - 1]);
                            lemma_name_lt_trans(nv[b], xs, view[pos as int]);
                            if b - 1 > pos {
                                assert(!name_lt(view[b - 1], view[pos as int]));
                            } else {
                                lemma_name_lt_irrefl(view[pos as int]);
                            }
                        }
                    }
                } else if b == pos {
                    assert(!name_lt(xs, view[a]));
                } else {
                    let aa = if a < pos { a } else { a - 1 };
                    let bb = if b < pos { b } else { b - 1 };
                    assert(nv[a] == view[aa] && nv[b] == view[bb] && aa < bb);
                }
            }
            let taken = crate::storage::names_view(names@.take(i + 1));
            let prev = crate::storage::names_view(names@.take(i as int));
            assert(taken =~= prev.push(xs));
            vstd::seq_lib::to_multiset_insert(view, pos as int, xs);
            vstd::seq_lib::to_multiset_build(prev, xs);
            assert(nv.to_multiset() == taken.to_multiset());
        }
        i = i + 1;
    }
    assert(names@.take(names@.len() as int) =~= names@);
    out
}

/// The names of the entries that are (or are not) directories, in order.
pub open spec fn names_where(es: Seq<(Vec<u8>, bool)>, dir: bool) -> Seq<Seq<u8>> {
    es.filter(|e: (Vec<u8>, bool)| e.1 == dir).map_values(|e: (Vec<u8>, bool)| e.0@)
}

/// The order `tree` lists a directory in: its sub-directories sorted by
/// name, then its files sorted by name.
pub fn tree_order(entries: &Vec<(Vec<u8>, bool)>) -> (r: (Vec<Vec<u8>>, Vec<Vec<u8>>))
    ensures
        names_sorted(crate::storage::names_view(r.0@)),
        names_sorted(crate::storage::names_view(r.1@)),
        crate::storage::names_view(r.0@).to_multiset() == names_where(entries@, true).to_multiset(),
        crate::storage::names_view(r.1@).to_multiset() == names_where(entries@, false).to_multiset(),
{
    let mut dirs: Vec<Vec<u8>> = Vec::new();
    let mut files: Vec<Vec<u8>> = Vec::new();
    let mut i: usize = 0;
    while i < entries.len()
        invariant
            i <= entries@.len(),
            crate::storage::names_view(dirs@) == names_where(entries@.take(i as int), true),
            crate::storage::names_view(files@) == names_where(entries@.take(i as int), false),
        decreases entries.len() - i,
    {
        let ghost d0 = crate::storage::names_view(dirs@);
        let ghost f0 = crate::storage::names_view(files@);
        let c = copy_all(entries[i].0.as_slice());
        if entries[i].1 {
            dirs.push(c);
            assert(crate::storage::names_view(dirs@) =~= d0.push(entries@[i as int].0@));
        } else {
            files.push(c);
            assert(crate::storage::names_view(files@) =~= f0.push(entries@[i as int].0@));
        }
        proof {
            let t = entries@.take(i + 1);
            assert(t.drop_last() =~= entries@.take(i as int));
            reveal(Seq::filter);
            assert(names_where(t, true) =~= (if entries@[i as int].1 { d0.push(entries@[i as int].0@) } else { d0 }));
            assert(names_where(t, false) =~= (if !entries@[i as int].1 { f0.push(entries@[i as int].0@) } else { f0 }));
        }
        i = i + 1;
    }
    assert(entries@.take(entries@.len() as int) =~= entries@);
    (sort_names(&dirs), sort_names(&files))
}

/// The connector in front of an entry: the last one closes the branch.
pub open spec fn connector(is_last: bool) -> Seq<u8> {
    if is_last {
        "└── ".spec_bytes()
    } else {
        "├── ".spec_bytes()
    }
}

/// The line `tree` prints for an entry: the prefix of its depth, the
/// connector, the entry's icon and its name.
pub open spec fn tree_text(prefix: Seq<u8>, is_last: bool, name: Seq<u8>, is_dir: bool) -> Seq<u8> {
    prefix + connector(is_last) + glyph(file_kind(name, is_dir)).spec_bytes() + name + seq![13u8, 10u8]
}

/// The prefix of the entries inside a directory: the branch is continued
/// unless the directory was the last entry.
pub open spec fn child_prefix_text(prefix: Seq<u8>, is_last: bool) -> Seq<u8> {
    prefix + if is_last {
        "    ".spec_bytes()
    } else {
        "│   ".spec_bytes()
    }
}

pub fn tree_line(prefix: &[u8], is_last: bool, name: &[u8], is_dir: bool) -> (r: Vec<u8>)
    ensures
        r@ == tree_text(prefix@, is_last, name@, is_dir),
{
    let mut out = copy_all(prefix);
    let c = if is_last {
        "└── "
    } else {
        "├── "
    };
    crate::wireguard::bytes::push_all(&mut out, c.as_bytes());
    crate::wireguard::bytes::push_all(&mut out, icon(name, is_dir).as_bytes());
    crate::wireguard::bytes::push_all(&mut out, name);
    out.push(13);
    out.push(10);
    out
}

pub fn child_prefix(prefix: &[u8], is_last: bool) -> (r: Vec<u8>)
    ensures
        r@ == child_prefix_text(prefix@, is_last),
{
    let mut out = copy_all(prefix);
    let tail = if is_last {
        "    "
    } else {
        "│   "
    };
    crate::wireguard::bytes::push_all(&mut out, tail.as_bytes());
    out
}


// ───────────────────────────────────────────────────────────────────────
// COMMAND LINES

/// The words of `s` from position `i` on, `start` being where the word
/// under way began (negative when between words): words are the runs of
/// bytes that are not white space.
pub open spec fn words_scan(s: Seq<u8>, i: int, start: int) -> Seq<Seq<u8>>
    decreases s.len() - i,
{
    if i >= s.len() {
        if start >= 0 {
            seq![s.subrange(start, s.len() as int)]
        } else {
            seq![]
        }
    } else if crate::text::is_space(s[i]) {
        if start >= 0 {
            seq![s.subrange(start, i)] + words_scan(s, i + 1, -1)
        } else {
            words_scan(s, i + 1, -1)
        }
    } else {
        words_scan(s, i + 1, if start >= 0 { start } else { i })
    }
}

/// The words of a command line.
pub open spec fn words_of(s: Seq<u8>) -> Seq<Seq<u8>> {
    words_scan(s, 0, -1)
}

/// Cuts a command line into its words.
pub fn split_words(line: &[u8]) -> (r: Vec<Vec<u8>>)
    ensures
        crate::storage::names_view(r@) == words_of(line@),
{
    let n = line.len();
    let mut out: Vec<Vec<u8>> = Vec::new();
    let mut start: Option<usize> = None;
    let mut i: usize = 0;
    while i < n
        invariant
            i <= n == line@.len(),
            start matches Some(a) ==> a < i,
            words_of(line@) == crate::storage::names_view(out@) + words_scan(
                line@,
                i as int,
                match start {
                    Some(a) => a as int,
                    None => -1,
                },
            ),
        decreases n - i,
    {
        let c = line[i];
        if c == 32 || (9 <= c && c <= 13) {
            if let Some(a) = start {
                let w = copy_range(line, a, i);
                let ghost before = crate::storage::names_view(out@);
                out.push(w);
                assert(crate::storage::names_view(out@) =~= before.push(line@.subrange(a as int, i as int)));
                assert(before + (seq![line@.subrange(a as int, i as int)] + words_scan(line@, i + 1, -1))
                    =~= before.push(line@.subrange(a as int, i as int)) + words_scan(line@, i + 1, -1));
            }
            start = None;
        } else if start.is_none() {
            start = Some(i);
        }
        i = i + 1;
    }
    if let Some(a) = start {
        let w = copy_range(line, a, n);
        let ghost before = crate::storage::names_view(out@);
        out.push(w);
        assert(crate::storage::names_view(out@) =~= before.push(line@.subrange(a as int, n as int)));
    } else {
        assert(crate::storage::names_view(out@) + seq![] =~= crate::storage::names_view(out@));
    }
    out
}

/// A copy of `s[a..b]`.
fn copy_range(s: &[u8], a: usize, b: usize) -> (r: Vec<u8>)
    requires
        a <= b <= s@.len(),
    ensures
        r@ == s@.subrange(a as int, b as int),
{
    let mut v: Vec<u8> = Vec::new();
    let mut i = a;
    while i < b
        invariant
            a <= i <= b <= s@.len(),
            v@ == s@.subrange(a as int, i as int),
        decreases b - i,
    {
        v.push(s[i]);
        i = i + 1;
        assert(v@ =~= s@.subrange(a as int, i as int));
    }
    v
}

/// The shell's commands.
#[derive(Clone, Copy, PartialEq, Eq, Structural)]
pub enum ShellCommand {
    Empty,
    Pwd,
    Cd,
    Ls,
    Tree,
    Cat,
    Hexdump,
    Rm,
    Sensor,
    Sensors,
    Help,
    Unknown,
}

pub const WORD_PWD: [u8; 3] = [112, 119, 100];
pub const WORD_CD: [u8; 2] = [99, 100];
pub const WORD_LS: [u8; 2] = [108, 115];
pub const WORD_TREE: [u8; 4] = [116, 114, 101, 101];
pub const WORD_CAT: [u8; 3] = [99, 97, 116];
pub const WORD_HEXDUMP: [u8; 7] = [104, 101, 120, 100, 117, 109, 112];
pub const WORD_RM: [u8; 2] = [114, 109];
pub const WORD_SENSOR: [u8; 6] = [115, 101, 110, 115, 111, 114];
pub const WORD_SENSORS: [u8; 7] = [115, 101, 110, 115, 111, 114, 115];
pub const WORD_HELP: [u8; 4] = [104, 101, 108, 112];
pub const WORD_BATTERY: [u8; 7] = [98, 97, 116, 116, 101, 114, 121];
pub const WORD_BATTERY_LEVEL: [u8; 13] = [98, 97, 116, 116, 101, 114, 121, 95, 108, 101, 118, 101, 108];
pub const WORD_BATTERY_PERCENTAGE: [u8; 18] = [
    98, 97, 116, 116, 101, 114, 121, 95, 112, 101, 114, 99, 101, 110, 116, 97, 103, 101,
];

/// The command a line's first word names (`Empty` for a blank line).
pub open spec fn command_kind(words: Seq<Seq<u8>>) -> ShellCommand {
    if words.len() == 0 {
        ShellCommand::Empty
    } else {
        let w = words[0];
        if w == WORD_PWD@ {
            ShellCommand::Pwd
        } else if w == WORD_CD@ {
            ShellCommand::Cd
        } else if w == WORD_LS@ {
            ShellCommand::Ls
        } else if w == WORD_TREE@ {
            ShellCommand::Tree
        } else if w == WORD_CAT@ {
            ShellCommand::Cat
        } else if w == WORD_HEXDUMP@ {
            ShellCommand::Hexdump
        } else if w == WORD_RM@ {
            ShellCommand::Rm
        } else if w == WORD_SENSOR@ {
            ShellCommand::Sensor
        } else if w == WORD_SENSORS@ {
            ShellCommand::Sensors
        } else if w == WORD_HELP@ {
            ShellCommand::Help
        } else {
            ShellCommand::Unknown
        }
    }
}

/// The word that names a command (none for a blank or unknown line).
pub open spec fn command_word(c: ShellCommand) -> Seq<u8> {
    match c {
        ShellCommand::Pwd => seq![112u8, 119, 100],
        ShellCommand::Cd => seq![99u8, 100],
        ShellCommand::Ls => seq![108u8, 115],
        ShellCommand::Tree => seq![116u8, 114, 101, 101],
        ShellCommand::Cat => seq![99u8, 97, 116],
        ShellCommand::Hexdump => seq![104u8, 101, 120, 100, 117, 109, 112],
        ShellCommand::Rm => seq![114u8, 109],
        ShellCommand::Sensor => seq![115u8, 101, 110, 115, 111, 114],
        ShellCommand::Sensors => seq![115u8, 101, 110, 115, 111, 114, 115],
        ShellCommand::Help => seq![104u8, 101, 108, 112],
        _ => seq![],
    }
}

/// A line runs the command `c` exactly when its first word is `c`'s own
/// word (`pwd`, `cd`, `ls`, `tree`, `cat`, `hexdump`, `rm`, `sensor`,
/// `sensors`, `help`): each word leads to its own command and distinct
/// words to distinct commands. A blank line runs nothing, and any other
/// first word is unknown.
pub proof fn lemma_command_words(ws: Seq<Seq<u8>>, c: ShellCommand)
    ensures
        c != ShellCommand::Empty && c != ShellCommand::Unknown ==> (command_kind(ws) == c <==> (ws.len() > 0
            && ws[0] == command_word(c))),
        command_kind(ws) == ShellCommand::Empty <==> ws.len() == 0,
{
    assert(WORD_PWD@ =~= seq![112u8, 119, 100]);
    assert(WORD_CD@ =~= seq![99u8, 100]);
    assert(WORD_LS@ =~= seq![108u8, 115]);
    assert(WORD_TREE@ =~= seq![116u8, 114, 101, 101]);
    assert(WORD_CAT@ =~= seq![99u8, 97, 116]);
    assert(WORD_HEXDUMP@ =~= seq![104u8, 101, 120, 100, 117, 109, 112]);
    assert(WORD_RM@ =~= seq![114u8, 109]);
    assert(WORD_SENSOR@ =~= seq![115u8, 101, 110, 115, 111, 114]);
    assert(WORD_SENSORS@ =~= seq![115u8, 101, 110, 115, 111, 114, 115]);
    assert(WORD_HELP@ =~= seq![104u8, 101, 108, 112]);
    if ws.len() > 0 {
        let w = ws[0];
        if w.len() == 2 {
            assert(w == seq![99u8, 100] ==> w != seq![108u8, 115] && w != seq![114u8, 109]);
            assert(w == seq![108u8, 115] ==> w != seq![114u8, 109]);
            if w == seq![99u8, 100] {
                assert(w[0] == 99);
            }
            if w == seq![108u8, 115] {
                assert(w[0] == 108);
            }
            if w == seq![114u8, 109] {
                assert(w[0] == 114);
            }
        }
        if w.len() == 3 {
            if w == seq![112u8, 119, 100] {
                assert(w[0] == 112);
            }
            if w == seq![99u8, 97, 116] {
                assert(w[0] == 99);
            }
        }
        if w.len() == 4 {
            if w == seq![116u8, 114, 101, 101] {
                assert(w[0] == 116);
            }
            if w == seq![104u8, 101, 108, 112] {
                assert(w[0] == 104);
            }
        }
        if w.len() == 7 {
            if w == seq![104u8, 101, 120, 100, 117, 109, 112] {
                assert(w[0] == 104 && w[1] == 101);
            }
            if w == seq![115u8, 101, 110, 115, 111, 114, 115] {
                assert(w[0] == 115);
            }
        }
    }
}

/// The command of a line cut into `words`.
pub fn command_of(words: &Vec<Vec<u8>>) -> (r: ShellCommand)
    ensures
        r == command_kind(crate::storage::names_view(words@)),
{
    if words.len() == 0 {
        return ShellCommand::Empty;
    }
    let w = words[0].as_slice();
    assert(w@ == crate::storage::names_view(words@)[0]);
    if crate::storage::bytes_eq(w, &WORD_PWD) {
        ShellCommand::Pwd
    } else if crate::storage::bytes_eq(w, &WORD_CD) {
        ShellCommand::Cd
    } else if crate::storage::bytes_eq(w, &WORD_LS) {
        ShellCommand::Ls
    } else if crate::storage::bytes_eq(w, &WORD_TREE) {
        ShellCommand::Tree
    } else if crate::storage::bytes_eq(w, &WORD_CAT) {
        ShellCommand::Cat
    } else if crate::storage::bytes_eq(w, &WORD_HEXDUMP) {
        ShellCommand::Hexdump
    } else if crate::storage::bytes_eq(w, &WORD_RM) {
        ShellCommand::Rm
    } else if crate::storage::bytes_eq(w, &WORD_SENSOR) {
        ShellCommand::Sensor
    } else if crate::storage::bytes_eq(w, &WORD_SENSORS) {
        ShellCommand::Sensors
    } else if crate::storage::bytes_eq(w, &WORD_HELP) {
        ShellCommand::Help
    } else {
        ShellCommand::Unknown
    }
}

/// The names the battery sensor answers to.
pub open spec fn names_battery(w: Seq<u8>) -> bool {
    w == WORD_BATTERY@ || w == WORD_BATTERY_LEVEL@ || w == WORD_BATTERY_PERCENTAGE@
}

/// Whether `name` is one of the battery sensor's names.
pub fn is_battery_sensor(name: &[u8]) -> (r: bool)
    ensures
        r == names_battery(name@),
{
    crate::storage::bytes_eq(name, &WORD_BATTERY) || crate::storage::bytes_eq(name, &WORD_BATTERY_LEVEL)
        || crate::storage::bytes_eq(name, &WORD_BATTERY_PERCENTAGE)
}

} // verus!
