//! Keyboard input and line editing over any byte stream: a decoder that
//! turns terminal bytes into key events, and a line editor with echo,
//! cursor movement and a small history.
//!
//! Both are pure state machines: the caller reads bytes, hands them in,
//! and writes back the echo bytes the editor asks for.

use vstd::prelude::*;
use vstd::string::StringSliceAdditionalSpecFns;

verus! {

/// Why a key or a line could not be read.
pub enum KeyboardError<E> {
    /// The transport failed.
    Io(E),
    /// The stream ended.
    Eof,
}

impl<E> From<E> for KeyboardError<E> {
    fn from(e: E) -> (r: Self) {
        KeyboardError::Io(e)
    }
}

impl<E> vstd::std_specs::convert::FromSpecImpl<E> for KeyboardError<E> {
    open spec fn obeys_from_spec() -> bool {
        true
    }

    open spec fn from_spec(v: E) -> Self {
        KeyboardError::Io(v)
    }
}

/// One decoded key press.
#[derive(Debug, Clone, Copy, PartialEq, Eq, Structural)]
pub enum KeyEvent {
    Char(char),
    Enter,
    Backspace,
    Tab,
    Escape,
    Up,
    Down,
    Left,
    Right,
    CtrlC,
}

/// Where the decoder stands inside an escape sequence.
#[derive(Debug, Clone, Copy, PartialEq, Eq, Structural)]
pub enum DecodeState {
    /// Between keys.
    Ground,
    /// After an ESC byte.
    Escape,
    /// Inside a control sequence (`ESC [`).
    Csi,
}

/// The most parameter bytes of a control sequence that are kept.
pub const MAX_CSI_PARAMS: usize = 4;

/// The decoder's state as plain values.
pub struct KeyboardView {
    /// A CR was seen, so the LF right after it is not a second Enter.
    pub pending_lf: bool,
    pub state: DecodeState,
    /// The parameter bytes of the control sequence being read.
    pub params: Seq<u8>,
}

/// The decoder with its escape sequence dropped, as after a key or a
/// failed read.
pub open spec fn to_ground(v: KeyboardView) -> KeyboardView {
    KeyboardView { pending_lf: v.pending_lf, state: DecodeState::Ground, params: Seq::empty() }
}

/// Whether a byte ends a control sequence.
pub open spec fn is_csi_final(b: u8) -> bool {
    0x40 <= b <= 0x7E
}

/// The key a complete control sequence stands for, if any.
pub open spec fn csi_key(params: Seq<u8>, b: u8) -> Option<KeyEvent> {
    if b == 0x41 {
        Some(KeyEvent::Up)
    } else if b == 0x42 {
        Some(KeyEvent::Down)
    } else if b == 0x43 {
        Some(KeyEvent::Right)
    } else if b == 0x44 {
        Some(KeyEvent::Left)
    } else if b == 0x7E {
        if params == seq![0x33u8] {
            Some(KeyEvent::Backspace)
        } else {
            None
        }
    } else {
        Some(KeyEvent::Escape)
    }
}

/// The key a byte between keys stands for, if any.
pub open spec fn ground_key(b: u8) -> Option<KeyEvent> {
    if b == 0x08 || b == 0x7F {
        Some(KeyEvent::Backspace)
    } else if b == 0x09 {
        Some(KeyEvent::Tab)
    } else if b == 0x03 {
        Some(KeyEvent::CtrlC)
    } else if 0x20 <= b <= 0x7E {
        Some(KeyEvent::Char(b as char))
    } else {
        None
    }
}

/// One byte through the decoder: its next state and the key it completes.
pub open spec fn decode_step(v: KeyboardView, b: u8) -> (KeyboardView, Option<KeyEvent>) {
    match v.state {
        DecodeState::Ground => {
            if b == 0x0D {
                (KeyboardView { pending_lf: true, ..v }, Some(KeyEvent::Enter))
            } else if b == 0x0A {
                if v.pending_lf {
                    (KeyboardView { pending_lf: false, ..v }, None)
                } else {
                    (v, Some(KeyEvent::Enter))
                }
            } else if b == 0x1B {
                (KeyboardView { state: DecodeState::Escape, ..v }, None)
            } else {
                (v, ground_key(b))
            }
        },
        DecodeState::Escape => {
            if b == 0x5B {
                (
                    KeyboardView {
                        pending_lf: v.pending_lf,
                        state: DecodeState::Csi,
                        params: Seq::empty(),
                    },
                    None,
                )
            } else {
                (to_ground(v), Some(KeyEvent::Escape))
            }
        },
        DecodeState::Csi => {
            if is_csi_final(b) {
                (to_ground(v), csi_key(v.params, b))
            } else if b == 0x1B {
                (to_ground(v), Some(KeyEvent::Escape))
            } else if v.params.len() < MAX_CSI_PARAMS {
                (KeyboardView { params: v.params.push(b), ..v }, None)
            } else {
                (v, None)
            }
        },
    }
}

/// The first key in `s` from position `i` on, with the number of bytes
/// read up to and including it, and the decoder's state afterwards. When
/// the bytes run out, an escape sequence that stopped right after ESC
/// counts as the Escape key; any other unfinished input gives no key.
pub open spec fn decode_from(v: KeyboardView, s: Seq<u8>, i: int) -> (KeyboardView, Option<(KeyEvent, int)>)
    decreases s.len() - i,
{
    if i < 0 || i >= s.len() {
        (
            to_ground(v),
            if v.state == DecodeState::Escape {
                Some((KeyEvent::Escape, s.len() as int))
            } else {
                None
            },
        )
    } else {
        let (next, key) = decode_step(v, s[i]);
        match key {
            Some(k) => (next, Some((k, i + 1))),
            None => decode_from(next, s, i + 1),
        }
    }
}

/// Turns a raw byte stream into key events.
pub struct Keyboard {
    pending_lf_ignore: bool,
    state: DecodeState,
    params: Vec<u8>,
}

impl View for Keyboard {
    type V = KeyboardView;

    closed spec fn view(&self) -> KeyboardView {
        KeyboardView { pending_lf: self.pending_lf_ignore, state: self.state, params: self.params@ }
    }
}

impl Keyboard {
    /// The parameter bytes stay within their bound.
    pub open spec fn wf(&self) -> bool {
        self@.params.len() <= MAX_CSI_PARAMS
    }

    /// A decoder between keys, with no CR seen.
    pub fn new() -> (k: Self)
        ensures
            k.wf(),
            k@ == (KeyboardView {
                pending_lf: false,
                state: DecodeState::Ground,
                params: Seq::empty(),
            }),
    {
        Keyboard { pending_lf_ignore: false, state: DecodeState::Ground, params: Vec::new() }
    }

    /// Feeds one byte; returns the key it completes, if any.
    pub fn feed(&mut self, b: u8) -> (r: Option<KeyEvent>)
        requires
            old(self).wf(),
        ensures
            final(self).wf(),
            (final(self)@, r) == decode_step(old(self)@, b),
    {
        match self.state {
            DecodeState::Ground => {
                if b == 0x0D {
                    self.pending_lf_ignore = true;
                    Some(KeyEvent::Enter)
                } else if b == 0x0A {
                    if self.pending_lf_ignore {
                        self.pending_lf_ignore = false;
                        None
                    } else {
                        Some(KeyEvent::Enter)
                    }
                } else if b == 0x1B {
                    self.state = DecodeState::Escape;
                    None
                } else if b == 0x08 || b == 0x7F {
                    Some(KeyEvent::Backspace)
                } else if b == 0x09 {
                    Some(KeyEvent::Tab)
                } else if b == 0x03 {
                    Some(KeyEvent::CtrlC)
                } else if 0x20 <= b && b <= 0x7E {
                    Some(KeyEvent::Char(b as char))
                } else {
                    None
                }
            },
            DecodeState::Escape => {
                if b == 0x5B {
                    self.state = DecodeState::Csi;
                    self.params = Vec::new();
                    None
                } else {
                    self.state = DecodeState::Ground;
                    self.params = Vec::new();
                    Some(KeyEvent::Escape)
                }
            },
            DecodeState::Csi => {
                if 0x40 <= b && b <= 0x7E {
                    let key = if b == 0x41 {
                        Some(KeyEvent::Up)
                    } else if b == 0x42 {
                        Some(KeyEvent::Down)
                    } else if b == 0x43 {
                        Some(KeyEvent::Right)
                    } else if b == 0x44 {
                        Some(KeyEvent::Left)
                    } else if b == 0x7E {
                        if self.params.len() == 1 && self.params[0] == 0x33 {
                            assert(self.params@ =~= seq![0x33u8]);
                            Some(KeyEvent::Backspace)
                        } else {
                            proof {
                                let three = seq![0x33u8];
                                if self.params@ == three {
                                    assert(three.len() == 1 && three[0] == 0x33);
                                }
                            }
                            None
                        }
                    } else {
                        Some(KeyEvent::Escape)
                    };
                    self.state = DecodeState::Ground;
                    self.params = Vec::new();
                    key
                } else if b == 0x1B {
                    self.state = DecodeState::Ground;
                    self.params = Vec::new();
                    Some(KeyEvent::Escape)
                } else {
                    if self.params.len() < MAX_CSI_PARAMS {
                        self.params.push(b);
                    }
                    None
                }
            },
        }
    }

    /// A read failed: drops any escape sequence in progress. An ESC that
    /// was waiting for its next byte is reported as the Escape key; any
    /// other failure is the caller's to report.
    pub fn interrupt(&mut self) -> (r: Option<KeyEvent>)
        ensures
            final(self).wf(),
            final(self)@ == to_ground(old(self)@),
            r == (if old(self)@.state == DecodeState::Escape {
                Some(KeyEvent::Escape)
            } else {
                None
            }),
    {
        let r = if self.state == DecodeState::Escape {
            Some(KeyEvent::Escape)
        } else {
            None
        };
        self.state = DecodeState::Ground;
        self.params = Vec::new();
        r
    }

    /// Reads the next key from `input`, as from a stream that ends after
    /// its last byte. Returns the key and the number of bytes it took, or
    /// `Eof` when the bytes run out first.
    pub fn read_key<E>(&mut self, input: &[u8]) -> (r: Result<(KeyEvent, usize), KeyboardError<E>>)
        requires
            old(self).wf(),
        ensures
            final(self).wf(),
            final(self)@ == decode_from(old(self)@, input@, 0).0,
            match decode_from(old(self)@, input@, 0).1 {
                Some((k, n)) => (r matches Ok((k2, n2)) && k2 == k && n2 == n),
                None => r matches Err(KeyboardError::Eof),
            },
    {
        let mut i: usize = 0;
        while i < input.len()
            invariant
                self.wf(),
                i <= input.len(),
                decode_from(self@, input@, i as int) == decode_from(old(self)@, input@, 0),
            decreases input.len() - i,
        {
            let ghost before = self@;
            let key = self.feed(input[i]);
            match key {
                Some(k) => {
                    return Ok((k, i + 1));
                },
                None => {
                    assert(decode_from(before, input@, i as int) == decode_from(
                        self@,
                        input@,
                        i + 1,
                    ));
                },
            }
            i = i + 1;
        }
        match self.interrupt() {
            Some(k) => Ok((k, input.len())),
            None => Err(KeyboardError::Eof),
        }
    }
}


// ---------------------------------------------------------------------
// Terminal output

/// Moves the terminal cursor one column left.
pub open spec fn cursor_left() -> Seq<u8> {
    seq![0x1Bu8, 0x5Bu8, 0x44u8]
}

/// Moves the terminal cursor one column right.
pub open spec fn cursor_right() -> Seq<u8> {
    seq![0x1Bu8, 0x5Bu8, 0x43u8]
}

/// Erases from the cursor to the end of the line.
pub open spec fn erase_line() -> Seq<u8> {
    seq![0x1Bu8, 0x5Bu8, 0x4Bu8]
}

/// Carriage return and line feed.
pub open spec fn crlf() -> Seq<u8> {
    seq![0x0Du8, 0x0Au8]
}

/// `n` single steps to the left.
pub open spec fn lefts(n: nat) -> Seq<u8>
    decreases n,
{
    if n == 0 {
        Seq::empty()
    } else {
        cursor_left() + lefts((n - 1) as nat)
    }
}

/// The decimal digits of `n`, most significant first.
pub open spec fn decimal(n: nat) -> Seq<u8>
    decreases n,
{
    if n < 10 {
        seq![(0x30 + n) as u8]
    } else {
        decimal(n / 10).push((0x30 + n % 10) as u8)
    }
}

/// The room of the small buffer the jump sequence is formatted into.
pub const JUMP_ROOM: usize = 16;

/// One sequence that moves the cursor `n` columns left (`ESC [ n D`), as
/// it comes out of a buffer of `JUMP_ROOM` bytes: a piece that does not
/// fit is left out, and formatting stops there.
pub open spec fn left_by(n: nat) -> Seq<u8> {
    let digits = decimal(n);
    if n == 0 {
        Seq::empty()
    } else if 2 + digits.len() + 1 <= JUMP_ROOM {
        seq![0x1Bu8, 0x5Bu8] + digits + seq![0x44u8]
    } else if 2 + digits.len() <= JUMP_ROOM {
        seq![0x1Bu8, 0x5Bu8] + digits
    } else {
        seq![0x1Bu8, 0x5Bu8]
    }
}

fn push_three(out: &mut Vec<u8>, a: u8, b: u8, c: u8)
    ensures
        final(out)@ == old(out)@ + seq![a, b, c],
{
    out.push(a);
    out.push(b);
    out.push(c);
    assert(out@ =~= old(out)@ + seq![a, b, c]);
}

fn push_lefts(out: &mut Vec<u8>, n: usize)
    ensures
        final(out)@ == old(out)@ + lefts(n as nat),
{
    let mut i: usize = 0;
    while i < n
        invariant
            i <= n,
            out@ + lefts((n - i) as nat) == old(out)@ + lefts(n as nat),
        decreases n - i,
    {
        let ghost before = out@;
        push_three(out, 0x1B, 0x5B, 0x44);
        assert(lefts((n - i) as nat) == cursor_left() + lefts((n - (i + 1)) as nat));
        assert(before + lefts((n - i) as nat) =~= out@ + lefts((n - (i + 1)) as nat));
        i = i + 1;
    }
    assert(lefts(0) =~= Seq::<u8>::empty());
    assert(out@ + lefts(0) =~= out@);
}

fn digits_of(n: usize) -> (r: Vec<u8>)
    ensures
        r@ == decimal(n as nat),
    decreases n,
{
    if n < 10 {
        let mut r = Vec::new();
        r.push((0x30 + n) as u8);
        assert(r@ =~= seq![(0x30 + n) as u8]);
        r
    } else {
        let mut r = digits_of(n / 10);
        r.push((0x30 + n % 10) as u8);
        r
    }
}

fn move_cursor_left_n(out: &mut Vec<u8>, n: usize)
    ensures
        final(out)@ == old(out)@ + left_by(n as nat),
{
    if n == 0 {
        assert(out@ + left_by(0) =~= out@);
        return;
    }
    let digits = digits_of(n);
    out.push(0x1B);
    out.push(0x5B);
    if digits.len() <= JUMP_ROOM - 2 {
        let mut i: usize = 0;
        while i < digits.len()
            invariant
                i <= digits.len(),
                out@ == old(out)@ + seq![0x1Bu8, 0x5Bu8] + digits@.take(i as int),
            decreases digits.len() - i,
        {
            out.push(digits[i]);
            assert(digits@.take(i + 1) =~= digits@.take(i as int).push(digits@[i as int]));
            i = i + 1;
        }
        assert(digits@.take(digits.len() as int) =~= digits@);
        if digits.len() <= JUMP_ROOM - 3 {
            out.push(0x44);
        }
    }
    assert(out@ =~= old(out)@ + left_by(n as nat));
}

fn push_from(out: &mut Vec<u8>, src: &Vec<u8>, from: usize)
    requires
        from <= src.len(),
    ensures
        final(out)@ == old(out)@ + src@.skip(from as int),
{
    let mut i = from;
    while i < src.len()
        invariant
            from <= i <= src.len(),
            out@ == old(out)@ + src@.subrange(from as int, i as int),
        decreases src.len() - i,
    {
        out.push(src[i]);
        assert(src@.subrange(from as int, i + 1) =~= src@.subrange(from as int, i as int).push(
            src@[i as int],
        ));
        i = i + 1;
    }
    assert(src@.subrange(from as int, src.len() as int) =~= src@.skip(from as int));
}

fn copy_bytes(src: &Vec<u8>) -> (r: Vec<u8>)
    ensures
        r@ == src@,
{
    let mut r = Vec::new();
    push_from(&mut r, src, 0);
    assert(r@ =~= src@);
    r
}

// ---------------------------------------------------------------------
// History

/// A ring of the last lines, as plain values: the slots in storage order
/// (not in the order they were written) and the slot the next line goes to.
pub struct HistoryView {
    pub slots: Seq<Seq<u8>>,
    pub write_at: nat,
}

/// Writes a line into a ring of `cap` slots: the ring grows until full,
/// then each new line replaces the one in the next slot.
pub open spec fn history_write(h: HistoryView, cap: nat, t: Seq<u8>) -> HistoryView {
    HistoryView {
        slots: if h.slots.len() < cap {
            h.slots.push(t)
        } else {
            h.slots.update(h.write_at as int, t)
        },
        write_at: if h.write_at + 1 >= cap {
            0
        } else {
            h.write_at + 1
        },
    }
}

/// The last `N` lines entered, overwriting the oldest once full.
pub struct History<const N: usize> {
    slots: Vec<Vec<u8>>,
    write_at: usize,
}

impl<const N: usize> View for History<N> {
    type V = HistoryView;

    closed spec fn view(&self) -> HistoryView {
        HistoryView { slots: self.slots@.map_values(|e: Vec<u8>| e@), write_at: self.write_at as nat }
    }
}

impl<const N: usize> History<N> {
    /// The ring has room, the write position is a slot, and until the
    /// ring is full the next line goes right after the last one.
    pub open spec fn wf(&self) -> bool {
        &&& N > 0
        &&& self@.write_at < N
        &&& self@.slots.len() <= N
        &&& self@.slots.len() < N ==> self@.write_at == self@.slots.len()
    }

    /// An empty ring.
    pub fn new() -> (h: Self)
        requires
            N > 0,
        ensures
            h.wf(),
            h@ == (HistoryView { slots: Seq::empty(), write_at: 0 }),
    {
        let h = History { slots: Vec::new(), write_at: 0 };
        assert(h@.slots =~= Seq::<Seq<u8>>::empty());
        h
    }

    /// The number of lines held.
    pub fn len(&self) -> (n: usize)
        ensures
            n == self@.slots.len(),
    {
        self.slots.len()
    }

    /// Whether no line is held.
    pub fn is_empty(&self) -> (b: bool)
        ensures
            b == (self@.slots.len() == 0),
    {
        self.slots.len() == 0
    }

    /// A copy of the line in slot `i`, if the slot is filled.
    pub fn get(&self, i: usize) -> (r: Option<Vec<u8>>)
        ensures
            match r {
                Some(e) => i < self@.slots.len() && e@ == self@.slots[i as int],
                None => i >= self@.slots.len(),
            },
    {
        if i < self.slots.len() {
            Some(copy_bytes(&self.slots[i]))
        } else {
            None
        }
    }

    /// Adds a line.
    pub fn write(&mut self, t: Vec<u8>)
        requires
            old(self).wf(),
        ensures
            final(self).wf(),
            final(self)@ == history_write(old(self)@, N as nat, t@),
    {
        let ghost t_view = t@;
        if self.slots.len() < N {
            self.slots.push(t);
        } else {
            self.slots.set(self.write_at, t);
        }
        if self.write_at + 1 >= N {
            self.write_at = 0;
        } else {
            self.write_at = self.write_at + 1;
        }
        assert(self@.slots =~= history_write(old(self)@, N as nat, t_view).slots);
    }
}


// ---------------------------------------------------------------------
// Line editor

/// Whether a byte is a printable ASCII character, the only kind the
/// keyboard turns into `Char`.
pub open spec fn printable(b: u8) -> bool {
    0x20 <= b <= 0x7E
}

/// Whether a key is one the keyboard can produce: a `Char` is printable
/// ASCII.
pub open spec fn key_ok(k: KeyEvent) -> bool {
    k matches KeyEvent::Char(c) ==> 0x20 <= c as u32 <= 0x7E
}

/// The editor's state as plain values.
pub struct LineView {
    /// The line being edited.
    pub buffer: Seq<u8>,
    /// The cursor's position in it.
    pub cursor: nat,
    /// The width of the prompt in front of the line.
    pub prompt_len: nat,
    /// The lines entered so far.
    pub history: HistoryView,
    /// The history slot shown while browsing with Up and Down.
    pub history_index: Option<nat>,
}

/// What a key did to the line: still editing, a finished line, or the
/// line abandoned with Ctrl-C.
pub type LineStatus = Option<Option<Seq<u8>>>;

/// Types a byte at the cursor, unless the line is full: echoes it, then
/// redraws the rest of the line and moves back to the cursor.
pub open spec fn insert_at(v: LineView, max: nat, b: u8) -> (LineView, Seq<u8>) {
    if v.buffer.len() >= max {
        (v, Seq::empty())
    } else {
        let buf = v.buffer.insert(v.cursor as int, b);
        let cur = v.cursor + 1;
        (
            LineView { buffer: buf, cursor: cur, ..v },
            seq![b] + buf.skip(cur as int) + lefts((buf.len() - cur) as nat),
        )
    }
}

/// Deletes the byte before the cursor, if any: steps back, erases the
/// rest of the line, redraws it and moves back to the cursor.
pub open spec fn delete_before(v: LineView) -> (LineView, Seq<u8>) {
    if v.cursor == 0 {
        (v, Seq::empty())
    } else {
        let cur = (v.cursor - 1) as nat;
        let buf = v.buffer.remove(cur as int);
        (
            LineView { buffer: buf, cursor: cur, ..v },
            cursor_left() + erase_line() + buf.skip(cur as int) + lefts((buf.len() - cur) as nat),
        )
    }
}

/// Erases the shown line and empties the buffer.
pub open spec fn clear_line(v: LineView) -> (LineView, Seq<u8>) {
    (LineView { buffer: Seq::empty(), cursor: 0, ..v }, left_by(v.cursor) + erase_line())
}

/// Replaces the line with the history slot chosen, or clears it when no
/// slot is chosen.
pub open spec fn load_entry(v: LineView) -> (LineView, Seq<u8>) {
    if v.history_index is Some && v.history_index->0 < v.history.slots.len() {
        let e = v.history.slots[v.history_index->0 as int];
        (LineView { buffer: e, cursor: e.len(), ..v }, left_by(v.cursor) + erase_line() + e)
    } else {
        clear_line(v)
    }
}

/// One key through an editor whose line holds at most `max` bytes and
/// whose history holds `hist` lines: the new state, the bytes to echo and
/// what became of the line.
pub open spec fn edit(v: LineView, max: nat, hist: nat, key: KeyEvent) -> (LineView, Seq<u8>, LineStatus) {
    let browsing_off = LineView { history_index: None, ..v };
    match key {
        KeyEvent::Char(c) => {
            let (w, out) = insert_at(browsing_off, max, c as u8);
            (w, out, None)
        },
        KeyEvent::Backspace => {
            let (w, out) = delete_before(browsing_off);
            (w, out, None)
        },
        KeyEvent::Enter => {
            let line = v.buffer;
            (
                LineView {
                    buffer: Seq::empty(),
                    cursor: 0,
                    history: if line.len() > 0 {
                        history_write(v.history, hist, line)
                    } else {
                        v.history
                    },
                    ..v
                },
                crlf(),
                Some(Some(line)),
            )
        },
        KeyEvent::CtrlC => (LineView { buffer: Seq::empty(), cursor: 0, ..v }, crlf(), Some(None)),
        KeyEvent::Left => {
            if v.cursor > 0 {
                (LineView { cursor: (v.cursor - 1) as nat, ..v }, cursor_left(), None)
            } else {
                (v, Seq::empty(), None)
            }
        },
        KeyEvent::Right => {
            if v.cursor < v.buffer.len() {
                (LineView { cursor: v.cursor + 1, ..v }, cursor_right(), None)
            } else {
                (v, Seq::empty(), None)
            }
        },
        KeyEvent::Up => {
            let n = v.history.slots.len();
            if n == 0 {
                (v, Seq::empty(), None)
            } else if v.history_index is None {
                let (w, out) = load_entry(LineView { history_index: Some((n - 1) as nat), ..v });
                (w, out, None)
            } else if v.history_index->0 > 0 {
                let (w, out) = load_entry(
                    LineView { history_index: Some((v.history_index->0 - 1) as nat), ..v },
                );
                (w, out, None)
            } else {
                (v, Seq::empty(), None)
            }
        },
        KeyEvent::Down => {
            if v.history_index is None {
                (v, Seq::empty(), None)
            } else if v.history_index->0 + 1 < v.history.slots.len() {
                let (w, out) = load_entry(
                    LineView { history_index: Some(v.history_index->0 + 1), ..v },
                );
                (w, out, None)
            } else {
                let (w, out) = clear_line(browsing_off);
                (w, out, None)
            }
        },
        _ => (v, Seq::empty(), None),
    }
}

/// An editable line with echo, cursor movement and history, fed by a
/// keyboard. `MAX` bounds the line, `HIST` the number of lines kept.
pub struct LineEditor<const MAX: usize, const HIST: usize> {
    keyboard: Keyboard,
    buffer: Vec<u8>,
    cursor: usize,
    prompt_len: usize,
    history: History<HIST>,
    history_index: Option<usize>,
}

impl<const MAX: usize, const HIST: usize> View for LineEditor<MAX, HIST> {
    type V = LineView;

    closed spec fn view(&self) -> LineView {
        LineView {
            buffer: self.buffer@,
            cursor: self.cursor as nat,
            prompt_len: self.prompt_len as nat,
            history: self.history@,
            history_index: match self.history_index {
                Some(i) => Some(i as nat),
                None => None,
            },
        }
    }
}

/// The editor's invariant over plain values: the line fits and its cursor
/// is inside it; every byte shown or kept is printable; every kept line
/// fits; a browsed slot exists.
pub open spec fn line_wf(v: LineView, max: nat, hist: nat) -> bool {
    &&& hist > 0
    &&& v.history.write_at < hist
    &&& v.history.slots.len() <= hist
    &&& v.history.slots.len() < hist ==> v.history.write_at == v.history.slots.len()
    &&& v.buffer.len() <= max
    &&& v.cursor <= v.buffer.len()
    &&& forall|i: int| 0 <= i < v.buffer.len() ==> printable(#[trigger] v.buffer[i])
    &&& forall|j: int|
        0 <= j < v.history.slots.len() ==> (#[trigger] v.history.slots[j]).len() <= max
            && forall|i: int| 0 <= i < v.history.slots[j].len() ==> printable(v.history.slots[j][i])
    &&& v.history_index is Some ==> v.history_index->0 < v.history.slots.len()
}

impl<const MAX: usize, const HIST: usize> LineEditor<MAX, HIST> {
    /// The editor's invariant.
    pub open spec fn wf(&self) -> bool {
        &&& line_wf(self@, MAX as nat, HIST as nat)
        &&& self.keys().params.len() <= MAX_CSI_PARAMS
    }

    /// The state of the keyboard inside.
    pub closed spec fn keys(&self) -> KeyboardView {
        self.keyboard@
    }

    /// An empty line with no history, fed by `keyboard`.
    pub fn new(keyboard: Keyboard) -> (e: Self)
        requires
            HIST > 0,
            keyboard.wf(),
        ensures
            e.wf(),
            e.keys() == keyboard@,
            e@ == (LineView {
                buffer: Seq::empty(),
                cursor: 0,
                prompt_len: 0,
                history: HistoryView { slots: Seq::empty(), write_at: 0 },
                history_index: None,
            }),
    {
        LineEditor {
            keyboard,
            buffer: Vec::new(),
            cursor: 0,
            prompt_len: 0,
            history: History::new(),
            history_index: None,
        }
    }

    /// Records the width of the prompt shown in front of the line.
    pub fn set_prompt(&mut self, prompt: &str)
        ensures
            final(self)@ == (LineView { prompt_len: prompt.spec_bytes().len() as usize as nat, ..old(self)@ }),
            final(self).keys() == old(self).keys(),
    {
        self.prompt_len = prompt.len();
    }

    /// The line as typed so far.
    pub fn as_bytes(&self) -> (b: &[u8])
        ensures
            b@ == self@.buffer,
    {
        self.buffer.as_slice()
    }

    /// Empties the line and stops browsing the history.
    pub fn clear(&mut self)
        requires
            old(self).wf(),
        ensures
            final(self).wf(),
            final(self)@ == (LineView {
                buffer: Seq::empty(),
                cursor: 0,
                history_index: None,
                ..old(self)@
            }),
            final(self).keys() == old(self).keys(),
    {
        self.buffer.clear();
        self.cursor = 0;
        self.history_index = None;
    }

    /// Starts reading a new line: history browsing starts afresh.
    pub fn start_line(&mut self)
        requires
            old(self).wf(),
        ensures
            final(self).wf(),
            final(self)@ == (LineView { history_index: None, ..old(self)@ }),
            final(self).keys() == old(self).keys(),
    {
        self.history_index = None;
    }
}


impl<const MAX: usize, const HIST: usize> LineEditor<MAX, HIST> {
    fn insert_char(&mut self, b: u8, out: &mut Vec<u8>)
        requires
            old(self).wf(),
            printable(b),
        ensures
            final(self).wf(),
            final(self).keys() == old(self).keys(),
            final(self)@ == insert_at(old(self)@, MAX as nat, b).0,
            final(out)@ == old(out)@ + insert_at(old(self)@, MAX as nat, b).1,
    {
        if self.buffer.len() >= MAX {
            assert(out@ =~= out@ + Seq::<u8>::empty());
            return;
        }
        let ghost old_buf = self.buffer@;
        self.buffer.insert(self.cursor, b);
        self.cursor = self.cursor + 1;
        assert forall|i: int| 0 <= i < self@.buffer.len() implies printable(
            #[trigger] self@.buffer[i],
        ) by {
            if i < self.cursor - 1 {
                assert(self@.buffer[i] == old_buf[i]);
            } else if i > self.cursor - 1 {
                assert(self@.buffer[i] == old_buf[i - 1]);
            }
        }
        out.push(b);
        push_from(out, &self.buffer, self.cursor);
        push_lefts(out, self.buffer.len() - self.cursor);
        assert(out@ =~= old(out)@ + insert_at(old(self)@, MAX as nat, b).1);
    }

    fn delete_char(&mut self, out: &mut Vec<u8>)
        requires
            old(self).wf(),
        ensures
            final(self).wf(),
            final(self).keys() == old(self).keys(),
            final(self)@ == delete_before(old(self)@).0,
            final(out)@ == old(out)@ + delete_before(old(self)@).1,
    {
        if self.cursor == 0 {
            assert(out@ =~= out@ + Seq::<u8>::empty());
            return;
        }
        let ghost old_buf = self.buffer@;
        self.cursor = self.cursor - 1;
        self.buffer.remove(self.cursor);
        assert forall|i: int| 0 <= i < self@.buffer.len() implies printable(
            #[trigger] self@.buffer[i],
        ) by {
            if i < self.cursor {
                assert(self@.buffer[i] == old_buf[i]);
            } else {
                assert(self@.buffer[i] == old_buf[i + 1]);
            }
        }
        push_three(out, 0x1B, 0x5B, 0x44);
        push_three(out, 0x1B, 0x5B, 0x4B);
        push_from(out, &self.buffer, self.cursor);
        push_lefts(out, self.buffer.len() - self.cursor);
        assert(out@ =~= old(out)@ + delete_before(old(self)@).1);
    }

    fn clear_line_and_buffer(&mut self, out: &mut Vec<u8>)
        requires
            old(self).wf(),
        ensures
            final(self).wf(),
            final(self).keys() == old(self).keys(),
            final(self)@ == clear_line(old(self)@).0,
            final(out)@ == old(out)@ + clear_line(old(self)@).1,
    {
        move_cursor_left_n(out, self.cursor);
        push_three(out, 0x1B, 0x5B, 0x4B);
        self.buffer.clear();
        self.cursor = 0;
        assert(self@.buffer =~= Seq::<u8>::empty());
        assert(out@ =~= old(out)@ + clear_line(old(self)@).1);
    }

    fn load_history_entry(&mut self, out: &mut Vec<u8>)
        requires
            old(self).wf(),
        ensures
            final(self).wf(),
            final(self).keys() == old(self).keys(),
            final(self)@ == load_entry(old(self)@).0,
            final(out)@ == old(out)@ + load_entry(old(self)@).1,
    {
        let entry = match self.history_index {
            Some(i) => self.history.get(i),
            None => None,
        };
        match entry {
            Some(e) => {
                move_cursor_left_n(out, self.cursor);
                push_three(out, 0x1B, 0x5B, 0x4B);
                let ghost j = self.history_index->0 as int;
                assert(self@.history.slots[j] == e@);
                self.buffer = e;
                self.cursor = self.buffer.len();
                push_from(out, &self.buffer, 0);
                assert(self.buffer@.skip(0) =~= self.buffer@);
                assert(out@ =~= old(out)@ + load_entry(old(self)@).1);
            },
            None => {
                self.clear_line_and_buffer(out);
            },
        }
    }

    /// Takes one key: edits the line and the history, and returns the bytes
    /// to echo with what became of the line: `None` while editing,
    /// `Some(Some(line))` when Enter finished it, `Some(None)` when Ctrl-C
    /// abandoned it.
    pub fn handle_key(&mut self, key: KeyEvent) -> (r: (Vec<u8>, Option<Option<Vec<u8>>>))
        requires
            old(self).wf(),
            key_ok(key),
        ensures
            final(self).wf(),
            final(self).keys() == old(self).keys(),
            (final(self)@, r.0@, r.1.deep_view()) == edit(old(self)@, MAX as nat, HIST as nat, key),
    {
        let mut out: Vec<u8> = Vec::new();
        let ghost v = self@;
        match key {
            KeyEvent::Char(c) => {
                self.history_index = None;
                let b = (c as u32) as u8;
                self.insert_char(b, &mut out);
                assert(out@ =~= Seq::<u8>::empty() + insert_at(
                    LineView { history_index: None, ..v },
                    MAX as nat,
                    b,
                ).1);
                (out, None)
            },
            KeyEvent::Backspace => {
                self.history_index = None;
                self.delete_char(&mut out);
                assert(out@ =~= Seq::<u8>::empty() + delete_before(
                    LineView { history_index: None, ..v },
                ).1);
                (out, None)
            },
            KeyEvent::Enter => {
                out.push(0x0D);
                out.push(0x0A);
                let line = copy_bytes(&self.buffer);
                if line.len() > 0 {
                    let kept = copy_bytes(&self.buffer);
                    self.history.write(kept);
                }
                self.buffer.clear();
                self.cursor = 0;
                proof {
                    assert(out@ =~= crlf());
                    assert(self@.buffer =~= Seq::<u8>::empty());
                    assert(line.deep_view() =~= line@);
                    let h = self@.history.slots;
                    assert forall|j: int| 0 <= j < h.len() implies (#[trigger] h[j]).len()
                        <= MAX && forall|i: int| 0 <= i < h[j].len() ==> printable(h[j][i]) by {
                        if j < v.history.slots.len() && h[j] == v.history.slots[j] {
                        } else {
                            assert(h[j] == v.buffer);
                        }
                    }
                }
                (out, Some(Some(line)))
            },
            KeyEvent::CtrlC => {
                out.push(0x0D);
                out.push(0x0A);
                self.buffer.clear();
                self.cursor = 0;
                assert(out@ =~= crlf());
                assert(self@.buffer =~= Seq::<u8>::empty());
                (out, Some(None))
            },
            KeyEvent::Left => {
                if self.cursor > 0 {
                    self.cursor = self.cursor - 1;
                    push_three(&mut out, 0x1B, 0x5B, 0x44);
                }
                assert(out@ =~= edit(v, MAX as nat, HIST as nat, key).1);
                (out, None)
            },
            KeyEvent::Right => {
                if self.cursor < self.buffer.len() {
                    self.cursor = self.cursor + 1;
                    push_three(&mut out, 0x1B, 0x5B, 0x43);
                }
                assert(out@ =~= edit(v, MAX as nat, HIST as nat, key).1);
                (out, None)
            },
            KeyEvent::Up => {
                let n = self.history.len();
                if n == 0 {
                    return (out, None);
                }
                match self.history_index {
                    None => {
                        self.history_index = Some(n - 1);
                    },
                    Some(i) => {
                        if i > 0 {
                            self.history_index = Some(i - 1);
                        } else {
                            return (out, None);
                        }
                    },
                }
                self.load_history_entry(&mut out);
                assert(out@ =~= Seq::<u8>::empty() + edit(v, MAX as nat, HIST as nat, key).1);
                (out, None)
            },
            KeyEvent::Down => {
                match self.history_index {
                    None => {
                        return (out, None);
                    },
                    Some(i) => {
                        if i + 1 < self.history.len() {
                            self.history_index = Some(i + 1);
                            self.load_history_entry(&mut out);
                        } else {
                            self.history_index = None;
                            self.clear_line_and_buffer(&mut out);
                        }
                    },
                }
                assert(out@ =~= Seq::<u8>::empty() + edit(v, MAX as nat, HIST as nat, key).1);
                (out, None)
            },
            _ => (out, None),
        }
    }

    /// Feeds one byte from the terminal: decodes it and, when it completes
    /// a key, edits the line with it (see `handle_key`).
    pub fn feed(&mut self, b: u8) -> (r: (Vec<u8>, Option<Option<Vec<u8>>>))
        requires
            old(self).wf(),
        ensures
            final(self).wf(),
            final(self).keys() == decode_step(old(self).keys(), b).0,
            match decode_step(old(self).keys(), b).1 {
                Some(k) => (final(self)@, r.0@, r.1.deep_view()) == edit(
                    old(self)@,
                    MAX as nat,
                    HIST as nat,
                    k,
                ),
                None => final(self)@ == old(self)@ && r.0@.len() == 0 && r.1 is None,
            },
    {
        match self.keyboard.feed(b) {
            Some(k) => self.handle_key(k),
            None => (Vec::new(), None),
        }
    }

    /// A read from the terminal failed: drops any escape sequence in
    /// progress (a lone ESC counts as the Escape key, which edits nothing).
    pub fn read_failed(&mut self)
        requires
            old(self).wf(),
        ensures
            final(self).wf(),
            final(self)@ == old(self)@,
            final(self).keys() == to_ground(old(self).keys()),
    {
        self.keyboard.interrupt();
    }
}


/// Reading a line from the bytes `s` from position `i` on: each byte goes
/// through the decoder, each key through the editor, until a key finishes
/// the line or the bytes run out. Gives the editor and decoder states
/// after, the bytes echoed, the line's outcome (`None` when the bytes ran
/// out first) and the number of bytes read.
pub open spec fn line_from(v: LineView, k: KeyboardView, max: nat, hist: nat, s: Seq<u8>, i: int) -> (
    LineView,
    KeyboardView,
    Seq<u8>,
    LineStatus,
    int,
)
    decreases s.len() - i,
{
    if i < 0 || i >= s.len() {
        (v, to_ground(k), Seq::empty(), None, s.len() as int)
    } else {
        let (k2, key) = decode_step(k, s[i]);
        match key {
            None => line_from(v, k2, max, hist, s, i + 1),
            Some(kk) => {
                let (w, out, st) = edit(v, max, hist, kk);
                if st is Some {
                    (w, k2, out, st, i + 1)
                } else {
                    let r = line_from(w, k2, max, hist, s, i + 1);
                    (r.0, r.1, out + r.2, r.3, r.4)
                }
            },
        }
    }
}

impl<const MAX: usize, const HIST: usize> LineEditor<MAX, HIST> {
    /// Reads a line from `input`, as from a stream that ends after its
    /// last byte: history browsing starts afresh, then bytes are fed until
    /// Enter (the line) or Ctrl-C (`None`); running out of bytes first is
    /// `Eof`. Returns that with the bytes to echo and the number of bytes
    /// read.
    pub fn read_line<E>(&mut self, input: &[u8]) -> (r: (Result<Option<Vec<u8>>, KeyboardError<E>>, Vec<u8>, usize))
        requires
            old(self).wf(),
        ensures
            final(self).wf(),
            ({
                let res = line_from(
                    LineView { history_index: None, ..old(self)@ },
                    old(self).keys(),
                    MAX as nat,
                    HIST as nat,
                    input@,
                    0,
                );
                &&& final(self)@ == res.0
                &&& final(self).keys() == res.1
                &&& r.1@ == res.2
                &&& r.2 == res.4
                &&& match res.3 {
                    None => r.0 matches Err(KeyboardError::Eof),
                    Some(line) => r.0 is Ok && r.0->Ok_0.deep_view() == line,
                }
            }),
    {
        self.start_line();
        let ghost res = line_from(self@, self.keys(), MAX as nat, HIST as nat, input@, 0);
        let mut out: Vec<u8> = Vec::new();
        let mut i: usize = 0;
        while i < input.len()
            invariant
                self.wf(),
                i <= input@.len(),
                res == line_from(
                    LineView { history_index: None, ..old(self)@ },
                    old(self).keys(),
                    MAX as nat,
                    HIST as nat,
                    input@,
                    0,
                ),
                line_from(self@, self.keys(), MAX as nat, HIST as nat, input@, i as int).0 == res.0,
                line_from(self@, self.keys(), MAX as nat, HIST as nat, input@, i as int).1 == res.1,
                out@ + line_from(self@, self.keys(), MAX as nat, HIST as nat, input@, i as int).2 == res.2,
                line_from(self@, self.keys(), MAX as nat, HIST as nat, input@, i as int).3 == res.3,
                line_from(self@, self.keys(), MAX as nat, HIST as nat, input@, i as int).4 == res.4,
            decreases input.len() - i,
        {
            let ghost v = self@;
            let ghost k = self.keys();
            let (echo, status) = self.feed(input[i]);
            proof {
                let (k2, key) = decode_step(k, input@[i as int]);
                if key is Some {
                    let (w, o, st) = edit(v, MAX as nat, HIST as nat, key->0);
                    if st is None {
                        let rr = line_from(w, k2, MAX as nat, HIST as nat, input@, i + 1);
                        assert(out@ + (o + rr.2) =~= (out@ + echo@) + rr.2);
                    }
                } else {
                    assert(out@ + line_from(self@, self.keys(), MAX as nat, HIST as nat, input@, i + 1).2 =~= (out@
                        + echo@) + line_from(self@, self.keys(), MAX as nat, HIST as nat, input@, i + 1).2);
                }
            }
            let mut j: usize = 0;
            let ghost out0 = out@;
            while j < echo.len()
                invariant
                    j <= echo@.len(),
                    out@ == out0 + echo@.take(j as int),
                decreases echo.len() - j,
            {
                out.push(echo[j]);
                assert(echo@.take(j + 1) =~= echo@.take(j as int).push(echo@[j as int]));
                j = j + 1;
            }
            assert(echo@.take(echo@.len() as int) =~= echo@);
            match status {
                Some(line) => {
                    proof {
                        let (k2, key) = decode_step(k, input@[i as int]);
                        let (w, o, st) = edit(v, MAX as nat, HIST as nat, key->0);
                        assert(line_from(v, k, MAX as nat, HIST as nat, input@, i as int) == (w, k2, o, st, i + 1));
                        assert(o == echo@);
                        assert(out@ =~= out0 + o);
                    }
                    return (Ok(line), out, i + 1);
                },
                None => {},
            }
            i = i + 1;
        }
        let ghost v = self@;
        let ghost k = self.keys();
        self.read_failed();
        proof {
            assert(out@ + Seq::<u8>::empty() =~= out@);
        }
        (Err(KeyboardError::Eof), out, input.len())
    }
}

// ---------------------------------------------------------------------
// Laws

/// A CR followed by an LF is one Enter: the LF is swallowed and the
/// decoder is back between keys.
pub proof fn lemma_crlf_is_one_enter(v: KeyboardView)
    requires
        v.state == DecodeState::Ground,
    ensures
        decode_step(v, 0x0D).1 == Some(KeyEvent::Enter),
        decode_step(decode_step(v, 0x0D).0, 0x0A).1 is None,
        decode_step(decode_step(v, 0x0D).0, 0x0A).0 == (KeyboardView { pending_lf: false, ..v }),
{
}

/// Every key the decoder produces is one the line editor accepts.
pub proof fn lemma_decoded_keys_ok(v: KeyboardView, b: u8)
    ensures
        decode_step(v, b).1 matches Some(k) ==> key_ok(k),
{
}

/// Typing a character and deleting it again with Backspace gives back the
/// same line, cursor and history.
pub proof fn lemma_insert_then_delete(v: LineView, max: nat, hist: nat, b: u8)
    requires
        line_wf(v, max, hist),
        v.buffer.len() < max,
    ensures
        delete_before(insert_at(v, max, b).0).0 == v,
{
    let w = insert_at(v, max, b).0;
    assert(w.buffer.remove(v.cursor as int) =~= v.buffer);
}

/// The keys that type the bytes of `s`.
pub open spec fn typing(s: Seq<u8>) -> Seq<KeyEvent> {
    s.map_values(|b: u8| KeyEvent::Char(b as char))
}

/// A run of keys through the editor: the final state, all bytes echoed and
/// what the last key made of the line.
pub open spec fn edit_all(v: LineView, max: nat, hist: nat, keys: Seq<KeyEvent>) -> (LineView, Seq<u8>, LineStatus)
    decreases keys.len(),
{
    if keys.len() == 0 {
        (v, Seq::empty(), None)
    } else {
        let (w, out, status) = edit(v, max, hist, keys[0]);
        let (z, rest, last) = edit_all(w, max, hist, keys.drop_first());
        (z, out + rest, if keys.len() == 1 { status } else { last })
    }
}

proof fn lemma_edit_all_split(v: LineView, max: nat, hist: nat, keys: Seq<KeyEvent>, k: KeyEvent)
    ensures
        edit_all(v, max, hist, keys.push(k)).0 == edit(edit_all(v, max, hist, keys).0, max, hist, k).0,
        edit_all(v, max, hist, keys.push(k)).2 == edit(edit_all(v, max, hist, keys).0, max, hist, k).2,
    decreases keys.len(),
{
    if keys.len() == 0 {
        assert(keys.push(k).drop_first() =~= Seq::<KeyEvent>::empty());
        assert(keys.push(k)[0] == k);
        let w = edit(v, max, hist, k).0;
        assert(edit_all(w, max, hist, Seq::<KeyEvent>::empty()).0 == w);
        assert(edit_all(v, max, hist, keys).0 == v);
    } else {
        assert(keys.push(k)[0] == keys[0]);
        let w = edit(v, max, hist, keys[0]).0;
        assert(keys.push(k).drop_first() =~= keys.drop_first().push(k));
        lemma_edit_all_split(w, max, hist, keys.drop_first(), k);
    }
}

proof fn lemma_typing_appends(v: LineView, max: nat, hist: nat, s: Seq<u8>)
    requires
        v.cursor == v.buffer.len(),
        v.history_index is None,
        v.buffer.len() + s.len() <= max,
        forall|i: int| 0 <= i < s.len() ==> printable(#[trigger] s[i]),
    ensures
        edit_all(v, max, hist, typing(s)).0 == (LineView {
            buffer: v.buffer + s,
            cursor: v.buffer.len() + s.len(),
            history_index: None,
            ..v
        }),
    decreases s.len(),
{
    if s.len() == 0 {
        assert(v.buffer + s =~= v.buffer);
        assert(typing(s) =~= Seq::<KeyEvent>::empty());
    } else {
        let t = s.drop_last();
        let b = s.last();
        assert(typing(s) =~= typing(t).push(KeyEvent::Char(b as char)));
        lemma_typing_appends(v, max, hist, t);
        lemma_edit_all_split(v, max, hist, typing(t), KeyEvent::Char(b as char));
        let w = edit_all(v, max, hist, typing(t)).0;
        assert((b as char) as u8 == b);
        assert(w.buffer.insert(w.cursor as int, b) =~= v.buffer + s);
    }
}


/// Typing the printable bytes `s` into an empty line and pressing Enter
/// gives back exactly `s`, leaves an empty line, and keeps `s` in the
/// history when it is not empty.
pub proof fn lemma_typed_line_returned(v: LineView, max: nat, hist: nat, s: Seq<u8>)
    requires
        line_wf(v, max, hist),
        v.buffer.len() == 0,
        v.history_index is None,
        s.len() <= max,
        forall|i: int| 0 <= i < s.len() ==> printable(#[trigger] s[i]),
    ensures
        edit_all(v, max, hist, typing(s).push(KeyEvent::Enter)).2 == Some(Some(s)),
        edit_all(v, max, hist, typing(s).push(KeyEvent::Enter)).0.buffer.len() == 0,
        edit_all(v, max, hist, typing(s).push(KeyEvent::Enter)).0.cursor == 0,
        edit_all(v, max, hist, typing(s).push(KeyEvent::Enter)).0.history == (if s.len() > 0 {
            history_write(v.history, hist, s)
        } else {
            v.history
        }),
{
    lemma_typing_appends(v, max, hist, s);
    lemma_edit_all_split(v, max, hist, typing(s), KeyEvent::Enter);
    assert(v.buffer + s =~= s);
}

/// The line just entered is the first one Up brings back, as long as the
/// history had room for it.
pub proof fn lemma_up_recalls_last_line(v: LineView, max: nat, hist: nat)
    requires
        line_wf(v, max, hist),
        v.buffer.len() > 0,
        v.history.slots.len() < hist,
    ensures
        edit(
            LineView { history_index: None, ..edit(v, max, hist, KeyEvent::Enter).0 },
            max,
            hist,
            KeyEvent::Up,
        ).0.buffer == v.buffer,
{
}

} // verus!
