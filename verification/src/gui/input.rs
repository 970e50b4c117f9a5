//! The text input page's two buttons.

use vstd::prelude::*;
use vstd::string::StringSliceAdditionalSpecFns;

use crate::pages::{page_raw, Page};

verus! {

/// The buttons under the text being typed.
#[derive(Clone, Copy, PartialEq, Eq, Structural)]
pub enum InputButton {
    Cancel,
    Confirm,
}

/// Left edge of the cancel button.
pub const CANCEL_X: i32 = 15;
/// Left edge of the OK button.
pub const OK_X: i32 = 235;
/// Top edge of both buttons.
pub const BUTTON_Y: i32 = 382;
pub const BUTTON_WIDTH: i32 = 160;
pub const BUTTON_HEIGHT: i32 = 110;

pub open spec fn in_button(x: i32, y: i32, left: i32) -> bool {
    left <= x < left + BUTTON_WIDTH && BUTTON_Y <= y < BUTTON_Y + BUTTON_HEIGHT
}

/// The button a touch at `(x, y)` presses: two 160 × 110 buttons 60
/// pixels apart, centred, 10 pixels above the bottom edge.
pub fn handle_touch(x: i32, y: i32) -> (r: Option<InputButton>)
    ensures
        in_button(x, y, CANCEL_X) ==> r == Some(InputButton::Cancel),
        !in_button(x, y, CANCEL_X) && in_button(x, y, OK_X) ==> r == Some(InputButton::Confirm),
        !in_button(x, y, CANCEL_X) && !in_button(x, y, OK_X) ==> r is None,
{
    let screen_w = crate::state::LCD_WIDTH as i32;
    let screen_h = crate::state::LCD_HEIGHT as i32;
    let btn_width: i32 = 160;
    let btn_height: i32 = 110;
    let total_btn_w = 2 * btn_width + 60;
    let btn_start_x = (screen_w - total_btn_w) / 2;
    let btn_y = screen_h - btn_height - 10;
    let cancel_x = btn_start_x;
    let ok_x = cancel_x + btn_width + 60;
    if x >= cancel_x && x < cancel_x + btn_width && y >= btn_y && y < btn_y + btn_height {
        return Some(InputButton::Cancel);
    }
    if x >= ok_x && x < ok_x + btn_width && y >= btn_y && y < btn_y + btn_height {
        return Some(InputButton::Confirm);
    }
    None
}


/// Room for the prompt, in bytes.
pub const PROMPT_CAPACITY: usize = 64;
/// Room for the text, in bytes.
pub const TEXT_CAPACITY: usize = 128;

/// The UTF-8 encoding of `c`.
pub open spec fn utf8_of(c: char) -> Seq<u8> {
    let v = c as u32;
    if v < 0x80 {
        seq![v as u8]
    } else if v < 0x800 {
        seq![(0xC0 + v / 64) as u8, (0x80 + v % 64) as u8]
    } else if v < 0x10000 {
        seq![(0xE0 + v / 4096) as u8, (0x80 + v / 64 % 64) as u8, (0x80 + v % 64) as u8]
    } else {
        seq![
            (0xF0 + v / 262144) as u8,
            (0x80 + v / 4096 % 64) as u8,
            (0x80 + v / 64 % 64) as u8,
            (0x80 + v % 64) as u8,
        ]
    }
}

fn encode_utf8(c: char) -> (r: Vec<u8>)
    ensures
        r@ == utf8_of(c),
{
    let v = c as u32;
    let mut r: Vec<u8> = Vec::new();
    if v < 0x80 {
        r.push(v as u8);
    } else if v < 0x800 {
        r.push((0xC0 + v / 64) as u8);
        r.push((0x80 + v % 64) as u8);
    } else if v < 0x10000 {
        r.push((0xE0 + v / 4096) as u8);
        r.push((0x80 + v / 64 % 64) as u8);
        r.push((0x80 + v % 64) as u8);
    } else {
        assert(v <= 0x10FFFF);
        r.push((0xF0 + v / 262144) as u8);
        r.push((0x80 + v / 4096 % 64) as u8);
        r.push((0x80 + v / 64 % 64) as u8);
        r.push((0x80 + v % 64) as u8);
    }
    assert(r@ =~= utf8_of(c));
    r
}

/// What a bounded string holds after pushing `s`: all of it if it fits,
/// else nothing is added.
pub open spec fn pushed(text: Seq<u8>, s: Seq<u8>, cap: nat) -> Seq<u8> {
    if text.len() + s.len() <= cap {
        text + s
    } else {
        text
    }
}

/// The text input page: its prompt, the text typed so far, the cursor and
/// the page to go back to. (What to do with the text on OK is the
/// caller's.)
pub struct InputState {
    pub prompt: Vec<u8>,
    pub text: Vec<u8>,
    pub cursor_pos: usize,
    pub previous_page: u8,
}

fn copy_str(s: &str) -> (r: Vec<u8>)
    ensures
        r@ == s.spec_bytes(),
{
    let b = s.as_bytes();
    let mut r: Vec<u8> = Vec::new();
    let mut i: usize = 0;
    while i < b.len()
        invariant
            i <= b@.len(),
            r@ == b@.take(i as int),
        decreases b.len() - i,
    {
        r.push(b[i]);
        assert(b@.take(i + 1) =~= b@.take(i as int).push(b@[i as int]));
        i = i + 1;
    }
    assert(b@.take(b@.len() as int) =~= b@);
    r
}

impl InputState {
    /// The page opened with `prompt` and `initial_text`, returning to
    /// `return_page`. A prompt or text too long for its room is left
    /// empty; the cursor stands after the initial text's length either
    /// way.
    pub fn open(prompt: &str, initial_text: &str, return_page: Page) -> (r: Self)
        ensures
            r.prompt@ == pushed(Seq::empty(), prompt.spec_bytes(), PROMPT_CAPACITY as nat),
            r.text@ == pushed(Seq::empty(), initial_text.spec_bytes(), TEXT_CAPACITY as nat),
            r.cursor_pos == initial_text.spec_bytes().len() as usize,
            r.previous_page == page_raw(return_page),
    {
        let p = copy_str(prompt);
        let t = copy_str(initial_text);
        let cursor = t.len();
        let prompt_kept = if p.len() <= PROMPT_CAPACITY {
            p
        } else {
            Vec::new()
        };
        let text_kept = if t.len() <= TEXT_CAPACITY {
            t
        } else {
            Vec::new()
        };
        assert(Seq::<u8>::empty() + prompt.spec_bytes() =~= prompt.spec_bytes());
        assert(Seq::<u8>::empty() + initial_text.spec_bytes() =~= initial_text.spec_bytes());
        InputState { prompt: prompt_kept, text: text_kept, cursor_pos: cursor, previous_page: return_page.as_raw() }
    }

    /// Replaces the text (left empty if `text` does not fit) and puts the
    /// cursor at its end.
    pub fn set_text(&mut self, text: &str)
        ensures
            final(self).text@ == pushed(Seq::empty(), text.spec_bytes(), TEXT_CAPACITY as nat),
            final(self).cursor_pos == final(self).text@.len(),
            final(self).prompt == old(self).prompt,
            final(self).previous_page == old(self).previous_page,
    {
        let t = copy_str(text);
        assert(Seq::<u8>::empty() + text.spec_bytes() =~= text.spec_bytes());
        if t.len() <= TEXT_CAPACITY {
            self.text = t;
        } else {
            self.text = Vec::new();
        }
        self.cursor_pos = self.text.len();
    }

    /// Types `c` if the text has room for it (the text is unchanged when
    /// it is full or the character's bytes do not fit), and puts the
    /// cursor at the end.
    pub fn push_char(&mut self, c: char)
        ensures
            final(self).text@ == (if old(self).text@.len() < TEXT_CAPACITY {
                pushed(old(self).text@, utf8_of(c), TEXT_CAPACITY as nat)
            } else {
                old(self).text@
            }),
            old(self).text@.len() < TEXT_CAPACITY ==> final(self).cursor_pos == final(self).text@.len(),
            old(self).text@.len() >= TEXT_CAPACITY ==> final(self).cursor_pos == old(self).cursor_pos,
            final(self).prompt == old(self).prompt,
            final(self).previous_page == old(self).previous_page,
    {
        if self.text.len() < TEXT_CAPACITY {
            let bytes = encode_utf8(c);
            if self.text.len() + bytes.len() <= TEXT_CAPACITY {
                let mut i: usize = 0;
                let ghost t0 = self.text@;
                while i < bytes.len()
                    invariant
                        i <= bytes@.len(),
                        self.text@ == t0 + bytes@.take(i as int),
                        self.prompt == old(self).prompt,
                        self.previous_page == old(self).previous_page,
                    decreases bytes.len() - i,
                {
                    self.text.push(bytes[i]);
                    assert(bytes@.take(i + 1) =~= bytes@.take(i as int).push(bytes@[i as int]));
                    i = i + 1;
                }
                assert(bytes@.take(bytes@.len() as int) =~= bytes@);
            }
            self.cursor_pos = self.text.len();
        }
    }

    /// OK: the text to hand to the page's action, and the page to go
    /// back to.
    pub fn hit_ok(&self) -> (r: (Vec<u8>, u8))
        ensures
            r.0@ == self.text@,
            r.1 == self.previous_page,
    {
        let mut t: Vec<u8> = Vec::new();
        let mut i: usize = 0;
        while i < self.text.len()
            invariant
                i <= self.text@.len(),
                t@ == self.text@.take(i as int),
            decreases self.text@.len() - i,
        {
            t.push(self.text[i]);
            assert(self.text@.take(i + 1) =~= self.text@.take(i as int).push(self.text@[i as int]));
            i = i + 1;
        }
        assert(self.text@.take(self.text@.len() as int) =~= self.text@);
        (t, self.previous_page)
    }

    /// Cancel: the page to go back to.
    pub fn hit_cancel(&self) -> (r: u8)
        ensures
            r == self.previous_page,
    {
        self.previous_page
    }
}

} // verus!
