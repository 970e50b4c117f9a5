//! The digital clock page: seven-segment digits drawn straight into the
//! frame buffer.

use vstd::prelude::*;

use super::colors::{Rgb565, GREEN, ORANGE, RED, YELLOW};

verus! {

/// Colour of a lit segment.
pub const SEGMENT_COLOR: u16 = 0xFFFF;

/// A segment: a rectangle of the screen.
#[derive(Clone, Copy, PartialEq, Eq, Structural)]
pub struct SegmentRect {
    pub x: i32,
    pub y: i32,
    pub w: u32,
    pub h: u32,
}

/// First column a segment paints (left edges off screen start at 0).
pub open spec fn x_start(r: SegmentRect) -> int {
    if r.x < 0 {
        0
    } else {
        r.x as int
    }
}

/// First row a segment paints.
pub open spec fn y_start(r: SegmentRect) -> int {
    if r.y < 0 {
        0
    } else {
        r.y as int
    }
}

/// Columns a segment paints in each row: its width, cut at the right
/// edge of a screen `sw` wide.
pub open spec fn span(r: SegmentRect, sw: int) -> int {
    if r.w < sw - x_start(r) {
        r.w as int
    } else {
        sw - x_start(r)
    }
}

/// Whether a segment paints cell `i` of a buffer of `len` cells, `sw`
/// to a row (rows past the last full one are left alone).
pub open spec fn lit_by(r: SegmentRect, sw: int, len: int, i: int) -> bool {
    let row = i / sw;
    let col = i % sw;
    &&& y_start(r) <= row < y_start(r) + r.h
    &&& row < len / sw
    &&& x_start(r) <= col < x_start(r) + span(r, sw)
}

proof fn lemma_cell(i: int, sw: int, row: int, col: int)
    requires
        sw > 0,
        0 <= col < sw,
        i == row * sw + col,
    ensures
        i / sw == row,
        i % sw == col,
{
    vstd::arithmetic::div_mod::lemma_fundamental_div_mod_converse(i, sw, row, col);
}

proof fn lemma_row_fits(y: int, sw: int, len: int)
    requires
        sw > 0,
        0 <= y < len / sw,
        len >= 0,
    ensures
        y * sw + sw <= len,
{
    vstd::arithmetic::div_mod::lemma_fundamental_div_mod(len, sw);
    assert(y * sw + sw <= len) by (nonlinear_arith)
        requires
            sw > 0,
            0 <= y,
            y + 1 <= len / sw,
            len == sw * (len / sw) + len % sw,
            len % sw >= 0,
    ;
}

impl SegmentRect {
    /// Paints the segment white into `dest`, a screen `screen_w` wide.
    pub fn draw_raw(&self, dest: &mut [u16], screen_w: usize)
        requires
            screen_w > 0,
            x_start(*self) <= screen_w,
        ensures
            final(dest)@.len() == old(dest)@.len(),
            forall|i: int|
                0 <= i < old(dest)@.len() ==> final(dest)@[i] == (if lit_by(
                    *self,
                    screen_w as int,
                    old(dest)@.len() as int,
                    i,
                ) {
                    SEGMENT_COLOR
                } else {
                    old(dest)@[i]
                }),
    {
        let x0: usize = if self.x < 0 {
            0
        } else {
            self.x as usize
        };
        let y0: usize = if self.y < 0 {
            0
        } else {
            self.y as usize
        };
        let w = self.w as usize;
        let h = self.h as usize;
        let len = dest.len();
        let rows = len / screen_w;
        let cols: usize = if w < screen_w - x0 {
            w
        } else {
            screen_w - x0
        };
        let ghost sw = screen_w as int;
        let ghost d0 = dest@;
        let limit: usize = if y0 >= rows {
            0
        } else {
            rows - y0
        };
        let mut row: usize = 0;
        while row < h && row < limit
            invariant
                limit == (if y0 >= rows {
                    0
                } else {
                    rows - y0
                }),
                dest@.len() == len,
                len == d0.len(),
                rows == len as int / sw,
                sw == screen_w > 0,
                x0 == x_start(*self),
                y0 == y_start(*self),
                cols == span(*self, sw),
                x0 + cols <= screen_w,
                h == self.h,
                row <= h,
                forall|i: int|
                    0 <= i < len ==> dest@[i] == (if lit_by(*self, sw, len as int, i) && i / sw < y0 + row {
                        SEGMENT_COLOR
                    } else {
                        d0[i]
                    }),
            decreases h - row,
        {
            let y = y0 + row;
            proof {
                lemma_row_fits(y as int, sw, len as int);
            }
            let start = y * screen_w + x0;
            let mut c: usize = 0;
            while c < cols
                invariant
                    dest@.len() == len,
                    len == d0.len(),
                    rows == len as int / sw,
                    sw == screen_w > 0,
                    x0 == x_start(*self),
                    y0 == y_start(*self),
                    cols == span(*self, sw),
                    x0 + cols <= screen_w,
                    y == y0 + row,
                    y < rows,
                    row < h,
                    h == self.h,
                    y * sw + sw <= len,
                    start == y * sw + x0,
                    c <= cols,
                    forall|i: int|
                        0 <= i < len ==> dest@[i] == (if (lit_by(*self, sw, len as int, i) && i / sw < y) || (i
                            / sw == y && x0 <= i % sw < x0 + c) {
                            SEGMENT_COLOR
                        } else {
                            d0[i]
                        }),
                decreases cols - c,
            {
                let ghost before = dest@;
                dest[start + c] = SEGMENT_COLOR;
                proof {
                    lemma_cell((start + c) as int, sw, y as int, (x0 + c) as int);
                    assert forall|i: int| 0 <= i < len implies dest@[i] == (if (lit_by(*self, sw, len as int, i)
                        && i / sw < y) || (i / sw == y && x0 <= i % sw < x0 + c + 1) {
                        SEGMENT_COLOR
                    } else {
                        d0[i]
                    }) by {
                        if i != start + c {
                            assert(dest@[i] == before[i]);
                            if i / sw == y && i % sw == x0 + c {
                                vstd::arithmetic::div_mod::lemma_fundamental_div_mod(i, sw);
                                assert(i == sw * y + x0 + c);
                                assert(false);
                            }
                        }
                    }
                }
                c = c + 1;
            }
            proof {
                assert forall|i: int| 0 <= i < len implies dest@[i] == (if lit_by(*self, sw, len as int, i) && i
                    / sw < y0 + row + 1 {
                    SEGMENT_COLOR
                } else {
                    d0[i]
                }) by {
                    if i / sw == y && x0 <= i % sw < x0 + cols {
                        assert(lit_by(*self, sw, len as int, i));
                    }
                }
            }
            row = row + 1;
        }
    }
}

/// The seven segments of a digit `w` wide and `h` tall with its top-left
/// corner at `(x, y)`, strokes `s` thick and `g` apart at the joints: top,
/// middle, bottom, upper left, upper right, lower left, lower right.
pub open spec fn spec_digit_segments(x: i32, y: i32, w: i32, h: i32, s: i32, g: i32) -> Seq<SegmentRect> {
    seq![
        SegmentRect { x: (x + g) as i32, y, w: (w - g * 2) as u32, h: s as u32 },
        SegmentRect { x: (x + g) as i32, y: (y + h / 2 - s / 2) as i32, w: (w - g * 2) as u32, h: s as u32 },
        SegmentRect { x: (x + g) as i32, y: (y + h - s) as i32, w: (w - g * 2) as u32, h: s as u32 },
        SegmentRect { x, y: (y + g) as i32, w: s as u32, h: (h / 2 - g) as u32 },
        SegmentRect { x: (x + w - s) as i32, y: (y + g) as i32, w: s as u32, h: (h / 2 - g) as u32 },
        SegmentRect { x, y: (y + h / 2 + g) as i32, w: s as u32, h: (h / 2 - g - s) as u32 },
        SegmentRect { x: (x + w - s) as i32, y: (y + h / 2 + g) as i32, w: s as u32, h: (h / 2 - g - s) as u32 },
    ]
}

/// The sizes stay far from the integer limits.
pub open spec fn small(v: i32) -> bool {
    -100_000 <= v <= 100_000
}

pub fn digit_segments(x: i32, y: i32, digit_w: i32, digit_h: i32, stroke: i32, gap: i32) -> (r: [SegmentRect; 7])
    requires
        0 <= digit_w && 0 <= digit_h && 0 <= stroke && 0 <= gap,
        small(x),
        small(y),
        small(digit_w),
        small(digit_h),
        small(stroke),
        small(gap),
    ensures
        r@ == spec_digit_segments(x, y, digit_w, digit_h, stroke, gap),
{
    let (w, h, s, g) = (digit_w, digit_h, stroke, gap);
    let r = [
        SegmentRect { x: x + g, y, w: (w - g * 2) as u32, h: s as u32 },
        SegmentRect { x: x + g, y: y + (h / 2) - (s / 2), w: (w - g * 2) as u32, h: s as u32 },
        SegmentRect { x: x + g, y: y + h - s, w: (w - g * 2) as u32, h: s as u32 },
        SegmentRect { x, y: y + g, w: s as u32, h: (h / 2 - g) as u32 },
        SegmentRect { x: x + w - s, y: y + g, w: s as u32, h: (h / 2 - g) as u32 },
        SegmentRect { x, y: y + (h / 2) + g, w: s as u32, h: (h / 2 - g - s) as u32 },
        SegmentRect { x: x + w - s, y: y + (h / 2) + g, w: s as u32, h: (h / 2 - g - s) as u32 },
    ];
    assert(r@ =~= spec_digit_segments(x, y, digit_w, digit_h, stroke, gap));
    r
}

/// Which segments each digit lights, in the order of `digit_segments`.
pub const DIGIT_PATTERNS: [[bool; 7]; 10] = [
    [true, false, true, true, true, true, true],
    [false, false, false, false, true, false, true],
    [true, true, true, false, true, true, false],
    [true, true, true, false, true, false, true],
    [false, true, false, true, true, false, true],
    [true, true, true, true, false, false, true],
    [true, true, true, true, false, true, true],
    [true, false, false, false, true, false, true],
    [true, true, true, true, true, true, true],
    [true, true, true, true, true, false, true],
];

/// Whether digit `digit`'s segment `k` is lit.
pub open spec fn segment_on(digit: int, k: int) -> bool {
    DIGIT_PATTERNS@[digit]@[k]
}

/// A cell lit by one of the lit segments.
pub open spec fn digit_lit(segs: Seq<SegmentRect>, digit: int, sw: int, len: int, i: int) -> bool {
    exists|k: int| 0 <= k < 7 && segment_on(digit, k) && #[trigger] lit_by(segs[k], sw, len, i)
}

/// The segments of a digit fit on a screen `sw` wide.
pub open spec fn segments_fit(segs: Seq<SegmentRect>, sw: int) -> bool {
    forall|k: int| 0 <= k < 7 ==> x_start(#[trigger] segs[k]) <= sw
}

/// Paints `digit` (nothing for more than 9) with its top-left corner at
/// `(x, y)`.
pub fn draw_digit(
    dest: &mut [u16],
    screen_w: usize,
    digit: u8,
    x: i32,
    y: i32,
    digit_w: i32,
    digit_h: i32,
    stroke: i32,
    gap: i32,
)
    requires
        screen_w > 0,
        0 <= digit_w && 0 <= digit_h && 0 <= stroke && 0 <= gap,
        small(x),
        small(y),
        small(digit_w),
        small(digit_h),
        small(stroke),
        small(gap),
        segments_fit(spec_digit_segments(x, y, digit_w, digit_h, stroke, gap), screen_w as int),
    ensures
        final(dest)@.len() == old(dest)@.len(),
        forall|i: int|
            0 <= i < old(dest)@.len() ==> final(dest)@[i] == (if digit <= 9 && digit_lit(
                spec_digit_segments(x, y, digit_w, digit_h, stroke, gap),
                digit as int,
                screen_w as int,
                old(dest)@.len() as int,
                i,
            ) {
                SEGMENT_COLOR
            } else {
                old(dest)@[i]
            }),
{
    if digit > 9 {
        return;
    }
    let segs = digit_segments(x, y, digit_w, digit_h, stroke, gap);
    let pattern = DIGIT_PATTERNS[digit as usize];
    let ghost d0 = dest@;
    let ghost len = dest@.len() as int;
    let ghost sw = screen_w as int;
    let mut k: usize = 0;
    while k < 7
        invariant
            k <= 7,
            dest@.len() == len,
            len == d0.len(),
            sw == screen_w > 0,
            digit <= 9,
            pattern == DIGIT_PATTERNS@[digit as int],
            segs@ == spec_digit_segments(x, y, digit_w, digit_h, stroke, gap),
            segments_fit(segs@, sw),
            forall|i: int|
                0 <= i < len ==> dest@[i] == (if exists|j: int|
                    0 <= j < k && segment_on(digit as int, j) && #[trigger] lit_by(segs@[j], sw, len, i) {
                    SEGMENT_COLOR
                } else {
                    d0[i]
                }),
        decreases 7 - k,
    {
        if pattern[k] {
            let ghost before = dest@;
            segs[k].draw_raw(dest, screen_w);
            proof {
                assert forall|i: int| 0 <= i < len implies dest@[i] == (if exists|j: int|
                    0 <= j < k + 1 && segment_on(digit as int, j) && #[trigger] lit_by(segs@[j], sw, len, i) {
                    SEGMENT_COLOR
                } else {
                    d0[i]
                }) by {
                    if lit_by(segs@[k as int], sw, len, i) {
                        assert(segment_on(digit as int, k as int));
                    }
                    if exists|j: int| 0 <= j < k + 1 && segment_on(digit as int, j) && #[trigger] lit_by(segs@[j], sw, len, i) {
                        let j = choose|j: int| 0 <= j < k + 1 && segment_on(digit as int, j) && #[trigger] lit_by(segs@[j], sw, len, i);
                        if j < k {
                        } else {
                            assert(j == k);
                        }
                    }
                }
            }
        } else {
            proof {
                assert forall|i: int| 0 <= i < len implies dest@[i] == (if exists|j: int|
                    0 <= j < k + 1 && segment_on(digit as int, j) && #[trigger] lit_by(segs@[j], sw, len, i) {
                    SEGMENT_COLOR
                } else {
                    d0[i]
                }) by {
                    if exists|j: int| 0 <= j < k + 1 && segment_on(digit as int, j) && #[trigger] lit_by(segs@[j], sw, len, i) {
                        let j = choose|j: int| 0 <= j < k + 1 && segment_on(digit as int, j) && #[trigger] lit_by(segs@[j], sw, len, i);
                        assert(j != k);
                    }
                }
            }
        }
        k = k + 1;
    }
}

/// The colour of the battery icon: green from 70 %, yellow from 50 %,
/// orange from 30 %, red below.
pub fn battery_color(percent: u8) -> (c: Rgb565)
    ensures
        c == (if percent >= 70 {
            GREEN
        } else if percent >= 50 {
            YELLOW
        } else if percent >= 30 {
            ORANGE
        } else {
            RED
        }),
{
    if percent >= 70 {
        GREEN
    } else if percent >= 50 {
        YELLOW
    } else if percent >= 30 {
        ORANGE
    } else {
        RED
    }
}


/// The two dots of the colon between hours and minutes, `stroke` square,
/// at a quarter and three quarters of the digit height.
pub open spec fn colon_dots(x: i32, y: i32, digit_h: i32, stroke: i32) -> (SegmentRect, SegmentRect) {
    let half = digit_h / 2;
    (
        SegmentRect { x, y: (y + half / 2) as i32, w: stroke as u32, h: stroke as u32 },
        SegmentRect { x, y: (y + half + half / 2) as i32, w: stroke as u32, h: stroke as u32 },
    )
}

/// Paints the colon with its left edge at `x` and its digit row at `y`.
pub fn draw_colon(dest: &mut [u16], screen_w: usize, x: i32, y: i32, digit_h: i32, stroke: i32)
    requires
        screen_w > 0,
        0 <= digit_h && 0 <= stroke,
        small(x),
        small(y),
        small(digit_h),
        small(stroke),
        (if x < 0 { 0 } else { x as int }) <= screen_w,
    ensures
        final(dest)@.len() == old(dest)@.len(),
        forall|i: int|
            0 <= i < old(dest)@.len() ==> final(dest)@[i] == (if lit_by(
                colon_dots(x, y, digit_h, stroke).0,
                screen_w as int,
                old(dest)@.len() as int,
                i,
            ) || lit_by(colon_dots(x, y, digit_h, stroke).1, screen_w as int, old(dest)@.len() as int, i) {
                SEGMENT_COLOR
            } else {
                old(dest)@[i]
            }),
{
    let half_h = digit_h / 2;
    let dot_w = stroke as u32;
    let upper = SegmentRect { x, y: y + half_h / 2, w: dot_w, h: dot_w };
    let lower = SegmentRect { x, y: y + half_h + half_h / 2, w: dot_w, h: dot_w };
    upper.draw_raw(dest, screen_w);
    lower.draw_raw(dest, screen_w);
}

/// Width the clock is fitted into: 95 % of the 410-pixel screen, rounded
/// down.
pub const CLOCK_WIDTH: i32 = 389;
/// Width of a digit: two ninths of the clock width, rounded down.
pub const DIGIT_W: i32 = 86;
/// Thickness of a segment: a sixth of the digit width, rounded down.
pub const STROKE: i32 = 14;
/// Gap at the segment joints and between digits: half the stroke.
pub const GAP: i32 = 7;
/// Height of a digit: twice its width, less ten pixels.
pub const DIGIT_H: i32 = 162;
/// Left edge of the clock: the four digits, the colon and the four gaps
/// (414 pixels) centred on the 410-pixel screen.
pub const CLOCK_X: i32 = -2;
/// Top edge of the clock: centred on the 502-pixel screen, 40 pixels lower
/// to clear the status icons.
pub const CLOCK_Y: i32 = 210;

/// The cells of a 410-pixel-wide screen the clock showing `hours` and
/// `minutes` lights.
pub open spec fn clock_lit(hours: u8, minutes: u8, len: int, i: int) -> bool {
    let step = DIGIT_W + GAP;
    let colon_x = CLOCK_X + 2 * step;
    let minutes_x = colon_x + STROKE + GAP;
    ||| (hours / 10 <= 9 && digit_lit(
        spec_digit_segments(CLOCK_X, CLOCK_Y, DIGIT_W, DIGIT_H, STROKE, GAP),
        (hours / 10) as int,
        410,
        len,
        i,
    ))
    ||| digit_lit(
        spec_digit_segments((CLOCK_X + step) as i32, CLOCK_Y, DIGIT_W, DIGIT_H, STROKE, GAP),
        (hours % 10) as int,
        410,
        len,
        i,
    )
    ||| lit_by(colon_dots(colon_x as i32, CLOCK_Y, DIGIT_H, STROKE).0, 410, len, i)
    ||| lit_by(colon_dots(colon_x as i32, CLOCK_Y, DIGIT_H, STROKE).1, 410, len, i)
    ||| (minutes / 10 <= 9 && digit_lit(
        spec_digit_segments(minutes_x as i32, CLOCK_Y, DIGIT_W, DIGIT_H, STROKE, GAP),
        (minutes / 10) as int,
        410,
        len,
        i,
    ))
    ||| digit_lit(
        spec_digit_segments((minutes_x + step) as i32, CLOCK_Y, DIGIT_W, DIGIT_H, STROKE, GAP),
        (minutes % 10) as int,
        410,
        len,
        i,
    )
}

/// Clears a 410-pixel-wide screen to black and, when the time is known,
/// paints it as HH:MM.
pub fn draw_clock(dest: &mut [u16], time: Option<(u8, u8)>)
    ensures
        final(dest)@.len() == old(dest)@.len(),
        forall|i: int|
            0 <= i < old(dest)@.len() ==> final(dest)@[i] == (if time matches Some(t) && clock_lit(
                t.0,
                t.1,
                old(dest)@.len() as int,
                i,
            ) {
                SEGMENT_COLOR
            } else {
                0u16
            }),
{
    let len = dest.len();
    let mut k: usize = 0;
    while k < len
        invariant
            dest@.len() == len,
            k <= len,
            forall|i: int| 0 <= i < k ==> dest@[i] == 0u16,
        decreases len - k,
    {
        dest[k] = 0;
        k = k + 1;
    }
    let ghost black = dest@;
    if let Some((hh, mm)) = time {
        let step = DIGIT_W + GAP;
        let colon_x = CLOCK_X + 2 * step;
        let minutes_x = colon_x + STROKE + GAP;
        draw_digit(dest, 410, hh / 10, CLOCK_X, CLOCK_Y, DIGIT_W, DIGIT_H, STROKE, GAP);
        draw_digit(dest, 410, hh % 10, CLOCK_X + step, CLOCK_Y, DIGIT_W, DIGIT_H, STROKE, GAP);
        draw_colon(dest, 410, colon_x, CLOCK_Y, DIGIT_H, STROKE);
        draw_digit(dest, 410, mm / 10, minutes_x, CLOCK_Y, DIGIT_W, DIGIT_H, STROKE, GAP);
        draw_digit(dest, 410, mm % 10, minutes_x + step, CLOCK_Y, DIGIT_W, DIGIT_H, STROKE, GAP);
    }
}

} // verus!
