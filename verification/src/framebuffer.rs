//! A double-buffered RGB565 framebuffer the size of the panel: drawing
//! goes to the front buffer, which is what gets sent to the display.

use vstd::prelude::*;

use crate::state::{LCD_HEIGHT, LCD_WIDTH};

verus! {

pub const WIDTH: usize = 410;
pub const HEIGHT: usize = 502;
pub const PIXEL_COUNT: usize = 205_820;

/// The panel constants and the buffer size agree.
pub proof fn lemma_panel_size()
    ensures
        WIDTH == LCD_WIDTH,
        HEIGHT == LCD_HEIGHT,
        PIXEL_COUNT == WIDTH * HEIGHT,
{
}

/// Index of pixel `(x, y)` in a buffer.
pub open spec fn pixel_index(x: int, y: int) -> int {
    y * WIDTH + x
}

/// The pixel at buffer index `i` lies in the rectangle `x, y, w, h` as
/// clipped to the panel.
pub open spec fn in_rect(i: int, x: int, y: int, w: int, h: int) -> bool {
    let row = i / (WIDTH as int);
    let col = i % (WIDTH as int);
    &&& y <= row < y + h
    &&& row < HEIGHT
    &&& x <= col < x + w
    &&& col < WIDTH
}

pub struct Framebuffer {
    buf: Vec<u16>,
    back: Vec<u16>,
}

impl Framebuffer {
    /// The buffer that is drawn to and flushed.
    pub closed spec fn front(&self) -> Seq<u16> {
        self.buf@
    }

    /// The other buffer.
    pub closed spec fn back(&self) -> Seq<u16> {
        self.back@
    }

    /// Both buffers hold one value per pixel.
    pub open spec fn wf(&self) -> bool {
        self.front().len() == PIXEL_COUNT && self.back().len() == PIXEL_COUNT
    }

    /// Two black buffers.
    pub fn new() -> (r: Self)
        ensures
            r.wf(),
            forall|i: int| 0 <= i < PIXEL_COUNT ==> r.front()[i] == 0 && r.back()[i] == 0,
    {
        let buf = vec![0u16; PIXEL_COUNT];
        let back = vec![0u16; PIXEL_COUNT];
        Framebuffer { buf, back }
    }

    /// Exchanges the front and back buffers.
    pub fn swap(&mut self)
        requires
            old(self).wf(),
        ensures
            final(self).wf(),
            final(self).front() == old(self).back(),
            final(self).back() == old(self).front(),
    {
        core::mem::swap(&mut self.buf, &mut self.back);
    }

    /// Fills the front buffer with `color`.
    pub fn clear_color(&mut self, color: u16)
        requires
            old(self).wf(),
        ensures
            final(self).wf(),
            final(self).back() == old(self).back(),
            forall|i: int| 0 <= i < PIXEL_COUNT ==> final(self).front()[i] == color,
    {
        let mut i: usize = 0;
        while i < self.buf.len()
            invariant
                self.buf@.len() == PIXEL_COUNT,
                self.back@ == old(self).back@,
                i <= PIXEL_COUNT,
                forall|k: int| 0 <= k < i ==> self.buf@[k] == color,
            decreases PIXEL_COUNT - i,
        {
            self.buf.set(i, color);
            i = i + 1;
        }
    }

    /// Sets pixel `(x, y)`; points off the panel are ignored.
    pub fn set_pixel(&mut self, x: usize, y: usize, color: u16)
        requires
            old(self).wf(),
        ensures
            final(self).wf(),
            final(self).back() == old(self).back(),
            x < WIDTH && y < HEIGHT ==> final(self).front() == old(self).front().update(
                pixel_index(x as int, y as int),
                color,
            ),
            !(x < WIDTH && y < HEIGHT) ==> final(self).front() == old(self).front(),
    {
        if x < WIDTH && y < HEIGHT {
            assert(y * WIDTH + x < PIXEL_COUNT) by (nonlinear_arith)
                requires
                    x < WIDTH,
                    y < HEIGHT,
            ;
            self.buf.set(y * WIDTH + x, color);
        }
    }

    /// Fills the rectangle `x, y, w, h` clipped to the panel. A rectangle
    /// that starts right of the panel must have no rows on it.
    pub fn fill_rect(&mut self, x: usize, y: usize, w: usize, h: usize, color: u16)
        requires
            old(self).wf(),
            x + w <= usize::MAX,
            y + h <= usize::MAX,
            x <= WIDTH || h == 0 || y >= HEIGHT,
        ensures
            final(self).wf(),
            final(self).back() == old(self).back(),
            forall|i: int|
                0 <= i < PIXEL_COUNT ==> final(self).front()[i] == if in_rect(i, x as int, y as int, w as int, h as int) {
                    color
                } else {
                    old(self).front()[i]
                },
    {
        let x_end = if x + w < WIDTH {
            x + w
        } else {
            WIDTH
        };
        let y_end = if y + h < HEIGHT {
            y + h
        } else {
            HEIGHT
        };
        if y >= y_end {
            return;
        }
        let mut row = y;
        while row < y_end
            invariant
                self.buf@.len() == PIXEL_COUNT,
                self.back@ == old(self).back@,
                y <= row <= y_end,
                x <= x_end <= WIDTH,
                y_end <= HEIGHT,
                x_end == (if x + w < WIDTH { x + w } else { WIDTH as int }),
                y_end == (if y + h < HEIGHT { y + h } else { HEIGHT as int }),
                forall|i: int|
                    0 <= i < PIXEL_COUNT ==> self.buf@[i] == if in_rect(i, x as int, y as int, w as int, (row - y) as int) {
                        color
                    } else {
                        old(self).buf@[i]
                    },
            decreases y_end - row,
        {
            assert(row * WIDTH + x_end <= PIXEL_COUNT) by (nonlinear_arith)
                requires
                    row < HEIGHT,
                    x_end <= WIDTH,
            ;
            let start = row * WIDTH + x;
            let end = row * WIDTH + x_end;
            let ghost before = self.buf@;
            let mut i = start;
            while i < end
                invariant
                    self.buf@.len() == PIXEL_COUNT,
                    self.back@ == old(self).back@,
                    start <= i <= end <= PIXEL_COUNT,
                    start == row * WIDTH + x,
                    end == row * WIDTH + x_end,
                    forall|k: int| 0 <= k < PIXEL_COUNT ==> self.buf@[k] == if start <= k < i {
                        color
                    } else {
                        before[k]
                    },
                decreases end - i,
            {
                self.buf.set(i, color);
                i = i + 1;
            }
            assert forall|k: int| 0 <= k < PIXEL_COUNT implies self.buf@[k] == if in_rect(
                k,
                x as int,
                y as int,
                w as int,
                (row + 1 - y) as int,
            ) {
                color
            } else {
                old(self).buf@[k]
            } by {
                let r = k / (WIDTH as int);
                let c = k % (WIDTH as int);
                assert(k == r * WIDTH + c && 0 <= c < WIDTH) by (nonlinear_arith)
                    requires
                        0 <= k,
                        r == k / 410,
                        c == k % 410,
                ;
                assert((start <= k < end) <==> (r == row && x <= c < x_end)) by (nonlinear_arith)
                    requires
                        k == r * WIDTH + c,
                        0 <= c < WIDTH,
                        start == row * WIDTH + x,
                        end == row * WIDTH + x_end,
                        x <= x_end <= WIDTH,
                ;
            }
            row = row + 1;
        }
    }

    /// Writes `colors` row by row into the area `w` pixels wide whose top
    /// left corner is `(x, y)`; colors past the bottom of the panel are
    /// dropped.
    pub fn fill_contiguous(&mut self, x: usize, y: usize, w: usize, colors: &[u16])
        requires
            old(self).wf(),
            w > 0,
            x + w <= WIDTH,
            y <= HEIGHT,
            colors@.len() + HEIGHT <= usize::MAX,
        ensures
            final(self).wf(),
            final(self).back() == old(self).back(),
            forall|k: int|
                0 <= k < colors@.len() && y + k / (w as int) < HEIGHT ==> final(self).front()[#[trigger] target(
                    x as int,
                    y as int,
                    w as int,
                    k,
                )] == colors@[k],
            forall|i: int|
                0 <= i < PIXEL_COUNT && !covered(colors@.len() as int, x as int, y as int, w as int, i)
                    ==> final(self).front()[i] == old(self).front()[i],
    {
        let mut row = y;
        let mut col: usize = 0;
        let mut k: usize = 0;
        while k < colors.len()
            invariant
                self.buf@.len() == PIXEL_COUNT,
                self.back@ == old(self).back@,
                w > 0,
                x + w <= WIDTH,
                y <= HEIGHT,
                colors@.len() + HEIGHT <= usize::MAX,
                k <= colors@.len(),
                col < w,
                row == y + (k as int) / (w as int),
                col == (k as int) % (w as int),
                forall|j: int|
                    0 <= j < k && y + j / (w as int) < HEIGHT ==> self.buf@[#[trigger] target(
                        x as int,
                        y as int,
                        w as int,
                        j,
                    )] == colors@[j],
                forall|i: int|
                    0 <= i < PIXEL_COUNT && !covered(k as int, x as int, y as int, w as int, i) ==> self.buf@[i]
                        == old(self).buf@[i],
            decreases colors.len() - k,
        {
            let ghost prev = self.buf@;
            proof {
                lemma_target_bounds(x as int, y as int, w as int, k as int);
            }
            if row < HEIGHT {
                assert(row * WIDTH + x + col < PIXEL_COUNT) by (nonlinear_arith)
                    requires
                        row < HEIGHT,
                        x + col < WIDTH,
                ;
                assert(target(x as int, y as int, w as int, k as int) == row * WIDTH + x + col);
                self.buf.set(row * WIDTH + x + col, colors[k]);
            }
            assert forall|j: int|
                0 <= j < k + 1 && y + j / (w as int) < HEIGHT implies self.buf@[#[trigger] target(
                x as int,
                y as int,
                w as int,
                j,
            )] == colors@[j] by {
                if j < k && target(x as int, y as int, w as int, j) == target(
                    x as int,
                    y as int,
                    w as int,
                    k as int,
                ) {
                    lemma_target_injective(x as int, y as int, w as int, j, k as int);
                }
            }
            assert forall|i: int|
                0 <= i < PIXEL_COUNT && !covered(k + 1, x as int, y as int, w as int, i) implies self.buf@[i]
                == old(self).buf@[i] by {
                assert(!covered(k as int, x as int, y as int, w as int, i)) by {
                    if covered(k as int, x as int, y as int, w as int, i) {
                        let j = choose|j: int|
                            0 <= j < k && y + j / (w as int) < HEIGHT && #[trigger] target(
                                x as int,
                                y as int,
                                w as int,
                                j,
                            ) == i;
                        assert(0 <= j < k + 1 && y + j / (w as int) < HEIGHT && target(x as int, y as int, w as int, j)
                            == i);
                    }
                }
                if row < HEIGHT {
                    assert(0 <= k < k + 1 && y + (k as int) / (w as int) < HEIGHT && target(x as int, y as int, w as int, k as int)
                        == target(x as int, y as int, w as int, k as int));
                }
            }
            col = col + 1;
            if col >= w {
                col = 0;
                row = row + 1;
            }
            proof {
                let ki = k as int;
                let wi = w as int;
                let ri = row as int;
                let ci = col as int;
                let yi = y as int;
                let q = ki / wi;
                let rem = ki % wi;
                vstd::arithmetic::div_mod::lemma_fundamental_div_mod(ki, wi);
                if rem + 1 < wi {
                    vstd::arithmetic::div_mod::lemma_fundamental_div_mod_converse(ki + 1, wi, q, rem + 1);
                } else {
                    assert(ki + 1 == (q + 1) * wi + 0) by (nonlinear_arith)
                        requires
                            ki == wi * q + rem,
                            rem + 1 == wi,
                    ;
                    vstd::arithmetic::div_mod::lemma_fundamental_div_mod_converse(ki + 1, wi, q + 1, 0);
                }
                assert(ri == yi + (ki + 1) / wi && ci == (ki + 1) % wi);
            }
            k = k + 1;
        }
    }

    /// Paints the colored points in order; points off the panel are
    /// skipped.
    pub fn draw_iter(&mut self, pixels: &[(i32, i32, u16)])
        requires
            old(self).wf(),
        ensures
            final(self).wf(),
            final(self).back() == old(self).back(),
            final(self).front() == painted(old(self).front(), pixels@),
    {
        let n = pixels.len();
        let mut k: usize = 0;
        while k < n
            invariant
                self.wf(),
                self.back() == old(self).back(),
                n == pixels@.len(),
                k <= n,
                self.front() == painted(old(self).front(), pixels@.take(k as int)),
            decreases n - k,
        {
            let (x, y, color) = pixels[k];
            if 0 <= x && 0 <= y {
                self.set_pixel(x as usize, y as usize, color);
            }
            assert(pixels@.take(k + 1).drop_last() =~= pixels@.take(k as int));
            k = k + 1;
        }
        assert(pixels@.take(n as int) =~= pixels@);
    }

    /// Fills the rectangle `w` by `h` at `(x, y)`, which may lie partly or
    /// wholly off the panel, with `color`.
    pub fn fill_solid(&mut self, x: i32, y: i32, w: u32, h: u32, color: u16)
        requires
            old(self).wf(),
        ensures
            final(self).wf(),
            final(self).back() == old(self).back(),
            forall|i: int|
                0 <= i < PIXEL_COUNT ==> final(self).front()[i] == if in_rect(i, x as int, y as int, w as int, h as int) {
                    color
                } else {
                    old(self).front()[i]
                },
    {
        let (x0, y0, w0, h0) = intersect_panel(x, y, w, h);
        if w0 == 0 || h0 == 0 {
            assert forall|i: int| 0 <= i < PIXEL_COUNT implies !in_rect(i, x as int, y as int, w as int, h as int) by {
                lemma_row_col(i);
            }
            return;
        }
        self.fill_rect(x0, y0, w0, h0, color);
        assert forall|i: int| 0 <= i < PIXEL_COUNT implies in_rect(i, x0 as int, y0 as int, w0 as int, h0 as int)
            == in_rect(i, x as int, y as int, w as int, h as int) by {
            lemma_row_col(i);
        }
    }

    /// The whole panel, as the region a full flush sends.
    pub fn flush(&self) -> (r: FlushRegion)
        ensures
            r == (FlushRegion { x: 0, y: 0, w: WIDTH, h: HEIGHT }),
    {
        FlushRegion { x: 0, y: 0, w: WIDTH, h: HEIGHT }
    }

    /// The region sent to refresh the dirty rectangle `x, y, w, h`: the
    /// rectangle clipped to the panel and widened to even coordinates and
    /// at least two pixels each way, which the panel handles best. `None`
    /// for an empty rectangle.
    pub fn flush_region(&self, x: u16, y: u16, w: u16, h: u16) -> (r: Option<FlushRegion>)
        ensures
            (w == 0 || h == 0) ==> r is None,
            (w != 0 && h != 0) ==> r == Some(
                FlushRegion {
                    x: flush_span(x as int, w as int, WIDTH as int).0 as usize,
                    y: flush_span(y as int, h as int, HEIGHT as int).0 as usize,
                    w: flush_span(x as int, w as int, WIDTH as int).1 as usize,
                    h: flush_span(y as int, h as int, HEIGHT as int).1 as usize,
                },
            ),
    {
        if w == 0 || h == 0 {
            return None;
        }
        let (x0, fw) = span(x as usize, w as usize, WIDTH);
        let (y0, fh) = span(y as usize, h as usize, HEIGHT);
        Some(FlushRegion { x: x0, y: y0, w: fw, h: fh })
    }

    /// The front buffer.
    pub fn buffer(&self) -> (r: &[u16])
        ensures
            r@ == self.front(),
    {
        self.buf.as_slice()
    }

    /// The front buffer, to be written directly.
    pub fn buffer_mut(&mut self) -> (r: &mut [u16])
        ensures
            r@ == old(self).front(),
            final(self).front() == final(r)@,
            final(self).back() == old(self).back(),
    {
        self.buf.as_mut_slice()
    }
}

/// A rectangle of the panel to send.
#[derive(Clone, Copy, PartialEq, Eq, Structural)]
pub struct FlushRegion {
    pub x: usize,
    pub y: usize,
    pub w: usize,
    pub h: usize,
}

/// Start and length along one axis of size `size` of the region sent for
/// the span `a, len`: the start clipped and rounded down to even, the end
/// clipped and rounded up to even inside the panel, at least two pixels
/// and never past the edge.
pub open spec fn flush_span(a: int, len: int, size: int) -> (int, int) {
    let c0 = if a < size - 1 {
        a
    } else {
        size - 1
    };
    let s = c0 - c0 % 2;
    let e0 = if a + len < size {
        a + len
    } else {
        size
    };
    let e1 = if e0 % 2 == 1 && e0 < size {
        e0 + 1
    } else {
        e0
    };
    let e2 = if e1 <= s {
        if s + 2 < size {
            s + 2
        } else {
            size
        }
    } else {
        e1
    };
    let n0 = if e2 - s > 2 {
        e2 - s
    } else {
        2
    };
    (s, if n0 < size - s {
        n0
    } else {
        size - s
    })
}

fn span(a: usize, len: usize, size: usize) -> (r: (usize, usize))
    requires
        size == WIDTH || size == HEIGHT,
        a <= u16::MAX,
        len <= u16::MAX,
    ensures
        r.0 == flush_span(a as int, len as int, size as int).0,
        r.1 == flush_span(a as int, len as int, size as int).1,
{
    let c0 = if a < size - 1 {
        a
    } else {
        size - 1
    };
    let s = c0 - c0 % 2;
    let e0 = if a + len < size {
        a + len
    } else {
        size
    };
    let e1 = if e0 % 2 == 1 && e0 < size {
        e0 + 1
    } else {
        e0
    };
    let e2 = if e1 <= s {
        if s + 2 < size {
            s + 2
        } else {
            size
        }
    } else {
        e1
    };
    let n0 = if e2 - s > 2 {
        e2 - s
    } else {
        2
    };
    (s, if n0 < size - s {
        n0
    } else {
        size - s
    })
}

/// The region sent starts even, stays on the panel, is at least one pixel
/// each way, and covers the requested span as clipped to the panel.
pub proof fn lemma_flush_span_covers(a: int, len: int, size: int)
    requires
        0 <= a,
        0 < len,
        size == WIDTH || size == HEIGHT,
    ensures
        flush_span(a, len, size).0 % 2 == 0,
        0 <= flush_span(a, len, size).0,
        flush_span(a, len, size).0 + flush_span(a, len, size).1 <= size,
        flush_span(a, len, size).1 >= 2,
        a < size ==> flush_span(a, len, size).0 <= a,
        a < size ==> (if a + len < size {
            a + len
        } else {
            size
        }) <= flush_span(a, len, size).0 + flush_span(a, len, size).1,
{
}

/// `s` after painting the points `px` in order, those off the panel
/// skipped.
pub open spec fn painted(s: Seq<u16>, px: Seq<(i32, i32, u16)>) -> Seq<u16>
    decreases px.len(),
{
    if px.len() == 0 {
        s
    } else {
        let before = painted(s, px.drop_last());
        let (x, y, c) = px.last();
        if 0 <= x < WIDTH && 0 <= y < HEIGHT {
            before.update(pixel_index(x as int, y as int), c)
        } else {
            before
        }
    }
}

/// Start and length of the span `a, len` clipped to `[0, size)`; the
/// length is 0 where nothing is left.
pub open spec fn clip_span(a: int, len: int, size: int) -> (int, int) {
    let s = if a < 0 {
        0
    } else if a > size {
        size
    } else {
        a
    };
    let e = if a + len < 0 {
        0
    } else if a + len > size {
        size
    } else {
        a + len
    };
    (s, if e > s {
        e - s
    } else {
        0
    })
}

fn clip_axis(a: i32, len: u32, size: usize) -> (r: (usize, usize))
    requires
        size == WIDTH || size == HEIGHT,
    ensures
        r.0 == clip_span(a as int, len as int, size as int).0,
        r.1 == clip_span(a as int, len as int, size as int).1,
{
    let a64 = a as i64;
    let size64 = size as i64;
    let s = if a64 < 0 {
        0
    } else if a64 > size64 {
        size64
    } else {
        a64
    };
    let end = a64 + len as i64;
    let e = if end < 0 {
        0
    } else if end > size64 {
        size64
    } else {
        end
    };
    (s as usize, if e > s {
        (e - s) as usize
    } else {
        0
    })
}

/// The part of the rectangle `w` by `h` at `(x, y)` that lies on the
/// panel, as `(x, y, w, h)`; empty (a zero side) where none does.
pub fn intersect_panel(x: i32, y: i32, w: u32, h: u32) -> (r: (usize, usize, usize, usize))
    ensures
        r.0 == clip_span(x as int, w as int, WIDTH as int).0,
        r.2 == clip_span(x as int, w as int, WIDTH as int).1,
        r.1 == clip_span(y as int, h as int, HEIGHT as int).0,
        r.3 == clip_span(y as int, h as int, HEIGHT as int).1,
{
    let (x0, w0) = clip_axis(x, w, WIDTH);
    let (y0, h0) = clip_axis(y, h, HEIGHT);
    (x0, y0, w0, h0)
}

proof fn lemma_row_col(i: int)
    requires
        0 <= i < PIXEL_COUNT,
    ensures
        0 <= i / (WIDTH as int) < HEIGHT,
        0 <= i % (WIDTH as int) < WIDTH,
{
    assert(0 <= i / 410 < 502 && 0 <= i % 410 < 410) by (nonlinear_arith)
        requires
            0 <= i < 205820,
    ;
}

/// Buffer index the `k`-th color of an area `w` wide at `(x, y)` goes to.
pub open spec fn target(x: int, y: int, w: int, k: int) -> int {
    pixel_index(x + k % w, y + k / w)
}

/// One of the first `n` colors of the area lands on buffer index `i`.
pub open spec fn covered(n: int, x: int, y: int, w: int, i: int) -> bool {
    exists|j: int| 0 <= j < n && y + j / w < HEIGHT && #[trigger] target(x, y, w, j) == i
}

proof fn lemma_target_bounds(x: int, y: int, w: int, k: int)
    requires
        w > 0,
        0 <= x,
        x + w <= WIDTH,
        0 <= k,
    ensures
        0 <= k % w < w,
        k / w >= 0,
{
}

proof fn lemma_target_injective(x: int, y: int, w: int, j: int, k: int)
    requires
        w > 0,
        0 <= x,
        x + w <= WIDTH,
        0 <= j,
        0 <= k,
        target(x, y, w, j) == target(x, y, w, k),
    ensures
        j == k,
{
    let (qj, rj) = (j / w, j % w);
    let (qk, rk) = (k / w, k % w);
    assert(0 <= rj < w && 0 <= rk < w);
    assert((y + qj) * WIDTH + (x + rj) == (y + qk) * WIDTH + (x + rk));
    assert(qj == qk && rj == rk) by (nonlinear_arith)
        requires
            (y + qj) * 410 + (x + rj) == (y + qk) * 410 + (x + rk),
            0 <= x + rj < 410,
            0 <= x + rk < 410,
    ;
    assert(j == qj * w + rj && k == qk * w + rk) by (nonlinear_arith)
        requires
            w > 0,
            qj == j / w,
            rj == j % w,
            qk == k / w,
            rk == k % w,
    ;
}

} // verus!
