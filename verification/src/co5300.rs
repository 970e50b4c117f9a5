//! CO5300 AMOLED panel: the requests other tasks leave for the display
//! task, and the address window of a pixel transfer.

use vstd::prelude::*;

use crate::state::{LCD_COL_OFFSET, LCD_HEIGHT, LCD_WIDTH};

verus! {

pub const CMD_SLPOUT: u8 = 0x11;
pub const CMD_DISPOFF: u8 = 0x28;
pub const CMD_DISPON: u8 = 0x29;
pub const CMD_CASET: u8 = 0x2A;
pub const CMD_PASET: u8 = 0x2B;
pub const CMD_RAMWR: u8 = 0x2C;
pub const CMD_BRIGHTNESS: u8 = 0x51;

#[derive(Clone, Copy, PartialEq, Eq, Structural)]
pub enum DisplayError {
    BusError,
}

/// Requests to the display task: wake the panel, put it to sleep, and
/// whether the listening indicator flashes.
#[derive(Clone, Copy, PartialEq, Eq, Structural)]
pub struct DisplayFlags {
    pub should_wake: bool,
    pub should_sleep: bool,
    pub flash_on: bool,
}

pub open spec fn woken(f: DisplayFlags) -> DisplayFlags {
    DisplayFlags { should_sleep: false, should_wake: true, ..f }
}

pub open spec fn put_to_sleep(f: DisplayFlags) -> DisplayFlags {
    DisplayFlags { should_wake: false, should_sleep: true, ..f }
}

impl DisplayFlags {
    /// No request pending and no flashing.
    pub fn new() -> (r: Self)
        ensures
            !r.should_wake && !r.should_sleep && !r.flash_on,
    {
        DisplayFlags { should_wake: false, should_sleep: false, flash_on: false }
    }
}

/// Asks for the panel to wake, cancelling a sleep request.
pub fn wake_up(flags: &mut DisplayFlags)
    ensures
        *final(flags) == woken(*old(flags)),
{
    flags.should_sleep = false;
    flags.should_wake = true;
}

/// Starts flashing (a transcription is running).
pub fn start_flash(flags: &mut DisplayFlags)
    ensures
        *final(flags) == (DisplayFlags { flash_on: true, ..*old(flags) }),
{
    flags.flash_on = true;
}

/// Stops flashing.
pub fn stop_flash(flags: &mut DisplayFlags)
    ensures
        *final(flags) == (DisplayFlags { flash_on: false, ..*old(flags) }),
{
    flags.flash_on = false;
}

/// Asks for the panel to sleep, cancelling a wake request.
pub fn sleep_now(flags: &mut DisplayFlags)
    ensures
        *final(flags) == put_to_sleep(*old(flags)),
{
    flags.should_wake = false;
    flags.should_sleep = true;
}

/// Takes a pending wake request.
pub fn consume_wake(flags: &mut DisplayFlags) -> (r: bool)
    ensures
        r == old(flags).should_wake,
        *final(flags) == (DisplayFlags { should_wake: false, ..*old(flags) }),
{
    let r = flags.should_wake;
    flags.should_wake = false;
    r
}

/// Takes a pending sleep request.
pub fn consume_sleep(flags: &mut DisplayFlags) -> (r: bool)
    ensures
        r == old(flags).should_sleep,
        *final(flags) == (DisplayFlags { should_sleep: false, ..*old(flags) }),
{
    let r = flags.should_sleep;
    flags.should_sleep = false;
    r
}

pub fn is_flashing(flags: &DisplayFlags) -> (r: bool)
    ensures
        r == flags.flash_on,
{
    flags.flash_on
}

/// A wake request is taken exactly once, and the latest of a wake and a
/// sleep request is the one that stays.
pub proof fn lemma_requests(f: DisplayFlags)
    ensures
        woken(f).should_wake && !woken(f).should_sleep,
        put_to_sleep(woken(f)).should_sleep && !put_to_sleep(woken(f)).should_wake,
        woken(put_to_sleep(f)).should_wake && !woken(put_to_sleep(f)).should_sleep,
        (DisplayFlags { should_wake: false, ..woken(f) }).should_wake == false,
        woken(f).flash_on == f.flash_on && put_to_sleep(f).flash_on == f.flash_on,
{
}

/// Size and offsets of the panel's visible area.
#[derive(Clone, Copy, PartialEq, Eq, Structural)]
pub struct PanelGeometry {
    pub width: u16,
    pub height: u16,
    pub col_offset: u16,
    pub row_offset: u16,
}

impl PanelGeometry {
    /// The geometry of this watch's panel, with the row offset the board
    /// uses.
    pub fn new(row_offset: u16) -> (r: Self)
        ensures
            r == (PanelGeometry { width: LCD_WIDTH, height: LCD_HEIGHT, col_offset: LCD_COL_OFFSET, row_offset }),
    {
        PanelGeometry { width: LCD_WIDTH, height: LCD_HEIGHT, col_offset: LCD_COL_OFFSET, row_offset }
    }

    /// First and last panel column and row of the transfer window for the
    /// rectangle `x, y, w, h`.
    pub fn set_addr_window(&self, x: u16, y: u16, w: u16, h: u16) -> (r: (u16, u16, u16, u16))
        requires
            x + self.col_offset + w <= u16::MAX,
            x + self.col_offset + w >= 1,
            y + self.row_offset + h <= u16::MAX,
            y + self.row_offset + h >= 1,
        ensures
            r.0 == x + self.col_offset,
            r.1 == x + self.col_offset + w - 1,
            r.2 == y + self.row_offset,
            r.3 == y + self.row_offset + h - 1,
    {
        let x_start = x + self.col_offset;
        let x_end = ((x_start as u32 + w as u32) - 1) as u16;
        let y_start = y + self.row_offset;
        let y_end = ((y_start as u32 + h as u32) - 1) as u16;
        (x_start, x_end, y_start, y_end)
    }
}

/// Widest row the panel's area fill buffers; colours past it in a row are
/// dropped.
pub const ROW_BUFFER: usize = 128;

/// The on-panel points among `pixels`, in order, as panel coordinates.
pub open spec fn panel_points_of(pixels: Seq<(i32, i32, u16)>) -> Seq<(u16, u16, u16)>
    decreases pixels.len(),
{
    if pixels.len() == 0 {
        seq![]
    } else {
        let before = panel_points_of(pixels.drop_last());
        let (x, y, c) = pixels.last();
        if 0 <= x < LCD_WIDTH && 0 <= y < LCD_HEIGHT {
            before.push((x as u16, y as u16, c))
        } else {
            before
        }
    }
}

/// The points of a pixel list that lie on the panel (each is then drawn
/// as a 2 by 2 block, the smallest write the panel takes).
pub fn panel_points(pixels: &[(i32, i32, u16)]) -> (r: Vec<(u16, u16, u16)>)
    ensures
        r@ == panel_points_of(pixels@),
{
    let mut out: Vec<(u16, u16, u16)> = Vec::new();
    let mut i: usize = 0;
    while i < pixels.len()
        invariant
            i <= pixels@.len(),
            out@ == panel_points_of(pixels@.take(i as int)),
        decreases pixels.len() - i,
    {
        let (x, y, c) = pixels[i];
        if 0 <= x && x < LCD_WIDTH as i32 && 0 <= y && y < LCD_HEIGHT as i32 {
            out.push((x as u16, y as u16, c));
        }
        assert(pixels@.take(i + 1).drop_last() =~= pixels@.take(i as int));
        i = i + 1;
    }
    assert(pixels@.take(pixels@.len() as int) =~= pixels@);
    out
}

/// Row `k` of `colors` laid out `w` to a row (the last may be short), cut
/// to the row buffer.
pub open spec fn row_of(colors: Seq<u16>, w: int, k: int) -> Seq<u16> {
    let start = w * k;
    let end = if start + w < colors.len() { start + w } else { colors.len() as int };
    let keep = if end - start < ROW_BUFFER { end } else { start + ROW_BUFFER };
    colors.subrange(start, keep)
}

/// The rows streamed for `colors` filling an area `w` wide: each row cut
/// to the row buffer, sent twice when `dup` (a one-line area made two
/// lines high).
pub open spec fn rows_sent(colors: Seq<u16>, w: int, dup: bool, rows: int) -> Seq<Seq<u16>>
    decreases rows,
{
    if rows <= 0 {
        seq![]
    } else {
        let before = rows_sent(colors, w, dup, rows - 1);
        let r = row_of(colors, w, rows - 1);
        if dup {
            before.push(r).push(r)
        } else {
            before.push(r)
        }
    }
}

/// The rows an area fill `w` wide streams for `colors`, one per `w`
/// colours and one for a short last row, each twice when `dup`.
pub fn contiguous_rows(colors: &[u16], w: usize, dup: bool) -> (r: Vec<Vec<u16>>)
    requires
        w > 0,
    ensures
        r@.map_values(|v: Vec<u16>| v@) == rows_sent(colors@, w as int, dup, (colors@.len() + w - 1) / (w as int)),
{
    let n = colors.len();
    let mut out: Vec<Vec<u16>> = Vec::new();
    if n == 0 {
        assert((0 + w - 1) / (w as int) == 0) by (nonlinear_arith)
            requires
                w > 0,
        ;
        assert(out@.map_values(|v: Vec<u16>| v@) =~= seq![]);
        return out;
    }
    let mut start: usize = 0;
    let mut k: usize = 0;
    loop
        invariant_except_break
            start < n,
            start == w * k,
            out@.map_values(|v: Vec<u16>| v@) == rows_sent(colors@, w as int, dup, k as int),
        invariant
            w > 0,
            n == colors@.len(),
            n > 0,
        ensures
            out@.map_values(|v: Vec<u16>| v@) == rows_sent(colors@, w as int, dup, k as int),
            w * (k - 1) < n <= w * k,
        decreases n - start,
    {
        let end = if n - start > w {
            start + w
        } else {
            n
        };
        let keep = if end - start < ROW_BUFFER {
            end
        } else {
            start + ROW_BUFFER
        };
        let mut row: Vec<u16> = Vec::new();
        let mut j = start;
        while j < keep
            invariant
                start <= j <= keep <= n == colors@.len(),
                row@ == colors@.subrange(start as int, j as int),
            decreases keep - j,
        {
            row.push(colors[j]);
            j = j + 1;
            assert(row@ =~= colors@.subrange(start as int, j as int));
        }
        let ghost before = out@.map_values(|v: Vec<u16>| v@);
        let ghost r = row@;
        assert(r == row_of(colors@, w as int, k as int));
        if dup {
            let copy = row.clone();
            assert(copy@ == row@);
            out.push(copy);
        }
        out.push(row);
        proof {
            if dup {
                assert(out@.map_values(|v: Vec<u16>| v@) =~= before.push(r).push(r));
            } else {
                assert(out@.map_values(|v: Vec<u16>| v@) =~= before.push(r));
            }
            assert(w * (k + 1) == w * k + w) by (nonlinear_arith);
            assert(k <= start) by (nonlinear_arith)
                requires
                    start == w * k,
                    w > 0,
            ;
        }
        k = k + 1;
        if end == n {
            break;
        }
        start = end;
    }
    proof {
        let wi = w as int;
        let ni = n as int;
        let ki = k as int;
        assert((ni + wi - 1) / wi == ki) by (nonlinear_arith)
            requires
                wi > 0,
                wi * ki >= ni,
                wi * (ki - 1) < ni,
                ni > 0,
        {
            assert(ni + wi - 1 >= wi * ki);
            assert(ni + wi - 1 < wi * (ki + 1));
        }
    }
    out
}

} // verus!
