//! The app launcher: one app per screen, scrolled vertically.

use vstd::prelude::*;

use crate::framebuffer::{HEIGHT, PIXEL_COUNT, WIDTH};
use crate::ft3168::SwipeDirection;

verus! {

/// Height of one launcher page.
pub const PAGE_HEIGHT: i32 = 502;

/// Scroll position of the launcher and where it is heading.
#[derive(Clone, Copy, PartialEq, Eq, Structural)]
pub struct Launcher {
    pub scroll_offset: i32,
    pub target_scroll: i32,
}

impl Launcher {
    pub fn new() -> (r: Self)
        ensures
            r.scroll_offset == 0 && r.target_scroll == 0,
    {
        Launcher { scroll_offset: 0, target_scroll: 0 }
    }

    /// A swipe up shows the next of `total` apps, a swipe down the
    /// previous one, within the list.
    pub fn handle_swipe(&mut self, dir: SwipeDirection, total: usize)
        requires
            total * 502 <= i32::MAX,
            old(self).target_scroll <= i32::MAX - PAGE_HEIGHT,
            old(self).target_scroll >= i32::MIN + PAGE_HEIGHT,
        ensures
            final(self).scroll_offset == old(self).scroll_offset,
            total == 0 || (dir != SwipeDirection::Up && dir != SwipeDirection::Down) ==> *final(self) == *old(self),
            total > 0 && dir == SwipeDirection::Up ==> final(self).target_scroll == (if old(self).target_scroll
                + PAGE_HEIGHT < (total - 1) * PAGE_HEIGHT {
                old(self).target_scroll + PAGE_HEIGHT
            } else {
                (total - 1) * PAGE_HEIGHT
            }),
            total > 0 && dir == SwipeDirection::Down ==> final(self).target_scroll == (if old(self).target_scroll
                - PAGE_HEIGHT > 0 {
                old(self).target_scroll - PAGE_HEIGHT
            } else {
                0
            }),
    {
        if total == 0 {
            return;
        }
        let max_scroll = (total - 1) as i32 * PAGE_HEIGHT;
        match dir {
            SwipeDirection::Up => {
                let t = self.target_scroll + PAGE_HEIGHT;
                self.target_scroll = if t < max_scroll {
                    t
                } else {
                    max_scroll
                };
            },
            SwipeDirection::Down => {
                let t = self.target_scroll - PAGE_HEIGHT;
                self.target_scroll = if t > 0 {
                    t
                } else {
                    0
                };
            },
            _ => {},
        }
    }

    /// The app a double tap launches: the one on screen, by the scroll
    /// position, within the list of `total` apps.
    pub fn handle_double_tap(&self, total: usize) -> (r: Option<usize>)
        requires
            total <= i32::MAX,
        ensures
            total == 0 ==> r is None,
            total > 0 ==> r == Some(
                (if crate::gui::options::div_trunc(self.scroll_offset as int, PAGE_HEIGHT as int) < 0 {
                    0
                } else if crate::gui::options::div_trunc(self.scroll_offset as int, PAGE_HEIGHT as int) > total - 1 {
                    total - 1
                } else {
                    crate::gui::options::div_trunc(self.scroll_offset as int, PAGE_HEIGHT as int)
                }) as usize,
            ),
    {
        if total == 0 {
            return None;
        }
        let page = self.scroll_offset / PAGE_HEIGHT;
        let last = (total - 1) as i32;
        let idx = if page < 0 {
            0
        } else if page > last {
            last
        } else {
            page
        };
        Some(idx as usize)
    }
}

/// Pixel `i` of the launcher frame at scroll position `scroll`: the app
/// page the position falls in, shifted up by how far into it the position
/// is, with the next page coming up from the bottom; black where there is
/// no page.
pub open spec fn composed_pixel(pages: Seq<Vec<u16>>, scroll: int, i: int) -> u16 {
    let row = i / (WIDTH as int);
    let col = i % (WIDTH as int);
    let cur = scroll / (HEIGHT as int);
    let prog = scroll % (HEIGHT as int);
    if cur < pages.len() && row < HEIGHT - prog {
        pages[cur]@[(row + prog) * WIDTH + col]
    } else if prog > 0 && cur + 1 < pages.len() && row >= HEIGHT - prog {
        pages[cur + 1]@[(row - (HEIGHT - prog)) * WIDTH + col]
    } else {
        0
    }
}

/// Draws the launcher frame for `scroll_offset` into `buf` from the
/// pre-rendered app pages.
pub fn compose(buf: &mut [u16], pages: &Vec<Vec<u16>>, scroll_offset: i32)
    requires
        old(buf)@.len() == PIXEL_COUNT,
        scroll_offset >= 0,
        forall|k: int| 0 <= k < pages@.len() ==> (#[trigger] pages@[k])@.len() >= PIXEL_COUNT,
    ensures
        final(buf)@.len() == PIXEL_COUNT,
        forall|i: int| 0 <= i < PIXEL_COUNT ==> final(buf)@[i] == composed_pixel(pages@, scroll_offset as int, i),
{
    let total = pages.len();
    let cur = (scroll_offset / 502) as usize;
    let prog = (scroll_offset % 502) as usize;
    let mut i: usize = 0;
    while i < PIXEL_COUNT
        invariant
            buf@.len() == PIXEL_COUNT,
            total == pages@.len(),
            cur == scroll_offset as int / (HEIGHT as int),
            prog == scroll_offset as int % (HEIGHT as int),
            prog < HEIGHT,
            forall|k: int| 0 <= k < pages@.len() ==> (#[trigger] pages@[k])@.len() >= PIXEL_COUNT,
            i <= PIXEL_COUNT,
            forall|k: int| 0 <= k < i ==> buf@[k] == composed_pixel(pages@, scroll_offset as int, k),
        decreases PIXEL_COUNT - i,
    {
        let row = i / WIDTH;
        let col = i % WIDTH;
        assert(row < HEIGHT) by (nonlinear_arith)
            requires
                i < 205820,
                row == i / 410,
        ;
        let v = if cur < total && row < HEIGHT - prog {
            assert((row + prog) * WIDTH + col < PIXEL_COUNT) by (nonlinear_arith)
                requires
                    row + prog < 502,
                    col < 410,
            ;
            pages[cur][(row + prog) * WIDTH + col]
        } else if prog > 0 && cur + 1 < total && row >= HEIGHT - prog {
            assert((row - (HEIGHT - prog)) * WIDTH + col < PIXEL_COUNT) by (nonlinear_arith)
                requires
                    row - (502 - prog) < 502,
                    row >= 502 - prog,
                    col < 410,
            ;
            pages[cur + 1][(row - (HEIGHT - prog)) * WIDTH + col]
        } else {
            0
        };
        buf[i] = v;
        i = i + 1;
    }
}

} // verus!
