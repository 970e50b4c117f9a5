//! The media player's split view (playlist under the controls) and the
//! playlist's scrolling.

use vstd::prelude::*;

use super::{animate_toward, first_hit, gap_fits, step_toward, area_fits, spec_hit, HitArea, TouchAction};
use crate::ft3168::SwipeDirection;
use crate::storage::{dec_digits, push_decimal_u64};

verus! {

/// How far the controls slide up when the playlist opens: half the
/// screen.
pub const SPLIT_OPEN_OFFSET: i32 = 251;

/// Position of the split and where it is heading.
#[derive(Clone, Copy, PartialEq, Eq, Structural)]
pub struct MediaSplit {
    pub target_offset: i32,
    pub current_offset: i32,
}

/// What one animation step of the split did.
#[derive(Clone, Copy, PartialEq, Eq, Structural)]
pub enum SplitStep {
    /// Already where it is heading.
    Idle,
    /// Moved and is still on the way.
    Moving,
    /// Arrived fully open: the controls' touch areas are hidden.
    Opened,
    /// Arrived closed: the controls' touch areas are back.
    Closed,
}

impl MediaSplit {
    pub fn new() -> (r: Self)
        ensures
            r.target_offset == 0 && r.current_offset == 0,
    {
        MediaSplit { target_offset: 0, current_offset: 0 }
    }

    pub fn open_split(&mut self)
        ensures
            final(self).target_offset == SPLIT_OPEN_OFFSET,
            final(self).current_offset == old(self).current_offset,
    {
        self.target_offset = crate::state::LCD_HEIGHT as i32 / 2;
    }

    pub fn close_split(&mut self)
        ensures
            final(self).target_offset == 0,
            final(self).current_offset == old(self).current_offset,
    {
        self.target_offset = 0;
    }

    /// Moves one step toward the target and reports whether it arrived,
    /// and how.
    pub fn animate_split(&mut self, anim_speed: i32) -> (r: SplitStep)
        requires
            anim_speed >= 0,
            gap_fits(old(self).current_offset, old(self).target_offset),
        ensures
            final(self).target_offset == old(self).target_offset,
            final(self).current_offset == step_toward(old(self).current_offset, old(self).target_offset, anim_speed),
            old(self).current_offset == old(self).target_offset ==> r == SplitStep::Idle,
            old(self).current_offset != old(self).target_offset ==> r == (if final(self).current_offset
                != final(self).target_offset {
                SplitStep::Moving
            } else if final(self).target_offset > 0 {
                SplitStep::Opened
            } else {
                SplitStep::Closed
            }),
    {
        if self.current_offset == self.target_offset {
            return SplitStep::Idle;
        }
        self.current_offset = animate_toward(self.current_offset, self.target_offset, anim_speed);
        if self.current_offset != self.target_offset {
            SplitStep::Moving
        } else if self.target_offset > 0 {
            SplitStep::Opened
        } else {
            SplitStep::Closed
        }
    }

    pub fn is_split_open(&self) -> (r: bool)
        ensures
            r == (self.current_offset > 0),
    {
        self.current_offset > 0
    }
}

/// The playlist's scroll position, where it is heading and how far it
/// can go.
#[derive(Clone, Copy, PartialEq, Eq, Structural)]
pub struct PlaylistScroll {
    pub offset: i32,
    pub target: i32,
    pub max_scroll: i32,
}

impl PlaylistScroll {
    pub fn new() -> (r: Self)
        ensures
            r.offset == 0 && r.target == 0 && r.max_scroll == 0,
    {
        PlaylistScroll { offset: 0, target: 0, max_scroll: 0 }
    }

    pub fn animate_playlist_scroll(&mut self, speed: i32)
        requires
            speed >= 0,
            gap_fits(old(self).offset, old(self).target),
        ensures
            final(self).offset == step_toward(old(self).offset, old(self).target, speed),
            final(self).target == old(self).target,
            final(self).max_scroll == old(self).max_scroll,
    {
        self.offset = animate_toward(self.offset, self.target, speed);
    }
}

/// Marks the cached playlist image for redrawing.
pub fn invalidate_playlist(dirty: &mut bool)
    ensures
        *final(dirty),
{
    *dirty = true;
}


/// Height of one playlist line.
pub const PLAYLIST_LINE_HEIGHT: i32 = 70;
/// Space above the first playlist line.
pub const PLAYLIST_MARGIN: i32 = 20;
/// How far one swipe scrolls the playlist.
pub const SCROLL_STEP: i32 = 70;

impl PlaylistScroll {
    /// A swipe over the open playlist: up scrolls further down the list
    /// (up to the end), down scrolls back (down to the top); other
    /// directions, or a closed playlist, do nothing.
    pub fn handle_swipe(&mut self, dir: SwipeDirection, split_open: bool)
        requires
            old(self).target + SCROLL_STEP <= i32::MAX,
            old(self).target - SCROLL_STEP >= i32::MIN,
        ensures
            final(self).offset == old(self).offset,
            final(self).max_scroll == old(self).max_scroll,
            final(self).target == (if !split_open {
                old(self).target as int
            } else if dir == SwipeDirection::Up {
                if old(self).target + SCROLL_STEP < old(self).max_scroll {
                    old(self).target + SCROLL_STEP
                } else {
                    old(self).max_scroll as int
                }
            } else if dir == SwipeDirection::Down {
                if old(self).target - SCROLL_STEP > 0 {
                    old(self).target - SCROLL_STEP
                } else {
                    0
                }
            } else {
                old(self).target as int
            }),
    {
        if !split_open {
            return;
        }
        match dir {
            SwipeDirection::Up => {
                let t = self.target + SCROLL_STEP;
                self.target = if t < self.max_scroll {
                    t
                } else {
                    self.max_scroll
                };
            },
            SwipeDirection::Down => {
                let t = self.target - SCROLL_STEP;
                self.target = if t > 0 {
                    t
                } else {
                    0
                };
            },
            _ => {},
        }
    }
}

/// "M:SS" of a track position in milliseconds.
pub open spec fn time_label(ms: u32) -> Seq<u8> {
    let total = ms / 1000;
    let mins = total / 60;
    let secs = total % 60;
    dec_digits(mins as nat) + seq![0x3Au8] + (if secs < 10 {
        seq![0x30u8] + dec_digits(secs as nat)
    } else {
        dec_digits(secs as nat)
    })
}

/// Writes the position `ms` as minutes and two-digit seconds.
pub fn format_time(ms: u32) -> (r: Vec<u8>)
    ensures
        r@ == time_label(ms),
{
    let total = ms / 1000;
    let mins = total / 60;
    let secs = total % 60;
    let mut out: Vec<u8> = Vec::new();
    push_decimal_u64(&mut out, mins as u64);
    out.push(0x3A);
    if secs < 10 {
        out.push(0x30);
    }
    let ghost before = out@;
    push_decimal_u64(&mut out, secs as u64);
    assert(out@ =~= time_label(ms));
    out
}

/// Whether height `y` lies in the gap the open split leaves around the
/// middle of the screen (`offset` above and below it).
pub open spec fn spec_is_in_gap(offset: i32, y: i32) -> bool {
    offset > 0 && 251 - offset <= y <= 251 + offset
}

pub fn is_in_gap(offset: i32, y: i32) -> (r: bool)
    ensures
        r == spec_is_in_gap(offset, y),
{
    if offset <= 0 {
        return false;
    }
    let split_line_y = crate::state::LCD_HEIGHT as i64 / 2;
    let gap_top = split_line_y - offset as i64;
    let gap_bottom = split_line_y + offset as i64;
    y as i64 >= gap_top && y as i64 <= gap_bottom
}

/// The playlist line a tap at height `y` selects: inside the gap, counted
/// from the first line (shifted by the scroll), if such a line exists.
pub open spec fn spec_playlist_tap(offset: i32, scroll: i32, total: usize, y: i32) -> Option<usize> {
    if !spec_is_in_gap(offset, y) {
        None
    } else {
        let rel = (y - (251 - offset)) + scroll - PLAYLIST_MARGIN;
        if rel < 0 || rel / (PLAYLIST_LINE_HEIGHT as int) >= total {
            None
        } else {
            Some((rel / (PLAYLIST_LINE_HEIGHT as int)) as usize)
        }
    }
}

pub fn handle_playlist_tap(offset: i32, scroll: i32, total: usize, x: i32, y: i32) -> (r: Option<usize>)
    ensures
        r == spec_playlist_tap(offset, scroll, total, y),
{
    if !is_in_gap(offset, y) {
        return None;
    }
    let split_line_y = crate::state::LCD_HEIGHT as i64 / 2;
    let gap_top = split_line_y - offset as i64;
    let relative_y = (y as i64 - gap_top) + scroll as i64 - PLAYLIST_MARGIN as i64;
    if relative_y < 0 {
        return None;
    }
    let index = (relative_y / PLAYLIST_LINE_HEIGHT as i64) as u64;
    if index >= total as u64 {
        None
    } else {
        Some(index as usize)
    }
}

/// The touch areas of the media player with the playlist closed:
/// previous, play/pause and next along the bottom, clear and favourite
/// at the sides, and the album art that opens the playlist.
pub fn set_hit_areas_closed() -> (r: [HitArea; 6])
    ensures
        r@ == seq![
            HitArea { x: 20, y: 382, width: 90, height: 90, action: TouchAction::MediaPrev },
            HitArea { x: 160, y: 382, width: 90, height: 90, action: TouchAction::MediaPlayPause },
            HitArea { x: 300, y: 382, width: 90, height: 90, action: TouchAction::MediaNext },
            HitArea { x: 5, y: 130, width: 90, height: 90, action: TouchAction::MediaClear },
            HitArea { x: 315, y: 130, width: 90, height: 90, action: TouchAction::MediaHeart },
            HitArea { x: 115, y: 85, width: 180, height: 180, action: TouchAction::MediaSplitView },
        ],
{
    let r = [
        HitArea { x: 20, y: 382, width: 90, height: 90, action: TouchAction::MediaPrev },
        HitArea { x: 160, y: 382, width: 90, height: 90, action: TouchAction::MediaPlayPause },
        HitArea { x: 300, y: 382, width: 90, height: 90, action: TouchAction::MediaNext },
        HitArea { x: 5, y: 130, width: 90, height: 90, action: TouchAction::MediaClear },
        HitArea { x: 315, y: 130, width: 90, height: 90, action: TouchAction::MediaHeart },
        HitArea { x: 115, y: 85, width: 180, height: 180, action: TouchAction::MediaSplitView },
    ];
    assert(r@ =~= seq![
        HitArea { x: 20, y: 382, width: 90, height: 90, action: TouchAction::MediaPrev },
        HitArea { x: 160, y: 382, width: 90, height: 90, action: TouchAction::MediaPlayPause },
        HitArea { x: 300, y: 382, width: 90, height: 90, action: TouchAction::MediaNext },
        HitArea { x: 5, y: 130, width: 90, height: 90, action: TouchAction::MediaClear },
        HitArea { x: 315, y: 130, width: 90, height: 90, action: TouchAction::MediaHeart },
        HitArea { x: 115, y: 85, width: 180, height: 180, action: TouchAction::MediaSplitView },
    ]);
    r
}

/// The action of the first of the media player's current areas that a
/// touch at `(x, y)` hits; none when no areas are set.
pub fn handle_touch(areas: &Option<[HitArea; 6]>, x: i32, y: i32) -> (r: Option<TouchAction>)
    requires
        areas matches Some(a) ==> forall|i: int| 0 <= i < 6 ==> area_fits(#[trigger] a@[i]),
    ensures
        areas is None ==> r is None,
        areas matches Some(a) ==> match r {
            Some(act) => exists|i: int|
                0 <= i < 6 && spec_hit(x, y, a@[i]) && a@[i].action == act && forall|j: int|
                    0 <= j < i ==> !spec_hit(x, y, #[trigger] a@[j]),
            None => forall|i: int| 0 <= i < 6 ==> !spec_hit(x, y, #[trigger] a@[i]),
        },
{
    match areas {
        Some(a) => first_hit(a, x, y),
        None => None,
    }
}

} // verus!
