//! The page-swipe animation: snapshots of the current and the next page
//! slide across the screen with the finger.

use vstd::prelude::*;

use crate::framebuffer::{Framebuffer, PIXEL_COUNT, WIDTH};
use crate::ft3168::SwipeDirection;
use crate::pages::Page;

verus! {

/// Requests to the animation task.
#[derive(Clone, Copy, PartialEq, Eq, Structural)]
pub enum AnimCommand {
    Start { start_x: u16, direction: SwipeDirection },
    Drag { x: u16 },
    End,
}

/// A band of the screen filled from a snapshot: `width` columns from
/// screen column `screen_x`, taken from each row of the current page's
/// snapshot (or the target's) starting at column `src_col`.
#[derive(Clone, Copy, PartialEq, Eq, Structural)]
pub struct SlidePart {
    pub screen_x: usize,
    pub width: usize,
    pub from_target: bool,
    pub src_col: usize,
}

/// How the drag ended.
#[derive(Clone, Copy, PartialEq, Eq, Structural)]
pub enum DragEnd {
    /// No swipe was running.
    Idle,
    /// Dragged far enough: the target snapshot is shown and its page
    /// becomes current.
    Commit(Option<Page>),
    /// Not far enough: the current snapshot is shown again.
    Cancel,
}

pub struct SwipeAnimator {
    snap_current: Vec<u16>,
    snap_target: Vec<u16>,
    direction: Option<SwipeDirection>,
    start_x: u16,
    offset: u16,
    target_page: Option<Page>,
    active: bool,
}

/// How far the pages have slid for a finger at `touch_x` that started at
/// `start_x`: toward the swipe's direction, within the screen width.
pub open spec fn slide_offset(dir: SwipeDirection, start_x: u16, touch_x: u16) -> int {
    let delta = touch_x - start_x;
    let raw = if dir == SwipeDirection::Left {
        delta
    } else if dir == SwipeDirection::Right {
        -delta
    } else {
        0
    };
    if raw < 0 {
        0
    } else if raw > WIDTH {
        WIDTH as int
    } else {
        raw
    }
}

impl SwipeAnimator {
    pub closed spec fn current(&self) -> Seq<u16> {
        self.snap_current@
    }

    pub closed spec fn target(&self) -> Seq<u16> {
        self.snap_target@
    }

    pub closed spec fn spec_active(&self) -> bool {
        self.active
    }

    pub closed spec fn spec_offset(&self) -> u16 {
        self.offset
    }

    pub closed spec fn spec_direction(&self) -> Option<SwipeDirection> {
        self.direction
    }

    pub closed spec fn spec_start_x(&self) -> u16 {
        self.start_x
    }

    pub closed spec fn spec_target_page(&self) -> Option<Page> {
        self.target_page
    }

    pub open spec fn wf(&self) -> bool {
        self.current().len() == PIXEL_COUNT && self.target().len() == PIXEL_COUNT
    }

    pub fn new() -> (r: Self)
        ensures
            r.wf(),
            !r.spec_active(),
            r.spec_direction() is None,
            r.spec_target_page() is None,
    {
        SwipeAnimator {
            snap_current: vec![0u16; PIXEL_COUNT],
            snap_target: vec![0u16; PIXEL_COUNT],
            direction: None,
            start_x: 0,
            offset: 0,
            target_page: None,
            active: false,
        }
    }

    pub fn is_active(&self) -> (r: bool)
        ensures
            r == self.spec_active(),
    {
        self.active
    }

    /// The current snapshot.
    pub fn current_snapshot(&self) -> (r: &[u16])
        ensures
            r@ == self.current(),
    {
        self.snap_current.as_slice()
    }

    /// The target snapshot.
    pub fn target_snapshot(&self) -> (r: &[u16])
        ensures
            r@ == self.target(),
    {
        self.snap_target.as_slice()
    }

    /// Starts a swipe from column `start_x`, snapshotting what is on
    /// screen.
    pub fn start_swipe(&mut self, fb: &Framebuffer, start_x: u16, direction: SwipeDirection)
        requires
            old(self).wf(),
            fb.wf(),
        ensures
            final(self).wf(),
            final(self).spec_active(),
            final(self).spec_direction() == Some(direction),
            final(self).spec_start_x() == start_x,
            final(self).spec_offset() == 0,
            final(self).spec_target_page() is None,
            final(self).current() == fb.front(),
            final(self).target() == old(self).target(),
    {
        self.direction = Some(direction);
        self.start_x = start_x;
        self.offset = 0;
        self.active = true;
        self.target_page = None;
        let src = fb.buffer();
        copy_into(&mut self.snap_current, src);
    }

    /// Snapshots the page the swipe leads to.
    pub fn set_target(&mut self, fb: &Framebuffer, target: Page)
        requires
            old(self).wf(),
            fb.wf(),
        ensures
            final(self).wf(),
            final(self).target() == fb.front(),
            final(self).spec_target_page() == Some(target),
            final(self).current() == old(self).current(),
            final(self).spec_active() == old(self).spec_active(),
            final(self).spec_direction() == old(self).spec_direction(),
            final(self).spec_start_x() == old(self).spec_start_x(),
            final(self).spec_offset() == old(self).spec_offset(),
    {
        let src = fb.buffer();
        copy_into(&mut self.snap_target, src);
        self.target_page = Some(target);
    }

    /// Follows the finger to `touch_x`. While a swipe runs and the pages
    /// are partly slid, returns the two bands to send: for a left swipe
    /// the current page moved left with the target coming in from the
    /// right, for a right swipe the other way round.
    pub fn update(&mut self, touch_x: u16) -> (r: Option<(SlidePart, SlidePart)>)
        requires
            old(self).wf(),
        ensures
            final(self).wf(),
            final(self).current() == old(self).current(),
            final(self).target() == old(self).target(),
            final(self).spec_active() == old(self).spec_active(),
            final(self).spec_direction() == old(self).spec_direction(),
            final(self).spec_target_page() == old(self).spec_target_page(),
            final(self).spec_start_x() == old(self).spec_start_x(),
            !old(self).spec_active() || old(self).spec_direction() is None ==> r is None && final(self).spec_offset()
                == old(self).spec_offset(),
            old(self).spec_active() ==> (old(self).spec_direction() matches Some(d) ==> {
                let off = slide_offset(d, old(self).spec_start_x(), touch_x);
                &&& final(self).spec_offset() == off
                &&& (off == 0 || off >= WIDTH) ==> r is None
                &&& (0 < off < WIDTH && d == SwipeDirection::Left) ==> r == Some(
                    (
                        SlidePart { screen_x: 0, width: (WIDTH - off) as usize, from_target: false, src_col: off as usize },
                        SlidePart {
                            screen_x: (WIDTH - off) as usize,
                            width: off as usize,
                            from_target: true,
                            src_col: 0,
                        },
                    ),
                )
                &&& (0 < off < WIDTH && d != SwipeDirection::Left) ==> r == Some(
                    (
                        SlidePart {
                            screen_x: 0,
                            width: off as usize,
                            from_target: true,
                            src_col: (WIDTH - off) as usize,
                        },
                        SlidePart { screen_x: off as usize, width: (WIDTH - off) as usize, from_target: false, src_col: 0 },
                    ),
                )
            }),
    {
        if !self.active {
            return None;
        }
        let dir = match self.direction {
            Some(d) => d,
            None => return None,
        };
        let delta = touch_x as i32 - self.start_x as i32;
        let raw = match dir {
            SwipeDirection::Left => delta,
            SwipeDirection::Right => -delta,
            _ => 0,
        };
        let w = WIDTH as i32;
        let clamped = if raw < 0 {
            0
        } else if raw > w {
            w
        } else {
            raw
        };
        let offset = clamped as u16;
        self.offset = offset;
        let off = offset as usize;
        if off == 0 || off >= WIDTH {
            return None;
        }
        if dir == SwipeDirection::Left {
            Some(
                (
                    SlidePart { screen_x: 0, width: WIDTH - off, from_target: false, src_col: off },
                    SlidePart { screen_x: WIDTH - off, width: off, from_target: true, src_col: 0 },
                ),
            )
        } else {
            Some(
                (
                    SlidePart { screen_x: 0, width: off, from_target: true, src_col: WIDTH - off },
                    SlidePart { screen_x: off, width: WIDTH - off, from_target: false, src_col: 0 },
                ),
            )
        }
    }

    /// Ends the drag: past a third of the screen width the swipe commits
    /// to the target page, else it falls back.
    pub fn end_drag(&mut self) -> (r: DragEnd)
        requires
            old(self).wf(),
        ensures
            final(self).wf(),
            !final(self).spec_active(),
            !old(self).spec_active() ==> r == DragEnd::Idle,
            old(self).spec_active() && old(self).spec_offset() >= 136 ==> r == DragEnd::Commit(
                old(self).spec_target_page(),
            ),
            old(self).spec_active() && old(self).spec_offset() < 136 ==> r == DragEnd::Cancel,
            final(self).current() == old(self).current(),
            final(self).target() == old(self).target(),
            final(self).spec_offset() == old(self).spec_offset(),
            final(self).spec_direction() == old(self).spec_direction(),
            final(self).spec_start_x() == old(self).spec_start_x(),
            final(self).spec_target_page() == old(self).spec_target_page(),
            !old(self).spec_active() ==> *final(self) == *old(self),
    {
        if !self.active {
            return DragEnd::Idle;
        }
        self.active = false;
        let threshold = (WIDTH as u16) / 3;
        if self.offset >= threshold {
            DragEnd::Commit(self.target_page)
        } else {
            DragEnd::Cancel
        }
    }
}

fn copy_into(dst: &mut Vec<u16>, src: &[u16])
    requires
        old(dst)@.len() == src@.len(),
    ensures
        final(dst)@ == src@,
{
    let mut i: usize = 0;
    while i < src.len()
        invariant
            dst@.len() == src@.len(),
            i <= src@.len(),
            forall|k: int| 0 <= k < i ==> dst@[k] == src@[k],
        decreases src.len() - i,
    {
        dst.set(i, src[i]);
        i = i + 1;
    }
    assert(dst@ =~= src@);
}

} // verus!
