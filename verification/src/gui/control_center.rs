//! The control center: a panel that slides down from the top of the
//! screen with four quick toggles.

use vstd::prelude::*;

use super::{animate_toward, first_hit, gap_fits, step_toward, area_fits, spec_hit, HitArea, TouchAction};

verus! {

/// Height of the panel: 49 % of the screen.
pub fn panel_height() -> (r: i32)
    ensures
        r == 245,
{
    (crate::state::LCD_HEIGHT as i32) * 49 / 100
}

/// Where the panel rests when closed: all but 1 % of the screen height
/// above the top edge.
pub const CLOSED_OFFSET: i32 = -240;
/// Where the panel starts: a whole screen height above the top edge.
pub const HIDDEN_OFFSET: i32 = -502;

/// Vertical position of the panel's top edge and where it is heading.
#[derive(Clone, Copy, PartialEq, Eq, Structural)]
pub struct Overlay {
    pub target_offset: i32,
    pub current_offset: i32,
}

impl Overlay {
    /// The panel at start-up: hidden and not moving.
    pub fn hidden() -> (r: Self)
        ensures
            r.target_offset == HIDDEN_OFFSET && r.current_offset == HIDDEN_OFFSET,
    {
        Overlay { target_offset: -(crate::state::LCD_HEIGHT as i32), current_offset: -(crate::state::LCD_HEIGHT as i32) }
    }

    /// Starts sliding the panel fully down.
    pub fn open(&mut self)
        ensures
            final(self).target_offset == 0,
            final(self).current_offset == old(self).current_offset,
    {
        self.target_offset = 0;
    }

    /// Starts sliding the panel back up, leaving a sliver showing.
    pub fn close(&mut self)
        ensures
            final(self).target_offset == CLOSED_OFFSET,
            final(self).current_offset == old(self).current_offset,
    {
        let peek = (crate::state::LCD_HEIGHT as i32) / 100;
        self.target_offset = -panel_height() + peek;
    }

    /// Moves the panel one step toward its target; says whether it moved.
    pub fn animate(&mut self, anim_speed: i32) -> (r: bool)
        requires
            anim_speed >= 0,
            gap_fits(old(self).current_offset, old(self).target_offset),
        ensures
            final(self).target_offset == old(self).target_offset,
            final(self).current_offset == step_toward(old(self).current_offset, old(self).target_offset, anim_speed),
            r == (old(self).current_offset != old(self).target_offset),
    {
        let moved = self.current_offset != self.target_offset;
        self.current_offset = animate_toward(self.current_offset, self.target_offset, anim_speed);
        moved
    }

    /// More than the closed sliver of the panel is on screen.
    pub fn is_visible(&self) -> (r: bool)
        ensures
            r == (self.current_offset > CLOSED_OFFSET),
    {
        self.current_offset > -panel_height() + (crate::state::LCD_HEIGHT as i32) / 100
    }
}

/// Marks the cached panel image for redrawing.
pub fn invalidate_panel(dirty: &mut bool)
    ensures
        *final(dirty),
{
    *dirty = true;
}

/// The action of the first of the panel's boxes that `(x, y)` hits, when
/// the boxes have been laid out.
pub fn handle_touch(areas: &Option<[HitArea; 4]>, x: i32, y: i32) -> (r: Option<TouchAction>)
    requires
        areas matches Some(a) ==> forall|i: int| 0 <= i < 4 ==> area_fits(#[trigger] a@[i]),
    ensures
        areas is None ==> r is None,
        areas matches Some(a) ==> match r {
            Some(act) => exists|i: int|
                0 <= i < 4 && spec_hit(x, y, a@[i]) && a@[i].action == act && forall|j: int|
                    0 <= j < i ==> !spec_hit(x, y, #[trigger] a@[j]),
            None => forall|i: int| 0 <= i < 4 ==> !spec_hit(x, y, #[trigger] a@[i]),
        },
{
    match areas {
        Some(a) => first_hit(a, x, y),
        None => None,
    }
}

} // verus!
