//! The analogue watch face's state: the time and date it shows and
//! whether it must be drawn again.

use vstd::prelude::*;

verus! {

/// What a render did.
#[derive(Clone, Copy, PartialEq, Eq, Structural)]
pub struct RenderOutcome {
    pub full_redraw: bool,
}

pub struct WatchFace {
    hours: u8,
    minutes: u8,
    seconds: u8,
    day: u8,
    month: u8,
    year: u8,
    full_redraw: bool,
    time_changed: bool,
}

impl WatchFace {
    pub closed spec fn time(&self) -> (u8, u8, u8) {
        (self.hours, self.minutes, self.seconds)
    }

    pub closed spec fn date(&self) -> (u8, u8, u8) {
        (self.day, self.month, self.year)
    }

    /// The face must be drawn: a redraw was asked for, or the time moved.
    pub closed spec fn spec_needs_render(&self) -> bool {
        self.full_redraw || self.time_changed
    }

    pub closed spec fn redraw_asked(&self) -> bool {
        self.full_redraw
    }

    /// Midnight on the first of January of year 25, to be drawn.
    pub fn new() -> (r: Self)
        ensures
            r.time() == (0u8, 0u8, 0u8),
            r.date() == (1u8, 1u8, 25u8),
            r.spec_needs_render(),
    {
        WatchFace {
            hours: 0,
            minutes: 0,
            seconds: 0,
            day: 1,
            month: 1,
            year: 25,
            full_redraw: true,
            time_changed: false,
        }
    }

    /// Shows `h:m:s`; a different time than shown makes the face due.
    pub fn update_time(&mut self, h: u8, m: u8, s: u8)
        ensures
            final(self).time() == (h, m, s),
            final(self).date() == old(self).date(),
            final(self).redraw_asked() == old(self).redraw_asked(),
            final(self).spec_needs_render() == (old(self).spec_needs_render() || old(self).time() != (h, m, s)),
    {
        if self.hours != h || self.minutes != m || self.seconds != s {
            self.hours = h;
            self.minutes = m;
            self.seconds = s;
            self.time_changed = true;
        }
    }

    pub fn update_date(&mut self, day: u8, month: u8, year: u8)
        ensures
            final(self).date() == (day, month, year),
            final(self).time() == old(self).time(),
            final(self).spec_needs_render() == old(self).spec_needs_render(),
            final(self).redraw_asked() == old(self).redraw_asked(),
    {
        self.day = day;
        self.month = month;
        self.year = year;
    }

    pub fn force_redraw(&mut self)
        ensures
            final(self).spec_needs_render(),
            final(self).redraw_asked(),
            final(self).time() == old(self).time(),
            final(self).date() == old(self).date(),
    {
        self.full_redraw = true;
    }

    pub fn needs_render(&self) -> (r: bool)
        ensures
            r == self.spec_needs_render(),
    {
        self.full_redraw || self.time_changed
    }

    /// The time shown, as hours, minutes and seconds.
    pub fn shown_time(&self) -> (r: (u8, u8, u8))
        ensures
            r == self.time(),
    {
        (self.hours, self.minutes, self.seconds)
    }

    /// The date shown, as day, month and year.
    pub fn shown_date(&self) -> (r: (u8, u8, u8))
        ensures
            r == self.date(),
    {
        (self.day, self.month, self.year)
    }

    /// Records a render: when the face was due it is drawn now and no
    /// longer due, and the outcome says a full frame was drawn; otherwise
    /// nothing happens.
    pub fn render(&mut self) -> (r: RenderOutcome)
        ensures
            r.full_redraw == old(self).spec_needs_render(),
            !final(self).spec_needs_render(),
            final(self).time() == old(self).time(),
            final(self).date() == old(self).date(),
    {
        if !self.needs_render() {
            return RenderOutcome { full_redraw: false };
        }
        self.full_redraw = false;
        self.time_changed = false;
        RenderOutcome { full_redraw: true }
    }
}

/// `DD/MM` of a date, two digits each.
pub open spec fn date_text(day: u8, month: u8) -> Seq<u8> {
    seq![(48 + day / 10) as u8, (48 + day % 10) as u8, 47u8, (48 + month / 10) as u8, (48 + month % 10) as u8]
}

/// The date label under the cyclops lens.
pub fn fmt_date_short(day: u8, month: u8) -> (r: [u8; 5])
    ensures
        r@ == date_text(day, month),
{
    let r = [48 + day / 10, 48 + day % 10, 47, 48 + month / 10, 48 + month % 10];
    assert(r@ =~= date_text(day, month));
    r
}

} // verus!
