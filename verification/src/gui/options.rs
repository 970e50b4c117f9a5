//! Settings pages that react to swipes: the info pages' scroller, the
//! microphone gain and the power-down timeout.

use vstd::prelude::*;

use super::{animate_toward, area_fits, gap_fits, hit_test, spec_hit, step_toward, HitArea, TouchAction};
use crate::ft3168::SwipeDirection;
use crate::storage::{dec_digits, push_decimal_u64};

verus! {

/// Height of one info page.
pub const INFO_PAGE_HEIGHT: i32 = 502;
/// Scroll position of the last of the four info pages below the first.
pub const INFO_MAX_OFFSET: i32 = 2008;
/// Longest power-down timeout in seconds.
pub const MAX_POWERDOWN_SECS: u32 = 300;

/// Scroll position of the info pages and where it is heading.
#[derive(Clone, Copy, PartialEq, Eq, Structural)]
pub struct InfoScroll {
    pub target_offset: i32,
    pub current_offset: i32,
}

impl InfoScroll {
    pub fn new() -> (r: Self)
        ensures
            r.target_offset == 0 && r.current_offset == 0,
    {
        InfoScroll { target_offset: 0, current_offset: 0 }
    }

    pub fn animate_info(&mut self, anim_speed: i32)
        requires
            anim_speed >= 0,
            gap_fits(old(self).current_offset, old(self).target_offset),
        ensures
            final(self).current_offset == step_toward(old(self).current_offset, old(self).target_offset, anim_speed),
            final(self).target_offset == old(self).target_offset,
    {
        self.current_offset = animate_toward(self.current_offset, self.target_offset, anim_speed);
    }

    /// The view has moved below the first info page.
    pub fn is_on_info_page(&self) -> (r: bool)
        ensures
            r == (self.current_offset > 0),
    {
        self.current_offset > 0
    }

    /// Handles a swipe on the info page: up and down move a page (within
    /// the four pages) and are taken; left and right are taken, so the
    /// settings carousel stays put, once the view is below the first page.
    pub fn handle_swipe(&mut self, direction: SwipeDirection) -> (r: bool)
        requires
            old(self).target_offset <= i32::MAX - INFO_PAGE_HEIGHT,
            old(self).target_offset >= i32::MIN + INFO_PAGE_HEIGHT,
        ensures
            final(self).current_offset == old(self).current_offset,
            direction == SwipeDirection::Up ==> r && final(self).target_offset == (if old(self).target_offset
                + INFO_PAGE_HEIGHT < INFO_MAX_OFFSET {
                old(self).target_offset + INFO_PAGE_HEIGHT
            } else {
                INFO_MAX_OFFSET as int
            }),
            direction == SwipeDirection::Down ==> r && final(self).target_offset == (if old(self).target_offset
                - INFO_PAGE_HEIGHT > 0 {
                old(self).target_offset - INFO_PAGE_HEIGHT
            } else {
                0
            }),
            (direction == SwipeDirection::Left || direction == SwipeDirection::Right) ==> r == (
            old(self).current_offset > 0) && final(self).target_offset == old(self).target_offset,
            direction == SwipeDirection::Tap ==> !r && final(self).target_offset == old(self).target_offset,
    {
        match direction {
            SwipeDirection::Up => {
                let t = self.target_offset + INFO_PAGE_HEIGHT;
                self.target_offset = if t < INFO_MAX_OFFSET {
                    t
                } else {
                    INFO_MAX_OFFSET
                };
                true
            },
            SwipeDirection::Down => {
                let t = self.target_offset - INFO_PAGE_HEIGHT;
                self.target_offset = if t > 0 {
                    t
                } else {
                    0
                };
                true
            },
            SwipeDirection::Left | SwipeDirection::Right => self.is_on_info_page(),
            SwipeDirection::Tap => false,
        }
    }
}

/// `a / b` rounded toward zero, as Rust's integer division.
pub open spec fn div_trunc(a: int, b: int) -> int {
    if a >= 0 {
        a / b
    } else {
        -((-a) / b)
    }
}

/// The new microphone gain after a vertical swipe from `start_y` to
/// `last_y`: one percent per two pixels upward, within 0 to 100; `None`
/// when the swipe changes nothing.
pub open spec fn mic_gain_after(direction: SwipeDirection, start_y: u16, last_y: u16, current: u8) -> Option<u8> {
    if direction == SwipeDirection::Up || direction == SwipeDirection::Down {
        let delta = div_trunc(start_y - last_y, 2);
        if delta == 0 {
            None
        } else {
            let v = current + delta;
            Some(
                (if v < 0 {
                    0
                } else if v > 100 {
                    100
                } else {
                    v
                }) as u8,
            )
        }
    } else {
        None
    }
}

/// The microphone gain page's swipe: the new gain to apply, if any.
pub fn handle_mic_swipe(direction: SwipeDirection, start_y: u16, last_y: u16, current: u8) -> (r: Option<u8>)
    ensures
        r == mic_gain_after(direction, start_y, last_y, current),
{
    match direction {
        SwipeDirection::Up | SwipeDirection::Down => {
            let raw_delta = last_y as i32 - start_y as i32;
            let volume_change = -raw_delta;
            let delta_vol = volume_change / 2;
            if delta_vol != 0 {
                let v = current as i32 + delta_vol;
                let clamped = if v < 0 {
                    0
                } else if v > 100 {
                    100
                } else {
                    v
                };
                Some(clamped as u8)
            } else {
                None
            }
        },
        _ => None,
    }
}

/// The new power-down timeout after a vertical swipe: one second per
/// pixel upward, within 0 and 300 seconds, counted from the stored value
/// read as an `i32`; `None` when the swipe changes nothing.
pub open spec fn timeout_after(direction: SwipeDirection, start_y: u16, last_y: u16, current: u32) -> Option<u32> {
    if (direction == SwipeDirection::Up || direction == SwipeDirection::Down) && start_y != last_y {
        let v = (current as i32) + (start_y - last_y);
        Some(
            (if v < 0 {
                0
            } else if v > MAX_POWERDOWN_SECS {
                MAX_POWERDOWN_SECS as int
            } else {
                v
            }) as u32,
        )
    } else {
        None
    }
}

/// The sleep page's swipe: the new power-down timeout, if any.
pub fn handle_sleep_swipe(direction: SwipeDirection, start_y: u16, last_y: u16, current: u32) -> (r: Option<u32>)
    requires
        (direction == SwipeDirection::Up || direction == SwipeDirection::Down) && start_y != last_y ==> i32::MIN <= (
        current as i32) + (start_y - last_y) <= i32::MAX,
    ensures
        r == timeout_after(direction, start_y, last_y, current),
{
    match direction {
        SwipeDirection::Up | SwipeDirection::Down => {
            let raw_delta = last_y as i32 - start_y as i32;
            let delta_val = -raw_delta;
            if delta_val != 0 {
                let c = current as i32;
                assert(c == current as i32);
                assert(delta_val == start_y - last_y);
                assert(direction == SwipeDirection::Up || direction == SwipeDirection::Down);
                let v = c + delta_val;
                let clamped = if v < 0 {
                    0
                } else if v > 300 {
                    300
                } else {
                    v
                };
                Some(clamped as u32)
            } else {
                None
            }
        },
        _ => None,
    }
}

/// The sleep page has nothing to tap.
pub fn handle_touch(_x: i32, _y: i32) -> (r: Option<TouchAction>)
    ensures
        r is None,
{
    None
}


/// " dBm".
pub open spec fn dbm_suffix() -> Seq<u8> {
    seq![0x20u8, 0x64u8, 0x42u8, 0x6Du8]
}

/// The label of a signal strength: the number (with a minus sign when
/// negative) and " dBm".
pub open spec fn rssi_label(rssi: i32) -> Seq<u8> {
    if rssi < 0 {
        seq![0x2Du8] + dec_digits((-(rssi as int)) as nat) + dbm_suffix()
    } else {
        dec_digits(rssi as nat) + dbm_suffix()
    }
}

/// Writes the label of `rssi` (see `rssi_label`).
pub fn format_rssi(rssi: i32) -> (r: Vec<u8>)
    ensures
        r@ == rssi_label(rssi),
{
    let mut out: Vec<u8> = Vec::new();
    if rssi < 0 {
        out.push(0x2D);
        let mag: u64 = (-(rssi as i64)) as u64;
        push_decimal_u64(&mut out, mag);
    } else {
        push_decimal_u64(&mut out, rssi as u64);
    }
    out.push(0x20);
    out.push(0x64);
    out.push(0x42);
    out.push(0x6D);
    assert(out@ =~= rssi_label(rssi));
    out
}

/// The label of a power-down timeout: "OFF" for none, else the seconds
/// and " sec".
pub open spec fn timeout_label(secs: u32) -> Seq<u8> {
    if secs == 0 {
        seq![0x4Fu8, 0x46u8, 0x46u8]
    } else {
        dec_digits(secs as nat) + seq![0x20u8, 0x73u8, 0x65u8, 0x63u8]
    }
}

/// Writes the label of `secs` (see `timeout_label`).
pub fn format_timeout(secs: u32) -> (r: Vec<u8>)
    ensures
        r@ == timeout_label(secs),
{
    let mut out: Vec<u8> = Vec::new();
    if secs == 0 {
        out.push(0x4F);
        out.push(0x46);
        out.push(0x46);
    } else {
        push_decimal_u64(&mut out, secs as u64);
        out.push(0x20);
        out.push(0x73);
        out.push(0x65);
        out.push(0x63);
    }
    assert(out@ =~= timeout_label(secs));
    out
}


// ───────────────────────────────────────────────────────────────────────
// THE MICROPHONE PAGE

/// Width and height of the mute toggle.
pub const MIC_TOGGLE_W: i32 = 120;
pub const MIC_TOGGLE_H: i32 = 60;
/// Space below the toggle.
pub const MIC_TOGGLE_MARGIN: i32 = 40;

/// `v / 2` rounded toward zero, as integer division does.
pub open spec fn half(v: int) -> int {
    if v >= 0 { v / 2 } else { -((-v) / 2) }
}

/// The mute toggle of a `w` by `h` page: centred across, 40 pixels above
/// the bottom edge.
pub open spec fn mic_toggle(w: i32, h: i32) -> HitArea {
    HitArea {
        x: half(w - MIC_TOGGLE_W) as i32,
        y: (h - MIC_TOGGLE_H - MIC_TOGGLE_MARGIN) as i32,
        width: 120,
        height: 60,
        action: TouchAction::SettingsToggle,
    }
}

/// Where the mute toggle of a `w` by `h` page (sizes, not negative) is.
pub fn mic_toggle_area(w: i32, h: i32) -> (r: HitArea)
    requires
        0 <= w,
        0 <= h,
    ensures
        r == mic_toggle(w, h),
{
    let v = w as i64 - MIC_TOGGLE_W as i64;
    let x = if v >= 0 {
        v / 2
    } else {
        -((-v) / 2)
    };
    HitArea {
        x: x as i32,
        y: h - MIC_TOGGLE_H - MIC_TOGGLE_MARGIN,
        width: MIC_TOGGLE_W as u32,
        height: MIC_TOGGLE_H as u32,
        action: TouchAction::SettingsToggle,
    }
}

/// A tap on the microphone page: on the toggle (once laid out) it flips
/// the mute state and reports the toggle; elsewhere nothing changes.
pub fn mic_tap(area: &Option<HitArea>, x: i32, y: i32, muted: bool) -> (r: (Option<TouchAction>, bool))
    requires
        area matches Some(a) ==> area_fits(*a),
    ensures
        r == (match *area {
            Some(a) => if spec_hit(x, y, a) { (Some(TouchAction::SettingsToggle), !muted) } else { (None, muted) },
            None => (None, muted),
        }),
{
    match area {
        Some(a) => if hit_test(x, y, a) {
            (Some(TouchAction::SettingsToggle), !muted)
        } else {
            (None, muted)
        },
        None => (None, muted),
    }
}

/// The gain gauge: its diameter, the top left corner of its square, its
/// centre, and the share it fills.
#[derive(Clone, Copy, PartialEq, Eq, Structural)]
pub struct MicGauge {
    pub diameter: u32,
    pub left: i32,
    pub top: i32,
    pub center_x: i32,
    pub center_y: i32,
    pub percent: u8,
}

/// The gauge of a `w` by `h` page: seven tenths of the smaller side
/// across, centred; it fills the gain in per cent (at most 100), nothing
/// when muted.
pub open spec fn mic_gauge_of(w: i32, h: i32, muted: bool, volume: u8) -> MicGauge {
    let d = (if w < h { w } else { h }) * 7 / 10;
    MicGauge {
        diameter: d as u32,
        left: (w / 2 - d / 2) as i32,
        top: (h / 2 - d / 2) as i32,
        center_x: (w / 2) as i32,
        center_y: (h / 2) as i32,
        percent: if muted { 0 } else if volume < 100 { volume } else { 100 },
    }
}

/// The gain gauge of a `w` by `h` page (sizes, not negative, whose
/// smaller one times seven is still a `u32`).
pub fn mic_gauge(w: i32, h: i32, muted: bool, volume: u8) -> (r: MicGauge)
    requires
        0 <= w,
        0 <= h,
        (if w < h { w } else { h }) * 7 <= u32::MAX,
    ensures
        r == mic_gauge_of(w, h, muted, volume),
{
    let m = if w < h {
        w
    } else {
        h
    };
    let d = (m as u32) * 7 / 10;
    MicGauge {
        diameter: d,
        left: w / 2 - (d / 2) as i32,
        top: h / 2 - (d / 2) as i32,
        center_x: w / 2,
        center_y: h / 2,
        percent: if muted {
            0
        } else if volume < 100 {
            volume
        } else {
            100
        },
    }
}

/// The whole-number scale of a `img_w` by `img_h` icon in a gauge of
/// `diameter`: as many times as fit into 55 % of the diameter, at least
/// once.
pub open spec fn icon_scale(diameter: u32, img_h: i32) -> int {
    let max_h = diameter * 55 / 100;
    let q = max_h / (if img_h > 1 { img_h as int } else { 1 });
    if q > 1 { q } else { 1 }
}

/// Where the icon goes: its top left corner, centred on the gauge's
/// centre, and its scale.
pub open spec fn icon_place(center_x: i32, center_y: i32, diameter: u32, img_w: i32, img_h: i32) -> (int, int, int) {
    let scale = icon_scale(diameter, img_h);
    (center_x - (img_w * scale) / 2, center_y - (img_h * scale) / 2, scale)
}

/// The scaled icon's sizes and corner are `i32` values.
pub open spec fn icon_fits(center_x: i32, center_y: i32, diameter: u32, img_w: i32, img_h: i32) -> bool {
    let p = icon_place(center_x, center_y, diameter, img_w, img_h);
    &&& img_w * p.2 <= i32::MAX && img_h * p.2 <= i32::MAX
    &&& i32::MIN <= p.0 && i32::MIN <= p.1
}

/// Places the microphone icon in the gauge. The gauge is at most 65535
/// pixels across, where 55 % of it taken in `f32` and cut to a whole
/// number is exactly this one.
pub fn mic_icon_place(center_x: i32, center_y: i32, diameter: u32, img_w: i32, img_h: i32) -> (r: (i32, i32, i32))
    requires
        0 <= img_w,
        0 <= img_h,
        diameter <= 0xFFFF,
        icon_fits(center_x, center_y, diameter, img_w, img_h),
    ensures
        (r.0 as int, r.1 as int, r.2 as int) == icon_place(center_x, center_y, diameter, img_w, img_h),
{
    let max_h = diameter as i64 * 55 / 100;
    let div = if img_h > 1 {
        img_h as i64
    } else {
        1
    };
    let q = max_h / div;
    let scale = if q > 1 {
        q
    } else {
        1
    };
    assert(0 <= q <= max_h) by (nonlinear_arith)
        requires
            q == max_h / div,
            div >= 1,
            0 <= max_h,
    ;
    assert(0 <= img_w * scale && 0 <= img_h * scale) by (nonlinear_arith)
        requires
            0 <= img_w,
            0 <= img_h,
            1 <= scale,
    ;
    let sw = img_w as i64 * scale;
    let sh = img_h as i64 * scale;
    ((center_x as i64 - sw / 2) as i32, (center_y as i64 - sh / 2) as i32, scale as i32)
}

} // verus!
