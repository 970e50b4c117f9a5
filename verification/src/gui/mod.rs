//! Screen logic that does not draw: touch areas, sliding panels and
//! scrollers, the launcher, the watch face's state and swipe animation.

use vstd::prelude::*;

pub mod animations;
pub mod apps;
pub mod battery;
pub mod colors;
pub mod control_center;
pub mod input;
pub mod media_player;
pub mod options;
pub mod rolex;
pub mod tap;
pub mod time;

verus! {

/// A rectangle of the screen and the action a touch in it triggers.
#[derive(Clone, Copy, PartialEq, Eq, Structural)]
pub struct HitArea {
    pub x: i32,
    pub y: i32,
    pub width: u32,
    pub height: u32,
    pub action: TouchAction,
}

/// What a touch on some area of a page asks for.
#[derive(Clone, Copy, PartialEq, Eq, Structural)]
pub enum TouchAction {
    NoAction,
    AppCenterApp(usize),
    AppLaunch(usize),
    ControlCenterBox1,
    ControlCenterBox2,
    ControlCenterBox3,
    ControlCenterBox4,
    OpenQwackify,
    OpenSettings,
    OpenDuckTv,
    OpenDuckCloud,
    CallAccept,
    CallDecline,
    TextInputCacel,
    TextInputOk,
    MediaPrev,
    MediaPlayPause,
    MediaNext,
    MediaHeart,
    MediaClear,
    MediaSplitView,
    SettingsToggle,
    SettingsToggleWifi,
    SettingsToggleWifiScan,
    SettingsToggleBle,
    SettingsToggleApi,
    SettingsToggleAmp,
    SettingsToggleMic,
    SettingsToggleSpeaker,
    SettingsToggleStreaming,
    SettingsToggleSsh,
    SettingsToggleVpn,
    SettingsToggleWakeWord,
    SettingsToggleDisplay,
}

/// An area whose far edges are still `i32` coordinates.
pub open spec fn area_fits(area: HitArea) -> bool {
    &&& area.width <= i32::MAX && area.height <= i32::MAX
    &&& area.x + area.width <= i32::MAX && area.y + area.height <= i32::MAX
}

/// `(x, y)` lies in the area (left and top edges included).
pub open spec fn spec_hit(x: i32, y: i32, area: HitArea) -> bool {
    area.x <= x < area.x + area.width && area.y <= y < area.y + area.height
}

pub fn hit_test(x: i32, y: i32, area: &HitArea) -> (r: bool)
    requires
        area_fits(*area),
    ensures
        r == spec_hit(x, y, *area),
{
    x >= area.x && x < area.x + area.width as i32 && y >= area.y && y < area.y + area.height as i32
}

/// The action of the first of `areas` that `(x, y)` hits.
pub open spec fn hit_of(areas: Seq<HitArea>, x: i32, y: i32) -> Option<TouchAction>
    decreases areas.len(),
{
    if areas.len() == 0 {
        None
    } else if spec_hit(x, y, areas[0]) {
        Some(areas[0].action)
    } else {
        hit_of(areas.drop_first(), x, y)
    }
}

/// The action of the first area that `(x, y)` hits.
pub fn first_hit(areas: &[HitArea], x: i32, y: i32) -> (r: Option<TouchAction>)
    requires
        forall|i: int| 0 <= i < areas@.len() ==> area_fits(#[trigger] areas@[i]),
    ensures
        r == hit_of(areas@, x, y),
        match r {
            Some(a) => exists|i: int|
                0 <= i < areas@.len() && spec_hit(x, y, areas@[i]) && areas@[i].action == a && forall|j: int|
                    0 <= j < i ==> !spec_hit(x, y, #[trigger] areas@[j]),
            None => forall|i: int| 0 <= i < areas@.len() ==> !spec_hit(x, y, #[trigger] areas@[i]),
        },
{
    let mut i: usize = 0;
    assert(areas@.skip(0) =~= areas@);
    while i < areas.len()
        invariant
            i <= areas@.len(),
            forall|k: int| 0 <= k < areas@.len() ==> area_fits(#[trigger] areas@[k]),
            forall|j: int| 0 <= j < i ==> !spec_hit(x, y, #[trigger] areas@[j]),
            hit_of(areas@, x, y) == hit_of(areas@.skip(i as int), x, y),
        decreases areas.len() - i,
    {
        assert(areas@.skip(i as int)[0] == areas@[i as int]);
        if hit_test(x, y, &areas[i]) {
            return Some(areas[i].action);
        }
        assert(areas@.skip(i as int).drop_first() =~= areas@.skip(i + 1));
        i = i + 1;
    }
    None
}

/// One animation step from `current` toward `target`, moving at most
/// `speed`.
pub open spec fn step_toward(current: i32, target: i32, speed: i32) -> i32 {
    let diff = target - current;
    if diff > speed {
        (current + speed) as i32
    } else if diff < -speed {
        (current - speed) as i32
    } else {
        target
    }
}

/// The distance between `current` and `target` is an `i32`.
pub open spec fn gap_fits(current: i32, target: i32) -> bool {
    i32::MIN <= target - current <= i32::MAX
}

/// Moves `current` toward `target` by at most `speed` (the clamped
/// difference, as the panels animate).
pub fn animate_toward(current: i32, target: i32, speed: i32) -> (r: i32)
    requires
        speed >= 0,
        gap_fits(current, target),
    ensures
        r == step_toward(current, target, speed),
{
    let diff = target - current;
    if diff != 0 {
        let step = if diff > speed {
            speed
        } else if diff < -speed {
            -speed
        } else {
            diff
        };
        current + step
    } else {
        current
    }
}

/// An animation step never passes the target and, unless it arrives,
/// moves by the full speed: the distance left shrinks by `speed` or
/// reaches zero.
pub proof fn lemma_step_toward(current: i32, target: i32, speed: i32)
    requires
        speed >= 0,
        gap_fits(current, target),
    ensures
        current <= target ==> current <= step_toward(current, target, speed) <= target,
        current >= target ==> target <= step_toward(current, target, speed) <= current,
        ({
            let d = if target >= current {
                target - current
            } else {
                current - target
            };
            let n = step_toward(current, target, speed);
            let d2 = if target >= n {
                target - n
            } else {
                n - target
            };
            d2 == if d > speed {
                d - speed
            } else {
                0
            }
        }),
{
}

} // verus!
