//! Where a tap goes: the control center takes every tap while it shows,
//! otherwise the boxes of the current page decide.

use vstd::prelude::*;

use super::{area_fits, first_hit, hit_of, HitArea, TouchAction};
use crate::pages::Page;

verus! {

/// What a tap asks the device to do.
#[derive(Clone, Copy, PartialEq, Eq, Structural)]
pub enum TapCommand {
    Nothing,
    /// The page handles the tap with its own areas (weather, settings).
    ForwardToPage,
    ToggleWifi,
    ToggleVoice,
    ToggleApi,
    /// Close the control center and show the Wi-Fi settings page.
    OpenSettingsPage,
    ToggleBle,
    ToggleWakeWord,
    ToggleDisplay,
    ToggleStream,
    ToggleAmp,
    MediaPrev,
    MediaPlayPause,
    MediaNext,
    ToggleLike,
    ClearPlaylist,
    ToggleSplit,
    OpenQwackify,
    OpenSettingsApp,
    OpenDuckTv,
}

/// The command of a tap on a control-center box.
pub open spec fn panel_command(hit: Option<TouchAction>) -> TapCommand {
    match hit {
        Some(TouchAction::ControlCenterBox1) => TapCommand::ToggleWifi,
        Some(TouchAction::ControlCenterBox2) => TapCommand::ToggleVoice,
        Some(TouchAction::ControlCenterBox3) => TapCommand::ToggleApi,
        Some(TouchAction::ControlCenterBox4) => TapCommand::OpenSettingsPage,
        _ => TapCommand::Nothing,
    }
}

/// The command of a tap that hit `hit` on `page`.
pub open spec fn page_command(page: Page, hit: Option<TouchAction>) -> TapCommand {
    match page {
        Page::Weather => TapCommand::ForwardToPage,
        Page::Settings => TapCommand::ForwardToPage,
        Page::SettingsWifi => if hit == Some(TouchAction::SettingsToggle) {
            TapCommand::ToggleWifi
        } else {
            TapCommand::Nothing
        },
        Page::SettingsBle => if hit == Some(TouchAction::SettingsToggleBle) {
            TapCommand::ToggleBle
        } else {
            TapCommand::Nothing
        },
        Page::SettingsApi => if hit == Some(TouchAction::SettingsToggleApi) {
            TapCommand::ToggleApi
        } else {
            TapCommand::Nothing
        },
        Page::SettingsWake => if hit == Some(TouchAction::SettingsToggleWakeWord) {
            TapCommand::ToggleWakeWord
        } else {
            TapCommand::Nothing
        },
        Page::SettingsDisplay => if hit == Some(TouchAction::SettingsToggleDisplay) {
            TapCommand::ToggleDisplay
        } else {
            TapCommand::Nothing
        },
        Page::SettingsStream => if hit == Some(TouchAction::SettingsToggleStreaming) {
            TapCommand::ToggleStream
        } else {
            TapCommand::Nothing
        },
        Page::SettingsAmp => if hit == Some(TouchAction::SettingsToggleAmp) {
            TapCommand::ToggleAmp
        } else {
            TapCommand::Nothing
        },
        Page::MediaPlayer => match hit {
            Some(TouchAction::MediaPrev) => TapCommand::MediaPrev,
            Some(TouchAction::MediaPlayPause) => TapCommand::MediaPlayPause,
            Some(TouchAction::MediaNext) => TapCommand::MediaNext,
            Some(TouchAction::MediaHeart) => TapCommand::ToggleLike,
            Some(TouchAction::MediaClear) => TapCommand::ClearPlaylist,
            Some(TouchAction::MediaSplitView) => TapCommand::ToggleSplit,
            Some(TouchAction::OpenQwackify) => TapCommand::OpenQwackify,
            Some(TouchAction::OpenSettings) => TapCommand::OpenSettingsApp,
            Some(TouchAction::OpenDuckTv) => TapCommand::OpenDuckTv,
            _ => TapCommand::Nothing,
        },
        _ => TapCommand::Nothing,
    }
}

/// Where a tap at `(x, y)` goes: while the control center shows, to the
/// first of its boxes that the tap hits (and nowhere else); otherwise to
/// the first of the page's areas that it hits.
pub open spec fn tap_action(
    page: Page,
    x: u16,
    y: u16,
    panel_visible: bool,
    panel_areas: Option<[HitArea; 4]>,
    page_areas: Seq<HitArea>,
) -> TapCommand {
    if panel_visible {
        match panel_areas {
            Some(a) => panel_command(hit_of(a@, x as i32, y as i32)),
            None => TapCommand::Nothing,
        }
    } else {
        page_command(page, hit_of(page_areas, x as i32, y as i32))
    }
}

fn panel_command_of(hit: Option<TouchAction>) -> (r: TapCommand)
    ensures
        r == panel_command(hit),
{
    match hit {
        Some(TouchAction::ControlCenterBox1) => TapCommand::ToggleWifi,
        Some(TouchAction::ControlCenterBox2) => TapCommand::ToggleVoice,
        Some(TouchAction::ControlCenterBox3) => TapCommand::ToggleApi,
        Some(TouchAction::ControlCenterBox4) => TapCommand::OpenSettingsPage,
        _ => TapCommand::Nothing,
    }
}

/// `cmd` when `hit` is `want`, else nothing.
fn when_hit(hit: Option<TouchAction>, want: TouchAction, cmd: TapCommand) -> (r: TapCommand)
    ensures
        r == (if hit == Some(want) { cmd } else { TapCommand::Nothing }),
{
    match hit {
        Some(a) => if a == want {
            cmd
        } else {
            TapCommand::Nothing
        },
        None => TapCommand::Nothing,
    }
}

fn page_command_of(page: Page, hit: Option<TouchAction>) -> (r: TapCommand)
    ensures
        r == page_command(page, hit),
{
    match page {
        Page::Weather => TapCommand::ForwardToPage,
        Page::Settings => TapCommand::ForwardToPage,
        Page::SettingsWifi => when_hit(hit, TouchAction::SettingsToggle, TapCommand::ToggleWifi),
        Page::SettingsBle => when_hit(hit, TouchAction::SettingsToggleBle, TapCommand::ToggleBle),
        Page::SettingsApi => when_hit(hit, TouchAction::SettingsToggleApi, TapCommand::ToggleApi),
        Page::SettingsWake => when_hit(hit, TouchAction::SettingsToggleWakeWord, TapCommand::ToggleWakeWord),
        Page::SettingsDisplay => when_hit(hit, TouchAction::SettingsToggleDisplay, TapCommand::ToggleDisplay),
        Page::SettingsStream => when_hit(hit, TouchAction::SettingsToggleStreaming, TapCommand::ToggleStream),
        Page::SettingsAmp => when_hit(hit, TouchAction::SettingsToggleAmp, TapCommand::ToggleAmp),
        Page::MediaPlayer => match hit {
            Some(TouchAction::MediaPrev) => TapCommand::MediaPrev,
            Some(TouchAction::MediaPlayPause) => TapCommand::MediaPlayPause,
            Some(TouchAction::MediaNext) => TapCommand::MediaNext,
            Some(TouchAction::MediaHeart) => TapCommand::ToggleLike,
            Some(TouchAction::MediaClear) => TapCommand::ClearPlaylist,
            Some(TouchAction::MediaSplitView) => TapCommand::ToggleSplit,
            Some(TouchAction::OpenQwackify) => TapCommand::OpenQwackify,
            Some(TouchAction::OpenSettings) => TapCommand::OpenSettingsApp,
            Some(TouchAction::OpenDuckTv) => TapCommand::OpenDuckTv,
            _ => TapCommand::Nothing,
        },
        _ => TapCommand::Nothing,
    }
}

/// Routes a tap at `(x, y)` on `page`. `panel_visible` tells whether the
/// control center shows, `panel_areas` are its boxes once laid out, and
/// `page_areas` the touch areas the current page has laid out.
pub fn route_page_tap(
    page: Page,
    x: u16,
    y: u16,
    panel_visible: bool,
    panel_areas: &Option<[HitArea; 4]>,
    page_areas: &[HitArea],
) -> (r: TapCommand)
    requires
        panel_areas matches Some(a) ==> forall|i: int| 0 <= i < 4 ==> area_fits(#[trigger] a@[i]),
        forall|i: int| 0 <= i < page_areas@.len() ==> area_fits(#[trigger] page_areas@[i]),
    ensures
        r == tap_action(page, x, y, panel_visible, *panel_areas, page_areas@),
{
    if panel_visible {
        match panel_areas {
            Some(a) => panel_command_of(first_hit(a, x as i32, y as i32)),
            None => TapCommand::Nothing,
        }
    } else {
        page_command_of(page, first_hit(page_areas, x as i32, y as i32))
    }
}

} // verus!
