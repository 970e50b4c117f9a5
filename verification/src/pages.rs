//! The pages of the watch, how they are stored as a number, and where a
//! finished gesture leads.

use vstd::prelude::*;

use crate::ft3168::{classify, swipe_direction, SwipeDirection};
use crate::state::LCD_HEIGHT;

verus! {

/// Distance in pixels from the bottom edge within which an upward swipe
/// starts at the bottom.
pub const BOTTOM_SWIPE_THRESHOLD: u16 = 40;
/// Distance in pixels from the top edge within which a downward swipe
/// starts at the top.
pub const TOP_SWIPE_THRESHOLD: u16 = 40;
/// Largest distance in pixels between the two taps of a double tap.
pub const DOUBLE_TAP_MAX_DISTANCE: u16 = 50;
/// Longest time in milliseconds between the two taps of a double tap.
pub const DOUBLE_TAP_TIMEOUT_MS: u64 = 400;

/// A touch the input task reports.
#[derive(Clone, Copy, PartialEq, Eq, Structural)]
pub enum TouchEvent {
    Tap { x: u16, y: u16 },
    Swipe(SwipeDirection, u16, u16),
}

#[derive(Clone, Copy, PartialEq, Eq, Structural)]
pub enum Page {
    Apps,
    Clock,
    Battery,
    Weather,
    MediaPlayer,
    DuckTv,
    House,
    DuckCloud,
    Settings,
    SettingsWifi,
    SettingsRssi,
    SettingsBle,
    SettingsApi,
    SettingsWake,
    SettingsStream,
    SettingsSpeaker,
    SettingsMic,
    SettingsDisplay,
    SettingsTimeout,
    SettingsAmp,
    SettingsCpu,
    SettingsInfo,
    Call,
    Text,
}

/// The number a page is stored as.
pub open spec fn page_raw(p: Page) -> u8 {
    match p {
        Page::Apps => 0,
        Page::Clock => 1,
        Page::Battery => 2,
        Page::Weather => 3,
        Page::MediaPlayer => 10,
        Page::DuckTv => 11,
        Page::House => 12,
        Page::DuckCloud => 13,
        Page::Settings => 14,
        Page::SettingsWifi => 140,
        Page::SettingsRssi => 141,
        Page::SettingsBle => 142,
        Page::SettingsApi => 143,
        Page::SettingsWake => 144,
        Page::SettingsStream => 145,
        Page::SettingsSpeaker => 146,
        Page::SettingsMic => 147,
        Page::SettingsDisplay => 148,
        Page::SettingsTimeout => 149,
        Page::SettingsAmp => 150,
        Page::SettingsCpu => 151,
        Page::SettingsInfo => 152,
        Page::Call => 100,
        Page::Text => 101,
    }
}

/// The page a stored number restores; the call and text pages are never
/// restored.
pub open spec fn page_of_raw(raw: u8) -> Option<Page> {
    if raw == 0 {
        Some(Page::Apps)
    } else if raw == 1 {
        Some(Page::Clock)
    } else if raw == 2 {
        Some(Page::Battery)
    } else if raw == 3 {
        Some(Page::Weather)
    } else if raw == 10 {
        Some(Page::MediaPlayer)
    } else if raw == 11 {
        Some(Page::DuckTv)
    } else if raw == 12 {
        Some(Page::House)
    } else if raw == 13 {
        Some(Page::DuckCloud)
    } else if raw == 14 {
        Some(Page::Settings)
    } else if 140 <= raw && raw <= 152 {
        Some(settings_sub_page((raw - 140) as int))
    } else {
        None
    }
}

/// The settings pages after the settings app itself, in carousel order.
pub open spec fn settings_sub_page(i: int) -> Page {
    if i == 0 {
        Page::SettingsWifi
    } else if i == 1 {
        Page::SettingsRssi
    } else if i == 2 {
        Page::SettingsBle
    } else if i == 3 {
        Page::SettingsApi
    } else if i == 4 {
        Page::SettingsWake
    } else if i == 5 {
        Page::SettingsStream
    } else if i == 6 {
        Page::SettingsSpeaker
    } else if i == 7 {
        Page::SettingsMic
    } else if i == 8 {
        Page::SettingsDisplay
    } else if i == 9 {
        Page::SettingsTimeout
    } else if i == 10 {
        Page::SettingsAmp
    } else if i == 11 {
        Page::SettingsCpu
    } else {
        Page::SettingsInfo
    }
}

/// Position of a settings sub-page in the carousel; -1 for other pages.
pub open spec fn settings_index(p: Page) -> int {
    match p {
        Page::SettingsWifi => 0,
        Page::SettingsRssi => 1,
        Page::SettingsBle => 2,
        Page::SettingsApi => 3,
        Page::SettingsWake => 4,
        Page::SettingsStream => 5,
        Page::SettingsSpeaker => 6,
        Page::SettingsMic => 7,
        Page::SettingsDisplay => 8,
        Page::SettingsTimeout => 9,
        Page::SettingsAmp => 10,
        Page::SettingsCpu => 11,
        Page::SettingsInfo => 12,
        _ => -1,
    }
}

pub open spec fn spec_is_settings_page(p: Page) -> bool {
    p == Page::Settings || settings_index(p) >= 0
}

pub open spec fn spec_is_app_page(p: Page) -> bool {
    p == Page::MediaPlayer || p == Page::DuckTv || p == Page::House || p == Page::DuckCloud
        || spec_is_settings_page(p)
}

/// The main pages in swiping order: launcher, clock, battery, weather.
pub open spec fn main_index(p: Page) -> int {
    match p {
        Page::Apps => 0,
        Page::Clock => 1,
        Page::Battery => 2,
        Page::Weather => 3,
        _ => -1,
    }
}

pub open spec fn main_page(i: int) -> Page {
    if i <= 0 {
        Page::Apps
    } else if i == 1 {
        Page::Clock
    } else if i == 2 {
        Page::Battery
    } else {
        Page::Weather
    }
}

/// One main page further, stopping at the weather page; other pages lead
/// to the clock.
pub open spec fn spec_next_main(p: Page) -> Page {
    if main_index(p) < 0 {
        Page::Clock
    } else if main_index(p) == 3 {
        Page::Weather
    } else {
        main_page(main_index(p) + 1)
    }
}

/// One main page back, stopping at the launcher; other pages lead to the
/// clock.
pub open spec fn spec_prev_main(p: Page) -> Page {
    if main_index(p) < 0 {
        Page::Clock
    } else if main_index(p) == 0 {
        Page::Apps
    } else {
        main_page(main_index(p) - 1)
    }
}

/// The next settings page: the settings app opens the carousel at Wi-Fi,
/// the last page wraps round; other pages lead to the clock.
pub open spec fn spec_next_setting(p: Page) -> Page {
    if p == Page::Settings {
        Page::SettingsWifi
    } else if settings_index(p) < 0 {
        Page::Clock
    } else {
        settings_sub_page((settings_index(p) + 1) % 13)
    }
}

/// The previous settings page, wrapping round; other pages (the settings
/// app included) lead to the clock.
pub open spec fn spec_prev_setting(p: Page) -> Page {
    if settings_index(p) < 0 {
        Page::Clock
    } else {
        settings_sub_page((settings_index(p) + 12) % 13)
    }
}

impl Page {
    pub fn next_main(&self) -> (r: Self)
        ensures
            r == spec_next_main(*self),
    {
        match self {
            Page::Apps => Page::Clock,
            Page::Clock => Page::Battery,
            Page::Battery => Page::Weather,
            Page::Weather => Page::Weather,
            _ => Page::Clock,
        }
    }

    pub fn prev_main(&self) -> (r: Self)
        ensures
            r == spec_prev_main(*self),
    {
        match self {
            Page::Clock => Page::Apps,
            Page::Battery => Page::Clock,
            Page::Weather => Page::Battery,
            Page::Apps => Page::Apps,
            _ => Page::Clock,
        }
    }

    pub fn from_raw(raw: u8) -> (r: Option<Self>)
        ensures
            r == page_of_raw(raw),
    {
        match raw {
            0 => Some(Page::Apps),
            1 => Some(Page::Clock),
            2 => Some(Page::Battery),
            3 => Some(Page::Weather),
            10 => Some(Page::MediaPlayer),
            11 => Some(Page::DuckTv),
            12 => Some(Page::House),
            13 => Some(Page::DuckCloud),
            14 => Some(Page::Settings),
            140 => Some(Page::SettingsWifi),
            141 => Some(Page::SettingsRssi),
            142 => Some(Page::SettingsBle),
            143 => Some(Page::SettingsApi),
            144 => Some(Page::SettingsWake),
            145 => Some(Page::SettingsStream),
            146 => Some(Page::SettingsSpeaker),
            147 => Some(Page::SettingsMic),
            148 => Some(Page::SettingsDisplay),
            149 => Some(Page::SettingsTimeout),
            150 => Some(Page::SettingsAmp),
            151 => Some(Page::SettingsCpu),
            152 => Some(Page::SettingsInfo),
            _ => None,
        }
    }

    pub fn as_raw(self) -> (r: u8)
        ensures
            r == page_raw(self),
    {
        match self {
            Page::Apps => 0,
            Page::Clock => 1,
            Page::Battery => 2,
            Page::Weather => 3,
            Page::MediaPlayer => 10,
            Page::DuckTv => 11,
            Page::House => 12,
            Page::DuckCloud => 13,
            Page::Settings => 14,
            Page::SettingsWifi => 140,
            Page::SettingsRssi => 141,
            Page::SettingsBle => 142,
            Page::SettingsApi => 143,
            Page::SettingsWake => 144,
            Page::SettingsStream => 145,
            Page::SettingsSpeaker => 146,
            Page::SettingsMic => 147,
            Page::SettingsDisplay => 148,
            Page::SettingsTimeout => 149,
            Page::SettingsAmp => 150,
            Page::SettingsCpu => 151,
            Page::SettingsInfo => 152,
            Page::Call => 100,
            Page::Text => 101,
        }
    }

    pub fn is_app_page(&self) -> (r: bool)
        ensures
            r == spec_is_app_page(*self),
    {
        match self {
            Page::MediaPlayer | Page::DuckTv | Page::House | Page::DuckCloud => true,
            _ => self.is_settings_page(),
        }
    }

    pub fn is_settings_page(&self) -> (r: bool)
        ensures
            r == spec_is_settings_page(*self),
    {
        match self {
            Page::Settings | Page::SettingsWifi | Page::SettingsRssi | Page::SettingsBle | Page::SettingsApi
            | Page::SettingsWake | Page::SettingsStream | Page::SettingsSpeaker | Page::SettingsMic
            | Page::SettingsDisplay | Page::SettingsTimeout | Page::SettingsAmp | Page::SettingsCpu
            | Page::SettingsInfo => true,
            _ => false,
        }
    }

    pub fn next_setting(&self) -> (r: Self)
        ensures
            r == spec_next_setting(*self),
    {
        match self {
            Page::Settings => Page::SettingsWifi,
            Page::SettingsWifi => Page::SettingsRssi,
            Page::SettingsRssi => Page::SettingsBle,
            Page::SettingsBle => Page::SettingsApi,
            Page::SettingsApi => Page::SettingsWake,
            Page::SettingsWake => Page::SettingsStream,
            Page::SettingsStream => Page::SettingsSpeaker,
            Page::SettingsSpeaker => Page::SettingsMic,
            Page::SettingsMic => Page::SettingsDisplay,
            Page::SettingsDisplay => Page::SettingsTimeout,
            Page::SettingsTimeout => Page::SettingsAmp,
            Page::SettingsAmp => Page::SettingsCpu,
            Page::SettingsCpu => Page::SettingsInfo,
            Page::SettingsInfo => Page::SettingsWifi,
            _ => Page::Clock,
        }
    }

    pub fn prev_setting(&self) -> (r: Self)
        ensures
            r == spec_prev_setting(*self),
    {
        match self {
            Page::SettingsWifi => Page::SettingsInfo,
            Page::SettingsRssi => Page::SettingsWifi,
            Page::SettingsBle => Page::SettingsRssi,
            Page::SettingsApi => Page::SettingsBle,
            Page::SettingsWake => Page::SettingsApi,
            Page::SettingsStream => Page::SettingsWake,
            Page::SettingsSpeaker => Page::SettingsStream,
            Page::SettingsMic => Page::SettingsSpeaker,
            Page::SettingsDisplay => Page::SettingsMic,
            Page::SettingsTimeout => Page::SettingsDisplay,
            Page::SettingsAmp => Page::SettingsTimeout,
            Page::SettingsCpu => Page::SettingsAmp,
            Page::SettingsInfo => Page::SettingsCpu,
            _ => Page::Clock,
        }
    }
}

/// The page a stored number stands for, the clock when it stands for none.
pub fn current_page(raw: u8) -> (r: Page)
    ensures
        r == (match page_of_raw(raw) {
            Some(p) => p,
            None => Page::Clock,
        }),
{
    match Page::from_raw(raw) {
        Some(p) => p,
        None => Page::Clock,
    }
}

// ───────────────────────────────────────────────────────────────────────
// LAWS OF THE PAGE NUMBERING AND ORDER

/// Every page but the call and text pages is restored from the number it
/// is stored as.
pub proof fn lemma_raw_roundtrip(p: Page)
    requires
        p != Page::Call,
        p != Page::Text,
    ensures
        page_of_raw(page_raw(p)) == Some(p),
{
}

/// A number restores at most one page, and that page is stored as the
/// same number.
pub proof fn lemma_from_raw_inverse(raw: u8)
    ensures
        page_of_raw(raw) matches Some(p) ==> page_raw(p) == raw,
{
}

/// On the settings carousel, the previous page of the next page, and the
/// next page of the previous page, is where one started.
pub proof fn lemma_settings_carousel(p: Page)
    requires
        settings_index(p) >= 0,
    ensures
        spec_prev_setting(spec_next_setting(p)) == p,
        spec_next_setting(spec_prev_setting(p)) == p,
        spec_is_settings_page(spec_next_setting(p)),
        spec_is_settings_page(spec_prev_setting(p)),
{
}

/// Between the launcher and the weather page, swiping one way and back
/// returns to the same main page.
pub proof fn lemma_main_navigation(p: Page)
    requires
        main_index(p) >= 0,
    ensures
        main_index(p) < 3 ==> spec_prev_main(spec_next_main(p)) == p,
        main_index(p) > 0 ==> spec_next_main(spec_prev_main(p)) == p,
        main_index(spec_next_main(p)) >= 0 && main_index(spec_prev_main(p)) >= 0,
{
}

// ───────────────────────────────────────────────────────────────────────
// GESTURES

/// What a finished swipe does.
#[derive(Clone, Copy, PartialEq, Eq, Structural)]
pub enum SwipeOutcome {
    /// Open the control center.
    OpenControlCenter,
    /// Hand the swipe to the launcher.
    Launcher(SwipeDirection),
    /// Close the control center.
    CloseControlCenter,
    /// Close the media player's playlist view.
    CloseSplit,
    /// Show another page.
    GoTo(Page),
    /// Hand the swipe to the current settings page's own slider.
    SettingsAdjust(SwipeDirection),
    /// Hand the swipe to the info page's scroller first; when it does not
    /// take it, show the given page if any.
    InfoFirst(Option<Page>),
    /// Nothing happens.
    Ignore,
}

/// Settings pages whose slider takes vertical swipes.
pub open spec fn has_slider(p: Page) -> bool {
    p == Page::SettingsSpeaker || p == Page::SettingsMic || p == Page::SettingsDisplay || p == Page::SettingsCpu
}

/// A swipe that starts within the bottom band of the panel.
pub open spec fn from_bottom(start_y: u16) -> bool {
    start_y >= LCD_HEIGHT - BOTTOM_SWIPE_THRESHOLD
}

/// What a swipe on a settings page does once nothing before took it.
pub open spec fn settings_outcome(d: SwipeDirection, page: Page) -> SwipeOutcome {
    let target = if d == SwipeDirection::Left {
        Some(spec_next_setting(page))
    } else if d == SwipeDirection::Right {
        Some(spec_prev_setting(page))
    } else {
        None
    };
    if page == Page::SettingsInfo {
        SwipeOutcome::InfoFirst(target)
    } else {
        match target {
            Some(t) => SwipeOutcome::GoTo(t),
            None => if (d == SwipeDirection::Up || d == SwipeDirection::Down) && has_slider(page) {
                SwipeOutcome::SettingsAdjust(d)
            } else {
                SwipeOutcome::Ignore
            },
        }
    }
}

/// Where a swipe in direction `d` on `page`, starting at height `start_y`,
/// leads, given whether the control center and the playlist view are
/// open. In order: a downward swipe from the top opens the control
/// center; the launcher takes every vertical swipe; an upward swipe closes
/// an open control center, then an open playlist view when it starts at
/// the bottom; on an app an upward swipe from the bottom goes home and
/// other upward swipes end there, except on settings pages; settings pages
/// move through their carousel; the main pages move left and right.
pub open spec fn swipe_outcome(
    d: SwipeDirection,
    page: Page,
    start_y: u16,
    control_center_open: bool,
    split_open: bool,
) -> SwipeOutcome {
    if d == SwipeDirection::Down && !control_center_open && start_y <= TOP_SWIPE_THRESHOLD {
        SwipeOutcome::OpenControlCenter
    } else if page == Page::Apps && d != SwipeDirection::Left && d != SwipeDirection::Right {
        SwipeOutcome::Launcher(d)
    } else if control_center_open && d == SwipeDirection::Up {
        SwipeOutcome::CloseControlCenter
    } else if page == Page::MediaPlayer && d == SwipeDirection::Up && split_open && from_bottom(start_y) {
        SwipeOutcome::CloseSplit
    } else if spec_is_app_page(page) && d == SwipeDirection::Up && from_bottom(start_y) {
        SwipeOutcome::GoTo(Page::Clock)
    } else if spec_is_app_page(page) && d == SwipeDirection::Up && !spec_is_settings_page(page) {
        SwipeOutcome::Ignore
    } else if spec_is_settings_page(page) {
        settings_outcome(d, page)
    } else if d == SwipeDirection::Left {
        SwipeOutcome::GoTo(spec_next_main(page))
    } else if d == SwipeDirection::Right {
        SwipeOutcome::GoTo(spec_prev_main(page))
    } else {
        SwipeOutcome::Ignore
    }
}

/// The page a swipe's outcome shows next, when it names one.
pub open spec fn outcome_page(o: SwipeOutcome) -> Option<Page> {
    match o {
        SwipeOutcome::GoTo(p) => Some(p),
        SwipeOutcome::InfoFirst(t) => t,
        _ => None,
    }
}

/// On the thirteen pages of the settings carousel a left swipe moves one
/// page forward and a right swipe one page back, round the carousel,
/// wherever the swipe starts and whatever is open; so a right swipe undoes
/// a left one, and a left one a right one. Off the info page the outcome
/// is to go there at once.
pub proof fn lemma_settings_swipes(p: Page, y1: u16, y2: u16, c1: bool, c2: bool, s1: bool, s2: bool)
    requires
        settings_index(p) >= 0,
    ensures
        outcome_page(swipe_outcome(SwipeDirection::Left, p, y1, c1, s1)) is Some,
        outcome_page(swipe_outcome(SwipeDirection::Right, p, y1, c1, s1)) is Some,
        settings_index(outcome_page(swipe_outcome(SwipeDirection::Left, p, y1, c1, s1))->Some_0) == (settings_index(p)
            + 1) % 13,
        settings_index(outcome_page(swipe_outcome(SwipeDirection::Right, p, y1, c1, s1))->Some_0) == (settings_index(
            p,
        ) + 12) % 13,
        outcome_page(
            swipe_outcome(
                SwipeDirection::Right,
                outcome_page(swipe_outcome(SwipeDirection::Left, p, y1, c1, s1))->Some_0,
                y2,
                c2,
                s2,
            ),
        ) == Some(p),
        outcome_page(
            swipe_outcome(
                SwipeDirection::Left,
                outcome_page(swipe_outcome(SwipeDirection::Right, p, y1, c1, s1))->Some_0,
                y2,
                c2,
                s2,
            ),
        ) == Some(p),
        p != Page::SettingsInfo ==> swipe_outcome(SwipeDirection::Right, p, y1, c1, s1) is GoTo,
        p != Page::SettingsInfo ==> swipe_outcome(SwipeDirection::Left, p, y1, c1, s1) is GoTo,
{
    lemma_settings_swipe_goes(SwipeDirection::Left, p, y1, c1, s1);
    lemma_settings_swipe_goes(SwipeDirection::Right, p, y1, c1, s1);
    let q = spec_next_setting(p);
    let r = spec_prev_setting(p);
    lemma_settings_steps(p);
    lemma_settings_carousel(p);
    lemma_settings_swipe_goes(SwipeDirection::Right, q, y2, c2, s2);
    lemma_settings_swipe_goes(SwipeDirection::Left, r, y2, c2, s2);
}

/// Among the launcher, the clock, the battery and the weather page a left
/// swipe moves one page on and a right swipe one page back, stopping at
/// either end, wherever it starts and whatever is open.
pub proof fn lemma_main_swipes(p: Page, y: u16, c: bool, s: bool)
    requires
        main_index(p) >= 0,
    ensures
        swipe_outcome(SwipeDirection::Left, p, y, c, s) is GoTo,
        swipe_outcome(SwipeDirection::Right, p, y, c, s) is GoTo,
        main_index(outcome_page(swipe_outcome(SwipeDirection::Left, p, y, c, s))->Some_0) == if main_index(p) < 3 {
            main_index(p) + 1
        } else {
            3
        },
        main_index(outcome_page(swipe_outcome(SwipeDirection::Right, p, y, c, s))->Some_0) == if main_index(p) > 0 {
            main_index(p) - 1
        } else {
            0
        },
{
    assert(!spec_is_app_page(p));
}

proof fn lemma_settings_swipe_goes(d: SwipeDirection, p: Page, y: u16, c: bool, s: bool)
    requires
        settings_index(p) >= 0,
        d == SwipeDirection::Left || d == SwipeDirection::Right,
    ensures
        outcome_page(swipe_outcome(d, p, y, c, s)) == Some(
            if d == SwipeDirection::Left { spec_next_setting(p) } else { spec_prev_setting(p) },
        ),
        p != Page::SettingsInfo ==> swipe_outcome(d, p, y, c, s) is GoTo,
{
    assert(spec_is_settings_page(p));
    assert(swipe_outcome(d, p, y, c, s) == settings_outcome(d, p));
}

proof fn lemma_settings_steps(p: Page)
    requires
        settings_index(p) >= 0,
    ensures
        settings_index(spec_next_setting(p)) == (settings_index(p) + 1) % 13,
        settings_index(spec_prev_setting(p)) == (settings_index(p) + 12) % 13,
{
}

/// Decides what a finished swipe does.
pub fn handle_swipe(
    direction: SwipeDirection,
    page: Page,
    start_y: u16,
    control_center_open: bool,
    split_open: bool,
) -> (r: SwipeOutcome)
    ensures
        r == swipe_outcome(direction, page, start_y, control_center_open, split_open),
{
    if direction == SwipeDirection::Down && !control_center_open && start_y <= TOP_SWIPE_THRESHOLD {
        return SwipeOutcome::OpenControlCenter;
    }
    if page == Page::Apps {
        if direction != SwipeDirection::Left && direction != SwipeDirection::Right {
            return SwipeOutcome::Launcher(direction);
        }
    }
    if control_center_open && direction == SwipeDirection::Up {
        return SwipeOutcome::CloseControlCenter;
    }
    let at_bottom = start_y >= LCD_HEIGHT - BOTTOM_SWIPE_THRESHOLD;
    if page == Page::MediaPlayer && direction == SwipeDirection::Up && split_open && at_bottom {
        return SwipeOutcome::CloseSplit;
    }
    if page.is_app_page() && direction == SwipeDirection::Up {
        if at_bottom {
            return SwipeOutcome::GoTo(Page::Clock);
        }
        if !page.is_settings_page() {
            return SwipeOutcome::Ignore;
        }
    }
    if page.is_settings_page() {
        let target = match direction {
            SwipeDirection::Left => Some(page.next_setting()),
            SwipeDirection::Right => Some(page.prev_setting()),
            _ => None,
        };
        if page == Page::SettingsInfo {
            return SwipeOutcome::InfoFirst(target);
        }
        return match target {
            Some(t) => SwipeOutcome::GoTo(t),
            None => {
                let slider = page == Page::SettingsSpeaker || page == Page::SettingsMic || page
                    == Page::SettingsDisplay || page == Page::SettingsCpu;
                if (direction == SwipeDirection::Up || direction == SwipeDirection::Down) && slider {
                    SwipeOutcome::SettingsAdjust(direction)
                } else {
                    SwipeOutcome::Ignore
                }
            },
        };
    }
    match direction {
        SwipeDirection::Left => SwipeOutcome::GoTo(page.next_main()),
        SwipeDirection::Right => SwipeOutcome::GoTo(page.prev_main()),
        _ => SwipeOutcome::Ignore,
    }
}

/// What a finished gesture does.
#[derive(Clone, Copy, PartialEq, Eq, Structural)]
pub enum GestureOutcome {
    /// A tap on the launcher: held back in case a second tap follows.
    PendingTap { x: u16, y: u16, page: Page },
    /// A tap anywhere else: handled at once.
    Tap { page: Page, x: u16, y: u16 },
    /// A swipe: any held-back tap is dropped.
    Swipe { direction: SwipeDirection, page: Page },
}

/// Sorts a finished gesture from `(start_x, start_y)` to
/// `(last_x, last_y)` on `page` into a tap or a swipe.
pub fn process_gesture(start_x: u16, start_y: u16, last_x: u16, last_y: u16, page: Page) -> (r: GestureOutcome)
    ensures
        classify(start_x, start_y, last_x, last_y) == SwipeDirection::Tap && page == Page::Apps ==> r == (
        GestureOutcome::PendingTap { x: start_x, y: start_y, page }),
        classify(start_x, start_y, last_x, last_y) == SwipeDirection::Tap && page != Page::Apps ==> r == (
        GestureOutcome::Tap { page, x: start_x, y: start_y }),
        classify(start_x, start_y, last_x, last_y) != SwipeDirection::Tap ==> r == (GestureOutcome::Swipe {
            direction: classify(start_x, start_y, last_x, last_y),
            page,
        }),
{
    let direction = swipe_direction(start_x, start_y, last_x, last_y);
    match direction {
        SwipeDirection::Tap => if page == Page::Apps {
            GestureOutcome::PendingTap { x: start_x, y: start_y, page }
        } else {
            GestureOutcome::Tap { page, x: start_x, y: start_y }
        },
        _ => GestureOutcome::Swipe { direction, page },
    }
}

/// A second tap at `(x, y)` makes a double tap with the held-back tap at
/// `(px, py)` when it comes within the time limit, lands close enough on
/// both axes, and both taps were on the launcher.
pub open spec fn spec_is_double_tap(
    x: u16,
    y: u16,
    px: u16,
    py: u16,
    elapsed_ms: u64,
    pending_page: Page,
    page: Page,
) -> bool {
    &&& crate::ft3168::abs_diff(x, px) <= DOUBLE_TAP_MAX_DISTANCE
    &&& crate::ft3168::abs_diff(y, py) <= DOUBLE_TAP_MAX_DISTANCE
    &&& elapsed_ms <= DOUBLE_TAP_TIMEOUT_MS
    &&& pending_page == Page::Apps
    &&& page == Page::Apps
}

pub fn is_double_tap(x: u16, y: u16, px: u16, py: u16, elapsed_ms: u64, pending_page: Page, page: Page) -> (r: bool)
    ensures
        r == spec_is_double_tap(x, y, px, py, elapsed_ms, pending_page, page),
{
    let dx = if x >= px {
        x - px
    } else {
        px - x
    };
    let dy = if y >= py {
        y - py
    } else {
        py - y
    };
    dx <= DOUBLE_TAP_MAX_DISTANCE && dy <= DOUBLE_TAP_MAX_DISTANCE && elapsed_ms <= DOUBLE_TAP_TIMEOUT_MS
        && pending_page == Page::Apps && page == Page::Apps
}

/// How long to keep waiting for a second tap, `elapsed_ms` after the
/// first.
pub fn double_tap_wait(elapsed_ms: u64) -> (r: u64)
    ensures
        elapsed_ms < DOUBLE_TAP_TIMEOUT_MS ==> r == DOUBLE_TAP_TIMEOUT_MS - elapsed_ms,
        elapsed_ms >= DOUBLE_TAP_TIMEOUT_MS ==> r == 0,
{
    if elapsed_ms < DOUBLE_TAP_TIMEOUT_MS {
        DOUBLE_TAP_TIMEOUT_MS - elapsed_ms
    } else {
        0
    }
}

} // verus!
