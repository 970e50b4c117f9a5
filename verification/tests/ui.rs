use duckwatch::ft3168::{swipe_direction, Ft3168Touch, Gesture, PowerMode, SwipeDirection, TouchPoint, TouchState};
use duckwatch::gui::battery::format_percent;
use duckwatch::gui::media_player::format_time;
use duckwatch::gui::options::{format_rssi, format_timeout};
use duckwatch::gui::rolex::fmt_date_short;
use duckwatch::pages::{
    current_page, double_tap_wait, handle_swipe, is_double_tap, process_gesture, GestureOutcome, Page, SwipeOutcome,
};
use duckwatch::timer::{TimerCommand, TimerEvent, TimerState};
use duckwatch::uptime::format_uptime;

fn text(v: Vec<u8>) -> String {
    String::from_utf8(v).unwrap()
}

#[test]
fn labels_are_written_as_the_pages_show_them() {
    assert_eq!(text(format_percent(100)), "100%");
    assert_eq!(text(format_percent(150)), "100%");
    assert_eq!(text(format_percent(42)), "42%");
    assert_eq!(text(format_percent(7)), "7%");
    assert_eq!(text(format_rssi(-67)), "-67 dBm");
    assert_eq!(text(format_rssi(0)), "0 dBm");
    assert_eq!(text(format_timeout(0)), "OFF");
    assert_eq!(text(format_timeout(30)), "30 sec");
    assert_eq!(text(format_time(0)), "0:00");
    assert_eq!(text(format_time(65_000)), "1:05");
    assert_eq!(text(format_time(754_999)), "12:34");
    assert_eq!(fmt_date_short(7, 3), *b"07/03");
    assert_eq!(text(format_uptime(0)), "00D:00H:00M");
    assert_eq!(text(format_uptime(90_061)), "01D:01H:01M");
    assert_eq!(text(format_uptime(123 * 86_400 + 23 * 3600 + 59 * 60 + 59)), "123D:23H:59M");
}

#[test]
fn stored_page_numbers_round_trip() {
    let pages = [
        Page::Apps,
        Page::Clock,
        Page::Battery,
        Page::Weather,
        Page::MediaPlayer,
        Page::DuckTv,
        Page::House,
        Page::DuckCloud,
        Page::Settings,
        Page::SettingsWifi,
        Page::SettingsInfo,
    ];
    for p in pages {
        assert!(Page::from_raw(p.as_raw()) == Some(p));
    }
    assert!(Page::from_raw(Page::Call.as_raw()).is_none());
    assert!(Page::from_raw(99).is_none());
    assert!(current_page(99) == Page::Clock);
    assert!(current_page(2) == Page::Battery);
}

#[test]
fn main_pages_stop_at_both_ends() {
    assert!(Page::Apps.next_main() == Page::Clock);
    assert!(Page::Weather.next_main() == Page::Weather);
    assert!(Page::Apps.prev_main() == Page::Apps);
    assert!(Page::Battery.prev_main() == Page::Clock);
    assert!(Page::House.next_main() == Page::Clock);
}

#[test]
fn settings_carousel_wraps_round() {
    assert!(Page::Settings.next_setting() == Page::SettingsWifi);
    assert!(Page::SettingsInfo.next_setting() == Page::SettingsWifi);
    assert!(Page::SettingsWifi.prev_setting() == Page::SettingsInfo);
    let mut p = Page::SettingsWifi;
    for _ in 0..13 {
        p = p.next_setting();
    }
    assert!(p == Page::SettingsWifi);
    assert!(Page::SettingsMic.next_setting().prev_setting() == Page::SettingsMic);
    assert!(Page::SettingsMic.is_settings_page() && Page::SettingsMic.is_app_page());
    assert!(!Page::Clock.is_app_page());
}

#[test]
fn swipes_lead_where_the_pages_say() {
    assert!(handle_swipe(SwipeDirection::Down, Page::Clock, 10, false, false) == SwipeOutcome::OpenControlCenter);
    assert!(handle_swipe(SwipeDirection::Up, Page::Apps, 300, false, false) == SwipeOutcome::Launcher(SwipeDirection::Up));
    assert!(handle_swipe(SwipeDirection::Up, Page::Clock, 300, true, false) == SwipeOutcome::CloseControlCenter);
    assert!(handle_swipe(SwipeDirection::Up, Page::MediaPlayer, 480, false, true) == SwipeOutcome::CloseSplit);
    assert!(handle_swipe(SwipeDirection::Up, Page::House, 480, false, false) == SwipeOutcome::GoTo(Page::Clock));
    assert!(handle_swipe(SwipeDirection::Up, Page::House, 200, false, false) == SwipeOutcome::Ignore);
    assert!(handle_swipe(SwipeDirection::Left, Page::Clock, 200, false, false) == SwipeOutcome::GoTo(Page::Battery));
    assert!(handle_swipe(SwipeDirection::Right, Page::Clock, 200, false, false) == SwipeOutcome::GoTo(Page::Apps));
    assert!(
        handle_swipe(SwipeDirection::Left, Page::SettingsWifi, 200, false, false) == SwipeOutcome::GoTo(Page::SettingsRssi)
    );
    assert!(
        handle_swipe(SwipeDirection::Down, Page::SettingsMic, 200, false, false)
            == SwipeOutcome::SettingsAdjust(SwipeDirection::Down)
    );
    assert!(
        handle_swipe(SwipeDirection::Left, Page::SettingsInfo, 200, false, false)
            == SwipeOutcome::InfoFirst(Some(Page::SettingsWifi))
    );
}

#[test]
fn movement_is_sorted_into_taps_and_swipes() {
    assert!(swipe_direction(100, 100, 110, 120) == SwipeDirection::Tap);
    assert!(swipe_direction(100, 100, 200, 110) == SwipeDirection::Right);
    assert!(swipe_direction(200, 100, 100, 110) == SwipeDirection::Left);
    assert!(swipe_direction(100, 100, 110, 300) == SwipeDirection::Down);
    assert!(swipe_direction(100, 300, 110, 100) == SwipeDirection::Up);
    assert!(swipe_direction(100, 100, 200, 200) == SwipeDirection::Tap);
    // Moving back along the same path gives the opposite direction.
    assert!(swipe_direction(200, 110, 100, 100) == SwipeDirection::Left);
}

#[test]
fn gestures_on_the_launcher_hold_their_tap() {
    assert!(process_gesture(50, 60, 52, 61, Page::Apps) == GestureOutcome::PendingTap { x: 50, y: 60, page: Page::Apps });
    assert!(process_gesture(50, 60, 52, 61, Page::Clock) == GestureOutcome::Tap { page: Page::Clock, x: 50, y: 60 });
    assert!(
        process_gesture(50, 60, 250, 61, Page::Clock)
            == GestureOutcome::Swipe { direction: SwipeDirection::Right, page: Page::Clock }
    );
    assert!(is_double_tap(100, 100, 140, 60, 300, Page::Apps, Page::Apps));
    assert!(!is_double_tap(100, 100, 160, 100, 300, Page::Apps, Page::Apps));
    assert!(!is_double_tap(100, 100, 100, 100, 401, Page::Apps, Page::Apps));
    assert!(!is_double_tap(100, 100, 100, 100, 10, Page::Clock, Page::Apps));
    assert_eq!(double_tap_wait(100), 300);
    assert_eq!(double_tap_wait(500), 0);
}

#[test]
fn touch_registers_decode_and_a_lift_ends_the_gesture() {
    let mut t = Ft3168Touch::new();
    assert!(t.read(0, 1, 2, 3, 4).is_none());
    let p = t.read(1, 0xF1, 0x10, 0x00, 0x20).unwrap();
    assert_eq!((p.x, p.y, p.fingers), (0x110, 0x20, 1));
    let first = TouchPoint { x: 100, y: 300, fingers: 1 };
    let last = TouchPoint { x: 105, y: 100, fingers: 1 };
    assert!(t.poll(Some(first)).1.is_none());
    assert!(t.poll(Some(last)).1.is_none());
    let (none, ev) = t.poll(None);
    assert!(none.is_none());
    let ev = ev.unwrap();
    assert!(ev.direction == SwipeDirection::Up);
    assert_eq!((ev.start_x, ev.start_y, ev.end_x, ev.end_y), (100, 300, 105, 100));
    assert!(t.poll(None).1.is_none());
    assert!(t.read_gesture(0x22) == Gesture::SwipeUp);
    assert!(t.read_gesture(0x99) == Gesture::Unknown(0x99));
    assert_eq!(t.set_power_mode(PowerMode::Hibernate), (0xA5, 3));
    assert_eq!(t.initialize(), (0xA5, 0));
    let a = t.touch1(2, [0, 10, 0, 20]);
    let b = t.touch2(1, [0, 30, 0, 40]);
    assert!(b == TouchState::Released);
    let all = t.get_touches(2, a, t.touch2(2, [0, 30, 0, 40]));
    assert_eq!(all.len(), 2);
    assert!(all[1] == TouchPoint { x: 30, y: 40, fingers: 2 });
}

#[test]
fn countdown_powers_down_when_it_runs_out() {
    let mut st = TimerState::new(3);
    assert!(!st.step(TimerEvent::Tick, 3, false));
    assert!(!st.enabled);
    assert!(!st.step(TimerEvent::Command(TimerCommand::Start), 3, false));
    assert!(st.enabled && st.remaining == 3);
    assert!(!st.step(TimerEvent::Tick, 3, false));
    assert!(!st.step(TimerEvent::Tick, 3, false));
    assert!(st.remaining == 1);
    assert!(st.step(TimerEvent::Tick, 3, false));
    assert!(!st.enabled && st.remaining == 3);
}

#[test]
fn countdown_is_held_by_usb_and_reset_by_activity() {
    let mut st = TimerState::new(5);
    st.step(TimerEvent::Command(TimerCommand::Start), 5, true);
    assert!(!st.enabled);
    st.step(TimerEvent::Command(TimerCommand::Start), 5, false);
    st.step(TimerEvent::Tick, 5, false);
    st.step(TimerEvent::Tick, 5, false);
    st.step(TimerEvent::Command(TimerCommand::Reset), 5, false);
    assert!(st.enabled && st.remaining == 5);
    st.step(TimerEvent::Command(TimerCommand::Stop), 5, false);
    assert!(!st.enabled && st.remaining == 5);
    let mut one = TimerState { enabled: true, remaining: 1 };
    assert!(!one.step(TimerEvent::Tick, 5, true));
    assert!(!one.enabled);
}
