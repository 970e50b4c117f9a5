use duckwatch::ssh::{authorized_keys, ssh_step, SshConnection, SshEvent, SshReply};
use duckwatch::gui::options::{mic_gauge, mic_icon_place, mic_tap, mic_toggle_area};
use duckwatch::gui::tap::{route_page_tap, TapCommand};
use duckwatch::gui::{HitArea, TouchAction};
use duckwatch::pages::Page;
use duckwatch::shell::{command_of, is_battery_sensor, split_words, ShellCommand};
use duckwatch::storage::{sd_request, storage_mounts, StorageCommand};
use duckwatch::wifi::{wifi_start, wifi_step, WifiAction, WifiEvent, WifiPhase};

fn boxes() -> [HitArea; 4] {
    [
        HitArea { x: 0, y: 0, width: 100, height: 100, action: TouchAction::ControlCenterBox1 },
        HitArea { x: 100, y: 0, width: 100, height: 100, action: TouchAction::ControlCenterBox2 },
        HitArea { x: 0, y: 100, width: 100, height: 100, action: TouchAction::ControlCenterBox3 },
        HitArea { x: 100, y: 100, width: 100, height: 100, action: TouchAction::ControlCenterBox4 },
    ]
}

#[test]
fn control_center_takes_taps_while_it_shows() {
    let media = [HitArea { x: 0, y: 0, width: 400, height: 400, action: TouchAction::MediaNext }];
    let p = Some(boxes());
    assert!(route_page_tap(Page::MediaPlayer, 150, 150, true, &p, &media) == TapCommand::OpenSettingsPage);
    assert!(route_page_tap(Page::MediaPlayer, 50, 50, true, &p, &media) == TapCommand::ToggleWifi);
    assert!(route_page_tap(Page::MediaPlayer, 300, 300, true, &p, &media) == TapCommand::Nothing);
    assert!(route_page_tap(Page::MediaPlayer, 50, 50, false, &p, &media) == TapCommand::MediaNext);
    assert!(route_page_tap(Page::Clock, 50, 50, false, &p, &media) == TapCommand::Nothing);
    assert!(route_page_tap(Page::Weather, 50, 50, false, &p, &[]) == TapCommand::ForwardToPage);
    let toggle = [HitArea { x: 10, y: 10, width: 50, height: 50, action: TouchAction::SettingsToggle }];
    assert!(route_page_tap(Page::SettingsWifi, 20, 20, false, &None, &toggle) == TapCommand::ToggleWifi);
    assert!(route_page_tap(Page::SettingsWifi, 200, 20, false, &None, &toggle) == TapCommand::Nothing);
}

#[test]
fn wifi_moves_on_after_three_failures() {
    let (s, a) = wifi_start(2, true);
    assert!(a == WifiAction::Connect { idx: 0 });
    let (s, a) = wifi_step(s, WifiEvent::ConnectFailed);
    assert!(a == WifiAction::RetryAfterWait { idx: 0 });
    let (s, _) = wifi_step(s, WifiEvent::ConnectFailed);
    let (s, a) = wifi_step(s, WifiEvent::ConnectFailed);
    assert!(a == WifiAction::RetryAfterWait { idx: 1 });
    assert_eq!((s.idx, s.fail_count), (1, 0));
    let (s, _) = wifi_step(s, WifiEvent::ConnectFailed);
    let (s, _) = wifi_step(s, WifiEvent::ConnectFailed);
    let (s, a) = wifi_step(s, WifiEvent::ConnectFailed);
    assert!(a == WifiAction::RetryAfterWait { idx: 0 });
    assert_eq!(s.idx, 0);
}

#[test]
fn wifi_connects_watches_and_disables() {
    let (s, a) = wifi_start(1, false);
    assert!(a == WifiAction::Idle && s.phase == WifiPhase::Disabled);
    let (s, a) = wifi_step(s, WifiEvent::Scan);
    assert!(a == WifiAction::Idle && s.phase == WifiPhase::Disabled);
    let (s, a) = wifi_step(s, WifiEvent::Enable);
    assert!(a == WifiAction::Connect { idx: 0 });
    let (s, a) = wifi_step(s, WifiEvent::Connected);
    assert!(a == WifiAction::LinkUp { idx: 0 } && s.phase == WifiPhase::Connected);
    let (s, a) = wifi_step(s, WifiEvent::Tick);
    assert!(a == WifiAction::ReadSignal);
    let (s, a) = wifi_step(s, WifiEvent::Disconnected);
    assert!(a == WifiAction::Reconnect { idx: 0 } && s.phase == WifiPhase::Connecting);
    let (s, a) = wifi_step(s, WifiEvent::Disable);
    assert!(a == WifiAction::StopConnecting && s.phase == WifiPhase::Disabled);
    let (s, _) = wifi_step(s, WifiEvent::Enable);
    let (s, _) = wifi_step(s, WifiEvent::Connected);
    let (s, a) = wifi_step(s, WifiEvent::Scan);
    assert!(a == WifiAction::Scan && s.phase == WifiPhase::Disabled);
}

#[test]
fn command_lines_split_into_words() {
    let w = split_words(b"  ls   /Music\t x ");
    assert_eq!(w, vec![b"ls".to_vec(), b"/Music".to_vec(), b"x".to_vec()]);
    assert!(split_words(b"   ").is_empty());
    assert!(command_of(&w) == ShellCommand::Ls);
    assert!(command_of(&split_words(b"")) == ShellCommand::Empty);
    assert!(command_of(&split_words(b"sensors")) == ShellCommand::Sensors);
    assert!(command_of(&split_words(b"sensor battery")) == ShellCommand::Sensor);
    assert!(command_of(&split_words(b"frobnicate")) == ShellCommand::Unknown);
    assert!(is_battery_sensor(b"battery_percentage"));
    assert!(!is_battery_sensor(b"batteryx"));
}

#[test]
fn card_is_mounted_on_request_once() {
    assert!(sd_request(false) == Some(StorageCommand::Enable));
    assert!(sd_request(true).is_none());
    assert!(storage_mounts(StorageCommand::Enable, false, true));
    assert!(!storage_mounts(StorageCommand::Enable, true, true));
    assert!(!storage_mounts(StorageCommand::Enable, false, false));
    assert!(!storage_mounts(StorageCommand::Disable, false, true));
}

#[test]
fn ssh_accepts_the_user_and_listed_keys_only() {
    let line = b"ssh-ed25519 AAAAC3NzaC1lZDI1NTE5AAAAIAABAgMEBQYHCAkKCwwNDg8QERITFBUWFxgZGhscHR4f user@host".to_vec();
    let lines = vec![None, Some(b"garbage".to_vec()), Some(line.clone()), Some(line)];
    let keys = authorized_keys(&lines, 1);
    assert_eq!(keys.len(), 1);
    let mut listed = [0u8; 32];
    for (i, b) in listed.iter_mut().enumerate() {
        *b = i as u8;
    }
    assert_eq!(keys[0], listed);
    let c = SshConnection { session_open: false };
    let (c, r) = ssh_step(c, &SshEvent::FirstAuth { user: b"duck".to_vec() }, b"duck", &keys);
    assert!(r == SshReply::PubkeyOnly);
    let (_, r) = ssh_step(c, &SshEvent::FirstAuth { user: b"root".to_vec() }, b"duck", &keys);
    assert!(r == SshReply::Ignore);
    let (_, r) = ssh_step(c, &SshEvent::PubkeyAuth { offered: Some(listed) }, b"duck", &keys);
    assert!(r == SshReply::Allow);
    let (_, r) = ssh_step(c, &SshEvent::PubkeyAuth { offered: Some([9; 32]) }, b"duck", &keys);
    assert!(r == SshReply::RejectAndClose);
    let (_, r) = ssh_step(c, &SshEvent::PubkeyAuth { offered: None }, b"duck", &keys);
    assert!(r == SshReply::RejectAndClose);
    let (c, r) = ssh_step(c, &SshEvent::OpenSession, b"duck", &keys);
    assert!(r == SshReply::AcceptSession && c.session_open);
    let (c, r) = ssh_step(c, &SshEvent::SessionShell, b"duck", &keys);
    assert!(r == SshReply::StartShell && !c.session_open);
    let (_, r) = ssh_step(c, &SshEvent::SessionExec, b"duck", &keys);
    assert!(r == SshReply::Succeed);
}

#[test]
fn mic_page_lays_out_toggle_gauge_and_icon() {
    let a = mic_toggle_area(410, 502);
    assert_eq!((a.x, a.y, a.width, a.height), (145, 402, 120, 60));
    assert_eq!(mic_toggle_area(100, 50).x, -10);
    assert!(mic_tap(&Some(a), 150, 410, false) == (Some(TouchAction::SettingsToggle), true));
    assert!(mic_tap(&Some(a), 0, 0, false) == (None, false));
    assert!(mic_tap(&None, 150, 410, true) == (None, true));
    let g = mic_gauge(410, 502, false, 130);
    assert_eq!((g.diameter, g.left, g.top, g.center_x, g.center_y, g.percent), (287, 62, 108, 205, 251, 100));
    assert_eq!(mic_gauge(410, 502, true, 40).percent, 0);
    // 55 % of 287 is 157 (157.85 cut), so a 48-pixel icon is drawn three times its size.
    assert_eq!(mic_icon_place(205, 251, 287, 48, 48), (205 - 72, 251 - 72, 3));
    assert_eq!(mic_icon_place(205, 251, 287, 10, 400), (200, 51, 1));
}
