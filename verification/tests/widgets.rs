use duckwatch::framebuffer::Framebuffer;
use duckwatch::gui::animations::{DragEnd, SwipeAnimator};
use duckwatch::ft3168::SwipeDirection;
use duckwatch::gui::apps::{compose, Launcher};
use duckwatch::gui::control_center::{handle_touch as control_touch, panel_height, Overlay};
use duckwatch::gui::input::{handle_touch as input_touch, InputButton, InputState};
use duckwatch::gui::media_player::{
    handle_playlist_tap, handle_touch as media_touch, is_in_gap, set_hit_areas_closed, MediaSplit, PlaylistScroll,
    SplitStep,
};
use duckwatch::gui::options::{handle_mic_swipe, handle_sleep_swipe, InfoScroll};
use duckwatch::gui::rolex::WatchFace;
use duckwatch::gui::{animate_toward, first_hit, hit_test, HitArea, TouchAction};
use duckwatch::pages::Page;
use duckwatch::shell::{
    cd_target, child_prefix, hexdump_lines, icon, ls_line, sort_names, tree_line, tree_order, AsyncMenuBuf,
};
use duckwatch::ssh::{parse_ed25519_pubkey, simple_base64_decode};
use duckwatch::text::{find_first, find_last, hex_to_bytes, parse_uint, trim_window, window_lower_eq};

fn area(x: i32, y: i32, w: u32, h: u32, action: TouchAction) -> HitArea {
    HitArea { x, y, width: w, height: h, action }
}

#[test]
fn hit_areas_include_left_and_top_edges_only() {
    let a = area(10, 20, 5, 5, TouchAction::OpenSettings);
    assert!(hit_test(10, 20, &a));
    assert!(hit_test(14, 24, &a));
    assert!(!hit_test(15, 20, &a));
    assert!(!hit_test(10, 25, &a));
    let areas = [a, area(0, 0, 100, 100, TouchAction::OpenDuckTv)];
    assert!(first_hit(&areas, 12, 22) == Some(TouchAction::OpenSettings));
    assert!(first_hit(&areas, 50, 50) == Some(TouchAction::OpenDuckTv));
    assert!(first_hit(&areas, 500, 50).is_none());
}

#[test]
fn animation_steps_never_overshoot() {
    assert_eq!(animate_toward(0, 100, 30), 30);
    assert_eq!(animate_toward(90, 100, 30), 100);
    assert_eq!(animate_toward(100, 0, 30), 70);
    assert_eq!(animate_toward(5, 5, 30), 5);
    let mut x = -502;
    for _ in 0..100 {
        x = animate_toward(x, 0, 40);
    }
    assert_eq!(x, 0);
}

#[test]
fn control_center_slides_open_and_closed() {
    assert_eq!(panel_height(), 245);
    let mut o = Overlay::hidden();
    assert!(!o.is_visible());
    o.open();
    assert!(o.animate(100));
    assert_eq!(o.current_offset, -402);
    while o.animate(100) {}
    assert_eq!(o.current_offset, 0);
    assert!(o.is_visible());
    o.close();
    while o.animate(100) {}
    assert_eq!(o.current_offset, -240);
    assert!(!o.is_visible());
    let areas = Some([
        area(0, 0, 10, 10, TouchAction::ControlCenterBox1),
        area(10, 0, 10, 10, TouchAction::ControlCenterBox2),
        area(0, 10, 10, 10, TouchAction::ControlCenterBox3),
        area(10, 10, 10, 10, TouchAction::ControlCenterBox4),
    ]);
    assert!(control_touch(&areas, 15, 15) == Some(TouchAction::ControlCenterBox4));
    assert!(control_touch(&None, 15, 15).is_none());
}

#[test]
fn media_split_and_playlist() {
    let mut s = MediaSplit::new();
    assert!(s.animate_split(50) == SplitStep::Idle);
    s.open_split();
    assert!(s.animate_split(200) == SplitStep::Moving);
    assert!(s.animate_split(200) == SplitStep::Opened);
    assert!(s.is_split_open());
    s.close_split();
    assert!(s.animate_split(300) == SplitStep::Closed);
    assert!(!s.is_split_open());

    assert!(is_in_gap(100, 251));
    assert!(is_in_gap(100, 151));
    assert!(!is_in_gap(100, 150));
    assert!(!is_in_gap(0, 251));
    assert_eq!(handle_playlist_tap(251, 0, 5, 0, 20), Some(0));
    assert_eq!(handle_playlist_tap(251, 0, 5, 0, 90), Some(1));
    assert_eq!(handle_playlist_tap(251, 0, 5, 0, 19), None);
    assert_eq!(handle_playlist_tap(251, 140, 5, 0, 20), Some(2));
    assert_eq!(handle_playlist_tap(251, 0, 1, 0, 90), None);

    let mut p = PlaylistScroll { offset: 0, target: 0, max_scroll: 100 };
    p.handle_swipe(SwipeDirection::Up, false);
    assert_eq!(p.target, 0);
    p.handle_swipe(SwipeDirection::Up, true);
    assert_eq!(p.target, 70);
    p.handle_swipe(SwipeDirection::Up, true);
    assert_eq!(p.target, 100);
    p.handle_swipe(SwipeDirection::Down, true);
    p.handle_swipe(SwipeDirection::Down, true);
    assert_eq!(p.target, 0);
    p.target = 100;
    p.animate_playlist_scroll(60);
    assert_eq!(p.offset, 60);

    let areas = set_hit_areas_closed();
    assert!(areas[1].action == TouchAction::MediaPlayPause);
    assert!(media_touch(&Some(areas), 170, 400) == Some(TouchAction::MediaPlayPause));
    assert!(media_touch(&Some(areas), 200, 200) == Some(TouchAction::MediaSplitView));
    assert!(media_touch(&Some(areas), 0, 0).is_none());
}

#[test]
fn text_input_dialog() {
    assert!(input_touch(20, 400) == Some(InputButton::Cancel));
    assert!(input_touch(240, 400) == Some(InputButton::Confirm));
    assert!(input_touch(200, 400).is_none());
    assert!(input_touch(20, 300).is_none());
    let mut st = InputState::open("Search", "ab", Page::MediaPlayer);
    assert_eq!(st.cursor_pos, 2);
    st.push_char('c');
    st.push_char('é');
    assert_eq!(st.text, "abcé".as_bytes().to_vec());
    assert_eq!(st.cursor_pos, 5);
    let (text, back) = st.hit_ok();
    assert_eq!(text, "abcé".as_bytes().to_vec());
    assert_eq!(back, 10);
    assert_eq!(st.hit_cancel(), 10);
    st.set_text(&"x".repeat(129));
    assert!(st.text.is_empty());
    st.set_text(&"y".repeat(128));
    st.push_char('z');
    assert_eq!(st.text.len(), 128);
}

#[test]
fn settings_sliders_and_info_scroller() {
    assert_eq!(handle_mic_swipe(SwipeDirection::Up, 300, 200, 50), Some(100));
    assert_eq!(handle_mic_swipe(SwipeDirection::Up, 300, 280, 50), Some(60));
    assert_eq!(handle_mic_swipe(SwipeDirection::Down, 200, 300, 20), Some(0));
    assert_eq!(handle_mic_swipe(SwipeDirection::Down, 200, 201, 20), None);
    assert_eq!(handle_mic_swipe(SwipeDirection::Left, 200, 300, 20), None);
    assert_eq!(handle_sleep_swipe(SwipeDirection::Up, 300, 250, 30), Some(80));
    assert_eq!(handle_sleep_swipe(SwipeDirection::Up, 500, 0, 30), Some(300));
    assert_eq!(handle_sleep_swipe(SwipeDirection::Down, 0, 100, 30), Some(0));
    assert_eq!(handle_sleep_swipe(SwipeDirection::Down, 7, 7, 30), None);
    let mut info = InfoScroll::new();
    assert!(!info.handle_swipe(SwipeDirection::Left));
    assert!(info.handle_swipe(SwipeDirection::Up));
    assert_eq!(info.target_offset, 502);
    info.animate_info(1000);
    assert!(info.is_on_info_page());
    assert!(info.handle_swipe(SwipeDirection::Left));
    for _ in 0..10 {
        info.handle_swipe(SwipeDirection::Up);
    }
    assert_eq!(info.target_offset, 2008);
    assert!(!info.handle_swipe(SwipeDirection::Tap));
}

#[test]
fn launcher_scrolls_one_page_at_a_time() {
    let mut l = Launcher::new();
    l.handle_swipe(SwipeDirection::Up, 3);
    assert_eq!(l.target_scroll, 502);
    l.handle_swipe(SwipeDirection::Up, 3);
    l.handle_swipe(SwipeDirection::Up, 3);
    assert_eq!(l.target_scroll, 1004);
    l.handle_swipe(SwipeDirection::Down, 3);
    assert_eq!(l.target_scroll, 502);
    l.handle_swipe(SwipeDirection::Left, 3);
    assert_eq!(l.target_scroll, 502);
    assert_eq!(l.handle_double_tap(3), Some(0));
    l.scroll_offset = 1004;
    assert_eq!(l.handle_double_tap(3), Some(2));
    l.scroll_offset = 3000;
    assert_eq!(l.handle_double_tap(3), Some(2));
    assert_eq!(l.handle_double_tap(0), None);
}

#[test]
fn launcher_composes_two_pages_while_scrolling() {
    let pages = vec![vec![1u16; 410 * 502], vec![2u16; 410 * 502]];
    let mut buf = vec![0u16; 410 * 502];
    compose(&mut buf, &pages, 0);
    assert!(buf.iter().all(|&c| c == 1));
    compose(&mut buf, &pages, 100);
    assert_eq!(buf[0], 1);
    assert_eq!(buf[401 * 410], 1);
    assert_eq!(buf[402 * 410], 2);
    compose(&mut buf, &pages, 502);
    assert!(buf.iter().all(|&c| c == 2));
    compose(&mut buf, &pages, 600);
    assert_eq!(buf[403 * 410], 2);
    assert_eq!(buf[404 * 410], 0);
}

#[test]
fn watch_face_renders_only_when_something_changed() {
    let mut w = WatchFace::new();
    assert!(w.needs_render());
    assert!(w.render().full_redraw);
    assert!(!w.needs_render());
    w.update_time(10, 20, 30);
    assert!(w.needs_render());
    assert_eq!(w.shown_time(), (10, 20, 30));
    w.render();
    w.update_time(10, 20, 30);
    assert!(!w.needs_render());
    w.update_date(31, 12, 24);
    assert_eq!(w.shown_date(), (31, 12, 24));
}

#[test]
fn listing_icons_by_kind() {
    assert_eq!(icon(b"assets", true), "\u{f0c7} ");
    assert_eq!(icon(b"music", true), "\u{f115} ");
    assert_eq!(icon(b"photo.jpeg", false), "\u{f1c5} ");
    assert_eq!(icon(b"song.flac", false), "\u{1f3b5} ");
    assert_eq!(icon(b"notes.txt", false), "\u{f15b} ");
    assert_eq!(icon(b".mp3x", false), "\u{f15b} ");
}

#[test]
fn shell_output_turns_newlines_into_crlf_until_full() {
    let mut m = AsyncMenuBuf::new();
    assert_eq!(m.write(b"ok\n"), 3);
    assert_eq!(m.buf, b"ok\r\n".to_vec());
    let big = vec![b'x'; 1019];
    assert_eq!(m.write(&big), 1019);
    assert_eq!(m.write(b"ab"), 1);
    assert_eq!(m.buf.len(), 1024);
    let mut n = AsyncMenuBuf::new();
    n.write(&vec![b'y'; 1023]);
    assert_eq!(n.write(b"\n"), 0);
    assert_eq!(n.buf.last(), Some(&b'\r'));
}

#[test]
fn ssh_keys_and_base64() {
    assert_eq!(simple_base64_decode(b"aGkhIQ=="), Some(b"hi!!".to_vec()));
    assert_eq!(simple_base64_decode(b"aGkh"), Some(b"hi!".to_vec()));
    assert_eq!(simple_base64_decode(b"aG*h"), None);
    let line = b"ssh-ed25519 AAAAC3NzaC1lZDI1NTE5AAAAIAABAgMEBQYHCAkKCwwNDg8QERITFBUWFxgZGhscHR4f user@host";
    let key = parse_ed25519_pubkey(line).unwrap();
    assert_eq!(key.to_vec(), (0..32).collect::<Vec<u8>>());
    assert!(parse_ed25519_pubkey(b"AAAAC3NzaC1lZDI1NTE5AAAAIAABAgMEBQYHCAkKCwwNDg8QERITFBUWFxgZGhscHR4f").is_some());
    assert!(parse_ed25519_pubkey(b"ssh-ed25519 aGkhIQ==").is_none());
    assert!(parse_ed25519_pubkey(b"   ").is_none());
}

#[test]
fn text_windows() {
    let s = b"  Key = Value  ";
    assert_eq!(trim_window(s, 0, s.len()), (2, 13));
    assert!(window_lower_eq(s, 2, 5, b"key"));
    assert!(!window_lower_eq(s, 2, 5, b"kez"));
    assert_eq!(find_first(s, 0, s.len(), b'e'), Some(3));
    assert_eq!(find_last(s, 0, s.len(), b'e'), Some(12));
    assert_eq!(find_first(s, 0, 3, b'='), None);
    assert_eq!(parse_uint(b"51820", 0, 5, 65535), Some(51820));
    assert_eq!(parse_uint(b"65536", 0, 5, 65535), None);
    assert_eq!(parse_uint(b"12a", 0, 3, 65535), None);
    assert_eq!(parse_uint(b"", 0, 0, 65535), None);
    assert_eq!(hex_to_bytes::<3>("00fFa1"), [0x00, 0xFF, 0xA1]);
}

#[test]
fn hexdump_prints_sixteen_bytes_per_line() {
    let text = String::from_utf8(hexdump_lines(&[0x00, 0xAB, 0x10])).unwrap();
    assert_eq!(text, "00000000: 00 ab 10 \n");
    let data: Vec<u8> = (0..20).collect();
    let text = String::from_utf8(hexdump_lines(&data)).unwrap();
    assert_eq!(
        text,
        "00000000: 00 01 02 03 04 05 06 07 08 09 0a 0b 0c 0d 0e 0f \n00000010: 10 11 12 13 \n"
    );
    assert!(hexdump_lines(&[]).is_empty());
    let long = vec![0xFFu8; 16 * 40];
    let text = String::from_utf8(hexdump_lines(&long)).unwrap();
    assert_eq!(text.lines().count(), 33);
    assert!(text.starts_with("00000000: ff "));
    assert!(text.contains("\n000001f0: ff "));
    assert!(text.ends_with("...\n"));
    let exact = vec![1u8; 16 * 32];
    assert!(String::from_utf8(hexdump_lines(&exact)).unwrap().ends_with("...\n"));
    let short = vec![1u8; 16 * 31];
    assert!(!String::from_utf8(hexdump_lines(&short)).unwrap().ends_with("...\n"));
}

#[test]
fn ls_lines_right_align_sizes() {
    assert_eq!(String::from_utf8(ls_line(b"music", true, 0)).unwrap(), "  [DIR]  music\n");
    assert_eq!(String::from_utf8(ls_line(b"a.txt", false, 1234)).unwrap(), "      1234  a.txt\n");
    assert_eq!(String::from_utf8(ls_line(b"big", false, 4_000_000_000)).unwrap(), "  4000000000  big\n");
}

#[test]
fn cd_goes_up_one_level_per_extra_dot() {
    let t = |cwd: &str, arg: Option<&str>| String::from_utf8(cd_target(cwd.as_bytes(), arg.map(|a| a.as_bytes()))).unwrap();
    assert_eq!(t("/music/rock", None), "/");
    assert_eq!(t("/music/rock", Some(".")), "/music/rock");
    assert_eq!(t("/music/rock", Some("")), "/music/rock");
    assert_eq!(t("/music/rock", Some("..")), "/music");
    assert_eq!(t("/music/rock", Some("...")), "/");
    assert_eq!(t("/music/rock", Some(".....")), "/");
    assert_eq!(t("//a//b/c/", Some("..")), "/a/b");
    assert_eq!(t("/music", Some("rock")), "/music/rock");
    assert_eq!(t("/", Some("music")), "/music");
    assert_eq!(t("/music", Some("/photos")), "/photos");
}

#[test]
fn tree_lists_directories_then_files_each_sorted() {
    let entries = vec![
        (b"zeta.mp3".to_vec(), false),
        (b"beta".to_vec(), true),
        (b"alpha.png".to_vec(), false),
        (b"Alpha".to_vec(), true),
        (b"beta".to_vec(), true),
    ];
    let (dirs, files) = tree_order(&entries);
    assert_eq!(dirs, vec![b"Alpha".to_vec(), b"beta".to_vec(), b"beta".to_vec()]);
    assert_eq!(files, vec![b"alpha.png".to_vec(), b"zeta.mp3".to_vec()]);
    assert_eq!(sort_names(&vec![b"ab".to_vec(), b"a".to_vec(), b"".to_vec()]), vec![b"".to_vec(), b"a".to_vec(), b"ab".to_vec()]);
    assert_eq!(String::from_utf8(tree_line(b"", false, b"music", true)).unwrap(), "├── \u{f115} music\r\n");
    assert_eq!(String::from_utf8(tree_line("│   ".as_bytes(), true, b"a.mp3", false)).unwrap(), "│   └── \u{1f3b5} a.mp3\r\n");
    assert_eq!(String::from_utf8(child_prefix(b"", false)).unwrap(), "│   ");
    assert_eq!(String::from_utf8(child_prefix("│   ".as_bytes(), true)).unwrap(), "│       ");
}

#[test]
fn gap_and_playlist_taps_take_any_offset_and_scroll() {
    assert!(is_in_gap(1000, 0));
    assert!(is_in_gap(i32::MAX, 251));
    assert!(!is_in_gap(i32::MAX, i32::MIN));
    assert!(!is_in_gap(i32::MIN, 251));
    assert_eq!(handle_playlist_tap(300, 2_000_000_000, usize::MAX, 0, 0), Some(28_571_428));
    assert_eq!(handle_playlist_tap(300, -1000, 5, 0, 0), None);
}

#[test]
fn swipe_commits_past_a_third_and_idles_otherwise() {
    let fb = Framebuffer::new();
    let mut a = SwipeAnimator::new();
    assert!(matches!(a.end_drag(), DragEnd::Idle));
    assert!(!a.is_active());
    a.start_swipe(&fb, 0, SwipeDirection::Left);
    a.set_target(&fb, Page::Weather);
    assert!(a.is_active());
    a.update(200);
    assert!(matches!(a.end_drag(), DragEnd::Commit(Some(Page::Weather))));
    assert!(!a.is_active());
    assert!(matches!(a.end_drag(), DragEnd::Idle));
    a.start_swipe(&fb, 0, SwipeDirection::Left);
    a.update(20);
    assert!(matches!(a.end_drag(), DragEnd::Cancel));
}
