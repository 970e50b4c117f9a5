use duckwatch::co5300::{contiguous_rows, panel_points, consume_sleep, consume_wake, is_flashing, sleep_now, start_flash, stop_flash, wake_up, DisplayFlags, PanelGeometry};
use duckwatch::framebuffer::{intersect_panel, FlushRegion, Framebuffer, HEIGHT, PIXEL_COUNT, WIDTH};
use duckwatch::gui::colors::{
    blend, blue, brighter, darker, ensure_contrast, gradient_blue_red, gradient_cyan_magenta, gradient_red_green,
    grayscale, green, luminance, rainbow, readable_text_color, red, rgb565, BLACK, GREEN, ORANGE, RED, WHITE, YELLOW,
};
use duckwatch::qspi::{
    begin_pixels, stream_pixels, write_c8d16d16, write_c8d8, write_command, write_pixels, write_repeat, LineMode,
};
use duckwatch::gui::time::{battery_color, draw_clock, SEGMENT_COLOR};

#[test]
fn packing_cuts_channels_to_their_width() {
    assert_eq!(rgb565(31, 63, 31), 0xFFFF);
    assert_eq!(rgb565(255, 255, 255), 0xFFFF);
    assert_eq!(rgb565(1, 2, 3), 2048 + 64 + 3);
    assert_eq!(rgb565(32, 64, 32), 0);
}

#[test]
fn unpacking_gives_back_the_channels() {
    let c = rgb565(17, 42, 9);
    assert_eq!((red(c), green(c), blue(c)), (17, 42, 9));
    assert_eq!((red(RED), green(GREEN), blue(0x001F)), (31, 63, 31));
}

#[test]
fn gradients_run_between_their_ends() {
    assert_eq!(gradient_red_green(0), 0xF800);
    assert_eq!(gradient_red_green(100), 0x07E0);
    assert_eq!(gradient_red_green(50), 0xFFE0);
    assert_eq!(gradient_blue_red(0), 0x001F);
    assert_eq!(gradient_blue_red(100), 0xF800);
    assert_eq!(gradient_cyan_magenta(0), 0x07FF);
    assert_eq!(grayscale(0), 0);
    assert_eq!(grayscale(100), 0xFFFF);
}

#[test]
fn rainbow_starts_red_and_ends_magenta() {
    assert_eq!(rainbow(0), 0xF800);
    assert_eq!(rainbow(255), rgb565(255, 0, 255 - ((255u16 * 6 % 256) as u8)));
}

#[test]
fn blend_mixes_each_channel() {
    assert_eq!(blend(BLACK, WHITE, 0), BLACK);
    assert_eq!(blend(BLACK, WHITE, 255), WHITE);
    assert_eq!(blend(BLACK, WHITE, 128), 15 * 2048 + 31 * 32 + 15);
}

#[test]
fn brighter_and_darker_saturate() {
    assert_eq!(brighter(BLACK, 10), 10 * 2048 + 10 * 32 + 10);
    assert_eq!(darker(WHITE, 1), 30 * 2048 + 62 * 32 + 30);
    assert_eq!(darker(BLACK, 200), BLACK);
}

#[test]
fn luminance_and_contrast() {
    assert_eq!(luminance(BLACK), 0);
    assert_eq!(luminance(WHITE), 53);
    assert_eq!(luminance(RED), 6);
    assert_eq!(readable_text_color(BLACK), WHITE);
    assert_eq!(readable_text_color(WHITE), WHITE);
    assert_eq!(ensure_contrast(BLACK, WHITE, 50), WHITE);
    assert_eq!(ensure_contrast(BLACK, RED, 5), RED);
    assert_eq!(ensure_contrast(BLACK, RED, 10), WHITE);
}

#[test]
fn battery_colour_thresholds() {
    assert_eq!(battery_color(100), GREEN);
    assert_eq!(battery_color(70), GREEN);
    assert_eq!(battery_color(69), YELLOW);
    assert_eq!(battery_color(50), YELLOW);
    assert_eq!(battery_color(30), ORANGE);
    assert_eq!(battery_color(29), RED);
}

fn lit(buf: &Framebuffer) -> usize {
    buf.buffer().iter().filter(|&&c| c != 0).count()
}

#[test]
fn new_framebuffer_is_black_and_panel_sized() {
    let fb = Framebuffer::new();
    assert_eq!(fb.buffer().len(), PIXEL_COUNT);
    assert_eq!(PIXEL_COUNT, WIDTH * HEIGHT);
    assert_eq!(lit(&fb), 0);
}

#[test]
fn set_pixel_ignores_points_off_the_panel() {
    let mut fb = Framebuffer::new();
    fb.set_pixel(1, 2, 0xABCD);
    fb.set_pixel(410, 0, 1);
    fb.set_pixel(0, 502, 1);
    assert_eq!(fb.buffer()[2 * WIDTH + 1], 0xABCD);
    assert_eq!(lit(&fb), 1);
}

#[test]
fn swap_exchanges_the_buffers() {
    let mut fb = Framebuffer::new();
    fb.set_pixel(0, 0, 7);
    fb.swap();
    assert_eq!(lit(&fb), 0);
    fb.swap();
    assert_eq!(fb.buffer()[0], 7);
}

#[test]
fn clear_color_fills_everything() {
    let mut fb = Framebuffer::new();
    fb.clear_color(3);
    assert!(fb.buffer().iter().all(|&c| c == 3));
}

#[test]
fn fill_rect_clips_at_the_edges() {
    let mut fb = Framebuffer::new();
    fb.fill_rect(400, 500, 20, 20, 7);
    assert_eq!(lit(&fb), 10 * 2);
    assert_eq!(fb.buffer()[501 * WIDTH + 409], 7);
    assert_eq!(fb.buffer()[499 * WIDTH + 409], 0);
}

#[test]
fn fill_solid_takes_rectangles_partly_off_the_panel() {
    let mut fb = Framebuffer::new();
    fb.fill_solid(-5, -5, 10, 10, 9);
    assert_eq!(lit(&fb), 25);
    assert_eq!(fb.buffer()[4 * WIDTH + 4], 9);
    fb.fill_solid(500, 0, 10, 10, 9);
    fb.fill_solid(-20, 0, 10, 10, 9);
    assert_eq!(lit(&fb), 25);
}

#[test]
fn intersection_with_the_panel() {
    assert_eq!(intersect_panel(-5, 10, 20, 5), (0, 10, 15, 5));
    assert_eq!(intersect_panel(405, 500, 10, 10), (405, 500, 5, 2));
    let (_, _, w, h) = intersect_panel(600, 0, 10, 10);
    assert_eq!(w * h, 0);
}

#[test]
fn draw_iter_paints_points_in_order() {
    let mut fb = Framebuffer::new();
    fb.draw_iter(&[(0, 0, 1), (-1, 0, 2), (409, 501, 3), (410, 0, 4), (0, 0, 5)]);
    assert_eq!(fb.buffer()[0], 5);
    assert_eq!(fb.buffer()[PIXEL_COUNT - 1], 3);
    assert_eq!(lit(&fb), 2);
}

#[test]
fn fill_contiguous_drops_colours_past_the_bottom() {
    let mut fb = Framebuffer::new();
    fb.fill_contiguous(0, 501, 2, &[1, 2, 3, 4]);
    assert_eq!(fb.buffer()[501 * WIDTH], 1);
    assert_eq!(fb.buffer()[501 * WIDTH + 1], 2);
    assert_eq!(lit(&fb), 2);
}

#[test]
fn flush_regions_are_even_and_at_least_two_pixels() {
    let fb = Framebuffer::new();
    assert!(fb.flush() == FlushRegion { x: 0, y: 0, w: 410, h: 502 });
    assert!(fb.flush_region(3, 3, 1, 1) == Some(FlushRegion { x: 2, y: 2, w: 2, h: 2 }));
    assert!(fb.flush_region(409, 501, 10, 10) == Some(FlushRegion { x: 408, y: 500, w: 2, h: 2 }));
    assert!(fb.flush_region(0, 0, 0, 5).is_none());
}

#[test]
fn display_requests_latest_wins_and_are_taken_once() {
    let mut f = DisplayFlags::new();
    wake_up(&mut f);
    sleep_now(&mut f);
    assert!(!consume_wake(&mut f));
    assert!(consume_sleep(&mut f));
    assert!(!consume_sleep(&mut f));
    wake_up(&mut f);
    assert!(consume_wake(&mut f));
    assert!(!consume_wake(&mut f));
    start_flash(&mut f);
    assert!(is_flashing(&f));
    stop_flash(&mut f);
    assert!(!is_flashing(&f));
}

#[test]
fn address_window_adds_the_panel_offsets() {
    let g = PanelGeometry::new(0);
    assert_eq!(g.set_addr_window(0, 0, 410, 502), (22, 431, 0, 501));
    assert_eq!(g.set_addr_window(10, 20, 1, 1), (32, 32, 20, 20));
}

#[test]
fn clock_page_is_black_without_a_time() {
    let mut buf = vec![5u16; 410 * 502];
    draw_clock(&mut buf, None);
    assert!(buf.iter().all(|&c| c == 0));
}

#[test]
fn clock_page_lights_the_segments_of_each_digit() {
    let mut buf = vec![0u16; 410 * 502];
    draw_clock(&mut buf, Some((12, 34)));
    // Hour tens digit "1": upper right segment lit, upper left not.
    assert_eq!(buf[217 * 410 + 75], SEGMENT_COLOR);
    assert_eq!(buf[217 * 410 + 5], 0);
    // Top segment of the "1" stays dark.
    assert_eq!(buf[212 * 410 + 40], 0);
    assert!(buf.iter().any(|&c| c == SEGMENT_COLOR));
}

#[test]
fn register_writes_put_the_register_in_the_address_middle_byte() {
    let t = write_command(0x29);
    assert!(t.mode == LineMode::Single && t.command == Some(0x02) && t.address == Some(0x2900) && t.data.is_empty());
    let t = write_c8d8(0x51, 0xFF);
    assert!(t.address == Some(0x5100) && t.data == vec![0xFF]);
    let t = write_c8d16d16(0x2A, 22, 431);
    assert!(t.address == Some(0x2A00) && t.data == vec![0, 22, 1, 175]);
}

#[test]
fn pixel_writes_are_cut_into_dma_pieces() {
    assert!(write_pixels(&[]).is_empty());
    let ts = write_pixels(&[0x1234, 0xABCD]);
    assert_eq!(ts.len(), 1);
    assert!(ts[0].mode == LineMode::Quad && ts[0].command == Some(0x32) && ts[0].address == Some(0x003C00));
    assert_eq!(ts[0].data, vec![0x12, 0x34, 0xAB, 0xCD]);
    let px = vec![7u16; 9000];
    let ts = write_pixels(&px);
    assert_eq!(ts.iter().map(|t| t.data.len()).collect::<Vec<_>>(), vec![8000, 8000, 2000]);
    assert!(ts[1].command.is_none() && ts[2].address.is_none());
    let ts = stream_pixels(&px[..4000]);
    assert_eq!(ts.len(), 1);
    assert!(ts[0].command.is_none());
    assert!(begin_pixels().command == Some(0x32) && begin_pixels().data.is_empty());
    assert!(write_repeat(0xF800, 0).is_empty());
    let ts = write_repeat(0xF800, 4001);
    assert_eq!(ts.len(), 2);
    assert_eq!(ts[1].data, vec![0xF8, 0x00]);
    assert!(ts[0].command == Some(0x32) && ts[1].command.is_none());
    assert_eq!(ts[0].data.len(), 8000);
}

#[test]
fn panel_fill_rows_are_cut_and_doubled_for_one_line_areas() {
    let colors: Vec<u16> = (0..7).collect();
    assert_eq!(contiguous_rows(&colors, 3, false), vec![vec![0, 1, 2], vec![3, 4, 5], vec![6]]);
    assert_eq!(contiguous_rows(&colors[..3], 3, true), vec![vec![0, 1, 2], vec![0, 1, 2]]);
    assert!(contiguous_rows(&[], 5, false).is_empty());
    let wide: Vec<u16> = (0..300).collect();
    let rows = contiguous_rows(&wide, 200, false);
    assert_eq!(rows.len(), 2);
    assert_eq!(rows[0].len(), 128);
    assert_eq!(rows[1], (200..300).collect::<Vec<u16>>());
}

#[test]
fn panel_points_keep_only_points_on_the_panel() {
    let pts = panel_points(&[(0, 0, 1), (-1, 5, 2), (409, 501, 3), (410, 0, 4), (5, 502, 5)]);
    assert_eq!(pts, vec![(0, 0, 1), (409, 501, 3)]);
}
