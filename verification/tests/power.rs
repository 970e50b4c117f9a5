use duckwatch::axp2101::{
    clear_bit, get_bit, set_bit, Axp2101, Axp2101Config, ChargeStatus, Error, KeyDurationIrq, KeyDurationPowerOff,
    KeyDurationPowerOn,
};
use duckwatch::cpu_clock::set_cpu_mhz;
use duckwatch::png::{draw_png, draw_png_scaled, from_rgb888, Png, PngError};

const RGB_2X1: [u8; 70] = [
    137, 80, 78, 71, 13, 10, 26, 10, 0, 0, 0, 13, 73, 72, 68, 82, 0, 0, 0, 2, 0, 0, 0, 1, 8, 2, 0, 0, 0, 123, 64,
    232, 221, 0, 0, 0, 13, 73, 68, 65, 84, 120, 156, 99, 248, 207, 0, 4, 255, 1, 7, 0, 1, 255, 226, 35, 158, 89, 0,
    0, 0, 0, 73, 69, 78, 68, 174, 66, 96, 130,
];

const RGBA_2X1: [u8; 74] = [
    137, 80, 78, 71, 13, 10, 26, 10, 0, 0, 0, 13, 73, 72, 68, 82, 0, 0, 0, 2, 0, 0, 0, 1, 8, 6, 0, 0, 0, 244, 34,
    127, 138, 0, 0, 0, 17, 73, 68, 65, 84, 120, 156, 99, 96, 248, 207, 240, 159, 147, 147, 147, 1, 0, 12, 78, 2, 26,
    82, 85, 112, 223, 0, 0, 0, 0, 73, 69, 78, 68, 174, 66, 96, 130,
];

#[test]
fn rgb_png_decodes_to_rgb565_pixels() {
    let png = Png::load_from_bytes(&RGB_2X1).ok().unwrap();
    assert_eq!((png.width(), png.height()), (2, 1));
    assert_eq!(png.pixels(), &[Some(0xF800), Some(0x001F)]);
}

#[test]
fn transparent_pixels_are_left_out() {
    let png = Png::load_from_bytes(&RGBA_2X1).ok().unwrap();
    assert_eq!(png.pixels(), &[Some(0x07E0), None]);
}

#[test]
fn broken_png_is_refused() {
    assert!(Png::load_from_bytes(&RGB_2X1[..40]).err() == Some(PngError));
    assert!(Png::load_from_bytes(b"not a png").is_err());
}

#[test]
fn rgb888_keeps_the_top_bits() {
    assert_eq!(from_rgb888(0xFFFFFF), 0xFFFF);
    assert_eq!(from_rgb888(0xFF0000), 0xF800);
    assert_eq!(from_rgb888(0x00FF00), 0x07E0);
    assert_eq!(from_rgb888(0x0000FF), 0x001F);
    assert_eq!(from_rgb888(0x070307), 0);
}

#[test]
fn bit_helpers() {
    assert_eq!(set_bit(0b1000, 0), 0b1001);
    assert_eq!(clear_bit(0b1001, 3), 0b0001);
    assert!(get_bit(0b0100, 2));
    assert!(!get_bit(0b0100, 1));
}

#[test]
fn rail_voltages_are_coded_in_hundred_millivolt_steps() {
    let pmu = Axp2101::new();
    assert!(pmu.set_dc1_voltage::<()>(3300) == Ok(18));
    assert!(pmu.set_dc1_voltage::<()>(1500) == Ok(0));
    assert!(pmu.set_dc1_voltage::<()>(3450) == Err(Error::InvalidVoltage));
    assert!(pmu.set_dc1_voltage::<()>(1400) == Err(Error::InvalidVoltage));
    assert!(pmu.set_aldo1_voltage::<()>(500) == Ok(0));
    assert!(pmu.set_aldo1_voltage::<()>(3550) == Err(Error::InvalidVoltage));
    assert_eq!(pmu.get_dc1_voltage(18), 3300);
    assert_eq!(pmu.get_aldo1_voltage(28), 3300);
}

#[test]
fn adc_readings_and_status_bits() {
    let pmu = Axp2101::new();
    assert_eq!(pmu.get_battery_voltage_raw(0xC1, 0x00), 0x100);
    assert_eq!(pmu.get_battery_voltage(0x0E, 0x10), 0xE10 * 11 / 10);
    assert!(pmu.is_vbus_in(0x20));
    assert!(!pmu.is_vbus_in(0xDF));
    assert!(pmu.get_charge_status(0x00) == ChargeStatus::NotCharging);
    assert!(pmu.get_charge_status(0x60) == ChargeStatus::Charging);
    assert!(pmu.get_charge_status(0x80) == ChargeStatus::ChargingDone);
    assert!(pmu.get_charge_status(0xE0) == ChargeStatus::Unknown);
    assert!(pmu.is_charging(0x20));
    assert!(!pmu.is_charging(0x80));
}

#[test]
fn power_writes() {
    let pmu = Axp2101::new();
    assert_eq!(pmu.shutdown(0x01), (0x32, 0x81));
    assert_eq!(pmu.restart(0x01), (0x32, 0x41));
    assert_eq!(pmu.prepare_deep_sleep(0x00, 0x10, 0xFF), vec![(0x31, 0x08), (0x90, 0x17), (0x82, 0x00), (0x12, 0xA1)]);
    assert_eq!(pmu.enable_dc1(0x10), (0x80, 0x11));
    assert_eq!(pmu.disable_dc1(0x11), (0x80, 0x10));
    assert!(pmu.is_dc1_enabled(0x01));
}

#[test]
fn start_up_writes() {
    let pmu = Axp2101::new();
    let writes = pmu.init(&Axp2101Config::default(), 0x00, 0x00, 0xFF);
    assert_eq!(
        writes,
        vec![
            (0x82, 18),
            (0x80, 0x01),
            (0x92, 28),
            (0x90, 0x01),
            (0x40, 0x00),
            (0x41, 0x00),
            (0x42, 0x00),
            (0x48, 0xFF),
            (0x49, 0xFF),
            (0x4A, 0xFF),
            (0x30, 0x0D),
            (0x27, 0xC5),
        ]
    );
}

#[test]
fn key_durations_round_trip_through_their_register() {
    let pmu = Axp2101::new();
    let reg = pmu.set_key_duration_irq(0x00, KeyDurationIrq::T2500MS);
    let reg = pmu.set_key_duration_power_off(reg, KeyDurationPowerOff::T8S);
    let reg = pmu.set_key_duration_power_on(reg, KeyDurationPowerOn::T2000MS);
    assert_eq!(reg, 0b0011_1011);
    assert!(pmu.key_duration_irq(reg) == KeyDurationIrq::T2500MS);
    assert!(pmu.key_duration_power_off(reg) == KeyDurationPowerOff::T8S);
    assert!(pmu.key_duration_power_on(reg) == KeyDurationPowerOn::T2000MS);
    assert!(KeyDurationIrq::from_bits(KeyDurationIrq::T1500MS.bits()) == KeyDurationIrq::T1500MS);
}

#[test]
fn images_are_placed_pixel_by_pixel_or_shrunk() {
    let rgb = Png::load_from_bytes(&RGB_2X1).ok().unwrap();
    assert_eq!(draw_png(&rgb, 5, 7), vec![(5, 7, 0xF800), (6, 7, 0x001F)]);
    assert_eq!(draw_png(&rgb, -1, -1), vec![(-1, -1, 0xF800), (0, -1, 0x001F)]);
    assert_eq!(draw_png_scaled(&rgb, 5, 7, 0), draw_png(&rgb, 5, 7));
    assert_eq!(draw_png_scaled(&rgb, 5, 7, 1), draw_png(&rgb, 5, 7));
    assert_eq!(draw_png_scaled(&rgb, 5, 7, 2), vec![(5, 7, 0xF800)]);
    let rgba = Png::load_from_bytes(&RGBA_2X1).ok().unwrap();
    assert_eq!(draw_png(&rgba, 0, 0), vec![(0, 0, 0x07E0)]);
    assert_eq!(draw_png_scaled(&rgba, 0, 0, 3), vec![(0, 0, 0x07E0)]);
}

#[test]
fn cpu_speed_requests_round_up_to_a_supported_speed() {
    assert_eq!(set_cpu_mhz(0, 0, 0), (0x4000, 4, 80));
    assert_eq!(set_cpu_mhz(80, 0, 0).2, 80);
    assert_eq!(set_cpu_mhz(100, 0xFFFF_FFFF, 0), (0xFFFF_7FFF, 5, 160));
    assert_eq!(set_cpu_mhz(160, 0, 0xFFFF_FFF8).1, 0xFFFF_FFFD);
    assert_eq!(set_cpu_mhz(161, 0x8000, 0x3), (0x4000, 6, 240));
    assert_eq!(set_cpu_mhz(u16::MAX, 0, 0).2, 240);
}
