use duckwatch::pcf85063a::{
    bcd_to_dec, days_to_date, dec_to_bcd, decode_date_time, encode_date_time, init_ctrl1, is_leap_year,
    is_summer_time, last_sunday_of_month, ntp_local_date_time, timezone_offset, unix_to_datetime, DateTime,
};

#[test]
fn bcd_round_trip_on_every_two_digit_value() {
    for v in 0u8..100 {
        assert_eq!(bcd_to_dec(dec_to_bcd(v)), v);
    }
    assert_eq!(dec_to_bcd(59), 0x59);
    assert_eq!(bcd_to_dec(0x23), 23);
}

#[test]
fn leap_years_follow_the_gregorian_rule() {
    assert!(is_leap_year(2000));
    assert!(is_leap_year(2024));
    assert!(!is_leap_year(1900));
    assert!(!is_leap_year(2023));
}

#[test]
fn days_since_epoch_become_dates() {
    assert_eq!(days_to_date(0), (1970, 1, 1));
    assert_eq!(days_to_date(19723), (2024, 1, 1));
    assert_eq!(days_to_date(11016), (2000, 2, 29));
    assert_eq!(days_to_date(-5), (1970, 1, (-4i32) as u32));
}

#[test]
fn unix_seconds_become_date_and_time() {
    assert_eq!(unix_to_datetime(0), (1970, 1, 1, 0, 0, 0));
    assert_eq!(unix_to_datetime(1_700_000_000), (2023, 11, 14, 22, 13, 20));
}

#[test]
fn summer_time_table_and_switch_hours() {
    assert_eq!(last_sunday_of_month(2025, 3), 30);
    assert_eq!(last_sunday_of_month(2025, 10), 26);
    assert_eq!(last_sunday_of_month(2030, 3), 31);
    assert!(!is_summer_time(2025, 3, 30, 1));
    assert!(is_summer_time(2025, 3, 30, 2));
    assert!(is_summer_time(2025, 7, 1, 0));
    assert!(is_summer_time(2025, 10, 26, 2));
    assert!(!is_summer_time(2025, 10, 26, 3));
    assert!(!is_summer_time(2025, 12, 1, 12));
}

#[test]
fn timezone_offset_is_one_or_two_hours() {
    assert_eq!(timezone_offset(1_735_689_600), 3600);
    assert_eq!(timezone_offset(1_751_371_200), 7200);
}

#[test]
fn ntp_reply_becomes_local_time() {
    assert_eq!(ntp_local_date_time(&[0u8; 47]), None);
    let mut reply = [0u8; 48];
    reply[40..44].copy_from_slice(&0xEC0E_4C40u32.to_be_bytes());
    let dt = ntp_local_date_time(&reply).unwrap();
    assert_eq!(dt, DateTime::new(25, 7, 1, 14, 0, 0));
}

#[test]
fn register_bytes_decode_to_a_date() {
    let regs = [0x80 | 0x45, 0x30, 0x23, 0x31, 0x05, 0x12, 0x24];
    let dt = decode_date_time(&regs);
    assert_eq!((dt.seconds, dt.minutes, dt.hours, dt.day, dt.weekday, dt.month, dt.year), (45, 30, 23, 31, 5, 12, 24));
}

#[test]
fn setting_the_clock_stops_writes_and_restarts() {
    let dt = DateTime::new(24, 12, 31, 23, 59, 58);
    let writes = encode_date_time(0x01, &dt);
    assert_eq!(
        writes,
        vec![
            (0x00, 0x21),
            (0x04, 0x58),
            (0x05, 0x59),
            (0x06, 0x23),
            (0x07, 0x31),
            (0x08, 0),
            (0x09, 0x12),
            (0x0A, 0x24),
            (0x00, 0x01),
        ]
    );
}

#[test]
fn start_up_clears_stop_and_twelve_hour_bits() {
    assert_eq!(init_ctrl1(0x24), Some(0x00));
    assert_eq!(init_ctrl1(0x21), Some(0x01));
    assert_eq!(init_ctrl1(0x01), None);
}
