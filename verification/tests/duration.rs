use digital_duration_nom::duration::{
    double_digit_minute_prefix, duration_parser, fractional, hour_and_minute_prefix, hour_prefix,
    minute_prefix, prefix_and_double_digit_seconds, Alignment, Duration,
};

const SECONDS_IN_MINUTE: u64 = 60;
const MINUTES_IN_HOUR: u64 = 60;
const SECONDS_IN_HOUR: u64 = MINUTES_IN_HOUR * SECONDS_IN_MINUTE;
const NANOSECONDS_IN_SECOND: u32 = 1_000_000_000;
const TENTHS_IN_NANOSECOND: u32 = NANOSECONDS_IN_SECOND / 10;
const MILLIS_IN_NANOSECOND: u32 = NANOSECONDS_IN_SECOND / 1_000;

#[test]
fn test_display() {
    assert_eq!(Duration::new(35, 0).fmt(7, 0, Alignment::Left), "35     ");
    assert_eq!(Duration::new(35, 0).fmt(7, 0, Alignment::Right), "     35");
    assert_eq!(Duration::new(35, 0).fmt(7, 0, Alignment::Right), "     35");
    assert_eq!(Duration::new_min_sec(49, 32).fmt(7, 0, Alignment::Right), "  49:32");
    assert_eq!(
        Duration::new_min_sec_tenths(9, 12, 3).fmt(7, 1, Alignment::Right),
        " 9:12.3"
    );
}

#[test]
fn test_hour_prefix() {
    assert_eq!(Duration::new(3600, 0), hour_prefix("1:").unwrap().1);
    assert_eq!(Duration::new(36000, 0), hour_prefix("10:").unwrap().1);
}

#[test]
fn test_double_digit_minute_prefix() {
    assert_eq!(
        Duration::new(11 * SECONDS_IN_MINUTE, 0),
        double_digit_minute_prefix("11:06").unwrap().1
    );
}

#[test]
fn test_fractional() {
    assert_eq!(Duration::new(0, 900_000_000), fractional(".9").unwrap().1);
    assert_eq!(
        Duration::new(1, 0),
        fractional(".9").unwrap().1 + fractional(".1").unwrap().1
    );
}

#[test]
fn test_hour_and_minute_prefix() {
    assert_eq!(
        Duration::new(11 * SECONDS_IN_MINUTE, 0),
        hour_and_minute_prefix("11:06").unwrap().1
    );
}

#[test]
fn test_minute_prefix() {
    assert_eq!(
        Duration::new(11 * SECONDS_IN_MINUTE, 0),
        minute_prefix("11:06").unwrap().1
    );
}

#[test]
fn test_prefix_and_double_digit_seconds() {
    assert_eq!(
        Duration::new(11 * SECONDS_IN_MINUTE + 6, 0),
        prefix_and_double_digit_seconds("11:06").unwrap().1
    );
}

#[test]
fn test_duration_parser() {
    assert_eq!(
        Duration::new(8 * SECONDS_IN_MINUTE + 22, 0),
        duration_parser("8:22").unwrap().1
    );

    assert_eq!(
        Duration::new(1 * SECONDS_IN_MINUTE + 15, 3 * TENTHS_IN_NANOSECOND),
        duration_parser("1:15.3").unwrap().1
    );

    assert_eq!(
        Duration::new(2 * SECONDS_IN_HOUR + 25 * SECONDS_IN_MINUTE + 36, 0),
        duration_parser("2:25:36").unwrap().1
    );

    assert_eq!(
        Duration::new(
            2 * SECONDS_IN_HOUR + 25 * SECONDS_IN_MINUTE + 36,
            7 * TENTHS_IN_NANOSECOND
        ),
        duration_parser("2:25:36.7").unwrap().1
    );

    assert_eq!(
        Duration::new(20 * SECONDS_IN_MINUTE + 29, 8 * TENTHS_IN_NANOSECOND),
        duration_parser("20:29.8").unwrap().1
    );

    assert_eq!(
        Duration::new(20 * SECONDS_IN_MINUTE + 29, 817 * MILLIS_IN_NANOSECOND),
        duration_parser("20:29.817").unwrap().1
    );

    assert_eq!(
        Duration::new(11 * SECONDS_IN_MINUTE + 6, 0),
        duration_parser("11:06").unwrap().1
    );

    assert_eq!(Duration::new(0, 0), duration_parser("0").unwrap().1);

    assert_eq!(Duration::new(1, 0), duration_parser("1").unwrap().1);

    assert_eq!(Duration::new(5, 0), duration_parser("05").unwrap().1);

    assert_eq!(Duration::new(10, 0), duration_parser("10").unwrap().1);

    assert_eq!(
        Duration::new(8 * SECONDS_IN_MINUTE + 1, 6 * TENTHS_IN_NANOSECOND),
        duration_parser("8:01.6").unwrap().1
    );
}
