use digital_duration_nom::duration::{
    double_digit_seconds, duration_parser, fractional, hour_prefix,
    hours_and_double_digit_minute_prefix, scale_from_length, single_digit,
    single_digit_minute_prefix, single_digit_seconds, without_decimal, zero_through_five,
    Duration, ParseDurationErr, ParseFractError,
};

fn parse(s: &str) -> Result<Duration, ParseDurationErr> {
    s.parse::<Duration>()
}

#[test]
fn parses_bare_seconds() {
    assert_eq!(parse("0"), Ok(Duration::new(0, 0)));
    assert_eq!(parse("1"), Ok(Duration::new(1, 0)));
    assert_eq!(parse("05"), Ok(Duration::new(5, 0)));
    assert_eq!(parse("10"), Ok(Duration::new(10, 0)));
    assert_eq!(parse("59"), Ok(Duration::new(59, 0)));
}

#[test]
fn parses_minutes_and_seconds() {
    assert_eq!(parse("8:22"), Ok(Duration::new(502, 0)));
    assert_eq!(parse("11:06"), Ok(Duration::new(666, 0)));
    assert_eq!(parse("9:12"), Ok(Duration::new(552, 0)));
    assert_eq!(parse("00:00"), Ok(Duration::new(0, 0)));
    assert_eq!(parse("59:59"), Ok(Duration::new(3599, 0)));
}

#[test]
fn parses_hours_minutes_seconds_and_fraction() {
    assert_eq!(
        parse("2:25:36.7"),
        Ok(Duration::new(2 * 3600 + 25 * 60 + 36, 700_000_000))
    );
    assert_eq!(parse("2:25:36"), Ok(Duration::new(8736, 0)));
    assert_eq!(parse("100:00:00"), Ok(Duration::new(360_000, 0)));
    assert_eq!(parse("007:00:00"), Ok(Duration::new(25_200, 0)));
}

#[test]
fn parses_fraction_at_its_own_place() {
    assert_eq!(parse("20:29.817"), Ok(Duration::new(20 * 60 + 29, 817_000_000)));
    assert_eq!(parse("20:29.8"), Ok(Duration::new(1229, 800_000_000)));
    assert_eq!(parse("0.05"), Ok(Duration::new(0, 50_000_000)));
    assert_eq!(parse("1.123456789"), Ok(Duration::new(1, 123_456_789)));
    assert_eq!(parse("1.000000001"), Ok(Duration::new(1, 1)));
    assert_eq!(parse("1.0"), Ok(Duration::new(1, 0)));
}

#[test]
fn trailing_characters_are_told_from_no_match() {
    assert_eq!(parse("8:22x"), Err(ParseDurationErr::LeftoverCharacters));
    assert_eq!(parse("8:22 "), Err(ParseDurationErr::LeftoverCharacters));
    assert_eq!(parse("1."), Err(ParseDurationErr::LeftoverCharacters));
    assert_eq!(parse("1.x"), Err(ParseDurationErr::LeftoverCharacters));
    assert_eq!(parse("8:22\u{e9}"), Err(ParseDurationErr::LeftoverCharacters));
    assert_eq!(duration_parser("8:22x").unwrap().0, "x");
    assert_eq!(duration_parser("8:22\u{e9}t\u{e9}").unwrap().0, "\u{e9}t\u{e9}");
}

#[test]
fn no_match_is_unspecified() {
    assert_eq!(parse(""), Err(ParseDurationErr::Unspecified));
    assert_eq!(parse("x"), Err(ParseDurationErr::Unspecified));
    assert_eq!(parse(":"), Err(ParseDurationErr::Unspecified));
    assert_eq!(parse(".5"), Err(ParseDurationErr::Unspecified));
    assert_eq!(parse(" 5"), Err(ParseDurationErr::Unspecified));
    assert_eq!(parse("-5"), Err(ParseDurationErr::Unspecified));
    assert_eq!(parse("\u{ff11}\u{ff12}"), Err(ParseDurationErr::Unspecified));
    assert!(duration_parser("").is_none());
}

#[test]
fn fraction_of_ten_digits_fails() {
    assert_eq!(parse("1.1234567890"), Err(ParseDurationErr::Unspecified));
    assert_eq!(parse("2:25:36.0000000000"), Err(ParseDurationErr::Unspecified));
    assert!(duration_parser("1.1234567890").is_none());
    assert!(duration_parser("1.12345678901234567890123").is_none());
    assert_eq!(
        fractional(".1234567890"),
        Err(ParseFractError::TooMuchPrecision)
    );
    assert_eq!(
        fractional(".1234567890x"),
        Err(ParseFractError::TooMuchPrecision)
    );
}

#[test]
fn fraction_needs_a_point_and_a_digit() {
    assert_eq!(fractional(""), Err(ParseFractError::NoFraction));
    assert_eq!(fractional("9"), Err(ParseFractError::NoFraction));
    assert_eq!(fractional("."), Err(ParseFractError::NoFraction));
    assert_eq!(fractional(".x"), Err(ParseFractError::NoFraction));
    assert_eq!(fractional(".817x"), Ok(("x", Duration::new(0, 817_000_000))));
    assert_eq!(
        fractional(".123456789"),
        Ok(("", Duration::new(0, 123_456_789)))
    );
}

#[test]
fn scale_is_the_weight_of_the_last_digit() {
    assert_eq!(scale_from_length(0), Ok(1_000_000_000));
    assert_eq!(scale_from_length(1), Ok(100_000_000));
    assert_eq!(scale_from_length(3), Ok(1_000_000));
    assert_eq!(scale_from_length(9), Ok(1));
    assert_eq!(scale_from_length(10), Err(ParseFractError::TooMuchPrecision));
    assert_eq!(
        scale_from_length(usize::MAX),
        Err(ParseFractError::TooMuchPrecision)
    );
}

#[test]
fn seconds_field_is_below_sixty() {
    assert_eq!(parse("60"), Err(ParseDurationErr::LeftoverCharacters));
    assert_eq!(duration_parser("60"), Some(("0", Duration::new(6, 0))));
    assert_eq!(parse("5:60"), Err(ParseDurationErr::LeftoverCharacters));
    assert_eq!(duration_parser("5:60"), Some((":60", Duration::new(5, 0))));
    assert_eq!(parse("1:60:00"), Err(ParseDurationErr::LeftoverCharacters));
    assert!(double_digit_seconds("60").is_none());
    assert_eq!(double_digit_seconds("599"), Some(("9", Duration::new(59, 0))));
}

#[test]
fn a_prefix_commits_the_seconds_to_two_digits() {
    assert_eq!(parse("12:5"), Err(ParseDurationErr::LeftoverCharacters));
    assert_eq!(duration_parser("12:5"), Some(("2:5", Duration::new(1, 0))));
    assert_eq!(parse("1:2:03"), Err(ParseDurationErr::LeftoverCharacters));
    assert_eq!(without_decimal("5"), Some(("", Duration::new(5, 0))));
    assert_eq!(without_decimal("123"), Some(("3", Duration::new(12, 0))));
}

#[test]
fn the_leading_field_of_three_is_hours() {
    assert_eq!(parse("1:00:00"), Ok(Duration::new(3600, 0)));
    assert_eq!(parse("25:00:00"), Ok(Duration::new(90_000, 0)));
    assert_eq!(
        hours_and_double_digit_minute_prefix("3:07:"),
        Some(("", Duration::new(3 * 3600 + 7 * 60, 0)))
    );
    assert!(hours_and_double_digit_minute_prefix("3:7:").is_none());
    assert!(hours_and_double_digit_minute_prefix("3:60:").is_none());
    assert_eq!(
        single_digit_minute_prefix("7:30"),
        Some(("30", Duration::new(420, 0)))
    );
}

#[test]
fn hours_go_up_to_what_a_duration_holds() {
    assert_eq!(
        parse("5124095576030431:00:15"),
        Ok(Duration::new(u64::MAX, 0))
    );
    assert_eq!(
        parse("5124095576030431:00:15.999999999"),
        Ok(Duration::new(u64::MAX, 999_999_999))
    );
    assert_eq!(
        parse("5124095576030431:00:16"),
        Err(ParseDurationErr::LeftoverCharacters)
    );
    assert_eq!(
        parse("5124095576030432:00:00"),
        Err(ParseDurationErr::LeftoverCharacters)
    );
    assert!(hour_prefix("5124095576030432:").is_none());
    assert!(hour_prefix("99999999999999999999999999:").is_none());
    assert_eq!(
        hour_prefix("5124095576030431:"),
        Some(("", Duration::new(5_124_095_576_030_431 * 3600, 0)))
    );
}

#[test]
fn digits_are_split_off_with_what_follows() {
    assert_eq!(
        hour_prefix("123:rest"),
        Some(("rest", Duration::new(123 * 3600, 0)))
    );
    assert!(hour_prefix("123").is_none());
    assert!(hour_prefix(":12").is_none());
    assert!(hour_prefix("12x:").is_none());
    assert_eq!(single_digit("7x"), Some(("x", 7)));
    assert_eq!(single_digit("07"), Some(("7", 0)));
    assert!(single_digit("x7").is_none());
    assert!(single_digit("").is_none());
    assert_eq!(zero_through_five("5"), Some(("", 5)));
    assert_eq!(zero_through_five("09"), Some(("9", 0)));
    assert!(zero_through_five("6").is_none());
    assert_eq!(single_digit_seconds("9:"), Some((":", Duration::new(9, 0))));
}

#[test]
fn errors_in_words() {
    assert_eq!(ParseDurationErr::Unspecified.to_string(), "Unspecified error");
    assert_eq!(
        ParseDurationErr::LeftoverCharacters.to_string(),
        "Leftover characters"
    );
}
