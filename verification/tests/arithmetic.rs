use digital_duration_nom::duration::Duration;

#[test]
fn new_carries_whole_seconds() {
    assert_eq!(Duration::new(1, 1_500_000_000), Duration::new(2, 500_000_000));
    assert_eq!(Duration::new(0, 4_000_000_000), Duration::new(4, 0));
    assert_eq!(Duration::new(1, 999_999_999).as_secs(), 1);
    assert_eq!(Duration::new(1, 999_999_999).subsec_nanos(), 999_999_999);
    assert_eq!(Duration::new(1, 999_999_999).subsec_millis(), 999);
    assert_eq!(Duration::from_secs(7), Duration::new(7, 0));
}

#[test]
fn built_from_fields() {
    assert_eq!(Duration::new_hour_min_sec(2, 25, 36), Duration::new(8736, 0));
    assert_eq!(Duration::new_min_sec(49, 32), Duration::new(2972, 0));
    assert_eq!(
        Duration::new_min_sec_tenths(9, 12, 3),
        Duration::new(552, 300_000_000)
    );
    assert_eq!(Duration::new_min_sec(1, 75), Duration::new(135, 0));
    assert_eq!(
        Duration::new_min_sec_tenths(0, 0, 25),
        Duration::new(2, 500_000_000)
    );
}

#[test]
fn sums_carry_the_nanoseconds() {
    let a: Duration = Duration::new(1, 900_000_000);
    let b: Duration = Duration::new(2, 200_000_000);
    assert_eq!(a + b, Duration::new(4, 100_000_000));
    let mut c: Duration = a;
    c += b;
    assert_eq!(c, Duration::new(4, 100_000_000));
    assert_eq!(a.checked_add(b), Some(Duration::new(4, 100_000_000)));
    assert_eq!(
        Duration::new(u64::MAX, 999_999_999).checked_add(Duration::new(0, 1)),
        None
    );
    assert_eq!(
        Duration::new(u64::MAX, 0).checked_add(Duration::new(0, 999_999_999)),
        Some(Duration::new(u64::MAX, 999_999_999))
    );
    assert_eq!(Duration::new(u64::MAX, 0).checked_add(Duration::new(1, 0)), None);
}

#[test]
fn sum_of_a_slice() {
    let items: Vec<Duration> = vec![
        Duration::new(1, 500_000_000),
        Duration::new(2, 500_000_000),
        Duration::new(0, 250_000_000),
    ];
    assert_eq!(Duration::sum(&items), Duration::new(4, 250_000_000));
    let none: Vec<Duration> = Vec::new();
    assert_eq!(Duration::sum(&none), Duration::new(0, 0));
    let small: Vec<Duration> = vec![Duration::new(1, 100), Duration::new(2, 200)];
    assert_eq!(Duration::sum(&small), Duration::new(3, 300));
}

#[test]
fn division_rounds_down_to_the_nanosecond() {
    assert_eq!(Duration::new(10, 0) / 4, Duration::new(2, 500_000_000));
    assert_eq!(Duration::new(1, 0) / 3, Duration::new(0, 333_333_333));
    assert_eq!(Duration::new(7, 500_000_000) / 1, Duration::new(7, 500_000_000));
    assert_eq!(
        Duration::new(u64::MAX, 999_999_999) / u32::MAX,
        Duration::new(4_294_967_297, 0)
    );
    assert_eq!(
        Duration::new(u64::MAX, 999_999_999) / 2,
        Duration::new(9_223_372_036_854_775_807, 999_999_999)
    );
    assert_eq!(Duration::new(0, 5) / 10, Duration::new(0, 0));
}

#[test]
fn ordered_by_seconds_then_nanoseconds() {
    assert!(Duration::new(1, 999_999_999) < Duration::new(2, 0));
    assert!(Duration::new(2, 1) > Duration::new(2, 0));
    assert!(Duration::new(2, 0) <= Duration::new(2, 0));
    assert_eq!(
        Duration::new(2, 0).partial_cmp(&Duration::new(2, 0)),
        Some(std::cmp::Ordering::Equal)
    );
    assert_eq!(
        Duration::new(1, 5).cmp(&Duration::new(1, 6)),
        std::cmp::Ordering::Less
    );
    let mut items: Vec<Duration> = vec![
        Duration::new(3, 0),
        Duration::new(1, 7),
        Duration::new(1, 2),
    ];
    items.sort();
    assert_eq!(
        items,
        vec![Duration::new(1, 2), Duration::new(1, 7), Duration::new(3, 0)]
    );
}
