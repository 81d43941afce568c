use stream_mirror::dash::{segment_numbers, Numbers};
use stream_mirror::duration::{count_segments, parse_iso8601_duration_seconds, Duration};

#[test]
fn minutes_and_seconds_add_up() {
    let d = parse_iso8601_duration_seconds("PT3M30S").unwrap();
    assert_eq!(d, Duration { ticks: 210, scale: 0 });
}

#[test]
fn hours_count_3600_seconds() {
    let d = parse_iso8601_duration_seconds("PT1H2M3S").unwrap();
    assert_eq!(d, Duration { ticks: 3723, scale: 0 });
}

#[test]
fn fractional_seconds_are_kept_exactly() {
    let d = parse_iso8601_duration_seconds("PT3M30.840S").unwrap();
    assert_eq!(d, Duration { ticks: 210_840, scale: 3 });
}

#[test]
fn fractional_hours_are_scaled_with_the_rest() {
    let d = parse_iso8601_duration_seconds("PT1.5H0.25S").unwrap();
    assert_eq!(d, Duration { ticks: 540_025, scale: 2 });
}

#[test]
fn a_number_may_start_or_end_with_its_dot() {
    assert_eq!(parse_iso8601_duration_seconds("PT.5S"), Some(Duration { ticks: 5, scale: 1 }));
    assert_eq!(parse_iso8601_duration_seconds("PT5.S"), Some(Duration { ticks: 5, scale: 0 }));
}

#[test]
fn a_later_field_replaces_an_earlier_one() {
    let d = parse_iso8601_duration_seconds("PT1H2H").unwrap();
    assert_eq!(d, Duration { ticks: 7200, scale: 0 });
}

#[test]
fn missing_prefix_is_not_a_duration() {
    assert_eq!(parse_iso8601_duration_seconds("3M30S"), None);
    assert_eq!(parse_iso8601_duration_seconds("P1DT1S"), None);
    assert_eq!(parse_iso8601_duration_seconds(""), None);
    assert_eq!(parse_iso8601_duration_seconds("P"), None);
}

#[test]
fn unknown_unit_is_not_a_duration() {
    assert_eq!(parse_iso8601_duration_seconds("PT5X"), None);
    assert_eq!(parse_iso8601_duration_seconds("PT5M3D"), None);
    assert_eq!(parse_iso8601_duration_seconds("PT5\u{e9}"), None);
}

#[test]
fn a_number_with_two_dots_is_not_a_duration() {
    assert_eq!(parse_iso8601_duration_seconds("PT1.2.3S"), None);
    assert_eq!(parse_iso8601_duration_seconds("PT.S"), None);
}

#[test]
fn reading_ends_with_the_text() {
    let zero = Duration { ticks: 0, scale: 0 };
    assert_eq!(parse_iso8601_duration_seconds("PT"), Some(zero));
    assert_eq!(parse_iso8601_duration_seconds("PT5"), Some(zero));
    assert_eq!(parse_iso8601_duration_seconds("PT5M3"), Some(Duration { ticks: 300, scale: 0 }));
}

#[test]
fn what_is_no_number_is_not_a_duration() {
    assert_eq!(parse_iso8601_duration_seconds("PTX"), None);
    assert_eq!(parse_iso8601_duration_seconds("PT10SX"), None);
    assert_eq!(parse_iso8601_duration_seconds("PT5MX3S"), None);
    assert_eq!(parse_iso8601_duration_seconds("PT 5S"), None);
    assert_eq!(parse_iso8601_duration_seconds("PTS"), None);
    assert_eq!(parse_iso8601_duration_seconds("PT5S "), None);
}

#[test]
fn units_count_by_their_letter() {
    assert_eq!(
        parse_iso8601_duration_seconds("PT3S2M1H"),
        Some(Duration { ticks: 3723, scale: 0 })
    );
    assert_eq!(parse_iso8601_duration_seconds("PT2M"), Some(Duration { ticks: 120, scale: 0 }));
}

#[test]
fn whole_seconds_beyond_64_bits_are_not_read() {
    assert_eq!(parse_iso8601_duration_seconds("PT18446744073709551616S"), None);
    assert_eq!(parse_iso8601_duration_seconds("PT18446744073709551615H"), None);
    assert_eq!(
        parse_iso8601_duration_seconds("PT999999999999999999999999999999999999999999999S"),
        None
    );
    assert_eq!(
        parse_iso8601_duration_seconds("PT18446744073709551615S"),
        Some(Duration { ticks: u64::MAX, scale: 0 })
    );
    assert_eq!(
        parse_iso8601_duration_seconds("PT18446744073709551615.9S"),
        Some(Duration { ticks: u64::MAX, scale: 0 })
    );
    assert_eq!(
        parse_iso8601_duration_seconds("PT999999999999999999999999999999999999999999999H1H"),
        Some(Duration { ticks: 3600, scale: 0 })
    );
}

#[test]
fn a_long_fraction_is_cut() {
    assert_eq!(
        parse_iso8601_duration_seconds("PT0.0000000000000000001S"),
        Some(Duration { ticks: 1, scale: 19 })
    );
    assert_eq!(
        parse_iso8601_duration_seconds("PT0.00000000000000000001S"),
        Some(Duration { ticks: 0, scale: 19 })
    );
    assert_eq!(
        parse_iso8601_duration_seconds("PT0.12345678901234567899999S"),
        Some(Duration { ticks: 1_234_567_890_123_456_789, scale: 19 })
    );
    assert_eq!(
        parse_iso8601_duration_seconds("PT2.0000000000000000000S"),
        Some(Duration { ticks: 2_000_000_000_000_000_000, scale: 18 })
    );
    assert_eq!(
        parse_iso8601_duration_seconds("PT1000000000H"),
        Some(Duration { ticks: 3_600_000_000_000, scale: 0 })
    );
    assert_eq!(
        parse_iso8601_duration_seconds("PT1000000000H0.123456789S"),
        Some(Duration { ticks: 3_600_000_000_000_123_456, scale: 6 })
    );
    assert_eq!(
        parse_iso8601_duration_seconds("PT999999999H999999999M999999999.5S"),
        Some(Duration { ticks: 36_609_999_963_395, scale: 1 })
    );
}

#[test]
fn ten_seconds_in_two_second_segments() {
    let total = parse_iso8601_duration_seconds("PT10S").unwrap();
    assert_eq!(count_segments(total, 2000, 1000), 5);
    assert_eq!(
        segment_numbers(1, None, Some(2000), 1000, Some(total)),
        Numbers::Through { first: 1, last: 5 }
    );
}

#[test]
fn three_and_a_half_minutes_in_ten_second_segments() {
    let total = parse_iso8601_duration_seconds("PT3M30S").unwrap();
    assert_eq!(count_segments(total, 10, 1), 21);
}

#[test]
fn a_started_segment_counts() {
    let total = parse_iso8601_duration_seconds("PT10.5S").unwrap();
    assert_eq!(count_segments(total, 2, 1), 6);
    let total = parse_iso8601_duration_seconds("PT0.3S").unwrap();
    assert_eq!(count_segments(total, 1, 10), 3);
    let total = parse_iso8601_duration_seconds("PT0.0000000000000000001S").unwrap();
    assert_eq!(count_segments(total, u64::MAX, 1), 1);
}

#[test]
fn an_end_number_decides_the_numbers() {
    let total = Some(Duration { ticks: 10, scale: 0 });
    assert_eq!(
        segment_numbers(3, Some(7), Some(2), 1, total),
        Numbers::Through { first: 3, last: 7 }
    );
    assert_eq!(segment_numbers(3, Some(3), None, 1, None), Numbers::Through { first: 3, last: 3 });
    assert_eq!(segment_numbers(3, Some(2), None, 1, None), Numbers::Nothing);
}

#[test]
fn numbers_are_unknown_without_lengths() {
    let total = Some(Duration { ticks: 10, scale: 0 });
    assert_eq!(segment_numbers(1, None, None, 1, total), Numbers::Unknown);
    assert_eq!(segment_numbers(1, None, Some(2), 1, None), Numbers::Unknown);
    assert_eq!(segment_numbers(1, None, Some(0), 1, total), Numbers::Unknown);
    assert_eq!(segment_numbers(1, None, Some(2), 0, total), Numbers::Unknown);
}

#[test]
fn numbers_start_at_the_start_number() {
    let total = Some(Duration { ticks: 10, scale: 0 });
    assert_eq!(
        segment_numbers(0, None, Some(2), 1, total),
        Numbers::Through { first: 0, last: 4 }
    );
    assert_eq!(
        segment_numbers(100, None, Some(3), 1, total),
        Numbers::Through { first: 100, last: 103 }
    );
    assert_eq!(
        segment_numbers(1, None, Some(2), 1, Some(Duration { ticks: 0, scale: 0 })),
        Numbers::Nothing
    );
}

#[test]
fn numbers_beyond_64_bits_are_unknown() {
    let total = Some(Duration { ticks: 10, scale: 0 });
    assert_eq!(segment_numbers(u64::MAX, None, Some(2), 1, total), Numbers::Unknown);
    assert_eq!(
        segment_numbers(u64::MAX - 4, None, Some(2), 1, total),
        Numbers::Through { first: u64::MAX - 4, last: u64::MAX }
    );
}
