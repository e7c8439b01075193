use solar_system_sim::epoch::{
    default_epoch, format_epoch_short, instant_of, parse_civil, parse_epoch, shorten_fraction,
    CivilTime, EpochParseError, UtcInstant, EARLIEST_NANOS, FIRST_YEAR, LAST_YEAR, LATEST_NANOS,
};

fn civil(year: i32, month: u8, day: u8, hour: u8, minute: u8, second: u8) -> CivilTime {
    CivilTime { year, month, day, hour, minute, second }
}

const SECOND: i128 = 1_000_000_000;

#[test]
fn a_date_alone_is_noon() {
    assert_eq!(parse_civil("2025-12-25"), Ok(civil(2025, 12, 25, 12, 0, 0)));
}

#[test]
fn a_date_with_a_time() {
    assert_eq!(parse_civil("2025-12-25T18:30:00"), Ok(civil(2025, 12, 25, 18, 30, 0)));
    assert_eq!(parse_civil("2025-12-25T18:30"), Ok(civil(2025, 12, 25, 18, 30, 0)));
    assert_eq!(parse_civil("2025-12-25T18"), Ok(civil(2025, 12, 25, 18, 0, 0)));
}

#[test]
fn what_follows_the_seconds_or_a_second_t_is_passed_over() {
    assert_eq!(parse_civil("2025-12-25T18:30:05:99"), Ok(civil(2025, 12, 25, 18, 30, 5)));
    assert_eq!(parse_civil("2025-12-25T18:30:05Tx"), Ok(civil(2025, 12, 25, 18, 30, 5)));
}

#[test]
fn a_part_of_the_date_that_is_no_number() {
    assert_eq!(parse_civil("2025-XII-25"), Err(EpochParseError::DateNumber));
    assert_eq!(parse_civil(""), Err(EpochParseError::DateNumber));
    assert_eq!(parse_civil("-2025-01-01"), Err(EpochParseError::DateNumber));
    assert_eq!(parse_civil("4294967296-01-01"), Err(EpochParseError::DateNumber));
}

#[test]
fn a_date_of_other_than_three_parts() {
    assert_eq!(parse_civil("2025-12"), Err(EpochParseError::DateParts));
    assert_eq!(parse_civil("2025-12-25-1"), Err(EpochParseError::DateParts));
}

#[test]
fn a_part_of_the_time_that_is_no_number() {
    assert_eq!(parse_civil("2025-12-25T18:30:00.5"), Err(EpochParseError::TimeNumber));
    assert_eq!(parse_civil("2025-12-25T"), Err(EpochParseError::TimeNumber));
}

#[test]
fn numbers_are_cut_to_what_their_field_holds() {
    assert_eq!(parse_civil("+2025-268-281T36:0:0"), Ok(civil(2025, 12, 25, 36, 0, 0)));
    assert_eq!(parse_civil("4294967295-01-01"), Ok(civil(-1, 1, 1, 12, 0, 0)));
}

#[test]
fn the_calendar_tells_which_times_there_are() {
    assert!(civil(2024, 2, 29, 0, 0, 0).is_valid());
    assert!(!civil(2023, 2, 29, 0, 0, 0).is_valid());
    assert!(!civil(2023, 13, 1, 0, 0, 0).is_valid());
    assert!(!civil(2023, 0, 1, 0, 0, 0).is_valid());
    assert!(!civil(2023, 4, 31, 0, 0, 0).is_valid());
    assert!(!civil(2023, 4, 0, 0, 0, 0).is_valid());
    assert!(civil(2023, 4, 30, 24, 0, 0).is_valid());
    assert!(!civil(2023, 4, 30, 25, 0, 0).is_valid());
    assert!(!civil(2023, 4, 30, 23, 60, 0).is_valid());
    assert!(civil(2016, 12, 31, 23, 59, 60).is_valid());
    assert!(!civil(2017, 12, 31, 23, 59, 60).is_valid());
    assert!(civil(2015, 6, 30, 23, 59, 60).is_valid());
    assert!(civil(FIRST_YEAR, 1, 1, 0, 0, 0).is_valid());
    assert!(!civil(FIRST_YEAR - 1, 1, 1, 0, 0, 0).is_valid());
    assert!(civil(LAST_YEAR, 1, 1, 0, 0, 0).is_valid());
    assert!(!civil(LAST_YEAR + 1, 1, 1, 0, 0, 0).is_valid());
    assert!(!civil(i32::MAX, 12, 31, 23, 59, 59).is_valid());
    assert!(!civil(i32::MIN, 12, 31, 23, 59, 59).is_valid());
    assert!(!civil(2016, 12, 31, 23, 59, 61).is_valid());
}

#[test]
fn leap_seconds_ended_some_junes_and_decembers() {
    let june = [1972, 1981, 1982, 1983, 1985, 1992, 1993, 1994, 1997, 2012, 2015];
    let december = [
        1971, 1972, 1973, 1974, 1975, 1976, 1977, 1978, 1979, 1987, 1989, 1990, 1995, 1998, 2005,
        2008, 2016,
    ];
    for year in 1960..2030 {
        assert_eq!(civil(year, 6, 30, 23, 59, 60).is_valid(), june.contains(&year));
        assert_eq!(civil(year, 12, 31, 23, 59, 60).is_valid(), december.contains(&year));
        assert!(!civil(year, 12, 30, 23, 59, 60).is_valid());
    }
}

#[test]
fn instants_count_from_1900() {
    assert_eq!(instant_of(civil(1900, 1, 1, 0, 0, 0)).utc_nanos, 0);
    assert_eq!(instant_of(civil(1899, 12, 31, 23, 59, 59)).utc_nanos, -SECOND);
    assert_eq!(instant_of(civil(1970, 1, 1, 0, 0, 0)).utc_nanos, 25_567 * 86_400 * SECOND);
    assert_eq!(default_epoch().utc_nanos, 3_959_496_000 * SECOND);
    assert_eq!(parse_epoch("2025-06-21"), Ok(default_epoch()));
}

#[test]
fn far_years_are_counted_without_loss() {
    // 400 years hold 146,097 days.
    let cycles: i128 = 8000;
    assert_eq!(
        instant_of(civil(1900 + 400 * 8000, 1, 1, 0, 0, 0)).utc_nanos,
        cycles * 146_097 * 86_400 * SECOND
    );
    assert_eq!(
        instant_of(civil(1900 - 400 * 8000, 1, 1, 0, 0, 0)).utc_nanos,
        -cycles * 146_097 * 86_400 * SECOND
    );
}

#[test]
fn instants_stop_at_the_earliest_and_the_latest() {
    let last = civil(3278767, 4, 16, 0, 0, 0);
    assert_eq!(instant_of(last).utc_nanos, LATEST_NANOS);
    assert_eq!(instant_of(civil(3278767, 4, 16, 0, 0, 1)).utc_nanos, LATEST_NANOS);
    assert_eq!(instant_of(civil(4_000_000, 7, 1, 12, 0, 0)).utc_nanos, LATEST_NANOS);
    assert_eq!(instant_of(civil(LAST_YEAR, 12, 31, 23, 59, 59)).utc_nanos, LATEST_NANOS);
    let before = civil(3278767, 4, 15, 23, 59, 59);
    assert_eq!(instant_of(before).utc_nanos, LATEST_NANOS - SECOND);
    let shown = format_epoch_short(&UtcInstant { utc_nanos: LATEST_NANOS - 1 });
    assert_eq!(shown, "3278767-04-15T23:59:59.999 UTC");
    let two_days = 2 * 86_400 * SECOND;
    assert_eq!(instant_of(civil(FIRST_YEAR, 1, 3, 0, 0, 0)).utc_nanos, EARLIEST_NANOS + two_days);
    // The earliest instant lies in the middle of the year -3274968.
    let start = civil(-3274968, 1, 3, 0, 0, 0);
    assert_eq!(instant_of(start).utc_nanos, EARLIEST_NANOS + two_days);
    let next = civil(-3274967, 1, 1, 0, 0, 0);
    let days = 105;
    assert_eq!(instant_of(next).utc_nanos, EARLIEST_NANOS + days * 86_400 * SECOND);
}

#[test]
fn a_leap_second_shares_the_place_of_the_one_before() {
    let last = instant_of(civil(2016, 12, 31, 23, 59, 59));
    assert_eq!(instant_of(civil(2016, 12, 31, 23, 59, 60)), last);
    assert_eq!(instant_of(civil(2017, 1, 1, 0, 0, 0)).utc_nanos, last.utc_nanos + SECOND);
}

#[test]
fn errors_come_through_to_the_epoch() {
    assert_eq!(parse_epoch("yesterday"), Err(EpochParseError::DateNumber));
}

#[test]
fn an_epoch_is_shown_with_its_scale() {
    assert_eq!(format_epoch_short(&default_epoch()), "2025-06-21T12:00:00 UTC");
    let early = instant_of(civil(7, 3, 4, 5, 6, 8));
    assert_eq!(format_epoch_short(&early), "0007-03-04T05:06:08 UTC");
}

#[test]
fn a_year_before_zero_is_shown_with_its_sign() {
    let short = instant_of(civil(-7, 3, 4, 5, 6, 8));
    assert_eq!(format_epoch_short(&short), "-007-03-04T05:06:08 UTC");
    let end = instant_of(civil(-1, 12, 31, 23, 59, 59));
    let later = UtcInstant { utc_nanos: end.utc_nanos + 999_999_999 };
    assert_eq!(format_epoch_short(&later), "-001-12-31T23:59:59.999 UTC");
    let zero = UtcInstant { utc_nanos: end.utc_nanos + SECOND };
    assert_eq!(format_epoch_short(&zero), "0000-01-01T00:00:00 UTC");
    let far = instant_of(civil(-3_274_967, 1, 1, 0, 0, 0));
    assert_eq!(format_epoch_short(&far), "-3274967-01-01T00:00:00 UTC");
}

#[test]
fn fractions_are_cut_to_milliseconds() {
    let e = UtcInstant { utc_nanos: default_epoch().utc_nanos + 12_345_678 };
    assert_eq!(format_epoch_short(&e), "2025-06-21T12:00:00.012 UTC");
    let before = UtcInstant { utc_nanos: default_epoch().utc_nanos - 1 };
    assert_eq!(format_epoch_short(&before), "2025-06-21T11:59:59.999 UTC");
}

#[test]
fn a_shown_time_is_read_back() {
    let shown = format_epoch_short(&default_epoch());
    let text = shown.strip_suffix(" UTC").unwrap();
    assert_eq!(parse_epoch(text), Ok(default_epoch()));
}

#[test]
fn later_times_are_later_instants() {
    let times = [
        civil(2023, 12, 31, 23, 59, 59),
        civil(2024, 1, 1, 0, 0, 0),
        civil(2024, 2, 28, 12, 0, 0),
        civil(2024, 2, 29, 0, 0, 0),
        civil(2024, 3, 1, 0, 0, 0),
    ];
    for pair in times.windows(2) {
        assert!(instant_of(pair[0]).utc_nanos < instant_of(pair[1]).utc_nanos);
    }
}

#[test]
fn shortening_drops_digits_behind_the_third() {
    assert_eq!(shorten_fraction("1.23456 s"), "1.234 s");
    assert_eq!(shorten_fraction("1.2 s"), "1.2 s");
    assert_eq!(shorten_fraction("1.2"), "1.2");
    assert_eq!(shorten_fraction("no dot"), "no dot");
    assert_eq!(shorten_fraction("1.2345.6789"), "1.234.6789");
    assert_eq!(shorten_fraction(&shorten_fraction("1.23456 s")), shorten_fraction("1.23456 s"));
}

#[test]
fn going_back_stops_at_the_earliest_instant() {
    assert_eq!(default_epoch().minus_seconds(86_400).utc_nanos, (3_959_496_000 - 86_400) * SECOND);
    let first = UtcInstant { utc_nanos: EARLIEST_NANOS + SECOND };
    assert_eq!(first.minus_seconds(1).utc_nanos, EARLIEST_NANOS);
    assert_eq!(first.minus_seconds(2).utc_nanos, EARLIEST_NANOS);
}

#[test]
fn the_ends_are_those_of_durations() {
    assert_eq!(hifitime::Duration::MIN.total_nanoseconds(), EARLIEST_NANOS);
    assert_eq!(hifitime::Duration::MAX.total_nanoseconds(), LATEST_NANOS);
}
