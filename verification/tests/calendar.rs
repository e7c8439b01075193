use solar_system_sim::calendar::{date_of_day, days_in_month, leap_year};

#[test]
fn leap_years_follow_the_gregorian_rule() {
    assert!(leap_year(2024));
    assert!(!leap_year(2023));
    assert!(!leap_year(1900));
    assert!(leap_year(2000));
}

#[test]
fn months_have_their_days() {
    let days: Vec<u32> = (1..=12).map(|m| days_in_month(2023, m)).collect();
    assert_eq!(days, vec![31, 28, 31, 30, 31, 30, 31, 31, 30, 31, 30, 31]);
    assert_eq!(days_in_month(2024, 2), 29);
}

#[test]
fn days_count_from_1970() {
    let first = date_of_day(0);
    assert_eq!((first.year, first.month, first.day), (1970, 1, 1));
    let solstice = date_of_day(20_260);
    assert_eq!((solstice.year, solstice.month, solstice.day), (2025, 6, 21));
    let leap = date_of_day(19_782);
    assert_eq!((leap.year, leap.month, leap.day), (2024, 2, 29));
    let next = date_of_day(19_783);
    assert_eq!((next.year, next.month, next.day), (2024, 3, 1));
}

#[test]
fn a_year_is_its_months() {
    for year in [2023, 2024] {
        let total: u32 = (1..=12).map(|m| days_in_month(year, m)).sum();
        assert_eq!(total, if leap_year(year) { 366 } else { 365 });
    }
}

#[test]
fn dates_follow_one_another() {
    let mut last = date_of_day(0);
    for day in 1..2000 {
        let date = date_of_day(day);
        assert!((date.year, date.month, date.day) > (last.year, last.month, last.day));
        last = date;
    }
}
