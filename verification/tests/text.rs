use solar_system_sim::text::{chars_of, parse_number, push_decimal, push_zero_padded, split_chars};

fn number(s: &str) -> Option<u32> {
    parse_number(&chars_of(s))
}

fn split(s: &str, c: char) -> Vec<String> {
    split_chars(&chars_of(s), c).into_iter().map(|p| p.into_iter().collect()).collect()
}

#[test]
fn numbers_are_read_as_the_standard_library_reads_them() {
    for s in ["0", "7", "+7", "007", "4294967295", "4294967296", "", "+", "-1", "1a", " 1", "++1"] {
        assert_eq!(number(s), s.parse::<u32>().ok(), "{s}");
    }
}

#[test]
fn texts_are_split_as_the_standard_library_splits_them() {
    for s in ["", "a", "a-b", "-a-", "--", "2025-06-21"] {
        let expected: Vec<String> = s.split('-').map(|p| p.to_string()).collect();
        assert_eq!(split(s, '-'), expected, "{s}");
    }
}

#[test]
fn numbers_are_written_in_decimal() {
    let mut out = String::from("n=");
    push_decimal(&mut out, 0);
    push_decimal(&mut out, 1200);
    push_decimal(&mut out, u64::MAX);
    assert_eq!(out, "n=0120018446744073709551615");
}

#[test]
fn numbers_are_padded_with_zeros() {
    for (n, w) in [(0u64, 2usize), (7, 2), (12, 2), (123, 2), (5, 9), (7, 0)] {
        let mut out = String::new();
        push_zero_padded(&mut out, n, w);
        assert_eq!(out, format!("{n:0w$}"));
    }
}

#[test]
fn padded_numbers_are_read_back() {
    for n in [0u64, 9, 10, 99, 1234567890, 4294967295] {
        let mut out = String::new();
        push_zero_padded(&mut out, n, 12);
        assert_eq!(number(&out), Some(n as u32));
    }
}
