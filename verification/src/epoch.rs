//! Epochs: instants on the UTC scale, read from text and shown as text.

use crate::calendar::{
    day_number, lemma_day_number_is_of_one_date, lemma_day_number_orders, valid_date, CivilDate,
};
use crate::text::{
    all_digits, chars_of, decimal, is_digit, lemma_decimal_stands_for_its_number, lemma_first_piece,
    lemma_number_reads_back, lemma_one_piece, parse_number, parsed_number, piece_views, pieces,
    split_chars, zero_padded,
};
use vstd::prelude::*;
use vstd::string::{StrSliceExecFns, StringExecFns};

verus! {

/// The first year whose days can be counted.
pub const FIRST_YEAR: i32 = -5_881_616;

/// The last year whose days can be counted.
pub const LAST_YEAR: i32 = 5_885_416;

/// Nanoseconds of a second.
pub const NANOS_PER_SECOND: i128 = 1_000_000_000;

/// The earliest instant: 32768 Julian centuries before the year 1900.
pub const EARLIEST_NANOS: i128 = -103_407_943_680_000_000_000_000;

/// The latest instant: 32768 Julian centuries after the start of the year 1900.
pub const LATEST_NANOS: i128 = 103_407_943_680_000_000_000_000;

/// An instant, in nanoseconds on the UTC scale since the start of the year 1900.
#[derive(Clone, Copy, PartialEq, Eq, Structural, Debug)]
pub struct UtcInstant {
    pub utc_nanos: i128,
}

/// A date and a time of day.
#[derive(Clone, Copy, PartialEq, Eq, Structural, Debug)]
pub struct CivilTime {
    pub year: i32,
    pub month: u8,
    pub day: u8,
    pub hour: u8,
    pub minute: u8,
    pub second: u8,
}

/// Why a text is not an epoch.
#[derive(Clone, Copy, PartialEq, Eq, Structural, Debug)]
pub enum EpochParseError {
    /// A part of the date is not a number.
    DateNumber,
    /// The date does not have three parts.
    DateParts,
    /// A part of the time of day is not a number.
    TimeNumber,
}

/// Whether a leap second ended the June of a year.
pub open spec fn june_leap_second(year: int) -> bool {
    year == 1972 || 1981 <= year <= 1983 || year == 1985 || 1992 <= year <= 1994 || year == 1997
        || year == 2012 || year == 2015
}

/// Whether a leap second ended a year.
pub open spec fn december_leap_second(year: int) -> bool {
    1971 <= year <= 1979 || year == 1987 || year == 1989 || year == 1990 || year == 1995 || year
        == 1998 || year == 2005 || year == 2008 || year == 2016
}

impl CivilTime {
    /// Whether the minute is one that a leap second ended.
    pub open spec fn in_leap_minute(self) -> bool {
        self.hour == 23 && self.minute == 59 && ((self.month == 6 && self.day == 30
            && june_leap_second(self.year as int)) || (self.month == 12 && self.day == 31
            && december_leap_second(self.year as int)))
    }

    /// Whether this is a date and a time of day that an epoch can have.
    pub open spec fn valid(self) -> bool {
        &&& FIRST_YEAR <= self.year <= LAST_YEAR
        &&& valid_date(self.year as int, self.month as int, self.day as int)
        &&& self.hour <= 24
        &&& self.minute <= 59
        &&& self.second <= 59 || (self.second == 60 && self.in_leap_minute())
    }

    /// The nanoseconds from the start of the year 1900 to the start of this year.
    pub open spec fn year_start_nanos(self) -> int {
        (day_number(self.year as int, 1, 1) - day_number(1900, 1, 1)) * 86_400 * NANOS_PER_SECOND
    }

    /// The nanoseconds into the year; a leap second shares the place of the
    /// second before it.
    pub open spec fn nanos_into_year(self) -> int {
        let days = day_number(self.year as int, self.month as int, self.day as int) - day_number(
            self.year as int,
            1,
            1,
        );
        let second = if self.second == 60 {
            59
        } else {
            self.second as int
        };
        (((days * 24 + self.hour) * 60 + self.minute) * 60 + second) * NANOS_PER_SECOND
    }

    /// The nanoseconds from the start of the year 1900. A year that starts before
    /// the earliest instant counts from there, and what would be later than the
    /// latest instant is that one.
    pub open spec fn nanos(self) -> int {
        let start = if self.year_start_nanos() < EARLIEST_NANOS {
            EARLIEST_NANOS as int
        } else {
            self.year_start_nanos()
        };
        if start + self.nanos_into_year() > LATEST_NANOS {
            LATEST_NANOS as int
        } else {
            start + self.nanos_into_year()
        }
    }

    /// Whether the instant lies between the earliest and the latest one.
    pub open spec fn in_reach(self) -> bool {
        EARLIEST_NANOS <= self.year_start_nanos() && self.year_start_nanos()
            + self.nanos_into_year() <= LATEST_NANOS
    }

    /// Whether this is a civil time in reach that no other one shares its instant
    /// with: not the hour after the last, nor a leap second.
    pub open spec fn proper(self) -> bool {
        self.valid() && self.in_reach() && self.hour <= 23 && self.second <= 59
    }

    /// The year in digits, at least four characters with its sign.
    pub open spec fn year_digits(self) -> Seq<char> {
        if self.year < 0 {
            seq!['-'] + zero_padded((-self.year) as nat, 3)
        } else {
            zero_padded(self.year as nat, 4)
        }
    }

    /// The date and the time of day in digits, without a fraction or a scale.
    pub open spec fn digits(self) -> Seq<char> {
        self.year_digits() + seq!['-'] + zero_padded(self.month as nat, 2) + seq!['-']
            + zero_padded(self.day as nat, 2) + seq!['T'] + zero_padded(self.hour as nat, 2)
            + seq![':'] + zero_padded(self.minute as nat, 2) + seq![':'] + zero_padded(
            self.second as nat,
            2,
        )
    }

    /// Whether an instant of this civil time is shown with these very fields.
    pub open spec fn canonical(self) -> bool {
        self.proper() && self.nanos() < LATEST_NANOS
    }

    /// Whether this is a date and a time of day that an epoch can have.
    pub fn is_valid(&self) -> (r: bool)
        ensures
            r == self.valid(),
    {
        self.year < i32::MAX && on_calendar(*self)
    }
}

/// The fraction of a second in digits, where there is one.
pub open spec fn fraction_digits(nanos: nat) -> Seq<char> {
    if nanos == 0 {
        Seq::empty()
    } else {
        seq!['.'] + zero_padded(nanos, 9)
    }
}

/// The name of the time scale, as it ends the text of an epoch.
pub open spec fn scale_suffix() -> Seq<char> {
    seq![' ', 'U', 'T', 'C']
}

/// The fraction of a second in digits, cut to milliseconds.
pub open spec fn short_fraction_digits(nanos: nat) -> Seq<char> {
    if nanos == 0 {
        Seq::empty()
    } else {
        seq!['.'] + zero_padded(nanos, 9).take(3)
    }
}

/// The text in which hifitime shows an epoch of the UTC scale.
pub uninterp spec fn epoch_text(utc_nanos: int) -> Seq<char>;

/// Whether `hifitime::Epoch::maybe_from_gregorian_utc` gives an epoch: the year is
/// one whose days can be counted, the calendar has the date, the hour is at most
/// 24, the minute at most 59, and so is the second, or it is the one that a leap
/// second added. On the last minute of the year `i32::MAX` the next year, which it
/// looks at, is out of range.
#[verifier::external_body]
fn on_calendar(c: CivilTime) -> (r: bool)
    requires
        c.year < i32::MAX,
    ensures
        r == c.valid(),
{
    hifitime::Epoch::maybe_from_gregorian_utc(
        c.year, c.month, c.day, c.hour, c.minute, c.second, 0,
    ).is_ok()
}

/// `hifitime::Epoch::from_gregorian_utc` followed by `to_utc_duration` and
/// `total_nanoseconds`: a date and a time of day that the calendar has counts its
/// days from the year 1900 and then its hours, minutes and seconds, a sixtieth
/// second sharing the place of the one before. Durations stop at 32768 centuries
/// to either side: a year that starts before that starts there, and no sum goes
/// beyond.
#[verifier::external_body]
fn utc_nanos_of(c: CivilTime) -> (nanos: i128)
    requires
        c.valid(),
    ensures
        nanos == c.nanos(),
{
    hifitime::Epoch::from_gregorian_utc(c.year, c.month, c.day, c.hour, c.minute, c.second, 0)
        .to_utc_duration()
        .total_nanoseconds()
}

/// The text of a `hifitime::Epoch` built by `from_utc_duration`: it depends on
/// the instant alone, and it is the date and the time of day in padded digits, a
/// year before 0 with its sign, then a fraction of nine digits where there is one,
/// and the name of the scale.
#[verifier::external_body]
pub(crate) fn show_utc(utc_nanos: i128) -> (text: String)
    ensures
        text@ == epoch_text(utc_nanos as int),
        forall|c: CivilTime, n: nat|
            c.canonical() && n < 1_000_000_000 && utc_nanos == #[trigger] (c.nanos() + n)
                ==> text@ == c.digits() + fraction_digits(n) + scale_suffix(),
{
    let duration = hifitime::Duration::from_total_nanoseconds(utc_nanos);
    format!("{}", hifitime::Epoch::from_utc_duration(duration))
}

/// Whether every piece is a number.
pub open spec fn all_numbers(p: Seq<Seq<char>>) -> bool {
    forall|i: int| 0 <= i < p.len() ==> (#[trigger] parsed_number(p[i])) is Some
}

/// The number of a piece, or zero where there is no such piece.
pub open spec fn number_at(p: Seq<Seq<char>>, i: int) -> u32 {
    if i < p.len() {
        parsed_number(p[i])->0
    } else {
        0
    }
}

/// A number kept to its low eight bits.
pub open spec fn low_byte(n: u32) -> u8 {
    (n % 256) as u8
}

/// A number taken as a signed one of 32 bits.
pub open spec fn as_signed(n: u32) -> i32 {
    if n < 0x8000_0000 {
        n as i32
    } else {
        (n - 0x1_0000_0000) as i32
    }
}

/// The civil time of a text: a date `YYYY-MM-DD`, then, after a `T`, a time of
/// day `HH:MM:SS` whose missing parts are zero. Without a `T` it is noon.
pub open spec fn civil_of_text(s: Seq<char>) -> Result<CivilTime, EpochParseError> {
    let halves = pieces(s, 'T');
    let date = pieces(halves[0], '-');
    if !all_numbers(date) {
        Err(EpochParseError::DateNumber)
    } else if date.len() != 3 {
        Err(EpochParseError::DateParts)
    } else {
        let year = as_signed(number_at(date, 0));
        let month = low_byte(number_at(date, 1));
        let day = low_byte(number_at(date, 2));
        if halves.len() == 1 {
            Ok(CivilTime { year, month, day, hour: 12, minute: 0, second: 0 })
        } else {
            let time = pieces(halves[1], ':');
            if !all_numbers(time) {
                Err(EpochParseError::TimeNumber)
            } else {
                Ok(
                    CivilTime {
                        year,
                        month,
                        day,
                        hour: low_byte(number_at(time, 0)),
                        minute: low_byte(number_at(time, 1)),
                        second: low_byte(number_at(time, 2)),
                    },
                )
            }
        }
    }
}

/// The numbers of the pieces, where each of them is one.
fn parse_numbers(p: &Vec<Vec<char>>) -> (r: Option<Vec<u32>>)
    ensures
        r is Some <==> all_numbers(piece_views(p@)),
        r matches Some(v) ==> v@.len() == p@.len() && forall|i: int|
            0 <= i < v@.len() ==> #[trigger] v@[i] == number_at(piece_views(p@), i),
{
    let mut v: Vec<u32> = Vec::new();
    let mut i: usize = 0;
    while i < p.len()
        invariant
            i <= p@.len(),
            v@.len() == i,
            forall|k: int|
                0 <= k < i ==> (#[trigger] parsed_number(piece_views(p@)[k])) is Some && v@[k]
                    == parsed_number(piece_views(p@)[k])->0,
        decreases p@.len() - i,
    {
        assert(piece_views(p@)[i as int] == p@[i as int]@);
        match parse_number(&p[i]) {
            Some(n) => {
                v.push(n);
            },
            None => {
                assert(parsed_number(piece_views(p@)[i as int]) is None);
                return None;
            },
        }
        i = i + 1;
    }
    assert(piece_views(p@).len() == p@.len());
    assert forall|k: int| 0 <= k < v@.len() implies #[trigger] v@[k] == number_at(
        piece_views(p@),
        k,
    ) by {
        assert(parsed_number(piece_views(p@)[k]) is Some);
    }
    Some(v)
}

/// The signed number of 32 bits that shares its bits with the given one.
fn signed(n: u32) -> (r: i32)
    ensures
        r == as_signed(n),
{
    if n < 0x8000_0000 {
        n as i32
    } else {
        (n as i64 - 0x1_0000_0000) as i32
    }
}

/// The number of a part, or zero where there is no such part.
fn part(v: &Vec<u32>, i: usize) -> (r: u32)
    ensures
        r == (if i < v@.len() {
            v@[i as int]
        } else {
            0
        }),
{
    if i < v.len() {
        v[i]
    } else {
        0
    }
}

/// The civil time that a text gives.
pub fn parse_civil(s: &str) -> (r: Result<CivilTime, EpochParseError>)
    ensures
        r == civil_of_text(s@),
{
    let halves: Vec<Vec<char>> = split_chars(&chars_of(s), 'T');
    let ghost halves_view = piece_views(halves@);
    assert(halves_view.len() == halves@.len());
    assert(halves_view[0] == halves@[0]@);
    let date_pieces: Vec<Vec<char>> = split_chars(&halves[0], '-');
    assert(piece_views(date_pieces@).len() == date_pieces@.len());
    let date: Vec<u32> = match parse_numbers(&date_pieces) {
        Some(v) => v,
        None => {
            return Err(EpochParseError::DateNumber);
        },
    };
    if date.len() != 3 {
        return Err(EpochParseError::DateParts);
    }
    let year: i32 = signed(date[0]);
    let month: u8 = (date[1] % 256) as u8;
    let day: u8 = (date[2] % 256) as u8;
    if halves.len() == 1 {
        return Ok(CivilTime { year, month, day, hour: 12, minute: 0, second: 0 });
    }
    assert(halves_view[1] == halves@[1]@);
    let time_pieces: Vec<Vec<char>> = split_chars(&halves[1], ':');
    assert(piece_views(time_pieces@).len() == time_pieces@.len());
    let time: Vec<u32> = match parse_numbers(&time_pieces) {
        Some(v) => v,
        None => {
            return Err(EpochParseError::TimeNumber);
        },
    };
    let hour: u8 = (part(&time, 0) % 256) as u8;
    let minute: u8 = (part(&time, 1) % 256) as u8;
    let second: u8 = (part(&time, 2) % 256) as u8;
    Ok(CivilTime { year, month, day, hour, minute, second })
}

/// The instant of a civil time.
pub fn instant_of(c: CivilTime) -> (r: UtcInstant)
    requires
        c.valid(),
    ensures
        r.utc_nanos == c.nanos(),
{
    UtcInstant { utc_nanos: utc_nanos_of(c) }
}

/// The epoch that a text gives, as `YYYY-MM-DD` or `YYYY-MM-DDTHH:MM:SS`. A
/// civil time that the calendar does not have is not admitted.
pub fn parse_epoch(s: &str) -> (r: Result<UtcInstant, EpochParseError>)
    requires
        civil_of_text(s@) matches Ok(c) ==> c.valid(),
    ensures
        match civil_of_text(s@) {
            Ok(c) => r is Ok && r->Ok_0.utc_nanos == c.nanos(),
            Err(e) => r == Err::<UtcInstant, EpochParseError>(e),
        },
{
    match parse_civil(s) {
        Ok(c) => Ok(instant_of(c)),
        Err(e) => Err(e),
    }
}

/// The epoch that a simulation starts at unless told otherwise: noon of the
/// June solstice day of 2025.
pub open spec fn default_civil() -> CivilTime {
    CivilTime { year: 2025, month: 6, day: 21, hour: 12, minute: 0, second: 0 }
}

/// The epoch that a simulation starts at unless told otherwise.
pub fn default_epoch() -> (r: UtcInstant)
    ensures
        r.utc_nanos == default_civil().nanos(),
        r.utc_nanos == 3_959_496_000 * 1_000_000_000,
{
    proof {
        lemma_start_is_noon_of_the_solstice();
    }
    instant_of(CivilTime { year: 2025, month: 6, day: 21, hour: 12, minute: 0, second: 0 })
}

impl UtcInstant {
    /// The instant so many seconds earlier, or the earliest one.
    pub open spec fn earlier(self, seconds: int) -> int {
        if self.utc_nanos - seconds * NANOS_PER_SECOND < EARLIEST_NANOS {
            EARLIEST_NANOS as int
        } else {
            self.utc_nanos - seconds * NANOS_PER_SECOND
        }
    }

    /// The instant so many seconds earlier, or the earliest one.
    pub fn minus_seconds(&self, seconds: u32) -> (r: UtcInstant)
        ensures
            r.utc_nanos == self.earlier(seconds as int),
            self.utc_nanos - seconds * 1_000_000_000 >= EARLIEST_NANOS ==> r.utc_nanos
                == self.utc_nanos - seconds * 1_000_000_000,
            self.utc_nanos - seconds * 1_000_000_000 < EARLIEST_NANOS ==> r.utc_nanos
                == EARLIEST_NANOS,
    {
        let span: i128 = seconds as i128 * NANOS_PER_SECOND;
        if self.utc_nanos < EARLIEST_NANOS + span {
            UtcInstant { utc_nanos: EARLIEST_NANOS }
        } else {
            UtcInstant { utc_nanos: self.utc_nanos - span }
        }
    }
}

/// The number of characters before the first dot.
pub open spec fn before_dot(s: Seq<char>) -> nat
    decreases s.len(),
{
    if s.len() == 0 || s[0] == '.' {
        0
    } else {
        1 + before_dot(s.skip(1))
    }
}

/// The number of digits that a text starts with.
pub open spec fn leading_digits(s: Seq<char>) -> nat
    decreases s.len(),
{
    if s.len() == 0 || !is_digit(s[0]) {
        0
    } else {
        1 + leading_digits(s.skip(1))
    }
}

/// A text without the digits that stand more than three places behind its first dot.
pub open spec fn shortened(s: Seq<char>) -> Seq<char> {
    let dot = before_dot(s);
    if dot >= s.len() {
        s
    } else {
        let end = if dot + 4 < s.len() {
            (dot + 4) as int
        } else {
            s.len() as int
        };
        let rest = s.skip(end);
        s.take(end) + rest.skip(leading_digits(rest) as int)
    }
}

proof fn lemma_before_dot(s: Seq<char>, k: int)
    requires
        0 <= k <= s.len(),
        forall|i: int| 0 <= i < k ==> s[i] != '.',
        k < s.len() ==> s[k] == '.',
    ensures
        before_dot(s) == k,
    decreases k,
{
    if k > 0 {
        assert(s.skip(1).len() == s.len() - 1);
        lemma_before_dot(s.skip(1), k - 1);
    }
}

proof fn lemma_leading_digits(s: Seq<char>, k: int)
    requires
        0 <= k <= s.len(),
        forall|i: int| 0 <= i < k ==> is_digit(s[i]),
        k < s.len() ==> !is_digit(s[k]),
    ensures
        leading_digits(s) == k,
    decreases k,
{
    if k > 0 {
        lemma_leading_digits(s.skip(1), k - 1);
    }
}

/// A text without the digits that stand more than three places behind its first dot.
pub fn shorten_fraction(s: &str) -> (r: String)
    ensures
        r@ == shortened(s@),
{
    let n: usize = s.unicode_len();
    let mut dot: usize = 0;
    while dot < n && s.get_char(dot) != '.'
        invariant
            dot <= n,
            n == s@.len(),
            forall|i: int| 0 <= i < dot ==> s@[i] != '.',
        decreases n - dot,
    {
        dot = dot + 1;
    }
    proof {
        lemma_before_dot(s@, dot as int);
    }
    if dot == n {
        return s.to_owned();
    }
    let end: usize = if n - dot > 4 {
        dot + 4
    } else {
        n
    };
    let mut next: usize = end;
    while next < n && '0' <= s.get_char(next) && s.get_char(next) <= '9'
        invariant
            end <= next <= n,
            n == s@.len(),
            forall|i: int| end <= i < next ==> is_digit(s@[i]),
        decreases n - next,
    {
        next = next + 1;
    }
    let ghost rest = s@.skip(end as int);
    proof {
        assert forall|i: int| 0 <= i < next - end implies is_digit(rest[i]) by {
            assert(rest[i] == s@[end + i]);
        }
        if next < n {
            assert(rest[next - end] == s@[next as int]);
        }
        lemma_leading_digits(rest, next - end);
        assert(rest.skip(next - end) =~= s@.subrange(next as int, n as int));
        assert(s@.take(end as int) =~= s@.subrange(0, end as int));
    }
    let mut out: String = s.substring_char(0, end).to_owned();
    out.append(s.substring_char(next, n));
    out
}

proof fn lemma_padded_digits(n: nat, width: nat)
    ensures
        all_digits(zero_padded(n, width)),
        zero_padded(n, width).len() >= width,
{
    lemma_decimal_stands_for_its_number(n);
}

proof fn lemma_nine_digits(n: nat)
    requires
        n < 1_000_000_000,
    ensures
        zero_padded(n, 9).len() == 9,
{
    reveal_with_fuel(decimal, 10);
}

proof fn lemma_digits_without_dot(c: CivilTime)
    ensures
        forall|i: int| 0 <= i < c.digits().len() ==> c.digits()[i] != '.',
{
    lemma_padded_digits(c.year as nat, 4);
    lemma_padded_digits((-c.year) as nat, 3);
    lemma_padded_digits(c.month as nat, 2);
    lemma_padded_digits(c.day as nat, 2);
    lemma_padded_digits(c.hour as nat, 2);
    lemma_padded_digits(c.minute as nat, 2);
    lemma_padded_digits(c.second as nat, 2);
}

/// The text of an epoch without its digits below the millisecond loses nothing else.
proof fn lemma_shortened_epoch(c: CivilTime, n: nat)
    requires
        n < 1_000_000_000,
    ensures
        shortened(c.digits() + fraction_digits(n) + scale_suffix()) == c.digits()
            + short_fraction_digits(n) + scale_suffix(),
{
    let s = c.digits() + fraction_digits(n) + scale_suffix();
    let len = c.digits().len();
    lemma_digits_without_dot(c);
    if n == 0 {
        assert forall|i: int| 0 <= i < s.len() implies s[i] != '.' by {
            if i < len {
                assert(s[i] == c.digits()[i]);
            } else {
                assert(s[i] == scale_suffix()[i - len]);
            }
        }
        lemma_before_dot(s, s.len() as int);
        assert(s =~= c.digits() + short_fraction_digits(n) + scale_suffix());
    } else {
        let f = zero_padded(n, 9);
        lemma_nine_digits(n);
        lemma_padded_digits(n, 9);
        assert forall|i: int| 0 <= i < len implies s[i] != '.' by {
            assert(s[i] == c.digits()[i]);
        }
        assert(s[len as int] == '.');
        lemma_before_dot(s, len as int);
        let end = len + 4;
        let rest = s.skip(end as int);
        assert forall|i: int| 0 <= i < 6 implies is_digit(rest[i]) by {
            assert(rest[i] == f[3 + i]);
        }
        assert(rest[6] == ' ');
        lemma_leading_digits(rest, 6);
        assert(s.take(end as int) =~= c.digits() + short_fraction_digits(n));
        assert(rest.skip(6) =~= scale_suffix());
    }
}

/// Shortening a text twice is shortening it once.
pub proof fn lemma_shortened_is_idempotent(s: Seq<char>)
    ensures
        shortened(shortened(s)) == shortened(s),
{
    lemma_before_dot_found(s);
    let dot = before_dot(s) as int;
    if dot < s.len() {
        let t = shortened(s);
        let end = if dot + 4 < s.len() {
            dot + 4
        } else {
            s.len() as int
        };
        let rest = s.skip(end);
        lemma_leading_digits_found(rest);
        assert forall|i: int| 0 <= i < dot implies t[i] != '.' by {
            assert(t[i] == s[i]);
        }
        assert(t[dot] == s[dot]);
        lemma_before_dot(t, dot);
        let kept = rest.skip(leading_digits(rest) as int);
        if dot + 4 < t.len() {
            assert(t.skip(dot + 4) =~= kept);
            lemma_leading_digits(kept, 0);
            assert(t.take(dot + 4) + kept =~= t);
        } else {
            assert(t.take(t.len() as int) + t.skip(t.len() as int) =~= t);
            assert(t.skip(t.len() as int).skip(0) =~= t.skip(t.len() as int));
            lemma_leading_digits(t.skip(t.len() as int), 0);
        }
    }
}

proof fn lemma_before_dot_found(s: Seq<char>)
    ensures
        before_dot(s) <= s.len(),
        forall|i: int| 0 <= i < before_dot(s) ==> s[i] != '.',
        before_dot(s) < s.len() ==> s[before_dot(s) as int] == '.',
    decreases s.len(),
{
    if s.len() > 0 && s[0] != '.' {
        lemma_before_dot_found(s.skip(1));
        assert forall|i: int| 0 <= i < before_dot(s) implies s[i] != '.' by {
            if i > 0 {
                assert(s[i] == s.skip(1)[i - 1]);
            }
        }
    }
}

proof fn lemma_leading_digits_found(s: Seq<char>)
    ensures
        leading_digits(s) <= s.len(),
        leading_digits(s) < s.len() ==> !is_digit(s[leading_digits(s) as int]),
    decreases s.len(),
{
    if s.len() > 0 && is_digit(s[0]) {
        lemma_leading_digits_found(s.skip(1));
    }
}

/// There is one civil time, and one fraction of a second, that an instant stands
/// for.
pub proof fn lemma_instant_has_one_civil_time(a: CivilTime, m: nat, b: CivilTime, n: nat)
    requires
        a.proper(),
        b.proper(),
        m < 1_000_000_000,
        n < 1_000_000_000,
        a.nanos() + m == b.nanos() + n,
    ensures
        a == b,
        m == n,
{
    let x = CivilDate { year: a.year, month: a.month as u32, day: a.day as u32 };
    let y = CivilDate { year: b.year, month: b.month as u32, day: b.day as u32 };
    let s = (a.hour * 60 + a.minute) * 60 + a.second;
    let t = (b.hour * 60 + b.minute) * 60 + b.second;
    let first = day_number(1900, 1, 1);
    assert(a.nanos() == ((x.number() - first) * 86_400 + s) * 1_000_000_000);
    assert(b.nanos() == ((y.number() - first) * 86_400 + t) * 1_000_000_000);
    assert(x.number() == y.number() && s == t && m == n);
    lemma_day_number_is_of_one_date(x, y);
}

/// A later civil time is a later instant.
pub proof fn lemma_later_time_is_later_instant(a: CivilTime, b: CivilTime)
    requires
        a.proper(),
        b.proper(),
        a.year < b.year || (a.year == b.year && (a.month < b.month || (a.month == b.month && (a.day
            < b.day || (a.day == b.day && (a.hour < b.hour || (a.hour == b.hour && (a.minute
            < b.minute || (a.minute == b.minute && a.second < b.second))))))))),
    ensures
        a.nanos() < b.nanos(),
{
    if a.year != b.year || a.month != b.month || a.day != b.day {
        lemma_day_number_orders(
            a.year as int,
            a.month as int,
            a.day as int,
            b.year as int,
            b.month as int,
            b.day as int,
        );
    }
}

proof fn lemma_three_pieces(a: Seq<char>, b: Seq<char>, c: Seq<char>, separator: char)
    requires
        all_digits(a),
        all_digits(b),
        all_digits(c),
        !is_digit(separator),
        separator != 'T',
    ensures
        pieces(a + seq![separator] + b + seq![separator] + c, separator) == seq![a, b, c],
        forall|i: int|
            0 <= i < (a + seq![separator] + b + seq![separator] + c).len() ==> (a + seq![separator]
                + b + seq![separator] + c)[i] != 'T',
{
    let rest = b + seq![separator] + c;
    assert(a + seq![separator] + b + seq![separator] + c =~= a + seq![separator] + rest);
    lemma_first_piece(a, separator, rest);
    lemma_first_piece(b, separator, c);
    lemma_one_piece(c, separator);
    assert(seq![a] + (seq![b] + seq![c]) =~= seq![a, b, c]);
}

proof fn lemma_six_pieces(
    y: Seq<char>,
    mo: Seq<char>,
    d: Seq<char>,
    h: Seq<char>,
    mi: Seq<char>,
    s: Seq<char>,
)
    requires
        all_digits(y) && all_digits(mo) && all_digits(d),
        all_digits(h) && all_digits(mi) && all_digits(s),
    ensures
        ({
            let text = y + seq!['-'] + mo + seq!['-'] + d + seq!['T'] + h + seq![':'] + mi + seq![
                ':',
            ] + s;
            let halves = pieces(text, 'T');
            &&& halves.len() == 2
            &&& pieces(halves[0], '-') == seq![y, mo, d]
            &&& pieces(halves[1], ':') == seq![h, mi, s]
        }),
{
    let date = y + seq!['-'] + mo + seq!['-'] + d;
    let time = h + seq![':'] + mi + seq![':'] + s;
    lemma_three_pieces(y, mo, d, '-');
    lemma_three_pieces(h, mi, s, ':');
    lemma_first_piece(date, 'T', time);
    lemma_one_piece(time, 'T');
    assert(date + seq!['T'] + h + seq![':'] + mi + seq![':'] + s =~= date + seq!['T'] + time);
}

proof fn lemma_three_numbers(p: Seq<Seq<char>>, a: Seq<char>, b: Seq<char>, c: Seq<char>)
    requires
        p == seq![a, b, c],
        parsed_number(a) is Some && parsed_number(b) is Some && parsed_number(c) is Some,
    ensures
        all_numbers(p),
        p.len() == 3,
        number_at(p, 0) == parsed_number(a)->0,
        number_at(p, 1) == parsed_number(b)->0,
        number_at(p, 2) == parsed_number(c)->0,
{
}

/// From the year 0 on the civil time that is shown is read back from the text, the
/// name of the scale left off.
pub proof fn lemma_shown_time_reads_back(c: CivilTime)
    requires
        c.canonical(),
        c.year >= 0,
    ensures
        civil_of_text(c.digits()) == Ok::<CivilTime, EpochParseError>(c),
{
    let y = zero_padded(c.year as nat, 4);
    let mo = zero_padded(c.month as nat, 2);
    let d = zero_padded(c.day as nat, 2);
    let h = zero_padded(c.hour as nat, 2);
    let mi = zero_padded(c.minute as nat, 2);
    let s = zero_padded(c.second as nat, 2);
    lemma_number_reads_back(c.year as nat, 4);
    lemma_number_reads_back(c.month as nat, 2);
    lemma_number_reads_back(c.day as nat, 2);
    lemma_number_reads_back(c.hour as nat, 2);
    lemma_number_reads_back(c.minute as nat, 2);
    lemma_number_reads_back(c.second as nat, 2);
    lemma_six_pieces(y, mo, d, h, mi, s);
    let halves = pieces(c.digits(), 'T');
    lemma_three_numbers(pieces(halves[0], '-'), y, mo, d);
    lemma_three_numbers(pieces(halves[1], ':'), h, mi, s);
}

/// The text of an epoch, its fraction cut to milliseconds.
pub fn format_epoch_short(epoch: &UtcInstant) -> (r: String)
    ensures
        r@ == shortened(epoch_text(epoch.utc_nanos as int)),
        forall|c: CivilTime, n: nat|
            c.canonical() && n < 1_000_000_000 && epoch.utc_nanos == #[trigger] (c.nanos() + n)
                ==> r@ == c.digits() + short_fraction_digits(n) + scale_suffix(),
{
    let text: String = show_utc(epoch.utc_nanos);
    proof {
        assert forall|c: CivilTime, n: nat|
            c.canonical() && n < 1_000_000_000 && epoch.utc_nanos == #[trigger] (c.nanos()
                + n) implies shortened(text@) == c.digits() + short_fraction_digits(n)
            + scale_suffix() by {
            lemma_shortened_epoch(c, n);
        }
    }
    shorten_fraction(text.as_str())
}

/// So many seconds earlier is so many thousand million nanoseconds less, as long as
/// that is not before the earliest instant, which stands for all that is.
pub proof fn lemma_earlier_by_seconds(now: UtcInstant, seconds: int)
    ensures
        now.utc_nanos - seconds * 1_000_000_000 >= -103_407_943_680_000_000_000_000
            ==> now.earlier(seconds) == now.utc_nanos - seconds * 1_000_000_000,
        now.utc_nanos - seconds * 1_000_000_000 < -103_407_943_680_000_000_000_000
            ==> now.earlier(seconds) == -103_407_943_680_000_000_000_000,
{
}

/// Going back by one span of seconds and then by another is going back by both at
/// once.
pub proof fn lemma_spans_add_up(now: UtcInstant, between: UtcInstant, a: int, b: int)
    requires
        a >= 0,
        b >= 0,
        now.utc_nanos >= EARLIEST_NANOS,
        between.utc_nanos == now.earlier(a),
    ensures
        between.earlier(b) == now.earlier(a + b),
{
}

/// The instant of a civil time counts days of 86400 seconds from the start of 1900,
/// whose first day is the 25567th before that of 1970, and then hours, minutes and
/// seconds.
pub proof fn lemma_instant_by_arithmetic(c: CivilTime)
    requires
        c.valid(),
        c.in_reach(),
    ensures
        c.nanos() == (((day_number(c.year as int, c.month as int, c.day as int) + 25_567) * 24
            + c.hour) * 3600 + c.minute * 60 + (if c.second == 60 {
            59
        } else {
            c.second as int
        })) * 1_000_000_000,
{
    crate::calendar::lemma_day_number_by_arithmetic(1900, 1, 1);
}

/// A civil time has a year whose days can be counted, a date of the calendar, and a
/// time of day: the sixtieth second only where a leap second ended the last minute
/// of a June or a December.
pub proof fn lemma_times_of_day(c: CivilTime)
    ensures
        c.valid() ==> valid_date(c.year as int, c.month as int, c.day as int) && c.hour <= 24
            && c.minute < 60 && c.second <= 60 && -5_881_616 <= c.year <= 5_885_416,
        valid_date(c.year as int, c.month as int, c.day as int) && -5_881_616 <= c.year <= 5_885_416
            && c.hour < 24 && c.minute < 60 && c.second < 60 ==> c.valid(),
        c.valid() && c.second == 60 ==> c.hour == 23 && c.minute == 59 && 1971 <= c.year <= 2016
            && (c.month == 6 && c.day == 30 || c.month == 12 && c.day == 31),
{
}

/// What a text gives, by its pieces: those of the date stand before the first `T`,
/// between dashes, and those of the time of day behind it, between colons. Each is a
/// number, of which a year keeps 32 bits and each other part eight. What is missing
/// of the time of day is zero; without a time of day it is noon.
pub proof fn lemma_text_gives_its_parts(s: Seq<char>)
    ensures
        ({
            let halves = pieces(s, 'T');
            let date = pieces(halves[0], '-');
            let time = pieces(halves[1], ':');
            let r = civil_of_text(s);
            let no_date = exists|i: int|
                0 <= i < date.len() && (#[trigger] parsed_number(date[i])) is None;
            let no_time = exists|i: int|
                0 <= i < time.len() && (#[trigger] parsed_number(time[i])) is None;
            &&& r == Err::<CivilTime, EpochParseError>(EpochParseError::DateNumber) <==> no_date
            &&& r == Err::<CivilTime, EpochParseError>(EpochParseError::DateParts) <==> !no_date
                && date.len() != 3
            &&& r == Err::<CivilTime, EpochParseError>(EpochParseError::TimeNumber) <==> !no_date
                && date.len() == 3 && halves.len() > 1 && no_time
            &&& r matches Ok(c) ==> {
                let y = parsed_number(date[0])->0 as int;
                &&& c.year == (if y <= 0x7FFF_FFFF {
                    y
                } else {
                    y - 0x1_0000_0000
                })
                &&& c.month == parsed_number(date[1])->0 as int % 256
                &&& c.day == parsed_number(date[2])->0 as int % 256
                &&& halves.len() == 1 ==> c.hour == 12 && c.minute == 0 && c.second == 0
                &&& halves.len() > 1 ==> c.hour == parsed_number(time[0])->0 as int % 256
                    && c.minute == (if time.len() > 1 {
                    parsed_number(time[1])->0 as int % 256
                } else {
                    0
                }) && c.second == (if time.len() > 2 {
                    parsed_number(time[2])->0 as int % 256
                } else {
                    0
                })
            }
        }),
{
    let halves = pieces(s, 'T');
    crate::text::lemma_pieces_make_up_the_text(s, 'T');
    crate::text::lemma_pieces_make_up_the_text(halves[0], '-');
    crate::text::lemma_pieces_make_up_the_text(halves[1], ':');
    let date = pieces(halves[0], '-');
    let time = pieces(halves[1], ':');
    if all_numbers(date) && date.len() == 3 {
        assert(parsed_number(date[0]) is Some);
        assert(parsed_number(date[1]) is Some);
        assert(parsed_number(date[2]) is Some);
    }
    if all_numbers(time) {
        assert(parsed_number(time[0]) is Some);
    }
}

/// The date of a civil time, shown alone, is read as noon of that date.
pub proof fn lemma_date_alone_is_noon(c: CivilTime)
    requires
        c.canonical(),
        c.year >= 0,
    ensures
        civil_of_text(
            zero_padded(c.year as nat, 4) + seq!['-'] + zero_padded(c.month as nat, 2) + seq!['-']
                + zero_padded(c.day as nat, 2),
        ) == Ok::<CivilTime, EpochParseError>(
            (CivilTime { hour: 12, minute: 0, second: 0, ..c }),
        ),
{
    let y = zero_padded(c.year as nat, 4);
    let mo = zero_padded(c.month as nat, 2);
    let d = zero_padded(c.day as nat, 2);
    lemma_number_reads_back(c.year as nat, 4);
    lemma_number_reads_back(c.month as nat, 2);
    lemma_number_reads_back(c.day as nat, 2);
    let s = y + seq!['-'] + mo + seq!['-'] + d;
    lemma_three_pieces(y, mo, d, '-');
    lemma_one_piece(s, 'T');
    lemma_three_numbers(pieces(s, '-'), y, mo, d);
}

/// A text without a dot is not shortened. Behind its first dot three characters stay,
/// and of the rest the digits that it starts with go, and nothing else.
pub proof fn lemma_digits_beyond_three_are_dropped(
    head: Seq<char>,
    kept: Seq<char>,
    dropped: Seq<char>,
    tail: Seq<char>,
)
    requires
        forall|i: int| 0 <= i < head.len() ==> head[i] != '.',
        kept.len() == 3,
        forall|i: int| 0 <= i < dropped.len() ==> '0' <= #[trigger] dropped[i] && dropped[i] <= '9',
        tail.len() > 0 ==> tail[0] < '0' || '9' < tail[0],
    ensures
        shortened(head) == head,
        shortened(head + seq!['.'] + kept + dropped + tail) == head + seq!['.'] + kept + tail,
{
    lemma_before_dot(head, head.len() as int);
    let s = head + seq!['.'] + kept + dropped + tail;
    let n = head.len() as int;
    assert forall|i: int| 0 <= i < n implies s[i] != '.' by {
        assert(s[i] == head[i]);
    }
    assert(s[n] == '.');
    lemma_before_dot(s, n);
    let rest = s.skip(n + 4);
    assert(rest =~= dropped + tail);
    assert forall|i: int| 0 <= i < dropped.len() implies is_digit(rest[i]) by {
        assert(rest[i] == dropped[i]);
    }
    if tail.len() > 0 {
        assert(rest[dropped.len() as int] == tail[0]);
    }
    lemma_leading_digits(rest, dropped.len() as int);
    assert(s.take(n + 4) =~= head + seq!['.'] + kept);
    assert(rest.skip(dropped.len() as int) =~= tail);
}

/// A text with no more than three characters behind its first dot is not shortened.
pub proof fn lemma_short_fraction_stays(head: Seq<char>, kept: Seq<char>)
    requires
        forall|i: int| 0 <= i < head.len() ==> head[i] != '.',
        kept.len() <= 3,
    ensures
        shortened(head + seq!['.'] + kept) == head + seq!['.'] + kept,
{
    let s = head + seq!['.'] + kept;
    let n = head.len() as int;
    assert forall|i: int| 0 <= i < n implies s[i] != '.' by {
        assert(s[i] == head[i]);
    }
    assert(s[n] == '.');
    lemma_before_dot(s, n);
    let end = s.len() as int;
    assert(s.take(end) =~= s);
    assert(s.skip(end) =~= Seq::<char>::empty());
    lemma_leading_digits(s.skip(end), 0);
    assert(s + s.skip(end).skip(0) =~= s);
}

/// A simulation starts at noon of the 21st of June of 2025 unless told otherwise,
/// 45827 and a half days after the start of 1900.
pub proof fn lemma_start_is_noon_of_the_solstice()
    ensures
        default_civil() == (CivilTime {
            year: 2025,
            month: 6,
            day: 21,
            hour: 12,
            minute: 0,
            second: 0,
        }),
        default_civil().proper(),
        default_civil().nanos() == (2 * 45_827 + 1) * 43_200 * 1_000_000_000,
{
    crate::calendar::lemma_day_number_by_arithmetic(1900, 1, 1);
    crate::calendar::lemma_day_number_by_arithmetic(2025, 1, 1);
    crate::calendar::lemma_day_number_by_arithmetic(2025, 6, 21);
}

} // verus!
