//! Characters and decimal numbers in text.

use vstd::prelude::*;
use vstd::string::{StrSliceExecFns, StringExecFns};

verus! {

/// The character of a decimal digit.
pub open spec fn digit_char(d: nat) -> char {
    if d == 0 {
        '0'
    } else if d == 1 {
        '1'
    } else if d == 2 {
        '2'
    } else if d == 3 {
        '3'
    } else if d == 4 {
        '4'
    } else if d == 5 {
        '5'
    } else if d == 6 {
        '6'
    } else if d == 7 {
        '7'
    } else if d == 8 {
        '8'
    } else {
        '9'
    }
}

/// The decimal digits of a number, without leading zeros.
pub open spec fn decimal(n: nat) -> Seq<char>
    decreases n,
{
    if n < 10 {
        seq![digit_char(n)]
    } else {
        decimal(n / 10).push(digit_char(n % 10))
    }
}

/// A run of zeros.
pub open spec fn zeros(count: nat) -> Seq<char> {
    Seq::new(count, |i: int| '0')
}

/// The decimal digits of a number, led by zeros up to the given width.
pub open spec fn zero_padded(n: nat, width: nat) -> Seq<char> {
    let digits = decimal(n);
    if digits.len() < width {
        zeros((width - digits.len()) as nat) + digits
    } else {
        digits
    }
}

/// Whether a character is a decimal digit.
pub open spec fn is_digit(c: char) -> bool {
    '0' <= c && c <= '9'
}

/// The number that a run of decimal digits stands for.
pub open spec fn digits_value(s: Seq<char>) -> nat
    decreases s.len(),
{
    if s.len() == 0 {
        0
    } else {
        digits_value(s.drop_last()) * 10 + (s.last() as nat - '0' as nat) as nat
    }
}

/// Whether every character is a decimal digit.
pub open spec fn all_digits(s: Seq<char>) -> bool {
    forall|i: int| 0 <= i < s.len() ==> is_digit(#[trigger] s[i])
}

/// The digits of a number that may be written with a plus sign.
pub open spec fn unsigned_part(s: Seq<char>) -> Seq<char> {
    if s.len() > 0 && s[0] == '+' {
        s.skip(1)
    } else {
        s
    }
}

/// The number that a text stands for: decimal digits, at least one, a plus sign
/// allowed in front, and no more than 32 bits.
pub open spec fn parsed_number(s: Seq<char>) -> Option<u32> {
    let digits = unsigned_part(s);
    if digits.len() > 0 && all_digits(digits) && digits_value(digits) <= u32::MAX {
        Some(digits_value(digits) as u32)
    } else {
        None
    }
}

/// The pieces of a text between the separators: each separator starts a new
/// piece, and every other character joins the last one.
pub open spec fn pieces(s: Seq<char>, separator: char) -> Seq<Seq<char>>
    decreases s.len(),
{
    if s.len() == 0 {
        seq![Seq::<char>::empty()]
    } else {
        let before = pieces(s.drop_last(), separator);
        if s.last() == separator {
            before.push(Seq::<char>::empty())
        } else {
            before.drop_last().push(before.last().push(s.last()))
        }
    }
}

/// The characters of each piece.
pub open spec fn piece_views(v: Seq<Vec<char>>) -> Seq<Seq<char>> {
    v.map_values(|p: Vec<char>| p@)
}

/// The characters of a text.
pub fn chars_of(s: &str) -> (v: Vec<char>)
    ensures
        v@ == s@,
{
    let n: usize = s.unicode_len();
    let mut v: Vec<char> = Vec::new();
    let mut i: usize = 0;
    while i < n
        invariant
            i <= n,
            n == s@.len(),
            v@ == s@.take(i as int),
        decreases n - i,
    {
        v.push(s.get_char(i));
        i = i + 1;
        assert(s@.take(i as int) =~= s@.take(i - 1).push(s@[i - 1]));
    }
    assert(s@.take(n as int) =~= s@);
    v
}

/// The text of one decimal digit.
fn digit_text(d: u8) -> (r: &'static str)
    requires
        d < 10,
    ensures
        r@ == seq![digit_char(d as nat)],
{
    proof {
        reveal_strlit("0");
        reveal_strlit("1");
        reveal_strlit("2");
        reveal_strlit("3");
        reveal_strlit("4");
        reveal_strlit("5");
        reveal_strlit("6");
        reveal_strlit("7");
        reveal_strlit("8");
        reveal_strlit("9");
    }
    match d {
        0 => "0",
        1 => "1",
        2 => "2",
        3 => "3",
        4 => "4",
        5 => "5",
        6 => "6",
        7 => "7",
        8 => "8",
        _ => "9",
    }
}

/// Appends a number in decimal digits.
pub fn push_decimal(out: &mut String, n: u64)
    ensures
        final(out)@ == old(out)@ + decimal(n as nat),
    decreases n,
{
    if n >= 10 {
        push_decimal(out, n / 10);
    }
    out.append(digit_text((n % 10) as u8));
    proof {
        if n < 10 {
            assert(out@ =~= old(out)@ + decimal(n as nat));
        } else {
            assert(out@ =~= old(out)@ + decimal(n as nat / 10).push(digit_char(n as nat % 10)));
        }
    }
}

/// The number of decimal digits.
fn decimal_len(n: u64) -> (len: usize)
    ensures
        len == decimal(n as nat).len(),
        1 <= len <= 20,
{
    let mut rest: u64 = n;
    let mut len: usize = 1;
    proof {
        reveal_with_fuel(ten_to, 21);
        lemma_decimal_len(n as nat, 20);
    }
    while rest >= 10
        invariant
            len + decimal(rest as nat).len() == 1 + decimal(n as nat).len(),
            decimal(n as nat).len() <= 20,
            1 <= len,
            decimal(rest as nat).len() >= 1,
        decreases rest,
    {
        assert(decimal(rest as nat).len() == decimal((rest / 10) as nat).len() + 1);
        proof {
            lemma_decimal_nonempty((rest / 10) as nat);
        }
        rest = rest / 10;
        len = len + 1;
    }
    len
}

proof fn lemma_decimal_nonempty(n: nat)
    ensures
        decimal(n).len() >= 1,
    decreases n,
{
    if n >= 10 {
        lemma_decimal_nonempty(n / 10);
    }
}

spec fn ten_to(width: nat) -> nat
    decreases width,
{
    if width == 0 {
        1
    } else {
        10 * ten_to((width - 1) as nat)
    }
}

proof fn lemma_decimal_len(n: nat, width: nat)
    requires
        width >= 1,
        n < ten_to(width),
    ensures
        1 <= decimal(n).len() <= width,
    decreases width,
{
    reveal_with_fuel(ten_to, 2);
    if n >= 10 {
        lemma_decimal_len(n / 10, (width - 1) as nat);
    }
}

/// Appends a number in decimal digits, led by zeros up to the given width.
pub fn push_zero_padded(out: &mut String, n: u64, width: usize)
    ensures
        final(out)@ == old(out)@ + zero_padded(n as nat, width as nat),
{
    let len: usize = decimal_len(n);
    let ghost start = out@;
    let mut i: usize = len;
    proof {
        reveal_strlit("0");
        assert(start + zeros(0) =~= start);
    }
    while i < width
        invariant
            len <= i,
            i <= width || i == len,
            out@ == start + zeros((i - len) as nat),
        decreases width - i,
    {
        proof {
            reveal_strlit("0");
        }
        out.append("0");
        i = i + 1;
        assert(start + zeros((i - len) as nat) =~= start + zeros((i - 1 - len) as nat) + "0"@);
    }
    push_decimal(out, n);
    proof {
        if len < width {
            assert(start + zeros((width - len) as nat) + decimal(n as nat) =~= start + (zeros(
                (width - len) as nat,
            ) + decimal(n as nat)));
        }
    }
}

/// The pieces of a text between the separators.
pub fn split_chars(s: &Vec<char>, separator: char) -> (v: Vec<Vec<char>>)
    ensures
        piece_views(v@) == pieces(s@, separator),
        v@.len() >= 1,
{
    let mut done: Vec<Vec<char>> = Vec::new();
    let mut last: Vec<char> = Vec::new();
    let mut i: usize = 0;
    proof {
        assert(s@.take(0) =~= Seq::<char>::empty());
        assert(piece_views(done@).push(last@) =~= seq![Seq::<char>::empty()]);
    }
    while i < s.len()
        invariant
            i <= s@.len(),
            piece_views(done@).push(last@) == pieces(s@.take(i as int), separator),
        decreases s@.len() - i,
    {
        let c: char = s[i];
        let ghost before = piece_views(done@);
        let ghost before_last = last@;
        i = i + 1;
        assert(s@.take(i as int).drop_last() =~= s@.take(i - 1));
        if c == separator {
            let mut next: Vec<char> = Vec::new();
            core::mem::swap(&mut next, &mut last);
            done.push(next);
            assert(piece_views(done@) =~= before.push(before_last));
        } else {
            last.push(c);
            assert(before.push(before_last).drop_last() =~= before);
        }
    }
    assert(s@.take(i as int) =~= s@);
    let ghost parts = piece_views(done@);
    let ghost tail = last@;
    done.push(last);
    assert(piece_views(done@) =~= parts.push(tail));
    assert(piece_views(done@).len() == done@.len());
    done
}

proof fn lemma_digits_value_grows(s: Seq<char>, n: int)
    requires
        0 <= n <= s.len(),
        all_digits(s),
    ensures
        digits_value(s.take(n)) <= digits_value(s),
    decreases s.len() - n,
{
    if n < s.len() {
        lemma_digits_value_grows(s, n + 1);
        assert(s.take(n + 1).drop_last() =~= s.take(n));
        assert(is_digit(s[n]));
    } else {
        assert(s.take(n) =~= s);
    }
}

/// The number that a text stands for.
pub fn parse_number(s: &Vec<char>) -> (r: Option<u32>)
    ensures
        r == parsed_number(s@),
{
    let start: usize = if s.len() > 0 && s[0] == '+' {
        1
    } else {
        0
    };
    let ghost digits = unsigned_part(s@);
    assert(digits =~= s@.skip(start as int));
    if s.len() == start {
        return None;
    }
    let mut value: u64 = 0;
    let mut i: usize = start;
    assert(digits.take(0) =~= Seq::<char>::empty());
    while i < s.len()
        invariant
            start <= i <= s@.len(),
            start <= 1,
            digits == s@.skip(start as int),
            digits == unsigned_part(s@),
            digits.len() > 0,
            all_digits(digits.take(i - start)),
            value == digits_value(digits.take(i - start)),
            value <= u32::MAX,
        decreases s@.len() - i,
    {
        let c: char = s[i];
        assert(digits[i - start] == c);
        if c < '0' || '9' < c {
            assert(!is_digit(digits[i - start]));
            return None;
        }
        assert(digits.take(i + 1 - start).drop_last() =~= digits.take(i - start));
        assert(all_digits(digits.take(i + 1 - start))) by {
            assert forall|k: int| 0 <= k < i + 1 - start implies is_digit(
                #[trigger] digits.take(i + 1 - start)[k],
            ) by {
                if k < i - start {
                    assert(digits.take(i + 1 - start)[k] == digits.take(i - start)[k]);
                }
            }
        }
        value = value * 10 + (c as u64 - '0' as u64);
        i = i + 1;
        if value > u32::MAX as u64 {
            proof {
                if all_digits(digits) {
                    lemma_digits_value_grows(digits, i - start);
                }
            }
            return None;
        }
    }
    assert(digits.take(i - start) =~= digits);
    Some(value as u32)
}

/// Decimal digits are digits, at least one of them, and stand for their number.
pub proof fn lemma_decimal_stands_for_its_number(n: nat)
    ensures
        all_digits(decimal(n)),
        decimal(n).len() >= 1,
        digits_value(decimal(n)) == n,
    decreases n,
{
    assert(is_digit(digit_char(n % 10)));
    if n >= 10 {
        lemma_decimal_stands_for_its_number(n / 10);
        assert(decimal(n).drop_last() =~= decimal(n / 10));
    } else {
        assert(decimal(n).drop_last() =~= Seq::<char>::empty());
        reveal_with_fuel(digits_value, 2);
    }
}

proof fn lemma_leading_zeros(count: nat, s: Seq<char>)
    ensures
        digits_value(zeros(count) + s) == digits_value(s),
    decreases count, s.len(),
{
    let t = zeros(count) + s;
    if s.len() > 0 {
        lemma_leading_zeros(count, s.drop_last());
        assert(t.drop_last() =~= zeros(count) + s.drop_last());
    } else if count > 0 {
        lemma_leading_zeros((count - 1) as nat, s);
        assert(t.drop_last() =~= zeros((count - 1) as nat) + s);
    }
}

/// A number of 32 bits is read back from its digits, however many zeros lead them.
pub proof fn lemma_number_reads_back(n: nat, width: nat)
    requires
        n <= u32::MAX,
    ensures
        parsed_number(zero_padded(n, width)) == Some(n as u32),
        all_digits(zero_padded(n, width)),
        zero_padded(n, width).len() >= width,
        zero_padded(n, width).len() >= 1,
{
    lemma_decimal_stands_for_its_number(n);
    let digits = decimal(n);
    if digits.len() < width {
        lemma_leading_zeros((width - digits.len()) as nat, digits);
    }
    assert(is_digit(zero_padded(n, width)[0]));
}

/// A text without a separator is one piece.
pub proof fn lemma_one_piece(s: Seq<char>, separator: char)
    requires
        forall|i: int| 0 <= i < s.len() ==> #[trigger] s[i] != separator,
    ensures
        pieces(s, separator) == seq![s],
    decreases s.len(),
{
    if s.len() > 0 {
        lemma_one_piece(s.drop_last(), separator);
        let before = pieces(s.drop_last(), separator);
        assert(before.drop_last().push(before.last().push(s.last())) =~= seq![s]) by {
            assert(s.drop_last().push(s.last()) =~= s);
        }
    } else {
        assert(s =~= Seq::<char>::empty());
    }
}

/// A text that starts with a piece and a separator has that piece, and then the
/// pieces of the rest.
pub proof fn lemma_first_piece(first: Seq<char>, separator: char, rest: Seq<char>)
    requires
        forall|i: int| 0 <= i < first.len() ==> #[trigger] first[i] != separator,
    ensures
        pieces(first + seq![separator] + rest, separator) == seq![first] + pieces(rest, separator),
    decreases rest.len(),
{
    let s = first + seq![separator] + rest;
    if rest.len() == 0 {
        lemma_one_piece(first, separator);
        assert(s.drop_last() =~= first);
        assert(s.last() == separator);
        assert(seq![first].push(Seq::<char>::empty()) =~= seq![first] + seq![Seq::<char>::empty()]);
    } else {
        let shorter = rest.drop_last();
        lemma_first_piece(first, separator, shorter);
        assert(s.drop_last() =~= first + seq![separator] + shorter);
        assert(s.last() == rest.last());
        let before = pieces(shorter, separator);
        lemma_some_piece(shorter, separator);
        let all = seq![first] + before;
        assert(all.last() == before.last());
        if rest.last() == separator {
            assert(all.push(Seq::<char>::empty()) =~= seq![first] + before.push(
                Seq::<char>::empty(),
            ));
        } else {
            assert(all.drop_last().push(all.last().push(rest.last())) =~= seq![first]
                + before.drop_last().push(before.last().push(rest.last())));
        }
    }
}

proof fn lemma_some_piece(s: Seq<char>, separator: char)
    ensures
        pieces(s, separator).len() >= 1,
    decreases s.len(),
{
    if s.len() > 0 {
        lemma_some_piece(s.drop_last(), separator);
    }
}

/// A text of one character is a number just if it is a decimal digit, and nothing
/// at all, or a plus sign alone, is none.
pub proof fn lemma_one_digit_is_its_number(c: char)
    ensures
        parsed_number(seq![c]) == (if '0' <= c && c <= '9' {
            Some((c as int - '0' as int) as u32)
        } else {
            None
        }),
        parsed_number(Seq::empty()) is None,
        parsed_number(seq!['+']) is None,
{
    let s = seq![c];
    reveal_with_fuel(digits_value, 2);
    assert(s.drop_last() =~= Seq::<char>::empty());
    assert(s[0] == c);
    if c == '+' {
        assert(unsigned_part(s).len() == 0);
    } else {
        assert(unsigned_part(s) == s);
        assert(s.last() == c);
    }
    assert(unsigned_part(seq!['+']).len() == 0);
}

/// Another digit behind a number makes ten times the number and the digit, if that
/// takes no more than 32 bits. Another character makes it none.
pub proof fn lemma_another_digit_is_ten_times(s: Seq<char>, c: char)
    requires
        s.len() > 0,
        s.len() > 1 || s[0] != '+',
    ensures
        parsed_number(s.push(c)) == (match parsed_number(s) {
            Some(n) => if '0' <= c && c <= '9' && n * 10 + (c as int - '0' as int) <= 0xFFFF_FFFF {
                Some((n * 10 + (c as int - '0' as int)) as u32)
            } else {
                None
            },
            None => None,
        }),
{
    let digits = unsigned_part(s);
    let more = unsigned_part(s.push(c));
    assert(more =~= digits.push(c));
    assert(more.drop_last() =~= digits);
    assert(more.last() == c);
    if all_digits(more) {
        assert forall|i: int| 0 <= i < digits.len() implies is_digit(#[trigger] digits[i]) by {
            assert(more[i] == digits[i]);
        }
        assert(is_digit(more[digits.len() as int]));
    }
    if all_digits(digits) && is_digit(c) {
        assert forall|i: int| 0 <= i < more.len() implies is_digit(#[trigger] more[i]) by {
            if i < digits.len() {
                assert(more[i] == digits[i]);
            }
        }
    }
}

/// A plus sign in front of what has none changes nothing.
pub proof fn lemma_plus_sign_changes_nothing(s: Seq<char>)
    requires
        s.len() > 0,
        s[0] != '+',
    ensures
        parsed_number(seq!['+'] + s) == parsed_number(s),
        parsed_number(seq!['+', '+'] + s) is None,
{
    assert((seq!['+'] + s).skip(1) =~= s);
    let twice = seq!['+', '+'] + s;
    assert(twice.skip(1)[0] == '+');
    assert(!is_digit(unsigned_part(twice)[0]));
}

/// Decimal digits stand for their number by tens, and none of them is a leading
/// zero but that of zero itself.
pub proof fn lemma_decimal_by_tens(n: nat)
    ensures
        n < 10 ==> decimal(n).len() == 1 && decimal(n)[0] as int == '0' as int + n,
        n >= 10 ==> decimal(n).len() == decimal(n / 10).len() + 1 && decimal(n).drop_last()
            == decimal(n / 10) && decimal(n).last() as int == '0' as int + n % 10,
        n > 0 ==> decimal(n)[0] != '0',
    decreases n,
{
    if n >= 10 {
        lemma_decimal_by_tens(n / 10);
        lemma_decimal_nonempty(n / 10);
        assert(decimal(n).drop_last() =~= decimal(n / 10));
        assert(decimal(n)[0] == decimal(n / 10)[0]);
    }
}

/// Padding puts zeros in front of the digits of a number, as many as bring it to the
/// width, and none where it is that wide.
pub proof fn lemma_padding_is_zeros_in_front(n: nat, width: nat)
    ensures
        ({
            let s = zero_padded(n, width);
            let d = decimal(n);
            &&& s.len() == (if d.len() < width {
                width
            } else {
                d.len()
            })
            &&& s.skip(s.len() - d.len()) == d
            &&& forall|i: int| 0 <= i < s.len() - d.len() ==> #[trigger] s[i] == '0'
        }),
{
    let s = zero_padded(n, width);
    assert(s.skip(s.len() - decimal(n).len()) =~= decimal(n));
}

/// Pieces put together again, with a separator between each and the next, are the
/// text, and none of them holds the separator.
pub proof fn lemma_pieces_make_up_the_text(s: Seq<char>, separator: char)
    ensures
        pieces(s, separator).len() >= 1,
        joined(pieces(s, separator), separator) == s,
        forall|i: int, k: int|
            0 <= i < pieces(s, separator).len() && 0 <= k < pieces(s, separator)[i].len()
                ==> #[trigger] pieces(s, separator)[i][k] != separator,
    decreases s.len(),
{
    let all = pieces(s, separator);
    if s.len() == 0 {
        reveal_with_fuel(joined, 2);
        assert(joined(all, separator) =~= s);
    } else {
        let before = pieces(s.drop_last(), separator);
        lemma_pieces_make_up_the_text(s.drop_last(), separator);
        assert(s.drop_last().push(s.last()) =~= s);
        if s.last() == separator {
            assert(all.drop_last() =~= before);
            assert(joined(all, separator) =~= joined(before, separator).push(separator));
            assert forall|i: int, k: int|
                0 <= i < all.len() && 0 <= k < all[i].len() implies #[trigger] all[i][k]
                != separator by {
                assert(i < before.len());
                assert(before[i][k] != separator);
            }
        } else {
            let last = before.last();
            assert(all.drop_last() =~= before.drop_last());
            assert(all.last() == last.push(s.last()));
            if before.len() == 1 {
                assert(joined(before, separator) == last);
                assert(joined(all, separator) == all.last());
            } else {
                let head = joined(before.drop_last(), separator).push(separator);
                assert(joined(before, separator) == head + last);
                assert(joined(all, separator) == head + all.last());
                assert(head + last.push(s.last()) =~= (head + last).push(s.last()));
            }
            assert forall|i: int, k: int|
                0 <= i < all.len() && 0 <= k < all[i].len() implies #[trigger] all[i][k]
                != separator by {
                if i < before.len() - 1 {
                    assert(before[i][k] != separator);
                } else if k < last.len() {
                    assert(before[before.len() - 1][k] != separator);
                }
            }
        }
    }
}

/// Pieces put together, with a separator between each and the next.
pub open spec fn joined(p: Seq<Seq<char>>, separator: char) -> Seq<char>
    decreases p.len(),
{
    if p.len() == 0 {
        Seq::empty()
    } else if p.len() == 1 {
        p[0]
    } else {
        joined(p.drop_last(), separator).push(separator) + p.last()
    }
}

} // verus!
