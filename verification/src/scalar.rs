//! Double precision numbers, carried by their bits and compared by their value.

use vstd::arithmetic::power2::{
    lemma2_to64, lemma2_to64_rest, lemma_pow2_adds, lemma_pow2_pos, lemma_pow2_strictly_increases,
    lemma_pow2_unfold, pow2,
};
use vstd::prelude::*;

verus! {

/// The sign bit of a binary64 number.
pub const SIGN_BIT: u64 = 0x8000_0000_0000_0000;

/// Bits of positive infinity; greater magnitudes are not numbers.
pub const INFINITY_BITS: u64 = 0x7FF0_0000_0000_0000;

/// Bits of the greatest finite number.
pub const MAX_BITS: u64 = 0x7FEF_FFFF_FFFF_FFFF;

/// Weight of the implicit leading digit of a normal number.
pub const HIDDEN_BIT: u64 = 0x0010_0000_0000_0000;

/// One, in units of the least positive number, is two to this power.
pub const UNIT_EXPONENT: u64 = 1074;

/// Bits of one.
pub const ONE_BITS: u64 = 0x3FF0_0000_0000_0000;

/// A binary64 number, given by its bits.
#[derive(Clone, Copy, PartialEq, Eq, Structural, Debug)]
pub struct Scalar {
    pub bits: u64,
}

/// The magnitude that the low 63 bits of a binary64 number stand for, in units
/// of the least positive number. Infinity stands above every finite number.
pub open spec fn magnitude(low: nat) -> nat {
    let exponent = low / (HIDDEN_BIT as nat);
    let fraction = low % (HIDDEN_BIT as nat);
    if exponent == 0 {
        fraction
    } else {
        (HIDDEN_BIT as nat + fraction) * pow2((exponent - 1) as nat)
    }
}

impl Scalar {
    /// Whether the number is less than zero, or a negative zero.
    pub open spec fn negative(self) -> bool {
        self.bits >= SIGN_BIT
    }

    /// The bits without the sign.
    pub open spec fn low(self) -> nat {
        if self.negative() {
            (self.bits - SIGN_BIT) as nat
        } else {
            self.bits as nat
        }
    }

    /// Whether the bits stand for no number at all.
    pub open spec fn is_nan(self) -> bool {
        self.low() > INFINITY_BITS
    }

    /// The number, in units of the least positive one.
    pub open spec fn value(self) -> int {
        if self.negative() {
            -(magnitude(self.low()) as int)
        } else {
            magnitude(self.low()) as int
        }
    }

    /// Strictly less: false as soon as one side is not a number.
    pub open spec fn lt(self, other: Scalar) -> bool {
        !self.is_nan() && !other.is_nan() && self.value() < other.value()
    }

    /// Less or equal: false as soon as one side is not a number.
    pub open spec fn le(self, other: Scalar) -> bool {
        !self.is_nan() && !other.is_nan() && self.value() <= other.value()
    }

    /// Less than a number of halves, quarters, or other halvings of one.
    pub open spec fn under(self, parts: int, halvings: nat) -> bool {
        !self.is_nan() && self.value() * pow2(halvings) < parts * pow2(UNIT_EXPONENT as nat)
    }

    /// A number of halves, quarters, or other halvings of one, or more.
    pub open spec fn reaches(self, parts: int, halvings: nat) -> bool {
        !self.is_nan() && self.value() * pow2(halvings) >= parts * pow2(UNIT_EXPONENT as nat)
    }

    /// More than a whole number.
    pub open spec fn exceeds(x: Scalar, whole: int) -> bool {
        !x.is_nan() && x.value() > whole * pow2(UNIT_EXPONENT as nat)
    }

    /// To exceed a whole number is to be greater than the number that stands for it.
    pub proof fn lemma_exceeds(x: Scalar, limit: Scalar, whole: int)
        requires
            !limit.is_nan(),
            limit.value() * pow2(0) == whole * pow2(UNIT_EXPONENT as nat),
        ensures
            limit.lt(x) <==> Scalar::exceeds(x, whole),
    {
        lemma2_to64();
        assert(pow2(0) == 1);
    }

    /// What is not less than a number is not under a bound that the number keeps.
    pub proof fn lemma_under_is_downward(x: Scalar, y: Scalar, parts: int, halvings: nat)
        requires
            !y.is_nan(),
            !x.lt(y),
            !y.under(parts, halvings),
        ensures
            !x.under(parts, halvings),
    {
        if !x.is_nan() {
            lemma_pow2_pos(halvings);
            lemma_scaling_orders(x.value(), y.value(), pow2(halvings) as int);
        }
    }

    /// The greatest finite number is above each number of 32 bits.
    pub proof fn lemma_under_is_finite(whole: u32)
        ensures
            !(Scalar { bits: MAX_BITS }).is_nan(),
            !(Scalar { bits: MAX_BITS }).under(whole as int, 0),
    {
        let far = Scalar { bits: MAX_BITS };
        let h = HIDDEN_BIT as nat;
        lemma2_to64();
        lemma2_to64_rest();
        assert(pow2(0) == 1);
        assert(far.low() == MAX_BITS as nat);
        assert(MAX_BITS as nat / h == 2046);
        assert(far.value() >= h * pow2(2045)) by (nonlinear_arith)
            requires
                far.value() == (h + MAX_BITS as nat % h) * pow2(2045),
        ;
        lemma_pow2_adds(52, 2045);
        lemma_pow2_adds(32, 1074);
        lemma_pow2_strictly_increases(1106, 2097);
        let one = pow2(1074) as int;
        lemma_pow2_pos(1074);
        assert(whole * one <= 0x1_0000_0000 * one) by (nonlinear_arith)
            requires
                whole <= 0x1_0000_0000,
                one > 0,
        ;
    }

    /// A number of halves, quarters, or other halvings of one.
    pub fn of_parts(parts: u32, halvings: u32) -> (r: Scalar)
        requires
            halvings <= 64,
        ensures
            !r.is_nan(),
            r.value() * pow2(halvings as nat) == parts * pow2(UNIT_EXPONENT as nat),
    {
        if parts == 0 {
            proof {
                lemma_magnitude_zero();
                assert(0 * pow2(halvings as nat) == 0 && 0 * pow2(UNIT_EXPONENT as nat) == 0)
                    by (nonlinear_arith);
            }
            return Scalar { bits: 0 };
        }
        let mut digits: u64 = parts as u64;
        let mut doublings: u64 = 0;
        proof {
            lemma2_to64();
            lemma2_to64_rest();
        }
        while digits < HIDDEN_BIT
            invariant
                0 < digits < 2 * HIDDEN_BIT,
                digits == parts * pow2(doublings as nat),
                doublings <= 52,
                pow2(52) == HIDDEN_BIT,
                parts > 0,
            decreases 2 * HIDDEN_BIT - digits,
        {
            proof {
                lemma_pow2_unfold((doublings + 1) as nat);
                let p = pow2(doublings as nat);
                assert(parts * (2 * p) == 2 * (parts * p)) by (nonlinear_arith);
                if doublings == 52 {
                    assert(parts * p >= p) by (nonlinear_arith)
                        requires
                            parts > 0,
                            p > 0,
                    ;
                }
            }
            digits = digits * 2;
            doublings = doublings + 1;
        }
        let exponent: u64 = 1075 - doublings - halvings as u64;
        proof {
            let h = HIDDEN_BIT as int;
            let fraction = digits - HIDDEN_BIT;
            let low = exponent * h + fraction;
            assert(959 <= exponent <= 1075);
            assert(low < 1076 * h);
            assert(low / h == exponent && low % h == fraction) by (nonlinear_arith)
                requires
                    low == exponent * h + fraction,
                    0 <= fraction < h,
            ;
            let up = pow2((exponent - 1) as nat);
            let down = pow2(halvings as nat);
            lemma_pow2_adds((exponent - 1) as nat, halvings as nat);
            lemma_pow2_adds(doublings as nat, (1074 - doublings) as nat);
            let p = pow2(doublings as nat);
            let q = pow2((1074 - doublings) as nat);
            assert(exponent - 1 + halvings == 1074 - doublings);
            assert(((parts * p) * up) * down == parts * (p * (up * down))) by (nonlinear_arith);
            assert(magnitude(low as nat) == digits * up);
        }
        Scalar { bits: exponent * HIDDEN_BIT + (digits - HIDDEN_BIT) }
    }

    /// Less than a number of halves, quarters, or other halvings of one.
    pub fn is_under(&self, parts: u32, halvings: u32) -> (r: bool)
        requires
            halvings <= 64,
        ensures
            r == self.under(parts as int, halvings as nat),
    {
        let limit: Scalar = Scalar::of_parts(parts, halvings);
        proof {
            lemma_pow2_pos(halvings as nat);
            lemma_scaling_orders(self.value(), limit.value(), pow2(halvings as nat) as int);
        }
        self.less(&limit)
    }

    /// A number of halves, quarters, or other halvings of one, or more.
    pub fn is_at_least(&self, parts: u32, halvings: u32) -> (r: bool)
        requires
            halvings <= 64,
        ensures
            r == self.reaches(parts as int, halvings as nat),
    {
        !self.not_a_number() && !self.is_under(parts, halvings)
    }

    /// Whether the number is finite and at least one.
    pub open spec fn from_one_on(self) -> bool {
        self.reaches(1, 0) && self.bits < INFINITY_BITS
    }

    /// Twice the number, or infinity where that is out of reach.
    pub fn doubled(self) -> (r: Scalar)
        requires
            self.from_one_on() || self.bits == INFINITY_BITS,
        ensures
            r.from_one_on() || r.bits == INFINITY_BITS,
            self.bits < MAX_BITS - HIDDEN_BIT + 1 ==> r.from_one_on() && r.value() == 2
                * self.value(),
            self.bits >= MAX_BITS - HIDDEN_BIT + 1 ==> r.bits == INFINITY_BITS,
    {
        proof {
            lemma_one();
            lemma2_to64();
            lemma_pow2_pos(UNIT_EXPONENT as nat);
            if self.bits < ONE_BITS {
                lemma_magnitude_orders(self.bits as nat, ONE_BITS as nat);
            }
            if self.bits < INFINITY_BITS {
                lemma_next_exponent(self.bits as nat);
            }
        }
        if self.bits >= MAX_BITS - HIDDEN_BIT + 1 {
            Scalar { bits: INFINITY_BITS }
        } else {
            Scalar { bits: self.bits + HIDDEN_BIT }
        }
    }

    /// Half the number, but not less than one. Infinity stays infinite.
    pub fn halved(self) -> (r: Scalar)
        requires
            self.from_one_on() || self.bits == INFINITY_BITS,
        ensures
            r.from_one_on() || r.bits == INFINITY_BITS,
            self.bits == INFINITY_BITS ==> r == self,
            self.from_one_on() && self.reaches(2, 0) ==> r.from_one_on() && 2 * r.value()
                == self.value(),
            self.from_one_on() && !self.reaches(2, 0) ==> r.bits == ONE_BITS,
    {
        proof {
            lemma_one();
            lemma2_to64();
            if self.bits < ONE_BITS {
                lemma_magnitude_orders(self.bits as nat, ONE_BITS as nat);
            }
            if self.bits < INFINITY_BITS {
                lemma_pow2_pos(UNIT_EXPONENT as nat);
                lemma_next_exponent(ONE_BITS as nat);
                let two = (ONE_BITS + HIDDEN_BIT) as nat;
                lemma_magnitude_orders(self.bits as nat, two);
                lemma_magnitude_orders(two, self.bits as nat);
                if self.bits >= two {
                    lemma_next_exponent((self.bits - HIDDEN_BIT) as nat);
                }
            }
        }
        if self.bits == INFINITY_BITS {
            self
        } else if self.bits >= ONE_BITS + HIDDEN_BIT {
            Scalar { bits: self.bits - HIDDEN_BIT }
        } else {
            Scalar { bits: ONE_BITS }
        }
    }

    /// The whole part of a number from one on and less than two to the 52.
    pub fn whole_part(&self) -> (r: u64)
        requires
            self.from_one_on(),
            self.bits < (1023 + 52) * HIDDEN_BIT,
        ensures
            r * pow2(UNIT_EXPONENT as nat) <= self.value() < (r + 1) * pow2(UNIT_EXPONENT as nat),
    {
        proof {
            lemma_one();
            lemma2_to64();
            lemma2_to64_rest();
            if self.bits < ONE_BITS {
                lemma_magnitude_orders(self.bits as nat, ONE_BITS as nat);
            }
            lemma_pow2_pos(UNIT_EXPONENT as nat);
        }
        let exponent: u64 = self.bits / HIDDEN_BIT;
        let digits: u64 = HIDDEN_BIT + self.bits % HIDDEN_BIT;
        let mut rest: u64 = digits;
        let mut due: u64 = 1075 - exponent;
        let ghost places = due as nat;
        proof {
            assert(exponent >= 1023);
            assert(self.value() == digits * pow2((exponent - 1) as nat));
            assert(digits * pow2(0) == digits && (digits + 1) * pow2(0) == digits + 1)
                by (nonlinear_arith)
                requires
                    pow2(0) == 1,
            ;
        }
        while due > 0
            invariant
                due <= places <= 52,
                rest * pow2((places - due) as nat) <= digits < (rest + 1) * pow2(
                    (places - due) as nat,
                ),
                rest <= digits,
                digits < 2 * HIDDEN_BIT,
            decreases due,
        {
            proof {
                let p = pow2((places - due) as nat) as int;
                lemma_pow2_unfold((places - due + 1) as nat);
                let half = rest as int / 2;
                assert(half * (2 * p) <= rest * p && (rest + 1) * p <= (half + 1) * (2 * p))
                    by (nonlinear_arith)
                    requires
                        2 * half <= rest,
                        rest + 1 <= 2 * half + 2,
                        p >= 0,
                ;
            }
            rest = rest / 2;
            due = due - 1;
        }
        proof {
            let p = pow2(places) as int;
            let q = pow2((exponent - 1) as nat) as int;
            lemma_pow2_pos((exponent - 1) as nat);
            lemma_pow2_adds(places, (exponent - 1) as nat);
            assert(p * q == pow2(UNIT_EXPONENT as nat));
            assert(rest * (p * q) <= digits * q && digits * q < (rest + 1) * (p * q))
                by (nonlinear_arith)
                requires
                    rest * p <= digits,
                    digits < (rest + 1) * p,
                    q > 0,
            ;
        }
        rest
    }

    /// The number on the other side of zero.
    pub fn negated(self) -> (r: Scalar)
        ensures
            r.is_nan() == self.is_nan(),
            r.value() == -self.value(),
    {
        if self.bits >= SIGN_BIT {
            Scalar { bits: self.bits - SIGN_BIT }
        } else {
            Scalar { bits: self.bits + SIGN_BIT }
        }
    }

    /// Positive infinity.
    pub fn infinity() -> (r: Scalar)
        ensures
            r.bits == INFINITY_BITS,
            !r.is_nan(),
    {
        Scalar { bits: INFINITY_BITS }
    }

    /// The greatest finite number.
    pub fn max_finite() -> (r: Scalar)
        ensures
            r.bits == MAX_BITS,
            !r.is_nan(),
    {
        Scalar { bits: MAX_BITS }
    }

    /// Whether the bits stand for no number at all.
    pub fn not_a_number(&self) -> (r: bool)
        ensures
            r == self.is_nan(),
    {
        if self.bits >= SIGN_BIT {
            self.bits - SIGN_BIT > INFINITY_BITS
        } else {
            self.bits > INFINITY_BITS
        }
    }

    /// Strictly less, as numbers are compared.
    pub fn less(&self, other: &Scalar) -> (r: bool)
        ensures
            r == self.lt(*other),
    {
        if self.not_a_number() || other.not_a_number() {
            return false;
        }
        proof {
            lemma_magnitude_orders(self.low(), other.low());
            lemma_magnitude_orders(other.low(), self.low());
            lemma_magnitude_zero();
            lemma_magnitude_orders(0, self.low());
            lemma_magnitude_orders(0, other.low());
        }
        if self.bits >= SIGN_BIT {
            if other.bits >= SIGN_BIT {
                self.bits > other.bits
            } else {
                self.bits > SIGN_BIT || other.bits > 0
            }
        } else {
            other.bits < SIGN_BIT && self.bits < other.bits
        }
    }

    /// The number itself where it lies between the bounds, else the bound that
    /// it passes. What is not a number stays as it is.
    pub fn clamp(self, low: Scalar, high: Scalar) -> (r: Scalar)
        requires
            low.le(high),
        ensures
            self.lt(low) ==> r == low,
            high.lt(self) ==> r == high,
            !self.lt(low) && !high.lt(self) ==> r == self,
            !self.is_nan() ==> low.le(r) && r.le(high),
    {
        if self.less(&low) {
            low
        } else if high.less(&self) {
            high
        } else {
            self
        }
    }
}

/// The bits of one stand for one.
pub proof fn lemma_one()
    ensures
        magnitude(ONE_BITS as nat) == pow2(UNIT_EXPONENT as nat),
        (Scalar { bits: ONE_BITS }).value() == pow2(UNIT_EXPONENT as nat),
        (Scalar { bits: ONE_BITS }).from_one_on(),
{
    lemma2_to64();
    lemma2_to64_rest();
    assert(ONE_BITS as nat / HIDDEN_BIT as nat == 1023);
    assert(ONE_BITS as nat % HIDDEN_BIT as nat == 0);
    lemma_pow2_adds(52, 1022);
    assert(pow2(0) == 1);
    assert(pow2(52) == HIDDEN_BIT);
}

proof fn lemma_next_exponent(low: nat)
    requires
        low >= HIDDEN_BIT,
    ensures
        magnitude(low + HIDDEN_BIT as nat) == 2 * magnitude(low),
{
    let h = HIDDEN_BIT as nat;
    let e = low / h;
    let f = low % h;
    vstd::arithmetic::div_mod::lemma_fundamental_div_mod(low as int, h as int);
    vstd::arithmetic::div_mod::lemma_fundamental_div_mod_converse(
        (low + h) as int,
        h as int,
        (e + 1) as int,
        f as int,
    );
    assert(e >= 1) by (nonlinear_arith)
        requires
            low == h * e + f,
            low >= h,
            f < h,
            h > 0,
    ;
    lemma_pow2_unfold(e);
    let p = pow2((e - 1) as nat);
    assert((h + f) * (2 * p) == 2 * ((h + f) * p)) by (nonlinear_arith);
}

proof fn lemma_scaling_orders(a: int, b: int, p: int)
    requires
        p > 0,
    ensures
        a < b <==> a * p < b * p,
{
    assert(a < b <==> a * p < b * p) by (nonlinear_arith)
        requires
            p > 0,
    ;
}

/// Zero stands for zero.
pub proof fn lemma_magnitude_zero()
    ensures
        magnitude(0) == 0,
{
}

/// Greater bits stand for a greater magnitude.
pub proof fn lemma_magnitude_orders(a: nat, b: nat)
    ensures
        a < b ==> magnitude(a) < magnitude(b),
        a == b ==> magnitude(a) == magnitude(b),
{
    if a < b {
        let h = HIDDEN_BIT as nat;
        let ea = a / h;
        let eb = b / h;
        let fa = a % h;
        let fb = b % h;
        assert(a == h * ea + fa && b == h * eb + fb) by {
            vstd::arithmetic::div_mod::lemma_fundamental_div_mod(a as int, h as int);
            vstd::arithmetic::div_mod::lemma_fundamental_div_mod(b as int, h as int);
        }
        assert(0 <= fa < h && 0 <= fb < h);
        assert(ea <= eb) by (nonlinear_arith)
            requires
                a < b,
                a == h * ea + fa,
                b == h * eb + fb,
                0 <= fa < h,
                0 <= fb < h,
        ;
        if ea == eb {
            assert(fa < fb);
            if ea > 0 {
                let p = pow2((ea - 1) as nat);
                lemma_pow2_pos((ea - 1) as nat);
                assert((h + fa) * p < (h + fb) * p) by (nonlinear_arith)
                    requires
                        fa < fb,
                        p > 0,
                ;
            }
        } else {
            let q = pow2((eb - 1) as nat);
            lemma_pow2_pos((eb - 1) as nat);
            assert((h + fb) * q >= h * q) by (nonlinear_arith)
                requires
                    q > 0,
                    fb >= 0,
            ;
            if ea == 0 {
                assert(h * q >= h) by (nonlinear_arith)
                    requires
                        q > 0,
                        h > 0,
                ;
            } else {
                let p = pow2((ea - 1) as nat);
                lemma_pow2_pos((ea - 1) as nat);
                lemma_pow2_unfold(ea);
                if ea < eb - 1 {
                    lemma_pow2_strictly_increases(ea, (eb - 1) as nat);
                }
                assert((h + fa) * p < h * q) by (nonlinear_arith)
                    requires
                        fa < h,
                        p > 0,
                        2 * p <= q,
                ;
            }
        }
    }
}

/// What the bits of a number stand for: with an exponent, two to the 52 and the
/// fraction, doubled so many times as the exponent exceeds one; without, the fraction
/// itself. The sign bit leads to the other side of zero.
pub proof fn lemma_value_by_bits(exponent: u64, fraction: u64)
    requires
        exponent < 2048,
        fraction < 0x10_0000_0000_0000,
    ensures
        ({
            let low = exponent * 0x10_0000_0000_0000 + fraction;
            let plus = Scalar { bits: low as u64 };
            let minus = Scalar { bits: (low + 0x8000_0000_0000_0000) as u64 };
            &&& exponent > 0 ==> plus.value() == (0x10_0000_0000_0000 + fraction) * pow2(
                (exponent - 1) as nat,
            )
            &&& exponent == 0 ==> plus.value() == fraction
            &&& minus.value() == -plus.value()
            &&& plus.is_nan() <==> exponent == 2047 && fraction > 0
            &&& minus.is_nan() <==> plus.is_nan()
        }),
{
    let h = HIDDEN_BIT as int;
    let low = exponent * h + fraction;
    assert(low / h == exponent && low % h == fraction) by (nonlinear_arith)
        requires
            low == exponent * h + fraction,
            0 <= fraction < h,
    ;
    assert(low <= 2047 * h + fraction);
}

/// Numbers are compared by their value, and nothing compares with what is not a
/// number. To be under a number of halves, quarters and so on is to have a lesser
/// value, to reach it a value that is not less, and to exceed it a greater one.
pub proof fn lemma_comparisons_by_value(x: Scalar, y: Scalar, parts: int, halvings: nat)
    ensures
        x.lt(y) <==> !x.is_nan() && !y.is_nan() && x.value() < y.value(),
        x.le(y) <==> !x.is_nan() && !y.is_nan() && x.value() <= y.value(),
        x.under(parts, halvings) <==> !x.is_nan() && x.value() * pow2(halvings) < parts * pow2(1074),
        x.reaches(parts, halvings) <==> !x.is_nan() && !x.under(parts, halvings),
        Scalar::exceeds(x, parts) <==> !x.is_nan() && x.value() > parts * pow2(1074),
        x.from_one_on() <==> x.reaches(1, 0) && x.bits < 0x7FF0_0000_0000_0000,
{
}

} // verus!
