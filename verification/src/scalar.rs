//! Real-valued measurements, held as the bit pattern of an IEEE-754 double so
//! that they pass through the library unchanged. The library orders them and
//! rounds them for display; it never does arithmetic on them.

use crate::text::{decimal, digit_char, digit_to_char, push_decimal, string_of};
use vstd::prelude::*;

verus! {

/// A double-precision value by its 64 bits: one sign bit, eleven exponent
/// bits, fifty-two fraction bits.
#[derive(Clone, Copy, Debug, PartialEq, Eq, Structural)]
pub struct Scalar {
    pub bits: u64,
}

/// The sign bit alone.
pub const SIGN_BIT: u64 = 0x8000_0000_0000_0000;

/// The bits of positive infinity: every exponent bit, no fraction bit.
pub const INFINITY_BITS: u64 = 0x7ff0_0000_0000_0000;

/// Two to the power 52: the leading bit of a normal significand, which the
/// fraction bits leave out.
pub const HIDDEN_BIT: u64 = 0x0010_0000_0000_0000;

impl Scalar {
    /// The value zero, with a positive sign.
    pub fn zero() -> (z: Scalar)
        ensures
            z.bits == 0,
    {
        Scalar { bits: 0 }
    }

    /// Whether the sign bit is set.
    pub open spec fn negative(self) -> bool {
        self.bits >= SIGN_BIT
    }

    /// The bits without the sign.
    pub open spec fn magnitude(self) -> int {
        if self.bits >= SIGN_BIT {
            self.bits - SIGN_BIT
        } else {
            self.bits as int
        }
    }

    /// Not a number: the exponent is all ones and the fraction is not zero.
    pub open spec fn nan(self) -> bool {
        self.magnitude() > INFINITY_BITS
    }

    /// Neither infinite nor not a number.
    pub open spec fn finite(self) -> bool {
        self.magnitude() < INFINITY_BITS
    }

    /// An integer that orders numbers as their values are ordered: for `a` and
    /// `b` that are numbers, `a` is below `b` exactly when `a.rank() < b.rank()`,
    /// and the two zeros share rank 0.
    pub open spec fn rank(self) -> int {
        if self.negative() {
            -self.magnitude()
        } else {
            self.magnitude()
        }
    }

    /// Tells whether the sign bit is set.
    pub fn is_negative(&self) -> (b: bool)
        ensures
            b == self.negative(),
    {
        self.bits >= SIGN_BIT
    }

    /// Clears the sign bit.
    pub fn abs_bits(&self) -> (m: u64)
        ensures
            m == self.magnitude(),
            m < SIGN_BIT,
    {
        if self.bits >= SIGN_BIT {
            self.bits - SIGN_BIT
        } else {
            self.bits
        }
    }

    /// Tells whether the value is not a number.
    pub fn is_nan(&self) -> (b: bool)
        ensures
            b == self.nan(),
    {
        self.abs_bits() > INFINITY_BITS
    }

    /// Tells whether the value is a number other than an infinity.
    pub fn is_finite(&self) -> (b: bool)
        ensures
            b == self.finite(),
    {
        self.abs_bits() < INFINITY_BITS
    }

    /// Computes the rank by which values are ordered.
    pub fn order_rank(&self) -> (r: i64)
        ensures
            r == self.rank(),
    {
        let m: u64 = self.abs_bits();
        if self.is_negative() {
            -(m as i64)
        } else {
            m as i64
        }
    }

    /// Whether `self` is strictly below `other`; both must be numbers for the
    /// answer to mean anything.
    pub fn below(&self, other: &Scalar) -> (b: bool)
        ensures
            b == (self.rank() < other.rank()),
    {
        self.order_rank() < other.order_rank()
    }
}

/// Values of equal rank have equal bits, but for the two zeros.
pub proof fn lemma_rank_separates(a: Scalar, b: Scalar)
    requires
        a.rank() == b.rank(),
    ensures
        a.bits == b.bits || (a.magnitude() == 0 && b.magnitude() == 0),
{
}

/// Two to the power `n`.
pub open spec fn pow2(n: nat) -> nat
    decreases n,
{
    if n == 0 {
        1
    } else {
        2 * pow2((n - 1) as nat)
    }
}

/// The integer nearest to `n / d`; of two equally near, the even one.
pub open spec fn round_half_even(n: nat, d: nat) -> nat {
    let q = n / d;
    let r = n % d;
    if 2 * r > d || (2 * r == d && q % 2 == 1) {
        q + 1
    } else {
        q
    }
}

impl Scalar {
    /// The eleven exponent bits.
    pub open spec fn exponent_field(self) -> int {
        self.magnitude() / (HIDDEN_BIT as int)
    }

    /// The fifty-two fraction bits.
    pub open spec fn fraction_field(self) -> int {
        self.magnitude() % (HIDDEN_BIT as int)
    }

    /// The significand of a finite value: the value is, up to its sign,
    /// `significand() * 2^binary_exponent()`.
    pub open spec fn significand(self) -> nat {
        if self.exponent_field() == 0 {
            self.fraction_field() as nat
        } else {
            (HIDDEN_BIT + self.fraction_field()) as nat
        }
    }

    /// The power of two that scales the significand of a finite value.
    pub open spec fn binary_exponent(self) -> int {
        if self.exponent_field() == 0 {
            -1074
        } else {
            self.exponent_field() - 1075
        }
    }

    /// The integer nearest to the absolute value of a finite value, ties to
    /// even.
    pub open spec fn rounded_magnitude(self) -> nat {
        if self.binary_exponent() >= 0 {
            self.significand() * pow2(self.binary_exponent() as nat)
        } else {
            round_half_even(self.significand(), pow2((-self.binary_exponent()) as nat))
        }
    }

    /// The value rounded to an integer and written in decimal. The sign is
    /// written whenever the sign bit is set, also before a zero; what is not
    /// a number reads `NaN`, an infinity `inf`.
    pub open spec fn rounded_text(self) -> Seq<char> {
        if self.nan() {
            "NaN"@
        } else if !self.finite() {
            if self.negative() {
                "-inf"@
            } else {
                "inf"@
            }
        } else if self.negative() {
            seq!['-'] + decimal(self.rounded_magnitude())
        } else {
            decimal(self.rounded_magnitude())
        }
    }
}

/// The number that decimal digits write, least significant digit first.
pub open spec fn digits_number(digits: Seq<u8>) -> nat
    decreases digits.len(),
{
    if digits.len() == 0 {
        0
    } else {
        digits[0] as nat + 10 * digits_number(digits.skip(1))
    }
}

/// Every entry is a decimal digit.
pub open spec fn decimal_digits(digits: Seq<u8>) -> bool {
    forall|i: int| 0 <= i < digits.len() ==> digits[i] < 10
}

/// Decimal digits of a positive number with no zero in the leading place.
pub open spec fn normal_digits(digits: Seq<u8>) -> bool {
    decimal_digits(digits) && digits.len() > 0 && digits.last() != 0
}

proof fn lemma_pow2_grows(a: nat, b: nat)
    requires
        a <= b,
    ensures
        pow2(a) <= pow2(b),
        pow2(a) >= 1,
    decreases b,
{
    if a < b {
        lemma_pow2_grows(a, (b - 1) as nat);
    } else if a > 0 {
        lemma_pow2_grows((a - 1) as nat, (a - 1) as nat);
    }
}

proof fn lemma_normal_positive(digits: Seq<u8>)
    requires
        normal_digits(digits),
    ensures
        digits_number(digits) > 0,
    decreases digits.len(),
{
    if digits.len() > 1 {
        let rest = digits.skip(1);
        assert(rest.last() == digits.last());
        lemma_normal_positive(rest);
    }
}

/// Normal digits, read from the leading place, are the decimal numeral of
/// their number.
proof fn lemma_decimal_of_digits(digits: Seq<u8>)
    requires
        normal_digits(digits),
    ensures
        decimal(digits_number(digits)) == Seq::new(
            digits.len(),
            |i: int| digit_char(digits[digits.len() - 1 - i] as int),
        ),
    decreases digits.len(),
{
    let n = digits_number(digits);
    let written = Seq::new(digits.len(), |i: int| digit_char(digits[digits.len() - 1 - i] as int));
    if digits.len() == 1 {
        assert(digits.skip(1).len() == 0);
        assert(digits_number(digits.skip(1)) == 0);
        assert(decimal(n) =~= written);
    } else {
        let rest = digits.skip(1);
        assert(rest.last() == digits.last());
        lemma_normal_positive(rest);
        lemma_decimal_of_digits(rest);
        let m = digits_number(rest);
        assert(n == digits[0] + 10 * m);
        assert(n / 10 == m && n % 10 == digits[0]);
        assert(decimal(n) == decimal(m).push(digit_char(digits[0] as int)));
        assert(decimal(n) =~= written) by {
            assert forall|i: int| 0 <= i < written.len() implies decimal(n)[i] == written[i] by {
                if i < rest.len() {
                    assert(rest[rest.len() - 1 - i] == digits[digits.len() - 1 - i]);
                }
            }
        }
    }
}

/// The digits of a positive number, least significant first.
fn digits_of(n: u64) -> (digits: Vec<u8>)
    requires
        n > 0,
    ensures
        digits_number(digits@) == n,
        normal_digits(digits@),
    decreases n,
{
    if n < 10 {
        let mut digits: Vec<u8> = Vec::new();
        digits.push(n as u8);
        assert(digits@.skip(1).len() == 0);
        assert(digits_number(digits@) == n) by {
            assert(digits_number(digits@.skip(1)) == 0);
        }
        digits
    } else {
        let mut digits = digits_of(n / 10);
        let ghost rest = digits@;
        digits.insert(0, (n % 10) as u8);
        assert(digits@.skip(1) =~= rest);
        assert(digits@.last() == rest.last());
        digits
    }
}

/// Doubles the number written by the digits from place `i` on and adds
/// `carry`; the places below `i` stay.
fn double_from(digits: &mut Vec<u8>, i: usize, carry: u8)
    requires
        i <= old(digits).len(),
        carry <= 1,
        decimal_digits(old(digits)@),
        old(digits).len() > 0,
        i < old(digits).len() ==> old(digits)@.last() != 0,
        i == old(digits).len() ==> carry != 0 || old(digits)@.last() != 0,
    ensures
        digits_number(final(digits)@.skip(i as int)) == 2 * digits_number(
            old(digits)@.skip(i as int),
        ) + carry,
        final(digits)@.take(i as int) == old(digits)@.take(i as int),
        final(digits).len() >= old(digits).len(),
        normal_digits(final(digits)@),
    decreases old(digits).len() - i,
{
    if i == digits.len() {
        if carry != 0 {
            digits.push(carry);
            assert(digits@.skip(i as int) =~= seq![carry]);
            assert(digits@.skip(i as int).skip(1).len() == 0);
            assert(digits_number(digits@.skip(i as int).skip(1)) == 0);
            assert(digits@.take(i as int) =~= old(digits)@.take(i as int));
        }
        assert(old(digits)@.skip(i as int).len() == 0);
    } else {
        let total: u8 = 2 * digits[i] + carry;
        let ghost before = digits@;
        digits[i] = total % 10;
        let ghost middle = digits@;
        double_from(digits, i + 1, total / 10);
        proof {
            let after = digits@;
            assert(after.take(i + 1) == middle.take(i + 1));
            assert(after[i as int] == after.take(i + 1)[i as int]);
            assert(after[i as int] == total % 10);
            assert(after.skip(i as int).skip(1) =~= after.skip(i + 1));
            assert(before.skip(i as int).skip(1) =~= before.skip(i + 1));
            assert(middle.skip(i + 1) =~= before.skip(i + 1));
            assert(after.take(i as int) =~= before.take(i as int)) by {
                assert forall|k: int| 0 <= k < i implies after[k] == before[k] by {
                    assert(after[k] == after.take(i + 1)[k]);
                    assert(middle[k] == middle.take(i + 1)[k]);
                }
            }
        }
    }
}

impl Scalar {
    /// Writes the value rounded to an integer, ties to even.
    pub fn rounded_string(&self) -> (s: String)
        ensures
            s@ == self.rounded_text(),
    {
        let m: u64 = self.abs_bits();
        if m > INFINITY_BITS {
            return "NaN".to_owned();
        }
        if m == INFINITY_BITS {
            if self.is_negative() {
                return "-inf".to_owned();
            } else {
                return "inf".to_owned();
            }
        }
        let field: u64 = m / HIDDEN_BIT;
        let fraction: u64 = m % HIDDEN_BIT;
        let significand: u64 = if field == 0 {
            fraction
        } else {
            HIDDEN_BIT + fraction
        };
        let mut out: Vec<char> = Vec::new();
        if self.is_negative() {
            out.push('-');
        }
        let ghost sign = out@;
        if field >= 1075 {
            let power: u64 = field - 1075;
            if significand == 0 {
                out.push('0');
            } else {
                let mut digits = digits_of(significand);
                let mut i: u64 = 0;
                assert(significand * pow2(0) == significand) by (nonlinear_arith)
                    requires
                        pow2(0) == 1,
                ;
                while i < power
                    invariant
                        i <= power,
                        normal_digits(digits@),
                        digits_number(digits@) == significand * pow2(i as nat),
                    decreases power - i,
                {
                    let ghost before = digits@;
                    double_from(&mut digits, 0, 0);
                    proof {
                        assert(digits@.skip(0) =~= digits@);
                        assert(before.skip(0) =~= before);
                        assert(significand * pow2((i + 1) as nat) == 2 * (significand * pow2(
                            i as nat,
                        ))) by (nonlinear_arith)
                            requires
                                pow2((i + 1) as nat) == 2 * pow2(i as nat),
                        ;
                    }
                    i = i + 1;
                }
                proof {
                    lemma_decimal_of_digits(digits@);
                }
                let count: usize = digits.len();
                let mut k: usize = 0;
                while k < count
                    invariant
                        k <= count,
                        count == digits.len(),
                        decimal_digits(digits@),
                        out@ == sign + Seq::new(
                            k as nat,
                            |j: int| digit_char(digits[count - 1 - j] as int),
                        ),
                    decreases count - k,
                {
                    out.push(digit_to_char(digits[count - 1 - k]));
                    assert(out@ =~= sign + Seq::new(
                        (k + 1) as nat,
                        |j: int| digit_char(digits[count - 1 - j] as int),
                    ));
                    k = k + 1;
                }
            }
            assert(self.rounded_magnitude() == significand * pow2(power as nat));
            proof {
                if significand == 0 {
                    assert(significand * pow2(power as nat) == 0) by (nonlinear_arith)
                        requires
                            significand == 0,
                    ;
                    assert(out@ =~= sign + decimal(0));
                }
            }
        } else {
            let shift: u64 = if field == 0 {
                1074
            } else {
                1075 - field
            };
            let mut d: u64 = 1;
            let mut i: u64 = 0;
            while i < shift && d <= 2 * significand
                invariant
                    i <= shift,
                    significand < 2 * HIDDEN_BIT,
                    d == pow2(i as nat),
                    d >= 1,
                    d <= 4 * significand || i == 0,
                decreases shift - i,
            {
                d = 2 * d;
                i = i + 1;
            }
            let rounded: u64 = if i == shift {
                let q: u64 = significand / d;
                let r: u64 = significand % d;
                if 2 * r > d || (2 * r == d && q % 2 == 1) {
                    q + 1
                } else {
                    q
                }
            } else {
                proof {
                    lemma_pow2_grows(i as nat, shift as nat);
                    let big = pow2(shift as nat);
                    assert(significand < big);
                    assert(significand as nat / big == 0 && significand as nat % big
                        == significand) by (nonlinear_arith)
                        requires
                            significand < big,
                    ;
                }
                0
            };
            assert(self.rounded_magnitude() == rounded);
            push_decimal(&mut out, rounded);
        }
        string_of(&out)
    }
}

} // verus!
