//! Fixed-point decimals: a signed 96-bit mantissa and a power-of-ten scale.

use crate::text::{nat_text, padded_text};
use vstd::arithmetic::power::pow;
use vstd::prelude::*;

verus! {

/// Largest magnitude of a mantissa, `2^96 - 1`.
pub const MAX_MANTISSA: i128 = 79_228_162_514_264_337_593_543_950_335;

/// Largest number of fractional digits.
pub const MAX_SCALE: u32 = 28;

/// The number `mantissa / 10^scale`.
#[derive(Clone, Copy, Debug, PartialEq, Eq, Structural)]
pub struct Decimal {
    pub mantissa: i128,
    pub scale: u32,
}

/// Price of one unit of a security.
pub type Price = Decimal;

/// `10^n`.
pub open spec fn pow10(n: int) -> int {
    pow(10, n as nat)
}

pub open spec fn abs_int(x: int) -> int {
    if x < 0 {
        -x
    } else {
        x
    }
}

pub open spec fn larger_scale(a: Decimal, b: Decimal) -> int {
    if a.scale >= b.scale {
        a.scale as int
    } else {
        b.scale as int
    }
}

impl Decimal {
    /// Whether mantissa and scale are within their limits.
    pub open spec fn wf(self) -> bool {
        &&& -MAX_MANTISSA <= self.mantissa <= MAX_MANTISSA
        &&& self.scale <= MAX_SCALE
    }

    /// The mantissa that the number has at a scale of `scale` digits.
    pub open spec fn at_scale(self, scale: int) -> int {
        self.mantissa * pow10(scale - self.scale)
    }

    /// Numeric order.
    pub open spec fn less(self, other: Decimal) -> bool {
        self.at_scale(larger_scale(self, other)) < other.at_scale(larger_scale(self, other))
    }

    /// Numeric equality, whatever the scales.
    pub open spec fn same(self, other: Decimal) -> bool {
        self.at_scale(larger_scale(self, other)) == other.at_scale(larger_scale(self, other))
    }

    pub open spec fn spec_zero() -> Decimal {
        Decimal { mantissa: 0, scale: 0 }
    }

    /// The number with the opposite sign.
    pub open spec fn spec_neg(self) -> Decimal {
        Decimal { mantissa: (-self.mantissa) as i128, scale: self.scale }
    }

    /// Zero without fractional digits.
    pub fn zero() -> (res: Decimal)
        ensures
            res == Decimal::spec_zero(),
            res.wf(),
    {
        Decimal { mantissa: 0, scale: 0 }
    }

    /// The whole number `value`.
    pub fn from_i64(value: i64) -> (res: Decimal)
        ensures
            res == (Decimal { mantissa: value as i128, scale: 0 }),
            res.wf(),
    {
        Decimal { mantissa: value as i128, scale: 0 }
    }

    /// The number `mantissa / 10^scale`, if both are within their limits.
    pub fn new(mantissa: i128, scale: u32) -> (res: Option<Decimal>)
        ensures
            res == (if (Decimal { mantissa, scale }).wf() {
                Some(Decimal { mantissa, scale })
            } else {
                None
            }),
    {
        if -MAX_MANTISSA <= mantissa && mantissa <= MAX_MANTISSA && scale <= MAX_SCALE {
            Some(Decimal { mantissa, scale })
        } else {
            None
        }
    }

    pub fn is_zero(self) -> (res: bool)
        ensures
            res == (self.mantissa == 0),
    {
        self.mantissa == 0
    }

    pub fn is_positive(self) -> (res: bool)
        ensures
            res == (self.mantissa > 0),
    {
        self.mantissa > 0
    }

    /// The opposite number.
    pub fn neg(self) -> (res: Decimal)
        requires
            self.wf(),
        ensures
            res == self.spec_neg(),
            res.wf(),
    {
        Decimal { mantissa: -self.mantissa, scale: self.scale }
    }

    /// The magnitude of the number.
    pub fn abs(self) -> (res: Decimal)
        requires
            self.wf(),
        ensures
            res == (if self.mantissa < 0 {
                self.spec_neg()
            } else {
                self
            }),
            res.wf(),
    {
        if self.mantissa < 0 {
            self.neg()
        } else {
            self
        }
    }

    /// Whether `self < other`.
    pub fn less_than(self, other: Decimal) -> (res: bool)
        requires
            self.wf(),
            other.wf(),
        ensures
            res == self.less(other),
    {
        decimal_less(self.mantissa, self.scale, other.mantissa, other.scale)
    }

    /// Whether both stand for the same number.
    pub fn equals(self, other: Decimal) -> (res: bool)
        requires
            self.wf(),
            other.wf(),
        ensures
            res == self.same(other),
    {
        !decimal_less(self.mantissa, self.scale, other.mantissa, other.scale) && !decimal_less(
            other.mantissa,
            other.scale,
            self.mantissa,
            self.scale,
        )
    }

    /// Whether `self + other` has a magnitude that a mantissa can hold.
    pub open spec fn sum_fits(self, other: Decimal) -> bool {
        let s = larger_scale(self, other);
        abs_int(self.at_scale(s) + other.at_scale(s)) <= MAX_MANTISSA * pow10(s)
    }

    /// Whether `self - other` has a magnitude that a mantissa can hold.
    pub open spec fn difference_fits(self, other: Decimal) -> bool {
        let s = larger_scale(self, other);
        abs_int(self.at_scale(s) - other.at_scale(s)) <= MAX_MANTISSA * pow10(s)
    }

    /// Whether `self * other` has a magnitude that a mantissa can hold.
    pub open spec fn product_fits(self, other: Decimal) -> bool {
        abs_int(self.mantissa * other.mantissa) <= MAX_MANTISSA * pow10(self.scale + other.scale)
    }

    /// `self + other`, rounded to the digits that fit.
    pub open spec fn sum(self, other: Decimal) -> Decimal {
        decimal_sum(self.mantissa as int, self.scale as int, other.mantissa as int, other.scale as int)
    }

    /// `self - other`, rounded to the digits that fit.
    pub open spec fn difference(self, other: Decimal) -> Decimal {
        decimal_difference(
            self.mantissa as int,
            self.scale as int,
            other.mantissa as int,
            other.scale as int,
        )
    }

    /// `self * other`, rounded to the digits that fit.
    pub open spec fn product(self, other: Decimal) -> Decimal {
        decimal_product(
            self.mantissa as int,
            self.scale as int,
            other.mantissa as int,
            other.scale as int,
        )
    }

    /// `self / other`, rounded to the digits that fit.
    pub open spec fn quotient(self, other: Decimal) -> Decimal {
        decimal_quotient(
            self.mantissa as int,
            self.scale as int,
            other.mantissa as int,
            other.scale as int,
        )
    }

    /// The decimal digits of the number.
    pub open spec fn digits(self) -> Seq<char> {
        decimal_text(self.mantissa as int, self.scale as int)
    }

    pub fn plus(self, other: Decimal) -> (res: Decimal)
        requires
            self.wf(),
            other.wf(),
            self.sum_fits(other),
        ensures
            res == self.sum(other),
            res.wf(),
            exact_sum_is_owed(self, other) ==> is_sum(res, self, other),
    {
        decimal_add(self, other)
    }

    pub fn minus(self, other: Decimal) -> (res: Decimal)
        requires
            self.wf(),
            other.wf(),
            self.difference_fits(other),
        ensures
            res == self.difference(other),
            res.wf(),
            exact_difference_is_owed(self, other) ==> is_difference(res, self, other),
    {
        decimal_sub(self, other)
    }

    pub fn times(self, other: Decimal) -> (res: Decimal)
        requires
            self.wf(),
            other.wf(),
            self.product_fits(other),
        ensures
            res == self.product(other),
            res.wf(),
            exact_product_is_owed(self, other) ==> res == exact_product(self, other),
    {
        decimal_mul(self, other)
    }

    /// `self / divisor`, for a positive divisor with no more fractional digits.
    pub fn divided_by(self, divisor: Decimal) -> (res: Decimal)
        requires
            self.wf(),
            divisor.wf(),
            divisor.mantissa > 0,
            divisor.scale <= self.scale,
        ensures
            res == self.quotient(divisor),
            res.wf(),
            self.mantissa % divisor.mantissa == 0 ==> res == exact_quotient(self, divisor),
    {
        decimal_div(self, divisor)
    }

    /// Half of the number.
    pub fn half(self) -> (res: Decimal)
        requires
            self.wf(),
        ensures
            res == self.quotient(Decimal { mantissa: 2, scale: 0 }),
            res.wf(),
            self.mantissa % 2 == 0 ==> res == exact_quotient(
                self,
                Decimal { mantissa: 2, scale: 0 },
            ),
    {
        self.divided_by(Decimal { mantissa: 2, scale: 0 })
    }

    /// The number in decimal digits.
    pub fn to_text(self) -> (res: String)
        requires
            self.wf(),
        ensures
            res@ == self.digits(),
    {
        decimal_to_string(self)
    }
}

/// Whether both operands of an addition, written at their common scale, and the
/// sum itself fit in a mantissa.
pub open spec fn exact_sum_is_owed(a: Decimal, b: Decimal) -> bool {
    let s = larger_scale(a, b);
    &&& abs_int(a.at_scale(s)) <= MAX_MANTISSA
    &&& abs_int(b.at_scale(s)) <= MAX_MANTISSA
    &&& abs_int(a.at_scale(s) + b.at_scale(s)) <= MAX_MANTISSA
}

/// Whether `d` is exactly `a + b`.
pub open spec fn is_sum(d: Decimal, a: Decimal, b: Decimal) -> bool {
    let s = larger_scale(a, b);
    &&& d.scale <= s
    &&& d.at_scale(s) == a.at_scale(s) + b.at_scale(s)
}

/// Whether both operands of a subtraction, written at their common scale, and
/// the difference itself fit in a mantissa.
pub open spec fn exact_difference_is_owed(a: Decimal, b: Decimal) -> bool {
    let s = larger_scale(a, b);
    &&& abs_int(a.at_scale(s)) <= MAX_MANTISSA
    &&& abs_int(b.at_scale(s)) <= MAX_MANTISSA
    &&& abs_int(a.at_scale(s) - b.at_scale(s)) <= MAX_MANTISSA
}

/// Whether `d` is exactly `a - b`.
pub open spec fn is_difference(d: Decimal, a: Decimal, b: Decimal) -> bool {
    let s = larger_scale(a, b);
    &&& d.scale <= s
    &&& d.at_scale(s) == a.at_scale(s) - b.at_scale(s)
}

/// Whether a product needs no rounding.
pub open spec fn exact_product_is_owed(a: Decimal, b: Decimal) -> bool {
    &&& abs_int(a.mantissa * b.mantissa) <= MAX_MANTISSA
    &&& a.scale + b.scale <= MAX_SCALE
}

pub open spec fn exact_product(a: Decimal, b: Decimal) -> Decimal {
    if a.mantissa == 0 || b.mantissa == 0 {
        Decimal { mantissa: 0, scale: 0 }
    } else {
        Decimal { mantissa: (a.mantissa * b.mantissa) as i128, scale: (a.scale + b.scale) as u32 }
    }
}

/// Quotient of two decimals where the division of the mantissas leaves no
/// remainder.
pub open spec fn exact_quotient(a: Decimal, b: Decimal) -> Decimal {
    if a.mantissa == 0 {
        Decimal { mantissa: 0, scale: 0 }
    } else {
        Decimal { mantissa: (a.mantissa / b.mantissa) as i128, scale: (a.scale - b.scale) as u32 }
    }
}

/// Sum of two decimals given as mantissa and scale.
pub uninterp spec fn decimal_sum(am: int, a_scale: int, bm: int, b_scale: int) -> Decimal;

/// Difference of two decimals given as mantissa and scale.
pub uninterp spec fn decimal_difference(am: int, a_scale: int, bm: int, b_scale: int) -> Decimal;

/// Product of two decimals given as mantissa and scale.
pub uninterp spec fn decimal_product(am: int, a_scale: int, bm: int, b_scale: int) -> Decimal;

/// Quotient of two decimals given as mantissa and scale.
pub uninterp spec fn decimal_quotient(am: int, a_scale: int, bm: int, b_scale: int) -> Decimal;

/// Decimal digits of a number given as mantissa and scale: a minus sign if it is
/// negative, the whole part, and a point and `scale` digits where there are any.
pub open spec fn decimal_text(mantissa: int, scale: int) -> Seq<char> {
    let magnitude = abs_int(mantissa);
    (if mantissa < 0 {
        seq!['-']
    } else {
        Seq::empty()
    }) + nat_text((magnitude / pow10(scale)) as nat) + (if scale > 0 {
        seq!['.'] + padded_text((magnitude % pow10(scale)) as nat, scale as nat)
    } else {
        Seq::empty()
    })
}

/// Whether one decimal is less than another.
///
/// Wraps `<` of `rust_decimal::Decimal`, which compares by numeric value: the
/// mantissas brought to the larger of the two scales are compared.
#[verifier::external_body]
fn decimal_less(am: i128, a_scale: u32, bm: i128, b_scale: u32) -> (res: bool)
    requires
        (Decimal { mantissa: am, scale: a_scale }).wf(),
        (Decimal { mantissa: bm, scale: b_scale }).wf(),
    ensures
        res == (Decimal { mantissa: am, scale: a_scale }).less(
            Decimal { mantissa: bm, scale: b_scale },
        ),
{
    rust_decimal::Decimal::from_i128_with_scale(am, a_scale)
        < rust_decimal::Decimal::from_i128_with_scale(bm, b_scale)
}

/// Wraps `+` of `rust_decimal::Decimal`. The sum is named, and it is exact where
/// both operands at the larger scale and the sum at that scale fit in 96 bits. It
/// panics only where the magnitude of the sum exceeds a mantissa, which the
/// requirement leaves out.
#[verifier::external_body]
fn decimal_add(a: Decimal, b: Decimal) -> (res: Decimal)
    requires
        a.wf(),
        b.wf(),
        a.sum_fits(b),
    ensures
        res == decimal_sum(a.mantissa as int, a.scale as int, b.mantissa as int, b.scale as int),
        res.wf(),
        exact_sum_is_owed(a, b) ==> is_sum(res, a, b),
{
    let sum = rust_decimal::Decimal::from_i128_with_scale(a.mantissa, a.scale)
        + rust_decimal::Decimal::from_i128_with_scale(b.mantissa, b.scale);
    Decimal { mantissa: sum.mantissa(), scale: sum.scale() }
}

/// Wraps `-` of `rust_decimal::Decimal`. The difference is named, and it is
/// exact where both operands at the larger scale and the difference at that
/// scale fit in 96 bits. It panics only where the magnitude of the difference
/// exceeds a mantissa, which the requirement leaves out.
#[verifier::external_body]
fn decimal_sub(a: Decimal, b: Decimal) -> (res: Decimal)
    requires
        a.wf(),
        b.wf(),
        a.difference_fits(b),
    ensures
        res == decimal_difference(
            a.mantissa as int,
            a.scale as int,
            b.mantissa as int,
            b.scale as int,
        ),
        res.wf(),
        exact_difference_is_owed(a, b) ==> is_difference(res, a, b),
{
    let difference = rust_decimal::Decimal::from_i128_with_scale(a.mantissa, a.scale)
        - rust_decimal::Decimal::from_i128_with_scale(b.mantissa, b.scale);
    Decimal { mantissa: difference.mantissa(), scale: difference.scale() }
}

/// Wraps `*` of `rust_decimal::Decimal`. The product is named, and it is exact,
/// with the scales added, where the product of the mantissas fits in 96 bits
/// and the sum of the scales is a scale; a zero factor gives zero without
/// fractional digits. It panics only where the magnitude of the product exceeds
/// a mantissa, which the requirement leaves out.
#[verifier::external_body]
fn decimal_mul(a: Decimal, b: Decimal) -> (res: Decimal)
    requires
        a.wf(),
        b.wf(),
        a.product_fits(b),
    ensures
        res == decimal_product(a.mantissa as int, a.scale as int, b.mantissa as int, b.scale as int),
        res.wf(),
        exact_product_is_owed(a, b) ==> res == exact_product(a, b),
{
    let product = rust_decimal::Decimal::from_i128_with_scale(a.mantissa, a.scale)
        * rust_decimal::Decimal::from_i128_with_scale(b.mantissa, b.scale);
    Decimal { mantissa: product.mantissa(), scale: product.scale() }
}

/// Wraps `/` of `rust_decimal::Decimal`. The quotient is named. Where the
/// division of the mantissas leaves no remainder it is exact, with the scales
/// subtracted; zero comes without fractional digits. A positive divisor with no
/// more fractional digits than the dividend never makes the quotient larger
/// than a mantissa, so it does not panic.
#[verifier::external_body]
fn decimal_div(a: Decimal, b: Decimal) -> (res: Decimal)
    requires
        a.wf(),
        b.wf(),
        b.mantissa > 0,
        b.scale <= a.scale,
    ensures
        res == decimal_quotient(a.mantissa as int, a.scale as int, b.mantissa as int, b.scale as int),
        res.wf(),
        a.mantissa % b.mantissa == 0 ==> res == exact_quotient(a, b),
{
    let quotient = rust_decimal::Decimal::from_i128_with_scale(a.mantissa, a.scale)
        / rust_decimal::Decimal::from_i128_with_scale(b.mantissa, b.scale);
    Decimal { mantissa: quotient.mantissa(), scale: quotient.scale() }
}

/// Wraps `to_string` of `rust_decimal::Decimal`: the sign of a negative number,
/// the whole part, and as many digits after the point as the scale says.
#[verifier::external_body]
fn decimal_to_string(a: Decimal) -> (res: String)
    requires
        a.wf(),
    ensures
        res@ == decimal_text(a.mantissa as int, a.scale as int),
{
    rust_decimal::Decimal::from_i128_with_scale(a.mantissa, a.scale).to_string()
}

/// A number at a larger scale.
proof fn lemma_at_larger_scale(d: Decimal, small: int, large: int)
    requires
        d.scale <= small <= large,
    ensures
        d.at_scale(large) == d.at_scale(small) * pow10(large - small),
{
    vstd::arithmetic::power::lemma_pow_adds(
        10,
        (small - d.scale) as nat,
        (large - small) as nat,
    );
    assert(d.mantissa * (pow10(small - d.scale) * pow10(large - small)) == d.mantissa * pow10(
        small - d.scale,
    ) * pow10(large - small)) by (nonlinear_arith);
}

/// The value of a number, in units of the smallest fraction that one can have.
pub open spec fn value(d: Decimal) -> int {
    d.mantissa * pow10(MAX_SCALE - d.scale)
}

/// Numbers compare by their values, whatever their scales.
pub proof fn law_numbers_compare_by_value(a: Decimal, b: Decimal)
    requires
        a.scale <= MAX_SCALE,
        b.scale <= MAX_SCALE,
    ensures
        a.less(b) <==> value(a) < value(b),
        a.same(b) <==> value(a) == value(b),
{
    let s = larger_scale(a, b);
    let rest = pow10(MAX_SCALE - s);
    lemma_at_larger_scale(a, s, MAX_SCALE as int);
    lemma_at_larger_scale(b, s, MAX_SCALE as int);
    vstd::arithmetic::power::lemma_pow_positive(10, (MAX_SCALE - s) as nat);
    let x = a.at_scale(s);
    let y = b.at_scale(s);
    assert(x < y <==> x * rest < y * rest) by (nonlinear_arith)
        requires
            rest > 0,
    ;
    assert(x == y <==> x * rest == y * rest) by (nonlinear_arith)
        requires
            rest > 0,
    ;
}

/// Changing the sign of a number changes the sign of its value, and zero has none.
pub proof fn law_negation_mirrors_the_value(d: Decimal)
    requires
        d.wf(),
    ensures
        value(d.spec_neg()) == -value(d),
        value(Decimal::spec_zero()) == 0,
{
    let p = pow10(MAX_SCALE - d.scale);
    assert((-d.mantissa) * p == -(d.mantissa * p)) by (nonlinear_arith);
    let q = pow10(MAX_SCALE - 0);
    assert(0 * q == 0) by (nonlinear_arith);
}

} // verus!
