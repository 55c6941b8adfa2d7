//! Exact decimal numbers: an unscaled integer and a power-of-ten scale.
//!
//! The number is held as plain values (sign, base-10 digits, scale); the
//! arithmetic itself is done by the `bigdecimal` crate.
use bigdecimal::num_bigint::{BigInt, Sign};
use bigdecimal::BigDecimal;
use std::str::FromStr;
use vstd::arithmetic::power::pow;
use vstd::prelude::*;

verus! {

#[verifier::external_type_specification]
#[verifier::external_body]
pub struct ExBigDecimal(BigDecimal);

#[verifier::external_type_specification]
#[verifier::external_body]
pub struct ExBigInt(BigInt);

/// Value of little-endian base-10 digits.
pub open spec fn digits_value(d: Seq<u8>) -> nat
    decreases d.len(),
{
    if d.len() == 0 {
        0
    } else {
        d[0] as nat + 10 * digits_value(d.drop_first())
    }
}

pub open spec fn pow10(k: int) -> int {
    if k >= 0 {
        pow(10, k as nat)
    } else {
        1
    }
}

pub open spec fn abs(x: int) -> int {
    if x < 0 {
        -x
    } else {
        x
    }
}

pub open spec fn max(a: int, b: int) -> int {
    if a >= b {
        a
    } else {
        b
    }
}

/// Unscaled integer of `d` brought to scale `k` (for `k >= d.1`).
pub open spec fn at_scale(d: (int, int), k: int) -> int {
    d.0 * pow10(k - d.1)
}

/// `x` and `y` denote the same number: `x.0 * 10^-x.1 == y.0 * 10^-y.1`.
pub open spec fn same_value(x: (int, int), y: (int, int)) -> bool {
    let k = max(x.1, y.1);
    at_scale(x, k) == at_scale(y, k)
}

pub open spec fn sum(a: (int, int), b: (int, int)) -> (int, int) {
    let k = max(a.1, b.1);
    (at_scale(a, k) + at_scale(b, k), k)
}

pub open spec fn difference(a: (int, int), b: (int, int)) -> (int, int) {
    let k = max(a.1, b.1);
    (at_scale(a, k) - at_scale(b, k), k)
}

pub open spec fn product(a: (int, int), b: (int, int)) -> (int, int) {
    (a.0 * b.0, a.1 + b.1)
}

/// Quotient of `x / y` rounded toward zero (`y > 0`).
pub open spec fn trunc_div(x: int, y: int) -> int {
    if x >= 0 {
        x / y
    } else {
        -((-x) / y)
    }
}

/// Remainder of a division rounded toward zero: it takes the sign of `x`.
pub open spec fn trunc_rem(x: int, y: int) -> int {
    if x >= 0 {
        x % abs(y)
    } else {
        -((-x) % abs(y))
    }
}

pub open spec fn remainder(a: (int, int), b: (int, int)) -> (int, int) {
    let k = max(a.1, b.1);
    (trunc_rem(at_scale(a, k), at_scale(b, k)), k)
}

/// `d` rescaled to `s`, digits beyond the new scale dropped toward zero.
pub open spec fn rescaled(d: (int, int), s: int) -> (int, int) {
    if d.0 == 0 {
        (0, s)
    } else if s >= d.1 {
        (d.0 * pow10(s - d.1), s)
    } else {
        (trunc_div(d.0, pow10(d.1 - s)), s)
    }
}

/// The representation of `d` without trailing zeros in its unscaled integer.
pub open spec fn normalize(d: (int, int)) -> (int, int)
    decreases abs(d.0),
{
    if d.0 == 0 {
        (0, 0)
    } else if d.0 % 10 == 0 {
        normalize((d.0 / 10, d.1 - 1))
    } else {
        d
    }
}

pub open spec fn is_integral(d: (int, int)) -> bool {
    d.1 <= 0 || d.0 % pow10(d.1) == 0
}

/// The integer that an integral `d` denotes.
pub open spec fn integer_value(d: (int, int)) -> int {
    rescaled(d, 0).0
}

/// Number of bits needed to write `n`.
pub open spec fn bit_length(n: nat) -> nat
    decreases n,
{
    if n == 0 {
        0
    } else {
        1 + bit_length(n / 2)
    }
}

pub open spec fn digit_char(d: int) -> char {
    if d == 0 {
        '0'
    } else if d == 1 {
        '1'
    } else if d == 2 {
        '2'
    } else if d == 3 {
        '3'
    } else if d == 4 {
        '4'
    } else if d == 5 {
        '5'
    } else if d == 6 {
        '6'
    } else if d == 7 {
        '7'
    } else if d == 8 {
        '8'
    } else {
        '9'
    }
}

/// Base-10 digits of `n`, most significant first.
pub open spec fn decimal_digits(n: nat) -> Seq<char>
    decreases n,
{
    if n < 10 {
        seq![digit_char(n as int)]
    } else {
        decimal_digits(n / 10).push(digit_char((n % 10) as int))
    }
}

pub open spec fn zeros(k: int) -> Seq<char> {
    Seq::new(if k >= 0 { k as nat } else { 0 }, |i: int| '0')
}

/// Standard (never scientific) notation of `d`.
pub open spec fn plain_string(d: (int, int)) -> Seq<char> {
    let ds = decimal_digits(abs(d.0) as nat);
    let n = ds.len() as int;
    let body = if d.1 <= 0 {
        ds + zeros(-d.1)
    } else if d.1 < n {
        ds.take(n - d.1) + seq!['.'] + ds.skip(n - d.1)
    } else {
        seq!['0', '.'] + zeros(d.1 - n) + ds
    };
    if d.0 < 0 {
        seq!['-'] + body
    } else {
        body
    }
}

/// An integer in base 10, with `-` in front when negative.
pub open spec fn signed_digits(x: int) -> Seq<char> {
    if x < 0 {
        seq!['-'] + decimal_digits((-x) as nat)
    } else {
        decimal_digits(x as nat)
    }
}

/// The record text of `d`: its unscaled integer, `e`, and the power of ten.
/// It reads back to the same value at the same scale. `BigDecimal`'s display
/// does not: it writes `-2e3` as `-2000`, and its scientific form writes
/// every zero as `0e0`, both of which read back at another scale.
pub open spec fn record_text(d: (int, int)) -> Seq<char> {
    plain_string((d.0, 0)) + seq!['e'] + signed_digits(-d.1)
}

/// What `BigDecimal`'s division gives for `a / b`.
pub uninterp spec fn quotient_of(a: (int, int), b: (int, int)) -> (int, int);

/// What `BigDecimal::sqrt` gives for a non-negative `a`.
pub uninterp spec fn square_root_of(a: (int, int)) -> (int, int);

/// What `BigDecimal::from_str` makes of a text.
pub uninterp spec fn literal_value(s: Seq<char>) -> Option<(int, int)>;

/// What `BigDecimal`'s `Display` writes for a value.
pub uninterp spec fn display_of(d: (int, int)) -> Seq<char>;

/// Number of quotient digits `BigDecimal`'s division computes (its default
/// precision).
pub const DIVISION_PRECISION: u64 = 100;

/// Count of base-10 digits of `n` (one for zero).
pub open spec fn digit_length(n: nat) -> nat
    decreases n,
{
    if n < 10 {
        1
    } else {
        1 + digit_length(n / 10)
    }
}

/// The scale of `a / b` stays within `i64` however far the division goes.
pub open spec fn division_scale_fits(a: (int, int), b: (int, int)) -> bool {
    &&& i64::MIN <= a.1 - b.1
    &&& a.1 - b.1 + digit_length(abs(b.0) as nat) + DIVISION_PRECISION <= i64::MAX
}

/// An exact decimal number `unscaled * 10^-scale`.
#[derive(Debug)]
pub struct Decimal {
    negative: bool,
    /// Magnitude of the unscaled integer, little-endian base-10 digits.
    digits: Vec<u8>,
    scale: i64,
}

impl View for Decimal {
    type V = (int, int);

    closed spec fn view(&self) -> (int, int) {
        let m = digits_value(self.digits@) as int;
        (if self.negative { -m } else { m }, self.scale as int)
    }
}

impl Decimal {
    /// Every digit is below ten, and there are no more than a `Vec<u8>` can hold.
    #[verifier::type_invariant]
    spec fn wf(&self) -> bool {
        &&& forall|i: int| 0 <= i < self.digits@.len() ==> self.digits@[i] < 10
        &&& self.digits@.len() <= i64::MAX
    }

    /// Number of base-10 digits held for the unscaled integer.
    pub closed spec fn digit_count(&self) -> nat {
        self.digits@.len()
    }

    pub fn num_digits(&self) -> (r: usize)
        ensures
            r == self.digit_count(),
            r <= i64::MAX,
    {
        proof {
            use_type_invariant(self);
        }
        self.digits.len()
    }

    pub fn scale(&self) -> (r: i64)
        ensures
            r == self@.1,
    {
        self.scale
    }

    pub fn copy(&self) -> (r: Decimal)
        ensures
            r@ == self@,
    {
        proof {
            use_type_invariant(self);
        }
        let digits = self.digits.clone();
        assert(digits@ =~= self.digits@);
        Decimal { negative: self.negative, digits, scale: self.scale }
    }

    /// The unscaled integer, as a number of scale zero.
    pub fn unscaled(&self) -> (r: Decimal)
        ensures
            r@ == (self@.0, 0int),
    {
        proof {
            use_type_invariant(self);
        }
        let digits = self.digits.clone();
        assert(digits@ =~= self.digits@);
        Decimal { negative: self.negative, digits, scale: 0 }
    }
}

proof fn lemma_digits_zero(d: Seq<u8>)
    ensures
        digits_value(d) == 0 <==> forall|i: int| 0 <= i < d.len() ==> d[i] == 0,
    decreases d.len(),
{
    if d.len() > 0 {
        lemma_digits_zero(d.drop_first());
        if digits_value(d) == 0 {
            assert forall|i: int| 0 <= i < d.len() implies d[i] == 0 by {
                if i > 0 {
                    assert(d[i] == d.drop_first()[i - 1]);
                }
            }
        }
        if forall|i: int| 0 <= i < d.len() ==> d[i] == 0 {
            assert forall|i: int| 0 <= i < d.drop_first().len() implies d.drop_first()[i] == 0 by {
                assert(d.drop_first()[i] == d[i + 1]);
            }
        }
    }
}

/// Digits whose highest non-zero digit stands at `h` make a number of
/// `h + 1` digits.
proof fn lemma_digit_length(d: Seq<u8>, h: int)
    requires
        0 <= h < d.len(),
        d[h] != 0,
        forall|j: int| h < j < d.len() ==> d[j] == 0,
        forall|j: int| 0 <= j < d.len() ==> d[j] < 10,
    ensures
        digit_length(digits_value(d)) == h + 1,
    decreases h,
{
    let rest = d.drop_first();
    lemma_digits_zero(rest);
    if h == 0 {
        assert forall|j: int| 0 <= j < rest.len() implies rest[j] == 0 by {
            assert(rest[j] == d[j + 1]);
        }
        assert(digits_value(rest) == 0);
    } else {
        assert(rest[h - 1] == d[h]);
        assert forall|j: int| h - 1 < j < rest.len() implies rest[j] == 0 by {
            assert(rest[j] == d[j + 1]);
        }
        assert forall|j: int| 0 <= j < rest.len() implies rest[j] < 10 by {
            assert(rest[j] == d[j + 1]);
        }
        lemma_digit_length(rest, h - 1);
        let m = digits_value(rest);
        assert(m != 0);
        assert((d[0] as nat + 10 * m) / 10 == m);
    }
}

impl Decimal {
    /// Count of base-10 digits of the unscaled integer's magnitude.
    pub fn significant_digits(&self) -> (r: u64)
        ensures
            r == digit_length(abs(self@.0) as nat),
    {
        proof {
            use_type_invariant(self);
        }
        let mut i: usize = self.digits.len();
        while i > 0
            invariant
                i <= self.digits@.len(),
                forall|j: int| i <= j < self.digits@.len() ==> self.digits@[j] == 0,
                forall|j: int| 0 <= j < self.digits@.len() ==> self.digits@[j] < 10,
            decreases i,
        {
            if self.digits[i - 1] != 0 {
                proof {
                    lemma_digit_length(self.digits@, i - 1);
                }
                return i as u64;
            }
            i = i - 1;
        }
        proof {
            lemma_digits_zero(self.digits@);
        }
        1
    }

    pub fn is_zero(&self) -> (r: bool)
        ensures
            r == (self@.0 == 0),
    {
        proof {
            lemma_digits_zero(self.digits@);
        }
        let mut i: usize = 0;
        while i < self.digits.len()
            invariant
                i <= self.digits@.len(),
                forall|j: int| 0 <= j < i ==> self.digits@[j] == 0,
            decreases self.digits@.len() - i,
        {
            if self.digits[i] != 0 {
                proof {
                    lemma_digits_zero(self.digits@);
                }
                assert(self.digits@[i as int] != 0);
                return false;
            }
            i = i + 1;
        }
        true
    }

    pub fn is_negative(&self) -> (r: bool)
        ensures
            r == (self@.0 < 0),
    {
        self.negative && !self.is_zero()
    }
}

/// Relies on `BigInt::from_radix_le`: digits below ten are read as base-10
/// little-endian digits of the magnitude.
#[verifier::external_body]
fn to_bigint(d: &Decimal) -> BigInt {
    let sign = if d.negative { Sign::Minus } else { Sign::Plus };
    BigInt::from_radix_le(sign, &d.digits, 10).unwrap()
}

/// Relies on `BigDecimal::new`, which takes an unscaled integer and a scale.
#[verifier::external_body]
fn to_big(d: &Decimal) -> BigDecimal {
    BigDecimal::new(to_bigint(d), d.scale)
}

/// Relies on `BigInt::to_radix_le`, which writes the magnitude in base-10
/// digits, each below ten, into a `Vec<u8>` (whose length std bounds by
/// `isize::MAX`): the result meets the type invariant.
#[verifier::external_body]
fn from_bigint(i: BigInt, scale: i64) -> (r: Decimal)
    ensures
        r@.1 == scale,
{
    let (sign, digits) = i.to_radix_le(10);
    Decimal { negative: sign == Sign::Minus, digits, scale }
}

/// Relies on `BigDecimal::into_bigint_and_exponent`, which hands out the
/// unscaled integer and the scale.
#[verifier::external_body]
fn from_big(b: BigDecimal) -> Decimal {
    let (i, scale) = b.into_bigint_and_exponent();
    from_bigint(i, scale)
}

impl Decimal {
    /// Relies on `BigDecimal::from(i64)`: the integer at scale zero.
    #[verifier::external_body]
    pub fn from_i64(v: i64) -> (r: Decimal)
        ensures
            r@ == (v as int, 0int),
    {
        from_big(BigDecimal::from(v))
    }

    /// Relies on `BigDecimal::from_str` to read a decimal literal. On a text
    /// `<integer>e<exponent>` it splits at the `e`, reads the exponent as an
    /// `i128` and the integer (with any `-`) as a `BigInt`, and takes the
    /// negated exponent as the scale.
    #[verifier::external_body]
    pub fn parse(s: &str) -> (r: Option<Decimal>)
        ensures
            match r {
                Some(d) => literal_value(s@) == Some(d@),
                None => literal_value(s@).is_none(),
            },
            r is None ==> forall|d: (int, int)|
                i64::MIN <= d.1 && d.1 <= i64::MAX ==> s@ != #[trigger] record_text(d),
            r matches Some(x) ==> forall|d: (int, int)|
                i64::MIN <= d.1 && d.1 <= i64::MAX && s@ == #[trigger] record_text(d) ==> x@ == d,
    {
        BigDecimal::from_str(s).ok().map(from_big)
    }

    /// Relies on `BigDecimal`'s `Display`.
    #[verifier::external_body]
    pub fn to_string(&self) -> (r: String)
        ensures
            r@ == display_of(self@),
    {
        to_big(self).to_string()
    }

    /// Relies on `BigDecimal::to_plain_string`: digits, with a dot where the
    /// scale puts it, zeros added to reach the scale, and `-` in front of a
    /// negative number.
    #[verifier::external_body]
    pub fn to_plain_chars(&self) -> (r: Vec<char>)
        requires
            self@.1 > i64::MIN,
        ensures
            r@ == plain_string(self@),
    {
        to_big(self).to_plain_string().chars().collect()
    }

    /// Relies on `BigDecimal`'s `==`, which compares values, not representations.
    #[verifier::external_body]
    pub fn equals(&self, other: &Decimal) -> (r: bool)
        ensures
            r == same_value(self@, other@),
    {
        to_big(self) == to_big(other)
    }

    /// Relies on `BigDecimal`'s `+` on two owned values: the operand of
    /// smaller scale is brought to the larger one (a zero operand only takes
    /// the larger scale) and the integers are added.
    #[verifier::external_body]
    pub fn add(&self, other: &Decimal) -> (r: Decimal)
        ensures
            r@ == sum(self@, other@),
    {
        from_big(to_big(self) + to_big(other))
    }

    /// Relies on `BigDecimal`'s `-`: the exact difference.
    #[verifier::external_body]
    pub fn subtract(&self, other: &Decimal) -> (r: Decimal)
        ensures
            same_value(r@, difference(self@, other@)),
    {
        from_big(to_big(self) - to_big(other))
    }

    /// Relies on `BigDecimal`'s `*`: the exact product. The scales are added,
    /// which must not overflow.
    #[verifier::external_body]
    pub fn multiply(&self, other: &Decimal) -> (r: Decimal)
        requires
            i64::MIN <= self@.1 + other@.1 <= i64::MAX,
        ensures
            same_value(r@, product(self@, other@)),
    {
        from_big(to_big(self) * to_big(other))
    }

    /// Relies on `BigDecimal`'s `/`, which panics on a zero divisor. It
    /// subtracts the scales, then raises the scale once per digit shifted in
    /// until the numerator passes the divisor (at most the divisor's digit
    /// count) and once per further quotient digit (at most
    /// `DIVISION_PRECISION`), all in `i64`.
    #[verifier::external_body]
    pub fn divide(&self, other: &Decimal) -> (r: Decimal)
        requires
            other@.0 != 0,
            division_scale_fits(self@, other@),
        ensures
            r@ == quotient_of(self@, other@),
    {
        from_big(to_big(self) / to_big(other))
    }

    /// Relies on `BigDecimal`'s `%`: both numbers are brought to the larger
    /// scale and the integers divided toward zero; a zero divisor panics.
    #[verifier::external_body]
    pub fn remainder(&self, other: &Decimal) -> (r: Decimal)
        requires
            other@.0 != 0,
        ensures
            r@ == remainder(self@, other@),
    {
        from_big(to_big(self) % to_big(other))
    }

    /// Relies on `BigDecimal::sqrt`, which is `None` exactly for a negative number.
    #[verifier::external_body]
    pub fn sqrt(&self) -> (r: Option<Decimal>)
        ensures
            match r {
                Some(d) => self@.0 >= 0 && d@ == square_root_of(self@),
                None => self@.0 < 0,
            },
    {
        to_big(self).sqrt().map(from_big)
    }

    /// Relies on `BigDecimal::with_scale`: zeros are appended to reach a
    /// larger scale, digits are dropped toward zero to reach a smaller one.
    /// For a non-zero number it subtracts the two scales in `i64`.
    #[verifier::external_body]
    pub fn with_scale(&self, s: i64) -> (r: Decimal)
        requires
            self@.0 == 0 || i64::MIN < s - self@.1 <= i64::MAX,
        ensures
            r@ == rescaled(self@, s as int),
    {
        from_big(to_big(self).with_scale(s))
    }

    /// Relies on `BigDecimal::normalized`: trailing zeros of the unscaled
    /// integer are removed, each one lowering the scale by one; zero is
    /// `(0, 0)`.
    #[verifier::external_body]
    pub fn normalized(&self) -> (r: Decimal)
        requires
            self@.1 - self.digit_count() >= i64::MIN,
        ensures
            r@ == normalize(self@),
    {
        from_big(to_big(self).normalized())
    }

    /// Relies on `BigDecimal::is_integer`: the fractional part is zero.
    #[verifier::external_body]
    pub fn is_integer(&self) -> (r: bool)
        ensures
            r == is_integral(self@),
    {
        to_big(self).is_integer()
    }

    /// Relies on `ToPrimitive::to_u64` of `BigDecimal`: `None` for a negative
    /// number, the integer otherwise when it fits. Bringing a positive number
    /// to scale zero subtracts the scales, which fails at `i64::MIN`.
    #[verifier::external_body]
    pub fn to_u64(&self) -> (r: Option<u64>)
        requires
            self@.1 > i64::MIN,
        ensures
            self@.0 < 0 ==> r is None,
            self@.0 >= 0 && is_integral(self@) ==> r == (if integer_value(self@) <= u64::MAX {
                Some(integer_value(self@) as u64)
            } else {
                None::<u64>
            }),
    {
        bigdecimal::ToPrimitive::to_u64(&to_big(self))
    }

    /// Relies on `BigInt::bits`: the bit length of the unscaled integer's magnitude.
    #[verifier::external_body]
    pub fn unscaled_bits(&self) -> (r: u64)
        ensures
            r == bit_length(abs(self@.0) as nat),
    {
        to_bigint(self).bits()
    }

    /// Relies on `BigInt::pow`: the unscaled integer raised to `e`, at scale zero.
    #[verifier::external_body]
    pub fn unscaled_pow(&self, e: u32) -> (r: Decimal)
        ensures
            r@ == (pow(self@.0, e as nat), 0int),
    {
        from_bigint(to_bigint(self).pow(e), 0)
    }
}

/// A decimal's scale is an `i64`.
pub proof fn lemma_scale_fits(d: Decimal)
    ensures
        i64::MIN <= d@.1 && d@.1 <= i64::MAX,
{
}

impl PartialEq for Decimal {
    fn eq(&self, other: &Decimal) -> (r: bool) {
        self.equals(other)
    }
}

impl vstd::std_specs::cmp::PartialEqSpecImpl for Decimal {
    open spec fn obeys_eq_spec() -> bool {
        true
    }

    open spec fn eq_spec(&self, other: &Decimal) -> bool {
        same_value(self@, other@)
    }
}

} // verus!
