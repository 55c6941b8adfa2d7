//! Laws that follow a number from its stored form to its fixed-width layout.
use crate::decimal::{
    abs, decimal_digits, digit_length, integer_value, is_integral, normalize, plain_string, pow10,
    trunc_div, zeros, Decimal,
};
use crate::format::{fixed_width, formatted, sign_len, split_layout, MARKER};
use crate::laws::{law_too_narrow_gives_marker, law_twelve_digits_in_ten_cells, lemma_no_dot};
use vstd::arithmetic::div_mod::{
    lemma_div_multiples_vanish, lemma_fundamental_div_mod, lemma_mod_multiples_basic,
};
use vstd::arithmetic::power::{lemma_pow_positive, pow};
use vstd::prelude::*;

verus! {

proof fn lemma_pow10_step(k: int)
    requires
        k >= 0,
    ensures
        pow10(k + 1) == 10 * pow10(k),
        pow10(k) > 0,
{
    lemma_pow_positive(10, k as nat);
    reveal(pow);
    assert(pow(10, (k + 1) as nat) == 10 * pow(10, k as nat));
}

proof fn lemma_pow10_zero()
    ensures
        pow10(0) == 1,
{
    reveal(pow);
}

/// Dividing an exact multiple toward zero gives the factor back.
proof fn lemma_trunc_div_multiple(q: int, p: int)
    requires
        p > 0,
    ensures
        trunc_div(q * p, p) == q,
        (q * p) % p == 0,
{
    lemma_mod_multiples_basic(q, p);
    if q >= 0 {
        assert(q * p >= 0) by (nonlinear_arith)
            requires
                q >= 0,
                p > 0,
        ;
        lemma_div_multiples_vanish(q, p);
        assert(p * q == q * p) by (nonlinear_arith);
    } else {
        assert(q * p < 0) by (nonlinear_arith)
            requires
                q < 0,
                p > 0,
        ;
        lemma_div_multiples_vanish(-q, p);
        assert(-(q * p) == p * (-q)) by (nonlinear_arith);
    }
}

/// An integral number at a positive scale is its integer times a power of ten.
proof fn lemma_integral_split(d: (int, int))
    requires
        is_integral(d),
        d.1 > 0,
    ensures
        d.0 == integer_value(d) * pow10(d.1),
{
    let p = pow10(d.1);
    lemma_pow_positive(10, d.1 as nat);
    lemma_fundamental_div_mod(d.0, p);
    let q = d.0 / p;
    assert(d.0 == q * p) by (nonlinear_arith)
        requires
            d.0 == p * q + d.0 % p,
            d.0 % p == 0,
    ;
    lemma_trunc_div_multiple(q, p);
}

/// Normalizing a non-zero integer leaves a scale of zero or below, and the
/// unscaled integer times its power of ten is the integer.
proof fn lemma_normalize_integer(d: (int, int))
    requires
        is_integral(d),
        d.0 != 0,
    ensures
        normalize(d).1 <= 0,
        normalize(d).0 != 0,
        normalize(d).0 * pow10(-normalize(d).1) == integer_value(d),
    decreases abs(d.0),
{
    if d.0 % 10 != 0 {
        if d.1 > 0 {
            lemma_integral_split(d);
            lemma_pow10_step(d.1 - 1);
            let x = integer_value(d) * pow10(d.1 - 1);
            assert(d.0 == x * 10) by (nonlinear_arith)
                requires
                    d.0 == integer_value(d) * pow10(d.1),
                    pow10(d.1) == 10 * pow10(d.1 - 1),
                    x == integer_value(d) * pow10(d.1 - 1),
            ;
            lemma_mod_multiples_basic(x, 10);
        }
    } else {
        let e = (d.0 / 10, d.1 - 1);
        lemma_fundamental_div_mod(d.0, 10);
        assert(d.0 == 10 * e.0);
        assert(e.0 != 0);
        assert(abs(e.0) < abs(d.0));
        if d.1 <= 0 {
            lemma_pow10_step(-d.1);
            assert(e.0 * pow10(1 - d.1) == d.0 * pow10(-d.1)) by (nonlinear_arith)
                requires
                    d.0 == 10 * e.0,
                    pow10(1 - d.1) == 10 * pow10(-d.1),
            ;
            assert(is_integral(e));
            assert(integer_value(e) == integer_value(d));
        } else {
            let q = integer_value(d);
            lemma_integral_split(d);
            lemma_pow10_step(d.1 - 1);
            let p = pow10(d.1 - 1);
            assert(d.0 == 10 * (q * p)) by (nonlinear_arith)
                requires
                    d.0 == q * pow10(d.1),
                    pow10(d.1) == 10 * p,
            ;
            lemma_div_multiples_vanish(q * p, 10);
            assert(e.0 == q * p);
            if d.1 - 1 == 0 {
                lemma_pow10_zero();
                assert(p == 1);
                assert(integer_value(e) == q);
            } else {
                lemma_trunc_div_multiple(q, p);
                assert(is_integral(e));
                assert(integer_value(e) == q);
            }
        }
        lemma_normalize_integer(e);
    }
}

proof fn lemma_digits_shift(m: nat, k: nat)
    requires
        m >= 1,
    ensures
        decimal_digits((m * pow10(k as int)) as nat) == decimal_digits(m) + zeros(k as int),
    decreases k,
{
    if k == 0 {
        lemma_pow10_zero();
        assert(decimal_digits(m) + zeros(0) =~= decimal_digits(m));
    } else {
        lemma_digits_shift(m, (k - 1) as nat);
        lemma_pow10_step(k - 1);
        let x = m * pow10(k - 1);
        assert(x >= 1 && m * pow10(k as int) == x * 10) by (nonlinear_arith)
            requires
                m >= 1,
                pow10(k - 1) > 0,
                x == m * pow10(k - 1),
                pow10(k as int) == 10 * pow10(k - 1),
        ;
        assert((x * 10) / 10 == x && (x * 10) % 10 == 0);
        assert(decimal_digits((x * 10) as nat) == decimal_digits(x as nat).push('0'));
        assert(zeros(k as int) =~= zeros(k - 1).push('0'));
        assert(decimal_digits(m) + zeros(k as int) =~= (decimal_digits(m) + zeros(k - 1)).push(
            '0',
        ));
    }
}

proof fn lemma_digits_len(m: nat)
    ensures
        decimal_digits(m).len() == digit_length(m),
        forall|i: int|
            0 <= i < decimal_digits(m).len() ==> '0' <= #[trigger] decimal_digits(m)[i] <= '9',
    decreases m,
{
    if m >= 10 {
        lemma_digits_len(m / 10);
    }
}

/// `-` for a negative integer, nothing otherwise.
pub open spec fn sign_of(x: int) -> Seq<char> {
    if x < 0 {
        seq!['-']
    } else {
        seq![]
    }
}

/// A non-zero integer of at most twenty digits is laid out from its sign and
/// digits, whatever scale it is stored at.
proof fn lemma_integer_layout(n: Decimal, w: int, grouping: bool)
    requires
        is_integral(n@),
        integer_value(n@) != 0,
        digit_length(abs(integer_value(n@)) as nat) <= 20,
        n@.1 - n.digit_count() >= i64::MIN,
    ensures
        formatted(n, w, grouping) == fixed_width(
            sign_of(integer_value(n@)) + decimal_digits(abs(integer_value(n@)) as nat),
            w,
            grouping,
        ),
{
    let iv = integer_value(n@);
    if n@.0 == 0 {
        assert(iv == 0);
    }
    lemma_normalize_integer(n@);
    let u = normalize(n@).0;
    let k = -normalize(n@).1;
    lemma_pow_positive(10, k as nat);
    let p = pow10(k);
    assert(u * p == iv);
    assert(abs(iv) == abs(u) * p && (iv < 0 <==> u < 0)) by (nonlinear_arith)
        requires
            u * p == iv,
            p > 0,
            u != 0,
    ;
    lemma_digits_shift(abs(u) as nat, k as nat);
    lemma_digits_len(abs(iv) as nat);
    assert(k <= 20);
    let ds = decimal_digits(abs(iv) as nat);
    assert(plain_string(normalize(n@)) =~= sign_of(iv) + ds);
}

/// A non-zero integer of twelve digits, at whatever scale it is stored,
/// shows in ten cells as its sign, its leading digits, the digit count
/// `~12~` and its trailing digits: ten characters in all.
pub proof fn law_twelve_digit_number_in_ten_cells(n: Decimal, grouping: bool)
    requires
        is_integral(n@),
        digit_length(abs(integer_value(n@)) as nat) == 12,
        n@.1 - n.digit_count() >= i64::MIN,
    ensures
        formatted(n, 10, grouping).len() == 10,
        formatted(n, 10, grouping) == ({
            let iv = integer_value(n@);
            let ds = decimal_digits(abs(iv) as nat);
            sign_of(iv) + ds.take(3) + seq!['~', '1', '2', '~'] + ds.skip(
                if iv < 0 {
                    10int
                } else {
                    9
                },
            )
        }),
{
    let iv = integer_value(n@);
    assert(iv != 0);
    lemma_integer_layout(n, 10, grouping);
    lemma_digits_len(abs(iv) as nat);
    let ds = decimal_digits(abs(iv) as nat);
    if iv >= 0 {
        assert(sign_of(iv) + ds =~= ds);
        law_twelve_digits_in_ten_cells(ds, grouping);
        assert(sign_of(iv) + ds.take(3) + seq!['~', '1', '2', '~'] + ds.skip(9) =~= ds.take(3)
            + seq!['~', '1', '2', '~'] + ds.skip(9));
    } else {
        let r = seq!['-'] + ds;
        assert forall|j: int| 0 <= j < r.len() implies r[j] != '.' by {
            if j > 0 {
                assert(r[j] == ds[j - 1]);
            }
        }
        lemma_no_dot(r, 0);
        reveal_with_fuel(decimal_digits, 3);
        assert(decimal_digits(12) =~= seq!['1', '2']);
        assert(sign_len(r) == 1);
        let mag = seq![MARKER] + decimal_digits(12) + seq![MARKER];
        assert(split_layout(r, 10) == r.take(4) + mag + r.skip(11));
        assert(r.take(4) + mag + r.skip(11) =~= seq!['-'] + ds.take(3) + seq!['~', '1', '2', '~']
            + ds.skip(10));
    }
}

/// A negative integer of thirteen digits, at whatever scale it is stored,
/// needs seven cells: in six or fewer only the marker is shown.
pub proof fn law_thirteen_digit_negative_too_narrow(n: Decimal, w: int, grouping: bool)
    requires
        is_integral(n@),
        integer_value(n@) < 0,
        digit_length(abs(integer_value(n@)) as nat) == 13,
        n@.1 - n.digit_count() >= i64::MIN,
        0 <= w <= 6,
    ensures
        formatted(n, w, grouping) == seq![MARKER],
{
    let iv = integer_value(n@);
    lemma_integer_layout(n, w, grouping);
    lemma_digits_len(abs(iv) as nat);
    let ds = decimal_digits(abs(iv) as nat);
    let r = seq!['-'] + ds;
    assert forall|j: int| 1 <= j < r.len() implies '0' <= #[trigger] r[j] <= '9' by {
        assert(r[j] == ds[j - 1]);
    }
    law_too_narrow_gives_marker(r, w, grouping);
}

} // verus!
