//! Fixed-width rendering of decimal numbers.
use crate::decimal::{decimal_digits, digit_char, normalize, plain_string, Decimal};
use vstd::prelude::*;

verus! {

/// The character that marks omitted digits, and stands alone for a number
/// that cannot be shown at all.
pub const MARKER: char = '~';

/// The character placed between groups of three integer digits.
pub const SEPARATOR: char = ',';

/// Index of the first `.` of `r` at or after `i`; `-1` when there is none.
pub open spec fn find_dot(r: Seq<char>, i: int) -> int
    decreases r.len() - i,
{
    if i < 0 || i >= r.len() {
        -1
    } else if r[i] == '.' {
        i
    } else {
        find_dot(r, i + 1)
    }
}

/// `1` when `r` starts with a minus sign.
pub open spec fn sign_len(r: Seq<char>) -> int {
    if r.len() > 0 && r[0] == '-' {
        1
    } else {
        0
    }
}

/// Digits with a separator before each group of three, counted from the right.
pub open spec fn group3(ds: Seq<char>) -> Seq<char>
    decreases ds.len(),
{
    if ds.len() <= 3 {
        ds
    } else {
        group3(ds.take(ds.len() - 3)) + seq![SEPARATOR] + ds.skip(ds.len() - 3)
    }
}

/// `r` with its integer digits (after any sign, before any dot) grouped.
pub open spec fn grouped(r: Seq<char>) -> Seq<char> {
    let idx = find_dot(r, 0);
    let e = if idx >= 0 {
        idx
    } else {
        r.len() as int
    };
    let neg = sign_len(r);
    r.take(neg) + group3(r.subrange(neg, e)) + r.skip(e)
}

/// The split layout `[sign][leading digits]~magnitude~[trailing digits][.fraction]`
/// in `w` cells, or the marker alone when not even that fits.
pub open spec fn split_layout(r: Seq<char>, w: int) -> Seq<char> {
    let n = r.len() as int;
    let idx = find_dot(r, 0);
    let f = if idx >= 0 {
        n - idx - 1
    } else {
        0
    };
    let dd = n - f;
    let db = dd - (if f > 0 {
        1int
    } else {
        0
    });
    let neg = sign_len(r);
    let parts = if f > 0 {
        3int
    } else {
        2
    };
    let mag = seq![MARKER] + decimal_digits((db - neg) as nat) + seq![MARKER];
    let budget = w - neg - (if f > 0 {
        1int
    } else {
        0
    }) - mag.len();
    if budget < parts {
        seq![MARKER]
    } else {
        let lsb = budget / parts;
        let msb = budget - (parts - 1) * lsb;
        let tail = if f > 0 {
            r.subrange(dd - lsb - 1, if dd + lsb < n {
                dd + lsb
            } else {
                n
            })
        } else {
            r.skip(n - lsb)
        };
        r.take(msb + neg) + mag + tail
    }
}

/// The plain notation `r` laid out in `w` character cells.
pub open spec fn fixed_width(r: Seq<char>, w: int, grouping: bool) -> Seq<char> {
    let n = r.len() as int;
    let idx = find_dot(r, 0);
    let f = if idx >= 0 {
        n - idx - 1
    } else {
        0
    };
    let dd = n - f;
    if n <= w {
        if grouping && grouped(r).len() <= w {
            grouped(r)
        } else {
            r
        }
    } else if f > 0 && w - dd - 1 >= 0 {
        r.take(w - 1) + seq![MARKER]
    } else {
        split_layout(r, w)
    }
}

proof fn lemma_find_dot(r: Seq<char>, i: int)
    requires
        0 <= i,
    ensures
        -1 <= find_dot(r, i) < r.len(),
        find_dot(r, i) >= 0 ==> i <= find_dot(r, i) && r[find_dot(r, i)] == '.',
    decreases r.len() - i,
{
    if i < r.len() && r[i] != '.' {
        lemma_find_dot(r, i + 1);
    }
}

fn locate_dot(r: &Vec<char>) -> (idx: i128)
    ensures
        idx == find_dot(r@, 0),
        -1 <= idx < r@.len(),
        idx >= 0 ==> r@[idx as int] == '.',
{
    proof {
        lemma_find_dot(r@, 0);
    }
    let mut i: usize = 0;
    while i < r.len()
        invariant
            i <= r@.len(),
            find_dot(r@, 0) == find_dot(r@, i as int),
        decreases r@.len() - i,
    {
        if r[i] == '.' {
            return i as i128;
        }
        i = i + 1;
    }
    -1
}

pub(crate) fn push_range(out: &mut Vec<char>, r: &Vec<char>, from: usize, to: usize)
    requires
        from <= to <= r@.len(),
    ensures
        final(out)@ == old(out)@ + r@.subrange(from as int, to as int),
{
    let mut i: usize = from;
    while i < to
        invariant
            from <= i <= to,
            to <= r@.len(),
            out@ == old(out)@ + r@.subrange(from as int, i as int),
        decreases to - i,
    {
        out.push(r[i]);
        i = i + 1;
        assert(out@ =~= old(out)@ + r@.subrange(from as int, i as int));
    }
}

fn digit(d: u64) -> (c: char)
    requires
        d < 10,
    ensures
        c == digit_char(d as int),
{
    if d == 0 {
        '0'
    } else if d == 1 {
        '1'
    } else if d == 2 {
        '2'
    } else if d == 3 {
        '3'
    } else if d == 4 {
        '4'
    } else if d == 5 {
        '5'
    } else if d == 6 {
        '6'
    } else if d == 7 {
        '7'
    } else if d == 8 {
        '8'
    } else {
        '9'
    }
}

/// Base-10 digits of `n`.
pub fn decimal_chars(n: u64) -> (r: Vec<char>)
    ensures
        r@ == decimal_digits(n as nat),
    decreases n,
{
    if n < 10 {
        let mut r = Vec::new();
        r.push(digit(n));
        assert(r@ =~= decimal_digits(n as nat));
        r
    } else {
        let mut r = decimal_chars(n / 10);
        r.push(digit(n % 10));
        r
    }
}

fn group_range(r: &Vec<char>, from: usize, to: usize) -> (g: Vec<char>)
    requires
        from <= to <= r@.len(),
    ensures
        g@ == group3(r@.subrange(from as int, to as int)),
    decreases to - from,
{
    let ghost ds = r@.subrange(from as int, to as int);
    if to - from <= 3 {
        let mut g = Vec::new();
        push_range(&mut g, r, from, to);
        assert(g@ =~= ds);
        g
    } else {
        let mut g = group_range(r, from, to - 3);
        g.push(SEPARATOR);
        push_range(&mut g, r, to - 3, to);
        assert(ds.take(ds.len() - 3) =~= r@.subrange(from as int, to - 3));
        assert(ds.skip(ds.len() - 3) =~= r@.subrange(to - 3, to as int));
        g
    }
}

fn group_integer_part(r: &Vec<char>) -> (g: Vec<char>)
    ensures
        g@ == grouped(r@),
{
    let idx = locate_dot(r);
    let n = r.len();
    let e: usize = if idx >= 0 {
        idx as usize
    } else {
        n
    };
    let neg: usize = if n > 0 && r[0] == '-' {
        1
    } else {
        0
    };
    let mut g = Vec::new();
    push_range(&mut g, r, 0, neg);
    let mid = group_range(r, neg, e);
    let mut i: usize = 0;
    while i < mid.len()
        invariant
            i <= mid@.len(),
            g@ == r@.take(neg as int) + mid@.take(i as int),
        decreases mid@.len() - i,
    {
        g.push(mid[i]);
        i = i + 1;
        assert(g@ =~= r@.take(neg as int) + mid@.take(i as int));
    }
    push_range(&mut g, r, e, n);
    assert(mid@.take(i as int) =~= mid@);
    assert(r@.subrange(0, neg as int) =~= r@.take(neg as int));
    assert(r@.subrange(e as int, n as int) =~= r@.skip(e as int));
    g
}

fn marker_only() -> (r: Vec<char>)
    ensures
        r@ == seq![MARKER],
{
    let mut r = Vec::new();
    r.push(MARKER);
    assert(r@ =~= seq![MARKER]);
    r
}

/// Lays out the plain notation `repr` in `width` cells. A notation that fits
/// is kept, grouped if asked and if the grouped form still fits. A longer one
/// keeps its integer part and cuts the fraction, marking the cut; failing
/// that, it keeps leading and trailing digits around the count of integer
/// digits. What cannot be shown at all becomes the marker alone.
pub fn layout(repr: &Vec<char>, width: u64, grouping: bool) -> (r: Vec<char>)
    ensures
        r@ == fixed_width(repr@, width as int, grouping),
{
    let n = repr.len();
    let idx = locate_dot(repr);
    if n as u128 <= width as u128 {
        if grouping {
            let g = group_integer_part(repr);
            if g.len() as u128 <= width as u128 {
                return g;
            }
        }
        let mut r = Vec::new();
        push_range(&mut r, repr, 0, n);
        assert(r@ =~= repr@);
        return r;
    }
    let total = n as i128;
    let w = width as i128;
    let f: i128 = if idx >= 0 {
        total - idx - 1
    } else {
        0
    };
    let dd = total - f;
    if f > 0 && w - dd - 1 >= 0 {
        let mut r = Vec::new();
        push_range(&mut r, repr, 0, (w - 1) as usize);
        r.push(MARKER);
        assert(r@ =~= repr@.take(w - 1) + seq![MARKER]);
        return r;
    }
    split(repr, width)
}

/// The split layout, for a notation longer than `width` that cannot simply
/// lose fraction digits.
fn split(repr: &Vec<char>, width: u64) -> (r: Vec<char>)
    requires
        repr@.len() > width,
        !({
            let n = repr@.len() as int;
            let idx = find_dot(repr@, 0);
            let f = if idx >= 0 {
                n - idx - 1
            } else {
                0
            };
            f > 0 && width - (n - f) - 1 >= 0
        }),
    ensures
        r@ == split_layout(repr@, width as int),
{
    let n = repr.len();
    let idx = locate_dot(repr);
    let total = n as i128;
    let w = width as i128;
    let f: i128 = if idx >= 0 {
        total - idx - 1
    } else {
        0
    };
    let dd = total - f;
    let dot: i128 = if f > 0 {
        1
    } else {
        0
    };
    let neg: i128 = if repr[0] == '-' {
        1
    } else {
        0
    };
    assert(dd - dot - neg >= 0);
    let mag = decimal_chars((dd - dot - neg) as u64);
    let budget = w - neg - dot - (mag.len() as i128 + 2);
    let parts: i128 = if f > 0 {
        3
    } else {
        2
    };
    if budget < parts {
        return marker_only();
    }
    let lsb = if f > 0 {
        budget / 3
    } else {
        budget / 2
    };
    let msb = if f > 0 {
        budget - 2 * lsb
    } else {
        budget - lsb
    };
    assert(lsb == budget / parts && msb == budget - (parts - 1) * lsb);
    assert(lsb >= 0 && msb >= 0);
    let ghost mag_seq = seq![MARKER] + decimal_digits((dd - dot - neg) as nat) + seq![MARKER];
    let mut r = head_with_magnitude(repr, (msb + neg) as usize, &mag);
    if f > 0 {
        let end = if dd + lsb < total {
            dd + lsb
        } else {
            total
        };
        push_range(&mut r, repr, (dd - lsb - 1) as usize, end as usize);
    } else {
        push_range(&mut r, repr, (total - lsb) as usize, n);
        assert(repr@.subrange(total - lsb, total as int) =~= repr@.skip(total - lsb));
    }
    r
}

/// The first `k` characters of `repr`, then the magnitude between markers.
fn head_with_magnitude(repr: &Vec<char>, k: usize, mag: &Vec<char>) -> (r: Vec<char>)
    requires
        k <= repr@.len(),
    ensures
        r@ == repr@.take(k as int) + (seq![MARKER] + mag@ + seq![MARKER]),
{
    let mut r = Vec::new();
    push_range(&mut r, repr, 0, k);
    r.push(MARKER);
    let mut i: usize = 0;
    while i < mag.len()
        invariant
            i <= mag@.len(),
            r@ == repr@.subrange(0, k as int) + seq![MARKER] + mag@.take(i as int),
        decreases mag@.len() - i,
    {
        r.push(mag[i]);
        i = i + 1;
        assert(r@ =~= repr@.subrange(0, k as int) + seq![MARKER] + mag@.take(i as int));
    }
    r.push(MARKER);
    assert(mag@.take(i as int) =~= mag@);
    assert(r@ =~= repr@.take(k as int) + (seq![MARKER] + mag@ + seq![MARKER]));
    r
}

/// Relies on std's `FromIterator<&char>` for `String`: the characters in order.
#[verifier::external_body]
pub(crate) fn string_from_chars(v: &Vec<char>) -> (r: String)
    ensures
        r@ == v@,
{
    v.iter().collect()
}

/// What `format_number` shows for `n` in `width` cells.
pub open spec fn formatted(n: Decimal, width: int, grouping: bool) -> Seq<char> {
    if n@.0 != 0 && (n@.1 - n.digit_count() < i64::MIN || normalize(n@).1 == i64::MIN) {
        seq![MARKER]
    } else {
        fixed_width(plain_string(normalize(n@)), width, grouping)
    }
}

/// The layout of `n` in `width` cells, from its normalized plain notation.
/// A non-zero number whose notation would need a scale beyond `i64` shows
/// the marker alone.
pub fn format_number(n: &Decimal, width: u64, grouping: bool) -> (r: String)
    ensures
        r@ == formatted(*n, width as int, grouping),
{
    let m = if n.is_zero() {
        Decimal::from_i64(0)
    } else {
        let count = n.num_digits();
        if (n.scale() as i128) - (count as i128) < i64::MIN as i128 {
            return string_from_chars(&marker_only());
        }
        let m = n.normalized();
        if m.scale() == i64::MIN {
            return string_from_chars(&marker_only());
        }
        m
    };
    let repr = m.to_plain_chars();
    string_from_chars(&layout(&repr, width, grouping))
}

} // verus!
