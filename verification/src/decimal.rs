//! Reading decimal numerals into fixed-point numbers.
//!
//! A numeral is an optional sign, digits with at most one decimal point among
//! or beside them (at least one digit), and an optional exponent: `e` or `E`,
//! an optional sign and at least one digit. Its value is taken exactly and cut
//! off after the fifteenth decimal place.

use vstd::prelude::*;
use crate::number::Fixed;
use crate::text::copy_range;

verus! {

/// How many decimal places a fixed-point number has.
pub const DECIMALS: i64 = 15;

/// Whether `c` is one of the digits `0` to `9`.
pub open spec fn is_digit(c: char) -> bool {
    0x30 <= c as u32 <= 0x39
}

/// The number that the digit `c` stands for.
pub open spec fn digit_of(c: char) -> int {
    c as u32 - 0x30
}

/// Whether `s` holds digits only.
pub open spec fn all_digits(s: Seq<char>) -> bool {
    forall|i: int| 0 <= i < s.len() ==> is_digit(#[trigger] s[i])
}

/// The number that the digit string `s` writes; 0 for the empty string.
pub open spec fn digits_value(s: Seq<char>) -> int
    decreases s.len(),
{
    if s.len() == 0 {
        0
    } else {
        digits_value(s.drop_last()) * 10 + digit_of(s.last())
    }
}

/// Ten to the power `n`.
pub open spec fn pow10(n: nat) -> int
    decreases n,
{
    if n == 0 {
        1
    } else {
        10 * pow10((n - 1) as nat)
    }
}

/// The index at or after `i` of the first character of `s` that is no digit.
pub open spec fn digits_end(s: Seq<char>, i: int) -> int
    decreases s.len() - i,
{
    if 0 <= i < s.len() && is_digit(s[i]) {
        digits_end(s, i + 1)
    } else {
        i
    }
}

/// Whether `c` is a plus or minus sign.
pub open spec fn is_sign(c: char) -> bool {
    c == '+' || c == '-'
}

/// What a numeral says: its sign, its digits without the decimal point, how
/// many of them stand before the point, and its exponent.
pub struct Numeral {
    pub negative: bool,
    pub digits: Seq<char>,
    pub point: int,
    pub exponent: int,
}

/// The numeral that `t` writes, if it writes one.
pub open spec fn read_numeral(t: Seq<char>) -> Option<Numeral> {
    let signed = t.len() > 0 && is_sign(t[0]);
    let negative = t.len() > 0 && t[0] == '-';
    let i0: int = if signed { 1 } else { 0 };
    let i1 = digits_end(t, i0);
    let dotted = i1 < t.len() && t[i1] == '.';
    let f0 = if dotted { i1 + 1 } else { i1 };
    let f1 = digits_end(t, f0);
    let digits = t.subrange(i0, i1) + t.subrange(f0, f1);
    let e0 = if f1 + 1 < t.len() && is_sign(t[f1 + 1]) { f1 + 2 } else { f1 + 1 };
    let e1 = digits_end(t, e0);
    if digits.len() == 0 {
        None
    } else if f1 == t.len() {
        Some(Numeral { negative, digits, point: i1 - i0, exponent: 0 })
    } else if (t[f1] == 'e' || t[f1] == 'E') && e0 < e1 && e1 == t.len() {
        let magnitude = digits_value(t.subrange(e0, e1));
        Some(
            Numeral {
                negative,
                digits,
                point: i1 - i0,
                exponent: if t[e0 - 1] == '-' { -magnitude } else { magnitude },
            },
        )
    } else {
        None
    }
}

/// The number written by the first `keep` digits of `digits`, with zeros
/// appended where `keep` is more than their count; 0 where `keep` is not positive.
pub open spec fn shifted_value(digits: Seq<char>, keep: int) -> int {
    if keep <= 0 {
        0
    } else if keep <= digits.len() {
        digits_value(digits.take(keep))
    } else {
        digits_value(digits) * pow10((keep - digits.len()) as nat)
    }
}

/// The absolute value of the numeral in units of `10^-15`, cut off towards zero.
pub open spec fn numeral_magnitude(n: Numeral) -> int {
    shifted_value(n.digits, n.point + n.exponent + DECIMALS)
}

/// The fixed-point number that `t` writes: the raw value of its numeral, where
/// `t` is a numeral whose magnitude a `Fixed` can hold.
pub open spec fn fixed_of(t: Seq<char>) -> Option<int> {
    match read_numeral(t) {
        None => None,
        Some(n) => {
            let m = numeral_magnitude(n);
            if m > i64::MAX {
                None
            } else if n.negative {
                Some(-m)
            } else {
                Some(m)
            }
        },
    }
}

/// From `i` to `digits_end(s, i)` there are digits only, and no digit follows.
pub proof fn lemma_digits_end(s: Seq<char>, i: int)
    requires
        0 <= i <= s.len(),
    ensures
        i <= digits_end(s, i) <= s.len(),
        all_digits(s.subrange(i, digits_end(s, i))),
        digits_end(s, i) < s.len() ==> !is_digit(s[digits_end(s, i)]),
    decreases s.len() - i,
{
    if i < s.len() && is_digit(s[i]) {
        lemma_digits_end(s, i + 1);
        let e = digits_end(s, i);
        assert forall|k: int| 0 <= k < e - i implies is_digit(#[trigger] s.subrange(i, e)[k]) by {
            if k > 0 {
                assert(s.subrange(i, e)[k] == s.subrange(i + 1, e)[k - 1]);
            }
        }
    }
}

/// A digit string writes a number that is not negative.
pub proof fn lemma_digits_value_nonnegative(s: Seq<char>)
    requires
        all_digits(s),
    ensures
        digits_value(s) >= 0,
    decreases s.len(),
{
    if s.len() > 0 {
        lemma_digits_value_nonnegative(s.drop_last());
    }
}

/// One more digit multiplies the number by ten and adds the digit.
pub proof fn lemma_digits_value_step(s: Seq<char>, j: int)
    requires
        0 <= j < s.len(),
    ensures
        digits_value(s.take(j + 1)) == digits_value(s.take(j)) * 10 + digit_of(s[j]),
{
    assert(s.take(j + 1).drop_last() =~= s.take(j));
}

/// The numbers written by the prefixes of a digit string do not decrease.
pub proof fn lemma_digits_value_monotonic(s: Seq<char>, j: int, k: int)
    requires
        all_digits(s),
        0 <= j <= k <= s.len(),
    ensures
        0 <= digits_value(s.take(j)) <= digits_value(s.take(k)),
    decreases k - j,
{
    assert(all_digits(s.take(j)));
    lemma_digits_value_nonnegative(s.take(j));
    if j < k {
        lemma_digits_value_monotonic(s, j + 1, k);
        lemma_digits_value_step(s, j);
    }
}

/// Powers of ten are positive and do not decrease.
pub proof fn lemma_pow10_monotonic(j: nat, k: nat)
    requires
        j <= k,
    ensures
        1 <= pow10(j) <= pow10(k),
    decreases k,
{
    if j < k {
        lemma_pow10_monotonic(j, (k - 1) as nat);
    } else if k > 0 {
        lemma_pow10_monotonic((j - 1) as nat, (k - 1) as nat);
    }
}

/// Ten to the power 19 is more than a `Fixed` can hold.
pub proof fn lemma_pow10_19()
    ensures
        pow10(19) == 10_000_000_000_000_000_000,
{
    reveal_with_fuel(pow10, 20);
}

/// The index at or after `i` of the first character of `t` that is no digit.
fn scan_digits(t: &Vec<char>, i: usize) -> (e: usize)
    requires
        i <= t.len(),
    ensures
        e == digits_end(t@, i as int),
        i <= e <= t.len(),
{
    let mut e: usize = i;
    while e < t.len() && 0x30 <= t[e] as u32 && t[e] as u32 <= 0x39
        invariant
            i <= e <= t.len(),
            digits_end(t@, i as int) == digits_end(t@, e as int),
        decreases t.len() - e,
    {
        e += 1;
    }
    e
}

/// The number that the digits `t[from..to]` write, or `cap` where that is more.
fn capped_value(t: &Vec<char>, from: usize, to: usize, cap: u128) -> (v: u128)
    requires
        from <= to <= t.len(),
        all_digits(t@.subrange(from as int, to as int)),
        cap < 0x1000_0000_0000_0000_0000_0000_0000_0000,
    ensures
        v == if digits_value(t@.subrange(from as int, to as int)) > cap {
            cap as int
        } else {
            digits_value(t@.subrange(from as int, to as int))
        },
{
    let ghost s = t@.subrange(from as int, to as int);
    let mut v: u128 = 0;
    let mut i: usize = from;
    assert(s.take(0).len() == 0);
    while i < to
        invariant
            from <= i <= to <= t.len(),
            s == t@.subrange(from as int, to as int),
            all_digits(s),
            v <= cap,
            cap < 0x1000_0000_0000_0000_0000_0000_0000_0000,
            v == digits_value(s.take(i - from)),
        decreases to - i,
    {
        proof {
            assert(s[i - from] == t@[i as int]);
            assert(is_digit(s[i - from]));
            lemma_digits_value_step(s, i - from);
            lemma_digits_value_monotonic(s, i - from + 1, s.len() as int);
            assert(s.take(s.len() as int) =~= s);
        }
        let d: u128 = (t[i] as u32 - 0x30) as u128;
        let next: u128 = v * 10 + d;
        if next > cap {
            return cap;
        }
        v = next;
        i += 1;
    }
    assert(s.take(s.len() as int) =~= s);
    v
}

/// The largest magnitude of a `Fixed`, and the bound at which exponents are cut.
const MAX_MAGNITUDE: u128 = 0x7fff_ffff_ffff_ffff;

const EXPONENT_CAP: u128 = 1_000_000_000_000_000_000_000_000;

/// Where the parts of a numeral stand in its text.
struct Layout {
    negative: bool,
    int_from: usize,
    int_to: usize,
    frac_from: usize,
    frac_to: usize,
    exponent: i128,
}

/// Whether `cut` stands for the exponent `exact` once exponents are cut at the bound.
spec fn cut_exponent(exact: int, cut: int) -> bool {
    if exact > EXPONENT_CAP {
        cut == EXPONENT_CAP
    } else if exact < -(EXPONENT_CAP as int) {
        cut == -(EXPONENT_CAP as int)
    } else {
        cut == exact
    }
}

/// Finds the parts of the numeral `t`, if it is one.
fn scan_numeral(t: &Vec<char>) -> (r: Option<Layout>)
    ensures
        r is Some == read_numeral(t@) is Some,
        r matches Some(l) ==> {
            let n = read_numeral(t@).unwrap();
            &&& l.int_from <= l.int_to <= l.frac_from <= l.frac_to <= t.len()
            &&& l.negative == n.negative
            &&& n.point == l.int_to - l.int_from
            &&& n.digits == t@.subrange(l.int_from as int, l.int_to as int) + t@.subrange(
                l.frac_from as int,
                l.frac_to as int,
            )
            &&& all_digits(n.digits)
            &&& n.digits.len() > 0
            &&& cut_exponent(n.exponent, l.exponent as int)
        },
{
    let len = t.len();
    let signed = len > 0 && (t[0] == '+' || t[0] == '-');
    let negative = len > 0 && t[0] == '-';
    let i0: usize = if signed { 1 } else { 0 };
    let i1 = scan_digits(t, i0);
    let dotted = i1 < len && t[i1] == '.';
    let f0: usize = if dotted { i1 + 1 } else { i1 };
    let f1 = scan_digits(t, f0);
    proof {
        lemma_digits_end(t@, i0 as int);
        lemma_digits_end(t@, f0 as int);
    }
    if (i1 - i0) + (f1 - f0) == 0 {
        return None;
    }
    let ghost digits = t@.subrange(i0 as int, i1 as int) + t@.subrange(f0 as int, f1 as int);
    assert(all_digits(digits)) by {
        assert forall|j: int| 0 <= j < digits.len() implies is_digit(#[trigger] digits[j]) by {
            if j < i1 - i0 {
                assert(digits[j] == t@.subrange(i0 as int, i1 as int)[j]);
            } else {
                assert(digits[j] == t@.subrange(f0 as int, f1 as int)[j - (i1 - i0)]);
            }
        }
    }
    let mut exponent: i128 = 0;
    if f1 < len {
        if t[f1] != 'e' && t[f1] != 'E' {
            return None;
        }
        let exp_signed = f1 + 1 < len && (t[f1 + 1] == '+' || t[f1 + 1] == '-');
        let e0: usize = if exp_signed { f1 + 2 } else { f1 + 1 };
        let e1 = scan_digits(t, e0);
        proof {
            lemma_digits_end(t@, e0 as int);
        }
        if e1 == e0 || e1 < len {
            return None;
        }
        let magnitude = capped_value(t, e0, e1, EXPONENT_CAP);
        proof {
            lemma_digits_value_nonnegative(t@.subrange(e0 as int, e1 as int));
        }
        if t[e0 - 1] == '-' {
            exponent = -(magnitude as i128);
        } else {
            exponent = magnitude as i128;
        }
    }
    Some(Layout { negative, int_from: i0, int_to: i1, frac_from: f0, frac_to: f1, exponent })
}

/// The digits of a numeral, without its decimal point.
fn collect_digits(t: &Vec<char>, l: &Layout) -> (digits: Vec<char>)
    requires
        l.int_from <= l.int_to <= l.frac_from <= l.frac_to <= t.len(),
    ensures
        digits@ == t@.subrange(l.int_from as int, l.int_to as int) + t@.subrange(
            l.frac_from as int,
            l.frac_to as int,
        ),
{
    let mut digits = copy_range(t, l.int_from, l.int_to);
    let mut k: usize = l.frac_from;
    while k < l.frac_to
        invariant
            l.int_from <= l.int_to <= l.frac_from <= k <= l.frac_to <= t.len(),
            digits@ == t@.subrange(l.int_from as int, l.int_to as int) + t@.subrange(
                l.frac_from as int,
                k as int,
            ),
        decreases l.frac_to - k,
    {
        digits.push(t[k]);
        assert(t@.subrange(l.frac_from as int, k + 1) =~= t@.subrange(
            l.frac_from as int,
            k as int,
        ).push(t@[k as int]));
        assert(digits@ =~= t@.subrange(l.int_from as int, l.int_to as int) + t@.subrange(
            l.frac_from as int,
            k + 1,
        ));
        k += 1;
    }
    digits
}

/// `v` followed by `pad` zeros, or any number beyond the largest magnitude
/// where that is beyond it.
fn append_zeros(v: u128, pad: i128) -> (r: u128)
    requires
        1 <= v <= MAX_MAGNITUDE,
        0 <= pad,
    ensures
        r > MAX_MAGNITUDE <==> v * pow10(pad as nat) > MAX_MAGNITUDE,
        r <= MAX_MAGNITUDE ==> r == v * pow10(pad as nat),
{
    let mut cur: u128 = v;
    let mut j: i128 = 0;
    assert(pow10(0) == 1);
    while j < pad && cur <= MAX_MAGNITUDE
        invariant
            0 <= j <= pad,
            1 <= v <= cur,
            cur == v * pow10(j as nat),
            cur <= 10 * MAX_MAGNITUDE,
        decreases pad - j,
    {
        proof {
            assert(pow10((j + 1) as nat) == 10 * pow10(j as nat));
            assert(v * pow10((j + 1) as nat) == 10 * (v * pow10(j as nat))) by (nonlinear_arith)
                requires
                    pow10((j + 1) as nat) == 10 * pow10(j as nat),
            ;
        }
        cur = cur * 10;
        j = j + 1;
    }
    proof {
        if cur > MAX_MAGNITUDE {
            lemma_pow10_monotonic(j as nat, pad as nat);
            assert(v * pow10(pad as nat) >= v * pow10(j as nat)) by (nonlinear_arith)
                requires
                    v >= 1,
                    pow10(pad as nat) >= pow10(j as nat),
            ;
        }
    }
    cur
}

/// The number written by the first `keep` digits, zeros appended where `keep`
/// is more than their count, or any number beyond the largest magnitude where
/// that number is beyond it.
fn shift_digits(digits: &Vec<char>, keep: i128) -> (r: u128)
    requires
        all_digits(digits@),
    ensures
        r > MAX_MAGNITUDE <==> shifted_value(digits@, keep as int) > MAX_MAGNITUDE,
        r <= MAX_MAGNITUDE ==> r == shifted_value(digits@, keep as int),
{
    let count = digits.len();
    if keep <= 0 {
        0
    } else if keep <= count as i128 {
        assert(digits@.subrange(0, keep as int) =~= digits@.take(keep as int));
        assert(all_digits(digits@.take(keep as int)));
        capped_value(digits, 0, keep as usize, MAX_MAGNITUDE + 1)
    } else {
        assert(digits@.subrange(0, count as int) =~= digits@);
        let v = capped_value(digits, 0, count, MAX_MAGNITUDE + 1);
        let ghost zeros = (keep - count) as nat;
        proof {
            lemma_digits_value_nonnegative(digits@);
            lemma_pow10_monotonic(0, zeros);
            let d = digits_value(digits@);
            let p = pow10(zeros);
            assert(d * p >= d) by (nonlinear_arith)
                requires
                    d >= 0,
                    p >= 1,
            ;
            assert(d == 0 ==> d * p == 0) by (nonlinear_arith);
        }
        if v == 0 || v > MAX_MAGNITUDE {
            v
        } else {
            append_zeros(v, keep - count as i128)
        }
    }
}

/// Cutting a huge exponent at the bound changes neither whether the magnitude
/// can be held nor, where it can, what it is.
proof fn lemma_cut_exponent(digits: Seq<char>, point: int, exact: int, cut: int)
    requires
        all_digits(digits),
        0 <= point <= digits.len() <= usize::MAX,
        cut_exponent(exact, cut),
    ensures
        shifted_value(digits, point + cut + DECIMALS) > MAX_MAGNITUDE <==> shifted_value(
            digits,
            point + exact + DECIMALS,
        ) > MAX_MAGNITUDE,
        shifted_value(digits, point + exact + DECIMALS) <= MAX_MAGNITUDE ==> shifted_value(
            digits,
            point + cut + DECIMALS,
        ) == shifted_value(digits, point + exact + DECIMALS),
{
    let d = digits_value(digits);
    lemma_digits_value_nonnegative(digits);
    if exact > EXPONENT_CAP {
        let z1 = (point + cut + DECIMALS - digits.len()) as nat;
        let z2 = (point + exact + DECIMALS - digits.len()) as nat;
        lemma_pow10_monotonic(19, z1);
        lemma_pow10_monotonic(19, z2);
        lemma_pow10_19();
        let low = pow10(z1);
        let high = pow10(z2);
        if d == 0 {
            assert(d * low == 0) by (nonlinear_arith)
                requires
                    d == 0,
            ;
            assert(d * high == 0) by (nonlinear_arith)
                requires
                    d == 0,
            ;
        } else {
            assert(d * low >= low) by (nonlinear_arith)
                requires
                    d >= 1,
                    low >= 1,
            ;
            assert(d * high >= high) by (nonlinear_arith)
                requires
                    d >= 1,
                    high >= 1,
            ;
        }
    }
}

/// The fixed-point number that `t` writes.
pub fn parse_fixed(t: &Vec<char>) -> (r: Option<Fixed>)
    ensures
        r is Some == fixed_of(t@) is Some,
        r matches Some(v) ==> fixed_of(t@) == Some(v as int),
{
    match scan_numeral(t) {
        None => None,
        Some(layout) => {
            let digits = collect_digits(t, &layout);
            let keep: i128 = (layout.int_to - layout.int_from) as i128 + layout.exponent + DECIMALS as i128;
            let magnitude = shift_digits(&digits, keep);
            proof {
                let n = read_numeral(t@).unwrap();
                lemma_cut_exponent(n.digits, n.point, n.exponent, layout.exponent as int);
            }
            if magnitude > MAX_MAGNITUDE {
                None
            } else if layout.negative {
                Some(-(magnitude as i64))
            } else {
                Some(magnitude as i64)
            }
        },
    }
}

} // verus!
