use crystal_cell::decimal::parse_fixed;
use crystal_cell::number::{div_round, div_trunc, mul_fixed, narrow, sqrt_floor, SCALE};
use crystal_cell::text::chars_of;

fn number(s: &str) -> Option<i64> {
    parse_fixed(&chars_of(s))
}

#[test]
fn the_unit_is_ten_to_the_minus_fifteen() {
    assert_eq!(SCALE, 1_000_000_000_000_000);
    assert_eq!(number("1"), Some(SCALE));
    assert_eq!(number("0.000000000000001"), Some(1));
}

#[test]
fn plain_numerals() {
    assert_eq!(number("0"), Some(0));
    assert_eq!(number("5"), Some(5 * SCALE));
    assert_eq!(number("5.4307"), Some(5_430_700_000_000_000));
    assert_eq!(number("0.25"), Some(SCALE / 4));
    assert_eq!(number("90.000"), Some(90 * SCALE));
    assert_eq!(number("007"), Some(7 * SCALE));
}

#[test]
fn signs_and_bare_points() {
    assert_eq!(number("-0.5"), Some(-SCALE / 2));
    assert_eq!(number("+0.5"), Some(SCALE / 2));
    assert_eq!(number(".5"), Some(SCALE / 2));
    assert_eq!(number("5."), Some(5 * SCALE));
    assert_eq!(number("-.125"), Some(-SCALE / 8));
    assert_eq!(number("-0"), Some(0));
}

#[test]
fn exponents() {
    assert_eq!(number("1e0"), Some(SCALE));
    assert_eq!(number("1.5e2"), Some(150 * SCALE));
    assert_eq!(number("1.5E2"), Some(150 * SCALE));
    assert_eq!(number("25e-1"), Some(5 * SCALE / 2));
    assert_eq!(number("2.5e+1"), Some(25 * SCALE));
    assert_eq!(number("1.e1"), Some(10 * SCALE));
    assert_eq!(number(".5e1"), Some(5 * SCALE));
    assert_eq!(number("1e-15"), Some(1));
    assert_eq!(number("1e-16"), Some(0));
    assert_eq!(number("123456789e-23"), Some(1));
}

#[test]
fn digits_beyond_the_fifteenth_place_are_cut_off() {
    assert_eq!(number("0.3333333333333339"), Some(333_333_333_333_333));
    assert_eq!(number("-0.9999999999999999"), Some(-999_999_999_999_999));
    assert_eq!(number("1.00000000000000000000000000000000001"), Some(SCALE));
    assert_eq!(number("0.0000000000000000000000000000000000001"), Some(0));
}

#[test]
fn huge_exponents() {
    assert_eq!(number("0e99999999999999999999999999999999999999999999"), Some(0));
    assert_eq!(number("0.000e123456789012345678901234567890"), Some(0));
    assert_eq!(number("1e99999999999999999999999999999999999999999999"), None);
    assert_eq!(number("1e-99999999999999999999999999999999999999999999"), Some(0));
    assert_eq!(number("123e-1000000000000000000000000"), Some(0));
    assert_eq!(number("5e-1000000000000000000000001"), Some(0));
}

#[test]
fn the_range_of_a_fixed_point_number() {
    assert_eq!(number("9223.372036854775807"), Some(i64::MAX));
    assert_eq!(number("-9223.372036854775807"), Some(-i64::MAX));
    assert_eq!(number("9223.372036854775808"), None);
    assert_eq!(number("-9223.372036854775808"), None);
    assert_eq!(number("9224"), None);
    assert_eq!(number("1e4"), None);
    assert_eq!(number("9e3"), Some(9_000 * SCALE));
    assert_eq!(number("100000000000000000000000000000000000000"), None);
    assert_eq!(number("0.0000000000000009223372036854775807e19"), Some(i64::MAX));
}

#[test]
fn what_is_no_numeral() {
    for s in [
        "", "+", "-", ".", "+.", "e5", ".e5", "1e", "1e+", "1e-", "abc", "1.2.3", "1,5", "0x10",
        "1_000", "--1", "+-1", "1e5.0", "1e5e5", " 1", "1 ", "5.4307(2)", "inf", "-inf", "nan",
        "NaN", "infinity", "1f", "٣",
    ] {
        assert_eq!(number(s), None, "{:?}", s);
    }
}

#[test]
fn products_are_rounded_to_the_nearest_unit() {
    assert_eq!(mul_fixed(2 * SCALE, 3 * SCALE), 6 * SCALE as i128);
    assert_eq!(mul_fixed(SCALE / 2, SCALE / 2), (SCALE / 4) as i128);
    assert_eq!(mul_fixed(1, SCALE / 2 - 1), 0);
    assert_eq!(mul_fixed(1, SCALE / 2), 1);
    assert_eq!(mul_fixed(-1, SCALE / 2 - 1), 0);
    assert_eq!(mul_fixed(-1, SCALE / 2), -1);
    assert_eq!(mul_fixed(3, SCALE / 2), 2);
    assert_eq!(mul_fixed(-3, SCALE / 2), -2);
    assert_eq!(mul_fixed(-3, -SCALE / 2), 2);
    assert_eq!(mul_fixed(3, SCALE / 3), 1);
    assert_eq!(mul_fixed(4, SCALE / 3), 1);
    assert_eq!(mul_fixed(5, SCALE / 3), 2);
    assert_eq!(mul_fixed(i64::MIN, -SCALE), 1i128 << 63);
    assert_eq!(mul_fixed(i64::MAX, i64::MAX), ((1i128 << 126) - (1i128 << 64) + 1 + SCALE as i128 / 2) / SCALE as i128);
}

#[test]
fn quotients_are_rounded_or_cut_off() {
    assert_eq!(div_round(7, 2), 4);
    assert_eq!(div_round(-7, 2), -4);
    assert_eq!(div_round(7, -2), -4);
    assert_eq!(div_round(-7, -2), 4);
    assert_eq!(div_round(7, 3), 2);
    assert_eq!(div_round(8, 3), 3);
    assert_eq!(div_round(-8, 3), -3);
    assert_eq!(div_round(1, 3), 0);
    assert_eq!(div_round(0, -5), 0);
    assert_eq!(div_round(1i128 << 126, 1), 1i128 << 126);
    assert_eq!(div_trunc(7, 2), 3);
    assert_eq!(div_trunc(-7, 2), -3);
    assert_eq!(div_trunc(7, -2), -3);
    assert_eq!(div_trunc(-7, -2), 3);
    assert_eq!(div_trunc(0, -5), 0);
    assert_eq!(div_trunc(i128::MAX, 1), i128::MAX);
}

#[test]
fn narrowing() {
    assert_eq!(narrow(0), Some(0));
    assert_eq!(narrow(i64::MAX as i128), Some(i64::MAX));
    assert_eq!(narrow(i64::MIN as i128), Some(i64::MIN));
    assert_eq!(narrow(i64::MAX as i128 + 1), None);
    assert_eq!(narrow(i64::MIN as i128 - 1), None);
}

#[test]
fn integer_square_roots() {
    assert_eq!(sqrt_floor(0), 0);
    assert_eq!(sqrt_floor(1), 1);
    assert_eq!(sqrt_floor(3), 1);
    assert_eq!(sqrt_floor(4), 2);
    assert_eq!(sqrt_floor(24), 4);
    assert_eq!(sqrt_floor(25), 5);
    assert_eq!(sqrt_floor(25_000_000_000_000_000_000), 5_000_000_000);
    assert_eq!(sqrt_floor(2_000_000_000_000_000_000), 1_414_213_562);
    assert_eq!(sqrt_floor(u128::MAX), u64::MAX);
    assert_eq!(sqrt_floor((u64::MAX as u128) * (u64::MAX as u128) - 1), u64::MAX - 1);
}

fn all_texts(alphabet: &[char], length: usize) -> Vec<String> {
    let mut all = vec![String::new()];
    let mut last = vec![String::new()];
    for _ in 0..length {
        let mut next = Vec::new();
        for s in last.iter() {
            for c in alphabet {
                let mut t = s.clone();
                t.push(*c);
                next.push(t);
            }
        }
        all.extend(next.iter().cloned());
        last = next;
    }
    all
}

#[test]
fn numerals_are_those_that_std_reads_as_finite_numbers() {
    let mut numerals = 0;
    for s in all_texts(&['0', '7', '+', '-', '.', 'e', 'E'], 6) {
        let ours = number(&s);
        match s.parse::<f64>() {
            Err(_) => assert_eq!(ours, None, "{:?}", s),
            Ok(v) if v.abs() < 9.0e3 => {
                numerals += 1;
                let found = ours.unwrap_or_else(|| panic!("{:?}", s));
                let exact = v * 1e15;
                assert!((found as f64 - exact).abs() <= 1.0 + exact.abs() * 1e-15, "{:?}", s);
            }
            Ok(v) => {
                assert!(v.abs() > 9.3e3, "{:?}", s);
                assert_eq!(ours, None, "{:?}", s);
            }
        }
    }
    assert!(numerals > 1000);
}

#[test]
fn numerals_with_fifteen_places_are_read_exactly() {
    let mut state: u64 = 1;
    for _ in 0..2000 {
        state = state.wrapping_mul(6_364_136_223_846_793_005).wrapping_add(1_442_695_040_888_963_407);
        let k = (state % 9_000_000_000_000_000_000) as i64;
        let text = format!("{}.{:015}", k / SCALE, k % SCALE);
        assert_eq!(number(&text), Some(k), "{:?}", text);
        assert_eq!(number(&format!("-{}", text)), Some(-k), "{:?}", text);
        assert_eq!(number(&format!("{}e0", text)), Some(k), "{:?}", text);
        assert_eq!(number(&format!("{}e-15", k)), Some(k), "{:?}", text);
        assert_eq!(number(&format!("{}e-16", k)), Some(k / 10), "{:?}", text);
    }
}
