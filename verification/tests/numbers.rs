use gtav_coordinate_lookup::number::{
    decimal_u16, is_number_str, key_of, less, less_eq, max_bits, nan_bits,
};
use gtav_coordinate_lookup::text::is_white_char;

#[test]
fn number_text_matches_the_float_parser() {
    let cases = [
        "0", "1", "-1", "+1", "1.", ".5", "-.5", "1.5e3", "1.5E-3", "1e+7", "1e", "e5", ".", "-",
        "+", "", " 1", "1 ", "1..2", "1.2.3", "inf", "-inf", "+Infinity", "INFINITY", "NaN",
        "-nan", "nan(1)", "infinit", "infinityy", "0x10", "1_000", "12e3e4", "--1", "+-1",
        "1e-400", "-1e400", "00012", "١", "1e1.5", "5.e2", ".e2", "1ee2", "1,5",
    ];
    for case in cases {
        assert_eq!(
            is_number_str(case),
            case.parse::<f64>().is_ok(),
            "disagreement on {case:?}"
        );
    }
}

#[test]
fn whitespace_matches_std() {
    for code in 0u32..=0x10ffff {
        if let Some(c) = char::from_u32(code) {
            assert_eq!(is_white_char(c), c.is_whitespace(), "disagreement on U+{code:04X}");
        }
    }
}

#[test]
fn order_keys_compare_as_floats_do() {
    let values = [
        f64::NEG_INFINITY,
        -1e300,
        -2.5,
        -1.0,
        -f64::MIN_POSITIVE,
        -5e-324,
        -0.0,
        0.0,
        5e-324,
        f64::MIN_POSITIVE,
        1.0,
        2.5,
        35.0,
        1e300,
        f64::INFINITY,
        f64::NAN,
        -f64::NAN,
    ];
    for a in values {
        for b in values {
            let (x, y) = (a.to_bits(), b.to_bits());
            assert_eq!(less(x, y), a < b, "{a} < {b}");
            assert_eq!(less_eq(x, y), a <= b, "{a} <= {b}");
            let m = f64::from_bits(max_bits(x, y));
            let expected = a.max(b);
            assert!(
                (m.is_nan() && expected.is_nan()) || m == expected,
                "max({a}, {b})"
            );
        }
        assert_eq!(nan_bits(a.to_bits()), a.is_nan());
    }
    assert_eq!(key_of(0.0f64.to_bits()), key_of((-0.0f64).to_bits()));
    assert_eq!(key_of(0.0f64.to_bits()), 1u64 << 63);
}

#[test]
fn decimal_text_matches_display() {
    for n in [0u16, 1, 9, 10, 99, 100, 116, 333, 9999, 10000, 65535] {
        let text: String = decimal_u16(n).into_iter().collect();
        assert_eq!(text, n.to_string());
    }
}
