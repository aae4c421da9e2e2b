use midas_rs::numeric::{is_float, parse_u32, parse_u64, Real};

#[test]
fn parse_u64_reads_decimal_digits() {
    assert_eq!(parse_u64("0"), Some(0));
    assert_eq!(parse_u64("1646231400123"), Some(1646231400123));
    assert_eq!(parse_u64("+17"), Some(17));
    assert_eq!(parse_u64("007"), Some(7));
    assert_eq!(parse_u64("18446744073709551615"), Some(u64::MAX));
}

#[test]
fn parse_u64_refuses_what_is_no_number() {
    assert_eq!(parse_u64(""), None);
    assert_eq!(parse_u64("+"), None);
    assert_eq!(parse_u64("-"), None);
    assert_eq!(parse_u64("-5"), None);
    assert_eq!(parse_u64("++5"), None);
    assert_eq!(parse_u64("5+"), None);
    assert_eq!(parse_u64(" 5"), None);
    assert_eq!(parse_u64("5 "), None);
    assert_eq!(parse_u64("1_000"), None);
    assert_eq!(parse_u64("12a"), None);
    assert_eq!(parse_u64("1.0"), None);
    assert_eq!(parse_u64("\u{661}"), None);
}

#[test]
fn parse_u64_refuses_what_does_not_fit() {
    assert_eq!(parse_u64("18446744073709551616"), None);
    assert_eq!(parse_u64("99999999999999999999999"), None);
    assert_eq!(parse_u64("000000000000000000000000001"), Some(1));
}

#[test]
fn parse_u32_reads_and_bounds() {
    assert_eq!(parse_u32("930"), Some(930));
    assert_eq!(parse_u32("+0"), Some(0));
    assert_eq!(parse_u32("4294967295"), Some(u32::MAX));
    assert_eq!(parse_u32("4294967296"), None);
    assert_eq!(parse_u32("-1"), None);
    assert_eq!(parse_u32(""), None);
}

#[test]
fn integers_agree_with_std() {
    let samples = [
        "", "0", "1", "+1", "-1", "+", "-", "00", "0x10", "1e3", "4294967295", "4294967296",
        "18446744073709551615", "18446744073709551616", "12 ", " 12", "1_2", "+-1", "९",
    ];
    for s in samples {
        assert_eq!(parse_u64(s), s.parse::<u64>().ok(), "{:?}", s);
        assert_eq!(parse_u32(s), s.parse::<u32>().ok(), "{:?}", s);
    }
}

#[test]
fn is_float_takes_decimal_literals() {
    for s in ["0", "1.25", "1.", ".5", "+.5", "-0.0", "1e5", "1E5", "1e+5", "1.5e-3", "1.e5", "007.5"]
    {
        assert!(is_float(s), "{:?}", s);
    }
}

#[test]
fn is_float_takes_the_special_names() {
    for s in ["inf", "INF", "Inf", "+inf", "-inf", "infinity", "-Infinity", "nan", "NaN", "+NAN"] {
        assert!(is_float(s), "{:?}", s);
    }
}

#[test]
fn is_float_refuses_what_is_no_literal() {
    for s in [
        "", "+", "-", ".", "+.", "e5", ".e5", "1e", "1e+", "1e5.0", "1..2", "1.2.3", " 1", "1 ",
        "1_0", "0x1p3", "in", "infinit", "infinityy", "na", "nane", "--1", "+-1", "1f", "abc",
    ] {
        assert!(!is_float(s), "{:?}", s);
    }
}

#[test]
fn is_float_agrees_with_std() {
    let samples = [
        "", "0", "1.25", "1.", ".5", ".", "+", "-", "+.5", "-.5e2", "1e", "1e+", "1e-", "1e5",
        "1E-5", "e5", "E", "inf", "iNf", "infinity", "INFINITY", "infinit", "nan", "nAn", "-nan",
        "+infinity", "++1", "1 ", " 1", "1,5", "1_5", "12345678901234567890123456789012345678901",
        "1e999", "0.0000000000000000000000000000000000000000000001", "٣", "1.5f", "0x10",
        "4.25", "1.35", "-", "+e1", ".e1", "1.e", "1.e1", "nan0", "inf ", "İnf",
    ];
    for s in samples {
        assert_eq!(is_float(s), s.parse::<f32>().is_ok(), "{:?}", s);
    }
}

#[test]
fn real_keeps_the_literal() {
    let real = Real::parse("1.25").unwrap();
    assert_eq!(real.as_str(), "1.25");
    assert_eq!(real.as_str().parse::<f32>().unwrap(), 1.25f32);
    assert_eq!(Real::parse("one"), None);
}

fn words(alphabet: &[char], longest: usize) -> Vec<String> {
    let mut all = vec![String::new()];
    let mut last = vec![String::new()];
    for _ in 0..longest {
        let mut next = Vec::new();
        for word in &last {
            for c in alphabet {
                let mut longer = word.clone();
                longer.push(*c);
                next.push(longer);
            }
        }
        all.extend(next.iter().cloned());
        last = next;
    }
    all
}

#[test]
fn is_float_agrees_with_std_on_all_short_strings() {
    let alphabet = ['+', '-', '.', 'e', 'E', '0', '7', 'i', 'n', 'f', 'a', ' '];
    for word in words(&alphabet, 4) {
        assert_eq!(is_float(&word), word.parse::<f32>().is_ok(), "{:?}", word);
    }
}

#[test]
fn is_float_agrees_with_std_on_names() {
    let alphabet = ['i', 'I', 'n', 'N', 'f', 'a', 'A', 't', 'y', 'Y'];
    for word in words(&alphabet, 3) {
        for sign in ["", "+", "-"] {
            let text = format!("{}{}", sign, word);
            assert_eq!(is_float(&text), text.parse::<f32>().is_ok(), "{:?}", text);
        }
    }
    for name in ["infinity", "INFINITY", "Infinity", "iNfInItY", "infinitY", "infinite", "infinit"] {
        for sign in ["", "+", "-", "++"] {
            let text = format!("{}{}", sign, name);
            assert_eq!(is_float(&text), text.parse::<f32>().is_ok(), "{:?}", text);
        }
    }
}

#[test]
fn integers_agree_with_std_on_all_short_strings() {
    let alphabet = ['+', '-', '0', '1', '9', '_', ' ', 'a'];
    for word in words(&alphabet, 5) {
        assert_eq!(parse_u64(&word), word.parse::<u64>().ok(), "{:?}", word);
        assert_eq!(parse_u32(&word), word.parse::<u32>().ok(), "{:?}", word);
    }
}

#[test]
fn integers_agree_with_std_near_the_bounds() {
    for base in [u32::MAX as u128, u64::MAX as u128] {
        for delta in 0..40u128 {
            for value in [base - delta, base + delta, (base - delta) * 10, base / 10 + delta] {
                let text = value.to_string();
                assert_eq!(parse_u64(&text), text.parse::<u64>().ok(), "{:?}", text);
                assert_eq!(parse_u32(&text), text.parse::<u32>().ok(), "{:?}", text);
            }
        }
    }
}
