use multiiso::text::{bytes_str_to_num, parse_u64, push_decimal, same_text};

#[test]
fn numbers_are_read_in_decimal() {
    assert_eq!(parse_u64("0"), Some(0));
    assert_eq!(parse_u64("007"), Some(7));
    assert_eq!(parse_u64("+42"), Some(42));
    assert_eq!(parse_u64("18446744073709551615"), Some(u64::MAX));
    assert_eq!(parse_u64("000000000000000000000000000001"), Some(1));
}

#[test]
fn what_is_no_number_is_refused() {
    for text in ["", "+", "-1", "++1", "1 ", " 1", "1_0", "0x1", "1.0", "\u{0661}"] {
        assert_eq!(parse_u64(text), None, "{:?}", text);
    }
    assert_eq!(parse_u64("18446744073709551616"), None);
    assert_eq!(parse_u64("99999999999999999999999"), None);
}

#[test]
fn numbers_are_read_as_the_standard_library_reads_them() {
    for text in ["", "+", "+0", "12", "1a", "a1", "18446744073709551615", "18446744073709551616"] {
        assert_eq!(parse_u64(text), text.parse::<u64>().ok(), "{:?}", text);
    }
}

#[test]
fn quantities_lose_their_unit() {
    assert_eq!(bytes_str_to_num("512B"), Some(512));
    assert_eq!(bytes_str_to_num("5368709120B"), Some(5368709120));
    assert_eq!(bytes_str_to_num("17"), Some(1));
    assert_eq!(bytes_str_to_num("B"), None);
    assert_eq!(bytes_str_to_num("12kB"), None);
}

#[test]
fn decimal_notation_is_appended() {
    for n in [0u64, 9, 10, 99, 100, 1048576, u64::MAX] {
        let mut out = String::from("n=");
        push_decimal(&mut out, n);
        assert_eq!(out, format!("n={}", n));
    }
}

#[test]
fn decimal_notation_with_a_unit_reads_back() {
    for n in [0u64, 1, 512, 1000000, u64::MAX] {
        let mut out = String::new();
        push_decimal(&mut out, n);
        out.push('B');
        assert_eq!(bytes_str_to_num(&out), Some(n));
    }
}

#[test]
fn texts_are_compared() {
    assert!(same_text(&String::from("gpt"), "gpt"));
    assert!(!same_text(&String::from("gpt"), "GPT"));
    assert!(!same_text(&String::new(), " "));
}
