use botinski::text::{parse_i64, parse_u64, push_decimal, to_ascii_lower, trim_chars};

fn chars(s: &str) -> Vec<char> {
    s.chars().collect()
}

#[test]
fn decimals_parse_back() {
    for n in [0u64, 7, 10, 99, 100, 12345, 987654321098765432, u64::MAX] {
        let mut out = Vec::new();
        push_decimal(&mut out, n);
        assert_eq!(out.iter().collect::<String>(), n.to_string());
        assert_eq!(parse_u64(&out), Some(n));
    }
}

#[test]
fn parsing_follows_str_parse() {
    for s in ["", "+", "-", "+5", "-5", "12a", "007", "18446744073709551615", "18446744073709551616", " 1"] {
        assert_eq!(parse_u64(&chars(s)), s.parse::<u64>().ok(), "{s:?}");
    }
    for s in ["", "-", "+", "-9223372036854775808", "9223372036854775807", "9223372036854775808", "-0", "+12", "1-"] {
        assert_eq!(parse_i64(&chars(s)), s.parse::<i64>().ok(), "{s:?}");
    }
}

#[test]
fn trimming_and_lower_case() {
    assert_eq!(trim_chars(&chars("  a b\t\n")), chars("a b"));
    assert_eq!(trim_chars(&chars("\u{3000}x\u{a0}")), chars("x"));
    assert_eq!(to_ascii_lower(&chars("JsOn-É")), chars("json-É"));
}
