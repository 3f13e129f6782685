use picc::numeric::{parse_i32_chars, parse_u64_chars, push_decimal, push_signed_decimal};

fn chars(t: &str) -> Vec<char> {
    t.chars().collect()
}

#[test]
fn unsigned_parsing() {
    assert_eq!(parse_u64_chars(&chars("0")), Some(0));
    assert_eq!(parse_u64_chars(&chars("+42")), Some(42));
    assert_eq!(parse_u64_chars(&chars("007")), Some(7));
    assert_eq!(parse_u64_chars(&chars("18446744073709551615")), Some(u64::MAX));
    assert_eq!(parse_u64_chars(&chars("18446744073709551616")), None);
    assert_eq!(parse_u64_chars(&chars("-1")), None);
    assert_eq!(parse_u64_chars(&chars("+")), None);
    assert_eq!(parse_u64_chars(&chars("")), None);
    assert_eq!(parse_u64_chars(&chars("1 2")), None);
}

#[test]
fn signed_parsing() {
    assert_eq!(parse_i32_chars(&chars("-2147483648")), Some(i32::MIN));
    assert_eq!(parse_i32_chars(&chars("2147483647")), Some(i32::MAX));
    assert_eq!(parse_i32_chars(&chars("2147483648")), None);
    assert_eq!(parse_i32_chars(&chars("-0")), Some(0));
    assert_eq!(parse_i32_chars(&chars("-")), None);
    assert_eq!(parse_i32_chars(&chars("--1")), None);
    assert_eq!(parse_i32_chars(&chars("+-1")), None);
}

#[test]
fn decimal_formatting() {
    let mut out = String::new();
    push_decimal(&mut out, 0);
    out.push(' ');
    push_decimal(&mut out, u64::MAX);
    out.push(' ');
    push_signed_decimal(&mut out, -12);
    out.push(' ');
    push_signed_decimal(&mut out, i64::MIN);
    assert_eq!(out, "0 18446744073709551615 -12 -9223372036854775808");
}
