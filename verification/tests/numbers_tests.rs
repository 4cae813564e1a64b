use pingd::numbers::{parse_u64, push_latency, u64_text};

#[test]
fn parse_simple() {
    assert_eq!(parse_u64("42"), Some(42));
    assert_eq!(parse_u64("0"), Some(0));
    assert_eq!(parse_u64("600"), Some(600));
}

#[test]
fn parse_leading_zeros() {
    assert_eq!(parse_u64("007"), Some(7));
}

#[test]
fn parse_rejects_empty() {
    assert_eq!(parse_u64(""), None);
}

#[test]
fn parse_rejects_non_digits() {
    assert_eq!(parse_u64("banana"), None);
    assert_eq!(parse_u64("-5"), None);
    assert_eq!(parse_u64("4 2"), None);
    assert_eq!(parse_u64("12x"), None);
}

#[test]
fn parse_bounds() {
    assert_eq!(parse_u64("18446744073709551615"), Some(u64::MAX));
    assert_eq!(parse_u64("18446744073709551616"), None);
    assert_eq!(parse_u64("99999999999999999999999"), None);
}

#[test]
fn format_u64() {
    assert_eq!(u64_text(0), "0");
    assert_eq!(u64_text(7), "7");
    assert_eq!(u64_text(600), "600");
    assert_eq!(u64_text(u64::MAX), "18446744073709551615");
}

fn latency(us: u64) -> String {
    let mut s = String::new();
    push_latency(&mut s, us);
    s
}

#[test]
fn format_latency() {
    assert_eq!(latency(12_500), "12.5");
    assert_eq!(latency(12_345), "12.345");
    assert_eq!(latency(12_000), "12");
    assert_eq!(latency(50), "0.05");
    assert_eq!(latency(5), "0.005");
    assert_eq!(latency(0), "0");
    assert_eq!(latency(1_000_000), "1000");
}
