use pingd::probe::{pause_after, Pinger, PERIOD_MS, TIMEOUT_MS};

#[test]
fn constants_are_fixed() {
    assert_eq!(PERIOD_MS, 10_000);
    assert_eq!(TIMEOUT_MS, 1_000);
}

#[test]
fn pause_fills_the_period() {
    assert_eq!(pause_after(0), 10_000);
    assert_eq!(pause_after(3_000), 7_000);
    assert_eq!(pause_after(9_999), 1);
}

#[test]
fn pause_is_zero_on_overrun() {
    assert_eq!(pause_after(10_000), 0);
    assert_eq!(pause_after(25_000), 0);
}

#[test]
fn reply_within_timeout_is_recorded() {
    let p = Pinger::new(String::from("example.net"));
    let m = p.outcome(1_700_000_000, 0, 123_456);
    assert_eq!(m.host, "example.net");
    assert_eq!(m.timestamp, 1_700_000_000);
    assert!(!m.missing);
    assert_eq!(m.latency_us, 123_456);
}

#[test]
fn dropped_probe_is_missing() {
    let p = Pinger::new(String::from("example.net"));
    let m = p.outcome(1_700_000_000, 1, 999);
    assert!(m.missing);
    assert_eq!(m.latency_us, 0);
}
