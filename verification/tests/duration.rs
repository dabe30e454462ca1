use fnirsi::duration::{
    is_moderate, limit_input, parse_duration, parse_duration_str, try_parse_duration,
    try_parse_duration_str, Span,
};

fn span(secs: u64, nanos: u32) -> Span {
    Span { secs, nanos }
}

#[test]
fn durations_are_parsed() {
    assert_eq!(parse_duration("30s"), Ok(span(30, 0)));
    assert_eq!(parse_duration(" 5m \n"), Ok(span(300, 0)));
    assert_eq!(parse_duration("1h 5m 20s"), Ok(span(3920, 0)));
    assert_eq!(parse_duration("250ms"), Ok(span(0, 250_000_000)));
}

#[test]
fn errors_carry_the_message() {
    assert_eq!(parse_duration("  "), Err("value was empty".to_string()));
    assert_eq!(
        parse_duration("5"),
        Err("time unit needed, for example 5sec or 5ms".to_string())
    );
    assert!(parse_duration("abc").is_err());
}

#[test]
fn limits_are_seconds_without_a_unit() {
    assert_eq!(parse_duration_str("30"), Some(span(30, 0)));
    assert_eq!(parse_duration_str(" 30s "), Some(span(30, 0)));
    assert_eq!(parse_duration_str("1m 30s"), Some(span(90, 0)));
    assert_eq!(parse_duration_str("1h 5m 20s"), Some(span(3920, 0)));
    assert_eq!(parse_duration_str(""), None);
    assert_eq!(parse_duration_str(" \t"), None);
    assert_eq!(parse_duration_str("soon"), None);
    assert_eq!(parse_duration_str("-5"), None);
}

#[test]
fn unit_is_added_where_there_is_no_letter() {
    assert_eq!(limit_input(" 30 ").as_deref(), Some("30s"));
    assert_eq!(limit_input("30m").as_deref(), Some("30m"));
    assert_eq!(limit_input("30\u{E9}").as_deref(), Some("30\u{E9}"));
    assert_eq!(limit_input("?").as_deref(), Some("?s"));
    assert_eq!(limit_input("\u{3000}"), None);
}

/// Seconds at their largest.
const MOST: &str = "18446744073709551615s";

#[test]
fn sums_that_may_carry_are_told_apart() {
    for carried in ["1000ms", "1000000000ns", "1000.5ms", "1000.0000001ms", "999ms 1ms", "1000ms !"] {
        let s = format!("{MOST} {carried}");
        assert!(!is_moderate(&s), "{s}");
        assert_eq!(try_parse_duration(&s), None);
    }
    let half = "18446744073709551614s 500ms 1.5s";
    assert!(!is_moderate(half));
    assert!(!is_moderate(&format!("{half} !")));
    assert!(!is_moderate("18446744073709551614s999ms1s1ms2h"));
    assert_eq!(try_parse_duration_str(&format!("{MOST} 1000ms")), None);
}

#[test]
fn other_durations_are_those_of_humantime() {
    let mut texts: Vec<String> = [
        "",
        " ",
        "5",
        "1h 30m 0.123456789s",
        "600000000000s 1ms",
        "18446744073709551615ns",
        "18446744073709551614s 1s",
        "18446744073709551616s",
        "999999999999.5s",
        "1000000000000ms",
        "1 2s 3 4 ms",
        "1.5h2m",
        "5s x",
        "5s .5s",
        "5-3s",
        "0.00000000000000000000001s",
        "1y 1month 1w 1d 1h 1m 1s 1ms 1us 1ns",
    ]
    .iter()
    .map(|s| s.to_string())
    .collect();
    for more in ["1s", "2s 1ms", "5ms", "999ms", "1m", "1.5h", "1mins", "999.5ms", "1001ms", "x"] {
        texts.push(format!("{MOST} {more}"));
    }
    for s in texts {
        let expected = humantime::parse_duration(s.trim())
            .map(|d| span(d.as_secs(), d.subsec_nanos()))
            .map_err(|e| e.to_string());
        assert_eq!(try_parse_duration(&s), Some(expected), "{s}");
    }
    assert_eq!(
        try_parse_duration("600000000000s 1ms"),
        Some(Ok(span(600_000_000_000, 1_000_000)))
    );
    assert_eq!(
        try_parse_duration_str("999999999999.5"),
        Some(Some(span(999_999_999_999, 500_000_000)))
    );
    assert_eq!(try_parse_duration_str("2"), Some(Some(span(2, 0))));
    assert_eq!(try_parse_duration_str(""), Some(None));
}

#[test]
fn spans_are_cut_to_milliseconds() {
    assert_eq!(span(1, 999_999_999).as_millis(), 1999);
    assert_eq!(span(0, 999_999).as_millis(), 0);
    assert_eq!(
        span(u64::MAX, 0).as_millis(),
        (u128::from(u64::MAX) * 1000) as u64
    );
}
