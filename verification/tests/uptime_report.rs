use hostmetrics::uptime::{format_uptime, parse_centis, uptime_report, UptimeError};

fn report(content: &[u8]) -> String {
    String::from_utf8(uptime_report(content).unwrap()).unwrap()
}

#[test]
fn one_of_each_unit() {
    assert_eq!(report(b"90061.0 180000.0\n"), "1 days, 1 hours, 1 minutes, 1 seconds");
}

#[test]
fn seconds_round_up_just_under_a_minute() {
    assert_eq!(report(b"59.9 100.0\n"), "0 days, 0 hours, 0 minutes, 60 seconds");
}

#[test]
fn zero_uptime() {
    assert_eq!(report(b"0 0\n"), "0 days, 0 hours, 0 minutes, 0 seconds");
}

#[test]
fn seconds_tie_rounds_to_even() {
    assert_eq!(report(b"59.50"), "0 days, 0 hours, 0 minutes, 60 seconds");
    assert_eq!(report(b"58.50"), "0 days, 0 hours, 0 minutes, 58 seconds");
}

#[test]
fn units_round_down() {
    assert_eq!(report(b"86399.0"), "0 days, 23 hours, 59 minutes, 59 seconds");
    assert_eq!(report(b"3661.25"), "0 days, 1 hours, 1 minutes, 1 seconds");
}

#[test]
fn missing_token_is_reported() {
    assert_eq!(uptime_report(b""), Err(UptimeError::MissingData));
    assert_eq!(uptime_report(b"   \n"), Err(UptimeError::MissingData));
}

#[test]
fn malformed_token_is_reported() {
    assert_eq!(uptime_report(b"abc 1.0"), Err(UptimeError::Malformed));
    assert_eq!(uptime_report(b"1.2.3"), Err(UptimeError::Malformed));
    assert_eq!(uptime_report(b". 1.0"), Err(UptimeError::Malformed));
}

#[test]
fn fraction_only_token_parses() {
    assert_eq!(parse_centis(b".5"), Some(50));
    assert_eq!(parse_centis(b"1."), Some(100));
    assert_eq!(parse_centis(b"12.345"), Some(1234));
}

#[test]
fn out_of_range_seconds_are_malformed() {
    assert_eq!(parse_centis(b"999999999999999999999"), None);
}

#[test]
fn formats_directly_from_centis() {
    assert_eq!(
        String::from_utf8(format_uptime(9006100)).unwrap(),
        "1 days, 1 hours, 1 minutes, 1 seconds"
    );
}
