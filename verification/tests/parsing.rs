use exchange_rate_path::datetime_helpers::{get_datetime_from_string, is_more_recent, Timestamp};
use exchange_rate_path::io_helpers::{exchange_rate_request, get_node, parse_rational, price_update};

fn toks(line: &str) -> Vec<String> {
    line.split_whitespace().map(|s| s.to_string()).collect()
}

#[test]
fn parse_rational_whole_number() {
    let r = parse_rational("1000").expect("a whole number parses");
    assert_eq!(r.num, 1000);
    assert_eq!(r.den, 1);
}

#[test]
fn parse_rational_fraction() {
    let r = parse_rational("0.0009").expect("a decimal fraction parses");
    assert_eq!(r.num, 9);
    assert_eq!(r.den, 10000);
}

#[test]
fn parse_rational_mixed() {
    let r = parse_rational("12.5").expect("a mixed decimal parses");
    assert_eq!(r.num, 125);
    assert_eq!(r.den, 10);
}

#[test]
fn parse_rational_rejects_malformed() {
    for bad in ["", ".", "5.", ".5", "1.2.3", "12a", "-1", "1e3", "+1", " 1"] {
        assert!(parse_rational(bad).is_none(), "{:?} should be rejected", bad);
    }
}

#[test]
fn parse_rational_rejects_overflow() {
    // one past u64::MAX, and a fractional part finer than 64 bits can hold
    assert!(parse_rational("18446744073709551616").is_none());
    assert!(parse_rational("99999999999999999999").is_none());
    assert!(parse_rational("0.00000000000000000001").is_none());
}

#[test]
fn parse_rational_accepts_u64_max() {
    let r = parse_rational("18446744073709551615").expect("u64::MAX fits");
    assert_eq!(r.num, u64::MAX);
    assert_eq!(r.den, 1);
}

#[test]
fn timestamp_epoch_second() {
    let t = get_datetime_from_string("1970-01-01T00:00:01+00:00").expect("valid RFC 3339");
    assert_eq!(t.nanos, 1_000_000_000);
}

#[test]
fn timestamp_offset_applies() {
    // one in the morning at UTC+1 is midnight UTC: the epoch itself
    let t = get_datetime_from_string("1970-01-01T01:00:00+01:00").expect("valid RFC 3339");
    assert_eq!(t.nanos, 0);
}

#[test]
fn timestamp_fractional_seconds() {
    let t = get_datetime_from_string("1970-01-01T00:00:00.000000042+00:00").expect("valid RFC 3339");
    assert_eq!(t.nanos, 42);
}

#[test]
fn timestamp_malformed_rejected() {
    assert!(get_datetime_from_string("not-a-date").is_none());
    assert!(get_datetime_from_string("2017-11-01 09:42:23").is_none());
    assert!(get_datetime_from_string("2017-13-01T09:42:23+00:00").is_none());
}

#[test]
fn is_more_recent_is_strict() {
    let older = Timestamp { nanos: 100 };
    let newer = Timestamp { nanos: 101 };
    assert!(is_more_recent(newer, older));
    assert!(!is_more_recent(older, newer));
    assert!(!is_more_recent(older, older));
}

#[test]
fn exchange_rate_request_fields() {
    let req = exchange_rate_request(&toks("EXCHANGE_RATE_REQUEST KRAKEN BTC GDAX USD"));
    assert_eq!(req.source_exchange, "KRAKEN");
    assert_eq!(req.source_currency, "BTC");
    assert_eq!(req.destination_exchange, "GDAX");
    assert_eq!(req.destination_currency, "USD");
}

#[test]
fn price_update_parses_line() {
    let u = price_update(&toks("2017-11-01T09:42:23+00:00 KRAKEN BTC USD 1000 0.0009"))
        .expect("a well-formed update line parses");
    let t = get_datetime_from_string("2017-11-01T09:42:23+00:00").unwrap();
    assert_eq!(u.timestamp, t);
    assert_eq!(u.exchange, "KRAKEN");
    assert_eq!(u.source_currency, "BTC");
    assert_eq!(u.destination_currency, "USD");
    assert_eq!(u.forward_factor.num, 1000);
    assert_eq!(u.forward_factor.den, 1);
    assert_eq!(u.backward_factor.num, 9);
    assert_eq!(u.backward_factor.den, 10000);
}

#[test]
fn price_update_rejects_wrong_field_count() {
    assert!(price_update(&toks("2017-11-01T09:42:23+00:00 KRAKEN BTC USD 1000")).is_none());
    assert!(price_update(&toks("2017-11-01T09:42:23+00:00 KRAKEN BTC USD 1000 0.0009 extra"))
        .is_none());
}

#[test]
fn price_update_rejects_bad_rate() {
    assert!(price_update(&toks("2017-11-01T09:42:23+00:00 KRAKEN BTC USD abc 0.0009")).is_none());
    assert!(price_update(&toks("2017-11-01T09:42:23+00:00 KRAKEN BTC USD 1000 0")).is_none());
}

#[test]
fn price_update_rejects_bad_timestamp() {
    assert!(price_update(&toks("yesterday KRAKEN BTC USD 1000 0.0009")).is_none());
}

#[test]
fn get_node_requires_positive_rates() {
    let t = toks("2017-11-01T09:42:23+00:00 KRAKEN BTC USD 0.0 0.0009");
    assert!(get_node(&t).is_none());
}
