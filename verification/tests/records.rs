use scaphandre::crate_version;
use scaphandre::sensors::decimal::{dec_string, parse_counter_text};
use scaphandre::sensors::units::EnergyUnit;
use scaphandre::sensors::{Record, Timestamp};

fn ts(secs: u64) -> Timestamp {
    Timestamp { secs, nanos: 0 }
}

#[test]
fn version_is_semantic() {
    assert_eq!(crate_version(), "0.1.0");
}

#[test]
fn record_format_text() {
    let rec = Record::new(ts(3), 1234, EnergyUnit::MicroJoule);
    assert_eq!(rec.format(), "recorded 1234 uJ");
}

#[test]
fn record_format_reparses_to_the_value_it_was_built_from() {
    let rec = Record::new(ts(3), 4_294_967_295, EnergyUnit::MicroJoule);
    let text = rec.format();
    let numeric: i128 = text.split_whitespace().nth(1).unwrap().parse().unwrap();
    assert_eq!(numeric, 4_294_967_295);
}

#[test]
fn record_equality_is_field_by_field() {
    let a = Record::new(ts(1), 10, EnergyUnit::MicroJoule);
    let b = Record::new(ts(1), 10, EnergyUnit::MicroJoule);
    let c = Record::new(ts(1), 11, EnergyUnit::MicroJoule);
    let d = Record::new(ts(2), 10, EnergyUnit::MicroJoule);
    let e = Record::new(ts(1), 10, EnergyUnit::Joule);
    assert_eq!(a, b);
    assert_ne!(a, c);
    assert_ne!(a, d);
    assert_ne!(a, e);
}

#[test]
fn parse_accepts_plain_and_newline_terminated_values() {
    assert_eq!(parse_counter_text("1000"), Some(1000));
    assert_eq!(parse_counter_text("1000\n"), Some(1000));
    assert_eq!(parse_counter_text("0"), Some(0));
    assert_eq!(parse_counter_text("18446744073709551615\n"), Some(u64::MAX));
}

#[test]
fn parse_rejects_garbage() {
    assert_eq!(parse_counter_text(""), None);
    assert_eq!(parse_counter_text("\n"), None);
    assert_eq!(parse_counter_text("12a4"), None);
    assert_eq!(parse_counter_text("-5"), None);
    assert_eq!(parse_counter_text("12 34"), None);
    // One past what a 64-bit counter can hold.
    assert_eq!(parse_counter_text("18446744073709551616"), None);
}

#[test]
fn decimal_text_round_trips() {
    assert_eq!(dec_string(0), "0");
    assert_eq!(dec_string(120), "120");
    assert_eq!(dec_string(18_446_744_073_709_551_615), "18446744073709551615");
    assert_eq!(parse_counter_text(&dec_string(987_654_321)), Some(987_654_321));
}
