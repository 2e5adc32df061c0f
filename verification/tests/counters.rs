use scaphandre::sensors::counters::{delta, RecordBuffer};
use scaphandre::sensors::units::{convert, EnergyUnit};
use scaphandre::sensors::{Record, SensorError, Timestamp};

fn ts(secs: u64) -> Timestamp {
    Timestamp { secs, nanos: 0 }
}

#[test]
fn delta_single_wrap() {
    assert_eq!(delta(100, 50, 120).unwrap(), 70);
}

#[test]
fn delta_no_wrap() {
    assert_eq!(delta(50, 100, 120).unwrap(), 50);
}

#[test]
fn delta_double_wrap_unrepresentable() {
    let r = delta(50, 10, 20);
    assert!(matches!(
        r,
        Err(SensorError::CounterOverflowUnrepresentable {
            previous_raw: 50,
            current_raw: 10,
            max_value: 20,
            entity_id: None,
            source: None,
        })
    ));
}

#[test]
fn delta_jump_past_range_unrepresentable() {
    let r = delta(0, 300, 120);
    assert!(matches!(
        r,
        Err(SensorError::CounterOverflowUnrepresentable { .. })
    ));
}

#[test]
fn buffer_evicts_oldest_first() {
    let capacity = 3;
    let mut buffer = RecordBuffer::new(capacity);
    for k in 0..(capacity as i128 + 5) {
        buffer.push(Record::new(ts(k as u64), k, EnergyUnit::MicroJoule));
    }
    assert_eq!(buffer.len(), capacity);
    // Exactly the most recent records remain, oldest first.
    assert_eq!(buffer.get(0).value, 5);
    assert_eq!(buffer.get(1).value, 6);
    assert_eq!(buffer.get(2).value, 7);
}

#[test]
fn buffer_below_capacity_keeps_everything() {
    let mut buffer = RecordBuffer::new(4);
    buffer.push(Record::new(ts(0), 10, EnergyUnit::MicroJoule));
    buffer.push(Record::new(ts(1), 11, EnergyUnit::MicroJoule));
    assert_eq!(buffer.len(), 2);
    assert_eq!(buffer.get(0).value, 10);
    assert_eq!(buffer.get(1).value, 11);
}

#[test]
fn convert_joule_to_microjoule_is_exact() {
    assert_eq!(convert(5, EnergyUnit::Joule, EnergyUnit::MicroJoule).unwrap(), 5_000_000);
    assert_eq!(convert(7, EnergyUnit::MilliJoule, EnergyUnit::MicroJoule).unwrap(), 7_000);
}

#[test]
fn convert_to_coarser_unit_rounds_down() {
    assert_eq!(convert(1_500, EnergyUnit::MilliJoule, EnergyUnit::Joule).unwrap(), 1);
    assert_eq!(convert(999_999, EnergyUnit::MicroJoule, EnergyUnit::Joule).unwrap(), 0);
}

#[test]
fn convert_between_quantities_is_refused() {
    let r = convert(2, EnergyUnit::Joule, EnergyUnit::Watt);
    assert!(matches!(
        r,
        Err(SensorError::UnsupportedUnit { from: EnergyUnit::Joule, to: EnergyUnit::Watt })
    ));
}

#[test]
fn unit_labels() {
    assert_eq!(EnergyUnit::Joule.label(), "J");
    assert_eq!(EnergyUnit::MilliJoule.label(), "mJ");
    assert_eq!(EnergyUnit::MicroJoule.label(), "uJ");
    assert_eq!(EnergyUnit::Watt.label(), "W");
}
