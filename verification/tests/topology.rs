use scaphandre::sensors::units::EnergyUnit;
use scaphandre::sensors::{
    DomainEntry, RecordGenerator, Sensor, SensorError, SocketEntry, StaticSensor, Timestamp,
    Topology,
};

fn ts(secs: u64) -> Timestamp {
    Timestamp { secs, nanos: 0 }
}

fn topology_with_one_socket() -> Topology {
    let mut topo = Topology::new("model name: test cpu".to_string());
    topo.safe_add_socket(0, vec![], vec![], "/sys/socket0/energy_uj".to_string());
    topo
}

#[test]
fn safe_add_socket_is_idempotent() {
    let mut topo = topology_with_one_socket();
    topo.safe_add_socket(0, vec![], vec![], "/sys/other/energy_uj".to_string());
    assert_eq!(topo.sockets.len(), 1);
    // The first-seen definition is preserved.
    assert_eq!(topo.sockets[0].counter_uj_path, "/sys/socket0/energy_uj");
}

#[test]
fn safe_add_domain_to_socket_is_idempotent() {
    let mut topo = topology_with_one_socket();
    topo.safe_add_domain_to_socket(0, 0, "core", "/sys/socket0/d0/energy_uj");
    topo.safe_add_domain_to_socket(0, 0, "renamed", "/sys/elsewhere/energy_uj");
    assert_eq!(topo.sockets[0].domains.len(), 1);
    assert_eq!(topo.sockets[0].domains[0].name, "core");
}

#[test]
fn socket_and_domain_ids_stay_unique() {
    let mut topo = Topology::new(String::new());
    topo.safe_add_socket(0, vec![], vec![], "a".to_string());
    topo.safe_add_socket(1, vec![], vec![], "b".to_string());
    topo.safe_add_socket(0, vec![], vec![], "c".to_string());
    assert_eq!(topo.sockets.len(), 2);
    assert_ne!(topo.sockets[0].id, topo.sockets[1].id);
    topo.safe_add_domain_to_socket(1, 7, "core", "d");
    topo.safe_add_domain_to_socket(1, 7, "core", "d");
    topo.safe_add_domain_to_socket(1, 8, "uncore", "e");
    let domains = &topo.sockets[1].domains;
    assert_eq!(domains.len(), 2);
    assert_ne!(domains[0].id, domains[1].id);
}

#[test]
fn domain_add_to_missing_socket_is_tolerated() {
    let mut topo = topology_with_one_socket();
    topo.safe_add_domain_to_socket(9, 0, "core", "path");
    assert_eq!(topo.sockets.len(), 1);
    assert!(topo.sockets[0].domains.is_empty());
}

#[test]
fn end_to_end_two_domain_scenario() {
    let mut topo = topology_with_one_socket();
    topo.safe_add_domain_to_socket(0, 0, "core", "/sys/socket0/d0/energy_uj");
    topo.safe_add_domain_to_socket(0, 1, "uncore", "/sys/socket0/d1/energy_uj");
    let max_value = u64::MAX;

    // First tick reads raw values (1000, 500) microjoules.
    let first = [1000u64, 500u64];
    for (k, raw) in first.iter().enumerate() {
        topo.sockets[0].domains[k].record_counter_value(*raw);
        assert!(topo.sockets[0].domains[k].energy_delta(max_value).is_none());
    }

    // Second tick reads (1800, 900) with no wrap: deltas are (800, 400).
    let second = [1800u64, 900u64];
    let expected = [800u64, 400u64];
    for (k, raw) in second.iter().enumerate() {
        topo.sockets[0].domains[k].record_counter_value(*raw);
        let d = topo.sockets[0].domains[k]
            .energy_delta(max_value)
            .unwrap()
            .unwrap();
        assert_eq!(d, expected[k]);
        // Power over one second, derived externally from the delta.
        let elapsed = 1.0f64;
        let watts = (d as f64) * 1e-6 / elapsed;
        let expected_watts = [0.0008f64, 0.0004f64];
        assert!((watts - expected_watts[k]).abs() < 1e-12);
    }
}

#[test]
fn socket_level_counter_deltas() {
    let mut topo = topology_with_one_socket();
    topo.sockets[0].record_counter_value(100);
    topo.sockets[0].record_counter_value(50);
    // Single wrap at a counter range of 120.
    assert_eq!(topo.sockets[0].energy_delta(120).unwrap().unwrap(), 70);
}

#[test]
fn get_record_parses_counter_text() {
    let mut topo = topology_with_one_socket();
    topo.safe_add_domain_to_socket(0, 0, "core", "/sys/socket0/d0/energy_uj");
    let domain = &topo.sockets[0].domains[0];
    let rec = domain.get_record(ts(5), Some("1800\n")).unwrap();
    assert_eq!(rec.value, 1800);
    assert_eq!(rec.unit, EnergyUnit::MicroJoule);
    assert_eq!(rec.timestamp, ts(5));
    let sock_rec = topo.sockets[0].get_record(ts(5), Some("42")).unwrap();
    assert_eq!(sock_rec.value, 42);
}

#[test]
fn one_faulty_domain_does_not_blind_its_sibling() {
    let mut topo = topology_with_one_socket();
    topo.safe_add_domain_to_socket(0, 0, "core", "/sys/socket0/d0/energy_uj");
    topo.safe_add_domain_to_socket(0, 1, "uncore", "/sys/socket0/d1/energy_uj");
    // The first domain's counter file became unreadable mid-run.
    let faulty = topo.sockets[0].domains[0].get_record(ts(9), None);
    match faulty {
        Err(SensorError::CounterReadError { entity_id, source }) => {
            assert_eq!(entity_id, 0);
            assert_eq!(source, "/sys/socket0/d0/energy_uj");
        }
        other => panic!("expected a counter read error, got {:?}", other),
    }
    // The sibling's reading continues unaffected.
    let healthy = topo.sockets[0].domains[1].get_record(ts(9), Some("900")).unwrap();
    assert_eq!(healthy.value, 900);
}

#[test]
fn truncated_counter_text_is_a_parse_error() {
    let mut topo = topology_with_one_socket();
    topo.safe_add_domain_to_socket(0, 3, "dram", "/sys/socket0/d3/energy_uj");
    let r = topo.sockets[0].domains[0].get_record(ts(1), Some("18x0"));
    assert!(matches!(
        r,
        Err(SensorError::CounterParseError { entity_id: 3, .. })
    ));
}

#[test]
fn discovery_with_no_sockets_fails() {
    let sensor = StaticSensor::new("cpuinfo".to_string(), vec![], vec![]);
    let r = sensor.generate_topology();
    assert!(matches!(r, Err(SensorError::DiscoveryError { .. })));
    assert!(sensor.get_topology().is_none());
}

#[test]
fn refresh_keeps_nothing_on_discovery_failure() {
    let mut sensor = StaticSensor::new("cpuinfo".to_string(), vec![], vec![]);
    assert!(sensor.refresh_topology().is_err());
    assert!(sensor.get_topology().is_none());
}

#[test]
fn static_sensor_builds_the_enumerated_topology() {
    let sockets = vec![SocketEntry {
        socket_id: 0,
        attributes: vec![],
        counter_uj_path: "/sys/socket0/energy_uj".to_string(),
    }];
    let domains = vec![
        DomainEntry {
            socket_id: 0,
            domain_id: 0,
            name: "core".to_string(),
            counter_uj_path: "/sys/socket0/d0/energy_uj".to_string(),
        },
        DomainEntry {
            socket_id: 0,
            domain_id: 1,
            name: "uncore".to_string(),
            counter_uj_path: "/sys/socket0/d1/energy_uj".to_string(),
        },
        // A second discovery pass repeats the first domain.
        DomainEntry {
            socket_id: 0,
            domain_id: 0,
            name: "core".to_string(),
            counter_uj_path: "/sys/socket0/d0/energy_uj".to_string(),
        },
    ];
    let mut sensor = StaticSensor::new("model name: test".to_string(), sockets, domains);
    let topo = sensor.generate_topology().unwrap();
    assert_eq!(topo.sockets.len(), 1);
    assert_eq!(topo.sockets[0].domains.len(), 2);
    assert_eq!(topo.sockets[0].domains[0].name, "core");
    assert_eq!(topo.sockets[0].domains[1].name, "uncore");
    assert!(!topo.remote);
    assert_eq!(topo.cpuinfo, "model name: test");

    assert!(sensor.refresh_topology().is_ok());
    let held = sensor.get_topology().unwrap();
    assert_eq!(held.sockets.len(), 1);
    // What is read back is the held topology, counter sources included.
    assert_eq!(held.sockets[0].counter_uj_path, "/sys/socket0/energy_uj");
    assert_eq!(held.sockets[0].domains[0].counter_uj_path, "/sys/socket0/d0/energy_uj");
    assert_eq!(held.sockets[0].domains[1].counter_uj_path, "/sys/socket0/d1/energy_uj");
}

#[test]
fn entity_level_overflow_carries_context() {
    let mut topo = topology_with_one_socket();
    topo.sockets[0].record_counter_value(50);
    topo.sockets[0].record_counter_value(10);
    match topo.sockets[0].energy_delta(20).unwrap() {
        Err(SensorError::CounterOverflowUnrepresentable {
            previous_raw: 50,
            current_raw: 10,
            max_value: 20,
            entity_id: Some(0),
            source: Some(source),
        }) => assert_eq!(source, "/sys/socket0/energy_uj"),
        other => panic!("expected an overflow error with entity context, got {:?}", other),
    }
}

#[test]
fn domain_display_text() {
    let mut topo = topology_with_one_socket();
    topo.safe_add_domain_to_socket(0, 0, "core", "p");
    assert_eq!(topo.sockets[0].domains[0].format(), "Domain: core");
}
