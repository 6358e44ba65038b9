use staking::telemetry::{build_row, TelemetryDump, TelemetryError, TelemetryEvent};

fn dump(timestamp_micros: &str) -> TelemetryDump {
    TelemetryDump {
        timestamp_micros: timestamp_micros.to_string(),
        events: vec![TelemetryEvent {
            name: "node_heartbeat".to_string(),
            params: vec![
                ("chain_id".to_string(), "4".to_string()),
                ("peer_id".to_string(), "0x123".to_string()),
            ],
        }],
    }
}

#[test]
fn test_build_row_converts_micros_to_secs() {
    let row = build_row(dump("12345678")).unwrap();
    assert_eq!(row.event_name, "node_heartbeat");
    assert_eq!(row.event_timestamp_secs, 12);
    assert_eq!(row.event_params.len(), 2);
    assert_eq!(row.event_params[0].0, "chain_id");
    assert_eq!(row.event_params[0].1, "4");
}

#[test]
fn test_build_row_accepts_leading_plus() {
    let row = build_row(dump("+42000000")).unwrap();
    assert_eq!(row.event_timestamp_secs, 42);
}

#[test]
fn test_build_row_rejects_bad_timestamps() {
    assert!(matches!(
        build_row(dump("")),
        Err(TelemetryError::InvalidTimestamp)
    ));
    assert!(matches!(
        build_row(dump("12a4")),
        Err(TelemetryError::InvalidTimestamp)
    ));
    assert!(matches!(
        build_row(dump("+")),
        Err(TelemetryError::InvalidTimestamp)
    ));
    assert!(matches!(
        build_row(dump("-5")),
        Err(TelemetryError::InvalidTimestamp)
    ));
    // One past u64::MAX.
    assert!(matches!(
        build_row(dump("18446744073709551616")),
        Err(TelemetryError::InvalidTimestamp)
    ));
}

#[test]
fn test_build_row_boundary_values() {
    assert_eq!(build_row(dump("0")).unwrap().event_timestamp_secs, 0);
    assert_eq!(build_row(dump("999999")).unwrap().event_timestamp_secs, 0);
    assert_eq!(build_row(dump("1000000")).unwrap().event_timestamp_secs, 1);
    // u64::MAX itself parses.
    assert_eq!(
        build_row(dump("18446744073709551615"))
            .unwrap()
            .event_timestamp_secs,
        18446744073709551615u64 / 1_000_000
    );
}
