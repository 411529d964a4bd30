use demo_recorder::codec::{event_log_to_json, parse_event_log};
use demo_recorder::event_log::{EventLog, RecordedEvent, RecordingMetadata};

fn sample_log() -> EventLog {
    EventLog {
        metadata: RecordingMetadata { width: 2560, height: 1440 },
        events: vec![
            RecordedEvent::Click { x: 10, y: -20, timestamp_ms: 30 },
            RecordedEvent::CursorMove { x: 5, y: 6, timestamp_ms: 47 },
            RecordedEvent::Click { x: 0, y: 0, timestamp_ms: 1000 },
        ],
    }
}

#[test]
fn save_then_load_round_trips() {
    let log = sample_log();
    let bytes = event_log_to_json(&log);
    let loaded = parse_event_log(&bytes).expect("canonical encoding must parse");
    assert_eq!(loaded.metadata, log.metadata);
    assert_eq!(loaded.events, log.events);
}

#[test]
fn round_trips_extreme_values() {
    let log = EventLog {
        metadata: RecordingMetadata { width: u32::MAX, height: 1 },
        events: vec![
            RecordedEvent::Click { x: i32::MIN, y: i32::MAX, timestamp_ms: u64::MAX },
            RecordedEvent::CursorMove { x: -1, y: 0, timestamp_ms: 0 },
        ],
    };
    let bytes = event_log_to_json(&log);
    let loaded = parse_event_log(&bytes).expect("extreme values must round-trip");
    assert_eq!(loaded.metadata, log.metadata);
    assert_eq!(loaded.events, log.events);
}

#[test]
fn canonical_bytes_are_exact() {
    let log = EventLog {
        metadata: RecordingMetadata { width: 1920, height: 1080 },
        events: vec![RecordedEvent::Click { x: 960, y: 540, timestamp_ms: 1000 }],
    };
    let bytes = event_log_to_json(&log);
    let expected = "{\"metadata\":{\"width\":1920,\"height\":1080},\"events\":[{\"Click\":{\"x\":960,\"y\":540,\"timestamp_ms\":1000}}]}";
    assert_eq!(bytes, expected.as_bytes().to_vec());
}

#[test]
fn output_is_valid_json_for_serde() {
    // The canonical bytes parse as ordinary JSON with the expected fields.
    let bytes = event_log_to_json(&sample_log());
    let v: serde_json::Value = serde_json::from_slice(&bytes).expect("valid JSON");
    assert_eq!(v["metadata"]["width"], serde_json::Value::from(2560u32));
    assert_eq!(v["metadata"]["height"], serde_json::Value::from(1440u32));
    assert_eq!(v["events"].as_array().map(|a| a.len()), Some(3));
    assert_eq!(v["events"][0]["Click"]["x"], serde_json::Value::from(10));
    assert_eq!(v["events"][0]["Click"]["y"], serde_json::Value::from(-20));
    assert_eq!(v["events"][1]["CursorMove"]["timestamp_ms"], serde_json::Value::from(47u64));
}

#[test]
fn legacy_bare_array_loads_with_default_metadata() {
    let text = "[{\"Click\":{\"x\":1,\"y\":2,\"timestamp_ms\":3}}]";
    let loaded = parse_event_log(&text.as_bytes().to_vec()).expect("legacy form must load");
    assert_eq!(loaded.metadata, RecordingMetadata { width: 1920, height: 1080 });
    assert_eq!(loaded.events, vec![RecordedEvent::Click { x: 1, y: 2, timestamp_ms: 3 }]);
}

#[test]
fn legacy_empty_array_loads() {
    let loaded = parse_event_log(&b"[]".to_vec()).expect("empty legacy form must load");
    assert_eq!(loaded.metadata, RecordingMetadata { width: 1920, height: 1080 });
    assert!(loaded.events.is_empty());
}

#[test]
fn pretty_printed_form_loads() {
    // Older logs were written pretty-printed; whitespace between tokens is
    // accepted.
    let text = "{\n  \"metadata\": {\n    \"width\": 800,\n    \"height\": 600\n  },\n  \"events\": [\n    {\n      \"CursorMove\": {\n        \"x\": 7,\n        \"y\": 8,\n        \"timestamp_ms\": 9\n      }\n    },\n    {\n      \"Click\": {\n        \"x\": -3,\n        \"y\": 4,\n        \"timestamp_ms\": 22\n      }\n    }\n  ]\n}\n";
    let loaded = parse_event_log(&text.as_bytes().to_vec()).expect("pretty form must load");
    assert_eq!(loaded.metadata, RecordingMetadata { width: 800, height: 600 });
    assert_eq!(
        loaded.events,
        vec![
            RecordedEvent::CursorMove { x: 7, y: 8, timestamp_ms: 9 },
            RecordedEvent::Click { x: -3, y: 4, timestamp_ms: 22 },
        ]
    );
}

#[test]
fn serde_round_trip_through_original_format() {
    // A log serialized the way the recorder's shell writes it (serde,
    // pretty) still loads through the verified parser.
    let json = "{\n  \"metadata\": {\"width\": 1024, \"height\": 768},\n  \"events\": [{\"Click\": {\"x\": 512, \"y\": 384, \"timestamp_ms\": 100}}]\n}";
    let loaded = parse_event_log(&json.as_bytes().to_vec()).expect("serde layout must load");
    assert_eq!(loaded.metadata.width, 1024);
    assert_eq!(loaded.events.len(), 1);
}

#[test]
fn malformed_inputs_are_rejected() {
    for bad in [
        "",
        "{}",
        "{\"metadata\":{\"width\":1,\"height\":2},\"events\":[}",
        "{\"metadata\":{\"width\":1,\"height\":2},\"events\":[]",
        "{\"metadata\":{\"width\":99999999999,\"height\":2},\"events\":[]}",
        "[{\"Click\":{\"x\":3000000000,\"y\":2,\"timestamp_ms\":3}}]",
        "[{\"Tap\":{\"x\":1,\"y\":2,\"timestamp_ms\":3}}]",
        "[{\"Click\":{\"x\":1,\"y\":2,\"timestamp_ms\":3}}] trailing",
    ] {
        assert!(parse_event_log(&bad.as_bytes().to_vec()).is_none(), "must reject: {bad}");
    }
}

#[test]
fn reordered_keys_are_rejected() {
    // Keys are accepted only in the canonical order the recorder writes;
    // a hand-edited file with swapped keys does not load.
    let swapped_meta = "{\"metadata\":{\"height\":2,\"width\":1},\"events\":[]}";
    assert!(parse_event_log(&swapped_meta.as_bytes().to_vec()).is_none());
    let swapped_top = "{\"events\":[],\"metadata\":{\"width\":1,\"height\":2}}";
    assert!(parse_event_log(&swapped_top.as_bytes().to_vec()).is_none());
}

#[test]
fn timestamp_overflow_is_rejected() {
    // One more than u64::MAX cannot be represented.
    let text = "[{\"Click\":{\"x\":1,\"y\":2,\"timestamp_ms\":18446744073709551616}}]";
    assert!(parse_event_log(&text.as_bytes().to_vec()).is_none());
}
