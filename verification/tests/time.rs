use sessio::time::{event_timestamp, read_rfc3339, timestamp_le, timestamp_max, timestamp_min, timestamp_text};

#[test]
fn parses_rfc3339_in_utc() {
    let t = read_rfc3339("2024-05-06T07:08:09.123Z").unwrap();
    assert_eq!(t.secs(), 1714979289);
    assert_eq!(t.subsec_nanos(), 123_000_000);
}

#[test]
fn parses_offsets_into_utc() {
    let a = read_rfc3339("2024-05-06T09:08:09+02:00").unwrap();
    let b = read_rfc3339("2024-05-06T07:08:09Z").unwrap();
    assert_eq!(a, b);
    assert_eq!(timestamp_text(a), "2024-05-06T07:08:09.000Z");
}

#[test]
fn rejects_other_texts() {
    assert!(read_rfc3339("").is_none());
    assert!(read_rfc3339("yesterday").is_none());
    assert!(read_rfc3339("2024-05-06").is_none());
    assert!(read_rfc3339("2024-13-01T00:00:00Z").is_none());
}

#[test]
fn event_timestamp_writes_millis_and_z() {
    let t = read_rfc3339("2023-01-02T03:04:05.678901Z").unwrap();
    assert_eq!(event_timestamp(Some(t)), "2023-01-02T03:04:05.678Z");
}

#[test]
fn event_timestamp_without_time_uses_now() {
    let text = event_timestamp(None);
    assert_eq!(text.len(), 24);
    assert!(text.ends_with('Z'));
    assert!(read_rfc3339(&text).is_some());
}

#[test]
fn min_and_max_order_instants() {
    let early = read_rfc3339("2020-01-01T00:00:00Z").unwrap();
    let late = read_rfc3339("2020-01-01T00:00:00.5Z").unwrap();
    assert!(timestamp_le(&early, &late));
    assert!(!timestamp_le(&late, &early));
    assert!(timestamp_le(&early, &early));
    assert_eq!(timestamp_min(late, early), early);
    assert_eq!(timestamp_max(early, late), late);
    assert_eq!(timestamp_max(late, early), late);
}
