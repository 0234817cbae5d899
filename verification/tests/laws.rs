use serde_json::Value;
use sessio::droid::{load_session_with_id, plan_output, session_records, settings_value, update_time_bounds};
use sessio::paths::settings_path_for;
use sessio::ir::{
    ContentBlock, JsonMap, MessageEvent, ReasoningEvent, SessionEvent, ToolCallEvent,
    ToolResultEvent, UniversalSession,
};
use sessio::json::{write_json_text, JsonValue};
use sessio::time::{read_rfc3339, timestamp_le, timestamp_text};

fn lib(value: &Value) -> JsonValue {
    match value {
        Value::Null => JsonValue::Null,
        Value::Bool(b) => JsonValue::Bool(*b),
        Value::Number(n) => JsonValue::Number(n.to_string()),
        Value::String(s) => JsonValue::Str(s.clone()),
        Value::Array(items) => JsonValue::Array(items.iter().map(lib).collect()),
        Value::Object(map) => {
            JsonValue::Object(map.iter().map(|(k, v)| (k.clone(), lib(v))).collect())
        }
    }
}

fn parse(text: &str) -> JsonValue {
    lib(&serde_json::from_str::<Value>(text).unwrap())
}

fn text_of(v: &JsonValue) -> String {
    let mut out = String::new();
    write_json_text(v, &mut out);
    out
}

/// Serialises a record as a JSON line and reads it back, as the file does.
fn through_text(v: &JsonValue) -> JsonValue {
    let line = text_of(v);
    parse(&line)
}

fn sample_session() -> UniversalSession {
    let mut session = UniversalSession::new("550e8400-e29b-41d4-a716-446655440000".to_string());
    session.metadata.cwd = Some("/work/tree".to_string());
    session.metadata.git_branch = Some("feature/x".to_string());
    session.metadata.title = Some("Given title".to_string());
    session.events.push(SessionEvent::Message(MessageEvent {
        id: None,
        parent_id: None,
        role: "user".to_string(),
        timestamp: read_rfc3339("2024-06-01T12:00:00.250Z"),
        blocks: vec![
            ContentBlock { kind: "text".to_string(), text: Some("Please \"quote\" this".to_string()), data: None },
            ContentBlock { kind: "image".to_string(), text: None, data: Some(parse(r#"{"src":"a.png"}"#)) },
        ],
        metadata: JsonMap::new(),
    }));
    session.events.push(SessionEvent::Reasoning(ReasoningEvent {
        id: None,
        parent_id: None,
        timestamp: read_rfc3339("2024-06-01T12:00:01Z"),
        summary: vec!["step one".to_string(), "step two".to_string()],
        metadata: JsonMap::new(),
    }));
    session.events.push(SessionEvent::ToolCall(ToolCallEvent {
        id: None,
        parent_id: None,
        call_id: "call-7".to_string(),
        name: "grep".to_string(),
        timestamp: read_rfc3339("2024-06-01T12:00:02Z"),
        arguments: parse(r#"{"pattern":"fn main","paths":["src"]}"#),
        metadata: JsonMap::new(),
    }));
    session.events.push(SessionEvent::ToolResult(ToolResultEvent {
        id: None,
        parent_id: None,
        call_id: "call-7".to_string(),
        timestamp: read_rfc3339("2024-06-01T12:00:03Z"),
        output: parse(r#"{"matches":3}"#),
        is_error: false,
        metadata: JsonMap::new(),
    }));
    session.events.push(SessionEvent::Message(MessageEvent {
        id: None,
        parent_id: None,
        role: "assistant".to_string(),
        timestamp: read_rfc3339("2024-06-01T12:00:04Z"),
        blocks: vec![ContentBlock { kind: "text".to_string(), text: Some("All done.".to_string()), data: None }],
        metadata: JsonMap::new(),
    }));
    session.metadata.updated_at = read_rfc3339("2024-06-01T12:00:04Z");
    session
}

#[test]
fn written_session_reads_back() {
    let session = sample_session();
    let records: Vec<JsonValue> = session_records(&session).iter().map(through_text).collect();
    let loaded = load_session_with_id("fresh".to_string(), &records, None);

    assert_eq!(loaded.metadata.session_id, "550e8400-e29b-41d4-a716-446655440000");
    assert_eq!(loaded.metadata.cwd.as_deref(), Some("/work/tree"));
    assert_eq!(loaded.metadata.git_branch.as_deref(), Some("feature/x"));
    assert_eq!(loaded.metadata.title.as_deref(), Some("Please \"quote\" this"));
    assert_eq!(loaded.events.len(), 6);

    match &loaded.events[0] {
        SessionEvent::Message(m) => {
            assert_eq!(m.role, "user");
            let texts: Vec<_> = m.blocks.iter().map(|b| b.text.clone().unwrap()).collect();
            assert_eq!(texts, vec!["Please \"quote\" this".to_string(), "{\"src\":\"a.png\"}".to_string()]);
            assert!(m.blocks.iter().all(|b| b.kind == "text"));
            assert_eq!(timestamp_text(m.timestamp.unwrap()), "2024-06-01T12:00:00.250Z");
            assert_eq!(m.parent_id, None);
        }
        other => panic!("unexpected {:?}", other),
    }
    let first_id = records[1].get_str("id").unwrap().to_string();
    match (&loaded.events[1], &loaded.events[2]) {
        (SessionEvent::Reasoning(a), SessionEvent::Reasoning(b)) => {
            assert_eq!(a.summary, vec!["step one".to_string()]);
            assert_eq!(b.summary, vec!["step two".to_string()]);
            assert_eq!(a.parent_id.as_deref(), Some(first_id.as_str()));
            assert_eq!(a.id, b.id);
        }
        other => panic!("unexpected {:?}", other),
    }
    match &loaded.events[3] {
        SessionEvent::ToolCall(c) => {
            assert_eq!(c.call_id, "call-7");
            assert_eq!(c.name, "grep");
            assert_eq!(text_of(&c.arguments), r#"{"paths":["src"],"pattern":"fn main"}"#);
        }
        other => panic!("unexpected {:?}", other),
    }
    match &loaded.events[4] {
        SessionEvent::ToolResult(t) => {
            assert_eq!(t.call_id, "call-7");
            assert!(!t.is_error);
            assert_eq!(text_of(&t.output), r#""{\"matches\":3}""#);
        }
        other => panic!("unexpected {:?}", other),
    }
    match &loaded.events[5] {
        SessionEvent::Message(m) => {
            assert_eq!(m.role, "assistant");
            assert_eq!(m.blocks[0].text.as_deref(), Some("All done."));
        }
        other => panic!("unexpected {:?}", other),
    }
}

#[test]
fn loaded_time_bounds_cover_every_record() {
    let stamps = ["2024-01-05T00:00:00Z", "2024-01-01T00:00:00Z", "2024-01-09T00:00:00Z", "2024-01-03T00:00:00Z"];
    let records: Vec<JsonValue> = stamps
        .iter()
        .map(|t| parse(&format!("{{\"type\":\"other\",\"timestamp\":\"{}\"}}", t)))
        .collect();
    let session = load_session_with_id("s".to_string(), &records, None);
    let created = session.metadata.created_at.unwrap();
    let updated = session.metadata.updated_at.unwrap();
    assert!(timestamp_le(&created, &updated));
    assert_eq!(timestamp_text(created), "2024-01-01T00:00:00.000Z");
    assert_eq!(timestamp_text(updated), "2024-01-09T00:00:00.000Z");
    for t in stamps {
        let t = read_rfc3339(t).unwrap();
        assert!(timestamp_le(&created, &t) && timestamp_le(&t, &updated));
    }
    let none = load_session_with_id("s".to_string(), &vec![parse(r#"{"type":"x"}"#)], None);
    assert!(none.metadata.created_at.is_none() && none.metadata.updated_at.is_none());
}

#[test]
fn loaded_settings_are_written_back() {
    let settings = parse(r#"{"model":"m1","reasoningEffort":"high","nested":{"a":[1,2]}}"#);
    let session = load_session_with_id("s".to_string(), &vec![], Some(&settings));
    assert_eq!(text_of(&settings_value(&session)), text_of(&settings));
}

#[test]
fn derived_titles_are_short_and_trimmed() {
    let long = format!("   {}", "abc ".repeat(50));
    let records = vec![parse(&format!(
        "{{\"type\":\"message\",\"message\":{{\"content\":{}}}}}",
        serde_json::to_string(&Value::String(long)).unwrap()
    ))];
    let session = load_session_with_id("s".to_string(), &records, None);
    let title = session.metadata.title.unwrap();
    assert!(title.chars().count() <= 80);
    assert!(!title.starts_with(char::is_whitespace));
}

#[test]
fn settings_sidecar_is_where_the_reader_looks() {
    let mut session = UniversalSession::new("not-a-uuid".to_string());
    session.metadata.cwd = Some("/src/app".to_string());
    for output in ["/home/me/.factory", "rel/home/", ""] {
        let plan = plan_output(&session, output);
        assert_eq!(Some(settings_path_for(&plan.session_file)), plan.settings_file);
    }
}

fn is_v4(s: &str) -> bool {
    let c: Vec<char> = s.chars().collect();
    c.len() == 36 && c[14] == '4' && matches!(c[19], '8' | '9' | 'a' | 'b')
}

#[test]
fn fresh_ids_are_version_4() {
    assert!(is_v4(&sessio::ids::droid_session_id("not-a-uuid")));
    let session = sample_session();
    let records = session_records(&session);
    for r in &records[1..] {
        assert!(is_v4(r.get_str("id").unwrap()));
    }
    let loaded = sessio::droid::load_session(&vec![], None);
    assert!(is_v4(&loaded.metadata.session_id));
}

#[test]
fn written_times_read_back_to_the_millisecond() {
    let mut session = UniversalSession::new("s".to_string());
    session.events.push(SessionEvent::Reasoning(ReasoningEvent {
        id: None,
        parent_id: None,
        timestamp: read_rfc3339("2024-06-01T12:00:00.123456789+02:00"),
        summary: vec!["x".to_string()],
        metadata: JsonMap::new(),
    }));
    let records: Vec<JsonValue> = session_records(&session).iter().map(through_text).collect();
    assert_eq!(records[1].get_str("timestamp"), Some("2024-06-01T10:00:00.123Z"));
    let loaded = load_session_with_id("fresh".to_string(), &records, None);
    match &loaded.events[0] {
        SessionEvent::Reasoning(r) => {
            let t = r.timestamp.unwrap();
            let original = read_rfc3339("2024-06-01T10:00:00.123456789Z").unwrap();
            assert_eq!(t.secs(), original.secs());
            assert_eq!(t.subsec_nanos(), 123_000_000);
        }
        other => panic!("unexpected {:?}", other),
    }
}

#[test]
fn time_bounds_ignore_call_order() {
    let stamps = ["2024-01-05T00:00:00Z", "2024-01-01T00:00:00Z", "2024-01-09T00:00:00Z"];
    let run = |order: &[usize]| {
        let mut m = UniversalSession::new("s".to_string()).metadata;
        for &i in order {
            update_time_bounds(&mut m, read_rfc3339(stamps[i]));
            update_time_bounds(&mut m, None);
        }
        (timestamp_text(m.created_at.unwrap()), timestamp_text(m.updated_at.unwrap()))
    };
    let expected = ("2024-01-01T00:00:00.000Z".to_string(), "2024-01-09T00:00:00.000Z".to_string());
    assert_eq!(run(&[0, 1, 2]), expected);
    assert_eq!(run(&[2, 0, 1, 1]), expected);
}

#[test]
fn tool_events_and_reasoning_survive_a_round_trip() {
    let session = sample_session();
    let records: Vec<JsonValue> = session_records(&session).iter().map(through_text).collect();
    let loaded = load_session_with_id("fresh".to_string(), &records, None);
    let calls: Vec<_> = loaded
        .events
        .iter()
        .filter_map(|e| match e {
            SessionEvent::ToolCall(c) => Some((c.call_id.clone(), c.name.clone(), text_of(&c.arguments))),
            _ => None,
        })
        .collect();
    assert_eq!(calls, vec![("call-7".to_string(), "grep".to_string(), r#"{"paths":["src"],"pattern":"fn main"}"#.to_string())]);
    let lines: Vec<String> = loaded
        .events
        .iter()
        .flat_map(|e| match e {
            SessionEvent::Reasoning(r) => {
                assert_eq!(r.summary.len(), 1);
                r.summary.clone()
            }
            _ => vec![],
        })
        .collect();
    assert_eq!(lines, vec!["step one".to_string(), "step two".to_string()]);
}

#[test]
fn written_records_have_their_keys_in_order() {
    let session = sample_session();
    for record in session_records(&session) {
        let ours = text_of(&record);
        let theirs = serde_json::to_string(&serde_json::from_str::<Value>(&ours).unwrap()).unwrap();
        assert_eq!(ours, theirs);
    }
    let settings = settings_value(&UniversalSession::new("s".to_string()));
    assert_eq!(text_of(&settings), r#"{"model":"default"}"#);
}

fn event_stamp(e: &SessionEvent) -> Option<String> {
    let t = match e {
        SessionEvent::Message(m) => m.timestamp,
        SessionEvent::Reasoning(r) => r.timestamp,
        SessionEvent::ToolCall(c) => c.timestamp,
        SessionEvent::ToolResult(t) => t.timestamp,
    };
    t.map(timestamp_text)
}

#[test]
fn exact_times_survive_a_round_trip() {
    let session = sample_session();
    let records: Vec<JsonValue> = session_records(&session).iter().map(through_text).collect();
    let loaded = load_session_with_id("fresh".to_string(), &records, None);
    let got: Vec<_> = loaded.events.iter().map(event_stamp).collect();
    let s = |t: &str| Some(t.to_string());
    assert_eq!(
        got,
        vec![
            s("2024-06-01T12:00:00.250Z"),
            s("2024-06-01T12:00:01.000Z"),
            s("2024-06-01T12:00:01.000Z"),
            s("2024-06-01T12:00:02.000Z"),
            s("2024-06-01T12:00:03.000Z"),
            s("2024-06-01T12:00:04.000Z"),
        ]
    );
}
