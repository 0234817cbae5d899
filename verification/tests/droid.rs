use serde_json::Value;
use sessio::droid::{
    derive_title, droid_title, encode_event, encode_message_blocks, encode_tool_result_output,
    import_message, import_record, import_session_start, import_settings_value,
    load_session, load_session_with_id, normalize_block, plan_output, plan_output_with,
    session_records, settings_value, update_time_bounds, DroidMaterialization,
};
use sessio::ir::{
    ContentBlock, JsonMap, MessageEvent, ReasoningEvent, SessionEvent, SessionFormat,
    ToolCallEvent, ToolResultEvent, UniversalSession,
};
use sessio::json::{json_to_string, write_json_text, JsonValue};
use sessio::time::{read_rfc3339, timestamp_text};

fn lib(value: &Value) -> JsonValue {
    match value {
        Value::Null => JsonValue::Null,
        Value::Bool(b) => JsonValue::Bool(*b),
        Value::Number(n) => JsonValue::Number(n.to_string()),
        Value::String(s) => JsonValue::Str(s.clone()),
        Value::Array(items) => JsonValue::Array(items.iter().map(lib).collect()),
        Value::Object(map) => {
            JsonValue::Object(map.iter().map(|(k, v)| (k.clone(), lib(v))).collect())
        }
    }
}

fn parse(text: &str) -> JsonValue {
    lib(&serde_json::from_str::<Value>(text).unwrap())
}

fn text_of(v: &JsonValue) -> String {
    let mut out = String::new();
    write_json_text(v, &mut out);
    out
}

fn user_message(text: &str) -> SessionEvent {
    SessionEvent::Message(MessageEvent {
        id: None,
        parent_id: None,
        role: "user".to_string(),
        timestamp: None,
        blocks: vec![ContentBlock { kind: "text".to_string(), text: Some(text.to_string()), data: None }],
        metadata: JsonMap::new(),
    })
}

#[test]
fn session_start_sets_identity_and_side_data() {
    let mut session = UniversalSession::new("fresh".to_string());
    let record = parse(
        r#"{"type":"session_start","id":"abc","title":"My title","cwd":"/work","gitBranch":"main","version":2,"owner":"me","hostId":"h1"}"#,
    );
    import_session_start(&mut session.metadata, &record);
    let m = &session.metadata;
    assert_eq!(m.session_id, "abc");
    assert_eq!(m.original_session_id.as_deref(), Some("abc"));
    assert_eq!(m.source_format, Some(SessionFormat::Droid));
    assert_eq!(m.title.as_deref(), Some("My title"));
    assert_eq!(m.cwd.as_deref(), Some("/work"));
    assert_eq!(m.git_branch.as_deref(), Some("main"));
    assert_eq!(text_of(m.extra.get("droid_session_version").unwrap()), "2");
    assert_eq!(text_of(m.extra.get("droid_owner").unwrap()), "\"me\"");
    assert_eq!(text_of(m.extra.get("droid_host_id").unwrap()), "\"h1\"");
}

#[test]
fn session_title_takes_precedence_even_when_blank() {
    let mut session = UniversalSession::new("fresh".to_string());
    import_session_start(
        &mut session.metadata,
        &parse(r#"{"sessionTitle":"   ","title":"ignored"}"#),
    );
    assert_eq!(session.metadata.title, None);
    assert_eq!(session.metadata.session_id, "fresh");
    assert_eq!(session.metadata.source_format, None);

    import_session_start(&mut session.metadata, &parse(r#"{"sessionTitle":"Chosen","title":"other"}"#));
    assert_eq!(session.metadata.title.as_deref(), Some("Chosen"));
}

#[test]
fn string_content_becomes_one_message() {
    let mut events = Vec::new();
    import_message(
        &mut events,
        &parse(r#"{"type":"message","id":"m1","parentId":"m0","timestamp":"2024-01-01T00:00:00Z","message":{"role":"assistant","content":"hello"}}"#),
    );
    assert_eq!(events.len(), 1);
    match &events[0] {
        SessionEvent::Message(m) => {
            assert_eq!(m.id.as_deref(), Some("m1"));
            assert_eq!(m.parent_id.as_deref(), Some("m0"));
            assert_eq!(m.role, "assistant");
            assert_eq!(timestamp_text(m.timestamp.unwrap()), "2024-01-01T00:00:00.000Z");
            assert_eq!(m.blocks.len(), 1);
            assert_eq!(m.blocks[0].kind, "text");
            assert_eq!(m.blocks[0].text.as_deref(), Some("hello"));
            assert!(m.blocks[0].data.is_none());
        }
        other => panic!("unexpected {:?}", other),
    }
}

#[test]
fn array_content_is_split_into_events() {
    let mut events = Vec::new();
    import_message(
        &mut events,
        &parse(
            r#"{"type":"message","id":"m1","message":{"content":[
                {"type":"text","text":"first"},
                {"type":"thinking","thinking":"pondering"},
                {"type":"tool_use","id":"c1","name":"shell","input":{"cmd":"ls"}},
                {"type":"tool_use","id":"","name":"skipped"},
                {"type":"tool_result","tool_use_id":"c1","content":"out","is_error":true},
                {"type":"image","content":"alt text"},
                "bare"
            ]}}"#,
        ),
    );
    assert_eq!(events.len(), 5);
    match &events[0] {
        SessionEvent::Message(m) => {
            assert_eq!(m.role, "user");
            assert_eq!(m.blocks.len(), 1);
            assert_eq!(m.blocks[0].text.as_deref(), Some("first"));
            assert_eq!(text_of(m.blocks[0].data.as_ref().unwrap()), r#"{"text":"first","type":"text"}"#);
        }
        other => panic!("unexpected {:?}", other),
    }
    match &events[1] {
        SessionEvent::Reasoning(r) => {
            assert_eq!(r.summary, vec!["pondering".to_string()]);
            assert_eq!(r.id.as_deref(), Some("m1"));
        }
        other => panic!("unexpected {:?}", other),
    }
    match &events[2] {
        SessionEvent::ToolCall(c) => {
            assert_eq!(c.call_id, "c1");
            assert_eq!(c.name, "shell");
            assert_eq!(text_of(&c.arguments), r#"{"cmd":"ls"}"#);
        }
        other => panic!("unexpected {:?}", other),
    }
    match &events[3] {
        SessionEvent::ToolResult(t) => {
            assert_eq!(t.call_id, "c1");
            assert!(t.is_error);
            assert_eq!(text_of(&t.output), "\"out\"");
        }
        other => panic!("unexpected {:?}", other),
    }
    match &events[4] {
        SessionEvent::Message(m) => {
            assert_eq!(m.blocks.len(), 2);
            assert_eq!(m.blocks[0].kind, "image");
            assert_eq!(m.blocks[0].text.as_deref(), Some("alt text"));
            assert_eq!(m.blocks[1].kind, "unknown");
            assert_eq!(m.blocks[1].text, None);
            assert_eq!(text_of(m.blocks[1].data.as_ref().unwrap()), "\"bare\"");
        }
        other => panic!("unexpected {:?}", other),
    }
}

#[test]
fn tool_defaults() {
    let mut events = Vec::new();
    import_message(
        &mut events,
        &parse(r#"{"message":{"content":[{"type":"tool_use","id":"c9"},{"type":"tool_result","tool_use_id":"c9"},{"type":"tool_result"}]}}"#),
    );
    assert_eq!(events.len(), 2);
    match &events[0] {
        SessionEvent::ToolCall(c) => {
            assert_eq!(c.name, "tool");
            assert!(matches!(c.arguments, JsonValue::Null));
        }
        other => panic!("unexpected {:?}", other),
    }
    match &events[1] {
        SessionEvent::ToolResult(t) => {
            assert!(!t.is_error);
            assert!(matches!(t.output, JsonValue::Null));
        }
        other => panic!("unexpected {:?}", other),
    }
}

#[test]
fn records_without_message_or_content_add_nothing() {
    let mut events = Vec::new();
    import_message(&mut events, &parse(r#"{"type":"message"}"#));
    import_message(&mut events, &parse(r#"{"message":{"role":"user"}}"#));
    import_message(&mut events, &parse(r#"{"message":{"content":42}}"#));
    import_message(&mut events, &parse(r#"{"message":{"content":[]}}"#));
    import_message(&mut events, &parse(r#"{"message":"text"}"#));
    assert!(events.is_empty());
}

#[test]
fn normalize_block_prefers_text_member() {
    let b = normalize_block(&parse(r#"{"type":"x","text":5,"content":"c"}"#));
    assert_eq!(b.kind, "x");
    assert_eq!(b.text, None);
    let b = normalize_block(&parse(r#"{"content":"c"}"#));
    assert_eq!(b.kind, "unknown");
    assert_eq!(b.text.as_deref(), Some("c"));
}

#[test]
fn time_bounds_widen() {
    let mut session = UniversalSession::new("s".to_string());
    let t2 = read_rfc3339("2024-01-02T00:00:00Z").unwrap();
    let t1 = read_rfc3339("2024-01-01T00:00:00Z").unwrap();
    let t3 = read_rfc3339("2024-01-03T00:00:00Z").unwrap();
    update_time_bounds(&mut session.metadata, None);
    assert!(session.metadata.created_at.is_none());
    update_time_bounds(&mut session.metadata, Some(t2));
    assert_eq!(session.metadata.created_at, Some(t2));
    assert_eq!(session.metadata.updated_at, Some(t2));
    update_time_bounds(&mut session.metadata, Some(t1));
    update_time_bounds(&mut session.metadata, Some(t3));
    assert_eq!(session.metadata.created_at, Some(t1));
    assert_eq!(session.metadata.updated_at, Some(t3));
}

#[test]
fn records_dispatch_on_type() {
    let mut session = UniversalSession::new("s".to_string());
    import_record(&mut session, &parse(r#"{"type":"session_start","id":"x1","timestamp":"2024-02-02T00:00:00Z"}"#));
    import_record(&mut session, &parse(r#"{"type":"other","message":{"content":"ignored"},"timestamp":"2024-02-03T00:00:00Z"}"#));
    import_record(&mut session, &parse(r#"{"type":"message","message":{"content":"kept"},"timestamp":"not a time"}"#));
    assert_eq!(session.metadata.session_id, "x1");
    assert_eq!(session.events.len(), 1);
    assert_eq!(timestamp_text(session.metadata.created_at.unwrap()), "2024-02-02T00:00:00.000Z");
    assert_eq!(timestamp_text(session.metadata.updated_at.unwrap()), "2024-02-03T00:00:00.000Z");
}

#[test]
fn settings_set_model() {
    let mut session = UniversalSession::new("s".to_string());
    import_settings_value(&mut session.metadata, &parse(r#"{"model":"gpt","other":1}"#));
    assert_eq!(session.metadata.model.as_deref(), Some("gpt"));
    assert_eq!(text_of(session.metadata.extra.get("droid_settings").unwrap()), r#"{"model":"gpt","other":1}"#);
}

#[test]
fn loading_builds_the_session() {
    let records = vec![
        parse(r#"{"type":"session_start","id":"abc","cwd":"/p","timestamp":"2024-03-01T10:00:00Z"}"#),
        parse(r#"{"type":"message","id":"1","timestamp":"2024-03-01T10:00:05Z","message":{"role":"user","content":[{"type":"text","text":"  Fix   the\nbug  "}]}}"#),
        parse(r#"{"type":"message","id":"2","parentId":"1","timestamp":"2024-03-01T10:00:09Z","message":{"role":"assistant","content":"Done"}}"#),
    ];
    let settings = parse(r#"{"model":"droid-large"}"#);
    let session = load_session_with_id("fresh".to_string(), &records, Some(&settings));
    let m = &session.metadata;
    assert_eq!(m.session_id, "abc");
    assert_eq!(m.title.as_deref(), Some("Fix the bug"));
    assert_eq!(m.model.as_deref(), Some("droid-large"));
    assert_eq!(m.cwd.as_deref(), Some("/p"));
    assert_eq!(timestamp_text(m.created_at.unwrap()), "2024-03-01T10:00:00.000Z");
    assert_eq!(timestamp_text(m.updated_at.unwrap()), "2024-03-01T10:00:09.000Z");
    assert_eq!(session.events.len(), 2);
}

#[test]
fn loading_without_start_keeps_fresh_id() {
    let session = load_session(&vec![parse(r#"{"type":"message","message":{"content":"hi"}}"#)], None);
    assert_eq!(session.metadata.session_id.len(), 36);
    assert_eq!(session.metadata.source_format, Some(SessionFormat::Droid));
    assert_eq!(session.metadata.title.as_deref(), Some("hi"));
    assert!(session.metadata.created_at.is_none());
}

#[test]
fn title_comes_from_first_user_message_with_text() {
    let mut session = UniversalSession::new("s".to_string());
    session.events.push(SessionEvent::Message(MessageEvent {
        id: None,
        parent_id: None,
        role: "assistant".to_string(),
        timestamp: None,
        blocks: vec![ContentBlock { kind: "text".to_string(), text: Some("not me".to_string()), data: None }],
        metadata: JsonMap::new(),
    }));
    session.events.push(user_message("   "));
    session.events.push(user_message(&"word ".repeat(30)));
    let title = derive_title(&session).unwrap();
    assert_eq!(title.chars().count(), 80);
    assert!(title.starts_with("word word"));
    assert!(title.ends_with(' ') || title.ends_with('w') || title.ends_with('d'));
}

#[test]
fn title_joins_block_texts() {
    let mut session = UniversalSession::new("s".to_string());
    session.events.push(SessionEvent::Message(MessageEvent {
        id: None,
        parent_id: None,
        role: "user".to_string(),
        timestamp: None,
        blocks: vec![
            ContentBlock { kind: "text".to_string(), text: Some("a".to_string()), data: None },
            ContentBlock { kind: "image".to_string(), text: None, data: None },
            ContentBlock { kind: "text".to_string(), text: Some(" b ".to_string()), data: None },
        ],
        metadata: JsonMap::new(),
    }));
    assert_eq!(derive_title(&session).as_deref(), Some("a b"));
    assert_eq!(droid_title(&session), "a b");
    let empty = UniversalSession::new("s".to_string());
    assert_eq!(derive_title(&empty), None);
    assert_eq!(droid_title(&empty), "Imported session");
}

#[test]
fn message_blocks_are_encoded_as_text_items() {
    let blocks = vec![
        ContentBlock { kind: "text".to_string(), text: Some("hi".to_string()), data: None },
        ContentBlock { kind: "image".to_string(), text: None, data: Some(parse(r#"{"url":"u"}"#)) },
        ContentBlock { kind: "x".to_string(), text: None, data: Some(parse("\"raw\"")) },
        ContentBlock { kind: "y".to_string(), text: None, data: None },
    ];
    assert_eq!(
        text_of(&encode_message_blocks(&blocks, "user")),
        r#"[{"text":"hi","type":"text"},{"text":"{\"url\":\"u\"}","type":"text"},{"text":"raw","type":"text"},{"text":"","type":"text"}]"#
    );
    let dev = encode_message_blocks(&blocks[..1].iter().map(|b| ContentBlock { kind: b.kind.clone(), text: b.text.clone(), data: None }).collect(), "developer");
    assert_eq!(
        text_of(&dev),
        r#"[{"text":"[transession imported developer message]\n\nhi","type":"text"}]"#
    );
    assert!(matches!(encode_message_blocks(&vec![], "user"), JsonValue::Null));
}

#[test]
fn tool_outputs_are_encoded_as_text() {
    assert_eq!(text_of(&encode_tool_result_output(&parse("\"plain\""))), "\"plain\"");
    assert_eq!(text_of(&encode_tool_result_output(&parse("[1,2]"))), "\"[1,2]\"");
    assert_eq!(json_to_string(&parse("{\"k\":null}")), "{\"k\":null}");
}

#[test]
fn events_are_encoded_as_messages() {
    let reasoning = SessionEvent::Reasoning(ReasoningEvent {
        id: None,
        parent_id: None,
        timestamp: None,
        summary: vec!["a".to_string(), "b".to_string()],
        metadata: JsonMap::new(),
    });
    let (_, msg) = encode_event(&reasoning).unwrap();
    assert_eq!(
        text_of(&msg),
        r#"{"content":[{"thinking":"a","type":"thinking"},{"thinking":"b","type":"thinking"}],"role":"assistant"}"#
    );
    let call = SessionEvent::ToolCall(ToolCallEvent {
        id: None,
        parent_id: None,
        call_id: "c1".to_string(),
        name: "shell".to_string(),
        timestamp: None,
        arguments: parse(r#"{"cmd":"ls"}"#),
        metadata: JsonMap::new(),
    });
    let (_, msg) = encode_event(&call).unwrap();
    assert_eq!(
        text_of(&msg),
        r#"{"content":[{"id":"c1","input":{"cmd":"ls"},"name":"shell","type":"tool_use"}],"role":"assistant"}"#
    );
    let result = SessionEvent::ToolResult(ToolResultEvent {
        id: None,
        parent_id: None,
        call_id: "c1".to_string(),
        timestamp: None,
        output: parse(r#"{"ok":true}"#),
        is_error: false,
        metadata: JsonMap::new(),
    });
    let (_, msg) = encode_event(&result).unwrap();
    assert_eq!(
        text_of(&msg),
        r#"{"content":[{"content":"{\"ok\":true}","is_error":false,"tool_use_id":"c1","type":"tool_result"}],"role":"user"}"#
    );
    let system = SessionEvent::Message(MessageEvent {
        id: None,
        parent_id: None,
        role: "system".to_string(),
        timestamp: None,
        blocks: vec![ContentBlock { kind: "text".to_string(), text: Some("s".to_string()), data: None }],
        metadata: JsonMap::new(),
    });
    let (_, msg) = encode_event(&system).unwrap();
    assert_eq!(text_of(&msg), r#"{"content":[{"text":"s","type":"text"}],"role":"user"}"#);
    let empty = SessionEvent::Message(MessageEvent {
        id: None,
        parent_id: None,
        role: "user".to_string(),
        timestamp: None,
        blocks: vec![],
        metadata: JsonMap::new(),
    });
    assert!(encode_event(&empty).is_none());
}

#[test]
fn records_frame_the_session() {
    let mut session = UniversalSession::new("550e8400-e29b-41d4-a716-446655440000".to_string());
    session.metadata.cwd = Some("/repo".to_string());
    session.metadata.updated_at = read_rfc3339("2024-04-04T04:04:04Z");
    session.events.push(user_message("hello"));
    session.events.push(SessionEvent::Message(MessageEvent {
        id: None,
        parent_id: None,
        role: "user".to_string(),
        timestamp: None,
        blocks: vec![],
        metadata: JsonMap::new(),
    }));
    session.events.push(SessionEvent::Message(MessageEvent {
        id: None,
        parent_id: None,
        role: "assistant".to_string(),
        timestamp: read_rfc3339("2024-04-04T04:04:03.5Z"),
        blocks: vec![ContentBlock { kind: "text".to_string(), text: Some("hi!".to_string()), data: None }],
        metadata: JsonMap::new(),
    }));
    let records = session_records(&session);
    assert_eq!(records.len(), 4);
    assert_eq!(
        text_of(&records[0]),
        r#"{"cwd":"/repo","gitBranch":null,"id":"550e8400-e29b-41d4-a716-446655440000","owner":"transession","sessionTitle":"hello","title":"hello","type":"session_start","version":2}"#
    );
    let first_id = records[1].get_str("id").unwrap().to_string();
    assert!(matches!(records[1].get("parentId"), Some(JsonValue::Null)));
    assert_eq!(records[2].get_str("parentId"), Some(first_id.as_str()));
    assert_eq!(records[2].get_str("timestamp"), Some("2024-04-04T04:04:03.500Z"));
    assert_eq!(records[2].get_str("type"), Some("message"));
    assert_eq!(text_of(records[2].get("message").unwrap()), r#"{"content":[{"text":"hi!","type":"text"}],"role":"assistant"}"#);
    assert_eq!(records[3].get_str("type"), Some("session_end"));
    assert_eq!(records[3].get_str("timestamp"), Some("2024-04-04T04:04:04.000Z"));
}

#[test]
fn settings_sidecar_content() {
    let mut session = UniversalSession::new("s".to_string());
    assert_eq!(text_of(&settings_value(&session)), r#"{"model":"default"}"#);
    session.metadata.model = Some("opus".to_string());
    assert_eq!(text_of(&settings_value(&session)), r#"{"model":"opus"}"#);
    import_settings_value(&mut session.metadata, &parse(r#"{"theme":"dark"}"#));
    assert_eq!(text_of(&settings_value(&session)), r#"{"theme":"dark"}"#);
}

#[test]
fn output_plan_for_a_file() {
    let session = UniversalSession::new("anything".to_string());
    let DroidMaterialization { session_file, settings_file } = plan_output(&session, "/tmp/out.jsonl");
    assert_eq!(session_file, "/tmp/out.jsonl");
    assert_eq!(settings_file, None);
}

#[test]
fn output_plan_for_a_home() {
    let mut session = UniversalSession::new("550E8400-E29B-41D4-A716-446655440000".to_string());
    session.metadata.cwd = Some("/home/me/proj".to_string());
    let plan = plan_output(&session, "/tmp/factory");
    assert_eq!(
        plan.session_file,
        "/tmp/factory/sessions/-home-me-proj/550e8400-e29b-41d4-a716-446655440000.jsonl"
    );
    assert_eq!(
        plan.settings_file.as_deref(),
        Some("/tmp/factory/sessions/-home-me-proj/550e8400-e29b-41d4-a716-446655440000.settings.json")
    );
    let session = UniversalSession::new("x".to_string());
    let plan = plan_output_with(&session, "home/", "id-1");
    assert_eq!(plan.session_file, "home/sessions/-/id-1.jsonl");
    let plan = plan_output(&session, "home");
    assert!(plan.session_file.starts_with("home/sessions/-/"));
    assert!(plan.session_file.ends_with(".jsonl"));
    assert_eq!(plan.session_file.len(), "home/sessions/-/".len() + 36 + 6);
}
