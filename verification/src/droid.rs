use vstd::prelude::*;

use crate::ids::{droid_session_id, is_droid_session_id_for, new_uuid};
use crate::ir::{
    blocks_view, events_view, fresh_metadata, strings_view, BlockView, ContentBlock, EventView,
    JsonMap, MessageEvent, MetadataView, ReasoningEvent, SessionEvent, SessionFormat,
    SessionMetadata, SessionView, ToolCallEvent, ToolResultEvent, UniversalSession,
};
use crate::json::{
    array_of, entries_view, get_str, key_lt, keys_in_order, keys_sorted, lemma_entries_sorted,
    lemma_items_sorted, items_model, json_as_text, json_bool, json_get, json_model,
    json_str, json_to_string, object_of, opt_json, opt_string, opt_text, string_of, values_view,
    Json, JsonValue,
};
use crate::paths::{has_jsonl_extension, is_jsonl_path, join_path, joined_path};
use crate::text::{
    collapse_whitespace, collapsed, droid_slug, is_blank, is_blank_line, join_with_space,
    path_to_droid_slug, prefix_chars, str_eq, take_chars,
};
use crate::time::{
    event_timestamp, four_digit_year, instant_timestamp, is_instant_text, millis_instant,
    read_rfc3339, rfc3339_instant, timestamp_max, timestamp_min, timestamp_text_of, ts_max,
    ts_min, Timestamp,
};

verus! {

// ---------------------------------------------------------------------------
// Reading Droid records
// ---------------------------------------------------------------------------

/// `m` with `v` stored under `key` in its side data, when there is a `v`.
pub open spec fn with_extra(m: MetadataView, key: Seq<char>, v: Option<Json>) -> MetadataView {
    match v {
        Some(x) => MetadataView { extra: m.extra.insert(key, x), ..m },
        None => m,
    }
}

/// The title a `session_start` record offers: its `sessionTitle` member when
/// it has one, else its `title` member, in either case only if it is a string.
pub open spec fn offered_title(v: Json) -> Option<Seq<char>> {
    match json_get(v, "sessionTitle"@) {
        Some(t) => json_str(Some(t)),
        None => get_str(v, "title"@),
    }
}

/// What a `session_start` record makes of the metadata: its id becomes the
/// session id and the original id, a title that is not blank becomes the
/// title, its `cwd` the working directory, its `gitBranch` the branch hint,
/// and its `version`, `owner` and `hostId` members are kept as side data.
pub open spec fn session_start_metadata(m: MetadataView, v: Json) -> MetadataView {
    let m1 = match get_str(v, "id"@) {
        Some(id) => MetadataView {
            session_id: id,
            original_session_id: Some(id),
            source_format: Some(SessionFormat::Droid),
            ..m
        },
        None => m,
    };
    let m2 = match offered_title(v) {
        Some(t) => if !is_blank(t) {
            MetadataView { title: Some(t), ..m1 }
        } else {
            m1
        },
        None => m1,
    };
    let m3 = match get_str(v, "cwd"@) {
        Some(c) => MetadataView { cwd: Some(c), ..m2 },
        None => m2,
    };
    let m3b = match get_str(v, "gitBranch"@) {
        Some(b) => MetadataView { git_branch: Some(b), ..m3 },
        None => m3,
    };
    let m4 = with_extra(m3b, "droid_session_version"@, json_get(v, "version"@));
    let m5 = with_extra(m4, "droid_owner"@, json_get(v, "owner"@));
    with_extra(m5, "droid_host_id"@, json_get(v, "hostId"@))
}

/// The time bounds of a session after an event at `ts`: the earliest and the
/// latest instant seen so far.
pub open spec fn with_time_bounds(m: MetadataView, ts: Option<Timestamp>) -> MetadataView {
    match ts {
        Some(t) => MetadataView {
            created_at: Some(
                match m.created_at {
                    Some(c) => ts_min(c, t),
                    None => t,
                },
            ),
            updated_at: Some(
                match m.updated_at {
                    Some(u) => ts_max(u, t),
                    None => t,
                },
            ),
            ..m
        },
        None => m,
    }
}

/// The instant a record is stamped with, if it has a valid `timestamp` member.
pub open spec fn record_timestamp(v: Json) -> Option<Timestamp> {
    match get_str(v, "timestamp"@) {
        Some(s) => instant_timestamp(s),
        None => None,
    }
}

/// What a message record says of every event it gives rise to.
pub struct MessageContext {
    pub id: Option<Seq<char>>,
    pub parent_id: Option<Seq<char>>,
    pub role: Seq<char>,
    pub timestamp: Option<Timestamp>,
}

/// The message event of a context with the given blocks.
pub open spec fn message_event(c: MessageContext, blocks: Seq<BlockView>) -> EventView {
    EventView::Message {
        id: c.id,
        parent_id: c.parent_id,
        role: c.role,
        timestamp: c.timestamp,
        blocks,
        metadata: Map::empty(),
    }
}

/// `events` followed by a message of the pending blocks, if there are any.
pub open spec fn flushed(c: MessageContext, events: Seq<EventView>, pending: Seq<BlockView>) -> Seq<
    EventView,
> {
    if pending.len() == 0 {
        events
    } else {
        events.push(message_event(c, pending))
    }
}

/// The block that a content item other than thinking, a tool call or a tool
/// result becomes: its `type` (else `unknown`), its `text` or else `content`
/// member if that is a string, and the item itself.
pub open spec fn normalized_block(b: Json) -> BlockView {
    BlockView {
        kind: match get_str(b, "type"@) {
            Some(k) => k,
            None => "unknown"@,
        },
        text: match json_get(b, "text"@) {
            Some(t) => json_str(Some(t)),
            None => get_str(b, "content"@),
        },
        data: Some(b),
    }
}

/// A string member, or the empty text when there is none.
pub open spec fn str_or_empty(b: Json, key: Seq<char>) -> Seq<char> {
    match get_str(b, key) {
        Some(s) => s,
        None => seq![],
    }
}

/// A member, or `null` when there is none.
pub open spec fn member_or_null(b: Json, key: Seq<char>) -> Json {
    match json_get(b, key) {
        Some(x) => x,
        None => Json::Null,
    }
}

/// The events and the pending message blocks after one content item.
pub open spec fn block_step(
    c: MessageContext,
    st: (Seq<EventView>, Seq<BlockView>),
    b: Json,
) -> (Seq<EventView>, Seq<BlockView>) {
    let kind = get_str(b, "type"@);
    if kind == Some("thinking"@) {
        let e = flushed(c, st.0, st.1);
        match get_str(b, "thinking"@) {
            Some(t) => (
                e.push(
                    EventView::Reasoning {
                        id: c.id,
                        parent_id: c.parent_id,
                        timestamp: c.timestamp,
                        summary: seq![t],
                        metadata: Map::empty(),
                    },
                ),
                seq![],
            ),
            None => (e, seq![]),
        }
    } else if kind == Some("tool_use"@) {
        let e = flushed(c, st.0, st.1);
        let call_id = str_or_empty(b, "id"@);
        if call_id.len() == 0 {
            (e, seq![])
        } else {
            (
                e.push(
                    EventView::ToolCall {
                        id: c.id,
                        parent_id: c.parent_id,
                        call_id,
                        name: match get_str(b, "name"@) {
                            Some(n) => n,
                            None => "tool"@,
                        },
                        timestamp: c.timestamp,
                        arguments: member_or_null(b, "input"@),
                        metadata: Map::empty(),
                    },
                ),
                seq![],
            )
        }
    } else if kind == Some("tool_result"@) {
        let e = flushed(c, st.0, st.1);
        let call_id = str_or_empty(b, "tool_use_id"@);
        if call_id.len() == 0 {
            (e, seq![])
        } else {
            (
                e.push(
                    EventView::ToolResult {
                        id: c.id,
                        parent_id: c.parent_id,
                        call_id,
                        timestamp: c.timestamp,
                        output: member_or_null(b, "content"@),
                        is_error: match json_bool(json_get(b, "is_error"@)) {
                            Some(x) => x,
                            None => false,
                        },
                        metadata: Map::empty(),
                    },
                ),
                seq![],
            )
        }
    } else {
        (st.0, st.1.push(normalized_block(b)))
    }
}

/// The events and pending blocks after the first `n` content items.
pub open spec fn blocks_fold(c: MessageContext, events: Seq<EventView>, bs: Seq<Json>, n: int) -> (
    Seq<EventView>,
    Seq<BlockView>,
)
    decreases n,
{
    if n <= 0 {
        (events, seq![])
    } else {
        block_step(c, blocks_fold(c, events, bs, n - 1), bs[n - 1])
    }
}

/// The context of a message record: its id, parent id, the message's role
/// (`user` when it has none) and the record's instant.
pub open spec fn message_context(v: Json, msg: Json) -> MessageContext {
    MessageContext {
        id: get_str(v, "id"@),
        parent_id: get_str(v, "parentId"@),
        role: match get_str(msg, "role"@) {
            Some(r) => r,
            None => "user"@,
        },
        timestamp: record_timestamp(v),
    }
}

/// The events after a `message` record: text content becomes one message;
/// array content is read item by item, thinking, tool calls and tool results
/// becoming events of their own and the other items being gathered into
/// messages between them.
pub open spec fn imported_message(events: Seq<EventView>, v: Json) -> Seq<EventView> {
    match json_get(v, "message"@) {
        None => events,
        Some(msg) => {
            let c = message_context(v, msg);
            match json_get(msg, "content"@) {
                Some(Json::Str(text)) => events.push(
                    message_event(c, seq![BlockView { kind: "text"@, text: Some(text), data: None }]),
                ),
                Some(Json::Array(bs)) => {
                    let st = blocks_fold(c, events, bs, bs.len() as int);
                    flushed(c, st.0, st.1)
                },
                _ => events,
            }
        },
    }
}

/// A session after one record of a Droid file.
pub open spec fn imported_record(s: SessionView, v: Json) -> SessionView {
    let m = with_time_bounds(s.metadata, record_timestamp(v));
    let kind = get_str(v, "type"@);
    if kind == Some("session_start"@) {
        SessionView { metadata: session_start_metadata(m, v), events: s.events }
    } else if kind == Some("message"@) {
        SessionView { metadata: m, events: imported_message(s.events, v) }
    } else {
        SessionView { metadata: m, events: s.events }
    }
}

fn clone_opt(o: &Option<String>) -> (r: Option<String>)
    ensures
        opt_string(r) == opt_string(*o),
{
    match o {
        Some(s) => Some(s.clone()),
        None => None,
    }
}

fn opt_to_string(o: Option<&str>) -> (r: Option<String>)
    ensures
        opt_string(r) == opt_text(o),
{
    match o {
        Some(s) => Some(s.to_string()),
        None => None,
    }
}

proof fn lemma_events_push(events: Seq<SessionEvent>, e: SessionEvent)
    ensures
        events_view(events.push(e)) == events_view(events).push(e@),
{
    assert(events_view(events.push(e)) =~= events_view(events).push(e@));
}

/// The instant a record is stamped with
/// (`value.get("timestamp").and_then(Value::as_str).and_then(parse_datetime)`).
pub fn read_timestamp(value: &JsonValue) -> (r: Option<Timestamp>)
    ensures
        r == record_timestamp(value@),
{
    match value.get_str("timestamp") {
        Some(s) => read_rfc3339(s),
        None => None,
    }
}

/// Widens the time bounds of the session to take in `timestamp`.
pub fn update_time_bounds(metadata: &mut SessionMetadata, timestamp: Option<Timestamp>)
    ensures
        final(metadata)@ == with_time_bounds(old(metadata)@, timestamp),
{
    if let Some(t) = timestamp {
        let created = match metadata.created_at {
            Some(c) => timestamp_min(c, t),
            None => t,
        };
        let updated = match metadata.updated_at {
            Some(u) => timestamp_max(u, t),
            None => t,
        };
        metadata.created_at = Some(created);
        metadata.updated_at = Some(updated);
    }
}

fn set_extra(metadata: &mut SessionMetadata, key: &str, value: Option<&JsonValue>)
    ensures
        final(metadata)@ == with_extra(old(metadata)@, key@, opt_json(value)),
{
    if let Some(v) = value {
        metadata.extra.insert(key.to_string(), v.deep_copy());
    }
}

/// Takes what a `session_start` record says into the metadata.
pub fn import_session_start(metadata: &mut SessionMetadata, value: &JsonValue)
    ensures
        final(metadata)@ == session_start_metadata(old(metadata)@, value@),
{
    if let Some(id) = value.get_str("id") {
        metadata.session_id = id.to_string();
        metadata.original_session_id = Some(id.to_string());
        metadata.source_format = Some(SessionFormat::Droid);
    }
    let title = match value.get("sessionTitle") {
        Some(t) => t.as_str(),
        None => value.get_str("title"),
    };
    if let Some(t) = title {
        if !is_blank_line(t) {
            metadata.title = Some(t.to_string());
        }
    }
    if let Some(cwd) = value.get_str("cwd") {
        metadata.cwd = Some(cwd.to_string());
    }
    if let Some(branch) = value.get_str("gitBranch") {
        metadata.git_branch = Some(branch.to_string());
    }
    set_extra(metadata, "droid_session_version", value.get("version"));
    set_extra(metadata, "droid_owner", value.get("owner"));
    set_extra(metadata, "droid_host_id", value.get("hostId"));
}

/// The block that a plain content item becomes.
pub fn normalize_block(value: &JsonValue) -> (r: ContentBlock)
    ensures
        r@ == normalized_block(value@),
{
    let kind = match value.get_str("type") {
        Some(k) => k.to_string(),
        None => "unknown".to_string(),
    };
    let text = match value.get("text") {
        Some(t) => opt_to_string(t.as_str()),
        None => opt_to_string(value.get_str("content")),
    };
    ContentBlock { kind, text, data: Some(value.deep_copy()) }
}

/// The context of exec values.
pub open spec fn context_of(
    id: Option<String>,
    parent_id: Option<String>,
    role: String,
    timestamp: Option<Timestamp>,
) -> MessageContext {
    MessageContext { id: opt_string(id), parent_id: opt_string(parent_id), role: role@, timestamp }
}

/// Adds a message of `blocks`, unless there are none.
pub fn push_message(
    events: &mut Vec<SessionEvent>,
    id: Option<String>,
    parent_id: Option<String>,
    role: String,
    timestamp: Option<Timestamp>,
    blocks: Vec<ContentBlock>,
)
    ensures
        events_view(final(events)@) == flushed(
            context_of(id, parent_id, role, timestamp),
            events_view(old(events)@),
            blocks_view(blocks@),
        ),
{
    if blocks.len() == 0 {
        return;
    }
    let ghost c = context_of(id, parent_id, role, timestamp);
    let ghost bv = blocks_view(blocks@);
    let e = SessionEvent::Message(
        MessageEvent { id, parent_id, role, timestamp, blocks, metadata: JsonMap::new() },
    );
    proof {
        lemma_events_push(events@, e);
        assert(e@ == message_event(c, bv));
    }
    events.push(e);
}

/// Adds a message of the pending blocks, if there are any, and empties them.
pub fn flush_message_blocks(
    events: &mut Vec<SessionEvent>,
    blocks: &mut Vec<ContentBlock>,
    id: Option<String>,
    parent_id: Option<String>,
    role: String,
    timestamp: Option<Timestamp>,
)
    ensures
        events_view(final(events)@) == flushed(
            context_of(id, parent_id, role, timestamp),
            events_view(old(events)@),
            blocks_view(old(blocks)@),
        ),
        final(blocks)@.len() == 0,
{
    let mut taken: Vec<ContentBlock> = Vec::new();
    std::mem::swap(blocks, &mut taken);
    push_message(events, id, parent_id, role, timestamp, taken);
}

fn is_kind(kind: Option<&str>, name: &str) -> (r: bool)
    ensures
        r == (opt_text(kind) == Some(name@)),
{
    match kind {
        Some(k) => str_eq(k, name),
        None => false,
    }
}

/// Handles one content item of a message: thinking, tool calls and tool
/// results flush the pending blocks and become events; other items are
/// gathered as pending blocks.
fn import_block(
    events: &mut Vec<SessionEvent>,
    message_blocks: &mut Vec<ContentBlock>,
    block: &JsonValue,
    id: &Option<String>,
    parent_id: &Option<String>,
    role: &String,
    timestamp: Option<Timestamp>,
)
    ensures
        (events_view(final(events)@), blocks_view(final(message_blocks)@)) == block_step(
            context_of(*id, *parent_id, *role, timestamp),
            (events_view(old(events)@), blocks_view(old(message_blocks)@)),
            block@,
        ),
{
    let ghost c = context_of(*id, *parent_id, *role, timestamp);
    let kind = block.get_str("type");
    if is_kind(kind, "thinking") {
        flush_message_blocks(events, message_blocks, clone_opt(id), clone_opt(parent_id), role.clone(), timestamp);
        if let Some(text) = block.get_str("thinking") {
            let mut summary: Vec<String> = Vec::new();
            summary.push(text.to_string());
            let e = SessionEvent::Reasoning(
                ReasoningEvent {
                    id: clone_opt(id),
                    parent_id: clone_opt(parent_id),
                    timestamp,
                    summary,
                    metadata: JsonMap::new(),
                },
            );
            proof {
                assert(strings_view(summary@) =~= seq![text@]);
                lemma_events_push(events@, e);
            }
            events.push(e);
        }
        assert(blocks_view(message_blocks@) =~= Seq::<BlockView>::empty());
    } else if is_kind(kind, "tool_use") {
        flush_message_blocks(events, message_blocks, clone_opt(id), clone_opt(parent_id), role.clone(), timestamp);
        let call_id = match block.get_str("id") {
            Some(x) => x.to_string(),
            None => String::new(),
        };
        if !call_id.as_str().is_empty() {
            let name = match block.get_str("name") {
                Some(x) => x.to_string(),
                None => "tool".to_string(),
            };
            let arguments = match block.get("input") {
                Some(x) => x.deep_copy(),
                None => JsonValue::Null,
            };
            let e = SessionEvent::ToolCall(
                ToolCallEvent {
                    id: clone_opt(id),
                    parent_id: clone_opt(parent_id),
                    call_id,
                    name,
                    timestamp,
                    arguments,
                    metadata: JsonMap::new(),
                },
            );
            proof {
                lemma_events_push(events@, e);
            }
            events.push(e);
        }
        assert(blocks_view(message_blocks@) =~= Seq::<BlockView>::empty());
    } else if is_kind(kind, "tool_result") {
        flush_message_blocks(events, message_blocks, clone_opt(id), clone_opt(parent_id), role.clone(), timestamp);
        let call_id = match block.get_str("tool_use_id") {
            Some(x) => x.to_string(),
            None => String::new(),
        };
        if !call_id.as_str().is_empty() {
            let output = match block.get("content") {
                Some(x) => x.deep_copy(),
                None => JsonValue::Null,
            };
            let is_error = match block.get_bool("is_error") {
                Some(x) => x,
                None => false,
            };
            let e = SessionEvent::ToolResult(
                ToolResultEvent {
                    id: clone_opt(id),
                    parent_id: clone_opt(parent_id),
                    call_id,
                    timestamp,
                    output,
                    is_error,
                    metadata: JsonMap::new(),
                },
            );
            proof {
                lemma_events_push(events@, e);
            }
            events.push(e);
        }
        assert(blocks_view(message_blocks@) =~= Seq::<BlockView>::empty());
    } else {
        let b = normalize_block(block);
        proof {
            assert(blocks_view(message_blocks@.push(b)) =~= blocks_view(message_blocks@).push(b@));
        }
        message_blocks.push(b);
    }
}

/// Takes the events of a `message` record into the session's events.
pub fn import_message(events: &mut Vec<SessionEvent>, value: &JsonValue)
    ensures
        events_view(final(events)@) == imported_message(events_view(old(events)@), value@),
{
    let timestamp = read_timestamp(value);
    let id = opt_to_string(value.get_str("id"));
    let parent_id = opt_to_string(value.get_str("parentId"));
    let message = match value.get("message") {
        Some(m) => m,
        None => {
            return;
        },
    };
    let role = match message.get_str("role") {
        Some(r) => r.to_string(),
        None => "user".to_string(),
    };
    let ghost c = context_of(id, parent_id, role, timestamp);
    assert(c == message_context(value@, message@));
    match message.get("content") {
        Some(JsonValue::Str(text)) => {
            let mut blocks: Vec<ContentBlock> = Vec::new();
            blocks.push(ContentBlock::text("text", text.clone()));
            proof {
                assert(blocks_view(blocks@) =~= seq![
                    BlockView { kind: "text"@, text: Some(text@), data: None },
                ]);
            }
            push_message(events, id, parent_id, role, timestamp, blocks);
        },
        Some(JsonValue::Array(blocks)) => {
            let ghost ev0 = events_view(events@);
            let ghost bs = items_model(*blocks, blocks@.len() as int);
            proof {
                crate::json::lemma_items_model(*blocks, blocks@.len() as int);
            }
            let mut message_blocks: Vec<ContentBlock> = Vec::new();
            let n = blocks.len();
            assert(blocks_view(message_blocks@) =~= Seq::<BlockView>::empty());
            for i in 0..n
                invariant
                    n == blocks@.len(),
                    bs.len() == n,
                    forall|j: int| 0 <= j < n ==> #[trigger] bs[j] == json_model(blocks@[j]),
                    c == context_of(id, parent_id, role, timestamp),
                    (events_view(events@), blocks_view(message_blocks@)) == blocks_fold(
                        c,
                        ev0,
                        bs,
                        i as int,
                    ),
            {
                import_block(events, &mut message_blocks, &blocks[i], &id, &parent_id, &role, timestamp);
            }
            flush_message_blocks(events, &mut message_blocks, id, parent_id, role, timestamp);
        },
        _ => {},
    }
}

/// The texts of the blocks that have one, in order.
pub open spec fn block_texts(blocks: Seq<BlockView>) -> Seq<Seq<char>>
    decreases blocks.len(),
{
    if blocks.len() == 0 {
        seq![]
    } else {
        let p = block_texts(blocks.drop_last());
        match blocks.last().text {
            Some(t) => p.push(t),
            None => p,
        }
    }
}

/// The title a user message offers: its block texts joined by spaces, white
/// space collapsed, cut to 80 characters; none when that is empty or the
/// event is not a user message.
pub open spec fn message_title(e: EventView) -> Option<Seq<char>> {
    match e {
        EventView::Message { role, blocks, .. } => if role == "user"@ {
            let t = collapsed(join_with_space(block_texts(blocks)));
            if t.len() > 0 {
                Some(prefix_chars(t, 80))
            } else {
                None
            }
        } else {
            None
        },
        _ => None,
    }
}

/// The title of the first user message that offers one.
pub open spec fn derived_title(events: Seq<EventView>) -> Option<Seq<char>>
    decreases events.len(),
{
    if events.len() == 0 {
        None
    } else {
        match message_title(events[0]) {
            Some(t) => Some(t),
            None => derived_title(events.drop_first()),
        }
    }
}

fn user_message_title(m: &MessageEvent) -> (r: Option<String>)
    ensures
        opt_string(r) == message_title(SessionEvent::Message(*m)@),
{
    if !str_eq(m.role.as_str(), "user") {
        return None;
    }
    let ghost bv = blocks_view(m.blocks@);
    let mut joined = String::new();
    let mut first = true;
    let n = m.blocks.len();
    assert(bv.take(0) =~= Seq::<BlockView>::empty());
    for i in 0..n
        invariant
            n == m.blocks@.len(),
            bv == blocks_view(m.blocks@),
            joined@ == join_with_space(block_texts(bv.take(i as int))),
            first == (block_texts(bv.take(i as int)).len() == 0),
    {
        assert(bv.take(i + 1).drop_last() =~= bv.take(i as int));
        if let Some(t) = &m.blocks[i].text {
            proof {
                crate::text::lemma_join_push(block_texts(bv.take(i as int)), t@);
            }
            if !first {
                crate::text::push_char(&mut joined, ' ');
            }
            joined.append(t.as_str());
            first = false;
            assert(joined@ =~= join_with_space(block_texts(bv.take(i + 1))));
        }
    }
    assert(bv.take(n as int) =~= bv);
    let collapsed_text = collapse_whitespace(joined.as_str());
    if collapsed_text.as_str().is_empty() {
        None
    } else {
        Some(take_chars(collapsed_text.as_str(), 80))
    }
}

/// The title of the first user message whose text is not blank, cut to 80
/// characters.
pub fn derive_title(session: &UniversalSession) -> (r: Option<String>)
    ensures
        opt_string(r) == derived_title(session@.events),
{
    let ghost evs = session@.events;
    let n = session.events.len();
    assert(evs.skip(0) =~= evs);
    for i in 0..n
        invariant
            n == session.events@.len(),
            evs == session@.events,
            derived_title(evs) == derived_title(evs.skip(i as int)),
    {
        assert(evs.skip(i as int)[0] == session.events@[i as int]@);
        assert(evs.skip(i as int).drop_first() =~= evs.skip(i + 1));
        if let SessionEvent::Message(m) = &session.events[i] {
            if let Some(t) = user_message_title(m) {
                return Some(t);
            }
        }
    }
    None
}

/// What a settings document makes of the metadata: it is kept whole as side
/// data, and its `model` member, if a string, becomes the model.
pub open spec fn settings_metadata(m: MetadataView, settings: Json) -> MetadataView {
    let m1 = MetadataView { extra: m.extra.insert("droid_settings"@, settings), ..m };
    match get_str(settings, "model"@) {
        Some(x) => MetadataView { model: Some(x), ..m1 },
        None => m1,
    }
}

/// Takes a Droid settings document into the metadata.
pub fn import_settings_value(metadata: &mut SessionMetadata, settings: &JsonValue)
    ensures
        final(metadata)@ == settings_metadata(old(metadata)@, settings@),
{
    metadata.extra.insert("droid_settings".to_string(), settings.deep_copy());
    if let Some(model) = settings.get_str("model") {
        metadata.model = Some(model.to_string());
    }
}

/// Takes one record of a Droid session file into the session.
pub fn import_record(session: &mut UniversalSession, value: &JsonValue)
    ensures
        final(session)@ == imported_record(old(session)@, value@),
{
    let timestamp = read_timestamp(value);
    update_time_bounds(&mut session.metadata, timestamp);
    let kind = value.get_str("type");
    if is_kind(kind, "session_start") {
        import_session_start(&mut session.metadata, value);
    } else if is_kind(kind, "message") {
        import_message(&mut session.events, value);
    }
}

/// A session after the records `0..n`.
pub open spec fn records_imported(s: SessionView, records: Seq<Json>, n: int) -> SessionView
    decreases n,
{
    if n <= 0 {
        s
    } else {
        imported_record(records_imported(s, records, n - 1), records[n - 1])
    }
}

/// A session given the title of its first user message when it has none.
pub open spec fn titled(s: SessionView) -> SessionView {
    if s.metadata.title is None {
        SessionView {
            metadata: MetadataView { title: derived_title(s.events), ..s.metadata },
            ..s
        }
    } else {
        s
    }
}

/// The values of a list of records.
pub open spec fn records_view(records: Seq<JsonValue>) -> Seq<Json> {
    records.map_values(|v: JsonValue| v@)
}

/// The session a Droid file gives: a fresh Droid session under `fresh_id`,
/// then every record in order, then the settings document if there is one,
/// then a title from the first user message if none was given.
pub open spec fn loaded_session(fresh_id: Seq<char>, records: Seq<Json>, settings: Option<Json>) -> SessionView {
    let s0 = SessionView {
        metadata: MetadataView { source_format: Some(SessionFormat::Droid), ..fresh_metadata(fresh_id) },
        events: seq![],
    };
    let s1 = records_imported(s0, records, records.len() as int);
    let s2 = match settings {
        Some(x) => SessionView { metadata: settings_metadata(s1.metadata, x), ..s1 },
        None => s1,
    };
    titled(s2)
}

/// The session that the records of a Droid file (the non-blank lines, each
/// read as JSON) and its settings document, if any, make, starting from a
/// session under `session_id`.
pub fn load_session_with_id(
    session_id: String,
    records: &Vec<JsonValue>,
    settings: Option<&JsonValue>,
) -> (r: UniversalSession)
    ensures
        r@ == loaded_session(session_id@, records_view(records@), opt_json(settings)),
{
    let ghost rs = records_view(records@);
    let mut session = UniversalSession::new(session_id);
    session.metadata.source_format = Some(SessionFormat::Droid);
    let ghost s0 = session@;
    let n = records.len();
    for i in 0..n
        invariant
            n == records@.len(),
            rs == records_view(records@),
            session@ == records_imported(s0, rs, i as int),
    {
        import_record(&mut session, &records[i]);
    }
    if let Some(x) = settings {
        import_settings_value(&mut session.metadata, x);
    }
    if session.metadata.title.is_none() {
        session.metadata.title = derive_title(&session);
    }
    session
}

/// The session that the records of a Droid file and its settings document
/// make, starting from a session under a fresh random id.
pub fn load_session(records: &Vec<JsonValue>, settings: Option<&JsonValue>) -> (r: UniversalSession)
    ensures
        exists|id: Seq<char>|
            crate::ids::is_v4_uuid(id) && r@ == loaded_session(
                id,
                records_view(records@),
                opt_json(settings),
            ),
{
    let id = crate::ids::new_uuid();
    let ghost g = id@;
    let r = load_session_with_id(id, records, settings);
    assert(crate::ids::is_v4_uuid(g));
    r
}

// ---------------------------------------------------------------------------
// Writing Droid records
// ---------------------------------------------------------------------------

/// The two-entry object `{k1: v1, k2: v2}`.
pub open spec fn object2(k1: Seq<char>, v1: Json, k2: Seq<char>, v2: Json) -> Json {
    Json::Object(seq![(k1, v1), (k2, v2)])
}

/// The text a block is written with: its text (behind the developer prefix
/// in a developer message), else the text of its raw JSON, else nothing.
pub open spec fn block_out_text(b: BlockView, developer: bool) -> Seq<char> {
    match b.text {
        Some(t) => if developer {
            "[transession imported developer message]\n\n"@ + t
        } else {
            t
        },
        None => match b.data {
            Some(d) => json_as_text(d),
            None => seq![],
        },
    }
}

/// The text item a block is written as.
pub open spec fn encoded_block(b: BlockView, developer: bool) -> Json {
    object2("text"@, Json::Str(block_out_text(b, developer)), "type"@, Json::Str("text"@))
}

/// The content a message is written with: `null` when it has no blocks,
/// else one text item per block.
pub open spec fn encoded_blocks(blocks: Seq<BlockView>, role: Seq<char>) -> Json {
    if blocks.len() == 0 {
        Json::Null
    } else {
        Json::Array(
            Seq::new(blocks.len(), |i: int| encoded_block(blocks[i], role == "developer"@)),
        )
    }
}

/// A tool's output as it is written: a string as it is, anything else as its
/// JSON text.
pub open spec fn encoded_output(output: Json) -> Json {
    Json::Str(json_as_text(output))
}

/// The role a message is written under.
pub open spec fn written_role(role: Seq<char>) -> Seq<char> {
    if role == "assistant"@ {
        "assistant"@
    } else {
        "user"@
    }
}

/// The instant and the `message` member of the record an event is written
/// as; none for a message without blocks.
pub open spec fn encoded_event(e: EventView) -> Option<(Option<Timestamp>, Json)> {
    match e {
        EventView::Message { role, timestamp, blocks, .. } => {
            let content = encoded_blocks(blocks, role);
            if content is Null {
                None
            } else {
                Some(
                    (
                        timestamp,
                        object2("content"@, content, "role"@, Json::Str(written_role(role))),
                    ),
                )
            }
        },
        EventView::Reasoning { timestamp, summary, .. } => Some(
            (
                timestamp,
                object2(
                    "content"@,
                    Json::Array(
                        Seq::new(
                            summary.len(),
                            |i: int|
                                object2(
                                    "thinking"@,
                                    Json::Str(summary[i]),
                                    "type"@,
                                    Json::Str("thinking"@),
                                ),
                        ),
                    ),
                    "role"@,
                    Json::Str("assistant"@),
                ),
            ),
        ),
        EventView::ToolCall { call_id, name, timestamp, arguments, .. } => Some(
            (
                timestamp,
                object2(
                    "content"@,
                    Json::Array(
                        seq![
                            Json::Object(
                                seq![
                                    ("id"@, Json::Str(call_id)),
                                    ("input"@, arguments),
                                    ("name"@, Json::Str(name)),
                                    ("type"@, Json::Str("tool_use"@)),
                                ],
                            ),
                        ],
                    ),
                    "role"@,
                    Json::Str("assistant"@),
                ),
            ),
        ),
        EventView::ToolResult { call_id, timestamp, output, is_error, .. } => Some(
            (
                timestamp,
                object2(
                    "content"@,
                    Json::Array(
                        seq![
                            Json::Object(
                                seq![
                                    ("content"@, encoded_output(output)),
                                    ("is_error"@, Json::Bool(is_error)),
                                    ("tool_use_id"@, Json::Str(call_id)),
                                    ("type"@, Json::Str("tool_result"@)),
                                ],
                            ),
                        ],
                    ),
                    "role"@,
                    Json::Str("user"@),
                ),
            ),
        ),
    }
}

/// The keys of the records and items a session is written with, in the
/// order of `String`.
proof fn lemma_written_keys_in_order()
    ensures
        key_lt("cwd"@, "gitBranch"@),
        key_lt("gitBranch"@, "id"@),
        key_lt("id"@, "owner"@),
        key_lt("owner"@, "sessionTitle"@),
        key_lt("sessionTitle"@, "title"@),
        key_lt("title"@, "type"@),
        key_lt("type"@, "version"@),
        key_lt("id"@, "message"@),
        key_lt("message"@, "parentId"@),
        key_lt("parentId"@, "timestamp"@),
        key_lt("timestamp"@, "type"@),
        key_lt("id"@, "timestamp"@),
        key_lt("content"@, "role"@),
        key_lt("text"@, "type"@),
        key_lt("thinking"@, "type"@),
        key_lt("id"@, "input"@),
        key_lt("input"@, "name"@),
        key_lt("name"@, "type"@),
        key_lt("content"@, "is_error"@),
        key_lt("is_error"@, "tool_use_id"@),
        key_lt("tool_use_id"@, "type"@),
{
    reveal_strlit("cwd");
    reveal_strlit("gitBranch");
    reveal_strlit("id");
    reveal_strlit("owner");
    reveal_strlit("sessionTitle");
    reveal_strlit("title");
    reveal_strlit("type");
    reveal_strlit("version");
    reveal_strlit("message");
    reveal_strlit("parentId");
    reveal_strlit("timestamp");
    reveal_strlit("content");
    reveal_strlit("role");
    reveal_strlit("text");
    reveal_strlit("thinking");
    reveal_strlit("input");
    reveal_strlit("name");
    reveal_strlit("is_error");
    reveal_strlit("tool_use_id");
    reveal_with_fuel(key_lt, 3);
}

fn entry(key: &str, value: JsonValue) -> (r: (String, JsonValue))
    ensures
        r.0@ == key@,
        r.1@ == value@,
{
    (key.to_string(), value)
}

fn pair_object(k1: &str, v1: JsonValue, k2: &str, v2: JsonValue) -> (r: JsonValue)
    ensures
        r@ == object2(k1@, v1@, k2@, v2@),
{
    let mut es: Vec<(String, JsonValue)> = Vec::new();
    es.push(entry(k1, v1));
    es.push(entry(k2, v2));
    let r = object_of(es);
    assert(entries_view(es@) =~= seq![(k1@, v1@), (k2@, v2@)]);
    r
}

/// The text a block is written with.
fn block_text_out(block: &ContentBlock, developer: bool) -> (r: String)
    ensures
        r@ == block_out_text(block@, developer),
{
    match &block.text {
        Some(t) => {
            if developer {
                let mut out = "[transession imported developer message]\n\n".to_string();
                out.append(t.as_str());
                out
            } else {
                t.clone()
            }
        },
        None => match &block.data {
            Some(d) => json_to_string(d),
            None => String::new(),
        },
    }
}

/// The content a message is written with.
pub fn encode_message_blocks(blocks: &Vec<ContentBlock>, role: &str) -> (r: JsonValue)
    ensures
        r@ == encoded_blocks(blocks_view(blocks@), role@),
{
    if blocks.len() == 0 {
        return JsonValue::Null;
    }
    let developer = str_eq(role, "developer");
    let ghost bv = blocks_view(blocks@);
    let mut items: Vec<JsonValue> = Vec::new();
    let n = blocks.len();
    for i in 0..n
        invariant
            n == blocks@.len(),
            bv == blocks_view(blocks@),
            developer == (role@ == "developer"@),
            items@.len() == i,
            forall|j: int| 0 <= j < i ==> #[trigger] items@[j]@ == encoded_block(bv[j], developer),
    {
        let text = block_text_out(&blocks[i], developer);
        let item = pair_object("text", JsonValue::Str(text), "type", string_of("text"));
        items.push(item);
    }
    let r = array_of(items);
    assert(values_view(items@) =~= Seq::new(bv.len(), |i: int| encoded_block(bv[i], developer)));
    r
}

/// A tool's output as it is written.
pub fn encode_tool_result_output(output: &JsonValue) -> (r: JsonValue)
    ensures
        r@ == encoded_output(output@),
{
    JsonValue::Str(json_to_string(output))
}

/// The value of an optional encoded event.
pub open spec fn opt_encoded(o: Option<(Option<Timestamp>, JsonValue)>) -> Option<(Option<Timestamp>, Json)> {
    match o {
        Some((t, v)) => Some((t, v@)),
        None => None,
    }
}

fn one_item_array(v: JsonValue) -> (r: JsonValue)
    ensures
        r@ == Json::Array(seq![v@]),
{
    let mut items: Vec<JsonValue> = Vec::new();
    items.push(v);
    let r = array_of(items);
    assert(values_view(items@) =~= seq![v@]);
    r
}

fn four_entry_object(
    k1: &str,
    v1: JsonValue,
    k2: &str,
    v2: JsonValue,
    k3: &str,
    v3: JsonValue,
    k4: &str,
    v4: JsonValue,
) -> (r: JsonValue)
    ensures
        r@ == Json::Object(seq![(k1@, v1@), (k2@, v2@), (k3@, v3@), (k4@, v4@)]),
{
    let mut es: Vec<(String, JsonValue)> = Vec::new();
    es.push(entry(k1, v1));
    es.push(entry(k2, v2));
    es.push(entry(k3, v3));
    es.push(entry(k4, v4));
    let r = object_of(es);
    assert(entries_view(es@) =~= seq![(k1@, v1@), (k2@, v2@), (k3@, v3@), (k4@, v4@)]);
    r
}

/// The instant and the `message` member of the record an event is written as.
pub fn encode_event(event: &SessionEvent) -> (r: Option<(Option<Timestamp>, JsonValue)>)
    ensures
        opt_encoded(r) == encoded_event(event@),
{
    match event {
        SessionEvent::Message(message) => {
            let content = encode_message_blocks(&message.blocks, message.role.as_str());
            if let JsonValue::Null = content {
                return None;
            }
            let role = if str_eq(message.role.as_str(), "assistant") {
                "assistant"
            } else {
                "user"
            };
            Some((message.timestamp, pair_object("content", content, "role", string_of(role))))
        },
        SessionEvent::Reasoning(reasoning) => {
            let ghost sm = crate::ir::strings_view(reasoning.summary@);
            let mut items: Vec<JsonValue> = Vec::new();
            let n = reasoning.summary.len();
            for i in 0..n
                invariant
                    n == reasoning.summary@.len(),
                    sm == crate::ir::strings_view(reasoning.summary@),
                    items@.len() == i,
                    forall|j: int|
                        0 <= j < i ==> #[trigger] items@[j]@ == object2(
                            "thinking"@,
                            Json::Str(sm[j]),
                            "type"@,
                            Json::Str("thinking"@),
                        ),
            {
                let item = pair_object(
                    "thinking",
                    string_of(reasoning.summary[i].as_str()),
                    "type",
                    string_of("thinking"),
                );
                items.push(item);
            }
            let content = array_of(items);
            assert(values_view(items@) =~= Seq::new(
                sm.len(),
                |i: int| object2("thinking"@, Json::Str(sm[i]), "type"@, Json::Str("thinking"@)),
            ));
            Some(
                (reasoning.timestamp, pair_object("content", content, "role", string_of("assistant"))),
            )
        },
        SessionEvent::ToolCall(call) => {
            let item = four_entry_object(
                "id",
                string_of(call.call_id.as_str()),
                "input",
                call.arguments.deep_copy(),
                "name",
                string_of(call.name.as_str()),
                "type",
                string_of("tool_use"),
            );
            Some(
                (
                    call.timestamp,
                    pair_object("content", one_item_array(item), "role", string_of("assistant")),
                ),
            )
        },
        SessionEvent::ToolResult(result) => {
            let item = four_entry_object(
                "content",
                encode_tool_result_output(&result.output),
                "is_error",
                JsonValue::Bool(result.is_error),
                "tool_use_id",
                string_of(result.call_id.as_str()),
                "type",
                string_of("tool_result"),
            );
            Some(
                (
                    result.timestamp,
                    pair_object("content", one_item_array(item), "role", string_of("user")),
                ),
            )
        },
    }
}

/// The events of a session that are written, as (instant, `message` member).
pub open spec fn emitted(events: Seq<EventView>) -> Seq<(Option<Timestamp>, Json)>
    decreases events.len(),
{
    if events.len() == 0 {
        seq![]
    } else {
        let p = emitted(events.drop_last());
        match encoded_event(events.last()) {
            Some(x) => p.push(x),
            None => p,
        }
    }
}

/// The title a session is written with: that of its first user message,
/// else its own title, else `Imported session`.
pub open spec fn written_title(s: SessionView) -> Seq<char> {
    match derived_title(s.events) {
        Some(t) => t,
        None => match s.metadata.title {
            Some(t) => t,
            None => "Imported session"@,
        },
    }
}

/// The working directory a session is written with (`.` when unknown).
pub open spec fn written_cwd(s: SessionView) -> Seq<char> {
    match s.metadata.cwd {
        Some(c) => c,
        None => "."@,
    }
}

/// The `session_start` record of a Droid file; its `gitBranch` member holds
/// the branch hint, or `null` when there is none.
pub open spec fn start_record(id: Seq<char>, title: Seq<char>, cwd: Seq<char>, branch: Option<Seq<char>>) -> Json {
    Json::Object(
        seq![
            ("cwd"@, Json::Str(cwd)),
            ("gitBranch"@, opt_str_json(branch)),
            ("id"@, Json::Str(id)),
            ("owner"@, Json::Str("transession"@)),
            ("sessionTitle"@, Json::Str(title)),
            ("title"@, Json::Str(title)),
            ("type"@, Json::Str("session_start"@)),
            ("version"@, Json::Number("2"@)),
        ],
    )
}

/// An optional text as JSON: a string or `null`.
pub open spec fn opt_str_json(o: Option<Seq<char>>) -> Json {
    match o {
        Some(s) => Json::Str(s),
        None => Json::Null,
    }
}

/// The `message` record with the given id, parent, time text and message.
pub open spec fn message_record(id: Seq<char>, parent: Option<Seq<char>>, time: Seq<char>, message: Json) -> Json {
    Json::Object(
        seq![
            ("id"@, Json::Str(id)),
            ("message"@, message),
            ("parentId"@, opt_str_json(parent)),
            ("timestamp"@, Json::Str(time)),
            ("type"@, Json::Str("message"@)),
        ],
    )
}

/// The `session_end` record with the given id and time text.
pub open spec fn end_record(id: Seq<char>, time: Seq<char>) -> Json {
    Json::Object(
        seq![
            ("id"@, Json::Str(id)),
            ("timestamp"@, Json::Str(time)),
            ("type"@, Json::Str("session_end"@)),
        ],
    )
}

/// The id a record carries, when it is a string.
pub open spec fn record_id(r: Json) -> Option<Seq<char>> {
    get_str(r, "id"@)
}

/// Whether `time` is what a record of an event at `ts` is stamped with: the
/// event's own time, or (when it has none) the text of some instant; an own
/// time with a four-digit year reads back as itself cut to milliseconds.
pub open spec fn is_stamp_for(time: Seq<char>, ts: Option<Timestamp>) -> bool {
    &&& is_instant_text(time)
    &&& (ts matches Some(t) ==> time == timestamp_text_of(t))
    &&& (ts matches Some(t) ==> (four_digit_year(t.instant().0) ==> rfc3339_instant(time)
        == Some(millis_instant(t.instant().0, t.instant().1))))
}

/// Whether `r` is the record of the written event `x` following the record
/// with id `parent`: a fresh random (version 4) UUID as id, and the event's stamp.
pub open spec fn is_message_record_for(r: Json, parent: Option<Seq<char>>, x: (Option<Timestamp>, Json)) -> bool {
    exists|id: Seq<char>, time: Seq<char>|
        crate::ids::is_v4_uuid(id) && is_stamp_for(time, x.0) && r == message_record(
            id,
            parent,
            time,
            x.1,
        )
}

/// Whether `rs` are the records of a Droid file written from session `s`:
/// the start record under the session's Droid id, one message record per
/// written event each naming the one before as parent, and the end record
/// under a fresh random UUID, stamped with the session's last instant.
pub open spec fn are_session_records(s: SessionView, rs: Seq<Json>) -> bool {
    let ms = emitted(s.events);
    &&& rs.len() == ms.len() + 2
    &&& exists|sid: Seq<char>|
        is_droid_session_id_for(s.metadata.session_id, sid) && rs[0] == start_record(
            sid,
            written_title(s),
            written_cwd(s),
            s.metadata.git_branch,
        )
    &&& forall|k: int|
        0 <= k < ms.len() ==> is_message_record_for(
            #[trigger] rs[k + 1],
            if k == 0 {
                None
            } else {
                record_id(rs[k])
            },
            ms[k],
        )
    &&& exists|id: Seq<char>, time: Seq<char>|
        crate::ids::is_v4_uuid(id) && is_stamp_for(time, s.metadata.updated_at)
            && rs[ms.len() + 1int] == end_record(id, time)
}

/// Whether an event, if a tool call, has arguments whose object keys are in
/// order (as every `serde_json::Value` has).
pub open spec fn call_args_sorted(e: EventView) -> bool {
    match e {
        EventView::ToolCall { arguments, .. } => keys_sorted(arguments),
        _ => true,
    }
}

/// Whether every tool call of `evs` has arguments whose object keys are in order.
pub open spec fn all_call_args_sorted(evs: Seq<EventView>) -> bool {
    forall|i: int| 0 <= i < evs.len() ==> call_args_sorted(#[trigger] evs[i])
}

/// The start record has its keys in order.
pub proof fn start_record_sorted(id: Seq<char>, title: Seq<char>, cwd: Seq<char>, branch: Option<Seq<char>>)
    ensures
        keys_sorted(start_record(id, title, cwd, branch)),
{
    lemma_written_keys_in_order();
    let es = seq![
        ("cwd"@, Json::Str(cwd)),
        ("gitBranch"@, opt_str_json(branch)),
        ("id"@, Json::Str(id)),
        ("owner"@, Json::Str("transession"@)),
        ("sessionTitle"@, Json::Str(title)),
        ("title"@, Json::Str(title)),
        ("type"@, Json::Str("session_start"@)),
        ("version"@, Json::Number("2"@)),
    ];
    assert(start_record(id, title, cwd, branch) == Json::Object(es));
    assert(keys_in_order(es));
    assert(keys_sorted(es[1].1));
    lemma_entries_sorted(es, es.len() as int);
}

/// A message record has its keys in order when its message has.
pub proof fn message_record_sorted(id: Seq<char>, parent: Option<Seq<char>>, time: Seq<char>, message: Json)
    requires
        keys_sorted(message),
    ensures
        keys_sorted(message_record(id, parent, time, message)),
{
    lemma_written_keys_in_order();
    let es = seq![
        ("id"@, Json::Str(id)),
        ("message"@, message),
        ("parentId"@, opt_str_json(parent)),
        ("timestamp"@, Json::Str(time)),
        ("type"@, Json::Str("message"@)),
    ];
    assert(message_record(id, parent, time, message) == Json::Object(es));
    assert(keys_in_order(es));
    assert(keys_sorted(es[2].1));
    lemma_entries_sorted(es, es.len() as int);
}

/// The end record has its keys in order.
pub proof fn end_record_sorted(id: Seq<char>, time: Seq<char>)
    ensures
        keys_sorted(end_record(id, time)),
{
    lemma_written_keys_in_order();
    let es = seq![
        ("id"@, Json::Str(id)),
        ("timestamp"@, Json::Str(time)),
        ("type"@, Json::Str("session_end"@)),
    ];
    assert(end_record(id, time) == Json::Object(es));
    assert(keys_in_order(es));
    lemma_entries_sorted(es, es.len() as int);
}

proof fn lemma_object2_sorted(k1: Seq<char>, v1: Json, k2: Seq<char>, v2: Json)
    requires
        key_lt(k1, k2),
        keys_sorted(v1),
        keys_sorted(v2),
    ensures
        keys_sorted(object2(k1, v1, k2, v2)),
{
    let es = seq![(k1, v1), (k2, v2)];
    assert(keys_in_order(es));
    lemma_entries_sorted(es, 2);
}

/// The message an event is written with has its keys in order when the
/// event's tool-call arguments have.
pub proof fn encoded_event_sorted(e: EventView)
    requires
        call_args_sorted(e),
    ensures
        match encoded_event(e) {
            Some(x) => keys_sorted(x.1),
            None => true,
        },
{
    lemma_written_keys_in_order();
    match e {
        EventView::Message { role, blocks, .. } => {
            let dev = role == "developer"@;
            let items = Seq::new(blocks.len(), |i: int| encoded_block(blocks[i], dev));
            assert forall|i: int| 0 <= i < items.len() implies keys_sorted(#[trigger] items[i]) by {
                lemma_object2_sorted(
                    "text"@,
                    Json::Str(block_out_text(blocks[i], dev)),
                    "type"@,
                    Json::Str("text"@),
                );
            }
            lemma_items_sorted(items, items.len() as int);
            if blocks.len() > 0 {
                assert(encoded_blocks(blocks, role) == Json::Array(items));
                lemma_object2_sorted("content"@, Json::Array(items), "role"@, Json::Str(written_role(role)));
            }
        },
        EventView::Reasoning { summary, .. } => {
            let items = Seq::new(
                summary.len(),
                |i: int| object2("thinking"@, Json::Str(summary[i]), "type"@, Json::Str("thinking"@)),
            );
            assert forall|i: int| 0 <= i < items.len() implies keys_sorted(#[trigger] items[i]) by {
                lemma_object2_sorted("thinking"@, Json::Str(summary[i]), "type"@, Json::Str("thinking"@));
            }
            lemma_items_sorted(items, items.len() as int);
            lemma_object2_sorted("content"@, Json::Array(items), "role"@, Json::Str("assistant"@));
        },
        EventView::ToolCall { call_id, name, arguments, .. } => {
            let es = seq![
                ("id"@, Json::Str(call_id)),
                ("input"@, arguments),
                ("name"@, Json::Str(name)),
                ("type"@, Json::Str("tool_use"@)),
            ];
            assert(keys_in_order(es));
            lemma_entries_sorted(es, 4);
            let items = seq![Json::Object(es)];
            lemma_items_sorted(items, 1);
            lemma_object2_sorted("content"@, Json::Array(items), "role"@, Json::Str("assistant"@));
        },
        EventView::ToolResult { call_id, output, is_error, .. } => {
            let es = seq![
                ("content"@, encoded_output(output)),
                ("is_error"@, Json::Bool(is_error)),
                ("tool_use_id"@, Json::Str(call_id)),
                ("type"@, Json::Str("tool_result"@)),
            ];
            assert(keys_in_order(es));
            lemma_entries_sorted(es, 4);
            let items = seq![Json::Object(es)];
            lemma_items_sorted(items, 1);
            lemma_object2_sorted("content"@, Json::Array(items), "role"@, Json::Str("user"@));
        },
    }
}

/// The title a session is written with.
pub fn droid_title(session: &UniversalSession) -> (r: String)
    ensures
        r@ == written_title(session@),
{
    match derive_title(session) {
        Some(t) => t,
        None => match &session.metadata.title {
            Some(t) => t.clone(),
            None => "Imported session".to_string(),
        },
    }
}

/// The `session_start` record of a Droid file.
pub fn session_start_record(id: &str, title: &str, cwd: &str, branch: &Option<String>) -> (r: JsonValue)
    ensures
        r@ == start_record(id@, title@, cwd@, opt_string(*branch)),
        keys_sorted(r@),
{
    proof {
        start_record_sorted(id@, title@, cwd@, opt_string(*branch));
    }
    let branch_value = match branch {
        Some(b) => string_of(b.as_str()),
        None => JsonValue::Null,
    };
    let mut es: Vec<(String, JsonValue)> = Vec::new();
    es.push(entry("cwd", string_of(cwd)));
    es.push(entry("gitBranch", branch_value));
    es.push(entry("id", string_of(id)));
    es.push(entry("owner", string_of("transession")));
    es.push(entry("sessionTitle", string_of(title)));
    es.push(entry("title", string_of(title)));
    es.push(entry("type", string_of("session_start")));
    es.push(entry("version", JsonValue::Number("2".to_string())));
    let r = object_of(es);
    assert(entries_view(es@) =~= seq![
        ("cwd"@, Json::Str(cwd@)),
        ("gitBranch"@, opt_str_json(opt_string(*branch))),
        ("id"@, Json::Str(id@)),
        ("owner"@, Json::Str("transession"@)),
        ("sessionTitle"@, Json::Str(title@)),
        ("title"@, Json::Str(title@)),
        ("type"@, Json::Str("session_start"@)),
        ("version"@, Json::Number("2"@)),
    ]);
    r
}

/// The `message` record with the given id, parent, time text and message.
pub fn message_record_of(id: &str, parent: &Option<String>, time: &str, message: JsonValue) -> (r: JsonValue)
    ensures
        r@ == message_record(id@, opt_string(*parent), time@, message@),
        keys_sorted(message@) ==> keys_sorted(r@),
{
    proof {
        if keys_sorted(message@) {
            message_record_sorted(id@, opt_string(*parent), time@, message@);
        }
    }
    let parent_value = match parent {
        Some(p) => string_of(p.as_str()),
        None => JsonValue::Null,
    };
    let ghost m = message@;
    let mut es: Vec<(String, JsonValue)> = Vec::new();
    es.push(entry("id", string_of(id)));
    es.push(entry("message", message));
    es.push(entry("parentId", parent_value));
    es.push(entry("timestamp", string_of(time)));
    es.push(entry("type", string_of("message")));
    let r = object_of(es);
    assert(entries_view(es@) =~= seq![
        ("id"@, Json::Str(id@)),
        ("message"@, m),
        ("parentId"@, opt_str_json(opt_string(*parent))),
        ("timestamp"@, Json::Str(time@)),
        ("type"@, Json::Str("message"@)),
    ]);
    r
}

/// The `session_end` record with the given id and time text.
pub fn session_end_record(id: &str, time: &str) -> (r: JsonValue)
    ensures
        r@ == end_record(id@, time@),
        keys_sorted(r@),
{
    proof {
        end_record_sorted(id@, time@);
    }
    let mut es: Vec<(String, JsonValue)> = Vec::new();
    es.push(entry("id", string_of(id)));
    es.push(entry("timestamp", string_of(time)));
    es.push(entry("type", string_of("session_end")));
    let r = object_of(es);
    assert(entries_view(es@) =~= seq![
        ("id"@, Json::Str(id@)),
        ("timestamp"@, Json::Str(time@)),
        ("type"@, Json::Str("session_end"@)),
    ]);
    r
}

/// The records of the Droid file that a session is written as, one per line:
/// the start record, a record per written event and the end record.
pub fn session_records(session: &UniversalSession) -> (r: Vec<JsonValue>)
    ensures
        are_session_records(session@, values_view(r@)),
        all_call_args_sorted(session@.events) ==> forall|k: int|
            0 <= k < r@.len() ==> keys_sorted(#[trigger] values_view(r@)[k]),
{
    let ghost sv = session@;
    let ghost evs = sv.events;
    let session_id = droid_session_id(session.metadata.session_id.as_str());
    let title = droid_title(session);
    let cwd = match &session.metadata.cwd {
        Some(c) => c.clone(),
        None => ".".to_string(),
    };
    let mut records: Vec<JsonValue> = Vec::new();
    records.push(
        session_start_record(
            session_id.as_str(),
            title.as_str(),
            cwd.as_str(),
            &session.metadata.git_branch,
        ),
    );
    let ghost start = start_record(session_id@, title@, cwd@, sv.metadata.git_branch);
    let mut previous: Option<String> = None;
    let n = session.events.len();
    assert(evs.take(0) =~= Seq::<EventView>::empty());
    for i in 0..n
        invariant
            n == session.events@.len(),
            sv == session@,
            evs == sv.events,
            records@.len() == emitted(evs.take(i as int)).len() + 1,
            values_view(records@)[0] == start,
            forall|k: int|
                0 <= k < emitted(evs.take(i as int)).len() ==> is_message_record_for(
                    #[trigger] values_view(records@)[k + 1],
                    if k == 0 {
                        None
                    } else {
                        record_id(values_view(records@)[k])
                    },
                    emitted(evs.take(i as int))[k],
                ),
            opt_string(previous) == if emitted(evs.take(i as int)).len() == 0 {
                None
            } else {
                record_id(values_view(records@)[emitted(evs.take(i as int)).len() as int])
            },
            all_call_args_sorted(evs) ==> forall|k: int|
                0 <= k < records@.len() ==> keys_sorted(#[trigger] values_view(records@)[k]),
    {
        let ghost before = records@;
        let ghost ms = emitted(evs.take(i as int));
        assert(evs.take(i + 1).drop_last() =~= evs.take(i as int));
        assert(evs.take(i + 1).last() == session.events@[i as int]@);
        if let Some((ts, message)) = encode_event(&session.events[i]) {
            proof {
                if all_call_args_sorted(evs) {
                    assert(call_args_sorted(evs[i as int]));
                    encoded_event_sorted(evs[i as int]);
                }
            }
            let id = new_uuid();
            let time = event_timestamp(ts);
            let record = message_record_of(id.as_str(), &previous, time.as_str(), message);
            let ghost rv = record@;
            records.push(record);
            proof {
                assert(values_view(records@) =~= values_view(before).push(rv));
                assert(is_message_record_for(rv, opt_string(previous), (ts, message@)));
                assert(record_id(rv) == Some(id@));
            }
            previous = Some(id);
        } else {
            assert(values_view(records@) =~= values_view(before));
        }
    }
    assert(evs.take(n as int) =~= evs);
    let end_id = new_uuid();
    let end_time = event_timestamp(session.metadata.updated_at);
    let ghost before = records@;
    let end = session_end_record(end_id.as_str(), end_time.as_str());
    let ghost ev = end@;
    records.push(end);
    proof {
        let ms = emitted(evs);
        let rs = values_view(records@);
        let rb = values_view(before);
        assert(rs =~= rb.push(ev));
        assert(rs[0] == start_record(
            session_id@,
            written_title(sv),
            written_cwd(sv),
            sv.metadata.git_branch,
        ));
        assert(is_droid_session_id_for(sv.metadata.session_id, session_id@));
        assert forall|k: int| 0 <= k < ms.len() implies is_message_record_for(
            #[trigger] rs[k + 1],
            if k == 0 {
                None
            } else {
                record_id(rs[k])
            },
            ms[k],
        ) by {
            assert(rs[k + 1] == rb[k + 1]);
            assert(k > 0 ==> rs[k] == rb[k]);
        }
        assert(is_stamp_for(end_time@, sv.metadata.updated_at));
        assert(rs[ms.len() + 1int] == end_record(end_id@, end_time@));
    }
    records
}

/// The settings document written beside a session: the Droid settings it
/// was read with, else one naming its model (`default` when unknown).
pub open spec fn written_settings(m: MetadataView) -> Json {
    if m.extra.contains_key("droid_settings"@) {
        m.extra["droid_settings"@]
    } else {
        Json::Object(
            seq![
                (
                    "model"@,
                    Json::Str(
                        match m.model {
                            Some(x) => x,
                            None => "default"@,
                        },
                    ),
                ),
            ],
        )
    }
}

/// The settings document written beside a session.
pub fn settings_value(session: &UniversalSession) -> (r: JsonValue)
    ensures
        r@ == written_settings(session@.metadata),
        (session@.metadata.extra.contains_key("droid_settings"@) ==> keys_sorted(
            session@.metadata.extra["droid_settings"@],
        )) ==> keys_sorted(r@),
{
    match session.metadata.extra.get("droid_settings") {
        Some(v) => v.deep_copy(),
        None => {
            let model = match &session.metadata.model {
                Some(m) => m.clone(),
                None => "default".to_string(),
            };
            let mut es: Vec<(String, JsonValue)> = Vec::new();
            es.push(entry("model", JsonValue::Str(model)));
            let r = object_of(es);
            assert(entries_view(es@) =~= seq![("model"@, Json::Str(model@))]);
            proof {
                let kv = seq![("model"@, Json::Str(model@))];
                assert(keys_in_order(kv));
                lemma_entries_sorted(kv, 1);
            }
            r
        },
    }
}

// ---------------------------------------------------------------------------
// Where a session is written
// ---------------------------------------------------------------------------

/// Where a Droid session is written: the session file, and the settings file
/// beside it when there is one.
#[derive(Debug)]
pub struct DroidMaterialization {
    pub session_file: String,
    pub settings_file: Option<String>,
}

/// The value of a materialization plan.
pub struct MaterializationView {
    pub session_file: Seq<char>,
    pub settings_file: Option<Seq<char>>,
}

impl View for DroidMaterialization {
    type V = MaterializationView;

    open spec fn view(&self) -> MaterializationView {
        MaterializationView {
            session_file: self.session_file@,
            settings_file: opt_string(self.settings_file),
        }
    }
}

/// The files of a session with id `sid` in the Droid home `output`:
/// `sessions/<slug of cwd>/<sid>.jsonl` and `<sid>.settings.json` beside it.
pub open spec fn home_plan(cwd: Seq<char>, output: Seq<char>, sid: Seq<char>) -> MaterializationView {
    let dir = joined_path(joined_path(output, "sessions"@), droid_slug(cwd));
    MaterializationView {
        session_file: joined_path(dir, sid + ".jsonl"@),
        settings_file: Some(joined_path(dir, sid + ".settings.json"@)),
    }
}

/// Where a session goes for the output path `output`: a path with the
/// extension `jsonl` is the session file itself with no settings file;
/// any other path is a Droid home.
pub open spec fn output_plan(s: SessionView, output: Seq<char>, sid: Seq<char>) -> MaterializationView {
    if has_jsonl_extension(output) {
        MaterializationView { session_file: output, settings_file: None }
    } else {
        home_plan(written_cwd(s), output, sid)
    }
}

/// Where a session goes for the output path `output`, the session being
/// stored under the id `session_id`.
pub fn plan_output_with(session: &UniversalSession, output: &str, session_id: &str) -> (r: DroidMaterialization)
    ensures
        r@ == output_plan(session@, output@, session_id@),
{
    if is_jsonl_path(output) {
        return DroidMaterialization { session_file: output.to_string(), settings_file: None };
    }
    let cwd = match &session.metadata.cwd {
        Some(c) => c.clone(),
        None => ".".to_string(),
    };
    let slug = path_to_droid_slug(cwd.as_str());
    let sessions = join_path(output, "sessions");
    let dir = join_path(sessions.as_str(), slug.as_str());
    let mut file_name = session_id.to_string();
    file_name.append(".jsonl");
    let mut settings_name = session_id.to_string();
    settings_name.append(".settings.json");
    DroidMaterialization {
        session_file: join_path(dir.as_str(), file_name.as_str()),
        settings_file: Some(join_path(dir.as_str(), settings_name.as_str())),
    }
}

/// Where a session goes for the output path `output`. For a Droid home the
/// session is stored under its Droid session id.
pub fn plan_output(session: &UniversalSession, output: &str) -> (r: DroidMaterialization)
    ensures
        has_jsonl_extension(output@) ==> r@ == (MaterializationView {
            session_file: output@,
            settings_file: None,
        }),
        !has_jsonl_extension(output@) ==> exists|sid: Seq<char>|
            is_droid_session_id_for(session@.metadata.session_id, sid) && r@ == home_plan(
                written_cwd(session@),
                output@,
                sid,
            ),
{
    let session_id = if is_jsonl_path(output) {
        String::new()
    } else {
        droid_session_id(session.metadata.session_id.as_str())
    };
    let r = plan_output_with(session, output, session_id.as_str());
    proof {
        if !has_jsonl_extension(output@) {
            assert(is_droid_session_id_for(session@.metadata.session_id, session_id@));
            assert(r@ == home_plan(written_cwd(session@), output@, session_id@));
        }
    }
    r
}

} // verus!
