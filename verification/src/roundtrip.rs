use vstd::prelude::*;

use crate::droid::{
    are_session_records, block_out_text, blocks_fold, emitted, encoded_block, encoded_blocks,
    encoded_event, encoded_output, end_record, imported_message, imported_record,
    is_message_record_for, loaded_session, member_or_null, message_context, message_event,
    message_record, normalized_block, object2, opt_str_json, record_id, record_timestamp,
    records_imported, start_record, str_or_empty, written_cwd, written_role, written_title,
    MessageContext,
};
use crate::ids::is_droid_session_id_for;
use crate::ir::{BlockView, EventView, MetadataView, SessionFormat, SessionView};
use crate::json::{get_str, json_as_text, json_bool, json_get, lookup, Json};
use crate::text::is_blank;
use crate::time::{four_digit_year, instant_timestamp, lemma_instant_timestamp, millis_instant, Timestamp};

verus! {

proof fn lemma_keys()
    ensures
        "id"@ != "message"@,
        "id"@ != "parentId"@,
        "id"@ != "timestamp"@,
        "id"@ != "type"@,
        "message"@ != "parentId"@,
        "message"@ != "timestamp"@,
        "message"@ != "type"@,
        "parentId"@ != "timestamp"@,
        "parentId"@ != "type"@,
        "timestamp"@ != "type"@,
        "content"@ != "role"@,
        "text"@ != "type"@,
        "thinking"@ != "type"@,
        "text"@ != "thinking"@,
        "text"@ != "tool_use"@,
        "text"@ != "tool_result"@,
        "thinking"@ != "tool_use"@,
        "thinking"@ != "tool_result"@,
        "tool_use"@ != "tool_result"@,
        "id"@ != "input"@,
        "id"@ != "name"@,
        "input"@ != "name"@,
        "input"@ != "type"@,
        "name"@ != "type"@,
        "content"@ != "is_error"@,
        "content"@ != "tool_use_id"@,
        "content"@ != "type"@,
        "is_error"@ != "tool_use_id"@,
        "is_error"@ != "type"@,
        "tool_use_id"@ != "type"@,
{
    reveal_strlit("id");
    reveal_strlit("message");
    reveal_strlit("parentId");
    reveal_strlit("timestamp");
    reveal_strlit("type");
    reveal_strlit("content");
    reveal_strlit("role");
    reveal_strlit("text");
    reveal_strlit("thinking");
    reveal_strlit("tool_use");
    reveal_strlit("tool_result");
    reveal_strlit("input");
    reveal_strlit("name");
    reveal_strlit("is_error");
    reveal_strlit("tool_use_id");
    assert("message"@[0] != "parentId"@[0]);
    assert("message"@[0] != "timestamp"@[0]);
    assert("text"@[1] != "type"@[1]);
    assert("thinking"@[1] != "type"@[1]);
    assert("text"@[1] != "thinking"@[1]);
    assert("id"@[0] != "input"@[0] || "id"@.len() != "input"@.len());
    assert("input"@[0] != "name"@[0]);
    assert("name"@[0] != "type"@[0]);
    assert("content"@[0] != "is_error"@[0]);
    assert("tool_use"@.len() != "tool_result"@.len());
}

/// The entry at `j` is the first with key `q`, so lookup finds it.
proof fn lemma_lookup_at(es: Seq<(Seq<char>, Json)>, j: int, q: Seq<char>)
    requires
        0 <= j < es.len(),
        es[j].0 == q,
        forall|i: int| 0 <= i < j ==> es[i].0 != q,
    ensures
        lookup(es, q) == Some(es[j].1),
    decreases j,
{
    if j > 0 {
        assert(es[0].0 != q);
        assert forall|i: int| 0 <= i < j - 1 implies es.drop_first()[i].0 != q by {
            assert(es.drop_first()[i] == es[i + 1]);
        }
        lemma_lookup_at(es.drop_first(), j - 1, q);
    }
}

/// No entry has key `q`, so lookup finds nothing.
proof fn lemma_lookup_absent(es: Seq<(Seq<char>, Json)>, q: Seq<char>)
    requires
        forall|i: int| 0 <= i < es.len() ==> es[i].0 != q,
    ensures
        lookup(es, q) is None,
    decreases es.len(),
{
    if es.len() > 0 {
        assert(es[0].0 != q);
        assert forall|i: int| 0 <= i < es.len() - 1 implies es.drop_first()[i].0 != q by {
            assert(es.drop_first()[i] == es[i + 1]);
        }
        lemma_lookup_absent(es.drop_first(), q);
    }
}

/// Members of a two-entry object with distinct keys.
proof fn lemma_object2(k1: Seq<char>, v1: Json, k2: Seq<char>, v2: Json)
    requires
        k1 != k2,
    ensures
        json_get(object2(k1, v1, k2, v2), k1) == Some(v1),
        json_get(object2(k1, v1, k2, v2), k2) == Some(v2),
{
    let es = seq![(k1, v1), (k2, v2)];
    lemma_lookup_at(es, 0, k1);
    lemma_lookup_at(es, 1, k2);
}

/// The context of the record that a written event reads back under.
pub open spec fn reread_context(
    id: Seq<char>,
    parent: Option<Seq<char>>,
    role: Seq<char>,
    time: Seq<char>,
) -> MessageContext {
    MessageContext { id: Some(id), parent_id: parent, role, timestamp: instant_timestamp(time) }
}

/// The blocks a written message reads back as: one text block per block,
/// carrying the text it was written with and the item it was written as.
pub open spec fn reread_blocks(blocks: Seq<BlockView>, developer: bool) -> Seq<BlockView> {
    Seq::new(
        blocks.len(),
        |i: int|
            BlockView {
                kind: "text"@,
                text: Some(block_out_text(blocks[i], developer)),
                data: Some(encoded_block(blocks[i], developer)),
            },
    )
}

proof fn lemma_message_fold(c: MessageContext, evs: Seq<EventView>, blocks: Seq<BlockView>, developer: bool, n: int)
    requires
        0 <= n <= blocks.len(),
    ensures
        blocks_fold(
            c,
            evs,
            Seq::new(blocks.len(), |i: int| encoded_block(blocks[i], developer)),
            n,
        ) == (evs, reread_blocks(blocks, developer).take(n)),
    decreases n,
{
    let items = Seq::new(blocks.len(), |i: int| encoded_block(blocks[i], developer));
    if n == 0 {
        assert(reread_blocks(blocks, developer).take(0) =~= Seq::<BlockView>::empty());
    } else {
        lemma_message_fold(c, evs, blocks, developer, n - 1);
        lemma_keys();
        let item = items[n - 1];
        assert(item == encoded_block(blocks[n - 1], developer));
        lemma_object2("text"@, Json::Str(block_out_text(blocks[n - 1], developer)), "type"@, Json::Str("text"@));
        assert(get_str(item, "type"@) == Some("text"@));
        assert(json_get(item, "text"@) == Some(Json::Str(block_out_text(blocks[n - 1], developer))));
        assert(normalized_block(item) == reread_blocks(blocks, developer)[n - 1]);
        assert(reread_blocks(blocks, developer).take(n - 1).push(
            reread_blocks(blocks, developer)[n - 1],
        ) =~= reread_blocks(blocks, developer).take(n));
    }
}

/// The members of a `message` record.
proof fn lemma_message_record(id: Seq<char>, parent: Option<Seq<char>>, time: Seq<char>, msg: Json)
    ensures
        json_get(message_record(id, parent, time, msg), "message"@) == Some(msg),
        get_str(message_record(id, parent, time, msg), "id"@) == Some(id),
        get_str(message_record(id, parent, time, msg), "parentId"@) == parent,
        get_str(message_record(id, parent, time, msg), "timestamp"@) == Some(time),
        get_str(message_record(id, parent, time, msg), "type"@) == Some("message"@),
        record_timestamp(message_record(id, parent, time, msg)) == instant_timestamp(time),
{
    lemma_keys();
    let es = seq![
        ("id"@, Json::Str(id)),
        ("message"@, msg),
        ("parentId"@, opt_str_json(parent)),
        ("timestamp"@, Json::Str(time)),
        ("type"@, Json::Str("message"@)),
    ];
    assert(message_record(id, parent, time, msg) == Json::Object(es));
    lemma_lookup_at(es, 0, "id"@);
    lemma_lookup_at(es, 1, "message"@);
    lemma_lookup_at(es, 2, "parentId"@);
    lemma_lookup_at(es, 3, "timestamp"@);
    lemma_lookup_at(es, 4, "type"@);
}

/// The events a written event reads back as from its record, with the id,
/// parent id and time text of that record: a message with its blocks as
/// text blocks; one reasoning event per summary line; a tool call or a tool
/// result with its output as text, unless its call id is empty.
pub open spec fn reread_event(
    e: EventView,
    id: Seq<char>,
    parent: Option<Seq<char>>,
    time: Seq<char>,
) -> Seq<EventView> {
    let ts = instant_timestamp(time);
    match e {
        EventView::Message { role, blocks, .. } => if blocks.len() == 0 {
            seq![]
        } else {
            seq![
                EventView::Message {
                    id: Some(id),
                    parent_id: parent,
                    role: written_role(role),
                    timestamp: ts,
                    blocks: reread_blocks(blocks, role == "developer"@),
                    metadata: Map::empty(),
                },
            ]
        },
        EventView::Reasoning { summary, .. } => Seq::new(
            summary.len(),
            |i: int|
                EventView::Reasoning {
                    id: Some(id),
                    parent_id: parent,
                    timestamp: ts,
                    summary: seq![summary[i]],
                    metadata: Map::empty(),
                },
        ),
        EventView::ToolCall { call_id, name, arguments, .. } => if call_id.len() == 0 {
            seq![]
        } else {
            seq![
                EventView::ToolCall {
                    id: Some(id),
                    parent_id: parent,
                    call_id,
                    name,
                    timestamp: ts,
                    arguments,
                    metadata: Map::empty(),
                },
            ]
        },
        EventView::ToolResult { call_id, output, is_error, .. } => if call_id.len() == 0 {
            seq![]
        } else {
            seq![
                EventView::ToolResult {
                    id: Some(id),
                    parent_id: parent,
                    call_id,
                    timestamp: ts,
                    output: Json::Str(json_as_text(output)),
                    is_error,
                    metadata: Map::empty(),
                },
            ]
        },
    }
}

proof fn lemma_reasoning_fold(
    c: MessageContext,
    evs: Seq<EventView>,
    summary: Seq<Seq<char>>,
    n: int,
)
    requires
        0 <= n <= summary.len(),
    ensures
        blocks_fold(
            c,
            evs,
            Seq::new(
                summary.len(),
                |i: int|
                    object2(
                        "thinking"@,
                        Json::Str(summary[i]),
                        "type"@,
                        Json::Str("thinking"@),
                    ),
            ),
            n,
        ) == (
            evs + Seq::new(
                n as nat,
                |i: int|
                    EventView::Reasoning {
                        id: c.id,
                        parent_id: c.parent_id,
                        timestamp: c.timestamp,
                        summary: seq![summary[i]],
                        metadata: Map::empty(),
                    },
            ),
            Seq::<BlockView>::empty(),
        ),
    decreases n,
{
    let f = |i: int|
        EventView::Reasoning {
            id: c.id,
            parent_id: c.parent_id,
            timestamp: c.timestamp,
            summary: seq![summary[i]],
            metadata: Map::empty(),
        };
    if n == 0 {
        assert(evs + Seq::new(0, f) =~= evs);
    } else {
        lemma_reasoning_fold(c, evs, summary, n - 1);
        lemma_keys();
        lemma_object2("thinking"@, Json::Str(summary[n - 1]), "type"@, Json::Str("thinking"@));
        assert((evs + Seq::new((n - 1) as nat, f)).push(f(n - 1)) =~= evs + Seq::new(n as nat, f));
    }
}

/// Reading the record of a written event back adds exactly the events that
/// `reread_event` gives.
pub proof fn written_event_reads_back(
    evs: Seq<EventView>,
    e: EventView,
    id: Seq<char>,
    parent: Option<Seq<char>>,
    time: Seq<char>,
)
    requires
        encoded_event(e) is Some,
    ensures
        imported_message(evs, message_record(id, parent, time, (encoded_event(e)->0).1)) == evs
            + reread_event(e, id, parent, time),
{
    let msg = (encoded_event(e)->0).1;
    let r = message_record(id, parent, time, msg);
    lemma_message_record(id, parent, time, msg);
    lemma_keys();
    match e {
        EventView::Message { role, blocks, .. } => {
            let dev = role == "developer"@;
            let items = Seq::new(blocks.len(), |i: int| encoded_block(blocks[i], dev));
            assert(encoded_blocks(blocks, role) == Json::Array(items)) by {
                assert(Seq::new(blocks.len(), |i: int| encoded_block(blocks[i], role == "developer"@))
                    =~= items);
            }
            lemma_object2("content"@, Json::Array(items), "role"@, Json::Str(written_role(role)));
            let c = message_context(r, msg);
            lemma_message_fold(c, evs, blocks, dev, blocks.len() as int);
            assert(reread_blocks(blocks, dev).take(blocks.len() as int) =~= reread_blocks(blocks, dev));
            assert(evs.push(message_event(c, reread_blocks(blocks, dev))) =~= evs + reread_event(
                e,
                id,
                parent,
                time,
            ));
        },
        EventView::Reasoning { summary, .. } => {
            let items = Seq::new(
                summary.len(),
                |i: int|
                    object2(
                        "thinking"@,
                        Json::Str(summary[i]),
                        "type"@,
                        Json::Str("thinking"@),
                    ),
            );
            lemma_object2("content"@, Json::Array(items), "role"@, Json::Str("assistant"@));
            let c = message_context(r, msg);
            lemma_reasoning_fold(c, evs, summary, summary.len() as int);
            assert(evs + Seq::new(
                summary.len(),
                |i: int|
                    EventView::Reasoning {
                        id: c.id,
                        parent_id: c.parent_id,
                        timestamp: c.timestamp,
                        summary: seq![summary[i]],
                        metadata: Map::empty(),
                    },
            ) =~= evs + reread_event(e, id, parent, time));
        },
        EventView::ToolCall { call_id, name, arguments, .. } => {
            let es = seq![
                ("id"@, Json::Str(call_id)),
                ("input"@, arguments),
                ("name"@, Json::Str(name)),
                ("type"@, Json::Str("tool_use"@)),
            ];
            let item = Json::Object(es);
            lemma_lookup_at(es, 0, "id"@);
            lemma_lookup_at(es, 1, "input"@);
            lemma_lookup_at(es, 2, "name"@);
            lemma_lookup_at(es, 3, "type"@);
            lemma_object2("content"@, Json::Array(seq![item]), "role"@, Json::Str("assistant"@));
            let c = message_context(r, msg);
            assert(seq![item][0] == item);
            assert(blocks_fold(c, evs, seq![item], 0) == (evs, Seq::<BlockView>::empty()));
            assert(str_or_empty(item, "id"@) == call_id);
            assert(member_or_null(item, "input"@) == arguments);
            assert(evs + reread_event(e, id, parent, time) =~= blocks_fold(c, evs, seq![item], 1).0);
            assert(blocks_fold(c, evs, seq![item], 1).1 =~= Seq::<BlockView>::empty());
        },
        EventView::ToolResult { call_id, output, is_error, .. } => {
            let es = seq![
                ("content"@, encoded_output(output)),
                ("is_error"@, Json::Bool(is_error)),
                ("tool_use_id"@, Json::Str(call_id)),
                ("type"@, Json::Str("tool_result"@)),
            ];
            let item = Json::Object(es);
            lemma_lookup_at(es, 0, "content"@);
            lemma_lookup_at(es, 1, "is_error"@);
            lemma_lookup_at(es, 2, "tool_use_id"@);
            lemma_lookup_at(es, 3, "type"@);
            lemma_object2("content"@, Json::Array(seq![item]), "role"@, Json::Str("user"@));
            let c = message_context(r, msg);
            assert(seq![item][0] == item);
            assert(blocks_fold(c, evs, seq![item], 0) == (evs, Seq::<BlockView>::empty()));
            assert(str_or_empty(item, "tool_use_id"@) == call_id);
            assert(member_or_null(item, "content"@) == encoded_output(output));
            assert(json_bool(json_get(item, "is_error"@)) == Some(is_error));
            assert(evs + reread_event(e, id, parent, time) =~= blocks_fold(c, evs, seq![item], 1).0);
            assert(blocks_fold(c, evs, seq![item], 1).1 =~= Seq::<BlockView>::empty());
        },
    }
}

/// The events of a session that are written, in order.
pub open spec fn written_events(events: Seq<EventView>) -> Seq<EventView>
    decreases events.len(),
{
    if events.len() == 0 {
        seq![]
    } else {
        let p = written_events(events.drop_last());
        if encoded_event(events.last()) is Some {
            p.push(events.last())
        } else {
            p
        }
    }
}

proof fn lemma_written_events(events: Seq<EventView>)
    ensures
        emitted(events).len() == written_events(events).len(),
        forall|k: int|
            0 <= k < emitted(events).len() ==> encoded_event(#[trigger] written_events(events)[k])
                == Some(emitted(events)[k]),
    decreases events.len(),
{
    if events.len() > 0 {
        lemma_written_events(events.drop_last());
    }
}

/// The time text a record is stamped with.
pub open spec fn record_time(r: Json) -> Seq<char> {
    get_str(r, "timestamp"@)->0
}

/// The events that the message records `rs[1..=n]` of the written events
/// `ws` read back as.
pub open spec fn reread_records(ws: Seq<EventView>, rs: Seq<Json>, n: int) -> Seq<EventView>
    decreases n,
{
    if n <= 0 {
        seq![]
    } else {
        reread_records(ws, rs, n - 1) + reread_event(
            ws[n - 1],
            record_id(rs[n])->0,
            if n == 1 {
                None
            } else {
                record_id(rs[n - 1])
            },
            record_time(rs[n]),
        )
    }
}

proof fn lemma_start_keys()
    ensures
        "cwd"@ != "id"@,
        "cwd"@ != "owner"@,
        "cwd"@ != "sessionTitle"@,
        "cwd"@ != "title"@,
        "cwd"@ != "type"@,
        "id"@ != "owner"@,
        "id"@ != "sessionTitle"@,
        "id"@ != "title"@,
        "id"@ != "type"@,
        "owner"@ != "sessionTitle"@,
        "owner"@ != "title"@,
        "owner"@ != "type"@,
        "sessionTitle"@ != "title"@,
        "sessionTitle"@ != "type"@,
        "title"@ != "type"@,
        "session_start"@ != "message"@,
        "session_end"@ != "message"@,
        "session_end"@ != "session_start"@,
        "id"@ != "timestamp"@,
        "timestamp"@ != "type"@,
        "cwd"@ != "gitBranch"@,
        "gitBranch"@ != "id"@,
        "gitBranch"@ != "owner"@,
        "gitBranch"@ != "sessionTitle"@,
        "gitBranch"@ != "title"@,
        "gitBranch"@ != "type"@,
{
    reveal_strlit("cwd");
    reveal_strlit("id");
    reveal_strlit("owner");
    reveal_strlit("sessionTitle");
    reveal_strlit("title");
    reveal_strlit("type");
    reveal_strlit("session_start");
    reveal_strlit("session_end");
    reveal_strlit("message");
    reveal_strlit("timestamp");
    assert("cwd"@[0] != "id"@[0]);
    assert("cwd"@[0] != "owner"@[0]);
    assert("cwd"@[0] != "title"@[0]);
    assert("cwd"@[0] != "type"@[0]);
    assert("id"@[0] != "owner"@[0]);
    assert("title"@[1] != "type"@[1]);
    assert("session_start"@[8] != "session_end"@[8]);
    assert("session_start"@[0] != "message"@[0]);
    assert("session_end"@[0] != "message"@[0]);
    assert("owner"@[0] != "title"@[0]);
    assert("owner"@[0] != "type"@[0]);
    assert("owner"@[0] != "sessionTitle"@[0]);
    assert("id"@[0] != "title"@[0]);
    assert("id"@[0] != "type"@[0]);
    assert("id"@[0] != "timestamp"@[0]);
    reveal_strlit("gitBranch");
    assert("cwd"@[0] != "gitBranch"@[0]);
    assert("gitBranch"@[0] != "id"@[0]);
    assert("gitBranch"@[0] != "owner"@[0]);
    assert("gitBranch"@[0] != "sessionTitle"@[0]);
    assert("gitBranch"@[0] != "title"@[0]);
    assert("gitBranch"@[0] != "type"@[0]);
}

proof fn lemma_start_record(id: Seq<char>, title: Seq<char>, cwd: Seq<char>, branch: Option<Seq<char>>)
    ensures
        get_str(start_record(id, title, cwd, branch), "type"@) == Some("session_start"@),
        get_str(start_record(id, title, cwd, branch), "id"@) == Some(id),
        get_str(start_record(id, title, cwd, branch), "cwd"@) == Some(cwd),
        get_str(start_record(id, title, cwd, branch), "gitBranch"@) == branch,
        json_get(start_record(id, title, cwd, branch), "sessionTitle"@) == Some(Json::Str(title)),
{
    lemma_start_keys();
    let es = seq![
        ("cwd"@, Json::Str(cwd)),
        ("gitBranch"@, opt_str_json(branch)),
        ("id"@, Json::Str(id)),
        ("owner"@, Json::Str("transession"@)),
        ("sessionTitle"@, Json::Str(title)),
        ("title"@, Json::Str(title)),
        ("type"@, Json::Str("session_start"@)),
        ("version"@, Json::Number("2"@)),
    ];
    assert(start_record(id, title, cwd, branch) == Json::Object(es));
    lemma_lookup_at(es, 0, "cwd"@);
    lemma_lookup_at(es, 1, "gitBranch"@);
    lemma_lookup_at(es, 2, "id"@);
    lemma_lookup_at(es, 4, "sessionTitle"@);
    lemma_lookup_at(es, 6, "type"@);
}

proof fn lemma_end_record(id: Seq<char>, time: Seq<char>)
    ensures
        get_str(end_record(id, time), "type"@) == Some("session_end"@),
{
    lemma_start_keys();
    let es = seq![
        ("id"@, Json::Str(id)),
        ("timestamp"@, Json::Str(time)),
        ("type"@, Json::Str("session_end"@)),
    ];
    assert(end_record(id, time) == Json::Object(es));
    lemma_lookup_at(es, 2, "type"@);
}

/// The metadata a session is read back with from its start record.
pub open spec fn reread_metadata_ok(m: MetadataView, s: SessionView) -> bool {
    &&& is_droid_session_id_for(s.metadata.session_id, m.session_id)
    &&& m.original_session_id == Some(m.session_id)
    &&& m.source_format == Some(SessionFormat::Droid)
    &&& m.cwd == Some(written_cwd(s))
    &&& m.git_branch == s.metadata.git_branch
    &&& !is_blank(written_title(s)) ==> m.title == Some(written_title(s))
}

proof fn lemma_reread_prefix(s: SessionView, rs: Seq<Json>, s0: SessionView, sid: Seq<char>, n: int)
    requires
        are_session_records(s, rs),
        s0.events == Seq::<EventView>::empty(),
        is_droid_session_id_for(s.metadata.session_id, sid),
        rs[0] == start_record(sid, written_title(s), written_cwd(s), s.metadata.git_branch),
        s0.metadata.git_branch is None,
        1 <= n <= emitted(s.events).len() + 1,
    ensures
        records_imported(s0, rs, n).events == reread_records(written_events(s.events), rs, n - 1),
        reread_metadata_ok(records_imported(s0, rs, n).metadata, s),
    decreases n,
{
    let ms = emitted(s.events);
    let ws = written_events(s.events);
    lemma_written_events(s.events);
    lemma_start_keys();
    if n == 1 {
        lemma_start_record(sid, written_title(s), written_cwd(s), s.metadata.git_branch);
        assert(records_imported(s0, rs, 1).events =~= reread_records(ws, rs, 0));
    } else {
        lemma_reread_prefix(s, rs, s0, sid, n - 1);
        let m = n - 1;
        let parent = if m - 1 == 0 {
            None
        } else {
            record_id(rs[m - 1])
        };
        assert(is_message_record_for(rs[(m - 1) + 1], parent, ms[m - 1]));
        let (id, time) = choose|id: Seq<char>, time: Seq<char>|
            #![trigger message_record(id, parent, time, ms[m - 1].1)]
            crate::ids::is_v4_uuid(id) && crate::droid::is_stamp_for(time, ms[m - 1].0)
                && rs[m] == message_record(id, parent, time, ms[m - 1].1);
        lemma_message_record(id, parent, time, ms[m - 1].1);
        let prev = records_imported(s0, rs, m);
        assert(encoded_event(ws[m - 1]) == Some(ms[m - 1]));
        written_event_reads_back(prev.events, ws[m - 1], id, parent, time);
        assert(record_id(rs[m]) == Some(id));
        assert(record_time(rs[m]) == time);
    }
}

/// Reading back the records a session was written as gives, after the
/// start record, the session's Droid id, working directory, branch hint and
/// (unless it is blank) title, and after each record of a written event the events
/// `reread_event` gives for it.
pub proof fn written_session_reads_back(
    s: SessionView,
    rs: Seq<Json>,
    fresh_id: Seq<char>,
    settings: Option<Json>,
)
    requires
        are_session_records(s, rs),
    ensures
        loaded_session(fresh_id, rs, settings).events == reread_records(
            written_events(s.events),
            rs,
            written_events(s.events).len() as int,
        ),
        reread_metadata_ok(loaded_session(fresh_id, rs, settings).metadata, s),
{
    let ms = emitted(s.events);
    let ws = written_events(s.events);
    lemma_written_events(s.events);
    let k = ms.len() as int;
    let s0 = SessionView {
        metadata: MetadataView {
            source_format: Some(SessionFormat::Droid),
            ..crate::ir::fresh_metadata(fresh_id)
        },
        events: seq![],
    };
    let sid = choose|sid: Seq<char>|
        is_droid_session_id_for(s.metadata.session_id, sid) && rs[0] == start_record(
            sid,
            written_title(s),
            written_cwd(s),
            s.metadata.git_branch,
        );
    lemma_reread_prefix(s, rs, s0, sid, k + 1);
    let end_id = choose|id: Seq<char>, time: Seq<char>|
        #![trigger end_record(id, time)]
        crate::ids::is_v4_uuid(id) && crate::droid::is_stamp_for(time, s.metadata.updated_at)
            && rs[ms.len() + 1int] == end_record(id, time);
    lemma_end_record(end_id.0, end_id.1);
    lemma_start_keys();
    assert(rs[k + 1] == end_record(end_id.0, end_id.1));
    let last = records_imported(s0, rs, k + 1);
    assert(records_imported(s0, rs, k + 2) == imported_record(last, rs[k + 1]));
    assert(get_str(rs[k + 1], "type"@) == Some("session_end"@));
    assert(records_imported(s0, rs, k + 2).events == last.events);
}


/// The instant an event carries, if any.
pub open spec fn event_time(e: EventView) -> Option<Timestamp> {
    match e {
        EventView::Message { timestamp, .. } => timestamp,
        EventView::Reasoning { timestamp, .. } => timestamp,
        EventView::ToolCall { timestamp, .. } => timestamp,
        EventView::ToolResult { timestamp, .. } => timestamp,
    }
}

/// The record of every written event is stamped so that the event's own
/// instant, when its year has four digits, reads back as that instant cut
/// to milliseconds (the instant the events read back from that record carry).
pub proof fn written_times_read_back(s: SessionView, rs: Seq<Json>)
    requires
        are_session_records(s, rs),
    ensures
        forall|k: int|
            #![trigger written_events(s.events)[k]]
            0 <= k < written_events(s.events).len() ==> (event_time(written_events(s.events)[k])
                matches Some(t) ==> (four_digit_year(t.instant().0) ==> (instant_timestamp(
                record_time(rs[k + 1]),
            ) matches Some(u) && u.instant() == millis_instant(t.instant().0, t.instant().1)))),
{
    let ms = emitted(s.events);
    let ws = written_events(s.events);
    lemma_written_events(s.events);
    assert forall|k: int|
        #![trigger written_events(s.events)[k]]
        0 <= k < ws.len() implies (event_time(ws[k]) matches Some(t) ==> (four_digit_year(
        t.instant().0,
    ) ==> (instant_timestamp(record_time(rs[k + 1])) matches Some(u) && u.instant()
        == millis_instant(t.instant().0, t.instant().1)))) by {
        if let Some(t) = event_time(ws[k]) {
            if four_digit_year(t.instant().0) {
                let parent = if k == 0 {
                    None
                } else {
                    record_id(rs[k])
                };
                assert(is_message_record_for(rs[k + 1], parent, ms[k]));
                let (id, time) = choose|id: Seq<char>, time: Seq<char>|
                    #![trigger message_record(id, parent, time, ms[k].1)]
                    crate::ids::is_v4_uuid(id) && crate::droid::is_stamp_for(time, ms[k].0)
                        && rs[k + 1] == message_record(id, parent, time, ms[k].1);
                lemma_message_record(id, parent, time, ms[k].1);
                assert(encoded_event(ws[k]) == Some(ms[k]));
                assert(ms[k].0 == event_time(ws[k]));
                assert(record_time(rs[k + 1]) == time);
                lemma_instant_timestamp(time);
            }
        }
    }
}

/// The role Droid knows an event by: `assistant` for an assistant message,
/// reasoning and tool calls; `user` for every other message (developer and
/// system messages among them) and for tool results.
pub open spec fn droid_role_of(e: EventView) -> Seq<char> {
    match e {
        EventView::Message { role, .. } => if role == "assistant"@ {
            "assistant"@
        } else {
            "user"@
        },
        EventView::Reasoning { .. } => "assistant"@,
        EventView::ToolCall { .. } => "assistant"@,
        EventView::ToolResult { .. } => "user"@,
    }
}

/// Every message an event is written as has the role `user` or `assistant`,
/// and a message is written as `assistant` exactly when its own role is
/// `assistant`.
pub proof fn written_roles(e: EventView)
    ensures
        match encoded_event(e) {
            Some(x) => get_str(x.1, "role"@) == Some(droid_role_of(e)),
            None => true,
        },
        droid_role_of(e) == "user"@ || droid_role_of(e) == "assistant"@,
        e is Message ==> (droid_role_of(e) == "assistant"@ <==> e->role == "assistant"@),
{
    lemma_keys();
    if let Some(x) = encoded_event(e) {
        match e {
            EventView::Message { role, blocks, .. } => {
                lemma_object2("content"@, encoded_blocks(blocks, role), "role"@, Json::Str(written_role(role)));
            },
            EventView::Reasoning { summary, .. } => {
                let items = Seq::new(
                    summary.len(),
                    |i: int| object2("thinking"@, Json::Str(summary[i]), "type"@, Json::Str("thinking"@)),
                );
                lemma_object2("content"@, Json::Array(items), "role"@, Json::Str("assistant"@));
            },
            EventView::ToolCall { .. } => {
                lemma_object2("content"@, (x.1)->Object_0[0].1, "role"@, Json::Str("assistant"@));
            },
            EventView::ToolResult { .. } => {
                lemma_object2("content"@, (x.1)->Object_0[0].1, "role"@, Json::Str("user"@));
            },
        }
    }
    reveal_strlit("user");
    reveal_strlit("assistant");
    assert("user"@[0] != "assistant"@[0]);
}

/// The role of the message a record holds, if it holds one with a string role.
pub open spec fn record_role(r: Json) -> Option<Seq<char>> {
    match json_get(r, "message"@) {
        Some(m) => get_str(m, "role"@),
        None => None,
    }
}

/// In the records a session is written as, the message of the record of each
/// written event has the role Droid knows that event by.
pub proof fn written_record_roles(s: SessionView, rs: Seq<Json>)
    requires
        are_session_records(s, rs),
    ensures
        forall|k: int|
            #![trigger written_events(s.events)[k]]
            0 <= k < written_events(s.events).len() ==> record_role(rs[k + 1]) == Some(
                droid_role_of(written_events(s.events)[k]),
            ),
{
    let ms = emitted(s.events);
    let ws = written_events(s.events);
    lemma_written_events(s.events);
    assert forall|k: int|
        #![trigger written_events(s.events)[k]]
        0 <= k < written_events(s.events).len() implies record_role(rs[k + 1]) == Some(
        droid_role_of(written_events(s.events)[k]),
    ) by {
        let parent = if k == 0 {
            None
        } else {
            record_id(rs[k])
        };
        assert(is_message_record_for(rs[k + 1], parent, ms[k]));
        let (id, time) = choose|id: Seq<char>, time: Seq<char>|
            #![trigger message_record(id, parent, time, ms[k].1)]
            crate::ids::is_v4_uuid(id) && crate::droid::is_stamp_for(time, ms[k].0)
                && rs[k + 1] == message_record(id, parent, time, ms[k].1);
        lemma_message_record(id, parent, time, ms[k].1);
        assert(encoded_event(ws[k]) == Some(ms[k]));
        written_roles(ws[k]);
    }
}

/// Every block of a message is written as one text item, in order: its text
/// (behind the line `[transession imported developer message]` and a blank
/// line in a developer message), else the JSON text of the item it came
/// from, else nothing; a message without blocks is not written.
pub proof fn written_block_texts(e: EventView)
    ensures
        match e {
            EventView::Message { role, blocks, .. } => {
                &&& (encoded_event(e) is None <==> blocks.len() == 0)
                &&& match encoded_event(e) {
                    Some(x) => match json_get(x.1, "content"@) {
                        Some(Json::Array(items)) => {
                            &&& items.len() == blocks.len()
                            &&& forall|i: int|
                                0 <= i < blocks.len() ==> get_str(#[trigger] items[i], "type"@)
                                    == Some("text"@) && get_str(items[i], "text"@) == Some(
                                    match blocks[i].text {
                                        Some(t) => if role == "developer"@ {
                                            "[transession imported developer message]\n\n"@ + t
                                        } else {
                                            t
                                        },
                                        None => match blocks[i].data {
                                            Some(d) => json_as_text(d),
                                            None => seq![],
                                        },
                                    },
                                )
                        },
                        _ => false,
                    },
                    None => true,
                }
            },
            _ => true,
        },
{
    lemma_keys();
    if let EventView::Message { role, blocks, .. } = e {
        if blocks.len() > 0 {
            let dev = role == "developer"@;
            let items = Seq::new(blocks.len(), |i: int| encoded_block(blocks[i], dev));
            assert(encoded_blocks(blocks, role) == Json::Array(items));
            lemma_object2("content"@, Json::Array(items), "role"@, Json::Str(written_role(role)));
            assert forall|i: int| 0 <= i < blocks.len() implies get_str(#[trigger] items[i], "type"@)
                == Some("text"@) && get_str(items[i], "text"@) == Some(block_out_text(blocks[i], dev)) by {
                lemma_object2(
                    "text"@,
                    Json::Str(block_out_text(blocks[i], dev)),
                    "type"@,
                    Json::Str("text"@),
                );
            }
        }
    }
}

} // verus!
