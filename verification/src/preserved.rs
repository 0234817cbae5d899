use vstd::prelude::*;

use crate::droid::{
    are_session_records, block_out_text, block_step, blocks_fold, encoded_event, encoded_output,
    flushed, imported_message, loaded_session, message_context, message_event, normalized_block,
    written_role, MessageContext,
};
use crate::json::{get_str, json_get};
use crate::ir::{BlockView, EventView, SessionView};
use crate::json::Json;
use crate::droid::record_id;
use crate::roundtrip::{
    event_time, record_time, reread_blocks, reread_event, reread_records, written_events,
    written_session_reads_back, written_times_read_back,
};
use crate::time::{four_digit_year, instant_timestamp, lemma_instant_eq, Timestamp};

verus! {

/// What each event contributes, `f` applied to every event in turn and the
/// results laid end to end.
pub open spec fn gather<T>(evs: Seq<EventView>, f: spec_fn(EventView) -> Seq<T>) -> Seq<T>
    decreases evs.len(),
{
    if evs.len() == 0 {
        seq![]
    } else {
        gather(evs.drop_last(), f) + f(evs.last())
    }
}

proof fn lemma_gather_append<T>(a: Seq<EventView>, b: Seq<EventView>, f: spec_fn(EventView) -> Seq<T>)
    ensures
        gather(a + b, f) == gather(a, f) + gather(b, f),
    decreases b.len(),
{
    if b.len() == 0 {
        assert(a + b =~= a);
        assert(gather(a, f) + gather(b, f) =~= gather(a, f));
    } else {
        lemma_gather_append(a, b.drop_last(), f);
        assert((a + b).drop_last() =~= a + b.drop_last());
        assert((a + b).last() == b.last());
        assert(gather(a, f) + gather(b.drop_last(), f) + f(b.last()) =~= gather(a, f) + (gather(
            b.drop_last(),
            f,
        ) + f(b.last())));
    }
}

proof fn lemma_gather_one<T>(e: EventView, f: spec_fn(EventView) -> Seq<T>)
    ensures
        gather(seq![e], f) == f(e),
{
    let one = seq![e];
    assert(one.drop_last() =~= Seq::<EventView>::empty());
    assert(one.last() == e);
    assert(gather(one.drop_last(), f) == Seq::<T>::empty());
    assert(Seq::<T>::empty() + f(e) =~= f(e));
}

proof fn lemma_gather_nothing<T>(evs: Seq<EventView>, f: spec_fn(EventView) -> Seq<T>)
    ensures
        gather(evs, f).len() == 0 <==> forall|i: int| 0 <= i < evs.len() ==> f(#[trigger] evs[i]).len() == 0,
    decreases evs.len(),
{
    if evs.len() > 0 {
        lemma_gather_nothing(evs.drop_last(), f);
        assert forall|i: int| 0 <= i < evs.len() - 1 implies #[trigger] evs.drop_last()[i] == evs[i] by {}
        if gather(evs, f).len() == 0 {
            assert forall|i: int| 0 <= i < evs.len() implies f(#[trigger] evs[i]).len() == 0 by {
                if i < evs.len() - 1 {
                    assert(evs.drop_last()[i] == evs[i]);
                }
            }
        }
        if forall|i: int| 0 <= i < evs.len() ==> f(#[trigger] evs[i]).len() == 0 {
            assert(f(evs[evs.len() - 1]).len() == 0);
            assert forall|i: int| 0 <= i < evs.len() - 1 implies f(#[trigger] evs.drop_last()[i]).len() == 0 by {
                assert(evs.drop_last()[i] == evs[i]);
            }
        }
    }
}

/// The events that the record of the written event `ws[k]` reads back as.
pub open spec fn reread_at(ws: Seq<EventView>, rs: Seq<Json>, k: int) -> Seq<EventView> {
    reread_event(
        ws[k],
        record_id(rs[k + 1])->0,
        if k == 0 {
            None
        } else {
            record_id(rs[k])
        },
        record_time(rs[k + 1]),
    )
}

/// What the written events `ws` read back as, gathered by `f`, is what the
/// events themselves give by `g`, when that holds of each of them.
proof fn lemma_gather_reread<T>(
    ws: Seq<EventView>,
    rs: Seq<Json>,
    n: int,
    f: spec_fn(EventView) -> Seq<T>,
    g: spec_fn(EventView) -> Seq<T>,
)
    requires
        0 <= n <= ws.len(),
        forall|k: int| 0 <= k < ws.len() ==> #[trigger] gather(reread_at(ws, rs, k), f) == g(ws[k]),
    ensures
        gather(reread_records(ws, rs, n), f) == gather(ws.take(n), g),
    decreases n,
{
    if n > 0 {
        lemma_gather_reread(ws, rs, n - 1, f, g);
        let ev = reread_at(ws, rs, n - 1);
        lemma_gather_append(reread_records(ws, rs, n - 1), ev, f);
        assert(gather(ev, f) == g(ws[n - 1]));
        assert(ws.take(n).drop_last() =~= ws.take(n - 1));
        assert(ws.take(n).last() == ws[n - 1]);
    }
}

/// Events that are not written contribute nothing by `g`, so gathering the
/// written events gives what gathering all of them gives.
proof fn lemma_gather_written<T>(evs: Seq<EventView>, g: spec_fn(EventView) -> Seq<T>)
    requires
        forall|e: EventView| encoded_event(e) is None ==> #[trigger] g(e) == Seq::<T>::empty(),
    ensures
        gather(written_events(evs), g) == gather(evs, g),
    decreases evs.len(),
{
    if evs.len() > 0 {
        lemma_gather_written(evs.drop_last(), g);
        let p = written_events(evs.drop_last());
        if encoded_event(evs.last()) is Some {
            lemma_gather_append(p, seq![evs.last()], g);
            lemma_gather_one(evs.last(), g);
            assert(p.push(evs.last()) =~= p + seq![evs.last()]);
        } else {
            assert(g(evs.last()) == Seq::<T>::empty());
            assert(gather(evs.drop_last(), g) + g(evs.last()) =~= gather(evs.drop_last(), g));
        }
    }
}

/// The events a session reads back as, once written, gathered by `f`, are
/// what its events give by `g`.
proof fn lemma_gather_session<T>(
    s: SessionView,
    rs: Seq<Json>,
    fresh_id: Seq<char>,
    settings: Option<Json>,
    f: spec_fn(EventView) -> Seq<T>,
    g: spec_fn(EventView) -> Seq<T>,
)
    requires
        are_session_records(s, rs),
        forall|k: int|
            0 <= k < written_events(s.events).len() ==> #[trigger] gather(
                reread_at(written_events(s.events), rs, k),
                f,
            ) == g(written_events(s.events)[k]),
        forall|e: EventView| encoded_event(e) is None ==> #[trigger] g(e) == Seq::<T>::empty(),
    ensures
        gather(loaded_session(fresh_id, rs, settings).events, f) == gather(s.events, g),
{
    let ws = written_events(s.events);
    written_session_reads_back(s, rs, fresh_id, settings);
    lemma_gather_reread(ws, rs, ws.len() as int, f, g);
    assert(ws.take(ws.len() as int) =~= ws);
    lemma_gather_written(s.events, g);
}

proof fn lemma_written_from(evs: Seq<EventView>)
    ensures
        forall|k: int|
            0 <= k < written_events(evs).len() ==> exists|i: int|
                0 <= i < evs.len() && #[trigger] written_events(evs)[k] == evs[i],
    decreases evs.len(),
{
    if evs.len() > 0 {
        lemma_written_from(evs.drop_last());
        let p = written_events(evs.drop_last());
        assert forall|k: int| 0 <= k < written_events(evs).len() implies exists|i: int|
            0 <= i < evs.len() && #[trigger] written_events(evs)[k] == evs[i] by {
            if k < p.len() {
                let i = choose|i: int|
                    0 <= i < evs.drop_last().len() && p[k] == evs.drop_last()[i];
                assert(written_events(evs)[k] == p[k]);
                assert(evs[i] == evs.drop_last()[i]);
            } else {
                assert(written_events(evs)[k] == evs[evs.len() - 1]);
            }
        }
    }
}

proof fn lemma_reread_nothing<T>(e: EventView, id: Seq<char>, parent: Option<Seq<char>>, time: Seq<char>, f: spec_fn(EventView) -> Seq<T>)
    requires
        forall|i: int|
            0 <= i < reread_event(e, id, parent, time).len() ==> f(
                #[trigger] reread_event(e, id, parent, time)[i],
            ).len() == 0,
    ensures
        gather(reread_event(e, id, parent, time), f) == Seq::<T>::empty(),
{
    lemma_gather_nothing(reread_event(e, id, parent, time), f);
}

// ---------------------------------------------------------------------------
// Tool calls
// ---------------------------------------------------------------------------

/// What a tool call with a call id contributes: its call id, name and arguments.
pub open spec fn call_items() -> spec_fn(EventView) -> Seq<(Seq<char>, Seq<char>, Json)> {
    |e: EventView|
        match e {
            EventView::ToolCall { call_id, name, arguments, .. } => if call_id.len() > 0 {
                seq![(call_id, name, arguments)]
            } else {
                seq![]
            },
            _ => seq![],
        }
}

/// The tool calls with a call id, as (call id, name, arguments), in order.
pub open spec fn tool_calls(evs: Seq<EventView>) -> Seq<(Seq<char>, Seq<char>, Json)> {
    gather(evs, call_items())
}

proof fn lemma_reread_calls(e: EventView, id: Seq<char>, parent: Option<Seq<char>>, time: Seq<char>)
    ensures
        gather(reread_event(e, id, parent, time), call_items()) == call_items()(e),
{
    let r = reread_event(e, id, parent, time);
    match e {
        EventView::ToolCall { call_id, .. } => {
            if call_id.len() > 0 {
                lemma_gather_one(r[0], call_items());
                assert(r =~= seq![r[0]]);
            } else {
                assert(r =~= Seq::<EventView>::empty());
            }
        },
        _ => {
            assert forall|i: int| 0 <= i < r.len() implies call_items()(#[trigger] r[i]).len() == 0 by {}
            lemma_reread_nothing(e, id, parent, time, call_items());
        },
    }
}

/// Writing a session and reading it back keeps its tool calls that have a
/// call id: the same call ids, names and arguments, in the same order.
pub proof fn tool_calls_read_back(s: SessionView, rs: Seq<Json>, fresh_id: Seq<char>, settings: Option<Json>)
    requires
        are_session_records(s, rs),
    ensures
        tool_calls(loaded_session(fresh_id, rs, settings).events) == tool_calls(s.events),
{
    let ws = written_events(s.events);
    assert forall|k: int| 0 <= k < ws.len() implies #[trigger] gather(reread_at(ws, rs, k), call_items())
        == call_items()(ws[k]) by {
        lemma_reread_calls(
            ws[k],
            record_id(rs[k + 1])->0,
            if k == 0 {
                None
            } else {
                record_id(rs[k])
            },
            record_time(rs[k + 1]),
        );
    }
    lemma_gather_session(s, rs, fresh_id, settings, call_items(), call_items());
}

// ---------------------------------------------------------------------------
// Tool results
// ---------------------------------------------------------------------------

/// What a tool result with a call id contributes: its call id, output and
/// error flag.
pub open spec fn result_items() -> spec_fn(EventView) -> Seq<(Seq<char>, Json, bool)> {
    |e: EventView|
        match e {
            EventView::ToolResult { call_id, output, is_error, .. } => if call_id.len() > 0 {
                seq![(call_id, output, is_error)]
            } else {
                seq![]
            },
            _ => seq![],
        }
}

/// What a tool result with a call id contributes once written: its call id,
/// its output as it is written, and its error flag.
pub open spec fn written_result_items() -> spec_fn(EventView) -> Seq<(Seq<char>, Json, bool)> {
    |e: EventView|
        match e {
            EventView::ToolResult { call_id, output, is_error, .. } => if call_id.len() > 0 {
                seq![(call_id, encoded_output(output), is_error)]
            } else {
                seq![]
            },
            _ => seq![],
        }
}

/// The tool results with a call id, as (call id, output, error flag), in order.
pub open spec fn tool_results(evs: Seq<EventView>) -> Seq<(Seq<char>, Json, bool)> {
    gather(evs, result_items())
}

/// The tool results with a call id as they are written: (call id, output as
/// written, error flag), in order.
pub open spec fn written_tool_results(evs: Seq<EventView>) -> Seq<(Seq<char>, Json, bool)> {
    gather(evs, written_result_items())
}

proof fn lemma_reread_results(e: EventView, id: Seq<char>, parent: Option<Seq<char>>, time: Seq<char>)
    ensures
        gather(reread_event(e, id, parent, time), result_items()) == written_result_items()(e),
{
    let r = reread_event(e, id, parent, time);
    match e {
        EventView::ToolResult { call_id, .. } => {
            if call_id.len() > 0 {
                lemma_gather_one(r[0], result_items());
                assert(r =~= seq![r[0]]);
            } else {
                assert(r =~= Seq::<EventView>::empty());
            }
        },
        _ => {
            assert forall|i: int| 0 <= i < r.len() implies result_items()(#[trigger] r[i]).len() == 0 by {}
            lemma_reread_nothing(e, id, parent, time, result_items());
        },
    }
}

/// Writing a session and reading it back keeps its tool results that have a
/// call id: the same call ids and error flags, in the same order, each with
/// its output as it was written (a string as it is, anything else as JSON text).
pub proof fn tool_results_read_back(s: SessionView, rs: Seq<Json>, fresh_id: Seq<char>, settings: Option<Json>)
    requires
        are_session_records(s, rs),
    ensures
        tool_results(loaded_session(fresh_id, rs, settings).events) == written_tool_results(s.events),
{
    let ws = written_events(s.events);
    assert forall|k: int| 0 <= k < ws.len() implies #[trigger] gather(reread_at(ws, rs, k), result_items())
        == written_result_items()(ws[k]) by {
        lemma_reread_results(
            ws[k],
            record_id(rs[k + 1])->0,
            if k == 0 {
                None
            } else {
                record_id(rs[k])
            },
            record_time(rs[k + 1]),
        );
    }
    lemma_gather_session(s, rs, fresh_id, settings, result_items(), written_result_items());
}

// ---------------------------------------------------------------------------
// Reasoning
// ---------------------------------------------------------------------------

/// What a reasoning event contributes: its summary lines.
pub open spec fn summary_items() -> spec_fn(EventView) -> Seq<Seq<char>> {
    |e: EventView|
        match e {
            EventView::Reasoning { summary, .. } => summary,
            _ => seq![],
        }
}

/// The summary lines of all reasoning events, in order.
pub open spec fn reasoning_lines(evs: Seq<EventView>) -> Seq<Seq<char>> {
    gather(evs, summary_items())
}

/// What a reasoning event with other than one summary line contributes: itself.
pub open spec fn multi_line_reasoning() -> spec_fn(EventView) -> Seq<EventView> {
    |e: EventView|
        match e {
            EventView::Reasoning { summary, .. } => if summary.len() == 1 {
                seq![]
            } else {
                seq![e]
            },
            _ => seq![],
        }
}

/// Whether every reasoning event has exactly one summary line.
pub open spec fn one_line_reasoning(evs: Seq<EventView>) -> bool {
    forall|i: int|
        0 <= i < evs.len() ==> (#[trigger] evs[i] matches EventView::Reasoning { summary, .. }
            ==> summary.len() == 1)
}

proof fn lemma_reasoning_lines(
    c: EventView,
    summary: Seq<Seq<char>>,
    id: Seq<char>,
    parent: Option<Seq<char>>,
    time: Seq<char>,
    n: int,
)
    requires
        c matches EventView::Reasoning { summary: s, .. } && s == summary,
        0 <= n <= summary.len(),
    ensures
        gather(reread_event(c, id, parent, time).take(n), summary_items()) == summary.take(n),
        gather(reread_event(c, id, parent, time).take(n), multi_line_reasoning()).len() == 0,
    decreases n,
{
    let r = reread_event(c, id, parent, time);
    if n == 0 {
        assert(r.take(0) =~= Seq::<EventView>::empty());
        assert(summary.take(0) =~= Seq::<Seq<char>>::empty());
    } else {
        lemma_reasoning_lines(c, summary, id, parent, time, n - 1);
        assert(r.take(n).drop_last() =~= r.take(n - 1));
        assert(r.take(n).last() == r[n - 1]);
        assert(summary_items()(r[n - 1]) =~= seq![summary[n - 1]]);
        assert(summary.take(n - 1) + seq![summary[n - 1]] =~= summary.take(n));
    }
}

proof fn lemma_reread_reasoning(e: EventView, id: Seq<char>, parent: Option<Seq<char>>, time: Seq<char>)
    ensures
        gather(reread_event(e, id, parent, time), summary_items()) == summary_items()(e),
        gather(reread_event(e, id, parent, time), multi_line_reasoning()) == Seq::<EventView>::empty(),
{
    let r = reread_event(e, id, parent, time);
    match e {
        EventView::Reasoning { summary, .. } => {
            lemma_reasoning_lines(e, summary, id, parent, time, summary.len() as int);
            assert(r.take(r.len() as int) =~= r);
            assert(summary.take(summary.len() as int) =~= summary);
        },
        _ => {
            assert forall|i: int| 0 <= i < r.len() implies summary_items()(#[trigger] r[i]).len() == 0 by {}
            lemma_reread_nothing(e, id, parent, time, summary_items());
        },
    }
    assert forall|i: int| 0 <= i < r.len() implies multi_line_reasoning()(#[trigger] r[i]).len() == 0 by {}
    lemma_reread_nothing(e, id, parent, time, multi_line_reasoning());
}

/// Writing a session and reading it back keeps the summary lines of its
/// reasoning, in order, and every reasoning event read back holds exactly one line.
pub proof fn reasoning_read_back(s: SessionView, rs: Seq<Json>, fresh_id: Seq<char>, settings: Option<Json>)
    requires
        are_session_records(s, rs),
    ensures
        reasoning_lines(loaded_session(fresh_id, rs, settings).events) == reasoning_lines(s.events),
        one_line_reasoning(loaded_session(fresh_id, rs, settings).events),
{
    let ws = written_events(s.events);
    let none = |e: EventView| Seq::<EventView>::empty();
    assert forall|k: int| 0 <= k < ws.len() implies #[trigger] gather(reread_at(ws, rs, k), summary_items())
        == summary_items()(ws[k]) by {
        lemma_reread_reasoning(
            ws[k],
            record_id(rs[k + 1])->0,
            if k == 0 {
                None
            } else {
                record_id(rs[k])
            },
            record_time(rs[k + 1]),
        );
    }
    lemma_gather_session(s, rs, fresh_id, settings, summary_items(), summary_items());
    assert forall|k: int| 0 <= k < ws.len() implies #[trigger] gather(reread_at(ws, rs, k), multi_line_reasoning())
        == none(ws[k]) by {
        lemma_reread_reasoning(
            ws[k],
            record_id(rs[k + 1])->0,
            if k == 0 {
                None
            } else {
                record_id(rs[k])
            },
            record_time(rs[k + 1]),
        );
    }
    lemma_gather_session(s, rs, fresh_id, settings, multi_line_reasoning(), none);
    let evs = s.events;
    assert forall|i: int| 0 <= i < evs.len() implies none(#[trigger] evs[i]).len() == 0 by {}
    lemma_gather_nothing(evs, none);
    let loaded = loaded_session(fresh_id, rs, settings).events;
    lemma_gather_nothing(loaded, multi_line_reasoning());
    assert forall|i: int| 0 <= i < loaded.len() implies (#[trigger] loaded[i] matches EventView::Reasoning { summary, .. }
        ==> summary.len() == 1) by {
        assert(multi_line_reasoning()(loaded[i]).len() == 0);
    }
}

// ---------------------------------------------------------------------------
// Messages
// ---------------------------------------------------------------------------

/// The texts of a message's blocks, in order.
pub open spec fn block_text_list(blocks: Seq<BlockView>) -> Seq<Option<Seq<char>>> {
    Seq::new(blocks.len(), |i: int| blocks[i].text)
}

/// What a message with blocks contributes: its role and the texts of its blocks.
pub open spec fn message_items() -> spec_fn(EventView) -> Seq<(Seq<char>, Seq<Option<Seq<char>>>)> {
    |e: EventView|
        match e {
            EventView::Message { role, blocks, .. } => if blocks.len() > 0 {
                seq![(role, block_text_list(blocks))]
            } else {
                seq![]
            },
            _ => seq![],
        }
}

/// The messages with blocks, as (role, texts of the blocks), in order.
pub open spec fn message_texts(evs: Seq<EventView>) -> Seq<(Seq<char>, Seq<Option<Seq<char>>>)> {
    gather(evs, message_items())
}

/// Whether an event, if a message, is a user or assistant message whose
/// blocks all have text.
pub open spec fn is_plain(e: EventView) -> bool {
    e matches EventView::Message { role, blocks, .. } ==> (role == "user"@ || role == "assistant"@)
        && forall|j: int| 0 <= j < blocks.len() ==> (#[trigger] blocks[j]).text is Some
}

/// Whether every message is a user or assistant message whose blocks all
/// have text.
pub open spec fn plain_messages(evs: Seq<EventView>) -> bool {
    forall|i: int| 0 <= i < evs.len() ==> is_plain(#[trigger] evs[i])
}

/// Whether an event, if a message, has blocks, all of kind `text`.
pub open spec fn is_text_message(e: EventView) -> bool {
    e matches EventView::Message { blocks, .. } ==> blocks.len() > 0 && forall|j: int|
        0 <= j < blocks.len() ==> (#[trigger] blocks[j]).kind == "text"@
}

/// Whether every message has blocks, all of kind `text`.
pub open spec fn text_messages(evs: Seq<EventView>) -> bool {
    forall|i: int| 0 <= i < evs.len() ==> is_text_message(#[trigger] evs[i])
}

/// What a message that is not a text message contributes: itself.
pub open spec fn non_text_messages() -> spec_fn(EventView) -> Seq<EventView> {
    |e: EventView|
        if is_text_message(e) {
            seq![]
        } else {
            seq![e]
        }
}

proof fn lemma_roles()
    ensures
        "user"@ != "developer"@,
        "assistant"@ != "developer"@,
{
    reveal_strlit("user");
    reveal_strlit("assistant");
    reveal_strlit("developer");
    assert("user"@[0] != "developer"@[0]);
    assert("assistant"@[0] != "developer"@[0]);
}

proof fn lemma_reread_messages(e: EventView, id: Seq<char>, parent: Option<Seq<char>>, time: Seq<char>)
    ensures
        gather(reread_event(e, id, parent, time), non_text_messages()) == Seq::<EventView>::empty(),
        is_plain(e) ==> gather(reread_event(e, id, parent, time), message_items())
            == message_items()(e),
{
    let r = reread_event(e, id, parent, time);
    match e {
        EventView::Message { role, blocks, .. } => {
            if blocks.len() == 0 {
                assert(r =~= Seq::<EventView>::empty());
            } else {
                let dev = role == "developer"@;
                let rb = reread_blocks(blocks, dev);
                assert(r =~= seq![r[0]]);
                lemma_gather_one(r[0], message_items());
                lemma_gather_one(r[0], non_text_messages());
                assert(is_text_message(r[0])) by {
                    assert forall|j: int| 0 <= j < rb.len() implies (#[trigger] rb[j]).kind == "text"@ by {}
                }
                if is_plain(e) {
                    lemma_roles();
                    assert(!dev);
                    assert(written_role(role) == role);
                    assert(block_text_list(rb) =~= block_text_list(blocks)) by {
                        assert forall|j: int| 0 <= j < blocks.len() implies block_text_list(rb)[j]
                            == block_text_list(blocks)[j] by {
                            assert(blocks[j].text is Some);
                            assert(block_out_text(blocks[j], false) == blocks[j].text->0);
                        }
                    }
                }
            }
        },
        _ => {
            assert forall|i: int| 0 <= i < r.len() implies message_items()(#[trigger] r[i]).len() == 0 by {}
            lemma_reread_nothing(e, id, parent, time, message_items());
            assert forall|i: int| 0 <= i < r.len() implies non_text_messages()(#[trigger] r[i]).len() == 0 by {}
            lemma_reread_nothing(e, id, parent, time, non_text_messages());
        },
    }
}

/// Writing a session whose messages are user or assistant messages with text
/// in every block and reading it back keeps its messages that have blocks,
/// one for one and in order, with the same roles and block texts; every
/// message read back has blocks, all of kind `text`.
pub proof fn messages_read_back(s: SessionView, rs: Seq<Json>, fresh_id: Seq<char>, settings: Option<Json>)
    requires
        are_session_records(s, rs),
        plain_messages(s.events),
    ensures
        message_texts(loaded_session(fresh_id, rs, settings).events) == message_texts(s.events),
        text_messages(loaded_session(fresh_id, rs, settings).events),
{
    let ws = written_events(s.events);
    lemma_written_from(s.events);
    assert forall|k: int| 0 <= k < ws.len() implies #[trigger] gather(reread_at(ws, rs, k), message_items())
        == message_items()(ws[k]) by {
        let i = choose|i: int| 0 <= i < s.events.len() && ws[k] == s.events[i];
        assert(is_plain(s.events[i]));
        lemma_reread_messages(
            ws[k],
            record_id(rs[k + 1])->0,
            if k == 0 {
                None
            } else {
                record_id(rs[k])
            },
            record_time(rs[k + 1]),
        );
    }
    lemma_gather_session(s, rs, fresh_id, settings, message_items(), message_items());
    let none = |e: EventView| Seq::<EventView>::empty();
    assert forall|k: int| 0 <= k < ws.len() implies #[trigger] gather(reread_at(ws, rs, k), non_text_messages())
        == none(ws[k]) by {
        lemma_reread_messages(
            ws[k],
            record_id(rs[k + 1])->0,
            if k == 0 {
                None
            } else {
                record_id(rs[k])
            },
            record_time(rs[k + 1]),
        );
    }
    lemma_gather_session(s, rs, fresh_id, settings, non_text_messages(), none);
    let evs = s.events;
    assert forall|i: int| 0 <= i < evs.len() implies none(#[trigger] evs[i]).len() == 0 by {}
    lemma_gather_nothing(evs, none);
    let loaded = loaded_session(fresh_id, rs, settings).events;
    lemma_gather_nothing(loaded, non_text_messages());
    assert forall|i: int| 0 <= i < loaded.len() implies is_text_message(#[trigger] loaded[i]) by {
        assert(non_text_messages()(loaded[i]).len() == 0);
    }
}

// ---------------------------------------------------------------------------
// Instants
// ---------------------------------------------------------------------------

/// How many events the record of an event reads back as: one for a message
/// with blocks, a tool call or a tool result with a call id, one per summary
/// line for reasoning, none otherwise.
pub open spec fn reread_count(e: EventView) -> nat {
    match e {
        EventView::Message { blocks, .. } => if blocks.len() > 0 {
            1
        } else {
            0
        },
        EventView::Reasoning { summary, .. } => summary.len(),
        EventView::ToolCall { call_id, .. } => if call_id.len() > 0 {
            1
        } else {
            0
        },
        EventView::ToolResult { call_id, .. } => if call_id.len() > 0 {
            1
        } else {
            0
        },
    }
}

/// What an event contributes: its instant.
pub open spec fn time_items() -> spec_fn(EventView) -> Seq<Option<Timestamp>> {
    |e: EventView| seq![event_time(e)]
}

/// What an event contributes once written and read back: its instant, once
/// for each event its record reads back as.
pub open spec fn written_time_items() -> spec_fn(EventView) -> Seq<Option<Timestamp>> {
    |e: EventView| Seq::new(reread_count(e), |i: int| event_time(e))
}

/// The instants of the events, in order.
pub open spec fn event_times(evs: Seq<EventView>) -> Seq<Option<Timestamp>> {
    gather(evs, time_items())
}

/// Whether an event has an instant that its RFC 3339 text with milliseconds
/// holds exactly: a whole number of milliseconds in the years 0 to 9999.
pub open spec fn has_exact_time(e: EventView) -> bool {
    match event_time(e) {
        Some(t) => four_digit_year(t.instant().0) && t.instant().1 % 1_000_000 == 0,
        None => false,
    }
}

proof fn lemma_same_times(evs: Seq<EventView>, x: Option<Timestamp>, n: int)
    requires
        0 <= n <= evs.len(),
        forall|i: int| 0 <= i < evs.len() ==> event_time(#[trigger] evs[i]) == x,
    ensures
        gather(evs.take(n), time_items()) == Seq::new(n as nat, |i: int| x),
    decreases n,
{
    if n == 0 {
        assert(evs.take(0) =~= Seq::<EventView>::empty());
        assert(Seq::new(0, |i: int| x) =~= Seq::<Option<Timestamp>>::empty());
    } else {
        lemma_same_times(evs, x, n - 1);
        assert(evs.take(n).drop_last() =~= evs.take(n - 1));
        assert(evs.take(n).last() == evs[n - 1]);
        assert(Seq::new((n - 1) as nat, |i: int| x) + seq![x] =~= Seq::new(n as nat, |i: int| x));
    }
}

proof fn lemma_reread_times(e: EventView, id: Seq<char>, parent: Option<Seq<char>>, time: Seq<char>)
    ensures
        gather(reread_event(e, id, parent, time), time_items()) == Seq::new(
            reread_count(e),
            |i: int| instant_timestamp(time),
        ),
{
    let r = reread_event(e, id, parent, time);
    assert(r.len() == reread_count(e));
    assert forall|i: int| 0 <= i < r.len() implies event_time(#[trigger] r[i]) == instant_timestamp(time) by {}
    lemma_same_times(r, instant_timestamp(time), r.len() as int);
    assert(r.take(r.len() as int) =~= r);
}

/// Writing a session whose events all have an exact instant (a whole number
/// of milliseconds in the years 0 to 9999) and reading it back gives every
/// event read back the instant of the event whose record it was read from.
pub proof fn times_read_back(s: SessionView, rs: Seq<Json>, fresh_id: Seq<char>, settings: Option<Json>)
    requires
        are_session_records(s, rs),
        forall|i: int| 0 <= i < s.events.len() ==> has_exact_time(#[trigger] s.events[i]),
    ensures
        event_times(loaded_session(fresh_id, rs, settings).events) == gather(
            s.events,
            written_time_items(),
        ),
{
    let ws = written_events(s.events);
    lemma_written_from(s.events);
    written_times_read_back(s, rs);
    assert forall|k: int| 0 <= k < ws.len() implies #[trigger] gather(reread_at(ws, rs, k), time_items())
        == written_time_items()(ws[k]) by {
        let i = choose|i: int| 0 <= i < s.events.len() && ws[k] == s.events[i];
        assert(has_exact_time(s.events[i]));
        let time = record_time(rs[k + 1]);
        lemma_reread_times(
            ws[k],
            record_id(rs[k + 1])->0,
            if k == 0 {
                None
            } else {
                record_id(rs[k])
            },
            time,
        );
        let t = event_time(ws[k])->0;
        let n = t.instant().1;
        assert(n / 1_000_000 * 1_000_000 == n) by (nonlinear_arith)
            requires
                n % 1_000_000 == 0,
        ;
        let u = instant_timestamp(time)->0;
        assert(u.instant() == t.instant());
        lemma_instant_eq(u, t);
        assert(instant_timestamp(time) == event_time(ws[k]));
        assert(Seq::new(reread_count(ws[k]), |j: int| instant_timestamp(time)) =~= written_time_items()(
            ws[k],
        ));
    }
    assert forall|e: EventView| encoded_event(e) is None implies #[trigger] written_time_items()(e)
        == Seq::<Option<Timestamp>>::empty() by {
        if let EventView::Message { blocks, .. } = e {
            if blocks.len() > 0 {
                assert(crate::droid::encoded_blocks(blocks, e->role) is Array);
            }
        }
        assert(reread_count(e) == 0);
        assert(written_time_items()(e) =~= Seq::<Option<Timestamp>>::empty());
    }
    lemma_gather_session(s, rs, fresh_id, settings, time_items(), written_time_items());
}

// ---------------------------------------------------------------------------
// Splitting message content into events
// ---------------------------------------------------------------------------

/// A piece of message content: a plain block (its kind, its text and the
/// item it came from), a thinking text, a tool call (by its call id) or a
/// tool result (by the id of the call it answers).
pub enum Piece {
    Block(Seq<char>, Option<Seq<char>>, Option<Json>),
    Thought(Seq<char>),
    Call(Seq<char>),
    Outcome(Seq<char>),
}

/// What a content item of a message holds: a thinking item its thinking
/// text (if a string), a tool call or result its call id (if not empty), and
/// any other item a plain block: of the item's `type` (`unknown` when it has
/// none), with the item's `text` member, or when it has none its `content`
/// member, as text if that is a string.
pub open spec fn item_pieces(b: Json) -> Seq<Piece> {
    let kind = get_str(b, "type"@);
    if kind == Some("thinking"@) {
        match get_str(b, "thinking"@) {
            Some(t) => seq![Piece::Thought(t)],
            None => seq![],
        }
    } else if kind == Some("tool_use"@) {
        match get_str(b, "id"@) {
            Some(id) => if id.len() > 0 {
                seq![Piece::Call(id)]
            } else {
                seq![]
            },
            None => seq![],
        }
    } else if kind == Some("tool_result"@) {
        match get_str(b, "tool_use_id"@) {
            Some(id) => if id.len() > 0 {
                seq![Piece::Outcome(id)]
            } else {
                seq![]
            },
            None => seq![],
        }
    } else {
        let kind_text = match kind {
            Some(k) => k,
            None => "unknown"@,
        };
        let member = match json_get(b, "text"@) {
            Some(t) => Some(t),
            None => json_get(b, "content"@),
        };
        let text = match member {
            Some(Json::Str(t)) => Some(t),
            _ => None,
        };
        seq![Piece::Block(kind_text, text, Some(b))]
    }
}

/// What the first `n` content items hold, in order.
pub open spec fn items_pieces(bs: Seq<Json>, n: int) -> Seq<Piece>
    decreases n,
{
    if n <= 0 || n > bs.len() {
        seq![]
    } else {
        items_pieces(bs, n - 1) + item_pieces(bs[n - 1])
    }
}

/// What an event holds: a message its blocks (by the items they came from),
/// reasoning its summary lines, a tool call or result its call id.
pub open spec fn event_pieces() -> spec_fn(EventView) -> Seq<Piece> {
    |e: EventView|
        match e {
            EventView::Message { blocks, .. } => Seq::new(
                blocks.len(),
                |i: int| Piece::Block(blocks[i].kind, blocks[i].text, blocks[i].data),
            ),
            EventView::Reasoning { summary, .. } => Seq::new(
                summary.len(),
                |i: int| Piece::Thought(summary[i]),
            ),
            EventView::ToolCall { call_id, .. } => seq![Piece::Call(call_id)],
            EventView::ToolResult { call_id, .. } => seq![Piece::Outcome(call_id)],
        }
}

/// What pending blocks hold.
pub open spec fn pending_pieces(p: Seq<BlockView>) -> Seq<Piece> {
    Seq::new(p.len(), |i: int| Piece::Block(p[i].kind, p[i].text, p[i].data))
}

proof fn lemma_gather_push<T>(evs: Seq<EventView>, e: EventView, f: spec_fn(EventView) -> Seq<T>)
    ensures
        gather(evs.push(e), f) == gather(evs, f) + f(e),
{
    assert(evs.push(e).drop_last() =~= evs);
    assert(evs.push(e).last() == e);
}

proof fn lemma_flushed_pieces(c: MessageContext, evs: Seq<EventView>, p: Seq<BlockView>)
    ensures
        gather(flushed(c, evs, p), event_pieces()) == gather(evs, event_pieces()) + pending_pieces(p),
{
    if p.len() == 0 {
        assert(pending_pieces(p) =~= Seq::<Piece>::empty());
        assert(gather(evs, event_pieces()) + pending_pieces(p) =~= gather(evs, event_pieces()));
    } else {
        lemma_gather_push(evs, message_event(c, p), event_pieces());
        assert(event_pieces()(message_event(c, p)) =~= pending_pieces(p));
    }
}

proof fn lemma_fold_pieces(c: MessageContext, evs: Seq<EventView>, bs: Seq<Json>, n: int)
    requires
        0 <= n <= bs.len(),
    ensures
        gather(blocks_fold(c, evs, bs, n).0, event_pieces()) + pending_pieces(
            blocks_fold(c, evs, bs, n).1,
        ) == gather(evs, event_pieces()) + items_pieces(bs, n),
    decreases n,
{
    let g0 = gather(evs, event_pieces());
    if n == 0 {
        assert(pending_pieces(Seq::<BlockView>::empty()) =~= Seq::<Piece>::empty());
        assert(items_pieces(bs, 0) =~= Seq::<Piece>::empty());
        assert(g0 + Seq::<Piece>::empty() =~= g0);
    } else {
        lemma_fold_pieces(c, evs, bs, n - 1);
        let st = blocks_fold(c, evs, bs, n - 1);
        let b = bs[n - 1];
        let nx = block_step(c, st, b);
        assert(nx == blocks_fold(c, evs, bs, n));
        let kind = get_str(b, "type"@);
        let before = gather(st.0, event_pieces()) + pending_pieces(st.1);
        assert(before == g0 + items_pieces(bs, n - 1));
        if kind == Some("thinking"@) || kind == Some("tool_use"@) || kind == Some("tool_result"@) {
            let e = flushed(c, st.0, st.1);
            lemma_flushed_pieces(c, st.0, st.1);
            assert(nx.1 =~= Seq::<BlockView>::empty());
            assert(pending_pieces(nx.1) =~= Seq::<Piece>::empty());
            if nx.0.len() == e.len() + 1 {
                lemma_gather_push(e, nx.0.last(), event_pieces());
                assert(nx.0 =~= e.push(nx.0.last()));
                assert(event_pieces()(nx.0.last()) =~= item_pieces(b));
            } else {
                assert(nx.0 == e);
                assert(item_pieces(b) =~= Seq::<Piece>::empty());
            }
            assert(gather(nx.0, event_pieces()) + pending_pieces(nx.1) =~= before + item_pieces(b));
        } else {
            assert(nx.0 == st.0);
            assert(nx.1 == st.1.push(normalized_block(b)));
            let nb = normalized_block(b);
            assert(pending_pieces(nx.1) =~= pending_pieces(st.1) + seq![Piece::Block(nb.kind, nb.text, nb.data)]);
            assert(item_pieces(b) == seq![Piece::Block(nb.kind, nb.text, nb.data)]);
            assert(gather(nx.0, event_pieces()) + pending_pieces(nx.1) =~= before + item_pieces(b));
        }
        assert(before + item_pieces(b) =~= g0 + items_pieces(bs, n));
    }
}

/// Reading a message record whose content is an array keeps every content
/// item that holds something, in order: the plain items become the blocks of
/// messages, with their kind and text (a message of the plain items before a thinking item, tool call
/// or tool result comes before the event of that item), thinking items
/// become reasoning, and tool calls and results with a call id become events
/// of their own.
pub proof fn message_content_kept_in_order(evs: Seq<EventView>, v: Json)
    ensures
        match json_get(v, "message"@) {
            Some(msg) => match json_get(msg, "content"@) {
                Some(Json::Array(bs)) => gather(imported_message(evs, v), event_pieces()) == gather(
                    evs,
                    event_pieces(),
                ) + items_pieces(bs, bs.len() as int),
                _ => true,
            },
            None => true,
        },
{
    if let Some(msg) = json_get(v, "message"@) {
        if let Some(Json::Array(bs)) = json_get(msg, "content"@) {
            let c = message_context(v, msg);
            lemma_fold_pieces(c, evs, bs, bs.len() as int);
            let st = blocks_fold(c, evs, bs, bs.len() as int);
            lemma_flushed_pieces(c, st.0, st.1);
        }
    }
}

/// The id an event carries.
pub open spec fn event_id(e: EventView) -> Option<Seq<char>> {
    match e {
        EventView::Message { id, .. } => id,
        EventView::Reasoning { id, .. } => id,
        EventView::ToolCall { id, .. } => id,
        EventView::ToolResult { id, .. } => id,
    }
}

/// The parent id an event carries.
pub open spec fn event_parent(e: EventView) -> Option<Seq<char>> {
    match e {
        EventView::Message { parent_id, .. } => parent_id,
        EventView::Reasoning { parent_id, .. } => parent_id,
        EventView::ToolCall { parent_id, .. } => parent_id,
        EventView::ToolResult { parent_id, .. } => parent_id,
    }
}

/// Whether an event carries what a message context says of it.
pub open spec fn in_context(e: EventView, c: MessageContext) -> bool {
    &&& event_id(e) == c.id
    &&& event_parent(e) == c.parent_id
    &&& event_time(e) == c.timestamp
    &&& e is Message ==> e->role == c.role
}

proof fn lemma_fold_context(c: MessageContext, evs: Seq<EventView>, bs: Seq<Json>, n: int)
    requires
        0 <= n <= bs.len(),
    ensures
        blocks_fold(c, evs, bs, n).0.len() >= evs.len(),
        blocks_fold(c, evs, bs, n).0.take(evs.len() as int) == evs,
        forall|i: int|
            evs.len() <= i < blocks_fold(c, evs, bs, n).0.len() ==> in_context(
                #[trigger] blocks_fold(c, evs, bs, n).0[i],
                c,
            ),
    decreases n,
{
    if n == 0 {
        assert(evs.take(evs.len() as int) =~= evs);
    } else {
        lemma_fold_context(c, evs, bs, n - 1);
        let st = blocks_fold(c, evs, bs, n - 1);
        let nx = blocks_fold(c, evs, bs, n);
        let e = flushed(c, st.0, st.1);
        assert(in_context(message_event(c, st.1), c));
        assert(e.len() >= st.0.len());
        assert forall|i: int| 0 <= i < st.0.len() implies #[trigger] e[i] == st.0[i] by {}
        assert forall|i: int| 0 <= i < nx.0.len() && i < e.len() implies #[trigger] nx.0[i] == e[i] by {}
        assert forall|i: int| 0 <= i < st.0.len() && i < nx.0.len() implies #[trigger] nx.0[i] == st.0[i] by {}
        assert(nx.0.take(evs.len() as int) =~= evs);
    }
}

/// Every event that reading a message record adds comes after the events
/// there were before, which it leaves as they were, and carries the record's
/// id, parent id and instant; every message it adds has the message's role,
/// or `user` when the message has none.
pub proof fn message_events_carry_record(evs: Seq<EventView>, v: Json)
    ensures
        imported_message(evs, v).len() >= evs.len(),
        imported_message(evs, v).take(evs.len() as int) == evs,
        forall|i: int|
            evs.len() <= i < imported_message(evs, v).len() ==> {
                let e = #[trigger] imported_message(evs, v)[i];
                &&& event_id(e) == get_str(v, "id"@)
                &&& event_parent(e) == get_str(v, "parentId"@)
                &&& event_time(e) == match get_str(v, "timestamp"@) {
                    Some(t) => instant_timestamp(t),
                    None => None,
                }
                &&& e is Message ==> e->role == match get_str(json_get(v, "message"@)->0, "role"@) {
                    Some(r) => r,
                    None => "user"@,
                }
            },
{
    let r = imported_message(evs, v);
    if let Some(msg) = json_get(v, "message"@) {
        let c = message_context(v, msg);
        match json_get(msg, "content"@) {
            Some(Json::Str(text)) => {
                assert(in_context(r[evs.len() as int], c));
                assert(r.take(evs.len() as int) =~= evs);
            },
            Some(Json::Array(bs)) => {
                lemma_fold_context(c, evs, bs, bs.len() as int);
                let st = blocks_fold(c, evs, bs, bs.len() as int);
                assert(in_context(message_event(c, st.1), c));
                assert forall|i: int| 0 <= i < st.0.len() implies #[trigger] r[i] == st.0[i] by {}
                assert(r.take(evs.len() as int) =~= evs);
                assert forall|i: int| evs.len() <= i < r.len() implies in_context(#[trigger] r[i], c) by {
                    if i < st.0.len() {
                        assert(r[i] == st.0[i]);
                    }
                }
            },
            _ => {
                assert(r.take(evs.len() as int) =~= evs);
            },
        }
    } else {
        assert(r.take(evs.len() as int) =~= evs);
    }
}

} // verus!
