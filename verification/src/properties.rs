use vstd::prelude::*;

use crate::droid::{
    all_call_args_sorted, block_step, blocks_fold, call_args_sorted, flushed, home_plan,
    imported_message, member_or_null, message_context, message_event, MessageContext,
    derived_title, imported_record, loaded_session, message_title, record_timestamp,
    records_imported, settings_metadata, titled, with_time_bounds, written_settings,
};
use crate::ids::is_canonical_uuid;
use crate::ir::{BlockView, EventView, MetadataView, SessionView};
use crate::paths::{settings_beside_session_file, settings_path};
use crate::json::{json_get, keys_sorted, lemma_entries_sorted, lemma_items_sorted, lookup, Json};
use crate::text::{
    all_words, collapsed, collapsed_is_normal, is_white_space, join_with_space, prefix_chars,
    words_of_collapsed, words_of_joined_texts,
};
use crate::time::{lemma_instant_eq, ts_le, Timestamp};

verus! {

/// Whether the time bounds of a session are both known and in order, or
/// both unknown.
pub open spec fn bounds_ordered(m: MetadataView) -> bool {
    match (m.created_at, m.updated_at) {
        (Some(c), Some(u)) => ts_le(c, u),
        (None, None) => true,
        _ => false,
    }
}

/// Whether the time bounds of a session take in the instant `t`.
pub open spec fn bounds_cover(m: MetadataView, t: Timestamp) -> bool {
    &&& m.created_at matches Some(c)
    &&& m.updated_at matches Some(u)
    &&& ts_le(c, t)
    &&& ts_le(t, u)
}

/// Whether some record among the first `n` is stamped with `t`.
pub open spec fn stamped_with(records: Seq<Json>, n: int, t: Timestamp) -> bool {
    exists|i: int| 0 <= i < n && record_timestamp(#[trigger] records[i]) == Some(t)
}

proof fn lemma_record_bounds(s: SessionView, v: Json)
    requires
        bounds_ordered(s.metadata),
    ensures
        bounds_ordered(imported_record(s, v).metadata),
        imported_record(s, v).metadata.created_at == with_time_bounds(
            s.metadata,
            record_timestamp(v),
        ).created_at,
        imported_record(s, v).metadata.updated_at == with_time_bounds(
            s.metadata,
            record_timestamp(v),
        ).updated_at,
{
}

proof fn lemma_records_bounds(s0: SessionView, records: Seq<Json>, n: int)
    requires
        0 <= n <= records.len(),
        s0.metadata.created_at is None,
        s0.metadata.updated_at is None,
    ensures
        bounds_ordered(records_imported(s0, records, n).metadata),
        forall|i: int|
            #![trigger records[i]]
            0 <= i < n ==> (record_timestamp(records[i]) matches Some(t) ==> bounds_cover(
                records_imported(s0, records, n).metadata,
                t,
            )),
        records_imported(s0, records, n).metadata.created_at matches Some(c) ==> stamped_with(
            records,
            n,
            c,
        ),
        records_imported(s0, records, n).metadata.updated_at matches Some(u) ==> stamped_with(
            records,
            n,
            u,
        ),
        records_imported(s0, records, n).metadata.created_at is None ==> forall|i: int|
            #![trigger records[i]]
            0 <= i < n ==> record_timestamp(records[i]) is None,
    decreases n,
{
    if n > 0 {
        lemma_records_bounds(s0, records, n - 1);
        let p = records_imported(s0, records, n - 1);
        let q = records_imported(s0, records, n);
        lemma_record_bounds(p, records[n - 1]);
        assert forall|i: int|
            #![trigger records[i]]
            0 <= i < n implies (record_timestamp(records[i]) matches Some(t) ==> bounds_cover(
            q.metadata,
            t,
        )) by {
            if i < n - 1 {
                if let Some(t) = record_timestamp(records[i]) {
                    assert(bounds_cover(p.metadata, t));
                }
            }
        }
        if let Some(c) = q.metadata.created_at {
            if record_timestamp(records[n - 1]) == Some(c) {
                assert(stamped_with(records, n, c));
            } else {
                assert(p.metadata.created_at == Some(c));
                let i = choose|i: int|
                    0 <= i < n - 1 && record_timestamp(#[trigger] records[i]) == Some(c);
                assert(stamped_with(records, n, c));
            }
        }
        if let Some(u) = q.metadata.updated_at {
            if record_timestamp(records[n - 1]) == Some(u) {
                assert(stamped_with(records, n, u));
            } else {
                assert(p.metadata.updated_at == Some(u));
                let i = choose|i: int|
                    0 <= i < n - 1 && record_timestamp(#[trigger] records[i]) == Some(u);
                assert(stamped_with(records, n, u));
            }
        }
    }
}

/// After loading, a session's first and last instants are in order, take in
/// the instant of every record, and are instants of records: they are the
/// earliest and the latest record instant, and unknown only when no record
/// is stamped.
pub proof fn loaded_time_bounds(fresh_id: Seq<char>, records: Seq<Json>, settings: Option<Json>)
    ensures
        bounds_ordered(loaded_session(fresh_id, records, settings).metadata),
        forall|i: int|
            #![trigger records[i]]
            0 <= i < records.len() ==> (record_timestamp(records[i]) matches Some(t) ==> bounds_cover(
                loaded_session(fresh_id, records, settings).metadata,
                t,
            )),
        loaded_session(fresh_id, records, settings).metadata.created_at matches Some(c)
            ==> stamped_with(records, records.len() as int, c),
        loaded_session(fresh_id, records, settings).metadata.updated_at matches Some(u)
            ==> stamped_with(records, records.len() as int, u),
        loaded_session(fresh_id, records, settings).metadata.created_at is None ==> forall|i: int|
            #![trigger records[i]]
            0 <= i < records.len() ==> record_timestamp(records[i]) is None,
{
    let s0 = SessionView {
        metadata: MetadataView {
            source_format: Some(crate::ir::SessionFormat::Droid),
            ..crate::ir::fresh_metadata(fresh_id)
        },
        events: seq![],
    };
    lemma_records_bounds(s0, records, records.len() as int);
}

/// The settings document written beside a session is the one it was given.
pub proof fn settings_written_back(m: MetadataView, settings: Json)
    ensures
        written_settings(settings_metadata(m, settings)) == settings,
{
}

/// A session loaded with a settings document writes that document back.
pub proof fn loaded_settings_written_back(fresh_id: Seq<char>, records: Seq<Json>, settings: Json)
    ensures
        written_settings(loaded_session(fresh_id, records, Some(settings)).metadata) == settings,
{
}

proof fn lemma_message_title_shape(e: EventView)
    ensures
        message_title(e) matches Some(t) ==> 0 < t.len() <= 80 && !is_white_space(t[0]),
{
    if let EventView::Message { role, blocks, .. } = e {
        let c = collapsed(join_with_space(crate::droid::block_texts(blocks)));
        collapsed_is_normal(join_with_space(crate::droid::block_texts(blocks)));
        if c.len() > 0 {
            assert(prefix_chars(c, 80)[0] == c[0]);
        }
    }
}

/// A derived title is not empty, at most 80 characters long, and does not
/// start with white space.
pub proof fn derived_title_shape(events: Seq<EventView>)
    ensures
        derived_title(events) matches Some(t) ==> 0 < t.len() <= 80 && !is_white_space(t[0]),
    decreases events.len(),
{
    if events.len() > 0 {
        lemma_message_title_shape(events[0]);
        derived_title_shape(events.drop_first());
    }
}

/// A session that comes with a title keeps it; one without gets the title
/// of its first user message.
pub proof fn titled_keeps_given_title(s: SessionView)
    ensures
        s.metadata.title is Some ==> titled(s) == s,
        s.metadata.title is None ==> titled(s).metadata.title == derived_title(s.events),
        titled(s).events == s.events,
{
}

/// In a Droid home, the settings file written beside a session (stored
/// under a canonical UUID) is the one that reading the session file looks for.
pub proof fn home_settings_found_by_reader(cwd: Seq<char>, output: Seq<char>, sid: Seq<char>)
    requires
        is_canonical_uuid(sid),
    ensures
        home_plan(cwd, output, sid).settings_file == Some(
            settings_path(home_plan(cwd, output, sid).session_file),
        ),
{
    assert forall|i: int| 0 <= i < sid.len() implies sid[i] != '/' && sid[i] != '.' by {
        assert(crate::ids::is_hyphen_position(i) ==> sid[i] == '-');
    }
    let dir = crate::paths::joined_path(
        crate::paths::joined_path(output, "sessions"@),
        crate::text::droid_slug(cwd),
    );
    settings_beside_session_file(dir, sid);
}


/// The metadata after `update_time_bounds` has been called with each
/// instant of `ts` in turn.
pub open spec fn bounds_after(m: MetadataView, ts: Seq<Option<Timestamp>>) -> MetadataView
    decreases ts.len(),
{
    if ts.len() == 0 {
        m
    } else {
        with_time_bounds(bounds_after(m, ts.drop_last()), ts.last())
    }
}

/// Whether the instant `t` occurs in `ts`.
pub open spec fn occurs(ts: Seq<Option<Timestamp>>, t: Timestamp) -> bool {
    exists|i: int| 0 <= i < ts.len() && ts[i] == Some(t)
}

/// Starting from unknown bounds, the bounds after a run of calls are the
/// earliest and the latest instant of the run (in order), and unknown only
/// when the run holds no instant.
pub proof fn time_bounds_are_min_and_max(m: MetadataView, ts: Seq<Option<Timestamp>>)
    requires
        m.created_at is None,
        m.updated_at is None,
    ensures
        bounds_ordered(bounds_after(m, ts)),
        bounds_after(m, ts).created_at is None <==> forall|i: int|
            0 <= i < ts.len() ==> #[trigger] ts[i] is None,
        bounds_after(m, ts).created_at matches Some(c) ==> occurs(ts, c) && forall|i: int|
            0 <= i < ts.len() ==> (#[trigger] ts[i] matches Some(t) ==> ts_le(c, t)),
        bounds_after(m, ts).updated_at matches Some(u) ==> occurs(ts, u) && forall|i: int|
            0 <= i < ts.len() ==> (#[trigger] ts[i] matches Some(t) ==> ts_le(t, u)),
    decreases ts.len(),
{
    if ts.len() > 0 {
        let p = ts.drop_last();
        time_bounds_are_min_and_max(m, p);
        let q = bounds_after(m, p);
        let r = bounds_after(m, ts);
        assert forall|i: int| 0 <= i < ts.len() - 1 implies #[trigger] ts[i] == p[i] by {}
        if let Some(c) = r.created_at {
            if ts.last() == Some(c) {
                assert(ts[ts.len() - 1] == Some(c));
            } else {
                assert(q.created_at == Some(c));
                let i = choose|i: int| 0 <= i < p.len() && p[i] == Some(c);
                assert(ts[i] == Some(c));
            }
            assert forall|i: int| 0 <= i < ts.len() implies (#[trigger] ts[i] matches Some(t)
                ==> ts_le(c, t)) by {
                if i < ts.len() - 1 {
                    assert(ts[i] == p[i]);
                }
            }
        }
        if let Some(u) = r.updated_at {
            if ts.last() == Some(u) {
                assert(ts[ts.len() - 1] == Some(u));
            } else {
                assert(q.updated_at == Some(u));
                let i = choose|i: int| 0 <= i < p.len() && p[i] == Some(u);
                assert(ts[i] == Some(u));
            }
            assert forall|i: int| 0 <= i < ts.len() implies (#[trigger] ts[i] matches Some(t)
                ==> ts_le(t, u)) by {
                if i < ts.len() - 1 {
                    assert(ts[i] == p[i]);
                }
            }
        }
        if r.created_at is None {
            assert forall|i: int| 0 <= i < ts.len() implies #[trigger] ts[i] is None by {
                if i < ts.len() - 1 {
                    assert(ts[i] == p[i]);
                }
            }
        } else {
            if forall|i: int| 0 <= i < ts.len() ==> #[trigger] ts[i] is None {
                assert(ts[ts.len() - 1] is None);
                assert forall|i: int| 0 <= i < p.len() implies #[trigger] p[i] is None by {
                    assert(ts[i] == p[i]);
                }
            }
        }
    }
}

/// The bounds do not depend on the order of the calls, nor on repeats:
/// two runs with the same instants give the same bounds.
pub proof fn time_bounds_ignore_order(
    m: MetadataView,
    ts1: Seq<Option<Timestamp>>,
    ts2: Seq<Option<Timestamp>>,
)
    requires
        m.created_at is None,
        m.updated_at is None,
        forall|t: Timestamp| occurs(ts1, t) <==> occurs(ts2, t),
    ensures
        bounds_after(m, ts1).created_at == bounds_after(m, ts2).created_at,
        bounds_after(m, ts1).updated_at == bounds_after(m, ts2).updated_at,
{
    time_bounds_are_min_and_max(m, ts1);
    time_bounds_are_min_and_max(m, ts2);
    let r1 = bounds_after(m, ts1);
    let r2 = bounds_after(m, ts2);
    if let Some(c1) = r1.created_at {
        let i = choose|i: int| 0 <= i < ts1.len() && ts1[i] == Some(c1);
        assert(occurs(ts2, c1));
        let j = choose|j: int| 0 <= j < ts2.len() && ts2[j] == Some(c1);
        assert(ts2[j] is Some);
        let c2 = r2.created_at->0;
        assert(occurs(ts1, c2));
        let k = choose|k: int| 0 <= k < ts1.len() && ts1[k] == Some(c2);
        assert(ts1[k] == Some(c2));
        assert(ts2[j] == Some(c1));
        assert(ts_le(c1, c2) && ts_le(c2, c1));
        lemma_instant_eq(c1, c2);
    } else {
        if r2.created_at is Some {
            let j = choose|j: int| 0 <= j < ts2.len() && ts2[j] == Some(r2.created_at->0);
            assert(occurs(ts1, r2.created_at->0));
            let i = choose|i: int| 0 <= i < ts1.len() && ts1[i] == Some(r2.created_at->0);
            assert(ts1[i] is Some);
        }
    }
    if let Some(u1) = r1.updated_at {
        assert(occurs(ts2, u1));
        let j = choose|j: int| 0 <= j < ts2.len() && ts2[j] == Some(u1);
        assert(ts2[j] is Some);
        let u2 = r2.updated_at->0;
        assert(occurs(ts1, u2));
        let k = choose|k: int| 0 <= k < ts1.len() && ts1[k] == Some(u2);
        assert(ts1[k] == Some(u2));
        assert(ts2[j] == Some(u1));
        assert(ts_le(u1, u2) && ts_le(u2, u1));
        lemma_instant_eq(u1, u2);
    } else {
        if r2.updated_at is Some {
            assert(occurs(ts1, r2.updated_at->0));
            let i = choose|i: int| 0 <= i < ts1.len() && ts1[i] == Some(r2.updated_at->0);
            assert(ts1[i] is Some);
        }
    }
}

proof fn lemma_lookup_found(es: Seq<(Seq<char>, Json)>, k: Seq<char>)
    ensures
        lookup(es, k) matches Some(v) ==> exists|i: int| 0 <= i < es.len() && #[trigger] es[i].1 == v,
    decreases es.len(),
{
    if es.len() > 0 && es[0].0 != k {
        lemma_lookup_found(es.drop_first(), k);
        if let Some(v) = lookup(es, k) {
            let i = choose|i: int| 0 <= i < es.drop_first().len() && #[trigger] es.drop_first()[i].1 == v;
            assert(es[i + 1].1 == v);
        }
    } else if es.len() > 0 {
        assert(es[0].1 == lookup(es, k)->0);
    }
}

/// A member of a value whose object keys are in order has its keys in order.
proof fn lemma_member_sorted(j: Json, k: Seq<char>)
    requires
        keys_sorted(j),
    ensures
        json_get(j, k) matches Some(v) ==> keys_sorted(v),
{
    if let Json::Object(es) = j {
        lemma_lookup_found(es, k);
        lemma_entries_sorted(es, es.len() as int);
        if let Some(v) = lookup(es, k) {
            let i = choose|i: int| 0 <= i < es.len() && #[trigger] es[i].1 == v;
            assert(keys_sorted(es[i].1));
        }
    }
}

proof fn lemma_push_sorted(evs: Seq<EventView>, e: EventView)
    requires
        all_call_args_sorted(evs),
        call_args_sorted(e),
    ensures
        all_call_args_sorted(evs.push(e)),
{
    assert forall|i: int| 0 <= i < evs.push(e).len() implies call_args_sorted(#[trigger] evs.push(e)[i]) by {
        if i < evs.len() {
            assert(evs.push(e)[i] == evs[i]);
        }
    }
}

proof fn lemma_fold_sorted(c: MessageContext, evs: Seq<EventView>, bs: Seq<Json>, n: int)
    requires
        all_call_args_sorted(evs),
        0 <= n <= bs.len(),
        forall|i: int| 0 <= i < bs.len() ==> keys_sorted(#[trigger] bs[i]),
    ensures
        all_call_args_sorted(blocks_fold(c, evs, bs, n).0),
    decreases n,
{
    if n > 0 {
        lemma_fold_sorted(c, evs, bs, n - 1);
        let st = blocks_fold(c, evs, bs, n - 1);
        let b = bs[n - 1];
        let f = flushed(c, st.0, st.1);
        if st.1.len() > 0 {
            lemma_push_sorted(st.0, message_event(c, st.1));
        }
        assert(all_call_args_sorted(f));
        lemma_member_sorted(b, "input"@);
        assert(keys_sorted(member_or_null(b, "input"@)));
        let r = block_step(c, st, b);
        if r.0.len() == f.len() + 1 {
            lemma_push_sorted(f, r.0.last());
            assert(r.0 =~= f.push(r.0.last()));
        }
    }
}

proof fn lemma_message_sorted(evs: Seq<EventView>, v: Json)
    requires
        all_call_args_sorted(evs),
        keys_sorted(v),
    ensures
        all_call_args_sorted(imported_message(evs, v)),
{
    lemma_member_sorted(v, "message"@);
    if let Some(msg) = json_get(v, "message"@) {
        let c = message_context(v, msg);
        lemma_member_sorted(msg, "content"@);
        match json_get(msg, "content"@) {
            Some(Json::Str(text)) => {
                lemma_push_sorted(
                    evs,
                    message_event(c, seq![BlockView { kind: "text"@, text: Some(text), data: None }]),
                );
            },
            Some(Json::Array(bs)) => {
                lemma_items_sorted(bs, bs.len() as int);
                lemma_fold_sorted(c, evs, bs, bs.len() as int);
                let st = blocks_fold(c, evs, bs, bs.len() as int);
                if st.1.len() > 0 {
                    lemma_push_sorted(st.0, message_event(c, st.1));
                }
            },
            _ => {},
        }
    }
}

proof fn lemma_records_sorted(s0: SessionView, records: Seq<Json>, n: int)
    requires
        all_call_args_sorted(s0.events),
        0 <= n <= records.len(),
        forall|i: int| 0 <= i < records.len() ==> keys_sorted(#[trigger] records[i]),
    ensures
        all_call_args_sorted(records_imported(s0, records, n).events),
    decreases n,
{
    if n > 0 {
        lemma_records_sorted(s0, records, n - 1);
        lemma_message_sorted(records_imported(s0, records, n - 1).events, records[n - 1]);
    }
}

/// A session loaded from records whose object keys are in order (as those
/// of every parsed JSON document are) has tool-call arguments whose keys are
/// in order, so all it is written as has its keys in order too.
pub proof fn loaded_call_args_sorted(fresh_id: Seq<char>, records: Seq<Json>, settings: Option<Json>)
    requires
        forall|i: int| 0 <= i < records.len() ==> keys_sorted(#[trigger] records[i]),
    ensures
        all_call_args_sorted(loaded_session(fresh_id, records, settings).events),
{
    let s0 = SessionView {
        metadata: MetadataView {
            source_format: Some(crate::ir::SessionFormat::Droid),
            ..crate::ir::fresh_metadata(fresh_id)
        },
        events: seq![],
    };
    lemma_records_sorted(s0, records, records.len() as int);
}

/// The derived title comes from the first event that offers a title: if
/// `events[i]` offers one and no event before it does, the derived title is
/// that of `events[i]`; if no event offers one, there is none.
pub proof fn derived_title_is_first_offered(events: Seq<EventView>, i: int)
    ensures
        0 <= i < events.len() && message_title(events[i]) is Some && (forall|j: int|
            0 <= j < i ==> message_title(#[trigger] events[j]) is None) ==> derived_title(events)
            == message_title(events[i]),
        (forall|j: int| 0 <= j < events.len() ==> message_title(#[trigger] events[j]) is None)
            ==> derived_title(events) is None,
    decreases events.len(),
{
    if events.len() > 0 {
        let rest = events.drop_first();
        derived_title_is_first_offered(rest, i - 1);
        assert forall|j: int| 0 <= j < rest.len() implies #[trigger] rest[j] == events[j + 1] by {}
        if 0 < i < events.len() && message_title(events[i]) is Some && (forall|j: int|
            0 <= j < i ==> message_title(#[trigger] events[j]) is None) {
            assert(message_title(events[0]) is None);
            assert(rest[i - 1] == events[i]);
            assert forall|j: int| 0 <= j < i - 1 implies message_title(#[trigger] rest[j]) is None by {
                assert(rest[j] == events[j + 1]);
            }
        }
        if forall|j: int| 0 <= j < events.len() ==> message_title(#[trigger] events[j]) is None {
            assert(message_title(events[0]) is None);
            assert forall|j: int| 0 <= j < rest.len() implies message_title(#[trigger] rest[j]) is None by {
                assert(rest[j] == events[j + 1]);
            }
        }
    }
}

/// The title a user message offers is made of the words of its block texts,
/// in order, the words of different blocks kept apart, joined by single
/// spaces and cut to 80 characters; it offers none when those texts hold no
/// word. Other events offer no title.
pub proof fn message_title_is_words_of_texts(e: EventView)
    ensures
        match e {
            EventView::Message { role, blocks, .. } => if role == "user"@ {
                let ws = all_words(crate::droid::block_texts(blocks));
                &&& message_title(e) is None <==> ws.len() == 0
                &&& ws.len() > 0 ==> message_title(e) == Some(
                    if join_with_space(ws).len() <= 80 {
                        join_with_space(ws)
                    } else {
                        join_with_space(ws).take(80)
                    },
                )
            } else {
                message_title(e) is None
            },
            _ => message_title(e) is None,
        },
{
    if let EventView::Message { role, blocks, .. } = e {
        let j = join_with_space(crate::droid::block_texts(blocks));
        words_of_joined_texts(crate::droid::block_texts(blocks));
        words_of_collapsed(j);
    }
}

} // verus!
