use vstd::prelude::*;

use crate::json::{entries_model, lookup, opt_string, Json, JsonValue};
use crate::text::str_eq;
use crate::time::Timestamp;

verus! {

/// The native format a session was read from.
#[derive(Clone, Copy, Debug, PartialEq, Eq, Structural)]
pub enum SessionFormat {
    Codex,
    Claude,
    Droid,
}

/// The map that entries with distinct-or-repeated keys denote: each key
/// stands for the value of its first entry.
pub open spec fn map_of(es: Seq<(Seq<char>, Json)>) -> Map<Seq<char>, Json> {
    Map::new(|k: Seq<char>| lookup(es, k) is Some, |k: Seq<char>| lookup(es, k)->0)
}

/// A map from names to JSON values (side data of sessions and events).
#[derive(Debug)]
pub struct JsonMap {
    pub entries: Vec<(String, JsonValue)>,
}

impl View for JsonMap {
    type V = Map<Seq<char>, Json>;

    open spec fn view(&self) -> Map<Seq<char>, Json> {
        map_of(entries_model(self.entries, self.entries@.len() as int))
    }
}

proof fn lemma_entries_model_push(entries: Vec<(String, JsonValue)>, e: (String, JsonValue), out: Vec<(String, JsonValue)>)
    requires
        out@ == entries@.push(e),
    ensures
        entries_model(out, out@.len() as int) == entries_model(entries, entries@.len() as int).push(
            (e.0@, crate::json::json_model(e.1)),
        ),
{
    lemma_entries_model_prefix(out, entries, entries@.len() as int);
}

proof fn lemma_entries_model_prefix(a: Vec<(String, JsonValue)>, b: Vec<(String, JsonValue)>, n: int)
    requires
        0 <= n <= a@.len(),
        n <= b@.len(),
        forall|i: int| 0 <= i < n ==> a@[i] == b@[i],
    ensures
        entries_model(a, n) == entries_model(b, n),
    decreases n,
{
    if n > 0 {
        lemma_entries_model_prefix(a, b, n - 1);
    }
}

proof fn lemma_entries_model_update(
    entries: Vec<(String, JsonValue)>,
    i: int,
    e: (String, JsonValue),
    out: Vec<(String, JsonValue)>,
    n: int,
)
    requires
        0 <= i < entries@.len(),
        out@ == entries@.update(i, e),
        0 <= n <= entries@.len(),
    ensures
        entries_model(out, n) == if i < n {
            entries_model(entries, n).update(i, (e.0@, crate::json::json_model(e.1)))
        } else {
            entries_model(entries, n)
        },
    decreases n,
{
    crate::json::lemma_entries_model(entries, n);
    crate::json::lemma_entries_model(out, n);
    if n > 0 {
        lemma_entries_model_update(entries, i, e, out, n - 1);
        assert(entries_model(out, n) =~= (if i < n {
            entries_model(entries, n).update(i, (e.0@, crate::json::json_model(e.1)))
        } else {
            entries_model(entries, n)
        }));
    }
}

proof fn lemma_lookup_push(es: Seq<(Seq<char>, Json)>, k: Seq<char>, v: Json, q: Seq<char>)
    requires
        lookup(es, k) is None,
    ensures
        lookup(es.push((k, v)), q) == if q == k {
            Some(v)
        } else {
            lookup(es, q)
        },
    decreases es.len(),
{
    assert(es.push((k, v))[es.len() as int] == (k, v));
    if es.len() == 0 {
        let e1 = es.push((k, v));
        assert(e1.drop_first().len() == 0);
        assert(lookup(e1.drop_first(), q) is None);
        assert(lookup(es, q) is None);
        assert(e1[0] == (k, v));
    } else {
        assert(es.push((k, v))[0] == es[0]);
        assert(es.push((k, v)).drop_first() =~= es.drop_first().push((k, v)));
        if es[0].0 != k {
            lemma_lookup_push(es.drop_first(), k, v, q);
        }
    }
}

proof fn lemma_lookup_update(es: Seq<(Seq<char>, Json)>, i: int, k: Seq<char>, v: Json, q: Seq<char>)
    requires
        0 <= i < es.len(),
        es[i].0 == k,
        forall|j: int| 0 <= j < i ==> es[j].0 != k,
    ensures
        lookup(es.update(i, (k, v)), q) == if q == k {
            Some(v)
        } else {
            lookup(es, q)
        },
    decreases i,
{
    let es2 = es.update(i, (k, v));
    if i == 0 {
        assert(es2.drop_first() =~= es.drop_first());
    } else {
        assert(es2.drop_first() =~= es.drop_first().update(i - 1, (k, v)));
        assert(es[0].0 != k);
        lemma_lookup_update(es.drop_first(), i - 1, k, v, q);
    }
}

impl JsonMap {
    /// An empty map.
    pub fn new() -> (r: JsonMap)
        ensures
            r@ == Map::<Seq<char>, Json>::empty(),
    {
        let r = JsonMap { entries: Vec::new() };
        assert(r@ =~= Map::<Seq<char>, Json>::empty());
        r
    }

    /// The value under `key`, if there is one.
    pub fn get(&self, key: &str) -> (r: Option<&JsonValue>)
        ensures
            match r {
                Some(v) => self@.contains_key(key@) && self@[key@] == v@,
                None => !self@.contains_key(key@),
            },
    {
        let ghost es = entries_model(self.entries, self.entries@.len() as int);
        proof {
            crate::json::lemma_entries_model(self.entries, self.entries@.len() as int);
            assert(es.skip(0) =~= es);
        }
        let n = self.entries.len();
        let mut i: usize = 0;
        while i < n
            invariant
                n == self.entries@.len(),
                es == entries_model(self.entries, n as int),
                es.len() == n,
                forall|j: int|
                    0 <= j < n ==> #[trigger] es[j] == (
                        self.entries@[j].0@,
                        crate::json::json_model(self.entries@[j].1),
                    ),
                i <= n,
                lookup(es, key@) == lookup(es.skip(i as int), key@),
            decreases n - i,
        {
            assert(es.skip(i as int)[0] == es[i as int]);
            if str_eq(self.entries[i].0.as_str(), key) {
                assert(lookup(es.skip(i as int), key@) == Some(es[i as int].1));
                return Some(&self.entries[i].1);
            }
            assert(es.skip(i as int).drop_first() =~= es.skip(i + 1));
            i = i + 1;
        }
        None
    }

    /// Sets the value under `key` (`BTreeMap::insert`).
    pub fn insert(&mut self, key: String, value: JsonValue)
        ensures
            final(self)@ == old(self)@.insert(key@, value@),
    {
        let ghost es = entries_model(self.entries, self.entries@.len() as int);
        let ghost k = key@;
        let ghost v = value@;
        proof {
            crate::json::lemma_entries_model(self.entries, self.entries@.len() as int);
            assert(es.skip(0) =~= es);
        }
        let n = self.entries.len();
        let mut i: usize = 0;
        while i < n
            invariant
                n == self.entries@.len(),
                es == entries_model(self.entries, n as int),
                es.len() == n,
                forall|j: int|
                    0 <= j < n ==> #[trigger] es[j] == (
                        self.entries@[j].0@,
                        crate::json::json_model(self.entries@[j].1),
                    ),
                i <= n,
                *self == *old(self),
                k == key@,
                v == value@,
                forall|j: int| 0 <= j < i ==> es[j].0 != k,
            decreases n - i,
        {
            if str_eq(self.entries[i].0.as_str(), key.as_str()) {
                let ghost old_entries = self.entries;
                let e = (key, value);
                let ghost eg = e;
                self.entries.set(i, e);
                proof {
                    lemma_entries_model_update(old_entries, i as int, eg, self.entries, n as int);
                    assert forall|q: Seq<char>| #[trigger]
                        lookup(es.update(i as int, (k, v)), q) == if q == k {
                            Some(v)
                        } else {
                            lookup(es, q)
                        } by {
                        lemma_lookup_update(es, i as int, k, v, q);
                    }
                    assert(self@ =~= map_of(es).insert(k, v));
                }
                return;
            }
            i = i + 1;
        }
        proof {
            assert forall|j: int| 0 <= j < es.len() implies es[j].0 != k by {}
            lemma_lookup_none(es, k);
        }
        let ghost old_entries = self.entries;
        let e = (key, value);
        let ghost eg = e;
        self.entries.push(e);
        proof {
            lemma_entries_model_push(old_entries, eg, self.entries);
            assert forall|q: Seq<char>| #[trigger]
                lookup(es.push((k, v)), q) == if q == k {
                    Some(v)
                } else {
                    lookup(es, q)
                } by {
                lemma_lookup_push(es, k, v, q);
            }
            assert(self@ =~= map_of(es).insert(k, v));
        }
    }
}

proof fn lemma_lookup_none(es: Seq<(Seq<char>, Json)>, k: Seq<char>)
    requires
        forall|j: int| 0 <= j < es.len() ==> es[j].0 != k,
    ensures
        lookup(es, k) is None,
    decreases es.len(),
{
    if es.len() > 0 {
        assert(es[0].0 != k);
        lemma_lookup_none(es.drop_first(), k);
    }
}

/// One block of message content: its kind, its text if it has one, and the
/// raw JSON it came from if it has one.
#[derive(Debug)]
pub struct ContentBlock {
    pub kind: String,
    pub text: Option<String>,
    pub data: Option<JsonValue>,
}

/// The value of a content block.
pub struct BlockView {
    pub kind: Seq<char>,
    pub text: Option<Seq<char>>,
    pub data: Option<Json>,
}

/// The value of an optional JSON document.
pub open spec fn opt_value(o: Option<JsonValue>) -> Option<Json> {
    match o {
        Some(v) => Some(v@),
        None => None,
    }
}

impl View for ContentBlock {
    type V = BlockView;

    open spec fn view(&self) -> BlockView {
        BlockView { kind: self.kind@, text: opt_string(self.text), data: opt_value(self.data) }
    }
}

impl ContentBlock {
    /// A block of the given kind that holds only text.
    pub fn text(kind: &str, text: String) -> (r: ContentBlock)
        ensures
            r@ == (BlockView { kind: kind@, text: Some(text@), data: None }),
    {
        ContentBlock { kind: kind.to_string(), text: Some(text), data: None }
    }
}

/// The values of a sequence of content blocks.
pub open spec fn blocks_view(blocks: Seq<ContentBlock>) -> Seq<BlockView> {
    blocks.map_values(|b: ContentBlock| b@)
}

/// The texts of a sequence of strings.
pub open spec fn strings_view(ss: Seq<String>) -> Seq<Seq<char>> {
    ss.map_values(|s: String| s@)
}

/// A message of a participant.
#[derive(Debug)]
pub struct MessageEvent {
    pub id: Option<String>,
    pub parent_id: Option<String>,
    pub role: String,
    pub timestamp: Option<Timestamp>,
    pub blocks: Vec<ContentBlock>,
    pub metadata: JsonMap,
}

/// A summary of the assistant's reasoning.
#[derive(Debug)]
pub struct ReasoningEvent {
    pub id: Option<String>,
    pub parent_id: Option<String>,
    pub timestamp: Option<Timestamp>,
    pub summary: Vec<String>,
    pub metadata: JsonMap,
}

/// A call of a tool.
#[derive(Debug)]
pub struct ToolCallEvent {
    pub id: Option<String>,
    pub parent_id: Option<String>,
    pub call_id: String,
    pub name: String,
    pub timestamp: Option<Timestamp>,
    pub arguments: JsonValue,
    pub metadata: JsonMap,
}

/// The result of a tool call.
#[derive(Debug)]
pub struct ToolResultEvent {
    pub id: Option<String>,
    pub parent_id: Option<String>,
    pub call_id: String,
    pub timestamp: Option<Timestamp>,
    pub output: JsonValue,
    pub is_error: bool,
    pub metadata: JsonMap,
}

/// One event of a session.
#[derive(Debug)]
pub enum SessionEvent {
    Message(MessageEvent),
    Reasoning(ReasoningEvent),
    ToolCall(ToolCallEvent),
    ToolResult(ToolResultEvent),
}

/// The value of a session event.
pub enum EventView {
    Message {
        id: Option<Seq<char>>,
        parent_id: Option<Seq<char>>,
        role: Seq<char>,
        timestamp: Option<Timestamp>,
        blocks: Seq<BlockView>,
        metadata: Map<Seq<char>, Json>,
    },
    Reasoning {
        id: Option<Seq<char>>,
        parent_id: Option<Seq<char>>,
        timestamp: Option<Timestamp>,
        summary: Seq<Seq<char>>,
        metadata: Map<Seq<char>, Json>,
    },
    ToolCall {
        id: Option<Seq<char>>,
        parent_id: Option<Seq<char>>,
        call_id: Seq<char>,
        name: Seq<char>,
        timestamp: Option<Timestamp>,
        arguments: Json,
        metadata: Map<Seq<char>, Json>,
    },
    ToolResult {
        id: Option<Seq<char>>,
        parent_id: Option<Seq<char>>,
        call_id: Seq<char>,
        timestamp: Option<Timestamp>,
        output: Json,
        is_error: bool,
        metadata: Map<Seq<char>, Json>,
    },
}

impl View for SessionEvent {
    type V = EventView;

    open spec fn view(&self) -> EventView {
        match self {
            SessionEvent::Message(m) => EventView::Message {
                id: opt_string(m.id),
                parent_id: opt_string(m.parent_id),
                role: m.role@,
                timestamp: m.timestamp,
                blocks: blocks_view(m.blocks@),
                metadata: m.metadata@,
            },
            SessionEvent::Reasoning(r) => EventView::Reasoning {
                id: opt_string(r.id),
                parent_id: opt_string(r.parent_id),
                timestamp: r.timestamp,
                summary: strings_view(r.summary@),
                metadata: r.metadata@,
            },
            SessionEvent::ToolCall(c) => EventView::ToolCall {
                id: opt_string(c.id),
                parent_id: opt_string(c.parent_id),
                call_id: c.call_id@,
                name: c.name@,
                timestamp: c.timestamp,
                arguments: c.arguments@,
                metadata: c.metadata@,
            },
            SessionEvent::ToolResult(t) => EventView::ToolResult {
                id: opt_string(t.id),
                parent_id: opt_string(t.parent_id),
                call_id: t.call_id@,
                timestamp: t.timestamp,
                output: t.output@,
                is_error: t.is_error,
                metadata: t.metadata@,
            },
        }
    }
}

/// The values of a sequence of events.
pub open spec fn events_view(events: Seq<SessionEvent>) -> Seq<EventView> {
    events.map_values(|e: SessionEvent| e@)
}

/// What is known of a session besides its events.
#[derive(Debug)]
pub struct SessionMetadata {
    pub session_id: String,
    pub original_session_id: Option<String>,
    pub source_format: Option<SessionFormat>,
    pub title: Option<String>,
    pub cwd: Option<String>,
    pub git_branch: Option<String>,
    pub model: Option<String>,
    pub created_at: Option<Timestamp>,
    pub updated_at: Option<Timestamp>,
    pub extra: JsonMap,
}

/// The value of session metadata.
pub struct MetadataView {
    pub session_id: Seq<char>,
    pub original_session_id: Option<Seq<char>>,
    pub source_format: Option<SessionFormat>,
    pub title: Option<Seq<char>>,
    pub cwd: Option<Seq<char>>,
    pub git_branch: Option<Seq<char>>,
    pub model: Option<Seq<char>>,
    pub created_at: Option<Timestamp>,
    pub updated_at: Option<Timestamp>,
    pub extra: Map<Seq<char>, Json>,
}

impl View for SessionMetadata {
    type V = MetadataView;

    open spec fn view(&self) -> MetadataView {
        MetadataView {
            session_id: self.session_id@,
            original_session_id: opt_string(self.original_session_id),
            source_format: self.source_format,
            title: opt_string(self.title),
            cwd: opt_string(self.cwd),
            git_branch: opt_string(self.git_branch),
            model: opt_string(self.model),
            created_at: self.created_at,
            updated_at: self.updated_at,
            extra: self.extra@,
        }
    }
}

/// A session in the format-neutral model: its metadata and its events in order.
#[derive(Debug)]
pub struct UniversalSession {
    pub metadata: SessionMetadata,
    pub events: Vec<SessionEvent>,
}

/// The value of a session.
pub struct SessionView {
    pub metadata: MetadataView,
    pub events: Seq<EventView>,
}

impl View for UniversalSession {
    type V = SessionView;

    open spec fn view(&self) -> SessionView {
        SessionView { metadata: self.metadata@, events: events_view(self.events@) }
    }
}

/// The metadata of a new session with the given id and nothing else known.
pub open spec fn fresh_metadata(session_id: Seq<char>) -> MetadataView {
    MetadataView {
        session_id,
        original_session_id: None,
        source_format: None,
        title: None,
        cwd: None,
        git_branch: None,
        model: None,
        created_at: None,
        updated_at: None,
        extra: Map::empty(),
    }
}

impl UniversalSession {
    /// A session with the given id, no events and nothing else known.
    pub fn new(session_id: String) -> (r: UniversalSession)
        ensures
            r@ == (SessionView { metadata: fresh_metadata(session_id@), events: seq![] }),
    {
        let r = UniversalSession {
            metadata: SessionMetadata {
                session_id,
                original_session_id: None,
                source_format: None,
                title: None,
                cwd: None,
                git_branch: None,
                model: None,
                created_at: None,
                updated_at: None,
                extra: JsonMap::new(),
            },
            events: Vec::new(),
        };
        assert(r@.events =~= Seq::<EventView>::empty());
        r
    }
}

} // verus!
