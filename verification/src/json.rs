use vstd::prelude::*;

use crate::text::push_char;

verus! {

/// A JSON document as the library holds it. Object entries keep the order in
/// which they are given; numbers are held as the text that denotes them.
#[derive(Debug)]
pub enum JsonValue {
    Null,
    Bool(bool),
    Number(String),
    Str(String),
    Array(Vec<JsonValue>),
    Object(Vec<(String, JsonValue)>),
}

/// The mathematical value of a JSON document.
pub enum Json {
    Null,
    Bool(bool),
    Number(Seq<char>),
    Str(Seq<char>),
    Array(Seq<Json>),
    Object(Seq<(Seq<char>, Json)>),
}

/// The value of a JSON document.
pub open spec fn json_model(v: JsonValue) -> Json
    decreases v, 0int,
{
    match v {
        JsonValue::Null => Json::Null,
        JsonValue::Bool(b) => Json::Bool(b),
        JsonValue::Number(t) => Json::Number(t@),
        JsonValue::Str(s) => Json::Str(s@),
        JsonValue::Array(items) => Json::Array(items_model(items, items@.len() as int)),
        JsonValue::Object(entries) => Json::Object(entries_model(entries, entries@.len() as int)),
    }
}

/// The values of the first `n` items of an array.
pub open spec fn items_model(items: Vec<JsonValue>, n: int) -> Seq<Json>
    decreases items, n,
{
    if n <= 0 || n > items@.len() {
        seq![]
    } else {
        proof {
            assert(decreases_to!(items => items[n - 1]));
        }
        items_model(items, n - 1).push(json_model(items@[n - 1]))
    }
}

/// The values of the first `n` entries of an object.
pub open spec fn entries_model(entries: Vec<(String, JsonValue)>, n: int) -> Seq<(Seq<char>, Json)>
    decreases entries, n,
{
    if n <= 0 || n > entries@.len() {
        seq![]
    } else {
        proof {
            assert(decreases_to!(entries => entries[n - 1]));
        }
        entries_model(entries, n - 1).push((entries@[n - 1].0@, json_model(entries@[n - 1].1)))
    }
}

impl View for JsonValue {
    type V = Json;

    open spec fn view(&self) -> Json {
        json_model(*self)
    }
}


pub(crate) proof fn lemma_items_model(items: Vec<JsonValue>, n: int)
    requires
        0 <= n <= items@.len(),
    ensures
        items_model(items, n).len() == n,
        forall|i: int| 0 <= i < n ==> #[trigger] items_model(items, n)[i] == json_model(items@[i]),
    decreases n,
{
    if n > 0 {
        lemma_items_model(items, n - 1);
    }
}

pub(crate) proof fn lemma_entries_model(entries: Vec<(String, JsonValue)>, n: int)
    requires
        0 <= n <= entries@.len(),
    ensures
        entries_model(entries, n).len() == n,
        forall|i: int|
            0 <= i < n ==> #[trigger] entries_model(entries, n)[i] == (
                entries@[i].0@,
                json_model(entries@[i].1),
            ),
    decreases n,
{
    if n > 0 {
        lemma_entries_model(entries, n - 1);
    }
}

/// The value of the first entry of `es` whose key is `k`.
pub open spec fn lookup(es: Seq<(Seq<char>, Json)>, k: Seq<char>) -> Option<Json>
    decreases es.len(),
{
    if es.len() == 0 {
        None
    } else if es[0].0 == k {
        Some(es[0].1)
    } else {
        lookup(es.drop_first(), k)
    }
}

/// The member `k` of `j` when `j` is an object that has one
/// (`serde_json::Value::get` with a string key).
pub open spec fn json_get(j: Json, k: Seq<char>) -> Option<Json> {
    match j {
        Json::Object(es) => lookup(es, k),
        _ => None,
    }
}

/// The text of `j` when it is a string (`Value::as_str`).
pub open spec fn json_str(j: Option<Json>) -> Option<Seq<char>> {
    match j {
        Some(Json::Str(s)) => Some(s),
        _ => None,
    }
}

/// The boolean `j` holds, if it is one (`Value::as_bool`).
pub open spec fn json_bool(j: Option<Json>) -> Option<bool> {
    match j {
        Some(Json::Bool(b)) => Some(b),
        _ => None,
    }
}

/// The string member `k` of `j`, if there is one.
pub open spec fn get_str(j: Json, k: Seq<char>) -> Option<Seq<char>> {
    json_str(json_get(j, k))
}

/// The value behind an optional reference.
pub open spec fn opt_json(o: Option<&JsonValue>) -> Option<Json> {
    match o {
        Some(v) => Some(v@),
        None => None,
    }
}

/// The text behind an optional string reference.
pub open spec fn opt_text(o: Option<&str>) -> Option<Seq<char>> {
    match o {
        Some(s) => Some(s@),
        None => None,
    }
}

/// The text of an optional string.
pub open spec fn opt_string(o: Option<String>) -> Option<Seq<char>> {
    match o {
        Some(s) => Some(s@),
        None => None,
    }
}

impl JsonValue {
    /// The member `key` of this value, when it is an object that has one.
    pub fn get(&self, key: &str) -> (r: Option<&JsonValue>)
        ensures
            opt_json(r) == json_get(self@, key@),
    {
        match self {
            JsonValue::Object(entries) => {
                let ghost es = entries_model(*entries, entries@.len() as int);
                proof {
                    lemma_entries_model(*entries, entries@.len() as int);
                    assert(es.skip(0) =~= es);
                }
                let n = entries.len();
                let mut i: usize = 0;
                while i < n
                    invariant
                        n == entries@.len(),
                        es == entries_model(*entries, n as int),
                        self@ == Json::Object(es),
                        es.len() == n,
                        forall|j: int|
                            0 <= j < n ==> #[trigger] es[j] == (
                                entries@[j].0@,
                                json_model(entries@[j].1),
                            ),
                        i <= n,
                        lookup(es, key@) == lookup(es.skip(i as int), key@),
                    decreases n - i,
                {
                    assert(es.skip(i as int)[0] == es[i as int]);
                    if crate::text::str_eq(entries[i].0.as_str(), key) {
                        assert(es[i as int].0 == key@);
                        assert(lookup(es.skip(i as int), key@) == Some(es[i as int].1));
                        assert(self@ == Json::Object(es));
                        return Some(&entries[i].1);
                    }
                    assert(es.skip(i as int).drop_first() =~= es.skip(i + 1));
                    i = i + 1;
                }
                None
            },
            _ => None,
        }
    }

    /// The text of this value, when it is a string.
    pub fn as_str(&self) -> (r: Option<&str>)
        ensures
            opt_text(r) == json_str(Some(self@)),
    {
        match self {
            JsonValue::Str(s) => Some(s.as_str()),
            _ => None,
        }
    }

    /// The string member `key` of this value, if there is one.
    pub fn get_str(&self, key: &str) -> (r: Option<&str>)
        ensures
            opt_text(r) == get_str(self@, key@),
    {
        match self.get(key) {
            Some(v) => v.as_str(),
            None => None,
        }
    }

    /// The boolean member `key` of this value, if there is one.
    pub fn get_bool(&self, key: &str) -> (r: Option<bool>)
        ensures
            r == json_bool(json_get(self@, key@)),
    {
        match self.get(key) {
            Some(JsonValue::Bool(b)) => Some(*b),
            _ => None,
        }
    }

    /// A copy of this value.
    pub fn deep_copy(&self) -> (r: JsonValue)
        ensures
            r@ == self@,
        decreases self,
    {
        match self {
            JsonValue::Null => JsonValue::Null,
            JsonValue::Bool(b) => JsonValue::Bool(*b),
            JsonValue::Number(t) => JsonValue::Number(t.clone()),
            JsonValue::Str(s) => JsonValue::Str(s.clone()),
            JsonValue::Array(items) => {
                let mut out: Vec<JsonValue> = Vec::new();
                let n = items.len();
                for i in 0..n
                    invariant
                        n == items@.len(),
                        *self == JsonValue::Array(*items),
                        out@.len() == i,
                        forall|j: int| 0 <= j < i ==> #[trigger] json_model(out@[j]) == json_model(items@[j]),
                {
                    proof {
                        assert(decreases_to!(*self => (*self)->Array_0));
                        assert(decreases_to!(*items => items[i as int]));
                    }
                    let c = items[i].deep_copy();
                    out.push(c);
                }
                proof {
                    lemma_items_model(out, n as int);
                    lemma_items_model(*items, n as int);
                    assert(items_model(out, n as int) =~= items_model(*items, n as int));
                }
                JsonValue::Array(out)
            },
            JsonValue::Object(entries) => {
                let mut out: Vec<(String, JsonValue)> = Vec::new();
                let n = entries.len();
                for i in 0..n
                    invariant
                        n == entries@.len(),
                        *self == JsonValue::Object(*entries),
                        out@.len() == i,
                        forall|j: int|
                            #![trigger out@[j]]
                            0 <= j < i ==> out@[j].0@ == entries@[j].0@ && json_model(out@[j].1)
                                == json_model(entries@[j].1),
                {
                    proof {
                        assert(decreases_to!(*self => (*self)->Object_0));
                        assert(decreases_to!(*entries => entries[i as int]));
                        assert(decreases_to!(entries[i as int] => entries[i as int].1));
                    }
                    let c = entries[i].1.deep_copy();
                    out.push((entries[i].0.clone(), c));
                }
                proof {
                    lemma_entries_model(out, n as int);
                    lemma_entries_model(*entries, n as int);
                    assert(entries_model(out, n as int) =~= entries_model(*entries, n as int));
                }
                JsonValue::Object(out)
            },
        }
    }
}

/// The lower-case hexadecimal digits.
pub open spec fn hex_digits() -> Seq<char> {
    seq!['0', '1', '2', '3', '4', '5', '6', '7', '8', '9', 'a', 'b', 'c', 'd', 'e', 'f']
}

/// How a character stands inside a JSON string literal in compact output:
/// the quote, the backslash and the control characters are escaped, every
/// other character stands for itself.
pub open spec fn escape_char(c: char) -> Seq<char> {
    let u = c as u32;
    if c == '"' {
        seq!['\\', '"']
    } else if c == '\\' {
        seq!['\\', '\\']
    } else if u == 0x08 {
        seq!['\\', 'b']
    } else if u == 0x09 {
        seq!['\\', 't']
    } else if u == 0x0a {
        seq!['\\', 'n']
    } else if u == 0x0c {
        seq!['\\', 'f']
    } else if u == 0x0d {
        seq!['\\', 'r']
    } else if u < 0x20 {
        seq!['\\', 'u', '0', '0', hex_digits()[(u / 16) as int], hex_digits()[(u % 16) as int]]
    } else {
        seq![c]
    }
}

/// The characters of `s`, each as it stands inside a JSON string literal.
pub open spec fn escaped(s: Seq<char>) -> Seq<char>
    decreases s.len(),
{
    if s.len() == 0 {
        seq![]
    } else {
        escaped(s.drop_last()) + escape_char(s.last())
    }
}

/// `s` as a JSON string literal.
pub open spec fn quoted(s: Seq<char>) -> Seq<char> {
    seq!['"'] + escaped(s) + seq!['"']
}

/// The compact JSON text of a value (no white space between tokens), as
/// `serde_json::to_string` writes it.
pub open spec fn json_text(j: Json) -> Seq<char>
    decreases j, 0int,
{
    match j {
        Json::Null => seq!['n', 'u', 'l', 'l'],
        Json::Bool(b) => if b {
            seq!['t', 'r', 'u', 'e']
        } else {
            seq!['f', 'a', 'l', 's', 'e']
        },
        Json::Number(t) => t,
        Json::Str(s) => quoted(s),
        Json::Array(items) => seq!['['] + items_text(items, items.len() as int) + seq![']'],
        Json::Object(es) => seq!['{'] + entries_text(es, es.len() as int) + seq!['}'],
    }
}

/// The texts of the first `n` items, separated by commas.
pub open spec fn items_text(items: Seq<Json>, n: int) -> Seq<char>
    decreases items, n,
{
    if n <= 0 || n > items.len() {
        seq![]
    } else {
        proof {
            assert(decreases_to!(items => items[n - 1]));
        }
        let last = json_text(items[n - 1]);
        if n == 1 {
            last
        } else {
            items_text(items, n - 1) + seq![','] + last
        }
    }
}

/// The first `n` members as `"key":value`, separated by commas.
pub open spec fn entries_text(es: Seq<(Seq<char>, Json)>, n: int) -> Seq<char>
    decreases es, n,
{
    if n <= 0 || n > es.len() {
        seq![]
    } else {
        proof {
            assert(decreases_to!(es => es[n - 1]));
            assert(decreases_to!(es[n - 1] => es[n - 1].1));
        }
        let last = quoted(es[n - 1].0) + seq![':'] + json_text(es[n - 1].1);
        if n == 1 {
            last
        } else {
            entries_text(es, n - 1) + seq![','] + last
        }
    }
}

/// Whether the text `a` sorts before the text `b` in the order of `String`
/// (character by character, a proper prefix first).
pub open spec fn key_lt(a: Seq<char>, b: Seq<char>) -> bool
    decreases a.len(),
{
    if b.len() == 0 {
        false
    } else if a.len() == 0 {
        true
    } else if (a[0] as u32) < (b[0] as u32) {
        true
    } else if a[0] == b[0] {
        key_lt(a.drop_first(), b.drop_first())
    } else {
        false
    }
}

/// Whether each key of `es` sorts before the next, as the keys of a
/// `serde_json::Map` do (which keeps one entry per key, in key order).
pub open spec fn keys_in_order(es: Seq<(Seq<char>, Json)>) -> bool {
    forall|i: int| 0 <= i < es.len() - 1 ==> key_lt(#[trigger] es[i].0, es[i + 1].0)
}

/// Whether every object in `j`, at any depth, has its keys in order.
pub open spec fn keys_sorted(j: Json) -> bool
    decreases j, 0int,
{
    match j {
        Json::Array(items) => items_sorted(items, items.len() as int),
        Json::Object(es) => keys_in_order(es) && entries_sorted(es, es.len() as int),
        _ => true,
    }
}

/// Whether the first `n` items have their object keys in order.
pub open spec fn items_sorted(items: Seq<Json>, n: int) -> bool
    decreases items, n,
{
    if n <= 0 || n > items.len() {
        true
    } else {
        proof {
            assert(decreases_to!(items => items[n - 1]));
        }
        items_sorted(items, n - 1) && keys_sorted(items[n - 1])
    }
}

/// Whether the values of the first `n` entries have their object keys in order.
pub open spec fn entries_sorted(es: Seq<(Seq<char>, Json)>, n: int) -> bool
    decreases es, n,
{
    if n <= 0 || n > es.len() {
        true
    } else {
        proof {
            assert(decreases_to!(es => es[n - 1]));
            assert(decreases_to!(es[n - 1] => es[n - 1].1));
        }
        entries_sorted(es, n - 1) && keys_sorted(es[n - 1].1)
    }
}

/// No text sorts before itself.
pub proof fn lemma_key_lt_irreflexive(a: Seq<char>)
    ensures
        !key_lt(a, a),
    decreases a.len(),
{
    if a.len() > 0 {
        lemma_key_lt_irreflexive(a.drop_first());
    }
}

/// The order of texts is transitive.
pub proof fn lemma_key_lt_transitive(a: Seq<char>, b: Seq<char>, c: Seq<char>)
    requires
        key_lt(a, b),
        key_lt(b, c),
    ensures
        key_lt(a, c),
    decreases a.len(),
{
    if a.len() > 0 && b.len() > 0 && c.len() > 0 && a[0] == b[0] && b[0] == c[0] {
        lemma_key_lt_transitive(a.drop_first(), b.drop_first(), c.drop_first());
    }
}

/// Keys in order are strictly increasing, so no key occurs twice.
pub proof fn keys_in_order_strictly_increase(es: Seq<(Seq<char>, Json)>)
    requires
        keys_in_order(es),
    ensures
        forall|i: int, j: int|
            0 <= i < j < es.len() ==> key_lt(#[trigger] es[i].0, #[trigger] es[j].0) && es[i].0
                != es[j].0,
{
    assert forall|i: int, j: int| 0 <= i < j < es.len() implies key_lt(
        #[trigger] es[i].0,
        #[trigger] es[j].0,
    ) && es[i].0 != es[j].0 by {
        lemma_keys_in_order_from(es, i, j);
        lemma_key_lt_irreflexive(es[i].0);
    }
}

proof fn lemma_keys_in_order_from(es: Seq<(Seq<char>, Json)>, i: int, j: int)
    requires
        keys_in_order(es),
        0 <= i < j < es.len(),
    ensures
        key_lt(es[i].0, es[j].0),
    decreases j - i,
{
    if j > i + 1 {
        lemma_keys_in_order_from(es, i, j - 1);
        assert(key_lt(es[j - 1].0, es[j].0));
        lemma_key_lt_transitive(es[i].0, es[j - 1].0, es[j].0);
    }
}

/// An array has its object keys in order when each item has.
pub proof fn lemma_items_sorted(items: Seq<Json>, n: int)
    requires
        0 <= n <= items.len(),
    ensures
        items_sorted(items, n) <==> forall|i: int| 0 <= i < n ==> keys_sorted(#[trigger] items[i]),
    decreases n,
{
    if n > 0 {
        lemma_items_sorted(items, n - 1);
    }
}

/// An object's values have their object keys in order when each value has.
pub proof fn lemma_entries_sorted(es: Seq<(Seq<char>, Json)>, n: int)
    requires
        0 <= n <= es.len(),
    ensures
        entries_sorted(es, n) <==> forall|i: int| 0 <= i < n ==> keys_sorted(#[trigger] es[i].1),
    decreases n,
{
    if n > 0 {
        lemma_entries_sorted(es, n - 1);
    }
}

fn hex_digit_char(n: u32) -> (r: char)
    requires
        n < 16,
    ensures
        r == hex_digits()[n as int],
{
    if n == 0 { '0' } else if n == 1 { '1' } else if n == 2 { '2' } else if n == 3 { '3' }
    else if n == 4 { '4' } else if n == 5 { '5' } else if n == 6 { '6' } else if n == 7 { '7' }
    else if n == 8 { '8' } else if n == 9 { '9' } else if n == 10 { 'a' } else if n == 11 { 'b' }
    else if n == 12 { 'c' } else if n == 13 { 'd' } else if n == 14 { 'e' } else { 'f' }
}

fn push_str(out: &mut String, s: &str)
    ensures
        final(out)@ == old(out)@ + s@,
{
    out.append(s);
}

fn push_escaped_char(out: &mut String, c: char)
    ensures
        final(out)@ == old(out)@ + escape_char(c),
{
    let u = c as u32;
    let ghost base = out@;
    if c == '"' {
        push_char(out, '\\');
        push_char(out, '"');
    } else if c == '\\' {
        push_char(out, '\\');
        push_char(out, '\\');
    } else if u == 0x08 {
        push_char(out, '\\');
        push_char(out, 'b');
    } else if u == 0x09 {
        push_char(out, '\\');
        push_char(out, 't');
    } else if u == 0x0a {
        push_char(out, '\\');
        push_char(out, 'n');
    } else if u == 0x0c {
        push_char(out, '\\');
        push_char(out, 'f');
    } else if u == 0x0d {
        push_char(out, '\\');
        push_char(out, 'r');
    } else if u < 0x20 {
        push_char(out, '\\');
        push_char(out, 'u');
        push_char(out, '0');
        push_char(out, '0');
        push_char(out, hex_digit_char(u / 16));
        push_char(out, hex_digit_char(u % 16));
    } else {
        push_char(out, c);
    }
    assert(out@ =~= base + escape_char(c));
}

/// Appends `s` as a JSON string literal.
fn push_quoted(out: &mut String, s: &str)
    ensures
        final(out)@ == old(out)@ + quoted(s@),
{
    let ghost base = out@;
    let ghost t = s@;
    push_char(out, '"');
    for c in it: s.chars()
        invariant
            it.seq() == t,
            out@ == base + seq!['"'] + escaped(t.take(it.index() as int)),
    {
        let ghost i = it.index() as int;
        proof {
            assert(t.take(i + 1).drop_last() =~= t.take(i));
            assert(t.take(i + 1).last() == c);
        }
        push_escaped_char(out, c);
        assert(out@ =~= base + seq!['"'] + escaped(t.take(i + 1)));
    }
    assert(t.take(t.len() as int) =~= t);
    push_char(out, '"');
    assert(out@ =~= base + quoted(t));
}

/// Appends the compact JSON text of `v` to `out`.
pub fn write_json_text(v: &JsonValue, out: &mut String)
    ensures
        final(out)@ == old(out)@ + json_text(v@),
    decreases v,
{
    let ghost base = out@;
    match v {
        JsonValue::Null => {
            proof {
                reveal_strlit("null");
            }
            push_str(out, "null");
            assert(out@ =~= base + json_text(v@));
        },
        JsonValue::Bool(b) => {
            proof {
                reveal_strlit("true");
                reveal_strlit("false");
            }
            if *b {
                push_str(out, "true");
            } else {
                push_str(out, "false");
            }
            assert(out@ =~= base + json_text(v@));
        },
        JsonValue::Number(t) => push_str(out, t.as_str()),
        JsonValue::Str(s) => push_quoted(out, s.as_str()),
        JsonValue::Array(items) => {
            let ghost ms = items_model(*items, items@.len() as int);
            proof {
                lemma_items_model(*items, items@.len() as int);
            }
            push_char(out, '[');
            let n = items.len();
            for i in 0..n
                invariant
                    n == items@.len(),
                    *v == JsonValue::Array(*items),
                    ms.len() == n,
                    forall|j: int| 0 <= j < n ==> #[trigger] ms[j] == json_model(items@[j]),
                    out@ == base + seq!['['] + items_text(ms, i as int),
            {
                if i > 0 {
                    push_char(out, ',');
                }
                proof {
                    assert(decreases_to!(*v => (*v)->Array_0));
                    assert(decreases_to!(*items => items[i as int]));
                }
                write_json_text(&items[i], out);
                assert(out@ =~= base + seq!['['] + items_text(ms, i + 1));
            }
            push_char(out, ']');
            assert(out@ =~= base + json_text(v@));
        },
        JsonValue::Object(entries) => {
            let ghost es = entries_model(*entries, entries@.len() as int);
            proof {
                lemma_entries_model(*entries, entries@.len() as int);
            }
            push_char(out, '{');
            let n = entries.len();
            for i in 0..n
                invariant
                    n == entries@.len(),
                    *v == JsonValue::Object(*entries),
                    es.len() == n,
                    forall|j: int|
                        0 <= j < n ==> #[trigger] es[j] == (
                            entries@[j].0@,
                            json_model(entries@[j].1),
                        ),
                    out@ == base + seq!['{'] + entries_text(es, i as int),
            {
                if i > 0 {
                    push_char(out, ',');
                }
                push_quoted(out, entries[i].0.as_str());
                push_char(out, ':');
                proof {
                    assert(decreases_to!(*v => (*v)->Object_0));
                    assert(decreases_to!(*entries => entries[i as int]));
                    assert(decreases_to!(entries[i as int] => entries[i as int].1));
                }
                write_json_text(&entries[i].1, out);
                assert(out@ =~= base + seq!['{'] + entries_text(es, i + 1));
            }
            push_char(out, '}');
            assert(out@ =~= base + json_text(v@));
        },
    }
}

/// The text of a JSON value: a string as it is, any other value as its
/// compact JSON text.
pub open spec fn json_as_text(j: Json) -> Seq<char> {
    match j {
        Json::Str(s) => s,
        _ => json_text(j),
    }
}

/// The text of a JSON value: a string as it is, any other value as its
/// compact JSON text.
pub fn json_to_string(v: &JsonValue) -> (r: String)
    ensures
        r@ == json_as_text(v@),
{
    match v {
        JsonValue::Str(s) => s.clone(),
        _ => {
            let mut out = String::new();
            write_json_text(v, &mut out);
            out
        },
    }
}

/// The values of a sequence of entries.
pub open spec fn entries_view(es: Seq<(String, JsonValue)>) -> Seq<(Seq<char>, Json)> {
    es.map_values(|e: (String, JsonValue)| (e.0@, e.1@))
}

/// The values of a sequence of documents.
pub open spec fn values_view(vs: Seq<JsonValue>) -> Seq<Json> {
    vs.map_values(|v: JsonValue| v@)
}

/// An object of the given entries, in their order.
pub fn object_of(entries: Vec<(String, JsonValue)>) -> (r: JsonValue)
    ensures
        r@ == Json::Object(entries_view(entries@)),
{
    proof {
        lemma_entries_model(entries, entries@.len() as int);
        assert(entries_model(entries, entries@.len() as int) =~= entries_view(entries@));
    }
    JsonValue::Object(entries)
}

/// An array of the given items, in their order.
pub fn array_of(items: Vec<JsonValue>) -> (r: JsonValue)
    ensures
        r@ == Json::Array(values_view(items@)),
{
    proof {
        lemma_items_model(items, items@.len() as int);
        assert(items_model(items, items@.len() as int) =~= values_view(items@));
    }
    JsonValue::Array(items)
}

/// A string value.
pub fn string_of(s: &str) -> (r: JsonValue)
    ensures
        r@ == Json::Str(s@),
{
    JsonValue::Str(s.to_string())
}

} // verus!
