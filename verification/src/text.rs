use vstd::prelude::*;

verus! {

/// The Unicode `White_Space` property, which `char::is_whitespace` tests.
pub open spec fn is_white_space(c: char) -> bool {
    let u = c as u32;
    ||| (0x09 <= u && u <= 0x0d)
    ||| u == 0x20
    ||| u == 0x85
    ||| u == 0xa0
    ||| u == 0x1680
    ||| (0x2000 <= u && u <= 0x200a)
    ||| u == 0x2028
    ||| u == 0x2029
    ||| u == 0x202f
    ||| u == 0x205f
    ||| u == 0x3000
}

/// Whether `c` has the Unicode `White_Space` property.
pub fn is_whitespace_char(c: char) -> (r: bool)
    ensures
        r == is_white_space(c),
{
    let u = c as u32;
    (0x09 <= u && u <= 0x0d) || u == 0x20 || u == 0x85 || u == 0xa0 || u == 0x1680 || (0x2000
        <= u && u <= 0x200a) || u == 0x2028 || u == 0x2029 || u == 0x202f || u == 0x205f || u
        == 0x3000
}

/// Appends one character to a string (`String::push`).
#[verifier::external_body]
pub(crate) fn push_char(s: &mut String, c: char)
    ensures
        final(s)@ == old(s)@.push(c),
{
    s.push(c);
}

/// The words of `s`: its maximal runs of characters that are not white space,
/// in order (what `str::split_whitespace` yields).
pub open spec fn words(s: Seq<char>) -> Seq<Seq<char>>
    decreases s.len(),
{
    if s.len() == 0 {
        seq![]
    } else {
        let ws = words(s.drop_last());
        let c = s.last();
        if is_white_space(c) {
            ws
        } else if s.len() > 1 && !is_white_space(s[s.len() - 2]) {
            ws.update(ws.len() - 1, ws.last().push(c))
        } else {
            ws.push(seq![c])
        }
    }
}

/// The strings of `ws` joined with a single space between neighbours
/// (what `[&str]::join(" ")` gives).
pub open spec fn join_with_space(ws: Seq<Seq<char>>) -> Seq<char>
    decreases ws.len(),
{
    if ws.len() == 0 {
        seq![]
    } else if ws.len() == 1 {
        ws[0]
    } else {
        join_with_space(ws.drop_last()) + seq![' '] + ws.last()
    }
}

/// `s` with every run of white space collapsed to one space and white space
/// at both ends removed.
pub open spec fn collapsed(s: Seq<char>) -> Seq<char> {
    join_with_space(words(s))
}

proof fn lemma_words_nonempty(s: Seq<char>)
    requires
        s.len() > 0,
        !is_white_space(s.last()),
    ensures
        words(s).len() > 0,
    decreases s.len(),
{
    if s.len() > 1 && !is_white_space(s[s.len() - 2]) {
        lemma_words_nonempty(s.drop_last());
    }
}

proof fn lemma_join_extend_last(ws: Seq<Seq<char>>, c: char)
    requires
        ws.len() > 0,
    ensures
        join_with_space(ws.update(ws.len() - 1, ws.last().push(c))) == join_with_space(ws).push(c),
{
    let ws2 = ws.update(ws.len() - 1, ws.last().push(c));
    if ws.len() > 1 {
        assert(ws2.drop_last() =~= ws.drop_last());
        assert(join_with_space(ws2) =~= join_with_space(ws).push(c));
    }
}

pub(crate) proof fn lemma_join_push(ws: Seq<Seq<char>>, w: Seq<char>)
    ensures
        join_with_space(ws.push(w)) == if ws.len() == 0 {
            w
        } else {
            join_with_space(ws) + seq![' '] + w
        },
{
    assert(ws.push(w).drop_last() =~= ws);
}

/// The words of `text` joined by single spaces
/// (`text.split_whitespace().collect::<Vec<_>>().join(" ")`).
pub fn collapse_whitespace(text: &str) -> (r: String)
    ensures
        r@ == collapsed(text@),
{
    let mut out = String::new();
    let mut in_word = false;
    let mut has_word = false;
    let ghost s = text@;
    for c in it: text.chars()
        invariant
            it.seq() == s,
            out@ == collapsed(s.take(it.index() as int)),
            in_word == (it.index() > 0 && !is_white_space(s[it.index() - 1])),
            has_word == (words(s.take(it.index() as int)).len() > 0),
    {
        let ghost i = it.index() as int;
        let ghost p = s.take(i);
        let ghost q = s.take(i + 1);
        assert(q.drop_last() =~= p);
        assert(q.last() == c);
        if is_whitespace_char(c) {
            in_word = false;
        } else {
            if in_word {
                proof {
                    assert(p.last() == s[i - 1]);
                    lemma_words_nonempty(p);
                    lemma_join_extend_last(words(p), c);
                }
            } else {
                proof {
                    lemma_join_push(words(p), seq![c]);
                }
                if has_word {
                    push_char(&mut out, ' ');
                }
            }
            push_char(&mut out, c);
            in_word = true;
            has_word = true;
            proof {
                assert(out@ =~= collapsed(q));
            }
        }
    }
    assert(s.take(s.len() as int) =~= s);
    out
}


/// Whether every character of `s` is white space (`s.trim().is_empty()`).
pub open spec fn is_blank(s: Seq<char>) -> bool {
    forall|i: int| 0 <= i < s.len() ==> is_white_space(#[trigger] s[i])
}

/// Whether `line` holds nothing but white space (`line.trim().is_empty()`).
pub fn is_blank_line(line: &str) -> (r: bool)
    ensures
        r == is_blank(line@),
{
    let ghost s = line@;
    for c in it: line.chars()
        invariant
            it.seq() == s,
            s == line@,
            forall|j: int| 0 <= j < it.index() ==> is_white_space(#[trigger] s[j]),
    {
        if !is_whitespace_char(c) {
            assert(s[it.index() as int] == c);
            return false;
        }
    }
    true
}

/// The first `n` characters of `s`, or all of `s` when it is shorter.
pub open spec fn prefix_chars(s: Seq<char>, n: nat) -> Seq<char> {
    if s.len() <= n {
        s
    } else {
        s.take(n as int)
    }
}

/// The first `n` characters of `text` (`text.chars().take(n).collect()`).
pub fn take_chars(text: &str, n: usize) -> (r: String)
    ensures
        r@ == prefix_chars(text@, n as nat),
{
    let mut out = String::new();
    let mut count: usize = 0;
    let ghost s = text@;
    for c in it: text.chars()
        invariant
            it.seq() == s,
            s == text@,
            count == it.index(),
            count <= n,
            out@ == s.take(count as int),
    {
        if count == n {
            assert(count < s.len());
            return out;
        }
        push_char(&mut out, c);
        proof {
            assert(s.take(count + 1) =~= s.take(count as int).push(c));
        }
        count = count + 1;
    }
    assert(s.take(s.len() as int) =~= s);
    out
}

/// Whether `c` is an ASCII letter or digit (`char::is_ascii_alphanumeric`).
pub open spec fn is_ascii_alnum(c: char) -> bool {
    let u = c as u32;
    ||| (0x30 <= u && u <= 0x39)
    ||| (0x41 <= u && u <= 0x5a)
    ||| (0x61 <= u && u <= 0x7a)
}

/// Whether `c` is an ASCII letter or digit.
pub fn is_ascii_alnum_char(c: char) -> (r: bool)
    ensures
        r == is_ascii_alnum(c),
{
    let u = c as u32;
    (0x30 <= u && u <= 0x39) || (0x41 <= u && u <= 0x5a) || (0x61 <= u && u <= 0x7a)
}

/// `s` with every character that is not an ASCII letter or digit replaced by `-`.
pub open spec fn slug_body(s: Seq<char>) -> Seq<char> {
    Seq::new(s.len(), |i: int| if is_ascii_alnum(s[i]) { s[i] } else { '-' })
}

/// The directory name under which Droid keeps the sessions of a working
/// directory: the slug body, with a `-` in front unless it starts with one.
pub open spec fn droid_slug(path: Seq<char>) -> Seq<char> {
    let body = slug_body(path);
    if body.len() > 0 && body[0] == '-' {
        body
    } else {
        seq!['-'] + body
    }
}

/// The Droid project slug of a working directory path.
pub fn path_to_droid_slug(path: &str) -> (r: String)
    ensures
        r@ == droid_slug(path@),
{
    let mut body = String::new();
    let ghost s = path@;
    for c in it: path.chars()
        invariant
            it.seq() == s,
            body@ == slug_body(s.take(it.index() as int)),
    {
        let ghost i = it.index() as int;
        if is_ascii_alnum_char(c) {
            push_char(&mut body, c);
        } else {
            push_char(&mut body, '-');
        }
        proof {
            assert(body@ =~= slug_body(s.take(i + 1)));
        }
    }
    assert(s.take(s.len() as int) =~= s);
    let starts_with_dash = match body.as_str().chars().next() {
        Some(first) => first == '-',
        None => false,
    };
    if starts_with_dash {
        body
    } else {
        let mut slug = String::new();
        push_char(&mut slug, '-');
        slug.append(body.as_str());
        proof {
            assert(slug@ =~= droid_slug(s));
        }
        slug
    }
}


/// Whether two strings hold the same characters.
pub fn str_eq(a: &str, b: &str) -> (r: bool)
    ensures
        r == (a@ == b@),
{
    let n = b.unicode_len();
    let mut i: usize = 0;
    let ghost s = a@;
    for c in it: a.chars()
        invariant
            it.seq() == s,
            s == a@,
            i == it.index(),
            n == b@.len(),
            forall|j: int| 0 <= j < i ==> s[j] == b@[j],
    {
        if i >= n {
            assert(a@.len() != b@.len());
            return false;
        }
        if b.get_char(i) != c {
            assert(a@[i as int] != b@[i as int]);
            return false;
        }
        i = i + 1;
    }
    if i == n {
        assert(a@ =~= b@);
        true
    } else {
        false
    }
}

/// Whether `w` is a word: not empty and free of white space.
pub open spec fn is_word(w: Seq<char>) -> bool {
    w.len() > 0 && forall|i: int| 0 <= i < w.len() ==> !is_white_space(#[trigger] w[i])
}

/// Whether `t` is text with collapsed white space: every white space
/// character in it is a single space between two characters that are not
/// white space.
pub open spec fn is_collapsed_text(t: Seq<char>) -> bool {
    forall|i: int|
        0 <= i < t.len() && is_white_space(#[trigger] t[i]) ==> t[i] == ' ' && 0 < i && i + 1
            < t.len() && !is_white_space(t[i - 1]) && !is_white_space(t[i + 1])
}

proof fn lemma_words_are_words(s: Seq<char>)
    ensures
        forall|k: int| 0 <= k < words(s).len() ==> is_word(#[trigger] words(s)[k]),
    decreases s.len(),
{
    if s.len() > 0 {
        lemma_words_are_words(s.drop_last());
        let ws = words(s.drop_last());
        let c = s.last();
        if !is_white_space(c) && s.len() > 1 && !is_white_space(s[s.len() - 2]) {
            lemma_words_nonempty(s.drop_last());
            let nw = ws.last().push(c);
            assert(is_word(ws.last()));
            assert(is_word(nw)) by {
                assert forall|i: int| 0 <= i < nw.len() implies !is_white_space(#[trigger] nw[i]) by {
                    if i < nw.len() - 1 {
                        assert(nw[i] == ws.last()[i]);
                    }
                }
            }
        }
    }
}

proof fn lemma_join_collapsed(ws: Seq<Seq<char>>)
    requires
        forall|k: int| 0 <= k < ws.len() ==> is_word(#[trigger] ws[k]),
    ensures
        is_collapsed_text(join_with_space(ws)),
        ws.len() > 0 ==> join_with_space(ws).len() > 0 && !is_white_space(join_with_space(ws)[0])
            && !is_white_space(join_with_space(ws).last()),
    decreases ws.len(),
{
    if ws.len() == 1 {
        assert(is_word(ws[0]));
    } else if ws.len() > 1 {
        let p = ws.drop_last();
        lemma_join_collapsed(p);
        let a = join_with_space(p);
        let w = ws.last();
        assert(is_word(w));
        let t = join_with_space(ws);
        assert(t == a + seq![' '] + w);
        assert forall|i: int|
            0 <= i < t.len() && is_white_space(#[trigger] t[i]) implies t[i] == ' ' && 0 < i && i
            + 1 < t.len() && !is_white_space(t[i - 1]) && !is_white_space(t[i + 1]) by {
            if i < a.len() {
                assert(t[i] == a[i]);
                if i + 1 < a.len() {
                    assert(t[i + 1] == a[i + 1]);
                }
                if i > 0 {
                    assert(t[i - 1] == a[i - 1]);
                }
            } else if i == a.len() {
                assert(t[i - 1] == a.last());
                assert(t[i + 1] == w[0]);
            } else {
                assert(t[i] == w[i - a.len() - 1]);
            }
        }
        assert(t[0] == a[0]);
        assert(t.last() == w.last());
    }
}

proof fn lemma_words_space(a: Seq<char>)
    ensures
        words(a.push(' ')) == words(a),
{
    assert(a.push(' ').drop_last() =~= a);
    assert(is_white_space(' '));
}

proof fn lemma_words_append_word(a: Seq<char>, w: Seq<char>)
    requires
        is_word(w),
        a.len() == 0 || is_white_space(a.last()),
    ensures
        words(a + w) == words(a).push(w),
    decreases w.len(),
{
    let t = a + w;
    let c = w.last();
    assert(!is_white_space(c));
    assert(t.drop_last() =~= a + w.drop_last());
    assert(t.last() == c);
    if w.len() == 1 {
        assert(w.drop_last() =~= Seq::<char>::empty());
        assert(a + w.drop_last() =~= a);
        assert(w =~= seq![c]);
    } else {
        let w1 = w.drop_last();
        assert(is_word(w1)) by {
            assert forall|i: int| 0 <= i < w1.len() implies !is_white_space(#[trigger] w1[i]) by {
                assert(w1[i] == w[i]);
            }
        }
        lemma_words_append_word(a, w1);
        assert(t[t.len() - 2] == w[w.len() - 2]);
        assert(w1.push(c) =~= w);
        assert(words(a).push(w1).update(words(a).len() as int, w1.push(c)) =~= words(a).push(w));
    }
}

proof fn lemma_words_of_join(ws: Seq<Seq<char>>)
    requires
        forall|k: int| 0 <= k < ws.len() ==> is_word(#[trigger] ws[k]),
    ensures
        words(join_with_space(ws)) == ws,
    decreases ws.len(),
{
    if ws.len() == 0 {
        assert(words(join_with_space(ws)) =~= ws);
    } else if ws.len() == 1 {
        assert(is_word(ws[0]));
        lemma_words_append_word(seq![], ws[0]);
        assert(Seq::<char>::empty() + ws[0] =~= ws[0]);
        assert(words(Seq::<char>::empty()) =~= Seq::<Seq<char>>::empty());
        assert(Seq::<Seq<char>>::empty().push(ws[0]) =~= ws);
    } else {
        let p = ws.drop_last();
        let a = join_with_space(p);
        let w = ws.last();
        assert(is_word(w));
        lemma_words_of_join(p);
        lemma_words_space(a);
        lemma_words_append_word(a.push(' '), w);
        assert(a + seq![' '] + w =~= a.push(' ') + w);
        assert(p.push(w) =~= ws);
    }
}

/// Collapsed text has no white space at either end and none but single
/// spaces between words.
pub proof fn collapsed_is_normal(s: Seq<char>)
    ensures
        is_collapsed_text(collapsed(s)),
        collapsed(s).len() > 0 ==> !is_white_space(collapsed(s)[0]) && !is_white_space(
            collapsed(s).last(),
        ),
{
    lemma_words_are_words(s);
    lemma_join_collapsed(words(s));
}

/// Collapsing white space twice gives what collapsing once gives.
pub proof fn collapse_idempotent(s: Seq<char>)
    ensures
        collapsed(collapsed(s)) == collapsed(s),
{
    lemma_words_are_words(s);
    lemma_words_of_join(words(s));
}

/// A Droid slug starts with `-` and holds only ASCII letters, digits and `-`.
pub proof fn droid_slug_shape(path: Seq<char>)
    ensures
        droid_slug(path).len() > 0,
        droid_slug(path)[0] == '-',
        forall|i: int|
            0 <= i < droid_slug(path).len() ==> is_ascii_alnum(#[trigger] droid_slug(path)[i])
                || droid_slug(path)[i] == '-',
{
    let body = slug_body(path);
    let r = droid_slug(path);
    if !(body.len() > 0 && body[0] == '-') {
        assert forall|i: int| 0 <= i < r.len() implies is_ascii_alnum(#[trigger] r[i]) || r[i]
            == '-' by {
            if i > 0 {
                assert(r[i] == body[i - 1]);
            }
        }
    }
}

/// The slug of a slug is the slug itself.
pub proof fn droid_slug_idempotent(path: Seq<char>)
    ensures
        droid_slug(droid_slug(path)) == droid_slug(path),
{
    let r = droid_slug(path);
    droid_slug_shape(path);
    assert(slug_body(r) =~= r);
}

/// Whether `c` is an ASCII digit or an ASCII letter of either case, by its
/// code point.
pub open spec fn is_ascii_letter_or_digit(c: char) -> bool {
    ('0' as u32 <= c as u32 && c as u32 <= '9' as u32) || ('A' as u32 <= c as u32 && c as u32
        <= 'Z' as u32) || ('a' as u32 <= c as u32 && c as u32 <= 'z' as u32)
}

/// The slug of a path keeps every ASCII letter and digit of the path at its
/// place and puts `-` in the place of every other character; a `-` is put in
/// front unless the path's first character already became one.
pub proof fn droid_slug_keeps_letters_and_digits(path: Seq<char>)
    ensures
        ({
            let slug = droid_slug(path);
            let off = slug.len() - path.len();
            &&& off == 0 || off == 1
            &&& off == 0 <==> (path.len() > 0 && !is_ascii_letter_or_digit(path[0]))
            &&& slug[0] == '-'
            &&& forall|i: int|
                0 <= i < path.len() ==> #[trigger] slug[i + off] == if is_ascii_letter_or_digit(
                    path[i],
                ) {
                    path[i]
                } else {
                    '-'
                }
        }),
{
    let slug = droid_slug(path);
    let body = slug_body(path);
    assert forall|i: int| 0 <= i < path.len() implies body[i] == if is_ascii_letter_or_digit(
        path[i],
    ) {
        path[i]
    } else {
        '-'
    } by {
        if is_ascii_letter_or_digit(path[i]) {
            assert(is_ascii_alnum(path[i]));
        } else {
            assert(!is_ascii_alnum(path[i]));
        }
    }
    if path.len() > 0 {
        assert(is_ascii_letter_or_digit(path[0]) ==> body[0] == path[0] && path[0] != '-');
    }
    if !(body.len() > 0 && body[0] == '-') {
        assert forall|i: int| 0 <= i < path.len() implies #[trigger] slug[i + 1] == body[i] by {}
    }
}

/// The words of each text of `ts`, one text after the other.
pub open spec fn all_words(ts: Seq<Seq<char>>) -> Seq<Seq<char>>
    decreases ts.len(),
{
    if ts.len() == 0 {
        seq![]
    } else {
        all_words(ts.drop_last()) + words(ts.last())
    }
}

proof fn lemma_words_concat(a: Seq<char>, b: Seq<char>)
    requires
        a.len() == 0 || is_white_space(a.last()),
    ensures
        words(a + b) == words(a) + words(b),
    decreases b.len(),
{
    if b.len() == 0 {
        assert(a + b =~= a);
        assert(words(b) =~= Seq::<Seq<char>>::empty());
        assert(words(a) + words(b) =~= words(a));
    } else {
        let t = a + b;
        let c = b.last();
        lemma_words_concat(a, b.drop_last());
        assert(t.drop_last() =~= a + b.drop_last());
        assert(t.last() == c);
        let wa = words(a);
        let wb = words(b.drop_last());
        if is_white_space(c) {
        } else if b.len() > 1 && !is_white_space(b[b.len() - 2]) {
            assert(t[t.len() - 2] == b[b.len() - 2]);
            lemma_words_nonempty(b.drop_last());
            assert(b.drop_last().last() == b[b.len() - 2]);
            assert((wa + wb).update((wa + wb).len() - 1, (wa + wb).last().push(c)) =~= wa + wb.update(
                wb.len() - 1,
                wb.last().push(c),
            ));
        } else {
            if b.len() > 1 {
                assert(t[t.len() - 2] == b[b.len() - 2]);
            } else if a.len() > 0 {
                assert(t[t.len() - 2] == a.last());
            }
            if b.len() == 1 {
                assert(b.drop_last() =~= Seq::<char>::empty());
                assert(words(b.drop_last()) =~= Seq::<Seq<char>>::empty());
            }
            assert((wa + wb).push(seq![c]) =~= wa + wb.push(seq![c]));
        }
    }
}

/// The words of texts joined by single spaces are the words of each text,
/// in order, those of different texts kept apart.
pub proof fn words_of_joined_texts(ts: Seq<Seq<char>>)
    ensures
        words(join_with_space(ts)) == all_words(ts),
    decreases ts.len(),
{
    if ts.len() == 0 {
        assert(words(seq![]) =~= Seq::<Seq<char>>::empty());
    } else if ts.len() == 1 {
        assert(ts.drop_last() =~= Seq::<Seq<char>>::empty());
        assert(all_words(ts.drop_last()) =~= Seq::<Seq<char>>::empty());
        assert(all_words(ts) =~= words(ts[0]));
    } else {
        let j = join_with_space(ts.drop_last());
        words_of_joined_texts(ts.drop_last());
        lemma_words_space(j);
        assert(is_white_space(' '));
        lemma_words_concat(j.push(' '), ts.last());
        assert(j + seq![' '] + ts.last() =~= j.push(' ') + ts.last());
    }
}

/// Collapsing white space keeps the words.
pub proof fn words_of_collapsed(s: Seq<char>)
    ensures
        words(collapsed(s)) == words(s),
        collapsed(s).len() == 0 <==> words(s).len() == 0,
{
    lemma_words_are_words(s);
    lemma_words_of_join(words(s));
    lemma_join_collapsed(words(s));
    if words(s).len() == 0 {
        assert(collapsed(s) =~= Seq::<char>::empty());
    }
}

} // verus!
