use vstd::prelude::*;

use crate::text::push_char;

verus! {

/// `part` appended to `base` as `Path::join` does on Unix: an absolute part
/// replaces the base; otherwise a `/` goes between them unless the base is
/// empty or already ends with one.
pub open spec fn joined_path(base: Seq<char>, part: Seq<char>) -> Seq<char> {
    if part.len() > 0 && part[0] == '/' {
        part
    } else if base.len() == 0 || base.last() == '/' {
        base + part
    } else {
        base + seq!['/'] + part
    }
}

fn last_char(s: &str) -> (r: Option<char>)
    ensures
        r == if s@.len() > 0 {
            Some(s@.last())
        } else {
            None
        },
{
    let mut last: Option<char> = None;
    for c in it: s.chars()
        invariant
            it.seq() == s@,
            last == if it.index() > 0 {
                Some(s@[it.index() - 1])
            } else {
                None
            },
    {
        last = Some(c);
    }
    last
}

/// `part` appended to the path `base` (`Path::join` on Unix).
pub fn join_path(base: &str, part: &str) -> (r: String)
    ensures
        r@ == joined_path(base@, part@),
{
    let absolute = match part.chars().next() {
        Some(c) => c == '/',
        None => false,
    };
    proof {
        if part@.len() > 0 {
            assert(part@[0] == part@.first());
        }
    }
    if absolute {
        return part.to_string();
    }
    let mut out = base.to_string();
    let ends_with_slash = match last_char(base) {
        Some(c) => c == '/',
        None => false,
    };
    if !base.is_empty() && !ends_with_slash {
        push_char(&mut out, '/');
    }
    out.append(part);
    out
}

/// The position just after the last `/` of `p`, or 0 when it has none.
pub open spec fn piece_start(p: Seq<char>) -> int
    decreases p.len(),
{
    if p.len() == 0 {
        0
    } else if p.last() == '/' {
        p.len() as int
    } else {
        piece_start(p.drop_last())
    }
}

/// Where the final component of a Unix path lies when it is a name
/// (`Path::file_name`): trailing slashes and `.` components are passed over,
/// and a final `..` has no name.
pub open spec fn name_range(p: Seq<char>) -> Option<(int, int)>
    decreases p.len(),
{
    if p.len() == 0 {
        None
    } else if p.last() == '/' {
        name_range(p.drop_last())
    } else {
        let s = piece_start(p);
        let piece = p.subrange(s, p.len() as int);
        if piece == seq!['.'] {
            proof {
                lemma_piece_start(p);
            }
            name_range(p.take(s))
        } else if piece == seq!['.', '.'] {
            None
        } else {
            Some((s, p.len() as int))
        }
    }
}

/// The last piece of a path starts after its last slash.
pub proof fn lemma_piece_start(p: Seq<char>)
    ensures
        0 <= piece_start(p) <= p.len(),
        p.len() > 0 && p.last() != '/' ==> piece_start(p) < p.len(),
        forall|i: int| piece_start(p) <= i < p.len() ==> p[i] != '/',
        piece_start(p) > 0 ==> p[piece_start(p) - 1] == '/',
    decreases p.len(),
{
    if p.len() > 0 && p.last() != '/' {
        lemma_piece_start(p.drop_last());
        assert forall|i: int| piece_start(p) <= i < p.len() implies p[i] != '/' by {
            if i < p.len() - 1 {
                assert(p[i] == p.drop_last()[i]);
            }
        }
    }
}

/// The final component of a Unix path when it is a name.
pub open spec fn file_name(p: Seq<char>) -> Option<Seq<char>> {
    match name_range(p) {
        Some((s, e)) => Some(p.subrange(s, e)),
        None => None,
    }
}

/// Whether the path names a file with the extension `jsonl`
/// (`path.extension() == Some("jsonl")`): its file name ends in `.jsonl`
/// behind at least one character.
pub open spec fn has_jsonl_extension(p: Seq<char>) -> bool {
    match file_name(p) {
        Some(n) => n.len() > 6 && n.subrange(n.len() - 6, n.len() as int) == seq![
            '.',
            'j',
            's',
            'o',
            'n',
            'l',
        ],
        None => false,
    }
}

/// The last dot of `p` strictly between `lo` and `k`, or -1 when there is none.
pub open spec fn last_dot_between(p: Seq<char>, lo: int, k: int) -> int
    decreases k - lo,
{
    if k <= lo + 1 {
        -1
    } else if p[k - 1] == '.' {
        k - 1
    } else {
        last_dot_between(p, lo, k - 1)
    }
}

proof fn lemma_last_dot_between(p: Seq<char>, lo: int, k: int)
    ensures
        last_dot_between(p, lo, k) == -1 || (lo < last_dot_between(p, lo, k) < k),
    decreases k - lo,
{
    if k > lo + 1 && p[k - 1] != '.' {
        lemma_last_dot_between(p, lo, k - 1);
    }
}

/// Where the stem of the file name `p[s..e]` ends (`Path::file_stem`): at
/// its last dot, unless nothing stands before that dot or there is none.
pub open spec fn stem_end(p: Seq<char>, s: int, e: int) -> int {
    let d = last_dot_between(p, s, e);
    if d < 0 {
        e
    } else {
        d
    }
}

/// The path of the settings file beside a session file
/// (`path.with_extension("settings.json")` on Unix): the file's extension
/// is replaced, and a path without a file name is left as it is.
pub open spec fn settings_path(p: Seq<char>) -> Seq<char> {
    match name_range(p) {
        Some((s, e)) => p.take(stem_end(p, s, e)) + ".settings.json"@,
        None => p,
    }
}

fn chars_of(s: &str) -> (r: Vec<char>)
    ensures
        r@ == s@,
{
    let mut v: Vec<char> = Vec::new();
    for c in it: s.chars()
        invariant
            it.seq() == s@,
            v@ == s@.take(it.index() as int),
    {
        v.push(c);
        assert(v@ =~= s@.take(it.index() + 1));
    }
    assert(s@.take(s@.len() as int) =~= s@);
    v
}

fn find_piece_start(p: &Vec<char>, n: usize) -> (r: usize)
    requires
        n <= p@.len(),
    ensures
        r == piece_start(p@.take(n as int)),
{
    let mut k = n;
    while k > 0 && p[k - 1] != '/'
        invariant
            k <= n <= p@.len(),
            piece_start(p@.take(n as int)) == piece_start(p@.take(k as int)),
        decreases k,
    {
        assert(p@.take(k as int).drop_last() =~= p@.take(k - 1));
        k = k - 1;
    }
    proof {
        if k > 0 {
            assert(p@.take(k as int).last() == '/');
        }
    }
    k
}

/// Where the file name of the path `p` lies, if it has one.
fn file_name_range(p: &Vec<char>) -> (r: Option<(usize, usize)>)
    ensures
        match r {
            Some((s, e)) => name_range(p@) == Some((s as int, e as int)) && s < e <= p@.len(),
            None => name_range(p@) is None,
        },
{
    let mut n = p.len();
    assert(p@.take(n as int) =~= p@);
    while n > 0
        invariant
            n <= p@.len(),
            name_range(p@) == name_range(p@.take(n as int)),
        decreases n,
    {
        let ghost q = p@.take(n as int);
        if p[n - 1] == '/' {
            assert(q.drop_last() =~= p@.take(n - 1));
            n = n - 1;
        } else {
            let s = find_piece_start(p, n);
            proof {
                lemma_piece_start(q);
            }
            let len = n - s;
            let is_dot = len == 1 && p[s] == '.';
            let is_dotdot = len == 2 && p[s] == '.' && p[s + 1] == '.';
            proof {
                let piece = q.subrange(s as int, n as int);
                if len == 1 && p@[s as int] == '.' {
                    assert(piece =~= seq!['.']);
                }
                if piece == seq!['.'] {
                    assert(piece[0] == '.');
                }
                if len == 2 && p@[s as int] == '.' && p@[s + 1] == '.' {
                    assert(piece =~= seq!['.', '.']);
                }
                if piece == seq!['.', '.'] {
                    assert(piece[0] == '.' && piece[1] == '.');
                }
                assert(q.take(s as int) =~= p@.take(s as int));
            }
            if is_dot {
                n = s;
            } else if is_dotdot {
                return None;
            } else {
                assert(q.len() == n && q.last() == p@[n - 1]);
                proof {
                    if q.subrange(s as int, n as int) == seq!['.'] {
                        assert(q.subrange(s as int, n as int).len() == 1);
                        assert(q.subrange(s as int, n as int)[0] == p@[s as int]);
                        assert(false);
                    }
                    if q.subrange(s as int, n as int) == seq!['.', '.'] {
                        assert(q.subrange(s as int, n as int).len() == 2);
                        assert(q.subrange(s as int, n as int)[0] == p@[s as int]);
                        assert(q.subrange(s as int, n as int)[1] == p@[s + 1]);
                        assert(false);
                    }
                }
                assert(name_range(q) == Some((s as int, n as int)));
                return Some((s, n));
            }
        }
    }
    None
}

fn find_stem_end(p: &Vec<char>, s: usize, e: usize) -> (r: usize)
    requires
        s < e <= p@.len(),
    ensures
        r as int == stem_end(p@, s as int, e as int),
        s < r <= e,
{
    proof {
        lemma_last_dot_between(p@, s as int, e as int);
    }
    let mut k = e;
    while k > s + 1 && p[k - 1] != '.'
        invariant
            s < k <= e <= p@.len(),
            last_dot_between(p@, s as int, e as int) == last_dot_between(p@, s as int, k as int),
        decreases k,
    {
        k = k - 1;
    }
    if k > s + 1 {
        k - 1
    } else {
        e
    }
}

/// Whether `path` names a file with the extension `jsonl`
/// (`Path::extension` on Unix).
pub fn is_jsonl_path(path: &str) -> (r: bool)
    ensures
        r == has_jsonl_extension(path@),
{
    let p = chars_of(path);
    match file_name_range(&p) {
        None => false,
        Some((s, e)) => {
            let ghost n = p@.subrange(s as int, e as int);
            if e - s <= 6 {
                return false;
            }
            let ok = p[e - 6] == '.' && p[e - 5] == 'j' && p[e - 4] == 's' && p[e - 3] == 'o'
                && p[e - 2] == 'n' && p[e - 1] == 'l';
            proof {
                let t = n.subrange(n.len() - 6, n.len() as int);
                let lit = seq!['.', 'j', 's', 'o', 'n', 'l'];
                if ok {
                    assert(t =~= lit);
                }
                if t == lit {
                    assert(t[0] == lit[0] && t[1] == lit[1] && t[2] == lit[2] && t[3] == lit[3]
                        && t[4] == lit[4] && t[5] == lit[5]);
                }
            }
            ok
        },
    }
}

/// The path of the settings file beside the session file `path`
/// (`path.with_extension("settings.json")` on Unix).
pub fn settings_path_for(path: &str) -> (r: String)
    ensures
        r@ == settings_path(path@),
{
    let p = chars_of(path);
    match file_name_range(&p) {
        None => path.to_string(),
        Some((s, e)) => {
            proof {
                lemma_piece_start(p@);
            }
            let end = find_stem_end(&p, s, e);
            let mut out = String::new();
            let mut i: usize = 0;
            while i < end
                invariant
                    i <= end <= p@.len(),
                    out@ == p@.take(i as int),
                decreases end - i,
            {
                push_char(&mut out, p[i]);
                assert(out@ =~= p@.take(i + 1));
                i = i + 1;
            }
            out.append(".settings.json");
            out
        },
    }
}

proof fn lemma_piece_start_append(base: Seq<char>, name: Seq<char>)
    requires
        base.len() == 0 || base.last() == '/',
        forall|i: int| 0 <= i < name.len() ==> name[i] != '/',
    ensures
        piece_start(base + name) == base.len(),
    decreases name.len(),
{
    if name.len() == 0 {
        assert(base + name =~= base);
        if base.len() > 0 {
            assert(piece_start(base) == base.len());
        }
    } else {
        assert((base + name).drop_last() =~= base + name.drop_last());
        assert((base + name).last() == name.last());
        lemma_piece_start_append(base, name.drop_last());
    }
}

/// The settings file that is written beside a session file named
/// `<stem>.jsonl` is the one that reading that session file looks for.
pub proof fn settings_beside_session_file(dir: Seq<char>, stem: Seq<char>)
    requires
        stem.len() > 0,
        forall|i: int| 0 <= i < stem.len() ==> stem[i] != '/',
    ensures
        settings_path(joined_path(dir, stem + ".jsonl"@)) == joined_path(
            dir,
            stem + ".settings.json"@,
        ),
{
    reveal_strlit(".jsonl");
    reveal_strlit(".settings.json");
    let name = stem + ".jsonl"@;
    let base = if dir.len() == 0 || dir.last() == '/' {
        dir
    } else {
        dir + seq!['/']
    };
    let p = joined_path(dir, name);
    assert(name[0] == stem[0]);
    assert(p =~= base + name);
    assert forall|i: int| 0 <= i < name.len() implies name[i] != '/' by {
        if i < stem.len() {
            assert(name[i] == stem[i]);
        }
    }
    if base.len() > 0 {
        assert(base.last() == '/');
    }
    lemma_piece_start_append(base, name);
    let s = base.len() as int;
    let e = p.len() as int;
    assert(p.last() == 'l');
    assert(p.subrange(s, e) =~= name);
    assert(name.len() > 2);
    assert(name != seq!['.']);
    assert(name != seq!['.', '.']);
    assert(name_range(p) == Some((s, e)));
    assert(p[e - 1] == 'l' && p[e - 2] == 'n' && p[e - 3] == 'o' && p[e - 4] == 's' && p[e
        - 5] == 'j' && p[e - 6] == '.');
    assert(e - 6 > s + 1 - 1);
    assert(stem.len() >= 1);
    assert(e - 6 == s + stem.len());
    assert(last_dot_between(p, s, e - 5) == e - 6);
    assert(last_dot_between(p, s, e - 4) == e - 6);
    assert(last_dot_between(p, s, e - 3) == e - 6);
    assert(last_dot_between(p, s, e - 2) == e - 6);
    assert(last_dot_between(p, s, e - 1) == e - 6);
    assert(last_dot_between(p, s, e) == e - 6);
    assert(p.take(e - 6) =~= base + stem);
    assert(joined_path(dir, stem + ".settings.json"@) =~= base + stem + ".settings.json"@);
}

} // verus!
