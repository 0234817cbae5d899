use vstd::prelude::*;

verus! {

/// Whether `c` is an ASCII hexadecimal digit of either case.
pub open spec fn is_hex_digit(c: char) -> bool {
    let u = c as u32;
    ||| (0x30 <= u && u <= 0x39)
    ||| (0x41 <= u && u <= 0x46)
    ||| (0x61 <= u && u <= 0x66)
}

/// Whether `c` is a digit or a lower-case letter `a` to `f`.
pub open spec fn is_lower_hex_digit(c: char) -> bool {
    let u = c as u32;
    (0x30 <= u && u <= 0x39) || (0x61 <= u && u <= 0x66)
}

/// `c` with an ASCII upper-case letter turned to lower case.
pub open spec fn ascii_lower(c: char) -> char {
    let u = c as u32;
    if 0x41 <= u && u <= 0x5a {
        (u + 32) as char
    } else {
        c
    }
}

/// `s` with its ASCII upper-case letters turned to lower case.
pub open spec fn ascii_lowercase(s: Seq<char>) -> Seq<char> {
    Seq::new(s.len(), |i: int| ascii_lower(s[i]))
}

/// Whether position `i` of a hyphenated UUID holds a hyphen.
pub open spec fn is_hyphen_position(i: int) -> bool {
    i == 8 || i == 13 || i == 18 || i == 23
}

/// Whether `s` is 32 hexadecimal digits in groups of 8, 4, 4, 4 and 12
/// separated by hyphens, letters in either case.
pub open spec fn is_hyphenated(s: Seq<char>) -> bool {
    &&& s.len() == 36
    &&& forall|i: int|
        0 <= i < 36 ==> if is_hyphen_position(i) {
            #[trigger] s[i] == '-'
        } else {
            is_hex_digit(s[i])
        }
}

/// Whether `s` is a UUID in the form in which the uuid crate writes one:
/// hyphenated, with lower-case letters.
pub open spec fn is_canonical_uuid(s: Seq<char>) -> bool {
    &&& s.len() == 36
    &&& forall|i: int|
        0 <= i < 36 ==> if is_hyphen_position(i) {
            #[trigger] s[i] == '-'
        } else {
            is_lower_hex_digit(s[i])
        }
}

/// Whether `s` is a random (version 4) UUID in canonical form: the version
/// digit is `4` and the variant digit is `8`, `9`, `a` or `b`.
pub open spec fn is_v4_uuid(s: Seq<char>) -> bool {
    &&& is_canonical_uuid(s)
    &&& s[14] == '4'
    &&& (s[19] == '8' || s[19] == '9' || s[19] == 'a' || s[19] == 'b')
}

/// The hyphenated form of 32 hexadecimal digits.
pub open spec fn with_hyphens(h: Seq<char>) -> Seq<char> {
    h.subrange(0, 8) + seq!['-'] + h.subrange(8, 12) + seq!['-'] + h.subrange(12, 16) + seq!['-']
        + h.subrange(16, 20) + seq!['-'] + h.subrange(20, 32)
}

/// What `uuid::Uuid::parse_str` followed by `to_string` makes of a text:
/// 32 hexadecimal digits, the hyphenated form, the hyphenated form in braces,
/// or the hyphenated form behind `urn:uuid:` (in any case) are read, and the
/// UUID is written hyphenated in lower case; anything else is refused.
pub open spec fn uuid_canonical(s: Seq<char>) -> Option<Seq<char>> {
    if s.len() == 32 && (forall|i: int| 0 <= i < 32 ==> is_hex_digit(#[trigger] s[i])) {
        Some(ascii_lowercase(with_hyphens(s)))
    } else if s.len() == 36 && is_hyphenated(s) {
        Some(ascii_lowercase(s))
    } else if s.len() == 38 && s[0] == '{' && s[37] == '}' && is_hyphenated(s.subrange(1, 37)) {
        Some(ascii_lowercase(s.subrange(1, 37)))
    } else if s.len() == 45 && ascii_lowercase(s.take(9)) == seq![
        'u',
        'r',
        'n',
        ':',
        'u',
        'u',
        'i',
        'd',
        ':',
    ] && is_hyphenated(s.skip(9)) {
        Some(ascii_lowercase(s.skip(9)))
    } else {
        None
    }
}

/// Reads a UUID and writes it back in canonical form
/// (`uuid::Uuid::parse_str`, then `to_string`). Claimed of uuid: the result is
/// `uuid_canonical` of the text, as the parser and formatter of the crate show.
#[verifier::external_body]
fn parse_uuid(s: &str) -> (r: Option<String>)
    ensures
        match r {
            Some(t) => uuid_canonical(s@) == Some(t@),
            None => uuid_canonical(s@) is None,
        },
{
    match uuid::Uuid::parse_str(s) {
        Ok(u) => Some(u.to_string()),
        Err(_) => None,
    }
}

/// A fresh random (version 4) UUID in canonical form
/// (`uuid::Uuid::new_v4`, then `to_string`). Claimed of uuid: the text is a
/// canonical UUID with the version digit `4` and a variant digit of `8`, `9`,
/// `a` or `b`; which UUID it is, nothing states.
#[verifier::external_body]
pub(crate) fn new_uuid() -> (r: String)
    ensures
        is_v4_uuid(r@),
{
    uuid::Uuid::new_v4().to_string()
}

/// What `droid_session_id` may return for `candidate`: its canonical form
/// when it is a UUID, else any canonical UUID.
pub open spec fn is_droid_session_id_for(candidate: Seq<char>, id: Seq<char>) -> bool {
    match uuid_canonical(candidate) {
        Some(c) => id == c,
        None => is_canonical_uuid(id),
    }
}

/// The session id under which Droid stores a session: the candidate in
/// canonical form when it is a UUID, else a fresh random UUID.
pub fn droid_session_id(candidate: &str) -> (r: String)
    ensures
        is_droid_session_id_for(candidate@, r@),
        uuid_canonical(candidate@) matches Some(c) ==> r@ == c,
        uuid_canonical(candidate@) is None ==> is_v4_uuid(r@),
{
    match parse_uuid(candidate) {
        Some(id) => id,
        None => new_uuid(),
    }
}

proof fn lemma_lower_hex(c: char)
    requires
        is_hex_digit(c),
    ensures
        is_lower_hex_digit(ascii_lower(c)),
{
}

proof fn lemma_lowercase_hyphenated(h: Seq<char>)
    requires
        is_hyphenated(h),
    ensures
        is_canonical_uuid(ascii_lowercase(h)),
{
    let l = ascii_lowercase(h);
    assert forall|i: int| 0 <= i < 36 implies if is_hyphen_position(i) {
        #[trigger] l[i] == '-'
    } else {
        is_lower_hex_digit(l[i])
    } by {
        if is_hyphen_position(i) {
            assert(h[i] == '-');
        } else {
            assert(is_hex_digit(h[i]));
            lemma_lower_hex(h[i]);
        }
    }
}

proof fn lemma_with_hyphens(s: Seq<char>)
    requires
        s.len() == 32,
        forall|i: int| 0 <= i < 32 ==> is_hex_digit(#[trigger] s[i]),
    ensures
        is_hyphenated(with_hyphens(s)),
{
    let h = with_hyphens(s);
    assert(h.len() == 36);
    assert forall|i: int| 0 <= i < 36 implies if is_hyphen_position(i) {
        #[trigger] h[i] == '-'
    } else {
        is_hex_digit(h[i])
    } by {
        if i < 8 {
            assert(h[i] == s[i]);
        } else if i == 8 || i == 13 || i == 18 || i == 23 {
        } else if i < 13 {
            assert(h[i] == s[i - 1]);
        } else if i < 18 {
            assert(h[i] == s[i - 2]);
        } else if i < 23 {
            assert(h[i] == s[i - 3]);
        } else {
            assert(h[i] == s[i - 4]);
        }
    }
}

/// A UUID in canonical form reads back as itself.
pub proof fn canonical_uuid_is_fixed(s: Seq<char>)
    requires
        is_canonical_uuid(s),
    ensures
        uuid_canonical(s) == Some(s),
{
    assert(is_hyphenated(s)) by {
        assert forall|i: int| 0 <= i < 36 implies if is_hyphen_position(i) {
            #[trigger] s[i] == '-'
        } else {
            is_hex_digit(s[i])
        } by {
            if !is_hyphen_position(i) {
                assert(is_lower_hex_digit(s[i]));
            }
        }
    }
    assert forall|i: int| 0 <= i < 36 implies #[trigger] ascii_lower(s[i]) == s[i] by {
        if !is_hyphen_position(i) {
            assert(is_lower_hex_digit(s[i]));
        } else {
            assert(s[i] == '-');
        }
    }
    assert(ascii_lowercase(s) =~= s);
}

/// Every id `droid_session_id` may return is a UUID in canonical form.
pub proof fn droid_session_id_is_canonical(candidate: Seq<char>, id: Seq<char>)
    requires
        is_droid_session_id_for(candidate, id),
    ensures
        is_canonical_uuid(id),
{
    let s = candidate;
    if s.len() == 32 && (forall|i: int| 0 <= i < 32 ==> is_hex_digit(#[trigger] s[i])) {
        lemma_with_hyphens(s);
        lemma_lowercase_hyphenated(with_hyphens(s));
    } else if s.len() == 36 && is_hyphenated(s) {
        lemma_lowercase_hyphenated(s);
    } else if s.len() == 38 && s[0] == '{' && s[37] == '}' && is_hyphenated(s.subrange(1, 37)) {
        lemma_lowercase_hyphenated(s.subrange(1, 37));
    } else if uuid_canonical(s) is Some {
        lemma_lowercase_hyphenated(s.skip(9));
    }
}

/// A session whose id is already a canonical UUID keeps it.
pub proof fn droid_session_id_keeps_canonical(candidate: Seq<char>, id: Seq<char>)
    requires
        is_canonical_uuid(candidate),
        is_droid_session_id_for(candidate, id),
    ensures
        id == candidate,
{
    canonical_uuid_is_fixed(candidate);
}

} // verus!
