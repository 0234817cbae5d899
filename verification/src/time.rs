use vstd::prelude::*;

verus! {

/// The RFC 3339 text, in UTC with millisecond precision and a `Z` suffix,
/// that chrono writes for the instant `secs` seconds and `nanos` nanoseconds
/// after the Unix epoch, or `None` when chrono has no such instant.
pub uninterp spec fn rfc3339_millis(secs: i64, nanos: u32) -> Option<Seq<char>>;

/// The instant, as seconds and nanoseconds after the Unix epoch in UTC, that
/// chrono reads from an RFC 3339 text, or `None` when the text is not one.
pub uninterp spec fn rfc3339_instant(text: Seq<char>) -> Option<(i64, u32)>;

/// Whether an instant lies in the years 0 to 9999 (UTC), whose RFC 3339
/// text has a four-digit year.
pub open spec fn four_digit_year(secs: i64) -> bool {
    -62167219200 <= secs < 253402300800
}

/// An instant cut to whole milliseconds: what reading back its RFC 3339
/// text with milliseconds gives.
pub open spec fn millis_instant(secs: i64, nanos: u32) -> (i64, u32) {
    (secs, (nanos / 1_000_000 * 1_000_000) as u32)
}

/// An instant in UTC: whole seconds since the Unix epoch and the nanoseconds
/// past that second (beyond 999 999 999 only inside a leap second).
#[derive(Clone, Copy, Debug, PartialEq, Eq)]
pub struct Timestamp {
    secs: i64,
    nanos: u32,
}

impl Timestamp {
    /// Every timestamp is an instant that chrono can represent.
    #[verifier::type_invariant]
    spec fn representable(self) -> bool {
        rfc3339_millis(self.secs, self.nanos) is Some
    }

    /// The seconds and nanoseconds of this instant.
    pub closed spec fn instant(self) -> (i64, u32) {
        (self.secs, self.nanos)
    }

    /// Whole seconds since the Unix epoch.
    pub fn secs(&self) -> (r: i64)
        ensures
            r == self.instant().0,
    {
        self.secs
    }

    /// Nanoseconds past the whole second.
    pub fn subsec_nanos(&self) -> (r: u32)
        ensures
            r == self.instant().1,
    {
        self.nanos
    }
}

/// Whether `a` is no later than `b`.
pub open spec fn ts_le(a: Timestamp, b: Timestamp) -> bool {
    a.instant().0 < b.instant().0 || (a.instant().0 == b.instant().0 && a.instant().1
        <= b.instant().1)
}

/// The earlier of two instants (the first when they are equal).
pub open spec fn ts_min(a: Timestamp, b: Timestamp) -> Timestamp {
    if ts_le(a, b) {
        a
    } else {
        b
    }
}

/// The later of two instants (the second when they are equal).
pub open spec fn ts_max(a: Timestamp, b: Timestamp) -> Timestamp {
    if ts_le(a, b) {
        b
    } else {
        a
    }
}

/// Two timestamps are the same value exactly when they denote the same instant.
pub proof fn lemma_instant_eq(a: Timestamp, b: Timestamp)
    ensures
        (a == b) == (a.instant() == b.instant()),
{
}

/// Whether `a` is no later than `b`.
pub fn timestamp_le(a: &Timestamp, b: &Timestamp) -> (r: bool)
    ensures
        r == ts_le(*a, *b),
{
    a.secs < b.secs || (a.secs == b.secs && a.nanos <= b.nanos)
}

/// The earlier of two instants (`std::cmp::min` on chrono's `DateTime`).
pub fn timestamp_min(a: Timestamp, b: Timestamp) -> (r: Timestamp)
    ensures
        r == ts_min(a, b),
{
    if timestamp_le(&a, &b) {
        a
    } else {
        b
    }
}

/// The later of two instants (`std::cmp::max` on chrono's `DateTime`).
pub fn timestamp_max(a: Timestamp, b: Timestamp) -> (r: Timestamp)
    ensures
        r == ts_max(a, b),
{
    if timestamp_le(&a, &b) {
        b
    } else {
        a
    }
}

/// The instant an RFC 3339 text denotes, converted to UTC
/// (`chrono::DateTime::parse_from_rfc3339`, then `with_timezone(&Utc)`).
/// Claimed of chrono: the result is the named instant of the text, and chrono
/// can write every instant that it reads.
#[verifier::external_body]
pub(crate) fn parse_datetime(value: &str) -> (r: Option<Timestamp>)
    ensures
        match r {
            Some(t) => rfc3339_instant(value@) == Some(t.instant()),
            None => rfc3339_instant(value@) is None,
        },
        r matches Some(t) ==> rfc3339_millis(t.instant().0, t.instant().1) is Some,
{
    match chrono::DateTime::parse_from_rfc3339(value) {
        Ok(t) => {
            let u = t.with_timezone(&chrono::Utc);
            Some(Timestamp { secs: u.timestamp(), nanos: u.timestamp_subsec_nanos() })
        },
        Err(_) => None,
    }
}

/// The current instant (`chrono::Utc::now`). Claimed of chrono: it is an
/// instant that chrono can write; which instant it is, nothing states.
#[verifier::external_body]
fn utc_now() -> (r: Timestamp)
    ensures
        rfc3339_millis(r.instant().0, r.instant().1) is Some,
{
    let u = chrono::Utc::now();
    Timestamp { secs: u.timestamp(), nanos: u.timestamp_subsec_nanos() }
}

/// The RFC 3339 text of an instant, in UTC with milliseconds and `Z`
/// (`DateTime::<Utc>::from_timestamp`, then
/// `to_rfc3339_opts(SecondsFormat::Millis, true)`). Claimed of chrono: the
/// result is the named text of the seconds and nanoseconds, and for an
/// instant with a four-digit year chrono reads that text back as the instant
/// cut to milliseconds (a leap second is written as second 60 and read back
/// as second 59 plus one second of nanoseconds); any other year is written
/// with a sign, which the reader refuses.
#[verifier::external_body]
fn format_rfc3339_millis(secs: i64, nanos: u32) -> (r: Option<String>)
    ensures
        match r {
            Some(s) => {
                &&& rfc3339_millis(secs, nanos) == Some(s@)
                &&& four_digit_year(secs) ==> rfc3339_instant(s@) == Some(
                    millis_instant(secs, nanos),
                )
                &&& !four_digit_year(secs) ==> rfc3339_instant(s@) is None
            },
            None => rfc3339_millis(secs, nanos) is None,
        },
{
    match chrono::DateTime::<chrono::Utc>::from_timestamp(secs, nanos) {
        Some(d) => Some(d.to_rfc3339_opts(chrono::SecondsFormat::Millis, true)),
        None => None,
    }
}

/// The RFC 3339 text (UTC, milliseconds, `Z`) of a timestamp.
pub open spec fn timestamp_text_of(t: Timestamp) -> Seq<char> {
    rfc3339_millis(t.instant().0, t.instant().1)->0
}

/// The RFC 3339 text (UTC, milliseconds, `Z`) of a timestamp.
pub fn timestamp_text(t: Timestamp) -> (r: String)
    ensures
        r@ == timestamp_text_of(t),
        four_digit_year(t.instant().0) ==> rfc3339_instant(r@) == Some(
            millis_instant(t.instant().0, t.instant().1),
        ),
        !four_digit_year(t.instant().0) ==> rfc3339_instant(r@) is None,
{
    proof {
        use_type_invariant(t);
    }
    match format_rfc3339_millis(t.secs, t.nanos) {
        Some(s) => s,
        None => String::new(),
    }
}

/// Whether `s` is the RFC 3339 text of some instant.
pub open spec fn is_instant_text(s: Seq<char>) -> bool {
    exists|secs: i64, nanos: u32| rfc3339_millis(secs, nanos) == Some(s)
}

/// The text with which a Droid record is stamped: the event's own time, or
/// the current time when the event has none.
pub fn event_timestamp(timestamp: Option<Timestamp>) -> (r: String)
    ensures
        timestamp matches Some(t) ==> r@ == timestamp_text_of(t),
        timestamp matches Some(t) ==> (four_digit_year(t.instant().0) ==> rfc3339_instant(r@)
            == Some(millis_instant(t.instant().0, t.instant().1))),
        is_instant_text(r@),
{
    let t = match timestamp {
        Some(t) => t,
        None => utc_now(),
    };
    proof {
        use_type_invariant(t);
    }
    let r = timestamp_text(t);
    assert(rfc3339_millis(t.instant().0, t.instant().1) == Some(r@));
    r
}

/// The timestamp that chrono reads from an RFC 3339 text, if any.
pub open spec fn instant_timestamp(s: Seq<char>) -> Option<Timestamp> {
    match rfc3339_instant(s) {
        Some(i) => Some(choose|t: Timestamp| t.instant() == i),
        None => None,
    }
}

/// A text that chrono reads as an instant gives a timestamp of that instant.
pub proof fn lemma_instant_timestamp(s: Seq<char>)
    requires
        rfc3339_instant(s) is Some,
    ensures
        instant_timestamp(s) matches Some(u) && u.instant() == rfc3339_instant(s)->0,
{
    let i = rfc3339_instant(s)->0;
    let w = Timestamp { secs: i.0, nanos: i.1 };
    assert(w.instant() == i);
}

/// The timestamp an RFC 3339 text denotes, if it is one.
pub fn read_rfc3339(value: &str) -> (r: Option<Timestamp>)
    ensures
        r == instant_timestamp(value@),
{
    let r = parse_datetime(value);
    proof {
        if let Some(t) = r {
            let c = choose|u: Timestamp| u.instant() == t.instant();
            lemma_instant_eq(c, t);
        }
    }
    r
}

} // verus!
