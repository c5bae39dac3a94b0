//! Event timestamps: ISO-8601 text such as `2024-01-01T10:00:00Z`.
//!
//! Stored timestamps are compared as text, character by character, which is
//! the order in which ISO-8601 instants sort.  The engine reads the hour of
//! day out of the text, and asks chrono for the text of an instant and for
//! the first instant of a calendar day.
use vstd::prelude::*;

use crate::database::StoreError;

verus! {

/// `a` sorts strictly before `b`, comparing characters by code point.
pub open spec fn text_lt(a: Seq<char>, b: Seq<char>) -> bool
    decreases a.len(),
{
    if a.len() == 0 {
        b.len() > 0
    } else if b.len() == 0 {
        false
    } else if a[0] != b[0] {
        (a[0] as u32) < (b[0] as u32)
    } else {
        text_lt(a.drop_first(), b.drop_first())
    }
}

/// `a` sorts before `b` or equals it.
pub open spec fn text_le(a: Seq<char>, b: Seq<char>) -> bool {
    !text_lt(b, a)
}

pub open spec fn is_digit(c: char) -> bool {
    '0' <= c && c <= '9'
}

pub open spec fn digit_value(c: char) -> int {
    (c as u32) - ('0' as u32)
}

/// The two-digit number written at positions `i` and `i + 1`.
pub open spec fn two_digits(t: Seq<char>, i: int) -> int {
    10 * digit_value(t[i]) + digit_value(t[i + 1])
}

/// Text that starts with `YYYY-MM-DDTHH:MM:SS`, with a month, a day, an hour,
/// a minute and a second in range; a zone or a fraction may follow.
pub open spec fn is_timestamp(t: Seq<char>) -> bool {
    &&& t.len() >= 19
    &&& is_digit(t[0]) && is_digit(t[1]) && is_digit(t[2]) && is_digit(t[3])
    &&& t[4] == '-' && is_digit(t[5]) && is_digit(t[6])
    &&& t[7] == '-' && is_digit(t[8]) && is_digit(t[9])
    &&& t[10] == 'T' && is_digit(t[11]) && is_digit(t[12])
    &&& t[13] == ':' && is_digit(t[14]) && is_digit(t[15])
    &&& t[16] == ':' && is_digit(t[17]) && is_digit(t[18])
    &&& 1 <= two_digits(t, 5) <= 12
    &&& 1 <= two_digits(t, 8) <= 31
    &&& two_digits(t, 11) < 24
    &&& two_digits(t, 14) < 60
    &&& two_digits(t, 17) <= 60
}

/// The hour of day of a timestamp.
pub open spec fn hour_of(t: Seq<char>) -> int {
    two_digits(t, 11)
}

/// No text sorts before itself: a window includes its own start.
pub proof fn lemma_text_le_refl(a: Seq<char>)
    ensures
        text_le(a, a),
    decreases a.len(),
{
    if a.len() > 0 {
        lemma_text_le_refl(a.drop_first());
    }
}

/// Whether `a` sorts strictly before `b`.
pub fn text_less(a: &str, b: &str) -> (r: bool)
    ensures
        r == text_lt(a@, b@),
{
    let la = a.unicode_len();
    let lb = b.unicode_len();
    let mut i: usize = 0;
    assert(a@.subrange(0, la as int) =~= a@);
    assert(b@.subrange(0, lb as int) =~= b@);
    while i < la && i < lb
        invariant
            la == a@.len(),
            lb == b@.len(),
            i <= la,
            i <= lb,
            text_lt(a@, b@) == text_lt(
                a@.subrange(i as int, la as int),
                b@.subrange(i as int, lb as int),
            ),
        decreases la - i,
    {
        let ca = a.get_char(i);
        let cb = b.get_char(i);
        let ghost sa = a@.subrange(i as int, la as int);
        let ghost sb = b@.subrange(i as int, lb as int);
        assert(sa[0] == ca && sb[0] == cb);
        if ca != cb {
            return (ca as u32) < (cb as u32);
        }
        assert(sa.drop_first() =~= a@.subrange(i + 1, la as int));
        assert(sb.drop_first() =~= b@.subrange(i + 1, lb as int));
        i += 1;
    }
    i < lb
}

/// Whether `c` is an ASCII digit.
fn digit(c: char) -> (r: bool)
    ensures
        r == is_digit(c),
{
    '0' <= c && c <= '9'
}

/// The two-digit number at positions `i` and `i + 1` of `t`.
fn read_two_digits(t: &str, i: usize) -> (r: u32)
    requires
        i < 100,
        i + 1 < t@.len(),
        is_digit(t@[i as int]),
        is_digit(t@[i + 1]),
    ensures
        r == two_digits(t@, i as int),
        r < 100,
{
    let hi = t.get_char(i) as u32 - '0' as u32;
    let lo = t.get_char(i + 1) as u32 - '0' as u32;
    10 * hi + lo
}

/// Whether `t` has the shape of a stored timestamp.
pub fn is_timestamp_text(t: &str) -> (r: bool)
    ensures
        r == is_timestamp(t@),
{
    if t.unicode_len() < 19 {
        return false;
    }
    let shape = digit(t.get_char(0)) && digit(t.get_char(1)) && digit(t.get_char(2))
        && digit(t.get_char(3)) && t.get_char(4) == '-' && digit(t.get_char(5))
        && digit(t.get_char(6)) && t.get_char(7) == '-' && digit(t.get_char(8))
        && digit(t.get_char(9)) && t.get_char(10) == 'T' && digit(t.get_char(11))
        && digit(t.get_char(12)) && t.get_char(13) == ':' && digit(t.get_char(14))
        && digit(t.get_char(15)) && t.get_char(16) == ':' && digit(t.get_char(17))
        && digit(t.get_char(18));
    if !shape {
        return false;
    }
    let month = read_two_digits(t, 5);
    let day = read_two_digits(t, 8);
    let hour = read_two_digits(t, 11);
    let minute = read_two_digits(t, 14);
    let second = read_two_digits(t, 17);
    1 <= month && month <= 12 && 1 <= day && day <= 31 && hour < 24 && minute < 60 && second
        <= 60
}

/// The hour of day of a timestamp.
pub fn hour_of_text(t: &str) -> (h: i32)
    requires
        is_timestamp(t@),
    ensures
        h == hour_of(t@),
        0 <= h < 24,
{
    read_two_digits(t, 11) as i32
}

/// The number of seconds in a day.
pub const SECONDS_PER_DAY: i64 = 86400;

/// How far back history, relation and activity queries look, in days.
pub const HISTORY_DEPTH_DAYS: u32 = 30;

/// How old an event may grow before the retention sweep deletes it, in days.
pub const RETENTION_DAYS: u32 = 90;

/// The Unix time of chrono's first instant, `DateTime::<Utc>::MIN_UTC`
/// (January 1, 262144 BCE, 00:00:00).
pub const MIN_UTC_SECS: i64 = -8334601228800;

/// The Unix time of chrono's last whole second, `DateTime::<Utc>::MAX_UTC`
/// (December 31, 262142 CE, 23:59:59).
pub const MAX_UTC_SECS: i64 = 8210266876799;

/// The text, formatted `%Y-%m-%dT%H:%M:%SZ`, of the UTC instant `secs`
/// seconds after the Unix epoch.
pub uninterp spec fn utc_text_of(secs: int) -> Seq<char>;

/// Relies on chrono's `DateTime::from_timestamp`, which returns `None`
/// exactly for seconds outside `MIN_UTC` ..= `MAX_UTC`, and on its
/// `%Y-%m-%dT%H:%M:%SZ` formatting.
#[verifier::external_body]
pub(crate) fn utc_text(secs: i64) -> (r: Option<String>)
    ensures
        r matches Some(t) ==> t@ == utc_text_of(secs as int),
        MIN_UTC_SECS <= secs <= MAX_UTC_SECS ==> r is Some,
{
    match chrono::DateTime::from_timestamp(secs, 0) {
        Some(t) => Some(t.format("%Y-%m-%dT%H:%M:%SZ").to_string()),
        None => None,
    }
}

/// The first instant of the trailing window of `days` days that ends at
/// `now` (Unix time), as timestamp text; `None` when that instant cannot be
/// written.
pub fn lookback_start(now: i64, days: u32) -> (r: Option<String>)
    ensures
        now - days * 86400 < i64::MIN ==> r is None,
        MIN_UTC_SECS <= now - days * 86400 <= MAX_UTC_SECS ==> r is Some,
        r matches Some(t) ==> t@ == utc_text_of(now - days * 86400),
{
    let span: i64 = days as i64 * SECONDS_PER_DAY;
    if now < i64::MIN + span {
        return None;
    }
    utc_text(now - span)
}

/// A calendar day, held as the Unix time of its first second in UTC.
#[derive(Debug, Clone, Copy, PartialEq, Eq)]
pub struct Day {
    pub start: i64,
}

/// The Unix time of midnight UTC of the day that `text` writes as
/// `%Y-%m-%d`, or `None` when `text` is not such a day.
pub uninterp spec fn day_start_of(text: Seq<char>) -> Option<int>;

/// Relies on chrono's `NaiveDate::parse_from_str` with `%Y-%m-%d`, and on
/// the Unix time (`and_utc().timestamp()`) of that date at midnight.
#[verifier::external_body]
fn day_start(text: &str) -> (r: Option<i64>)
    ensures
        r matches Some(s) ==> day_start_of(text@) == Some(s as int),
        r is None ==> day_start_of(text@) is None,
{
    match chrono::NaiveDate::parse_from_str(text, "%Y-%m-%d") {
        Ok(d) => Some(d.and_time(chrono::NaiveTime::MIN).and_utc().timestamp()),
        Err(_) => None,
    }
}

/// Reads a calendar day written `YYYY-MM-DD`; the error holds the text.
pub fn parse_day(text: &str) -> (r: Result<Day, StoreError>)
    ensures
        match r {
            Ok(d) => day_start_of(text@) == Some(d.start as int),
            Err(e) => {
                &&& day_start_of(text@) is None
                &&& e matches StoreError::InvalidParameter(v) && v@ == text@
            },
        },
{
    match day_start(text) {
        Some(start) => Ok(Day { start }),
        None => Err(StoreError::InvalidParameter(String::from_str(text))),
    }
}

} // verus!
