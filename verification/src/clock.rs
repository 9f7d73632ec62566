//! Instants and their ISO text. An instant is seconds since the Unix epoch
//! and nanoseconds within the second, both UTC.
use vstd::prelude::*;
use crate::text::{blank, cat, cat3};

verus! {

/// What `chrono::DateTime::parse_from_rfc3339` makes of a text, as UTC
/// seconds and nanoseconds (`None` when it refuses the text).
pub uninterp spec fn rfc3339_instant(s: Seq<char>) -> Option<(int, int)>;

/// What `chrono::DateTime::from_timestamp(secs, nanos)` formatted with a
/// chrono pattern prints (`None` where chrono has no such instant).
pub uninterp spec fn formatted(secs: int, nanos: int, pattern: Seq<char>) -> Option<Seq<char>>;

/// The text `%Y-%m-%dT%H:%M:%S%.3fZ` of an instant.
pub open spec fn iso_of(secs: int, nanos: int) -> Option<Seq<char>> {
    formatted(secs, nanos, "%Y-%m-%dT%H:%M:%S%.3fZ"@)
}

/// The text `%Y-%m-%d` of the UTC day of an instant.
pub open spec fn date_of(secs: int) -> Option<Seq<char>> {
    formatted(secs, 0, "%Y-%m-%d"@)
}

/// `std::time::SystemTime::now()` measured from the Unix epoch: whole
/// seconds and the nanoseconds below them (below a billion, as std
/// documents), or `None` for a clock set before 1970. Nothing is promised of
/// the reading itself. (`chrono::Utc::now` panics on such a clock, so the
/// library reads it here and lets chrono format what it read.)
#[verifier::external_body]
pub(crate) fn system_clock() -> (r: Option<(u64, u32)>)
    ensures
        r matches Some(t) ==> t.1 < 1_000_000_000,
{
    match std::time::SystemTime::now().duration_since(std::time::UNIX_EPOCH) {
        Ok(d) => Some((d.as_secs(), d.subsec_nanos())),
        Err(_) => None,
    }
}

/// The current instant as seconds and nanoseconds since the epoch; `None`
/// where the clock reads before 1970 or beyond what an `i64` holds.
pub(crate) fn now_instant() -> (r: Option<(i64, u32)>)
    ensures
        r matches Some(t) ==> 0 <= t.0 && t.1 < 1_000_000_000,
{
    match system_clock() {
        Some((secs, nanos)) => {
            if secs <= 0x7fff_ffff_ffff_ffffu64 {
                Some((secs as i64, nanos))
            } else {
                None
            }
        },
        None => None,
    }
}

/// The current instant, or the error that the clock cannot be read.
pub(crate) fn clock_now() -> (r: Result<(i64, u32), String>)
    ensures
        r matches Ok(t) ==> 0 <= t.0 && t.1 < 1_000_000_000,
{
    match now_instant() {
        Some(t) => Ok(t),
        None => Err("system clock before 1970".to_string()),
    }
}

/// `chrono::DateTime::parse_from_rfc3339`, taken to UTC: the instant the text
/// names, `None` when chrono refuses it.
#[verifier::external_body]
pub(crate) fn parse_rfc3339(s: &str) -> (r: Option<(i64, u32)>)
    ensures
        match r {
            Some(p) => rfc3339_instant(s@) == Some((p.0 as int, p.1 as int)),
            None => rfc3339_instant(s@) is None,
        },
{
    match chrono::DateTime::parse_from_rfc3339(s) {
        Ok(d) => Some((d.timestamp(), d.timestamp_subsec_nanos())),
        Err(_) => None,
    }
}

/// `chrono::DateTime::from_timestamp` formatted with one of the two chrono
/// patterns this library prints (both made of valid specifiers only, so
/// formatting cannot fail); `None` where chrono has no such instant.
#[verifier::external_body]
fn format_instant(secs: i64, nanos: u32, pattern: &str) -> (r: Option<String>)
    requires
        pattern@ == "%Y-%m-%dT%H:%M:%S%.3fZ"@ || pattern@ == "%Y-%m-%d"@,
    ensures
        match r {
            Some(t) => formatted(secs as int, nanos as int, pattern@) == Some(t@),
            None => formatted(secs as int, nanos as int, pattern@) is None,
        },
{
    chrono::DateTime::from_timestamp(secs, nanos).map(|d| d.format(pattern).to_string())
}

/// The ISO text of an instant, when chrono has it.
pub fn iso_text(secs: i64, nanos: u32) -> (r: Option<String>)
    ensures
        match r {
            Some(t) => iso_of(secs as int, nanos as int) == Some(t@),
            None => iso_of(secs as int, nanos as int) is None,
        },
{
    format_instant(secs, nanos, "%Y-%m-%dT%H:%M:%S%.3fZ")
}

/// The `%Y-%m-%d` text of the UTC day of an instant, when chrono has it.
pub fn date_text(secs: i64) -> (r: Option<String>)
    ensures
        match r {
            Some(t) => date_of(secs as int) == Some(t@),
            None => date_of(secs as int) is None,
        },
{
    format_instant(secs, 0, "%Y-%m-%d")
}

/// `a` is strictly later than `b`.
pub open spec fn later(a: (int, int), b: (int, int)) -> bool {
    a.0 > b.0 || (a.0 == b.0 && a.1 > b.1)
}

/// A business time more than a minute in the future is taken as now.
pub open spec fn clamp_spec(p: (int, int), now: (int, int)) -> (int, int) {
    if later(p, (now.0 + 60, now.1)) { now } else { p }
}

/// The ISO text of an instant; an error where chrono has none.
pub fn fmt_iso(t: (i64, u32)) -> (r: Result<String, String>)
    ensures
        match r {
            Ok(s) => iso_of(t.0 as int, t.1 as int) == Some(s@),
            Err(_) => iso_of(t.0 as int, t.1 as int) is None,
        },
{
    match iso_text(t.0, t.1) {
        Some(s) => Ok(s),
        None => Err("instant out of range".to_string()),
    }
}

/// The current time as ISO text.
pub fn now_iso() -> (r: Result<String, String>)
    ensures
        r matches Ok(t) ==> exists|a: int, b: int| #[trigger] iso_of(a, b) == Some(t@),
{
    fmt_iso(clock_now()?)
}

/// A raw business time normalised at the instant `now`: blank or absent means
/// `now`; text chrono refuses is an error naming the field; a time more than a
/// minute ahead of `now` is taken as `now`.
pub fn clamp_time_at(raw: Option<&str>, field: &str, now: (i64, u32)) -> (r: Result<String, String>)
    requires
        now.0 < i64::MAX - 60,
    ensures
        match raw {
            Some(s) if !blank(s@) => match rfc3339_instant(s@) {
                None => r is Err,
                Some(p) => match r {
                    Ok(t) => iso_of(clamp_spec(p, (now.0 as int, now.1 as int)).0, clamp_spec(
                        p,
                        (now.0 as int, now.1 as int),
                    ).1) == Some(t@),
                    Err(_) => iso_of(clamp_spec(p, (now.0 as int, now.1 as int)).0, clamp_spec(
                        p,
                        (now.0 as int, now.1 as int),
                    ).1) is None,
                },
            },
            _ => match r {
                Ok(t) => iso_of(now.0 as int, now.1 as int) == Some(t@),
                Err(_) => iso_of(now.0 as int, now.1 as int) is None,
            },
        },
{
    let s = match raw {
        Some(x) => {
            if crate::text::is_blank(x) {
                None
            } else {
                Some(x)
            }
        },
        None => None,
    };
    match s {
        None => fmt_iso(now),
        Some(x) => match parse_rfc3339(x) {
            None => Err(cat3("invalid ", field, &cat(": ", x))),
            Some(p) => {
                if p.0 > now.0 + 60 || (p.0 == now.0 + 60 && p.1 > now.1) {
                    fmt_iso(now)
                } else {
                    fmt_iso(p)
                }
            },
        },
    }
}

/// What `clamp_business_time` promises whatever the clock reads: text chrono
/// refuses is an error; a time it accepts comes back clamped at some instant;
/// blank or absent text comes back as the ISO text of some instant.
pub open spec fn clamped_somewhen(raw: Option<Seq<char>>, r: Result<String, String>) -> bool {
    match raw {
        Some(s) if !blank(s) => match rfc3339_instant(s) {
            None => r is Err,
            Some(p) => r matches Ok(t) ==> exists|n: (int, int)| iso_of(#[trigger] clamp_spec(p, n).0, clamp_spec(p, n).1) == Some(t@),
        },
        _ => r matches Ok(t) ==> exists|a: int, b: int| #[trigger] iso_of(a, b) == Some(t@),
    }
}

/// `clamp_time_at` at the current time.
pub fn clamp_business_time(raw: Option<&str>, field: &str) -> (r: Result<String, String>)
    ensures
        clamped_somewhen(
            match raw {
                Some(s) => Some(s@),
                None => None,
            },
            r,
        ),
{
    let now = clock_now()?;
    if now.0 >= i64::MAX - 60 {
        return Err("clock out of range".to_string());
    }
    let r = clamp_time_at(raw, field, now);
    proof {
        let n = (now.0 as int, now.1 as int);
        if let Ok(t) = &r {
            match raw {
                Some(s) if !blank(s@) => {
                    if let Some(p) = rfc3339_instant(s@) {
                        assert(iso_of(clamp_spec(p, n).0, clamp_spec(p, n).1) == Some(t@));
                    }
                },
                _ => {
                    assert(iso_of(n.0, n.1) == Some(t@));
                },
            }
        }
    }
    r
}

} // verus!
