//! Wall-clock timestamps of commits, written and read in RFC 3339.
//!
//! An instant is a pair of the seconds since the Unix epoch and the
//! nanoseconds within that second; instants are ordered by the first, then
//! by the second component.

use crate::error::LakehouseError;
use vstd::prelude::*;

verus! {

/// The instant that `chrono::DateTime::parse_from_rfc3339` reads from `text`,
/// as `(timestamp(), timestamp_subsec_nanos())`, or `None` where it refuses `text`.
pub uninterp spec fn rfc3339_instant(text: Seq<char>) -> Option<(i64, u32)>;

/// Whether instant `a` lies at or before instant `b`.
pub open spec fn instant_le(a: (i64, u32), b: (i64, u32)) -> bool {
    a.0 < b.0 || (a.0 == b.0 && a.1 <= b.1)
}

/// Parses an RFC 3339 timestamp with `chrono::DateTime::parse_from_rfc3339`
/// and returns its instant in UTC. The result is whatever chrono reads from
/// the text, named `rfc3339_instant`; which texts chrono accepts is not stated.
#[verifier::external_body]
pub(crate) fn parse_rfc3339(text: &str) -> (r: Option<(i64, u32)>)
    ensures
        r == rfc3339_instant(text@),
{
    match chrono::DateTime::parse_from_rfc3339(text) {
        Ok(dt) => Some((dt.timestamp(), dt.timestamp_subsec_nanos())),
        Err(_) => None,
    }
}

/// The latest instant that RFC 3339 text can hold with a four-digit year:
/// 9999-12-31T23:59:59 UTC, in seconds since the Unix epoch.
pub open spec fn max_rfc3339_secs() -> int {
    253402300799
}

/// The text that chrono writes for the UTC instant `(secs, nanos)`:
/// `DateTime::from_timestamp(secs, nanos)` written with `to_rfc3339()`, or
/// `None` where `from_timestamp` refuses the instant.
pub uninterp spec fn rfc3339_text(secs: i64, nanos: u32) -> Option<Seq<char>>;

/// The current reading of the system clock as seconds and nanoseconds since
/// the Unix epoch (`SystemTime::now().duration_since(UNIX_EPOCH)`), or `None`
/// where the clock reads before the epoch. Which reading comes out depends on
/// the clock; the one thing stated is what std documents of
/// `Duration::subsec_nanos`: the nanoseconds are below one billion.
#[verifier::external_body]
pub(crate) fn clock_reading() -> (r: Option<(u64, u32)>)
    ensures
        r is Some ==> (r->0).1 < 1_000_000_000,
{
    match std::time::SystemTime::now().duration_since(std::time::UNIX_EPOCH) {
        Ok(d) => Some((d.as_secs(), d.subsec_nanos())),
        Err(_) => None,
    }
}

/// Writes the UTC instant `(secs, nanos)` as RFC 3339 text with chrono:
/// `DateTime::from_timestamp(secs, nanos)` then `to_rfc3339()`. The text is
/// named `rfc3339_text`. For an instant in a four-digit year, chrono writes
/// `YYYY-MM-DDTHH:MM:SS[.fraction]+00:00`, which `parse_from_rfc3339` reads
/// back as the same instant; the contract states that round trip there and
/// leaves other instants (signed years) unstated.
#[verifier::external_body]
pub(crate) fn rfc3339_of_instant(secs: i64, nanos: u32) -> (r: Option<String>)
    ensures
        r is Some <==> rfc3339_text(secs, nanos) is Some,
        r is Some ==> rfc3339_text(secs, nanos) == Some(r->0@),
        0 <= secs <= max_rfc3339_secs() && nanos < 1_000_000_000 ==> r is Some && rfc3339_instant(
            r->0@,
        ) == Some((secs, nanos)),
{
    match chrono::DateTime::from_timestamp(secs, nanos) {
        Some(dt) => Some(dt.to_rfc3339()),
        None => None,
    }
}

/// Whether `t` is the RFC 3339 text that chrono writes for some clock
/// reading: an instant at or after the Unix epoch with fewer than a billion
/// nanoseconds, which `t` reads back as whenever it lies in a four-digit year.
pub open spec fn is_clock_text(t: Seq<char>) -> bool {
    exists|secs: i64, nanos: u32|
        #![trigger rfc3339_text(secs, nanos)]
        {
            &&& 0 <= secs
            &&& nanos < 1_000_000_000
            &&& rfc3339_text(secs, nanos) == Some(t)
            &&& (secs <= max_rfc3339_secs() ==> rfc3339_instant(t) == Some((secs, nanos)))
        }
}

/// The RFC 3339 text of the clock reading `(secs, nanos)`, seconds and
/// nanoseconds since the Unix epoch; a reading that does not fit in an `i64`,
/// or that chrono cannot write, is refused.
pub fn rfc3339_of_reading(secs: u64, nanos: u32) -> (r: Result<String, LakehouseError>)
    ensures
        secs > i64::MAX ==> r == Err::<String, LakehouseError>(LakehouseError::ClockUnreadable),
        secs <= i64::MAX ==> match r {
            Ok(t) => rfc3339_text(secs as i64, nanos) == Some(t@),
            Err(e) => e == LakehouseError::ClockUnreadable && rfc3339_text(secs as i64, nanos) is None,
        },
        secs <= max_rfc3339_secs() && nanos < 1_000_000_000 ==> (r is Ok && rfc3339_instant(r->Ok_0@)
            == Some((secs as i64, nanos))),
{
    if secs > 9_223_372_036_854_775_807u64 {
        return Err(LakehouseError::ClockUnreadable);
    }
    let s: i64 = secs as i64;
    match rfc3339_of_instant(s, nanos) {
        None => Err(LakehouseError::ClockUnreadable),
        Some(t) => Ok(t),
    }
}

/// The current time as RFC 3339 text, or an error where the system clock
/// reads before the Unix epoch or past what chrono can write.
pub fn current_timestamp() -> (r: Result<String, LakehouseError>)
    ensures
        match r {
            Ok(t) => is_clock_text(t@),
            Err(e) => e == LakehouseError::ClockUnreadable,
        },
{
    match clock_reading() {
        None => Err(LakehouseError::ClockUnreadable),
        Some((secs, nanos)) => {
            let r = rfc3339_of_reading(secs, nanos);
            if let Ok(t) = &r {
                assert(rfc3339_text(secs as i64, nanos) == Some(t@));
            }
            r
        },
    }
}

/// Instants are ordered as the points of time they stand for: for readings
/// with fewer than a billion nanoseconds, `a` lies at or before `b` exactly
/// when the nanoseconds since the epoch of `a` are at most those of `b`; and
/// two instants each at or before the other are the same instant.
pub proof fn lemma_instant_order_is_time_order(a: (i64, u32), b: (i64, u32))
    ensures
        a.1 < 1_000_000_000 && b.1 < 1_000_000_000 ==> (instant_le(a, b) <==> a.0 * 1_000_000_000
            + a.1 <= b.0 * 1_000_000_000 + b.1),
        instant_le(a, b) && instant_le(b, a) ==> a == b,
        instant_le(a, b) || instant_le(b, a),
{
    if a.1 < 1_000_000_000 && b.1 < 1_000_000_000 {
        let x = a.0 as int;
        let y = b.0 as int;
        let m = a.1 as int;
        let n = b.1 as int;
        assert(x < y ==> x * 1_000_000_000 + m < y * 1_000_000_000 + n) by (nonlinear_arith)
            requires
                0 <= m < 1_000_000_000,
                0 <= n,
        ;
        assert(y < x ==> y * 1_000_000_000 + n < x * 1_000_000_000 + m) by (nonlinear_arith)
            requires
                0 <= n < 1_000_000_000,
                0 <= m,
        ;
    }
}

/// Whether instant `a` lies at or before instant `b`.
pub fn instant_at_or_before(a: (i64, u32), b: (i64, u32)) -> (r: bool)
    ensures
        r == instant_le(a, b),
{
    a.0 < b.0 || (a.0 == b.0 && a.1 <= b.1)
}

} // verus!
