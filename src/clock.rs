//! Instants as whole seconds since 1970-01-01 00:00:00 UTC, calendar days as
//! day numbers counted from the same origin, and the bridge to chrono for the
//! textual form of an instant and the current time.

use vstd::prelude::*;

verus! {

use vstd::arithmetic::div_mod::{lemma_fundamental_div_mod, lemma_fundamental_div_mod_converse};

/// The textual form of an instant: `YYYY-MM-DD HH:MM:SS +HHMM`.
pub const TIME_FORMAT: &'static str = "%Y-%m-%d %H:%M:%S %z";

/// Seconds since the epoch of chrono's earliest instant (January 1, 262144 BCE).
pub const MIN_TIME: i64 = -8334601228800;

/// Seconds since the epoch of chrono's latest instant (December 31, 262142 CE, 23:59:59).
pub const MAX_TIME: i64 = 8210266876799;

pub const SECONDS_PER_DAY: i64 = 86400;

/// An instant that chrono can represent.
pub open spec fn valid_time(t: int) -> bool {
    MIN_TIME <= t <= MAX_TIME
}

/// The instant that chrono reads from a text in `TIME_FORMAT`, if it reads one.
pub uninterp spec fn parsed_timestamp(s: Seq<char>) -> Option<i64>;

/// The text that chrono writes for an instant in `TIME_FORMAT`.
pub uninterp spec fn formatted_timestamp(t: i64) -> Seq<char>;

/// Relies on chrono's `DateTime::parse_from_str` with `TIME_FORMAT` and on
/// `DateTime::timestamp`: the outcome depends on the text alone, and a parsed
/// instant lies between `DateTime::<Utc>::MIN_UTC` and `MAX_UTC`.
#[verifier::external_body]
pub(crate) fn parse_timestamp(s: &str) -> (r: Option<i64>)
    ensures
        r == parsed_timestamp(s@),
        r matches Some(t) ==> valid_time(t as int),
{
    chrono::DateTime::parse_from_str(s, TIME_FORMAT).ok().map(|d| d.timestamp())
}

/// Relies on chrono's `DateTime::from_timestamp`, which accepts every instant
/// in the representable range, and on `DateTime::format` with `TIME_FORMAT`,
/// whose output depends on the instant alone.
#[verifier::external_body]
pub(crate) fn format_timestamp(t: i64) -> (r: String)
    requires
        valid_time(t as int),
    ensures
        r@ == formatted_timestamp(t),
{
    chrono::DateTime::from_timestamp(t, 0).unwrap().format(TIME_FORMAT).to_string()
}

/// Relies on chrono's `Utc::now` and `DateTime::timestamp`: the current
/// instant, never before the epoch (chrono panics on such a system clock).
#[verifier::external_body]
pub(crate) fn now_timestamp() -> (r: i64)
    ensures
        0 <= r <= MAX_TIME,
{
    chrono::Utc::now().timestamp()
}

/// The calendar day (UTC) of an instant.
pub open spec fn day_of(t: int) -> int {
    t / SECONDS_PER_DAY as int
}

/// Days since the most recent Monday; day 0 (1970-01-01) was a Thursday.
pub open spec fn days_from_monday(day: int) -> int {
    (day + 3) % 7
}

/// Euclidean quotient and remainder of `a` by a positive `b`.
pub fn floor_div_mod(a: i64, b: i64) -> (r: (i64, i64))
    requires
        b > 0,
        a > i64::MIN,
    ensures
        r.0 == a as int / b as int,
        r.1 == a as int % b as int,
{
    if a >= 0 {
        (a / b, a % b)
    } else {
        let n = -a;
        let q = n / b;
        let m = n % b;
        proof {
            lemma_fundamental_div_mod(n as int, b as int);
        }
        if m == 0 {
            proof {
                assert(a as int == b as int * (-q) as int + 0) by (nonlinear_arith)
                    requires
                        n as int == b as int * q as int + m as int,
                        m == 0,
                        a as int == -(n as int),
                ;
                lemma_fundamental_div_mod_converse(a as int, b as int, -q as int, 0);
            }
            (-q, 0)
        } else {
            proof {
                assert(a as int == b as int * (-q - 1) as int + (b - m) as int) by (nonlinear_arith)
                    requires
                        n as int == b as int * q as int + m as int,
                        a as int == -(n as int),
                ;
                lemma_fundamental_div_mod_converse(a as int, b as int, -q - 1, b - m);
            }
            (-q - 1, b - m)
        }
    }
}

/// The calendar day (UTC) of an instant.
pub fn date_of(t: i64) -> (d: i64)
    requires
        valid_time(t as int),
    ensures
        d == day_of(t as int),
{
    floor_div_mod(t, SECONDS_PER_DAY).0
}

/// How many days lie between the most recent Monday and `day`: 0 on a Monday.
pub fn weekday_from_monday(day: i64) -> (r: i64)
    requires
        i64::MIN + 3 < day < i64::MAX - 3,
    ensures
        r == days_from_monday(day as int),
        0 <= r < 7,
{
    floor_div_mod(day + 3, 7).1
}

/// Today's calendar day (UTC).
pub fn today_date() -> (d: i64)
    ensures
        exists|t: int| 0 <= t <= MAX_TIME && d == day_of(t),
        0 <= d,
{
    let t = now_timestamp();
    date_of(t)
}

} // verus!
