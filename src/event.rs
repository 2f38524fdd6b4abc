//! Clock-in / clock-out events, their two-line textual form, and the
//! rendering of durations as `H:MM`.

use vstd::prelude::*;

use crate::clock::{format_timestamp, formatted_timestamp, now_timestamp, valid_time, MAX_TIME};
use crate::text::{append_int, int_text};

verus! {

/// Whether an event starts (`IN`) or ends (`OUT`) a tracked session.
#[allow(non_camel_case_types)]
#[derive(Clone, Copy, Debug, PartialEq, Eq, Structural)]
pub enum EventType {
    IN,
    OUT,
}

/// A timestamped event; `time` is in whole seconds since the epoch (UTC).
/// Events are ordered by `time` alone.
#[derive(Clone, Copy, Debug, PartialEq, Eq, Structural)]
pub struct TimeReportEvent {
    pub event_type: EventType,
    pub time: i64,
}

/// The canonical text of an event kind.
pub open spec fn kind_text(k: EventType) -> Seq<char> {
    match k {
        EventType::IN => "IN"@,
        EventType::OUT => "OUT"@,
    }
}

/// The event kind that a text names, if it names one.
pub open spec fn kind_of_text(s: Seq<char>) -> Option<EventType> {
    if s == "IN"@ {
        Some(EventType::IN)
    } else if s == "OUT"@ {
        Some(EventType::OUT)
    } else {
        None
    }
}

/// The two storage lines of an event: its kind, then its instant.
pub open spec fn event_lines(e: TimeReportEvent) -> Seq<Seq<char>> {
    seq!["type: "@ + kind_text(e.event_type), "time: "@ + formatted_timestamp(e.time)]
}

/// Reading back the canonical text of a kind gives the kind.
pub proof fn lemma_kind_text_round_trip(k: EventType)
    ensures
        kind_of_text(kind_text(k)) == Some(k),
{
    reveal_strlit("IN");
    reveal_strlit("OUT");
    assert("IN"@ != "OUT"@) by {
        assert("IN"@.len() != "OUT"@.len());
    }
}

impl EventType {
    /// The canonical text of this kind: `"IN"` or `"OUT"`.
    pub fn to_str(&self) -> (r: &'static str)
        ensures
            r@ == kind_text(*self),
    {
        match self {
            EventType::IN => "IN",
            EventType::OUT => "OUT",
        }
    }

    /// Reads `"IN"` or `"OUT"`; any other text names no kind.
    pub fn parse(s: &str) -> (r: Option<EventType>)
        ensures
            r == kind_of_text(s@),
    {
        if crate::text::text_eq(s, "IN") {
            Some(EventType::IN)
        } else if crate::text::text_eq(s, "OUT") {
            Some(EventType::OUT)
        } else {
            None
        }
    }
}

impl TimeReportEvent {
    /// An event of the given kind at the current instant.
    pub fn now(event_type: EventType) -> (r: TimeReportEvent)
        ensures
            r.event_type == event_type,
            0 <= r.time <= MAX_TIME,
    {
        TimeReportEvent { event_type, time: now_timestamp() }
    }

    /// The two storage lines of this event: `type: <kind>` then `time: <instant>`.
    pub fn serialize(&self) -> (r: Vec<String>)
        requires
            valid_time(self.time as int),
        ensures
            r@.map_values(|l: String| l@) == event_lines(*self),
    {
        let mut kind_line = String::from_str("type: ");
        kind_line.append(self.event_type.to_str());
        let mut time_line = String::from_str("time: ");
        let stamp = format_timestamp(self.time);
        time_line.append(stamp.as_str());
        let r = vec![kind_line, time_line];
        assert(r@.map_values(|l: String| l@) =~= event_lines(*self));
        r
    }
}

/// The text of a minute count: two digits at least, with a leading zero below ten.
pub open spec fn minutes_text(m: int) -> Seq<char> {
    if m < 10 {
        "0"@ + int_text(m)
    } else {
        int_text(m)
    }
}

/// Quotient rounded toward zero, as Rust's `/` on integers.
pub open spec fn trunc_div(a: int, b: int) -> int {
    if a < 0 {
        -((-a) / b)
    } else {
        a / b
    }
}

/// Remainder with the sign of `a`, as Rust's `%` on integers.
pub open spec fn trunc_rem(a: int, b: int) -> int {
    if a < 0 {
        -((-a) % b)
    } else {
        a % b
    }
}

/// A duration in seconds shown as whole hours, `:`, and the minutes past the hour.
pub open spec fn duration_text(secs: int) -> Seq<char> {
    int_text(trunc_div(secs, 3600)) + ":"@ + minutes_text(trunc_rem(trunc_div(secs, 60), 60))
}

/// Renders a minute count, adding a leading zero below ten.
pub fn format_minutes(minutes: i64) -> (r: String)
    ensures
        r@ == minutes_text(minutes as int),
{
    let mut r = String::new();
    if minutes < 10 {
        r.append("0");
    }
    append_int(&mut r, minutes);
    proof {
        reveal_strlit("0");
        assert(r@ =~= minutes_text(minutes as int));
    }
    r
}

/// Renders a duration in seconds as `H:MM`, truncating to whole minutes.
pub fn format_duration(secs: i64) -> (r: String)
    ensures
        r@ == duration_text(secs as int),
{
    let neg = secs < 0;
    let mag: u64 = if neg {
        (-(secs + 1)) as u64 + 1
    } else {
        secs as u64
    };
    let h = (mag / 3600) as i64;
    let m = ((mag / 60) % 60) as i64;
    let hours = if neg {
        -h
    } else {
        h
    };
    let minutes = if neg {
        -m
    } else {
        m
    };
    let mut r = String::new();
    append_int(&mut r, hours);
    r.append(":");
    let mm = format_minutes(minutes);
    r.append(mm.as_str());
    proof {
        let q = trunc_div(secs as int, 60);
        if neg {
            assert(-q == (-(secs as int)) / 60);
        }
        assert(r@ =~= duration_text(secs as int));
    }
    r
}

} // verus!
