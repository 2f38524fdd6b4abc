//! Reading storage lines into events. Each line is `<key>: <value>`; a `type`
//! line sets the pending kind, a `time` line the pending instant, and once both
//! are set they form an event and the builder starts afresh. Lines that do not
//! fit are recorded as issues and skipped.

use vstd::prelude::*;

use crate::clock::{parse_timestamp, parsed_timestamp, valid_time, MAX_TIME, MIN_TIME};
use crate::event::{kind_of_text, EventType, TimeReportEvent};
use crate::order::{
    lemma_sort_multiset, lemma_sort_sorted, lemma_sort_within, sort_by_time, sort_events, sorted_by_time, times_within,
};
use crate::text::{key_value_of, split_key_value, text_eq};

verus! {

/// Why a line did not contribute to an event.
pub enum EventParseError {
    /// The line is not `<key>: <value>`, or its key is neither `type` nor `time`.
    Discarded(String),
    /// A `time` line whose value is not an instant in the storage format.
    Failed(String),
}

/// What an issue says, over the text of the offending line.
pub enum ParseIssue {
    Discarded(Seq<char>),
    Failed(Seq<char>),
}

impl View for EventParseError {
    type V = ParseIssue;

    open spec fn view(&self) -> ParseIssue {
        match self {
            EventParseError::Discarded(l) => ParseIssue::Discarded(l@),
            EventParseError::Failed(l) => ParseIssue::Failed(l@),
        }
    }
}

/// The state of the builder between lines.
pub struct Pending {
    pub kind: Option<EventType>,
    pub time: Option<i64>,
    pub issues: Seq<ParseIssue>,
}

pub open spec fn empty_pending() -> Pending {
    Pending { kind: None, time: None, issues: seq![] }
}

pub open spec fn with_issue(b: Pending, i: ParseIssue) -> Pending {
    Pending { kind: b.kind, time: b.time, issues: b.issues.push(i) }
}

/// The builder's state after one more line.
pub open spec fn read_line(b: Pending, line: Seq<char>) -> Pending {
    match key_value_of(line) {
        None => with_issue(b, ParseIssue::Discarded(line)),
        Some((key, value)) => {
            if key == "time"@ {
                match parsed_timestamp(value) {
                    Some(t) => Pending { kind: b.kind, time: Some(t), issues: b.issues },
                    None => with_issue(b, ParseIssue::Failed(line)),
                }
            } else if key == "type"@ {
                Pending { kind: kind_of_text(value), time: b.time, issues: b.issues }
            } else {
                with_issue(b, ParseIssue::Discarded(line))
            }
        },
    }
}

/// The event that a state holds, once both its kind and its instant are set.
pub open spec fn completed(b: Pending) -> Option<TimeReportEvent> {
    match (b.kind, b.time) {
        (Some(k), Some(t)) => Some(TimeReportEvent { event_type: k, time: t }),
        _ => None,
    }
}

/// Reads the lines in order: the builder's final state and the events it
/// completed, in the order of completion.
pub open spec fn scan_lines(lines: Seq<Seq<char>>) -> (Pending, Seq<TimeReportEvent>)
    decreases lines.len(),
{
    if lines.len() == 0 {
        (empty_pending(), seq![])
    } else {
        let (b, evs) = scan_lines(lines.drop_last());
        let b2 = read_line(b, lines.last());
        match completed(b2) {
            Some(e) => (empty_pending(), evs.push(e)),
            None => (b2, evs),
        }
    }
}

/// The events that a list of storage lines holds, in order of instant.
pub open spec fn events_of_lines(lines: Seq<Seq<char>>) -> Seq<TimeReportEvent> {
    sort_by_time(scan_lines(lines).1)
}

/// Accumulates the fields of one event at a time from storage lines.
pub struct TimeReportEventBuilder {
    event_type: Option<EventType>,
    time: Option<i64>,
    errors: Vec<EventParseError>,
}

impl View for TimeReportEventBuilder {
    type V = Pending;

    closed spec fn view(&self) -> Pending {
        Pending {
            kind: self.event_type,
            time: self.time,
            issues: self.errors@.map_values(|e: EventParseError| e@),
        }
    }
}

impl TimeReportEventBuilder {
    /// A pending instant is one that chrono can represent.
    pub closed spec fn wf(&self) -> bool {
        self.time matches Some(t) ==> valid_time(t as int)
    }

    /// A builder with nothing pending and no issues.
    pub fn new() -> (r: TimeReportEventBuilder)
        ensures
            r@ == empty_pending(),
            r.wf(),
    {
        let r = TimeReportEventBuilder { event_type: None, time: None, errors: Vec::new() };
        assert(r@.issues =~= seq![]);
        r
    }

    /// Forgets the pending fields and the issues.
    pub fn reset(&mut self)
        ensures
            final(self)@ == empty_pending(),
            final(self).wf(),
    {
        self.event_type = None;
        self.time = None;
        self.errors = Vec::new();
        assert(self@.issues =~= seq![]);
    }

    /// The issues recorded since the last reset.
    pub fn errors(&self) -> (r: &Vec<EventParseError>)
        ensures
            r@.map_values(|e: EventParseError| e@) == self@.issues,
    {
        &self.errors
    }

    /// Records `line` as discarded.
    pub fn discard(&mut self, line: &str)
        requires
            old(self).wf(),
        ensures
            final(self).wf(),
            final(self)@ == with_issue(old(self)@, ParseIssue::Discarded(line@)),
    {
        self.errors.push(EventParseError::Discarded(String::from_str(line)));
        assert(self@.issues =~= old(self)@.issues.push(ParseIssue::Discarded(line@)));
    }

    /// Takes in one storage line.
    pub fn parse(&mut self, line: &str)
        requires
            old(self).wf(),
        ensures
            final(self).wf(),
            final(self)@ == read_line(old(self)@, line@),
    {
        match split_key_value(line) {
            None => {
                self.discard(line);
            },
            Some((key, value)) => {
                proof {
                    reveal_strlit("time");
                    reveal_strlit("type");
                }
                if text_eq(key, "time") {
                    match parse_timestamp(value) {
                        Some(t) => {
                            self.time = Some(t);
                        },
                        None => {
                            self.errors.push(EventParseError::Failed(String::from_str(line)));
                            assert(self@.issues =~= old(self)@.issues.push(
                                ParseIssue::Failed(line@),
                            ));
                        },
                    }
                } else if text_eq(key, "type") {
                    self.event_type = EventType::parse(value);
                } else {
                    self.discard(line);
                }
            },
        }
    }

    /// The event held once both its kind and its instant are set.
    pub fn get_if_done(&self) -> (r: Option<TimeReportEvent>)
        ensures
            r == completed(self@),
            self.wf() ==> (r matches Some(e) ==> valid_time(e.time as int)),
    {
        match (self.event_type, self.time) {
            (Some(k), Some(t)) => Some(TimeReportEvent { event_type: k, time: t }),
            _ => None,
        }
    }

    /// The events that the lines hold, in order of instant. A trailing event
    /// with only one of its two fields is dropped.
    pub fn from_list(list: &Vec<&str>) -> (r: Vec<TimeReportEvent>)
        ensures
            r@ == events_of_lines(list@.map_values(|l: &str| l@)),
            r@.to_multiset() == scan_lines(list@.map_values(|l: &str| l@)).1.to_multiset(),
            sorted_by_time(r@),
            times_within(r@, MIN_TIME as int, MAX_TIME as int),
    {
        let ghost lines = list@.map_values(|l: &str| l@);
        let mut result: Vec<TimeReportEvent> = Vec::new();
        let mut builder = TimeReportEventBuilder::new();
        let mut i: usize = 0;
        while i < list.len()
            invariant
                i <= list@.len(),
                lines == list@.map_values(|l: &str| l@),
                (builder@, result@) == scan_lines(lines.take(i as int)),
                builder.wf(),
                times_within(result@, MIN_TIME as int, MAX_TIME as int),
            decreases list@.len() - i,
        {
            assert(lines.take(i as int + 1).drop_last() =~= lines.take(i as int));
            builder.parse(list[i]);
            match builder.get_if_done() {
                Some(event) => {
                    result.push(event);
                    builder.reset();
                },
                None => {},
            }
            i = i + 1;
        }
        assert(lines.take(i as int) =~= lines);
        proof {
            lemma_sort_sorted(result@);
            lemma_sort_multiset(result@);
            lemma_sort_within(result@, MIN_TIME as int, MAX_TIME as int);
        }
        sort_events(result)
    }
}

} // verus!
