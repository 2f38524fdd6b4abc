//! The report: every recorded event in order of instant, the events of one
//! day, the days of the current week, and worked time by pairing each `OUT`
//! with the earliest `IN` still open.

use vstd::prelude::*;

use crate::clock::{
    date_of, day_of, days_from_monday, now_timestamp, today_date, valid_time, weekday_from_monday,
    MAX_TIME, MIN_TIME,
};
use crate::event::{event_lines, EventType, TimeReportEvent};
use crate::order::{
    insert_by_time, insert_event, lemma_insert_multiset, lemma_insert_sorted, lemma_insert_within, sorted_by_time,
    times_within,
};
use crate::parser::{events_of_lines, TimeReportEventBuilder};

verus! {

/// The storage lines of a sequence of events, two per event, in order.
pub open spec fn serialized(s: Seq<TimeReportEvent>) -> Seq<Seq<char>>
    decreases s.len(),
{
    if s.len() == 0 {
        seq![]
    } else {
        serialized(s.drop_last()) + event_lines(s.last())
    }
}

/// The events of `s` on calendar day `day` (UTC), in their order in `s`.
pub open spec fn events_on(s: Seq<TimeReportEvent>, day: int) -> Seq<TimeReportEvent>
    decreases s.len(),
{
    if s.len() == 0 {
        seq![]
    } else if day_of(s.last().time as int) == day {
        events_on(s.drop_last(), day).push(s.last())
    } else {
        events_on(s.drop_last(), day)
    }
}

/// The days from the most recent Monday through `today`, ascending.
pub open spec fn week_through(today: int) -> Seq<int> {
    Seq::new((days_from_monday(today) + 1) as nat, |i: int| today - days_from_monday(today) + i)
}

/// One step of the pairing: the open cursor and the running total after `e`.
/// An `OUT` closes an open `IN` and becomes the cursor; an `IN` becomes the
/// cursor only when no `IN` is open, so repeated `IN`s keep the earliest.
pub open spec fn pair_step(state: (TimeReportEvent, int), e: TimeReportEvent) -> (TimeReportEvent, int) {
    let (c, total) = state;
    if e.event_type == EventType::OUT {
        if c.event_type == EventType::IN {
            (e, total + (e.time - c.time))
        } else {
            (e, total)
        }
    } else if c.event_type != EventType::IN {
        (e, total)
    } else {
        (c, total)
    }
}

/// The pairing run over `s` from cursor `start`.
pub open spec fn pair_scan(start: TimeReportEvent, s: Seq<TimeReportEvent>) -> (TimeReportEvent, int)
    decreases s.len(),
{
    if s.len() == 0 {
        (start, 0)
    } else {
        pair_step(pair_scan(start, s.drop_last()), s.last())
    }
}

/// Worked time over `s` in seconds, with an `IN` left open counted up to `now`.
pub open spec fn total_at(s: Seq<TimeReportEvent>, now: int) -> int {
    if s.len() == 0 {
        0
    } else {
        let (c, total) = pair_scan(s[0], s);
        if c.event_type == EventType::IN {
            total + (now - c.time)
        } else {
            total
        }
    }
}

/// Worked time on each day from the most recent Monday through `today`.
pub open spec fn week_totals_of(s: Seq<TimeReportEvent>, today: int, now: int) -> Seq<int> {
    week_through(today).map_values(|d: int| total_at(events_on(s, d), now))
}

/// Filtering keeps instants within bounds that the input respects.
proof fn lemma_events_on_within(s: Seq<TimeReportEvent>, day: int, lo: int, hi: int)
    requires
        times_within(s, lo, hi),
    ensures
        times_within(events_on(s, day), lo, hi),
    decreases s.len(),
{
    if s.len() > 0 {
        lemma_events_on_within(s.drop_last(), day, lo, hi);
    }
}

/// The events of one day of a sorted sequence are sorted.
proof fn lemma_events_on_sorted(s: Seq<TimeReportEvent>, day: int)
    requires
        sorted_by_time(s),
    ensures
        sorted_by_time(events_on(s, day)),
    decreases s.len(),
{
    if s.len() > 0 {
        let t = s.drop_last();
        lemma_events_on_sorted(t, day);
        assert(times_within(t, i64::MIN as int, s.last().time as int));
        lemma_events_on_within(t, day, i64::MIN as int, s.last().time as int);
    }
}

/// The recorded events, always in order of instant.
pub struct TimeReport {
    events: Vec<TimeReportEvent>,
}

impl View for TimeReport {
    type V = Seq<TimeReportEvent>;

    closed spec fn view(&self) -> Seq<TimeReportEvent> {
        self.events@
    }
}

impl TimeReport {
    /// The events are in order of instant and chrono can represent each instant.
    pub open spec fn wf(&self) -> bool {
        sorted_by_time(self@) && times_within(self@, MIN_TIME as int, MAX_TIME as int)
    }

    /// The report of the events that storage lines hold.
    pub fn from_lines(lines: &Vec<&str>) -> (r: TimeReport)
        ensures
            r@ == events_of_lines(lines@.map_values(|l: &str| l@)),
            r.wf(),
    {
        TimeReport { events: TimeReportEventBuilder::from_list(lines) }
    }

    /// The recorded events.
    pub fn events(&self) -> (r: &Vec<TimeReportEvent>)
        ensures
            r@ == self@,
    {
        &self.events
    }

    /// Records an event of the given kind at instant `time`, after every event
    /// at or before that instant.
    pub fn add_event_at(&mut self, event_type: EventType, time: i64)
        requires
            old(self).wf(),
            valid_time(time as int),
        ensures
            final(self)@ == insert_by_time(old(self)@, TimeReportEvent { event_type, time }),
            final(self)@.to_multiset() == old(self)@.to_multiset().insert(
                TimeReportEvent { event_type, time },
            ),
            final(self).wf(),
    {
        let e = TimeReportEvent { event_type, time };
        proof {
            lemma_insert_multiset(self@, e);
            lemma_insert_sorted(self@, e);
            lemma_insert_within(self@, e, MIN_TIME as int, MAX_TIME as int);
        }
        insert_event(&mut self.events, e);
    }

    /// Records an event of the given kind at the current instant.
    pub fn add_event(&mut self, event_type: EventType)
        requires
            old(self).wf(),
        ensures
            exists|t: i64|
                0 <= t <= MAX_TIME && final(self)@ == insert_by_time(
                    old(self)@,
                    TimeReportEvent { event_type, time: t },
                ),
            final(self).wf(),
    {
        let e = TimeReportEvent::now(event_type);
        self.add_event_at(event_type, e.time);
    }

    /// The storage lines of the report: two per event, in order.
    pub fn serialize(&self) -> (r: Vec<String>)
        requires
            self.wf(),
        ensures
            r@.map_values(|l: String| l@) == serialized(self@),
    {
        let mut r: Vec<String> = Vec::new();
        let mut i: usize = 0;
        while i < self.events.len()
            invariant
                self.wf(),
                i <= self@.len(),
                r@.map_values(|l: String| l@) == serialized(self@.take(i as int)),
            decreases self@.len() - i,
        {
            let e = self.events[i];
            let lines = e.serialize();
            let ghost before = r@.map_values(|l: String| l@);
            assert(lines@.map_values(|l: String| l@).len() == 2);
            assert(lines@[0]@ == event_lines(e)[0] && lines@[1]@ == event_lines(e)[1]) by {
                assert(lines@.map_values(|l: String| l@)[0] == lines@[0]@);
                assert(lines@.map_values(|l: String| l@)[1] == lines@[1]@);
            }
            r.push(lines[0].clone());
            r.push(lines[1].clone());
            assert(self@.take(i as int + 1).drop_last() =~= self@.take(i as int));
            assert(r@.map_values(|l: String| l@) =~= before + event_lines(e));
            i = i + 1;
        }
        assert(self@.take(i as int) =~= self@);
        r
    }

    /// The events on calendar day `date` (UTC), in order.
    pub fn events_in_day(&self, date: i64) -> (r: Vec<TimeReportEvent>)
        requires
            self.wf(),
        ensures
            r@ == events_on(self@, date as int),
            sorted_by_time(r@),
            times_within(r@, MIN_TIME as int, MAX_TIME as int),
    {
        let mut r: Vec<TimeReportEvent> = Vec::new();
        let mut i: usize = 0;
        while i < self.events.len()
            invariant
                self.wf(),
                i <= self@.len(),
                r@ == events_on(self@.take(i as int), date as int),
            decreases self@.len() - i,
        {
            assert(self@.take(i as int + 1).drop_last() =~= self@.take(i as int));
            let e = self.events[i];
            if date_of(e.time) == date {
                r.push(e);
            }
            i = i + 1;
        }
        assert(self@.take(i as int) =~= self@);
        proof {
            lemma_events_on_sorted(self@, date as int);
            lemma_events_on_within(self@, date as int, MIN_TIME as int, MAX_TIME as int);
        }
        r
    }

    /// The events of the current calendar day (UTC), in order.
    pub fn today(&self) -> (r: Vec<TimeReportEvent>)
        requires
            self.wf(),
        ensures
            exists|d: int| 0 <= d && r@ == events_on(self@, d),
    {
        let d = today_date();
        self.events_in_day(d)
    }

    /// The days from the most recent Monday through `today`, ascending: one
    /// day on a Monday, seven on a Sunday.
    pub fn days_this_week_from(today: i64) -> (r: Vec<i64>)
        requires
            i64::MIN + 7 < today < i64::MAX - 3,
        ensures
            r@.map_values(|d: i64| d as int) == week_through(today as int),
            r@.len() == days_from_monday(today as int) + 1,
            forall|i: int|
                0 <= i < r@.len() ==> #[trigger] r@[i] == today - days_from_monday(today as int) + i,
    {
        let k = weekday_from_monday(today);
        let mut r: Vec<i64> = Vec::new();
        let mut i: i64 = 0;
        while i <= k
            invariant
                0 <= k < 7,
                k == days_from_monday(today as int),
                0 <= i <= k + 1,
                i64::MIN + 7 < today,
                r@.len() == i,
                forall|j: int| 0 <= j < i ==> #[trigger] r@[j] == today - k + j,
            decreases k + 1 - i,
        {
            r.push(today - (k - i));
            i = i + 1;
        }
        assert(r@.map_values(|d: i64| d as int) =~= week_through(today as int));
        r
    }

    /// The days from the most recent Monday through today (UTC), ascending.
    pub fn days_this_week(&self) -> (r: Vec<i64>)
        ensures
            exists|d: int| 0 <= d && r@.map_values(|x: i64| x as int) == week_through(d),
    {
        let d = today_date();
        TimeReport::days_this_week_from(d)
    }

    /// Worked time in seconds over events in order of instant, with an `IN`
    /// left open counted up to `now`.
    pub fn total_time_at(&self, events: &Vec<TimeReportEvent>, now: i64) -> (r: i64)
        requires
            sorted_by_time(events@),
            times_within(events@, MIN_TIME as int, MAX_TIME as int),
            valid_time(now as int),
        ensures
            r == total_at(events@, now as int),
    {
        if events.len() == 0 {
            return 0;
        }
        let first = events[0];
        let mut cur: usize = 0;
        let mut total: i64 = 0;
        let mut i: usize = 0;
        while i < events.len()
            invariant
                0 < events@.len(),
                first == events@[0],
                sorted_by_time(events@),
                times_within(events@, MIN_TIME as int, MAX_TIME as int),
                i <= events@.len(),
                cur < events@.len(),
                i == 0 ==> cur == 0,
                i > 0 ==> cur < i,
                (events@[cur as int], total as int) == pair_scan(first, events@.take(i as int)),
                0 <= total <= events@[cur as int].time - first.time,
            decreases events@.len() - i,
        {
            assert(events@.take(i as int + 1).drop_last() =~= events@.take(i as int));
            let e = events[i];
            let c = events[cur];
            if e.event_type == EventType::OUT {
                if c.event_type == EventType::IN {
                    total = total + (e.time - c.time);
                }
                cur = i;
            } else if c.event_type != EventType::IN {
                cur = i;
            }
            i = i + 1;
        }
        assert(events@.take(i as int) =~= events@);
        let c = events[cur];
        if c.event_type == EventType::IN {
            total + (now - c.time)
        } else {
            total
        }
    }

    /// Worked time in seconds over events in order of instant, with an `IN`
    /// left open counted up to the current instant.
    pub fn total_time(&self, events: &Vec<TimeReportEvent>) -> (r: i64)
        requires
            sorted_by_time(events@),
            times_within(events@, MIN_TIME as int, MAX_TIME as int),
        ensures
            exists|now: int| 0 <= now <= MAX_TIME && r == total_at(events@, now),
    {
        let now = now_timestamp();
        self.total_time_at(events, now)
    }

    /// Worked time on each day from the most recent Monday through `today`,
    /// with an `IN` left open counted up to `now`.
    pub fn week_totals_at(&self, today: i64, now: i64) -> (r: Vec<i64>)
        requires
            self.wf(),
            i64::MIN + 7 < today < i64::MAX - 3,
            valid_time(now as int),
        ensures
            r@.map_values(|x: i64| x as int) == week_totals_of(self@, today as int, now as int),
    {
        let days = TimeReport::days_this_week_from(today);
        let ghost week = week_through(today as int);
        let mut r: Vec<i64> = Vec::new();
        let mut i: usize = 0;
        while i < days.len()
            invariant
                self.wf(),
                valid_time(now as int),
                week == week_through(today as int),
                days@.len() == week.len(),
                forall|j: int| 0 <= j < days@.len() ==> #[trigger] days@[j] as int == week[j],
                i <= days@.len(),
                r@.len() == i,
                forall|j: int|
                    0 <= j < i ==> #[trigger] r@[j] == total_at(events_on(self@, week[j]), now as int),
            decreases days@.len() - i,
        {
            let events = self.events_in_day(days[i]);
            let t = self.total_time_at(&events, now);
            r.push(t);
            i = i + 1;
        }
        assert(r@.map_values(|x: i64| x as int) =~= week_totals_of(self@, today as int, now as int));
        r
    }

    /// Worked time on each day of the current week through today (UTC), with
    /// an `IN` left open counted up to the current instant.
    pub fn week_totals(&self) -> (r: Vec<i64>)
        requires
            self.wf(),
        ensures
            exists|today: int, now: int|
                0 <= today && 0 <= now <= MAX_TIME && r@.map_values(|x: i64| x as int)
                    == #[trigger] week_totals_of(self@, today, now),
    {
        let today = today_date();
        let now = now_timestamp();
        self.week_totals_at(today, now)
    }
}

} // verus!
