use time_report::clock::{date_of, floor_div_mod, weekday_from_monday, MAX_TIME, MIN_TIME};
use time_report::event::{format_duration, format_minutes, EventType, TimeReportEvent};
use time_report::parser::{EventParseError, TimeReportEventBuilder};
use time_report::report::TimeReport;

// 2024-01-01 00:00:00 UTC, a Monday.
const JAN1: i64 = 1704067200;
const DAY: i64 = 86400;
const HOUR: i64 = 3600;
const MINUTE: i64 = 60;

fn ev(event_type: EventType, time: i64) -> TimeReportEvent {
    TimeReportEvent { event_type, time }
}

fn empty_report() -> TimeReport {
    TimeReport::from_lines(&vec![])
}

#[test]
fn pairing_two_sessions_gives_seven_hours() {
    let r = empty_report();
    let events = vec![
        ev(EventType::IN, JAN1 + 9 * HOUR),
        ev(EventType::OUT, JAN1 + 12 * HOUR),
        ev(EventType::IN, JAN1 + 13 * HOUR),
        ev(EventType::OUT, JAN1 + 17 * HOUR),
    ];
    let total = r.total_time_at(&events, JAN1 + 20 * HOUR);
    assert_eq!(total, 7 * HOUR);
    assert_eq!(format_duration(total), "7:00");
}

#[test]
fn dangling_in_counts_up_to_now() {
    let r = empty_report();
    let events = vec![ev(EventType::IN, JAN1 + 9 * HOUR)];
    let total = r.total_time_at(&events, JAN1 + 9 * HOUR + 30 * MINUTE);
    assert_eq!(total, 30 * MINUTE);
    assert_eq!(format_duration(total), "0:30");
}

#[test]
fn duplicate_in_pairs_with_earliest() {
    let r = empty_report();
    let events = vec![
        ev(EventType::IN, JAN1 + 9 * HOUR),
        ev(EventType::IN, JAN1 + 9 * HOUR + 5 * MINUTE),
        ev(EventType::OUT, JAN1 + 10 * HOUR),
    ];
    let total = r.total_time_at(&events, JAN1 + 23 * HOUR);
    assert_eq!(total, HOUR);
    assert_eq!(format_duration(total), "1:00");
}

#[test]
fn empty_scope_totals_zero() {
    let r = empty_report();
    assert_eq!(r.total_time_at(&vec![], JAN1), 0);
    assert_eq!(r.total_time(&vec![]), 0);
}

#[test]
fn leading_out_and_double_out_add_nothing_extra() {
    let r = empty_report();
    let events = vec![
        ev(EventType::OUT, JAN1 + 8 * HOUR),
        ev(EventType::IN, JAN1 + 9 * HOUR),
        ev(EventType::OUT, JAN1 + 10 * HOUR),
        ev(EventType::OUT, JAN1 + 11 * HOUR),
    ];
    assert_eq!(r.total_time_at(&events, JAN1 + 23 * HOUR), HOUR);
}

#[test]
fn live_total_with_closed_session() {
    let r = empty_report();
    let events = vec![ev(EventType::IN, 1000), ev(EventType::OUT, 2000)];
    assert_eq!(r.total_time(&events), 1000);
}

#[test]
fn minutes_render_with_two_digits() {
    assert_eq!(format_minutes(0), "00");
    assert_eq!(format_minutes(9), "09");
    assert_eq!(format_minutes(10), "10");
    assert_eq!(format_minutes(59), "59");
}

#[test]
fn durations_render_as_hours_and_minutes() {
    assert_eq!(format_duration(0), "0:00");
    assert_eq!(format_duration(9 * MINUTE + 59), "0:09");
    assert_eq!(format_duration(25 * HOUR + 10 * MINUTE), "25:10");
    assert_eq!(format_duration(100 * HOUR + 5 * MINUTE), "100:05");
}

#[test]
fn event_type_text() {
    assert_eq!(EventType::IN.to_str(), "IN");
    assert_eq!(EventType::OUT.to_str(), "OUT");
    assert_eq!(EventType::parse("IN"), Some(EventType::IN));
    assert_eq!(EventType::parse("OUT"), Some(EventType::OUT));
    assert_eq!(EventType::parse("in"), None);
    assert_eq!(EventType::parse(""), None);
    assert_eq!(EventType::parse("OUTS"), None);
}

#[test]
fn event_serializes_as_two_lines() {
    let e = ev(EventType::IN, JAN1 + 9 * HOUR);
    assert_eq!(e.serialize(), vec!["type: IN", "time: 2024-01-01 09:00:00 +0000"]);
}

#[test]
fn parses_one_event() {
    let lines = vec!["type: OUT", "time: 2024-01-01 17:30:15 +0000"];
    let events = TimeReportEventBuilder::from_list(&lines);
    assert_eq!(events, vec![ev(EventType::OUT, JAN1 + 17 * HOUR + 30 * MINUTE + 15)]);
}

#[test]
fn fields_may_come_in_either_order() {
    let lines = vec!["time: 2024-01-01 09:00:00 +0000", "type: IN"];
    let events = TimeReportEventBuilder::from_list(&lines);
    assert_eq!(events, vec![ev(EventType::IN, JAN1 + 9 * HOUR)]);
}

#[test]
fn offsets_are_normalized_to_utc() {
    let lines = vec!["type: IN", "time: 2024-01-01 10:00:00 +0100"];
    let events = TimeReportEventBuilder::from_list(&lines);
    assert_eq!(events, vec![ev(EventType::IN, JAN1 + 9 * HOUR)]);
}

#[test]
fn malformed_garbage_line_is_skipped() {
    for lines in [
        vec!["garbage", "type: IN", "time: 2024-01-01 09:00:00 +0000"],
        vec!["type: IN", "time: 2024-01-01 09:00:00 +0000", "garbage"],
    ] {
        let events = TimeReportEventBuilder::from_list(&lines);
        assert_eq!(events, vec![ev(EventType::IN, JAN1 + 9 * HOUR)]);
    }
}

#[test]
fn malformed_type_line_is_skipped() {
    for lines in [
        vec!["type: SIDEWAYS", "type: IN", "time: 2024-01-01 09:00:00 +0000"],
        vec!["type: IN", "time: 2024-01-01 09:00:00 +0000", "type: SIDEWAYS"],
    ] {
        let events = TimeReportEventBuilder::from_list(&lines);
        assert_eq!(events, vec![ev(EventType::IN, JAN1 + 9 * HOUR)]);
    }
}

#[test]
fn malformed_time_line_is_skipped() {
    for lines in [
        vec!["time: yesterday", "type: IN", "time: 2024-01-01 09:00:00 +0000"],
        vec!["type: IN", "time: 2024-01-01 09:00:00 +0000", "time: 2024-13-45 99:00:00 +0000"],
    ] {
        let events = TimeReportEventBuilder::from_list(&lines);
        assert_eq!(events, vec![ev(EventType::IN, JAN1 + 9 * HOUR)]);
    }
}

#[test]
fn trailing_incomplete_event_is_dropped() {
    let lines = vec!["type: IN", "time: 2024-01-01 09:00:00 +0000", "type: OUT"];
    let events = TimeReportEventBuilder::from_list(&lines);
    assert_eq!(events.len(), 1);
    assert!(TimeReportEventBuilder::from_list(&vec![]).is_empty());
}

#[test]
fn line_with_two_separators_is_discarded() {
    let mut b = TimeReportEventBuilder::new();
    b.parse("type: IN: OUT");
    assert!(matches!(&b.errors()[0], EventParseError::Discarded(l) if l == "type: IN: OUT"));
    assert_eq!(b.get_if_done(), None);
}

#[test]
fn builder_records_issues() {
    let mut b = TimeReportEventBuilder::new();
    b.parse("garbage");
    b.parse("colour: blue");
    b.parse("time: not a date");
    let errs = b.errors();
    assert_eq!(errs.len(), 3);
    assert!(matches!(&errs[0], EventParseError::Discarded(l) if l == "garbage"));
    assert!(matches!(&errs[1], EventParseError::Discarded(l) if l == "colour: blue"));
    assert!(matches!(&errs[2], EventParseError::Failed(l) if l == "time: not a date"));
    b.parse("type: IN");
    assert_eq!(b.get_if_done(), None);
    b.parse("time: 2024-01-01 09:00:00 +0000");
    assert_eq!(b.get_if_done(), Some(ev(EventType::IN, JAN1 + 9 * HOUR)));
    b.reset();
    assert_eq!(b.get_if_done(), None);
    assert!(b.errors().is_empty());
}

#[test]
fn invalid_type_clears_pending_kind() {
    let mut b = TimeReportEventBuilder::new();
    b.parse("type: IN");
    b.parse("type: MAYBE");
    b.parse("time: 2024-01-01 09:00:00 +0000");
    assert_eq!(b.get_if_done(), None);
}

#[test]
fn parsed_events_are_sorted() {
    let lines = vec![
        "type: OUT",
        "time: 2024-01-02 12:00:00 +0000",
        "type: IN",
        "time: 2024-01-01 09:00:00 +0000",
        "type: OUT",
        "time: 2024-01-01 17:00:00 +0000",
    ];
    let events = TimeReportEventBuilder::from_list(&lines);
    assert_eq!(
        events,
        vec![
            ev(EventType::IN, JAN1 + 9 * HOUR),
            ev(EventType::OUT, JAN1 + 17 * HOUR),
            ev(EventType::OUT, JAN1 + DAY + 12 * HOUR),
        ]
    );
}

#[test]
fn equal_instants_keep_their_order() {
    let lines = vec![
        "type: OUT",
        "time: 2024-01-01 09:00:00 +0000",
        "type: IN",
        "time: 2024-01-01 09:00:00 +0000",
    ];
    let events = TimeReportEventBuilder::from_list(&lines);
    assert_eq!(events[0].event_type, EventType::OUT);
    assert_eq!(events[1].event_type, EventType::IN);
}

#[test]
fn report_round_trips_through_lines() {
    let lines = vec![
        "type: IN",
        "time: 2024-01-01 09:00:00 +0000",
        "type: OUT",
        "time: 2024-01-01 12:00:00 +0000",
        "type: IN",
        "time: 1969-12-31 23:59:59 +0000",
    ];
    let r = TimeReport::from_lines(&lines);
    let out = r.serialize();
    assert_eq!(
        out,
        vec![
            "type: IN",
            "time: 1969-12-31 23:59:59 +0000",
            "type: IN",
            "time: 2024-01-01 09:00:00 +0000",
            "type: OUT",
            "time: 2024-01-01 12:00:00 +0000",
        ]
    );
    let back: Vec<&str> = out.iter().map(|s| s.as_str()).collect();
    let r2 = TimeReport::from_lines(&back);
    assert_eq!(r2.events(), r.events());
}

#[test]
fn add_event_keeps_order() {
    let lines = vec!["type: IN", "time: 2024-01-01 09:00:00 +0000", "type: OUT", "time: 2024-01-01 12:00:00 +0000"];
    let mut r = TimeReport::from_lines(&lines);
    r.add_event_at(EventType::OUT, JAN1 + 10 * HOUR);
    assert_eq!(
        *r.events(),
        vec![
            ev(EventType::IN, JAN1 + 9 * HOUR),
            ev(EventType::OUT, JAN1 + 10 * HOUR),
            ev(EventType::OUT, JAN1 + 12 * HOUR),
        ]
    );
    r.add_event_at(EventType::IN, JAN1 + 12 * HOUR);
    assert_eq!(r.events()[3], ev(EventType::IN, JAN1 + 12 * HOUR));
    r.add_event(EventType::IN);
    assert_eq!(r.events().len(), 5);
    assert_eq!(r.events()[4].event_type, EventType::IN);
    let ev_list = r.events();
    for i in 1..ev_list.len() {
        assert!(ev_list[i - 1].time <= ev_list[i].time);
    }
}

#[test]
fn events_of_one_day() {
    let lines = vec![
        "type: IN",
        "time: 2024-01-01 23:00:00 +0000",
        "type: OUT",
        "time: 2024-01-02 01:00:00 +0000",
        "type: IN",
        "time: 2024-01-02 09:00:00 +0000",
    ];
    let r = TimeReport::from_lines(&lines);
    let jan1 = date_of(JAN1);
    assert_eq!(r.events_in_day(jan1), vec![ev(EventType::IN, JAN1 + 23 * HOUR)]);
    assert_eq!(
        r.events_in_day(jan1 + 1),
        vec![ev(EventType::OUT, JAN1 + DAY + HOUR), ev(EventType::IN, JAN1 + DAY + 9 * HOUR)]
    );
    assert!(r.events_in_day(jan1 + 2).is_empty());
    let today = r.today();
    assert!(today.is_empty());
}

#[test]
fn week_on_wednesday_has_three_days() {
    let monday = date_of(JAN1);
    assert_eq!(TimeReport::days_this_week_from(monday + 2), vec![monday, monday + 1, monday + 2]);
}

#[test]
fn week_on_monday_has_one_day() {
    let monday = date_of(JAN1);
    assert_eq!(TimeReport::days_this_week_from(monday), vec![monday]);
    assert_eq!(TimeReport::days_this_week_from(monday + 6).len(), 7);
    assert_eq!(TimeReport::days_this_week_from(monday + 7), vec![monday + 7]);
}

#[test]
fn current_week_is_between_one_and_seven_days() {
    let r = empty_report();
    let days = r.days_this_week();
    assert!(!days.is_empty() && days.len() <= 7);
    assert_eq!(weekday_from_monday(days[0]), 0);
}

#[test]
fn calendar_arithmetic() {
    assert_eq!(date_of(0), 0);
    assert_eq!(date_of(-1), -1);
    assert_eq!(date_of(JAN1 + DAY - 1), 19723);
    assert_eq!(weekday_from_monday(0), 3);
    assert_eq!(weekday_from_monday(-4), 6);
    assert_eq!(weekday_from_monday(19723), 0);
    assert_eq!(floor_div_mod(-7, 3), (-3, 2));
    assert_eq!(floor_div_mod(-6, 3), (-2, 0));
    assert_eq!(floor_div_mod(7, 3), (2, 1));
}

#[test]
fn extreme_instants_serialize() {
    for t in [MIN_TIME, MAX_TIME] {
        let lines = ev(EventType::OUT, t).serialize();
        assert_eq!(lines.len(), 2);
        assert_eq!(lines[0], "type: OUT");
        assert!(lines[1].starts_with("time: "));
        assert!(lines[1].len() > "time: ".len());
    }
}

#[test]
fn week_totals_per_day() {
    let lines = vec![
        "type: IN",
        "time: 2024-01-01 09:00:00 +0000",
        "type: OUT",
        "time: 2024-01-01 12:00:00 +0000",
        "type: IN",
        "time: 2024-01-02 08:00:00 +0000",
        "type: OUT",
        "time: 2024-01-02 08:45:00 +0000",
        "type: IN",
        "time: 2024-01-03 10:00:00 +0000",
    ];
    let r = TimeReport::from_lines(&lines);
    let monday = date_of(JAN1);
    let now = JAN1 + 2 * DAY + 11 * HOUR + 15 * MINUTE;
    let totals = r.week_totals_at(monday + 2, now);
    assert_eq!(totals, vec![3 * HOUR, 45 * MINUTE, HOUR + 15 * MINUTE]);
    let shown: Vec<String> = totals.iter().map(|t| format_duration(*t)).collect();
    assert_eq!(shown, vec!["3:00", "0:45", "1:15"]);
}

#[test]
fn current_week_totals_match_current_week() {
    let r = empty_report();
    let totals = r.week_totals();
    assert_eq!(totals.len(), r.days_this_week().len());
    assert!(totals.iter().all(|t| *t == 0));
}
