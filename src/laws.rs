//! Properties that relate the storage lines to the events they hold.

use vstd::prelude::*;

use crate::clock::{formatted_timestamp, parsed_timestamp};
use crate::event::{event_lines, kind_of_text, kind_text, lemma_kind_text_round_trip, TimeReportEvent};
use crate::order::{lemma_sort_of_sorted, sorted_by_time};
use crate::parser::{completed, empty_pending, events_of_lines, read_line, scan_lines, Pending};
use crate::report::{serialized, TimeReport};
use crate::text::{has_no_sep, is_sep_at, key_value_of, only_sep_at};

verus! {

/// chrono reads back the instant from the text it writes for it, and that text
/// holds no `": "`, so a `time` line keeps it whole.
pub open spec fn time_text_round_trips(t: i64) -> bool {
    parsed_timestamp(formatted_timestamp(t)) == Some(t) && has_no_sep(formatted_timestamp(t))
}

/// A line that completes no field of an event: not `<key>: <value>`, an
/// unknown key, an unknown kind, or an instant that does not parse.
pub open spec fn malformed_line(l: Seq<char>) -> bool {
    match key_value_of(l) {
        None => true,
        Some((key, value)) => {
            if key == "time"@ {
                parsed_timestamp(value) is None
            } else if key == "type"@ {
                kind_of_text(value) is None
            } else {
                true
            }
        },
    }
}

/// A line made of a key free of `':'`, the separator, and a value free of the
/// separator splits into that key and that value.
proof fn lemma_split_line(key: Seq<char>, value: Seq<char>)
    requires
        forall|i: int| 0 <= i < key.len() ==> key[i] != ':',
        has_no_sep(value),
    ensures
        key_value_of(key + ": "@ + value) == Some((key, value)),
{
    reveal_strlit(": ");
    let l = key + ": "@ + value;
    let n = key.len() as int;
    assert(is_sep_at(l, n));
    assert forall|j: int| #[trigger] is_sep_at(l, j) implies j == n by {
        if j < n {
            assert(l[j] == key[j]);
        } else if j == n + 1 {
            assert(l[j] == ' ');
        } else if j > n + 1 {
            assert(is_sep_at(value, j - n - 2));
        }
    }
    assert(only_sep_at(l, n));
    let c = choose|c: int| only_sep_at(l, c);
    assert(c == n);
    assert(l.take(n) =~= key);
    assert(l.skip(n + 2) =~= value);
}

/// The two lines of an event, read from a state with no pending instant,
/// complete exactly that event.
proof fn lemma_read_event_lines(b: Pending, e: TimeReportEvent)
    requires
        b.time is None,
        time_text_round_trips(e.time),
    ensures
        completed(read_line(b, event_lines(e)[0])) is None,
        completed(read_line(read_line(b, event_lines(e)[0]), event_lines(e)[1])) == Some(e),
{
    reveal_strlit("type: ");
    reveal_strlit("time: ");
    reveal_strlit("type");
    reveal_strlit("time");
    reveal_strlit(": ");
    reveal_strlit("IN");
    reveal_strlit("OUT");
    let k = kind_text(e.event_type);
    assert(has_no_sep(k));
    assert("type: "@ =~= "type"@ + ": "@);
    assert("time: "@ =~= "time"@ + ": "@);
    assert(event_lines(e)[0] =~= "type"@ + ": "@ + k);
    assert(event_lines(e)[1] =~= "time"@ + ": "@ + formatted_timestamp(e.time));
    lemma_split_line("type"@, k);
    lemma_split_line("time"@, formatted_timestamp(e.time));
    lemma_kind_text_round_trip(e.event_type);
    assert("type"@ != "time"@) by {
        assert("type"@[1] != "time"@[1]);
    }
}

/// Appending the lines of an event after lines that leave no instant pending
/// adds exactly that event and leaves nothing pending.
proof fn lemma_scan_event_lines(lines: Seq<Seq<char>>, e: TimeReportEvent)
    requires
        scan_lines(lines).0.time is None,
        time_text_round_trips(e.time),
    ensures
        scan_lines(lines + event_lines(e)) == (empty_pending(), scan_lines(lines).1.push(e)),
{
    let a = event_lines(e)[0];
    let l1 = lines.push(a);
    let l2 = lines + event_lines(e);
    assert(l2.drop_last() =~= l1);
    assert(l1.drop_last() =~= lines);
    assert(l2.last() == event_lines(e)[1]);
    let (b, evs) = scan_lines(lines);
    lemma_read_event_lines(b, e);
    let b1 = read_line(b, a);
    assert(scan_lines(l1) == (b1, evs));
    assert(completed(read_line(b1, event_lines(e)[1])) == Some(e));
    assert(scan_lines(l2) == (empty_pending(), evs.push(e)));
}

/// The lines of a sequence of events, read back, give the events in the same
/// order and leave nothing pending.
proof fn lemma_scan_serialized(s: Seq<TimeReportEvent>)
    requires
        forall|i: int| 0 <= i < s.len() ==> time_text_round_trips(#[trigger] s[i].time),
    ensures
        scan_lines(serialized(s)) == (empty_pending(), s),
    decreases s.len(),
{
    if s.len() > 0 {
        let t = s.drop_last();
        assert forall|i: int| 0 <= i < t.len() implies time_text_round_trips(#[trigger] t[i].time) by {
            assert(t[i] == s[i]);
        }
        lemma_scan_serialized(t);
        assert(time_text_round_trips(s[s.len() - 1].time));
        lemma_scan_event_lines(serialized(t), s.last());
        assert(t.push(s.last()) =~= s);
    } else {
        assert(serialized(s) =~= seq![]);
        assert(s =~= seq![]);
    }
}

/// Writing a report's events as storage lines and reading those lines back
/// gives the same events in the same order, for every report whose instants
/// chrono writes and reads back unchanged.
pub proof fn lemma_round_trip(report: TimeReport)
    requires
        report.wf(),
        forall|i: int| 0 <= i < report@.len() ==> time_text_round_trips(#[trigger] report@[i].time),
    ensures
        events_of_lines(serialized(report@)) == report@,
{
    lemma_scan_serialized(report@);
    lemma_sort_of_sorted(report@);
}

/// A malformed line before or after the two lines of an event leaves that
/// event as the only one read.
pub proof fn lemma_malformed_line_ignored(e: TimeReportEvent, l: Seq<char>)
    requires
        time_text_round_trips(e.time),
        malformed_line(l),
    ensures
        events_of_lines(seq![l] + event_lines(e)) == seq![e],
        events_of_lines(event_lines(e) + seq![l]) == seq![e],
{
    let one = seq![e];
    assert(sorted_by_time(one));
    lemma_sort_of_sorted(one);
    // The malformed line first: it leaves no instant pending.
    let pre = seq![l];
    assert(pre.drop_last() =~= Seq::<Seq<char>>::empty());
    assert(scan_lines(pre.drop_last()) == (empty_pending(), Seq::<TimeReportEvent>::empty()));
    assert(pre.last() == l);
    assert(read_line(empty_pending(), l).time is None);
    assert(completed(read_line(empty_pending(), l)) is None);
    assert(scan_lines(pre) == (read_line(empty_pending(), l), Seq::<TimeReportEvent>::empty()));
    lemma_scan_event_lines(pre, e);
    assert(scan_lines(pre).1.push(e) =~= one);
    // The malformed line last: it cannot complete an event on its own.
    let ev = event_lines(e);
    let empty = Seq::<Seq<char>>::empty();
    assert(empty + ev =~= ev);
    assert(scan_lines(empty) == (empty_pending(), Seq::<TimeReportEvent>::empty()));
    lemma_scan_event_lines(empty, e);
    assert(scan_lines(ev) == (empty_pending(), one));
    let post = ev + seq![l];
    assert(post.drop_last() =~= ev);
    assert(post.last() == l);
    assert(read_line(empty_pending(), l).time is None);
    assert(scan_lines(post) == (read_line(empty_pending(), l), one));
}

} // verus!
