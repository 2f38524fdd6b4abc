//! Keeping events in chronological order: a stable insertion by instant, and
//! the stable sort built from it.

use vstd::prelude::*;

use crate::event::TimeReportEvent;

verus! {

/// Whether the events are in non-decreasing order of instant.
pub open spec fn sorted_by_time(s: Seq<TimeReportEvent>) -> bool {
    forall|i: int, j: int| 0 <= i < j < s.len() ==> s[i].time <= s[j].time
}

/// `s` with `e` placed after every event at or before `e`'s instant and before
/// every later one.
pub open spec fn insert_by_time(s: Seq<TimeReportEvent>, e: TimeReportEvent) -> Seq<TimeReportEvent>
    decreases s.len(),
{
    if s.len() == 0 {
        seq![e]
    } else if s.last().time <= e.time {
        s.push(e)
    } else {
        insert_by_time(s.drop_last(), e).push(s.last())
    }
}

/// The events in order of instant; events at one instant keep their order.
pub open spec fn sort_by_time(s: Seq<TimeReportEvent>) -> Seq<TimeReportEvent>
    decreases s.len(),
{
    if s.len() == 0 {
        s
    } else {
        insert_by_time(sort_by_time(s.drop_last()), s.last())
    }
}

/// Inserting at position `p` as the exec code does gives the spec's insertion.
proof fn lemma_insert_at(s: Seq<TimeReportEvent>, e: TimeReportEvent, p: int)
    requires
        0 <= p <= s.len(),
        p == 0 || s[p - 1].time <= e.time,
        forall|j: int| p <= j < s.len() ==> s[j].time > e.time,
    ensures
        insert_by_time(s, e) == s.insert(p, e),
    decreases s.len(),
{
    if s.len() == 0 {
        assert(s.insert(p, e) =~= seq![e]);
    } else if s.last().time <= e.time {
        assert(p == s.len());
        assert(s.insert(p, e) =~= s.push(e));
    } else {
        let t = s.drop_last();
        lemma_insert_at(t, e, p);
        assert(s.insert(p, e) =~= t.insert(p, e).push(s.last()));
    }
}

/// Whether every event's instant lies within `[lo, hi]`.
pub open spec fn times_within(s: Seq<TimeReportEvent>, lo: int, hi: int) -> bool {
    forall|i: int| 0 <= i < s.len() ==> lo <= #[trigger] s[i].time <= hi
}

/// Insertion keeps every instant within bounds that all inputs respect.
pub proof fn lemma_insert_within(s: Seq<TimeReportEvent>, e: TimeReportEvent, lo: int, hi: int)
    requires
        times_within(s, lo, hi),
        lo <= e.time <= hi,
    ensures
        times_within(insert_by_time(s, e), lo, hi),
        insert_by_time(s, e).len() == s.len() + 1,
    decreases s.len(),
{
    if s.len() > 0 && s.last().time > e.time {
        lemma_insert_within(s.drop_last(), e, lo, hi);
    }
}

/// Sorting keeps every instant within bounds that the input respects.
pub proof fn lemma_sort_within(s: Seq<TimeReportEvent>, lo: int, hi: int)
    requires
        times_within(s, lo, hi),
    ensures
        times_within(sort_by_time(s), lo, hi),
    decreases s.len(),
{
    if s.len() > 0 {
        lemma_sort_within(s.drop_last(), lo, hi);
        lemma_insert_within(sort_by_time(s.drop_last()), s.last(), lo, hi);
    }
}

/// Insertion into a sorted sequence gives a sorted sequence.
pub proof fn lemma_insert_sorted(s: Seq<TimeReportEvent>, e: TimeReportEvent)
    requires
        sorted_by_time(s),
    ensures
        sorted_by_time(insert_by_time(s, e)),
        insert_by_time(s, e).len() == s.len() + 1,
    decreases s.len(),
{
    if s.len() > 0 && s.last().time > e.time {
        let t = s.drop_last();
        lemma_insert_sorted(t, e);
        lemma_insert_within(t, e, i64::MIN as int, s.last().time as int);
        assert(times_within(t, i64::MIN as int, s.last().time as int));
    }
}

/// Sorting gives a sorted sequence of the same length.
pub proof fn lemma_sort_sorted(s: Seq<TimeReportEvent>)
    ensures
        sorted_by_time(sort_by_time(s)),
        sort_by_time(s).len() == s.len(),
    decreases s.len(),
{
    if s.len() > 0 {
        lemma_sort_sorted(s.drop_last());
        lemma_insert_sorted(sort_by_time(s.drop_last()), s.last());
    }
}

/// Sorting leaves an already sorted sequence as it is.
pub proof fn lemma_sort_of_sorted(s: Seq<TimeReportEvent>)
    requires
        sorted_by_time(s),
    ensures
        sort_by_time(s) == s,
    decreases s.len(),
{
    if s.len() > 0 {
        let t = s.drop_last();
        lemma_sort_of_sorted(t);
        assert(t.push(s.last()) =~= s);
    }
}

/// Insertion adds exactly the one event.
pub proof fn lemma_insert_multiset(s: Seq<TimeReportEvent>, e: TimeReportEvent)
    ensures
        insert_by_time(s, e).to_multiset() == s.to_multiset().insert(e),
    decreases s.len(),
{
    broadcast use vstd::seq_lib::group_to_multiset_ensures;

    if s.len() == 0 {
        assert(s.to_multiset() =~= vstd::multiset::Multiset::empty());
        assert(seq![e] =~= s.push(e));
    } else if s.last().time > e.time {
        let t = s.drop_last();
        lemma_insert_multiset(t, e);
        assert(t.push(s.last()) =~= s);
        assert(insert_by_time(s, e).to_multiset() =~= s.to_multiset().insert(e));
    }
}

/// Sorting neither loses nor adds an event.
pub proof fn lemma_sort_multiset(s: Seq<TimeReportEvent>)
    ensures
        sort_by_time(s).to_multiset() == s.to_multiset(),
    decreases s.len(),
{
    broadcast use vstd::seq_lib::group_to_multiset_ensures;

    if s.len() == 0 {
    } else {
        let t = s.drop_last();
        lemma_sort_multiset(t);
        lemma_insert_multiset(sort_by_time(t), s.last());
        assert(t.push(s.last()) =~= s);
    }
}

/// Inserts `e` into `v` after every event at or before its instant.
pub fn insert_event(v: &mut Vec<TimeReportEvent>, e: TimeReportEvent)
    ensures
        final(v)@ == insert_by_time(old(v)@, e),
{
    let mut p = v.len();
    while p > 0 && v[p - 1].time > e.time
        invariant
            p <= v@.len(),
            v@ == old(v)@,
            forall|j: int| p <= j < v@.len() ==> v@[j].time > e.time,
        decreases p,
    {
        p = p - 1;
    }
    proof {
        lemma_insert_at(v@, e, p as int);
    }
    v.insert(p, e);
}

/// The events in order of instant; events at one instant keep their order.
pub fn sort_events(events: Vec<TimeReportEvent>) -> (r: Vec<TimeReportEvent>)
    ensures
        r@ == sort_by_time(events@),
{
    let mut r: Vec<TimeReportEvent> = Vec::new();
    let mut i: usize = 0;
    while i < events.len()
        invariant
            i <= events@.len(),
            r@ == sort_by_time(events@.take(i as int)),
        decreases events@.len() - i,
    {
        assert(events@.take(i as int + 1).drop_last() =~= events@.take(i as int));
        insert_event(&mut r, events[i]);
        i = i + 1;
    }
    assert(events@.take(i as int) =~= events@);
    r
}

} // verus!
