//! The event log is kept as numbered "segment" files plus one current file.
//! This module holds what is decided about them: which files are segments,
//! their names, when the current file is sealed, how a legacy file is split,
//! and the order in which all their events are replayed.

use vstd::prelude::*;
use crate::models::EventLog;

verus! {

// ---------------------------------------------------------------------------
// Ordering events by timestamp
// ---------------------------------------------------------------------------

/// Timestamps never decrease along `s`.
pub open spec fn sorted_by_timestamp(s: Seq<EventLog>) -> bool {
    forall|i: int, j: int| 0 <= i <= j < s.len() ==> #[trigger] s[i].timestamp <= #[trigger] s[j].timestamp
}

/// The events of `s` whose timestamp is `t`, in their order in `s`.
pub open spec fn with_timestamp(s: Seq<EventLog>, t: i64) -> Seq<EventLog>
    decreases s.len(),
{
    if s.len() == 0 {
        Seq::empty()
    } else if s.last().timestamp == t {
        with_timestamp(s.drop_last(), t).push(s.last())
    } else {
        with_timestamp(s.drop_last(), t)
    }
}

/// `r` is `s` ordered by timestamp, events of equal timestamp keeping their
/// order (what a stable sort by timestamp gives).
pub open spec fn is_stable_timestamp_sort(s: Seq<EventLog>, r: Seq<EventLog>) -> bool {
    &&& sorted_by_timestamp(r)
    &&& forall|t: i64| #[trigger] with_timestamp(r, t) == with_timestamp(s, t)
}

pub proof fn lemma_with_timestamp_add(a: Seq<EventLog>, b: Seq<EventLog>, t: i64)
    ensures
        with_timestamp(a + b, t) == with_timestamp(a, t) + with_timestamp(b, t),
    decreases b.len(),
{
    if b.len() == 0 {
        assert(a + b == a);
    } else {
        lemma_with_timestamp_add(a, b.drop_last(), t);
        assert((a + b).drop_last() == a + b.drop_last());
        assert((a + b).last() == b.last());
    }
}

pub proof fn lemma_with_timestamp_none(s: Seq<EventLog>, t: i64)
    requires
        forall|i: int| 0 <= i < s.len() ==> #[trigger] s[i].timestamp != t,
    ensures
        with_timestamp(s, t) == Seq::<EventLog>::empty(),
    decreases s.len(),
{
    if s.len() > 0 {
        assert(s.last() == s[s.len() - 1]);
        lemma_with_timestamp_none(s.drop_last(), t);
    }
}

pub proof fn lemma_with_timestamp_single(x: EventLog, t: i64)
    ensures
        with_timestamp(seq![x], t) == (if x.timestamp == t { seq![x] } else { Seq::<EventLog>::empty() }),
{
    assert(seq![x].drop_last() =~= Seq::<EventLog>::empty());
    assert(seq![x].last() == x);
    assert(with_timestamp(Seq::<EventLog>::empty(), t) == Seq::<EventLog>::empty());
    assert(Seq::<EventLog>::empty().push(x) =~= seq![x]);
}

/// Inserting `x` just before the first event whose timestamp is not smaller
/// keeps a sorted sequence sorted and places `x` ahead of its equals.
proof fn lemma_insert_front_of_equals(out: Seq<EventLog>, p: int, x: EventLog)
    requires
        0 <= p <= out.len(),
        sorted_by_timestamp(out),
        forall|j: int| 0 <= j < p ==> #[trigger] out[j].timestamp < x.timestamp,
        forall|j: int| p <= j < out.len() ==> #[trigger] out[j].timestamp >= x.timestamp,
    ensures
        sorted_by_timestamp(out.insert(p, x)),
        forall|t: i64| #[trigger] with_timestamp(out.insert(p, x), t) == with_timestamp(seq![x] + out, t),
{
    let n = out.insert(p, x);
    assert(n == out.take(p) + seq![x] + out.skip(p));
    assert(out == out.take(p) + out.skip(p));
    assert forall|i: int, j: int| 0 <= i <= j < n.len() implies #[trigger] n[i].timestamp <= #[trigger] n[j].timestamp by {
        if i < p {
            if j < p {
            } else if j == p {
            } else {
                assert(n[j] == out[j - 1]);
            }
        } else if i == p {
            if j > p {
                assert(n[j] == out[j - 1]);
            }
        } else {
            assert(n[i] == out[i - 1]);
            assert(n[j] == out[j - 1]);
        }
    }
    assert forall|t: i64| #[trigger] with_timestamp(n, t) == with_timestamp(seq![x] + out, t) by {
        let a = out.take(p);
        let b = out.skip(p);
        lemma_with_timestamp_add(a + seq![x], b, t);
        lemma_with_timestamp_add(a, seq![x], t);
        lemma_with_timestamp_add(seq![x], out, t);
        lemma_with_timestamp_add(a, b, t);
        lemma_with_timestamp_single(x, t);
        if x.timestamp == t {
            assert forall|i: int| 0 <= i < a.len() implies #[trigger] a[i].timestamp != t by {
                assert(a[i] == out[i]);
            }
            lemma_with_timestamp_none(a, t);
            assert(with_timestamp(a, t) + seq![x] + with_timestamp(b, t) == seq![x] + with_timestamp(b, t));
            assert(with_timestamp(a, t) + with_timestamp(b, t) == with_timestamp(b, t));
        } else {
            assert(with_timestamp(a, t) + Seq::<EventLog>::empty() == with_timestamp(a, t));
            assert(Seq::<EventLog>::empty() + with_timestamp(out, t) == with_timestamp(out, t));
        }
    }
}

/// Orders events by timestamp; events with equal timestamps keep their
/// order (`sort_by_key(|e| e.timestamp)`).
pub fn sort_events_by_timestamp(events: Vec<EventLog>) -> (r: Vec<EventLog>)
    ensures
        is_stable_timestamp_sort(events@, r@),
{
    let ghost orig = events@;
    let mut rest = events;
    let mut out: Vec<EventLog> = Vec::new();
    while rest.len() > 0
        invariant
            rest@ == orig.take(rest.len() as int),
            rest.len() <= orig.len(),
            sorted_by_timestamp(out@),
            forall|t: i64| #[trigger] with_timestamp(out@, t) == with_timestamp(orig.skip(rest.len() as int), t),
        decreases rest.len(),
    {
        let ghost k = rest.len();
        let x = rest.pop().unwrap();
        assert(x == orig[k - 1]);
        // first position whose timestamp is not smaller than x's
        let mut p: usize = 0;
        while p < out.len() && out[p].timestamp < x.timestamp
            invariant
                p <= out.len(),
                forall|j: int| 0 <= j < p ==> #[trigger] out@[j].timestamp < x.timestamp,
            decreases out.len() - p,
        {
            p = p + 1;
        }
        proof {
            assert forall|j: int| p <= j < out@.len() implies #[trigger] out@[j].timestamp >= x.timestamp by {
                assert(out@[p as int].timestamp <= out@[j].timestamp);
            }
            lemma_insert_front_of_equals(out@, p as int, x);
            assert(orig.skip(k - 1) == seq![x] + orig.skip(k as int));
            assert(rest@ == orig.take(k - 1));
        }
        let ghost old_out = out@;
        out.insert(p, x);
        proof {
            assert forall|t: i64| #[trigger] with_timestamp(out@, t) == with_timestamp(orig.skip(rest.len() as int), t) by {
                lemma_with_timestamp_add(seq![x], old_out, t);
                lemma_with_timestamp_add(seq![x], orig.skip(k as int), t);
            }
        }
    }
    assert(orig.skip(0) == orig);
    out
}

/// All events of the given segments, in segment order.
pub open spec fn concat_segments(segments: Seq<Vec<EventLog>>) -> Seq<EventLog>
    decreases segments.len(),
{
    if segments.len() == 0 {
        Seq::empty()
    } else {
        concat_segments(segments.drop_last()) + segments.last()@
    }
}

proof fn lemma_concat_segments_first(segments: Seq<Vec<EventLog>>)
    requires
        segments.len() > 0,
    ensures
        concat_segments(segments) == segments[0]@ + concat_segments(segments.drop_first()),
    decreases segments.len(),
{
    if segments.len() == 1 {
        assert(segments.drop_last() =~= Seq::<Vec<EventLog>>::empty());
        assert(segments.drop_first() =~= Seq::<Vec<EventLog>>::empty());
        assert(concat_segments(Seq::<Vec<EventLog>>::empty()) == Seq::<EventLog>::empty());
        assert(Seq::<EventLog>::empty() + segments[0]@ =~= segments[0]@);
        assert(segments[0]@ + Seq::<EventLog>::empty() =~= segments[0]@);
        assert(segments.last() == segments[0]);
    } else {
        lemma_concat_segments_first(segments.drop_last());
        assert(segments.drop_last().drop_first() =~= segments.drop_first().drop_last());
        assert(segments.drop_first().last() == segments.last());
        assert(segments.drop_last()[0] == segments[0]);
        let a = segments[0]@;
        let b = concat_segments(segments.drop_last().drop_first());
        let c = segments.last()@;
        assert((a + b) + c =~= a + (b + c));
    }
}

/// The events of every segment file (sealed segments by name, then the
/// current file), ordered by timestamp, events with equal timestamps keeping
/// their file order.
pub fn read_all_events(segments: Vec<Vec<EventLog>>) -> (r: Vec<EventLog>)
    ensures
        is_stable_timestamp_sort(concat_segments(segments@), r@),
{
    let ghost orig = segments@;
    let mut segs = segments;
    let mut all: Vec<EventLog> = Vec::new();
    let ghost mut done: int = 0;
    while segs.len() > 0
        invariant
            0 <= done <= orig.len(),
            segs@ == orig.skip(done),
            concat_segments(orig) == all@ + concat_segments(segs@),
        decreases segs.len(),
    {
        proof {
            lemma_concat_segments_first(segs@);
        }
        let mut first = segs.remove(0);
        all.append(&mut first);
        proof {
            assert(segs@ == orig.skip(done + 1));
            done = done + 1;
        }
    }
    assert(all@ + Seq::<EventLog>::empty() == all@);
    sort_events_by_timestamp(all)
}

} // verus!
