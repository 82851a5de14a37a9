//! Special AFNS types: a timeline of events stamped with times.

use vstd::prelude::*;

verus! {

/// Inserts an event into a sequence that is ordered by time: it goes after
/// every event whose time is not later than its own.
pub open spec fn insert_by_time<T>(s: Seq<(u64, T)>, x: (u64, T)) -> Seq<(u64, T)>
    decreases s.len(),
{
    if s.len() == 0 {
        seq![x]
    } else if s.last().0 <= x.0 {
        s.push(x)
    } else {
        insert_by_time(s.drop_last(), x).push(s.last())
    }
}

/// The events ordered by time, events with equal times keeping the order
/// they had (a stable sort by time).
pub open spec fn sort_by_time<T>(s: Seq<(u64, T)>) -> Seq<(u64, T)>
    decreases s.len(),
{
    if s.len() == 0 {
        s
    } else {
        insert_by_time(sort_by_time(s.drop_last()), s.last())
    }
}

/// Whether a sequence of events is ordered by time.
pub open spec fn sorted_by_time<T>(s: Seq<(u64, T)>) -> bool {
    forall|i: int, j: int| 0 <= i <= j < s.len() ==> s[i].0 <= s[j].0
}

/// The events whose time lies in `[lo, hi]`, in order.
pub open spec fn events_between<T>(s: Seq<(u64, T)>, lo: u64, hi: u64) -> Seq<T>
    decreases s.len(),
{
    if s.len() == 0 {
        Seq::empty()
    } else {
        let rest = events_between(s.drop_last(), lo, hi);
        if lo <= s.last().0 <= hi {
            rest.push(s.last().1)
        } else {
            rest
        }
    }
}

proof fn lemma_insert_by_time_sorted<T>(s: Seq<(u64, T)>, x: (u64, T))
    requires
        sorted_by_time(s),
    ensures
        sorted_by_time(insert_by_time(s, x)),
        insert_by_time(s, x).len() == s.len() + 1,
    decreases s.len(),
{
    if s.len() > 0 && s.last().0 > x.0 {
        let p = s.drop_last();
        lemma_insert_by_time_sorted(p, x);
        let r = insert_by_time(p, x);
        assert forall|i: int| 0 <= i < r.len() implies r[i].0 <= s.last().0 by {
            lemma_insert_by_time_members(p, x, i);
        }
    }
}

proof fn lemma_insert_by_time_members<T>(s: Seq<(u64, T)>, x: (u64, T), i: int)
    requires
        0 <= i < insert_by_time(s, x).len(),
    ensures
        insert_by_time(s, x).len() == s.len() + 1,
        insert_by_time(s, x)[i] == x || exists|j: int|
            0 <= j < s.len() && insert_by_time(s, x)[i] == s[j],
    decreases s.len(),
{
    if s.len() > 0 && s.last().0 > x.0 {
        let p = s.drop_last();
        lemma_insert_by_time_members(p, x, 0);
        if i < p.len() + 1 {
            lemma_insert_by_time_members(p, x, i);
            if insert_by_time(p, x)[i] != x {
                let j = choose|j: int| 0 <= j < p.len() && insert_by_time(p, x)[i] == p[j];
                assert(s[j] == p[j]);
            }
        } else {
            assert(insert_by_time(s, x)[i] == s[s.len() - 1]);
        }
    }
}

proof fn lemma_insert_at_place<T>(s: Seq<(u64, T)>, x: (u64, T), j: int)
    requires
        0 <= j <= s.len(),
        j > 0 ==> s[j - 1].0 <= x.0,
        forall|m: int| j <= m < s.len() ==> s[m].0 > x.0,
    ensures
        insert_by_time(s, x) == s.insert(j, x),
    decreases s.len(),
{
    if s.len() == 0 {
        assert(s.insert(j, x) =~= seq![x]);
    } else if s.last().0 <= x.0 {
        assert(j == s.len());
        assert(s.insert(j, x) =~= s.push(x));
    } else {
        let p = s.drop_last();
        lemma_insert_at_place(p, x, j);
        assert(s.insert(j, x) =~= p.insert(j, x).push(s.last()));
    }
}

/// A stable sort by time gives events ordered by time.
pub proof fn lemma_sort_by_time_sorted<T>(s: Seq<(u64, T)>)
    ensures
        sorted_by_time(sort_by_time(s)),
        sort_by_time(s).len() == s.len(),
    decreases s.len(),
{
    if s.len() > 0 {
        lemma_sort_by_time_sorted(s.drop_last());
        lemma_insert_by_time_sorted(sort_by_time(s.drop_last()), s.last());
    }
}

/// Temporal data structure for time-based operations
pub struct AFNSTimeline<T> {
    data: Vec<(u64, T)>,
    current_time: u64,
}

impl<T> View for AFNSTimeline<T> {
    type V = Seq<(u64, T)>;

    /// The events with their times, in the order the timeline keeps them.
    closed spec fn view(&self) -> Seq<(u64, T)> {
        self.data@
    }
}

impl<T> AFNSTimeline<T> {
    /// The timeline's current time.
    pub closed spec fn spec_time(&self) -> u64 {
        self.current_time
    }

    /// Create a new timeline
    pub fn new() -> (t: Self)
        ensures
            t@ == Seq::<(u64, T)>::empty(),
            t.spec_time() == 0,
    {
        Self { data: Vec::new(), current_time: 0 }
    }

    /// Add an event at the current time
    pub fn add_event(&mut self, event: T)
        ensures
            final(self)@ == old(self)@.push((old(self).spec_time(), event)),
            final(self).spec_time() == old(self).spec_time(),
    {
        self.data.push((self.current_time, event));
    }

    /// Add an event at a specific time; the events are then ordered by
    /// time, equal times keeping their order
    pub fn add_event_at(&mut self, time: u64, event: T)
        ensures
            final(self)@ == sort_by_time(old(self)@.push((time, event))),
            final(self).spec_time() == old(self).spec_time(),
    {
        self.data.push((time, event));
        let mut src: Vec<(u64, T)> = Vec::new();
        std::mem::swap(&mut self.data, &mut src);
        let ghost all = src@;
        assert(all.len() == src.len());
        let mut sorted: Vec<(u64, T)> = Vec::new();
        let mut k: usize = 0;
        while src.len() > 0
            invariant
                k <= all.len(),
                src@ == all.skip(k as int),
                all.len() <= usize::MAX,
                sorted@ == sort_by_time(all.take(k as int)),
            decreases src.len(),
        {
            let x = src.remove(0);
            assert(x == all[k as int]);
            let mut j: usize = sorted.len();
            while j > 0 && sorted[j - 1].0 > x.0
                invariant
                    j <= sorted@.len(),
                    forall|m: int| j <= m < sorted@.len() ==> sorted@[m].0 > x.0,
                decreases j,
            {
                j = j - 1;
            }
            proof {
                lemma_insert_at_place(sorted@, x, j as int);
                assert(all.take(k + 1).drop_last() =~= all.take(k as int));
                assert(src@ =~= all.skip(k + 1));
            }
            sorted.insert(j, x);
            k = k + 1;
        }
        assert(all.take(k as int) =~= all);
        self.data = sorted;
    }

    /// Get events at a specific time
    pub fn get_events_at(&self, time: u64) -> (r: Vec<&T>)
        ensures
            r@.map_values(|x: &T| *x) == events_between(self@, time, time),
    {
        self.get_events_in_range(time, time)
    }

    /// Get events in a time range, both ends included
    pub fn get_events_in_range(&self, start: u64, end: u64) -> (r: Vec<&T>)
        ensures
            r@.map_values(|x: &T| *x) == events_between(self@, start, end),
    {
        let mut r: Vec<&T> = Vec::new();
        let mut i: usize = 0;
        while i < self.data.len()
            invariant
                i <= self.data@.len(),
                r@.map_values(|x: &T| *x) == events_between(self.data@.take(i as int), start, end),
            decreases self.data@.len() - i,
        {
            let ghost prev = r@;
            proof {
                assert(self.data@.take(i + 1).drop_last() =~= self.data@.take(i as int));
            }
            if self.data[i].0 >= start && self.data[i].0 <= end {
                r.push(&self.data[i].1);
                assert(r@.map_values(|x: &T| *x) =~= prev.map_values(|x: &T| *x).push(
                    self.data@[i as int].1,
                ));
            }
            i = i + 1;
        }
        assert(self.data@.take(i as int) =~= self.data@);
        r
    }

    /// Advance the timeline; a time past the largest `u64` is outside what
    /// this accepts
    pub fn advance(&mut self, delta: u64)
        requires
            old(self).spec_time() + delta <= u64::MAX,
        ensures
            final(self)@ == old(self)@,
            final(self).spec_time() == old(self).spec_time() + delta,
    {
        self.current_time = self.current_time + delta;
    }

    /// Set the current time
    pub fn set_time(&mut self, time: u64)
        ensures
            final(self)@ == old(self)@,
            final(self).spec_time() == time,
    {
        self.current_time = time;
    }

    /// Get the current time
    pub fn current_time(&self) -> (t: u64)
        ensures
            t == self.spec_time(),
    {
        self.current_time
    }

    /// Get the number of events
    pub fn len(&self) -> (n: usize)
        ensures
            n == self@.len(),
    {
        self.data.len()
    }

    /// Check if the timeline is empty
    pub fn is_empty(&self) -> (b: bool)
        ensures
            b == (self@.len() == 0),
    {
        self.data.len() == 0
    }

    /// Clear all events
    pub fn clear(&mut self)
        ensures
            final(self)@ == Seq::<(u64, T)>::empty(),
            final(self).spec_time() == old(self).spec_time(),
    {
        self.data.clear();
    }
}

} // verus!
