//! The anchor table: per-region accumulation of elapsed cycles and hits.
use vstd::prelude::*;

use crate::clock::{clamp_u64, span};

verus! {

/// Timing statistics of one named region.
#[derive(Debug, Clone, Copy, PartialEq, Eq, Structural)]
pub struct ProfileAnchor {
    /// Cycle counter at the most recent entry.
    pub start_tsc: u64,
    /// Cycles of all closed intervals, summed.
    pub tsc_elapsed: u64,
    /// Number of entries, the one that created the anchor included.
    pub hit_count: u64,
    /// Whether an interval is open, that is entered and not yet closed.
    pub is_open: bool,
}

/// The anchor of a region entered for the first time at `now`.
pub open spec fn opened(now: u64) -> ProfileAnchor {
    ProfileAnchor { start_tsc: now, tsc_elapsed: 0, hit_count: 1, is_open: true }
}

/// The anchor of a region closed at `now` without ever being entered: a hit
/// of no duration.
pub open spec fn unbalanced(now: u64) -> ProfileAnchor {
    ProfileAnchor { start_tsc: now, tsc_elapsed: 0, hit_count: 1, is_open: false }
}

/// Cycles accumulated once the interval open in `a`, if any, closes at `now`.
pub open spec fn folded(a: ProfileAnchor, now: u64) -> u64 {
    if a.is_open {
        clamp_u64(a.tsc_elapsed + span(a.start_tsc, now))
    } else {
        a.tsc_elapsed
    }
}

/// `a` entered again at `now`: an open interval is closed first, then a new
/// one opens and the hit is counted.
pub open spec fn reopened(a: ProfileAnchor, now: u64) -> ProfileAnchor {
    ProfileAnchor {
        start_tsc: now,
        tsc_elapsed: folded(a, now),
        hit_count: clamp_u64(a.hit_count + 1),
        is_open: true,
    }
}

/// `a` left at `now`: the open interval, if any, is added and closed.
pub open spec fn closed(a: ProfileAnchor, now: u64) -> ProfileAnchor {
    ProfileAnchor { tsc_elapsed: folded(a, now), is_open: false, ..a }
}

/// Index of the entry named `name` (the last one, if several), or -1.
pub open spec fn find(e: Seq<(Seq<char>, ProfileAnchor)>, name: Seq<char>) -> int
    decreases e.len(),
{
    if e.len() == 0 {
        -1
    } else if e.last().0 == name {
        e.len() - 1
    } else {
        find(e.drop_last(), name)
    }
}

/// The anchor of region `name`, if it has one.
pub open spec fn lookup(e: Seq<(Seq<char>, ProfileAnchor)>, name: Seq<char>) -> Option<
    ProfileAnchor,
> {
    let i = find(e, name);
    if i >= 0 {
        Some(e[i].1)
    } else {
        None
    }
}

/// No two entries share a name.
pub open spec fn names_unique(e: Seq<(Seq<char>, ProfileAnchor)>) -> bool {
    forall|i: int, j: int| 0 <= i < j < e.len() ==> e[i].0 != e[j].0
}

/// The table after region `name` is entered at `now`.
pub open spec fn after_begin(e: Seq<(Seq<char>, ProfileAnchor)>, name: Seq<char>, now: u64) -> Seq<
    (Seq<char>, ProfileAnchor),
> {
    let i = find(e, name);
    if i >= 0 {
        e.update(i, (name, reopened(e[i].1, now)))
    } else {
        e.push((name, opened(now)))
    }
}

/// The table after region `name` is left at `now`.
pub open spec fn after_end(e: Seq<(Seq<char>, ProfileAnchor)>, name: Seq<char>, now: u64) -> Seq<
    (Seq<char>, ProfileAnchor),
> {
    let i = find(e, name);
    if i >= 0 {
        e.update(i, (name, closed(e[i].1, now)))
    } else {
        e.push((name, unbalanced(now)))
    }
}

proof fn lemma_find_bounds(e: Seq<(Seq<char>, ProfileAnchor)>, name: Seq<char>)
    ensures
        -1 <= find(e, name) < e.len(),
        find(e, name) >= 0 ==> e[find(e, name)].0 == name,
        find(e, name) == -1 <==> forall|j: int| 0 <= j < e.len() ==> e[j].0 != name,
    decreases e.len(),
{
    if e.len() > 0 && e.last().0 != name {
        lemma_find_bounds(e.drop_last(), name);
        assert forall|j: int| 0 <= j < e.len() - 1 implies e.drop_last()[j] == e[j] by {}
    }
}

proof fn lemma_find_unique(e: Seq<(Seq<char>, ProfileAnchor)>, name: Seq<char>, i: int)
    requires
        names_unique(e),
        0 <= i < e.len(),
        e[i].0 == name,
    ensures
        find(e, name) == i,
    decreases e.len(),
{
    if i != e.len() - 1 {
        assert(e.drop_last()[i] == e[i]);
        lemma_find_unique(e.drop_last(), name, i);
    }
}

proof fn lemma_find_rename_free(
    e: Seq<(Seq<char>, ProfileAnchor)>,
    i: int,
    a: ProfileAnchor,
    name: Seq<char>,
)
    requires
        0 <= i < e.len(),
    ensures
        find(e.update(i, (e[i].0, a)), name) == find(e, name),
    decreases e.len(),
{
    let u = e.update(i, (e[i].0, a));
    if e.len() > 0 && e.last().0 != name && i != e.len() - 1 {
        assert(u.drop_last() == e.drop_last().update(i, (e[i].0, a)));
        lemma_find_rename_free(e.drop_last(), i, a, name);
    } else if e.len() > 0 && e.last().0 != name {
        assert(u.drop_last() == e.drop_last());
    }
}

/// The anchor table of one profiling session, with the cycle counter readings
/// taken when the session started and when it ended.
pub struct Profiler {
    pub start_tsc: u64,
    pub end_tsc: u64,
    pub anchors: Vec<(String, ProfileAnchor)>,
}

impl View for Profiler {
    type V = Seq<(Seq<char>, ProfileAnchor)>;

    open spec fn view(&self) -> Seq<(Seq<char>, ProfileAnchor)> {
        self.anchors@.map_values(|p: (String, ProfileAnchor)| (p.0@, p.1))
    }
}

impl Profiler {
    /// The table holds each region's name once.
    pub open spec fn wf(&self) -> bool {
        names_unique(self@)
    }

    /// A session that started at cycle `start_tsc`, with no regions yet.
    pub fn new(start_tsc: u64) -> (p: Profiler)
        ensures
            p.wf(),
            p@ == Seq::<(Seq<char>, ProfileAnchor)>::empty(),
            p.start_tsc == start_tsc,
            p.end_tsc == start_tsc,
    {
        Profiler { start_tsc, end_tsc: start_tsc, anchors: Vec::new() }
    }

    fn position(&self, name: &String) -> (r: Option<usize>)
        requires
            self.wf(),
        ensures
            match r {
                Some(i) => i < self@.len() && find(self@, name@) == i,
                None => find(self@, name@) == -1,
            },
    {
        let mut i: usize = 0;
        while i < self.anchors.len()
            invariant
                i <= self.anchors.len(),
                self.wf(),
                forall|j: int| 0 <= j < i ==> self@[j].0 != name@,
            decreases self.anchors.len() - i,
        {
            if self.anchors[i].0 == *name {
                proof {
                    lemma_find_unique(self@, name@, i as int);
                }
                return Some(i);
            }
            i += 1;
        }
        proof {
            lemma_find_bounds(self@, name@);
        }
        None
    }

    /// Enters region `name` at cycle `now`. Entering a region that is still
    /// open first closes its open interval at `now`, so entries of one name
    /// are measured one after another: regions of the same name must not
    /// nest, as under recursion, or the outer interval is cut short.
    pub fn begin_region(&mut self, name: &str, now: u64)
        requires
            old(self).wf(),
        ensures
            final(self).wf(),
            final(self)@ == after_begin(old(self)@, name@, now),
            final(self).start_tsc == old(self).start_tsc,
            final(self).end_tsc == old(self).end_tsc,
    {
        let key: String = name.to_owned();
        match self.position(&key) {
            Some(i) => {
                proof {
                    lemma_find_bounds(self@, name@);
                }
                let a: ProfileAnchor = self.anchors[i].1;
                let elapsed: u64 = if a.is_open {
                    a.tsc_elapsed.saturating_add(now.saturating_sub(a.start_tsc))
                } else {
                    a.tsc_elapsed
                };
                let b = ProfileAnchor {
                    start_tsc: now,
                    tsc_elapsed: elapsed,
                    hit_count: a.hit_count.saturating_add(1),
                    is_open: true,
                };
                self.anchors[i].1 = b;
                proof {
                    assert(self@ =~= after_begin(old(self)@, name@, now));
                }
            },
            None => {
                proof {
                    lemma_find_bounds(self@, name@);
                }
                let b = ProfileAnchor { start_tsc: now, tsc_elapsed: 0, hit_count: 1, is_open: true };
                self.anchors.push((key, b));
                proof {
                    assert(self@ =~= after_begin(old(self)@, name@, now));
                }
            },
        }
    }

    /// Leaves region `name` at cycle `now`. A region that was never entered
    /// is recorded as one hit of no duration.
    pub fn end_region(&mut self, name: &str, now: u64)
        requires
            old(self).wf(),
        ensures
            final(self).wf(),
            final(self)@ == after_end(old(self)@, name@, now),
            final(self).start_tsc == old(self).start_tsc,
            final(self).end_tsc == old(self).end_tsc,
    {
        let key: String = name.to_owned();
        match self.position(&key) {
            Some(i) => {
                proof {
                    lemma_find_bounds(self@, name@);
                }
                let a: ProfileAnchor = self.anchors[i].1;
                let elapsed: u64 = if a.is_open {
                    a.tsc_elapsed.saturating_add(now.saturating_sub(a.start_tsc))
                } else {
                    a.tsc_elapsed
                };
                let b = ProfileAnchor {
                    start_tsc: a.start_tsc,
                    tsc_elapsed: elapsed,
                    hit_count: a.hit_count,
                    is_open: false,
                };
                self.anchors[i].1 = b;
                proof {
                    assert(self@ =~= after_end(old(self)@, name@, now));
                }
            },
            None => {
                proof {
                    lemma_find_bounds(self@, name@);
                }
                let b = ProfileAnchor { start_tsc: now, tsc_elapsed: 0, hit_count: 1, is_open: false };
                self.anchors.push((key, b));
                proof {
                    assert(self@ =~= after_end(old(self)@, name@, now));
                }
            },
        }
    }

    /// Records `now` as the cycle at which the session ended.
    pub fn end_session(&mut self, now: u64)
        ensures
            final(self)@ == old(self)@,
            final(self).start_tsc == old(self).start_tsc,
            final(self).end_tsc == now,
    {
        self.end_tsc = now;
    }

    /// The anchor of region `name`, if it has one.
    pub fn anchor(&self, name: &str) -> (r: Option<ProfileAnchor>)
        requires
            self.wf(),
        ensures
            r == lookup(self@, name@),
    {
        let key: String = name.to_owned();
        match self.position(&key) {
            Some(i) => Some(self.anchors[i].1),
            None => None,
        }
    }

    /// Number of regions in the table.
    pub fn len(&self) -> (r: usize)
        ensures
            r == self@.len(),
    {
        self.anchors.len()
    }
}

/// The table after `name` is entered and left once for each pair of cycle
/// readings in `times`, in order.
pub open spec fn after_pairs(
    e: Seq<(Seq<char>, ProfileAnchor)>,
    name: Seq<char>,
    times: Seq<(u64, u64)>,
) -> Seq<(Seq<char>, ProfileAnchor)>
    decreases times.len(),
{
    if times.len() == 0 {
        e
    } else {
        let t = times.last();
        after_end(after_begin(after_pairs(e, name, times.drop_last()), name, t.0), name, t.1)
    }
}

/// The sum of the durations of the intervals in `times`.
pub open spec fn total_span(times: Seq<(u64, u64)>) -> nat
    decreases times.len(),
{
    if times.len() == 0 {
        0
    } else {
        total_span(times.drop_last()) + span(times.last().0, times.last().1)
    }
}

/// Names in `after_begin` and `after_end` keep their places, and the region
/// named ends up last if it was new.
proof fn lemma_after_names(e: Seq<(Seq<char>, ProfileAnchor)>, name: Seq<char>, now: u64)
    ensures
        lookup(after_begin(e, name, now), name) == Some(
            match lookup(e, name) {
                Some(a) => reopened(a, now),
                None => opened(now),
            },
        ),
        lookup(after_end(e, name, now), name) == Some(
            match lookup(e, name) {
                Some(a) => closed(a, now),
                None => unbalanced(now),
            },
        ),
{
    lemma_find_bounds(e, name);
    let i = find(e, name);
    if i >= 0 {
        lemma_find_rename_free(e, i, reopened(e[i].1, now), name);
        lemma_find_rename_free(e, i, closed(e[i].1, now), name);
    } else {
        assert(e.push((name, opened(now))).drop_last() == e);
        assert(e.push((name, unbalanced(now))).drop_last() == e);
    }
}

/// After `n` complete enter/leave pairs on a region that had no anchor, the
/// region counts `n` hits and its elapsed cycles are the sum of the `n`
/// measured intervals.
pub proof fn lemma_balanced_pairs(
    e: Seq<(Seq<char>, ProfileAnchor)>,
    name: Seq<char>,
    times: Seq<(u64, u64)>,
)
    requires
        lookup(e, name) is None,
        times.len() >= 1,
        forall|k: int| 0 <= k < times.len() ==> times[k].0 <= times[k].1,
        total_span(times) <= u64::MAX,
        times.len() <= u64::MAX,
    ensures
        lookup(after_pairs(e, name, times), name) is Some,
        lookup(after_pairs(e, name, times), name)->0.hit_count == times.len(),
        lookup(after_pairs(e, name, times), name)->0.tsc_elapsed == total_span(times),
        !lookup(after_pairs(e, name, times), name)->0.is_open,
    decreases times.len(),
{
    let prev = times.drop_last();
    let t = times.last();
    let mid = after_pairs(e, name, prev);
    if prev.len() > 0 {
        assert forall|k: int| 0 <= k < prev.len() implies prev[k].0 <= prev[k].1 by {
            assert(prev[k] == times[k]);
        }
        lemma_balanced_pairs(e, name, prev);
    }
    lemma_after_names(mid, name, t.0);
    lemma_after_names(after_begin(mid, name, t.0), name, t.1);
    assert(total_span(times) == total_span(prev) + span(t.0, t.1));
    let b = lookup(after_begin(mid, name, t.0), name)->0;
    assert(b.is_open && b.start_tsc == t.0);
    if prev.len() > 0 {
        assert(b.tsc_elapsed == total_span(prev));
    } else {
        assert(total_span(prev) == 0);
    }
}

/// Entering a region twice and leaving it once folds both intervals into its
/// elapsed cycles: the first when it is entered again, the second when it is
/// left. The region then counts two hits.
pub proof fn lemma_reentry(
    e: Seq<(Seq<char>, ProfileAnchor)>,
    name: Seq<char>,
    t0: u64,
    t1: u64,
    t2: u64,
)
    requires
        lookup(e, name) is None,
        t0 <= t1 <= t2,
    ensures
        lookup(after_begin(after_begin(e, name, t0), name, t1), name) == Some(
            ProfileAnchor { start_tsc: t1, tsc_elapsed: (t1 - t0) as u64, hit_count: 2, is_open: true },
        ),
        lookup(after_end(after_begin(after_begin(e, name, t0), name, t1), name, t2), name) == Some(
            ProfileAnchor {
                start_tsc: t1,
                tsc_elapsed: (t2 - t0) as u64,
                hit_count: 2,
                is_open: false,
            },
        ),
{
    let e1 = after_begin(e, name, t0);
    let e2 = after_begin(e1, name, t1);
    lemma_after_names(e, name, t0);
    lemma_after_names(e1, name, t1);
    lemma_after_names(e2, name, t2);
}

/// Leaving a region that was never entered records it with no elapsed cycles
/// and a single hit.
pub proof fn lemma_unbalanced_end(e: Seq<(Seq<char>, ProfileAnchor)>, name: Seq<char>, now: u64)
    requires
        lookup(e, name) is None,
    ensures
        lookup(after_end(e, name, now), name) is Some,
        lookup(after_end(e, name, now), name)->0.tsc_elapsed == 0,
        lookup(after_end(e, name, now), name)->0.hit_count == 1,
{
    lemma_after_names(e, name, now);
}

} // verus!
