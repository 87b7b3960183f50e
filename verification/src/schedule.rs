use vstd::prelude::*;
use crate::endpoint::LeaderSlotEntry;

verus! {

/// Whether the slot numbers of a schedule are monotonically non-decreasing.
pub open spec fn slots_non_decreasing(s: Seq<LeaderSlotEntry>) -> bool {
    forall|i: int, j: int| 0 <= i <= j < s.len() ==> s[i].slot <= s[j].slot
}

/// Keeps the mapping from upcoming time slots to leader endpoints.
///
/// The tracker never queries the schedule source itself; the caller queries
/// it on a fixed interval and hands the answer to `apply_refresh`. A failed
/// query leaves the published schedule untouched — the tracker fails open and
/// keeps serving the last known-good view. Once the last successful refresh
/// lies further back than the configured limit, `is_stale` raises the
/// staleness signal; it never blocks reads.
pub struct LeaderScheduleTracker {
    schedule: Vec<LeaderSlotEntry>,
    last_good: u64,
    stale_limit: u64,
}

impl LeaderScheduleTracker {
    /// The published schedule: the current slot's entry first, later slots after it.
    pub closed spec fn schedule_view(&self) -> Seq<LeaderSlotEntry> {
        self.schedule@
    }

    /// The time of the last successful refresh.
    pub closed spec fn last_good_time(&self) -> u64 {
        self.last_good
    }

    /// How far past the last successful refresh the schedule may age before
    /// it counts as stale.
    pub closed spec fn staleness_limit(&self) -> u64 {
        self.stale_limit
    }

    /// The published schedule is always ordered by slot number.
    pub open spec fn wf(&self) -> bool {
        slots_non_decreasing(self.schedule_view())
    }

    /// Creates a tracker with an empty schedule, counting staleness from `now`.
    pub fn new(stale_limit: u64, now: u64) -> (t: LeaderScheduleTracker)
        ensures
            t.wf(),
            t.schedule_view() == Seq::<LeaderSlotEntry>::empty(),
            t.last_good_time() == now,
            t.staleness_limit() == stale_limit,
    {
        LeaderScheduleTracker { schedule: Vec::new(), last_good: now, stale_limit }
    }

    /// Takes the answer of one schedule query made at time `now`.
    ///
    /// `None` is a failed query: the tracker serves the previous schedule
    /// unchanged. `Some(entries)` replaces the published schedule, but only
    /// when the entries' slots are non-decreasing; an out-of-order answer is
    /// treated like a failed query. Returns whether the schedule was replaced.
    pub fn apply_refresh(&mut self, result: Option<Vec<LeaderSlotEntry>>, now: u64) -> (accepted: bool)
        requires
            old(self).wf(),
        ensures
            final(self).wf(),
            final(self).staleness_limit() == old(self).staleness_limit(),
            accepted == (result is Some && slots_non_decreasing(result.unwrap()@)),
            accepted ==> final(self).schedule_view() == result.unwrap()@
                && final(self).last_good_time() == now,
            !accepted ==> final(self).schedule_view() == old(self).schedule_view()
                && final(self).last_good_time() == old(self).last_good_time(),
    {
        match result {
            None => false,
            Some(entries) => {
                if slots_sorted(&entries) {
                    self.schedule = entries;
                    self.last_good = now;
                    true
                } else {
                    false
                }
            }
        }
    }

    /// The staleness signal: true once the last successful refresh lies more
    /// than the configured limit before `now`. Non-fatal; sends go on.
    pub fn is_stale(&self, now: u64) -> (r: bool)
        ensures
            r == (now - self.last_good_time() > self.staleness_limit()),
    {
        now > self.last_good && now - self.last_good > self.stale_limit
    }

    /// Returns the current slot's leader entry and the upcoming ones after
    /// it, ordered by slot number ascending: the first `count` entries of the
    /// published schedule, or all of them when fewer are published.
    pub fn current_leaders(&self, count: usize) -> (r: Vec<LeaderSlotEntry>)
        requires
            self.wf(),
        ensures
            r@.len() == if count as int <= self.schedule_view().len() {
                count as int
            } else {
                self.schedule_view().len() as int
            },
            forall|i: int| 0 <= i < r@.len() ==> r@[i] == self.schedule_view()[i],
            slots_non_decreasing(r@),
    {
        let n = if count <= self.schedule.len() { count } else { self.schedule.len() };
        let mut r: Vec<LeaderSlotEntry> = Vec::new();
        let mut i: usize = 0;
        while i < n
            invariant
                0 <= i <= n,
                n <= self.schedule@.len(),
                r@.len() == i as int,
                forall|k: int| 0 <= k < i ==> r@[k] == self.schedule@[k],
            decreases n - i,
        {
            r.push(self.schedule[i]);
            i = i + 1;
        }
        r
    }
}

/// Checks that the entries' slot numbers are monotonically non-decreasing.
pub fn slots_sorted(entries: &Vec<LeaderSlotEntry>) -> (r: bool)
    ensures
        r == slots_non_decreasing(entries@),
{
    let mut i: usize = 0;
    while i < entries.len()
        invariant
            0 <= i <= entries@.len(),
            forall|a: int, b: int| 0 <= a <= b < i ==> entries@[a].slot <= entries@[b].slot,
        decreases entries@.len() - i,
    {
        if i > 0 && entries[i].slot < entries[i - 1].slot {
            assert(!slots_non_decreasing(entries@)) by {
                assert(entries@[i - 1].slot > entries@[i as int].slot);
            }
            return false;
        }
        assert(forall|a: int| 0 <= a < i ==> entries@[a].slot <= entries@[i as int].slot);
        i = i + 1;
    }
    true
}

} // verus!
