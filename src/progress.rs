use vstd::prelude::*;

verus! {

/// Progress to publish: bytes uploaded so far out of the total.
#[derive(Debug, Clone, Copy, PartialEq, Eq)]
pub struct ProgressReport {
    pub progress: u64,
    pub total: u64,
}

/// Percentage of `uploaded` in `total`, in hundredths of a percent, rounded
/// to the nearest hundredth (halves up); 0 where `total` is 0.
pub open spec fn spec_percentage_hundredths(uploaded: u64, total: u64) -> int {
    if total == 0 {
        0
    } else {
        (uploaded as int * 20000 + total as int) / (2 * total as int)
    }
}

/// `uploaded / total * 100` in hundredths of a percent, rounded to the
/// nearest hundredth; 0 where `total` is 0 rather than a division by zero.
pub fn percentage_hundredths(uploaded: u64, total: u64) -> (r: u128)
    ensures
        r == spec_percentage_hundredths(uploaded, total),
{
    if total == 0 {
        0
    } else {
        assert(uploaded as int * 20000 + total as int <= u128::MAX) by (nonlinear_arith)
            requires
                uploaded <= u64::MAX,
                total <= u64::MAX,
        ;
        (uploaded as u128 * 20000 + total as u128) / (2 * total as u128)
    }
}

/// Upload progress of one task. Once cancelled, updates are dropped.
pub struct ProgressTracker {
    total_size: u64,
    uploaded_size: u64,
    pub task_id: String,
    cancelled: bool,
}

/// Sum of `a` and `b`, or `u64::MAX` where it would not fit.
pub open spec fn saturating_sum(a: u64, b: u64) -> u64 {
    if a as int + b as int > u64::MAX {
        u64::MAX
    } else {
        (a + b) as u64
    }
}

impl ProgressTracker {
    /// Bytes expected in all.
    pub closed spec fn total(&self) -> u64 {
        self.total_size
    }

    /// Bytes uploaded so far.
    pub closed spec fn uploaded(&self) -> u64 {
        self.uploaded_size
    }

    /// The task identifier.
    pub closed spec fn task(&self) -> String {
        self.task_id
    }

    /// Whether the task was stopped.
    pub closed spec fn spec_cancelled(&self) -> bool {
        self.cancelled
    }

    /// A tracker for `task_id` expecting `total_size` bytes, with none uploaded.
    pub fn new(total_size: u64, task_id: String) -> (r: Self)
        ensures
            r.total() == total_size,
            r.uploaded() == 0,
            !r.spec_cancelled(),
            r.task() == task_id,
    {
        ProgressTracker { total_size, uploaded_size: 0, task_id, cancelled: false }
    }

    /// Whether the task was stopped.
    pub fn is_cancelled(&self) -> (r: bool)
        ensures
            r == self.spec_cancelled(),
    {
        self.cancelled
    }

    /// Bytes expected in all.
    pub fn total_size(&self) -> (r: u64)
        ensures
            r == self.total(),
    {
        self.total_size
    }

    /// Bytes uploaded so far.
    pub fn uploaded_size(&self) -> (r: u64)
        ensures
            r == self.uploaded(),
    {
        self.uploaded_size
    }

    /// Marks the task stopped; later updates are dropped. Returns the zeroed
    /// progress report to publish.
    pub fn stop(&mut self) -> (r: ProgressReport)
        ensures
            final(self).spec_cancelled(),
            final(self).total() == old(self).total(),
            final(self).uploaded() == old(self).uploaded(),
            final(self).task() == old(self).task(),
            r == (ProgressReport { progress: 0, total: 0 }),
    {
        self.cancelled = true;
        ProgressReport { progress: 0, total: 0 }
    }

    /// Sets the number of bytes expected.
    pub fn set_total_size(&mut self, size: u64)
        ensures
            final(self).total() == size,
            final(self).uploaded() == old(self).uploaded(),
            final(self).spec_cancelled() == old(self).spec_cancelled(),
            final(self).task() == old(self).task(),
    {
        self.total_size = size;
    }

    /// Counts `bytes_uploaded` more bytes (saturating) and returns the
    /// progress to publish; does nothing and returns `None` once cancelled.
    pub fn update_progress(&mut self, bytes_uploaded: u64) -> (r: Option<ProgressReport>)
        ensures
            final(self).total() == old(self).total(),
            final(self).spec_cancelled() == old(self).spec_cancelled(),
            final(self).task() == old(self).task(),
            old(self).spec_cancelled() ==> final(self).uploaded() == old(self).uploaded() && r
                is None,
            !old(self).spec_cancelled() ==> final(self).uploaded() == saturating_sum(
                old(self).uploaded(),
                bytes_uploaded,
            ) && r == Some(
                ProgressReport { progress: final(self).uploaded(), total: old(self).total() },
            ),
            final(self).uploaded() >= old(self).uploaded(),
    {
        if self.cancelled {
            return None;
        }
        self.uploaded_size = if self.uploaded_size > u64::MAX - bytes_uploaded {
            u64::MAX
        } else {
            self.uploaded_size + bytes_uploaded
        };
        Some(ProgressReport { progress: self.uploaded_size, total: self.total_size })
    }
}

/// Trackers of the running tasks, one per task identifier.
pub struct TaskProgressRegistry {
    trackers: Vec<ProgressTracker>,
}

impl TaskProgressRegistry {
    /// Task identifiers are unique.
    pub closed spec fn wf(&self) -> bool {
        forall|i: int, j: int|
            0 <= i < j < self.trackers@.len() ==> #[trigger] self.trackers@[i].task_id@
                != #[trigger] self.trackers@[j].task_id@
    }

    /// Whether a tracker for task `id` is registered.
    pub closed spec fn has_task(&self, id: Seq<char>) -> bool {
        exists|i: int| 0 <= i < self.trackers@.len() && #[trigger] self.trackers@[i].task_id@ == id
    }

    /// The tracker of task `id`; meaningful only where it is registered.
    pub closed spec fn tracker(&self, id: Seq<char>) -> ProgressTracker {
        self.trackers@[choose|i: int|
            0 <= i < self.trackers@.len() && #[trigger] self.trackers@[i].task_id@ == id]
    }

    /// Number of registered tasks.
    pub closed spec fn task_count(&self) -> nat {
        self.trackers@.len()
    }

    proof fn lemma_tracker_at(&self, id: Seq<char>, i: int)
        requires
            self.wf(),
            0 <= i < self.trackers@.len(),
            self.trackers@[i].task_id@ == id,
        ensures
            self.has_task(id),
            self.tracker(id) == self.trackers@[i],
    {
        let j = choose|j: int|
            0 <= j < self.trackers@.len() && #[trigger] self.trackers@[j].task_id@ == id;
        assert(0 <= j < self.trackers@.len() && self.trackers@[j].task_id@ == id);
        if j < i {
            assert(self.trackers@[j].task_id@ != self.trackers@[i].task_id@);
        } else if i < j {
            assert(self.trackers@[i].task_id@ != self.trackers@[j].task_id@);
        }
    }

    /// Every task but `id` is registered in `new` as in `old`, with the same tracker.
    pub open spec fn others_kept(old: Self, new: Self, id: Seq<char>) -> bool {
        &&& forall|n: Seq<char>| n != id ==> #[trigger] new.has_task(n) == old.has_task(n)
        &&& forall|n: Seq<char>|
            n != id && old.has_task(n) ==> #[trigger] new.tracker(n) == old.tracker(n)
    }

    /// A registry with no task.
    pub fn new() -> (r: Self)
        ensures
            r.wf(),
            r.task_count() == 0,
            forall|id: Seq<char>| !r.has_task(id),
    {
        TaskProgressRegistry { trackers: Vec::new() }
    }

    fn find(&self, id: &str) -> (r: Option<usize>)
        requires
            self.wf(),
        ensures
            match r {
                Some(i) => i < self.trackers@.len() && self.trackers@[i as int].task_id@ == id@
                    && self.has_task(id@) && self.tracker(id@) == self.trackers@[i as int],
                None => !self.has_task(id@),
            },
    {
        let key = id.to_owned();
        let mut i: usize = 0;
        while i < self.trackers.len()
            invariant
                self.wf(),
                key@ == id@,
                i <= self.trackers@.len(),
                forall|k: int| 0 <= k < i ==> #[trigger] self.trackers@[k].task_id@ != id@,
            decreases self.trackers@.len() - i,
        {
            if self.trackers[i].task_id == key {
                proof {
                    self.lemma_tracker_at(id@, i as int);
                }
                return Some(i);
            }
            i = i + 1;
        }
        None
    }

    /// Whether task `id` has a tracker.
    pub fn contains(&self, id: &str) -> (r: bool)
        requires
            self.wf(),
        ensures
            r == self.has_task(id@),
    {
        self.find(id).is_some()
    }

    /// Registers `tracker` under its task identifier, replacing any tracker
    /// already registered for that task.
    pub fn register(&mut self, tracker: ProgressTracker)
        requires
            old(self).wf(),
        ensures
            final(self).wf(),
            final(self).has_task(tracker.task()@),
            final(self).tracker(tracker.task()@) == tracker,
            final(self).task_count() == old(self).task_count() + if old(self).has_task(
                tracker.task()@,
            ) {
                0int
            } else {
                1int
            },
            Self::others_kept(*old(self), *final(self), tracker.task()@),
    {
        let ghost id = tracker.task_id@;
        match self.find(tracker.task_id.as_str()) {
            Some(i) => {
                self.trackers.set(i, tracker);
                proof {
                    assert forall|a: int, b: int|
                        0 <= a < b < self.trackers@.len() implies #[trigger] self.trackers@[a].task_id@
                        != #[trigger] self.trackers@[b].task_id@ by {
                        assert(old(self).trackers@[a].task_id@ != old(self).trackers@[b].task_id@);
                    }
                    self.lemma_tracker_at(id, i as int);
                    assert forall|n: Seq<char>| n != id implies (#[trigger] self.has_task(n)
                        == old(self).has_task(n) && (old(self).has_task(n) ==> self.tracker(n)
                        == old(self).tracker(n))) by {
                        if old(self).has_task(n) {
                            let k = choose|k: int|
                                0 <= k < old(self).trackers@.len()
                                    && #[trigger] old(self).trackers@[k].task_id@ == n;
                            old(self).lemma_tracker_at(n, k);
                            self.lemma_tracker_at(n, k);
                        } else {
                            if self.has_task(n) {
                                let k = choose|k: int|
                                    0 <= k < self.trackers@.len()
                                        && #[trigger] self.trackers@[k].task_id@ == n;
                                assert(old(self).trackers@[k].task_id@ == n);
                            }
                        }
                    }
                    Self::lemma_others_kept(*old(self), *self, id);
                }
            },
            None => {
                self.trackers.push(tracker);
                proof {
                    let last = self.trackers@.len() - 1;
                    assert forall|a: int, b: int|
                        0 <= a < b < self.trackers@.len() implies #[trigger] self.trackers@[a].task_id@
                        != #[trigger] self.trackers@[b].task_id@ by {
                        if b < last {
                            assert(old(self).trackers@[a].task_id@ != old(self).trackers@[b].task_id@);
                        } else {
                            if old(self).trackers@[a].task_id@ == id {
                                assert(old(self).has_task(id));
                            }
                        }
                    }
                    self.lemma_tracker_at(id, last);
                    assert forall|n: Seq<char>| n != id implies (#[trigger] self.has_task(n)
                        == old(self).has_task(n) && (old(self).has_task(n) ==> self.tracker(n)
                        == old(self).tracker(n))) by {
                        if old(self).has_task(n) {
                            let k = choose|k: int|
                                0 <= k < old(self).trackers@.len()
                                    && #[trigger] old(self).trackers@[k].task_id@ == n;
                            old(self).lemma_tracker_at(n, k);
                            self.lemma_tracker_at(n, k);
                        } else {
                            if self.has_task(n) {
                                let k = choose|k: int|
                                    0 <= k < self.trackers@.len()
                                        && #[trigger] self.trackers@[k].task_id@ == n;
                                assert(k != last);
                                assert(old(self).trackers@[k].task_id@ == n);
                            }
                        }
                    }
                    Self::lemma_others_kept(*old(self), *self, id);
                }
            },
        }
    }

    proof fn lemma_others_kept(old: Self, new: Self, id: Seq<char>)
        requires
            forall|n: Seq<char>|
                n != id ==> (#[trigger] new.has_task(n) == old.has_task(n) && (old.has_task(n)
                    ==> new.tracker(n) == old.tracker(n))),
        ensures
            Self::others_kept(old, new, id),
    {
        assert forall|n: Seq<char>| n != id && old.has_task(n) implies #[trigger] new.tracker(n)
            == old.tracker(n) by {
            assert(new.has_task(n) == old.has_task(n));
        }
    }

    proof fn lemma_replace_at(old: Self, new: Self, i: int, t: ProgressTracker)
        requires
            old.wf(),
            0 <= i < old.trackers@.len(),
            new.trackers@ == old.trackers@.update(i, t),
            t.task_id@ == old.trackers@[i].task_id@,
        ensures
            new.wf(),
            new.has_task(t.task_id@),
            new.tracker(t.task_id@) == t,
            old.tracker(t.task_id@) == old.trackers@[i],
            new.task_count() == old.task_count(),
            Self::others_kept(old, new, t.task_id@),
    {
        let id = t.task_id@;
        assert forall|a: int, b: int|
            0 <= a < b < new.trackers@.len() implies #[trigger] new.trackers@[a].task_id@
            != #[trigger] new.trackers@[b].task_id@ by {
            assert(old.trackers@[a].task_id@ != old.trackers@[b].task_id@);
        }
        new.lemma_tracker_at(id, i);
        old.lemma_tracker_at(id, i);
        assert forall|n: Seq<char>| n != id implies (#[trigger] new.has_task(n) == old.has_task(n)
            && (old.has_task(n) ==> new.tracker(n) == old.tracker(n))) by {
            if old.has_task(n) {
                let k = choose|k: int|
                    0 <= k < old.trackers@.len() && #[trigger] old.trackers@[k].task_id@ == n;
                old.lemma_tracker_at(n, k);
                new.lemma_tracker_at(n, k);
            } else if new.has_task(n) {
                let k = choose|k: int|
                    0 <= k < new.trackers@.len() && #[trigger] new.trackers@[k].task_id@ == n;
                assert(old.trackers@[k].task_id@ == n);
            }
        }
        Self::lemma_others_kept(old, new, id);
    }

    /// Counts `bytes_uploaded` more bytes for task `id`, as
    /// `ProgressTracker::update_progress` does; `None` and no change where
    /// the task is unknown.
    pub fn update_progress(&mut self, id: &str, bytes_uploaded: u64) -> (r: Option<ProgressReport>)
        requires
            old(self).wf(),
        ensures
            final(self).wf(),
            final(self).task_count() == old(self).task_count(),
            final(self).has_task(id@) == old(self).has_task(id@),
            Self::others_kept(*old(self), *final(self), id@),
            !old(self).has_task(id@) ==> r is None && *final(self) == *old(self),
            old(self).has_task(id@) ==> ({
                let before = old(self).tracker(id@);
                let after = final(self).tracker(id@);
                &&& after.total() == before.total()
                &&& after.spec_cancelled() == before.spec_cancelled()
                &&& after.task() == before.task()
                &&& before.spec_cancelled() ==> after.uploaded() == before.uploaded() && r is None
                &&& !before.spec_cancelled() ==> after.uploaded() == saturating_sum(
                    before.uploaded(),
                    bytes_uploaded,
                ) && r == Some(ProgressReport { progress: after.uploaded(), total: before.total() })
            }),
    {
        match self.find(id) {
            None => None,
            Some(i) => {
                let r = self.trackers[i].update_progress(bytes_uploaded);
                proof {
                    Self::lemma_replace_at(*old(self), *self, i as int, self.trackers@[i as int]);
                }
                r
            },
        }
    }

    /// Stops task `id`, as `ProgressTracker::stop` does; `None` and no change
    /// where the task is unknown.
    pub fn stop(&mut self, id: &str) -> (r: Option<ProgressReport>)
        requires
            old(self).wf(),
        ensures
            final(self).wf(),
            final(self).task_count() == old(self).task_count(),
            final(self).has_task(id@) == old(self).has_task(id@),
            Self::others_kept(*old(self), *final(self), id@),
            !old(self).has_task(id@) ==> r is None && *final(self) == *old(self),
            old(self).has_task(id@) ==> ({
                let before = old(self).tracker(id@);
                let after = final(self).tracker(id@);
                &&& after.spec_cancelled()
                &&& after.total() == before.total()
                &&& after.uploaded() == before.uploaded()
                &&& after.task() == before.task()
                &&& r == Some(ProgressReport { progress: 0, total: 0 })
            }),
    {
        match self.find(id) {
            None => None,
            Some(i) => {
                let r = self.trackers[i].stop();
                proof {
                    Self::lemma_replace_at(*old(self), *self, i as int, self.trackers@[i as int]);
                }
                Some(r)
            },
        }
    }

    /// Removes the tracker of task `id`; `false` where there was none.
    pub fn remove(&mut self, id: &str) -> (r: bool)
        requires
            old(self).wf(),
        ensures
            final(self).wf(),
            r == old(self).has_task(id@),
            !final(self).has_task(id@),
            final(self).task_count() == old(self).task_count() - if r { 1int } else { 0int },
            Self::others_kept(*old(self), *final(self), id@),
    {
        match self.find(id) {
            None => false,
            Some(i) => {
                self.trackers.remove(i);
                proof {
                    let o = old(self).trackers@;
                    let ii = i as int;
                    assert forall|k: int| 0 <= k < self.trackers@.len() implies #[trigger] self.trackers@[k]
                        == if k < ii { o[k] } else { o[k + 1] } by {}
                    assert forall|a: int, b: int|
                        0 <= a < b < self.trackers@.len() implies #[trigger] self.trackers@[a].task_id@
                        != #[trigger] self.trackers@[b].task_id@ by {
                        let oa = if a < ii { a } else { a + 1 };
                        let ob = if b < ii { b } else { b + 1 };
                        assert(self.trackers@[a] == o[oa] && self.trackers@[b] == o[ob]);
                        assert(o[oa].task_id@ != o[ob].task_id@);
                    }
                    if self.has_task(id@) {
                        let k = choose|k: int|
                            0 <= k < self.trackers@.len() && #[trigger] self.trackers@[k].task_id@ == id@;
                        let ok = if k < ii { k } else { k + 1 };
                        assert(self.trackers@[k] == o[ok]);
                        assert(o[ok].task_id@ != o[ii].task_id@);
                    }
                    assert forall|n: Seq<char>| n != id@ implies (#[trigger] self.has_task(n)
                        == old(self).has_task(n) && (old(self).has_task(n) ==> self.tracker(n)
                        == old(self).tracker(n))) by {
                        if old(self).has_task(n) {
                            let k = choose|k: int|
                                0 <= k < o.len() && #[trigger] o[k].task_id@ == n;
                            old(self).lemma_tracker_at(n, k);
                            assert(k != ii);
                            let nk = if k < ii { k } else { k - 1 };
                            assert(self.trackers@[nk] == o[k]);
                            self.lemma_tracker_at(n, nk);
                        } else if self.has_task(n) {
                            let k = choose|k: int|
                                0 <= k < self.trackers@.len() && #[trigger] self.trackers@[k].task_id@ == n;
                            let ok = if k < ii { k } else { k + 1 };
                            assert(self.trackers@[k] == o[ok]);
                            assert(o[ok].task_id@ == n);
                        }
                    }
                    Self::lemma_others_kept(*old(self), *self, id@);
                }
                true
            },
        }
    }
}

} // verus!
