//! Admission of jobs under a concurrency limit: jobs start in submission
//! order, and no more than the limit are ever active at once.

use vstd::prelude::*;

verus! {

/// Bookkeeping for running `total` jobs, numbered from 0, with at most
/// `max_jobs` active at any moment.
pub struct JobSlots {
    max_jobs: usize,
    total: usize,
    started: usize,
    active: usize,
}

impl JobSlots {
    pub closed spec fn max_jobs_spec(&self) -> nat {
        self.max_jobs as nat
    }

    pub closed spec fn total_spec(&self) -> nat {
        self.total as nat
    }

    /// Jobs started so far: exactly those numbered below this.
    pub closed spec fn started_spec(&self) -> nat {
        self.started as nat
    }

    /// Jobs started and not yet finished.
    pub closed spec fn active_spec(&self) -> nat {
        self.active as nat
    }

    /// The limit is at least one, no more jobs are active than the limit
    /// allows, and no more start than there are.
    pub closed spec fn wf(&self) -> bool {
        &&& self.max_jobs >= 1
        &&& self.active <= self.max_jobs
        &&& self.active <= self.started
        &&& self.started <= self.total
    }

    /// No job started yet.
    pub fn new(total: usize, max_jobs: usize) -> (r: JobSlots)
        requires
            max_jobs >= 1,
        ensures
            r.wf(),
            r.max_jobs_spec() == max_jobs,
            r.total_spec() == total,
            r.started_spec() == 0,
            r.active_spec() == 0,
    {
        JobSlots { max_jobs, total, started: 0, active: 0 }
    }

    /// The next job to start, where a slot is free and a job is left; it is
    /// then counted as active.
    pub fn start_next(&mut self) -> (r: Option<usize>)
        requires
            old(self).wf(),
        ensures
            final(self).wf(),
            final(self).max_jobs_spec() == old(self).max_jobs_spec(),
            final(self).total_spec() == old(self).total_spec(),
            old(self).active_spec() < old(self).max_jobs_spec() && old(self).started_spec() < old(self).total_spec()
                ==> r == Some(old(self).started_spec() as usize)
                && final(self).started_spec() == old(self).started_spec() + 1
                && final(self).active_spec() == old(self).active_spec() + 1,
            !(old(self).active_spec() < old(self).max_jobs_spec() && old(self).started_spec() < old(self).total_spec())
                ==> r is None && *final(self) == *old(self),
    {
        if self.active < self.max_jobs && self.started < self.total {
            let job = self.started;
            self.started = self.started + 1;
            self.active = self.active + 1;
            Some(job)
        } else {
            None
        }
    }

    /// Records that an active job finished, freeing its slot.
    pub fn finish(&mut self)
        requires
            old(self).wf(),
            old(self).active_spec() > 0,
        ensures
            final(self).wf(),
            final(self).max_jobs_spec() == old(self).max_jobs_spec(),
            final(self).total_spec() == old(self).total_spec(),
            final(self).started_spec() == old(self).started_spec(),
            final(self).active_spec() == old(self).active_spec() - 1,
    {
        self.active = self.active - 1;
    }

    /// Jobs started and not yet finished.
    pub fn active(&self) -> (r: usize)
        ensures
            r == self.active_spec(),
    {
        self.active
    }

    /// Whether every job has started and finished.
    pub fn is_done(&self) -> (r: bool)
        ensures
            r == (self.started_spec() == self.total_spec() && self.active_spec() == 0),
    {
        self.started == self.total && self.active == 0
    }
}

/// The concurrency bound: in every well-formed state, reached from `new` by
/// any sequence of `start_next` and `finish`, the active jobs number at most
/// the limit, and the limit is at least one.
pub proof fn lemma_active_within_limit(s: JobSlots)
    requires
        s.wf(),
    ensures
        s.active_spec() <= s.max_jobs_spec(),
        s.max_jobs_spec() >= 1,
{
}

} // verus!
