//! Scheduling in front of the worker pools.
//!
//! The prepare queue holds preparation jobs until a worker slot may be
//! spent on them: a soft cap bounds the workers given to ordinary jobs, and
//! only critical jobs may push the count up to the hard cap. Among the
//! queued jobs the earliest critical one goes first, else the earliest one.
//! The execute queue is plainer: first come, first served, up to its own
//! worker cap. Both only decide; spawning and running the workers is the
//! surrounding runtime's work.

use vstd::prelude::*;

use crate::artifact::ArtifactId;
use crate::artifact::Pvf;
use crate::channel::ResultSender;
use crate::host::Priority;

verus! {

/// The queued preparation jobs, in arrival order: each a priority and the
/// PVF's code.
pub type PrepareJobsView = Seq<(Priority, Seq<u8>)>;

/// Whether some queued job is critical.
pub open spec fn has_critical(jobs: PrepareJobsView) -> bool {
    exists|i: int| 0 <= i < jobs.len() && jobs[i].0 is Critical
}

/// The position of the earliest critical job; the queue's length when there
/// is none.
pub open spec fn first_critical_index(jobs: PrepareJobsView) -> int
    decreases jobs.len(),
{
    if jobs.len() == 0 {
        0
    } else if jobs[0].0 is Critical {
        0
    } else {
        1 + first_critical_index(jobs.drop_first())
    }
}

/// What `first_critical_index` points at: the earliest critical job if any,
/// the end of the queue otherwise.
pub proof fn lemma_first_critical_index(jobs: PrepareJobsView)
    ensures
        0 <= first_critical_index(jobs) <= jobs.len(),
        first_critical_index(jobs) < jobs.len() ==> jobs[first_critical_index(jobs)].0
            is Critical,
        forall|j: int| 0 <= j < first_critical_index(jobs) ==> !(jobs[j].0 is Critical),
        has_critical(jobs) == (first_critical_index(jobs) < jobs.len()),
    decreases jobs.len(),
{
    if jobs.len() == 0 {
    } else if jobs[0].0 is Critical {
    } else {
        lemma_first_critical_index(jobs.drop_first());
        let rest = jobs.drop_first();
        assert(forall|j: int| 0 <= j < rest.len() ==> rest[j] == jobs[j + 1]);
        assert forall|j: int| 0 <= j < first_critical_index(jobs) implies !(jobs[j].0
            is Critical) by {
            if j > 0 {
                assert(jobs[j] == rest[j - 1]);
                assert(!(rest[j - 1].0 is Critical));
            }
        }
        if has_critical(jobs) {
            let i = choose|i: int| 0 <= i < jobs.len() && jobs[i].0 is Critical;
            assert(rest[i - 1].0 is Critical);
            assert(has_critical(rest));
        }
        if has_critical(rest) {
            let i = choose|i: int| 0 <= i < rest.len() && rest[i].0 is Critical;
            assert(jobs[i + 1].0 is Critical);
            assert(has_critical(jobs));
        }
    }
}

/// The priority queue in front of the prepare pool.
pub struct PrepareQueue {
    soft_capacity: usize,
    hard_capacity: usize,
    queue: Vec<(Priority, Pvf)>,
    active: usize,
}

impl PrepareQueue {
    /// The queued jobs, in arrival order.
    pub closed spec fn jobs(&self) -> PrepareJobsView {
        self.queue@.map_values(|j: (Priority, Pvf)| (j.0, j.1@))
    }

    /// How many preparation jobs hold a worker right now.
    pub closed spec fn active_count(&self) -> nat {
        self.active as nat
    }

    /// The cap for ordinary jobs.
    pub closed spec fn soft_cap(&self) -> nat {
        self.soft_capacity as nat
    }

    /// The cap critical jobs may fill up to.
    pub closed spec fn hard_cap(&self) -> nat {
        self.hard_capacity as nat
    }

    /// An empty queue with the given caps; critical jobs may use the slack
    /// between them.
    pub fn new(soft_capacity: usize, hard_capacity: usize) -> (r: PrepareQueue)
        requires
            soft_capacity <= hard_capacity,
        ensures
            r.jobs() == Seq::<(Priority, Seq<u8>)>::empty(),
            r.active_count() == 0,
            r.soft_cap() == soft_capacity,
            r.hard_cap() == hard_capacity,
            r.wf(),
    {
        let r = PrepareQueue { soft_capacity, hard_capacity, queue: Vec::new(), active: 0 };
        proof {
            assert(r.jobs() =~= Seq::<(Priority, Seq<u8>)>::empty());
        }
        r
    }

    /// The caps stand in order and the active count respects the hard one.
    pub open spec fn wf(&self) -> bool {
        self.soft_cap() <= self.hard_cap() && self.active_count() <= self.hard_cap()
    }

    /// Accepts one more job at the back of the queue.
    pub fn enqueue(&mut self, priority: Priority, pvf: Pvf)
        ensures
            final(self).jobs() == old(self).jobs().push((priority, pvf@)),
            final(self).active_count() == old(self).active_count(),
            final(self).soft_cap() == old(self).soft_cap(),
            final(self).hard_cap() == old(self).hard_cap(),
            old(self).wf() ==> final(self).wf(),
    {
        let ghost pv = pvf@;
        self.queue.push((priority, pvf));
        proof {
            assert(self.jobs() =~= old(self).jobs().push((priority, pv)));
        }
    }

    /// Hands out the next job a worker slot may be spent on, if any: the
    /// earliest critical job as long as the hard cap has room, else the
    /// earliest job of all as long as the soft cap has room. The job is
    /// counted active until [`Self::conclude`].
    pub fn next_job(&mut self) -> (r: Option<(Priority, Pvf)>)
        requires
            old(self).wf(),
        ensures
            final(self).wf(),
            final(self).soft_cap() == old(self).soft_cap(),
            final(self).hard_cap() == old(self).hard_cap(),
            ({
                let jobs = old(self).jobs();
                match r {
                    Some(job) => {
                        &&& final(self).active_count() == old(self).active_count() + 1
                        &&& if has_critical(jobs) {
                            &&& old(self).active_count() < old(self).hard_cap()
                            &&& (job.0, job.1@) == jobs[first_critical_index(jobs)]
                            &&& final(self).jobs() == jobs.remove(first_critical_index(jobs))
                        } else {
                            &&& old(self).active_count() < old(self).soft_cap()
                            &&& jobs.len() > 0
                            &&& (job.0, job.1@) == jobs[0]
                            &&& final(self).jobs() == jobs.drop_first()
                        }
                    },
                    None => {
                        &&& final(self)@ == old(self)@
                        &&& final(self).jobs() == jobs
                        &&& final(self).active_count() == old(self).active_count()
                        &&& (has_critical(jobs) ==> old(self).active_count() >= old(
                            self,
                        ).hard_cap())
                        &&& (!has_critical(jobs) && jobs.len() > 0 ==> old(self).active_count()
                            >= old(self).soft_cap())
                    },
                }
            }),
    {
        proof {
            lemma_first_critical_index(self.jobs());
        }
        match self.find_first_critical() {
            Some(i) => {
                if self.active < self.hard_capacity {
                    let (priority, pvf) = self.queue.remove(i);
                    self.active = self.active + 1;
                    proof {
                        assert(self.jobs() =~= old(self).jobs().remove(
                            first_critical_index(old(self).jobs()),
                        ));
                    }
                    Some((priority, pvf))
                } else {
                    None
                }
            },
            None => {
                if self.queue.len() > 0 && self.active < self.soft_capacity {
                    let (priority, pvf) = self.queue.remove(0);
                    self.active = self.active + 1;
                    proof {
                        assert(self.jobs() =~= old(self).jobs().drop_first());
                    }
                    Some((priority, pvf))
                } else {
                    None
                }
            },
        }
    }

    /// A worker finished (or died over) its job: the slot is free again.
    pub fn conclude(&mut self)
        requires
            old(self).active_count() > 0,
        ensures
            final(self).active_count() == old(self).active_count() - 1,
            final(self).jobs() == old(self).jobs(),
            final(self).soft_cap() == old(self).soft_cap(),
            final(self).hard_cap() == old(self).hard_cap(),
            old(self).wf() ==> final(self).wf(),
    {
        self.active = self.active - 1;
    }

    /// The position of the earliest critical job, if one is queued.
    fn find_first_critical(&self) -> (r: Option<usize>)
        ensures
            match r {
                Some(i) => i == first_critical_index(self.jobs()) && i < self.jobs().len(),
                None => !has_critical(self.jobs()),
            },
    {
        proof {
            lemma_first_critical_index(self.jobs());
        }
        let mut i: usize = 0;
        while i < self.queue.len()
            invariant
                i <= self.queue@.len(),
                self.jobs().len() == self.queue@.len(),
                forall|j: int| 0 <= j < self.jobs().len() ==> self.jobs()[j].0 == self.queue@[j].0,
                forall|j: int| 0 <= j < i ==> !(self.jobs()[j].0 is Critical),
                0 <= first_critical_index(self.jobs()) <= self.jobs().len(),
                first_critical_index(self.jobs()) < self.jobs().len() ==> self.jobs()[
                    first_critical_index(self.jobs())].0 is Critical,
                forall|j: int|
                    0 <= j < first_critical_index(self.jobs()) ==> !(self.jobs()[j].0
                        is Critical),
            decreases self.queue@.len() - i,
        {
            let is_critical = match self.queue[i].0 {
                Priority::Critical => true,
                Priority::Normal => false,
            };
            if is_critical {
                proof {
                    let fci = first_critical_index(self.jobs());
                    if fci < i {
                        assert(!(self.jobs()[fci].0 is Critical));
                    }
                    if i < fci {
                        assert(!(self.jobs()[i as int].0 is Critical));
                    }
                    assert(has_critical(self.jobs()));
                }
                return Some(i);
            }
            i = i + 1;
        }
        proof {
            if has_critical(self.jobs()) {
                let k = choose|k: int|
                    0 <= k < self.jobs().len() && self.jobs()[k].0 is Critical;
                assert(!(self.jobs()[k].0 is Critical));
            }
        }
        None
    }
}

impl View for PrepareQueue {
    type V = (nat, nat, PrepareJobsView, nat);

    open spec fn view(&self) -> (nat, nat, PrepareJobsView, nat) {
        (self.soft_cap(), self.hard_cap(), self.jobs(), self.active_count())
    }
}

/// One queued execution, waiting for an execute-worker slot.
pub struct ExecuteQueueJob {
    /// The prepared artifact to run.
    pub artifact_id: ArtifactId,
    /// Milliseconds the execution may run.
    pub execution_timeout: u64,
    /// The caller-supplied input.
    pub params: Vec<u8>,
    /// Where the caller awaits the outcome.
    pub result_tx: ResultSender,
}

/// Mathematical value of an [`ExecuteQueueJob`].
pub struct ExecuteQueueJobView {
    pub artifact_id: Seq<u8>,
    pub execution_timeout: u64,
    pub params: Seq<u8>,
    pub result_tx: ResultSender,
}

impl View for ExecuteQueueJob {
    type V = ExecuteQueueJobView;

    open spec fn view(&self) -> ExecuteQueueJobView {
        ExecuteQueueJobView {
            artifact_id: self.artifact_id@,
            execution_timeout: self.execution_timeout,
            params: self.params@,
            result_tx: self.result_tx,
        }
    }
}

/// The first-come, first-served queue in front of the execute pool.
pub struct ExecuteQueue {
    capacity: usize,
    queue: Vec<ExecuteQueueJob>,
    active: usize,
}

impl ExecuteQueue {
    /// The queued executions, in arrival order.
    pub closed spec fn jobs(&self) -> Seq<ExecuteQueueJobView> {
        self.queue@.map_values(|j: ExecuteQueueJob| j@)
    }

    /// How many executions hold a worker right now.
    pub closed spec fn active_count(&self) -> nat {
        self.active as nat
    }

    /// How many execute workers may run at the same time.
    pub closed spec fn capacity(&self) -> nat {
        self.capacity as nat
    }

    /// An empty queue with the given worker cap.
    pub fn new(capacity: usize) -> (r: ExecuteQueue)
        ensures
            r.jobs() == Seq::<ExecuteQueueJobView>::empty(),
            r.active_count() == 0,
            r.capacity() == capacity,
    {
        let r = ExecuteQueue { capacity, queue: Vec::new(), active: 0 };
        proof {
            assert(r.jobs() =~= Seq::<ExecuteQueueJobView>::empty());
        }
        r
    }

    /// Accepts one more execution at the back of the queue.
    pub fn enqueue(&mut self, job: ExecuteQueueJob)
        ensures
            final(self).jobs() == old(self).jobs().push(job@),
            final(self).active_count() == old(self).active_count(),
            final(self).capacity() == old(self).capacity(),
    {
        let ghost jv = job@;
        self.queue.push(job);
        proof {
            assert(self.jobs() =~~= old(self).jobs().push(jv));
        }
    }

    /// Hands out the oldest queued execution as long as a worker slot is
    /// free; the job is counted active until [`Self::conclude`].
    pub fn next_job(&mut self) -> (r: Option<ExecuteQueueJob>)
        requires
            old(self).active_count() <= old(self).capacity(),
        ensures
            final(self).capacity() == old(self).capacity(),
            match r {
                Some(job) => {
                    &&& old(self).jobs().len() > 0
                    &&& old(self).active_count() < old(self).capacity()
                    &&& job@ == old(self).jobs()[0]
                    &&& final(self).jobs() == old(self).jobs().drop_first()
                    &&& final(self).active_count() == old(self).active_count() + 1
                },
                None => {
                    &&& final(self).jobs() == old(self).jobs()
                    &&& final(self).active_count() == old(self).active_count()
                    &&& (old(self).jobs().len() > 0 ==> old(self).active_count() >= old(
                        self,
                    ).capacity())
                },
            },
    {
        if self.queue.len() > 0 && self.active < self.capacity {
            let job = self.queue.remove(0);
            self.active = self.active + 1;
            proof {
                assert(self.jobs() =~~= old(self).jobs().drop_first());
            }
            Some(job)
        } else {
            None
        }
    }

    /// A worker finished (or died over) its execution: the slot is free
    /// again.
    pub fn conclude(&mut self)
        requires
            old(self).active_count() > 0,
        ensures
            final(self).active_count() == old(self).active_count() - 1,
            final(self).jobs() == old(self).jobs(),
            final(self).capacity() == old(self).capacity(),
    {
        self.active = self.active - 1;
    }
}

} // verus!
