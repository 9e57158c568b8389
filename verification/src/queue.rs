//! The FIFO handoff between producers and workers: an ordered sequence of
//! pending jobs plus an explicit closed flag. Once closed, nothing more can
//! be pushed; what is already pending is still delivered; once closed and
//! drained, a pop reports "no more work" instead of asking the caller to
//! wait.
//!
//! Two ghost logs record every job ever accepted and every job ever handed
//! out. The invariant `accepted == handed out + still pending` is the
//! delivery discipline: every accepted job is delivered exactly once, in
//! order, and none is invented or lost.

use vstd::prelude::*;

use crate::job::{ImagePostUploadJob, JobModel};

verus! {

/// What a push did.
pub enum PushResult {
    /// The job was appended to the pending sequence.
    Accepted,
    /// The queue is at capacity; the caller may wait and retry.
    Full,
    /// The queue no longer accepts work.
    Closed,
}

/// What a pop attempt found.
pub enum PopResult {
    /// The head job, removed from the pending sequence.
    Job(ImagePostUploadJob),
    /// Nothing pending, but the queue is still open: wait for more.
    Empty,
    /// Closed and drained: no job will ever arrive again.
    NoMoreWork,
}

/// A bounded FIFO job queue with an explicit shutdown flag.
pub struct JobQueue {
    pending: Vec<ImagePostUploadJob>,
    closed: bool,
    capacity: usize,
    pushed: Ghost<Seq<JobModel>>,
    delivered: Ghost<Seq<JobModel>>,
}

impl JobQueue {
    /// The models of the jobs currently pending, head first.
    pub closed spec fn pending_jobs(&self) -> Seq<JobModel> {
        self.pending@.map_values(|j: ImagePostUploadJob| j@)
    }

    pub closed spec fn is_closed(&self) -> bool {
        self.closed
    }

    pub closed spec fn cap(&self) -> int {
        self.capacity as int
    }

    /// Every job ever accepted, in acceptance order.
    pub closed spec fn pushed_log(&self) -> Seq<JobModel> {
        self.pushed@
    }

    /// Every job ever handed to a pop caller, in delivery order.
    pub closed spec fn delivered_log(&self) -> Seq<JobModel> {
        self.delivered@
    }

    /// Conservation: what was accepted is exactly what was delivered
    /// followed by what is still pending, and the buffer respects its bound.
    pub closed spec fn wf(&self) -> bool {
        &&& self.pushed@ == self.delivered@ + self.pending_jobs()
        &&& self.pending@.len() <= self.capacity
        &&& self.capacity >= 1
    }

    /// A fresh open queue of the given capacity.
    pub fn new(capacity: usize) -> (q: JobQueue)
        requires
            capacity >= 1,
        ensures
            q.wf(),
            !q.is_closed(),
            q.cap() == capacity,
            q.pending_jobs() == Seq::<JobModel>::empty(),
            q.pushed_log() == Seq::<JobModel>::empty(),
            q.delivered_log() == Seq::<JobModel>::empty(),
    {
        let q = JobQueue {
            pending: Vec::new(),
            closed: false,
            capacity,
            pushed: Ghost(Seq::empty()),
            delivered: Ghost(Seq::empty()),
        };
        proof {
            assert(q.pending_jobs() =~= Seq::<JobModel>::empty());
            assert(q.delivered@ + q.pending_jobs() =~= Seq::<JobModel>::empty());
        }
        q
    }

    /// Offers a job. Accepted exactly when the queue is open and below
    /// capacity; a full queue asks the caller to wait (backpressure); a
    /// closed queue refuses outright. Refusals change nothing.
    pub fn push(&mut self, job: ImagePostUploadJob) -> (r: PushResult)
        requires
            old(self).wf(),
        ensures
            final(self).wf(),
            final(self).cap() == old(self).cap(),
            final(self).delivered_log() == old(self).delivered_log(),
            match r {
                PushResult::Accepted => {
                    &&& !old(self).is_closed()
                    &&& old(self).pending_jobs().len() < old(self).cap()
                    &&& !final(self).is_closed()
                    &&& final(self).pending_jobs() == old(self).pending_jobs().push(job@)
                    &&& final(self).pushed_log() == old(self).pushed_log().push(job@)
                },
                PushResult::Full => {
                    &&& !old(self).is_closed()
                    &&& old(self).pending_jobs().len() == old(self).cap()
                    &&& *final(self) == *old(self)
                },
                PushResult::Closed => {
                    &&& old(self).is_closed()
                    &&& *final(self) == *old(self)
                },
            },
    {
        if self.closed {
            return PushResult::Closed;
        }
        if self.pending.len() == self.capacity {
            return PushResult::Full;
        }
        proof {
            let ghost j = job@;
            assert((self.delivered@ + self.pending_jobs()).push(j) =~= self.delivered@ + self.pending_jobs().push(j));
        }
        let ghost new_pushed = self.pushed@.push(job@);
        let ghost old_pending = self.pending_jobs();
        self.pushed = Ghost(new_pushed);
        self.pending.push(job);
        proof {
            assert(self.pending_jobs() =~= old_pending.push(self.pending@.last()@));
        }
        PushResult::Accepted
    }

    /// Takes the head job if one is pending; otherwise reports whether the
    /// caller should wait (queue still open) or stop (closed and drained).
    /// After close-and-drain the answer is `NoMoreWork`, the state does not
    /// change, and so every later attempt answers the same: no caller blocks
    /// forever on a finished queue.
    pub fn pop(&mut self) -> (r: PopResult)
        requires
            old(self).wf(),
        ensures
            final(self).wf(),
            final(self).cap() == old(self).cap(),
            final(self).is_closed() == old(self).is_closed(),
            final(self).pushed_log() == old(self).pushed_log(),
            match r {
                PopResult::Job(j) => {
                    &&& old(self).pending_jobs().len() > 0
                    &&& j@ == old(self).pending_jobs()[0]
                    &&& final(self).pending_jobs() == old(self).pending_jobs().skip(1)
                    &&& final(self).delivered_log() == old(self).delivered_log().push(j@)
                },
                PopResult::Empty => {
                    &&& old(self).pending_jobs().len() == 0
                    &&& !old(self).is_closed()
                    &&& *final(self) == *old(self)
                },
                PopResult::NoMoreWork => {
                    &&& old(self).pending_jobs().len() == 0
                    &&& old(self).is_closed()
                    &&& *final(self) == *old(self)
                },
            },
    {
        if self.pending.len() == 0 {
            if self.closed {
                return PopResult::NoMoreWork;
            }
            return PopResult::Empty;
        }
        let ghost old_pending = self.pending_jobs();
        let job = self.pending.remove(0);
        let ghost new_delivered = self.delivered@.push(job@);
        self.delivered = Ghost(new_delivered);
        proof {
            let h = old_pending[0];
            assert(self.pending@ =~= old(self).pending@.skip(1));
            assert(self.pending_jobs() =~= old_pending.skip(1));
            assert(job@ == h);
            assert(old_pending =~= seq![h] + old_pending.skip(1));
            assert(old(self).delivered@ + old_pending =~= old(self).delivered@.push(h)
                + old_pending.skip(1));
            assert(self.delivered@ + self.pending_jobs() =~= self.pushed@);
        }
        PopResult::Job(job)
    }

    /// Closes the queue for new work. Pending jobs stay deliverable.
    /// Closing an already closed queue changes nothing.
    pub fn close(&mut self)
        requires
            old(self).wf(),
        ensures
            final(self).wf(),
            final(self).is_closed(),
            final(self).cap() == old(self).cap(),
            final(self).pending_jobs() == old(self).pending_jobs(),
            final(self).pushed_log() == old(self).pushed_log(),
            final(self).delivered_log() == old(self).delivered_log(),
            old(self).is_closed() ==> *final(self) == *old(self),
    {
        self.closed = true;
    }

    /// Delivery discipline: the jobs handed out so far are exactly the first
    /// accepted ones, in acceptance order — no duplication, no invention,
    /// no reordering.
    pub proof fn lemma_delivery_order(&self)
        requires
            self.wf(),
        ensures
            self.pushed_log() == self.delivered_log() + self.pending_jobs(),
            self.delivered_log() == self.pushed_log().take(self.delivered_log().len() as int),
    {
        assert(self.pushed_log().take(self.delivered_log().len() as int) =~= self.delivered_log());
    }

    /// Once the queue is drained, every job ever accepted has been handed
    /// to exactly one pop caller.
    pub proof fn lemma_drained_delivers_all(&self)
        requires
            self.wf(),
            self.pending_jobs().len() == 0,
        ensures
            self.delivered_log() == self.pushed_log(),
    {
        assert(self.delivered@ + self.pending_jobs() =~= self.delivered@);
    }
}

} // verus!
