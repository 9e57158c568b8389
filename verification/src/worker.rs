//! One worker's life, as a state machine: `Starting -> Running -> Draining
//! -> Stopped`. The blocking loop itself (thread, queue handle, image
//! calls) lives outside; these transition functions make every decision and
//! produce every log line, so the loop around them carries no policy of its
//! own.

use vstd::prelude::*;

use crate::job::{ImagePostUploadJob, JobModel};
use crate::queue::PopResult;
use crate::text::{chars_to_string, dec_digits, push_str_chars, push_usize_digits};

verus! {

#[derive(Clone, Copy, Debug, PartialEq, Eq, Structural)]
pub enum WorkerPhase {
    /// Thread launched, handles acquired, nothing consumed yet.
    Starting,
    /// Popping jobs and processing them.
    Running,
    /// The queue reported "no more work": finish up, take nothing more.
    Draining,
    /// The thread may exit; the dispatcher may join it.
    Stopped,
}

/// What the loop should do next after a pop.
#[derive(Clone, Copy, Debug, PartialEq, Eq, Structural)]
pub enum WorkerAction {
    /// A job was handed over: run the thumbnail computation.
    Process,
    /// Nothing pending yet: block or retry on the queue.
    Wait,
    /// Closed and drained: leave the loop.
    Finish,
}

/// The worker's one status line per finished job.
pub open spec fn spec_outcome_line(id: nat, name: Seq<char>, ok: bool) -> Seq<char> {
    "Worker "@ + dec_digits(id) + (if ok {
        " processed job for: "@
    } else {
        " failed job for: "@
    }) + name
}

/// The error line for a message that was no job.
pub open spec fn spec_invalid_line(id: nat) -> Seq<char> {
    "Worker "@ + dec_digits(id) + " dropped an invalid job payload"@
}

/// The banner a worker announces itself with.
pub open spec fn spec_started_line(id: nat) -> Seq<char> {
    "[Worker "@ + dec_digits(id) + "] started"@
}

/// One consumer of the job queue, with a ghost record of everything it
/// processed.
pub struct WorkerState {
    id: usize,
    phase: WorkerPhase,
    processed: Ghost<Seq<(JobModel, bool)>>,
}

impl WorkerState {
    pub closed spec fn wid(&self) -> nat {
        self.id as nat
    }

    pub closed spec fn phase(&self) -> WorkerPhase {
        self.phase
    }

    /// Every job this worker finished, with the outcome of its thumbnail
    /// attempt, in processing order.
    pub closed spec fn processed_log(&self) -> Seq<(JobModel, bool)> {
        self.processed@
    }

    /// A fresh worker, not yet running.
    pub fn new(id: usize) -> (w: WorkerState)
        ensures
            w.wid() == id,
            w.phase() == WorkerPhase::Starting,
            w.processed_log() == Seq::<(JobModel, bool)>::empty(),
    {
        WorkerState { id, phase: WorkerPhase::Starting, processed: Ghost(Seq::empty()) }
    }

    /// The thread is up: announce it and enter the consumption loop.
    pub fn on_started(&mut self) -> (line: String)
        requires
            old(self).phase() == WorkerPhase::Starting,
        ensures
            final(self).phase() == WorkerPhase::Running,
            final(self).wid() == old(self).wid(),
            final(self).processed_log() == old(self).processed_log(),
            line@ == spec_started_line(old(self).wid()),
    {
        self.phase = WorkerPhase::Running;
        let mut out: Vec<char> = Vec::new();
        push_str_chars(&mut out, "[Worker ");
        push_usize_digits(&mut out, self.id);
        push_str_chars(&mut out, "] started");
        chars_to_string(&out)
    }

    /// The loop decision on what the queue answered: process a job, wait
    /// for more, or — on "no more work" — drain and take nothing further.
    pub fn on_pop(&mut self, r: &PopResult) -> (a: WorkerAction)
        requires
            old(self).phase() == WorkerPhase::Running,
        ensures
            final(self).wid() == old(self).wid(),
            final(self).processed_log() == old(self).processed_log(),
            match r {
                PopResult::Job(_) => a == WorkerAction::Process && final(self).phase()
                    == WorkerPhase::Running,
                PopResult::Empty => a == WorkerAction::Wait && final(self).phase()
                    == WorkerPhase::Running,
                PopResult::NoMoreWork => a == WorkerAction::Finish && final(self).phase()
                    == WorkerPhase::Draining,
            },
    {
        match r {
            PopResult::Job(_) => WorkerAction::Process,
            PopResult::Empty => WorkerAction::Wait,
            PopResult::NoMoreWork => {
                self.phase = WorkerPhase::Draining;
                WorkerAction::Finish
            },
        }
    }

    /// After the thumbnail attempt, successful or not: record the job and
    /// hand back exactly one status line for the log sink. Failures leave
    /// the worker running — the next pop proceeds as usual.
    pub fn on_processed(&mut self, job: &ImagePostUploadJob, ok: bool) -> (line: String)
        requires
            old(self).phase() == WorkerPhase::Running,
        ensures
            final(self).phase() == WorkerPhase::Running,
            final(self).wid() == old(self).wid(),
            final(self).processed_log() == old(self).processed_log().push((job@, ok)),
            line@ == spec_outcome_line(old(self).wid(), job.file_name@, ok),
    {
        let ghost rec = (job@, ok);
        let ghost new_log = self.processed@.push(rec);
        self.processed = Ghost(new_log);
        let mut out: Vec<char> = Vec::new();
        push_str_chars(&mut out, "Worker ");
        push_usize_digits(&mut out, self.id);
        if ok {
            push_str_chars(&mut out, " processed job for: ");
        } else {
            push_str_chars(&mut out, " failed job for: ");
        }
        push_str_chars(&mut out, job.file_name.as_str());
        chars_to_string(&out)
    }

    /// A message that decoded to no job is dropped: one error line, and the
    /// worker keeps running — a single bad message must not stop the pool.
    pub fn on_invalid_payload(&mut self) -> (line: String)
        requires
            old(self).phase() == WorkerPhase::Running,
        ensures
            final(self).phase() == WorkerPhase::Running,
            final(self).wid() == old(self).wid(),
            final(self).processed_log() == old(self).processed_log(),
            line@ == spec_invalid_line(old(self).wid()),
    {
        let mut out: Vec<char> = Vec::new();
        push_str_chars(&mut out, "Worker ");
        push_usize_digits(&mut out, self.id);
        push_str_chars(&mut out, " dropped an invalid job payload");
        chars_to_string(&out)
    }

    /// Nothing is left to finish: the thread may exit.
    pub fn on_drained(&mut self)
        requires
            old(self).phase() == WorkerPhase::Draining,
        ensures
            final(self).phase() == WorkerPhase::Stopped,
            final(self).wid() == old(self).wid(),
            final(self).processed_log() == old(self).processed_log(),
    {
        self.phase = WorkerPhase::Stopped;
    }

    /// The current phase, for callers outside the proof world.
    pub fn phase_now(&self) -> (p: WorkerPhase)
        ensures
            p == self.phase(),
    {
        self.phase
    }

    /// This worker's small integer identity.
    pub fn worker_id(&self) -> (i: usize)
        ensures
            i == self.wid(),
    {
        self.id
    }
}

} // verus!
