//! The dispatcher owns the lifecycle: the log sink comes up first, then the
//! workers, then the request path; shutdown runs the same steps in reverse
//! (stop accepting, close the queue, wait for the workers, close the sink).
//! These functions decide the order; the waiting and joining themselves
//! happen outside.

use vstd::prelude::*;

verus! {

#[derive(Clone, Copy, Debug, PartialEq, Eq, Structural)]
pub enum DispatcherPhase {
    /// Nothing started yet.
    Setup,
    /// The log sink runs; workers may now be started.
    SinkStarted,
    /// The worker pool runs; requests may now be accepted.
    WorkersStarted,
    /// The request path is live.
    Serving,
    /// Shut down: queue closed, workers joined, sink closed.
    Stopped,
}

/// The lifecycle state of the whole system.
pub struct Dispatcher {
    phase: DispatcherPhase,
    workers: usize,
}

impl Dispatcher {
    pub closed spec fn phase(&self) -> DispatcherPhase {
        self.phase
    }

    /// How many workers the pool was started with.
    pub closed spec fn worker_count(&self) -> nat {
        self.workers as nat
    }

    pub fn new() -> (d: Dispatcher)
        ensures
            d.phase() == DispatcherPhase::Setup,
            d.worker_count() == 0,
    {
        Dispatcher { phase: DispatcherPhase::Setup, workers: 0 }
    }

    /// The log sink must be running before any worker starts: a worker's
    /// first action may be to log.
    pub fn sink_started(&mut self)
        requires
            old(self).phase() == DispatcherPhase::Setup,
        ensures
            final(self).phase() == DispatcherPhase::SinkStarted,
            final(self).worker_count() == old(self).worker_count(),
    {
        self.phase = DispatcherPhase::SinkStarted;
    }

    /// Workers start only once the sink runs, and before requests are
    /// accepted.
    pub fn workers_started(&mut self, n: usize)
        requires
            old(self).phase() == DispatcherPhase::SinkStarted,
            n >= 1,
        ensures
            final(self).phase() == DispatcherPhase::WorkersStarted,
            final(self).worker_count() == n,
    {
        self.workers = n;
        self.phase = DispatcherPhase::WorkersStarted;
    }

    /// The request path opens last.
    pub fn serving(&mut self)
        requires
            old(self).phase() == DispatcherPhase::WorkersStarted,
        ensures
            final(self).phase() == DispatcherPhase::Serving,
            final(self).worker_count() == old(self).worker_count(),
    {
        self.phase = DispatcherPhase::Serving;
    }

    /// Begins shutdown. Returns whether the caller must run the shutdown
    /// sequence (close the queue, wait for every worker to stop, close the
    /// sink). Invoked a second time it reports already-stopped, changes
    /// nothing, and asks for no further action: shutdown is idempotent.
    pub fn shutdown(&mut self) -> (run_sequence: bool)
        ensures
            final(self).phase() == DispatcherPhase::Stopped,
            final(self).worker_count() == old(self).worker_count(),
            run_sequence == (old(self).phase() != DispatcherPhase::Stopped),
            old(self).phase() == DispatcherPhase::Stopped ==> *final(self) == *old(self),
    {
        if self.phase_now() == DispatcherPhase::Stopped {
            return false;
        }
        self.phase = DispatcherPhase::Stopped;
        true
    }

    /// The current phase, for callers outside the proof world.
    pub fn phase_now(&self) -> (p: DispatcherPhase)
        ensures
            p == self.phase(),
    {
        self.phase
    }
}

} // verus!
