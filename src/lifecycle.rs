use vstd::prelude::*;

verus! {

/// The phases a replay goes through.
#[derive(Clone, Copy, Debug, PartialEq, Eq, Structural)]
pub enum ReplayPhase {
    Accepting,
    DrainingWriters,
    Finalizing,
    Saving,
    DrainingReaders,
    Cancelled,
    Terminated,
}

impl ReplayPhase {
    /// Phases only move to an equal or higher rank.
    pub open spec fn rank(self) -> nat {
        match self {
            ReplayPhase::Accepting => 0,
            ReplayPhase::DrainingWriters => 1,
            ReplayPhase::Finalizing => 2,
            ReplayPhase::Saving => 3,
            ReplayPhase::DrainingReaders => 4,
            ReplayPhase::Cancelled => 5,
            ReplayPhase::Terminated => 6,
        }
    }
}

/// The decision state of one replay. Times are milliseconds on a clock chosen
/// by the caller.
pub struct LifecycleView {
    pub phase: ReplayPhase,
    pub writers: nat,
    pub readers: nat,
    pub deadline: nat,
    pub idle: nat,
    pub zero_writers_since: Option<nat>,
}

impl LifecycleView {
    pub open spec fn wf(self) -> bool {
        &&& self.writers <= u64::MAX
        &&& self.readers <= u64::MAX
        &&& self.deadline <= u64::MAX
        &&& self.idle <= u64::MAX
        &&& (self.writers == 0) == (self.zero_writers_since is Some)
        &&& self.zero_writers_since matches Some(t) ==> t <= u64::MAX
        &&& self.phase == ReplayPhase::Terminated ==> self.writers == 0 && self.readers == 0
        &&& 2 <= self.phase.rank() <= 4 ==> self.writers == 0
    }

    /// The writers have been gone for the idle period at `now`.
    pub open spec fn idle_elapsed(self, now: nat) -> bool {
        self.zero_writers_since matches Some(t) && now >= t && now - t >= self.idle
    }

    /// The transitions that time and the connection counts allow at `now`,
    /// taken in order.
    pub open spec fn settle(self, now: nat) -> LifecycleView {
        let s1 = if self.phase != ReplayPhase::Terminated && self.phase != ReplayPhase::Cancelled
            && now >= self.deadline {
            LifecycleView { phase: ReplayPhase::Cancelled, ..self }
        } else {
            self
        };
        let s2 = if s1.phase == ReplayPhase::Accepting && s1.idle_elapsed(now) {
            LifecycleView { phase: ReplayPhase::DrainingWriters, ..s1 }
        } else {
            s1
        };
        let s3 = if s2.phase == ReplayPhase::DrainingWriters && s2.writers == 0 {
            LifecycleView { phase: ReplayPhase::Finalizing, ..s2 }
        } else {
            s2
        };
        if (s3.phase == ReplayPhase::DrainingReaders && s3.readers == 0) || (s3.phase
            == ReplayPhase::Cancelled && s3.writers == 0 && s3.readers == 0) {
            LifecycleView { phase: ReplayPhase::Terminated, ..s3 }
        } else {
            s3
        }
    }

    /// A writer offers itself: taken only while accepting.
    pub open spec fn writer_joined(self) -> LifecycleView {
        if self.phase == ReplayPhase::Accepting {
            LifecycleView { writers: self.writers + 1, zero_writers_since: None, ..self }
        } else {
            self
        }
    }

    /// A reader offers itself: taken until the replay has terminated.
    pub open spec fn reader_joined(self) -> LifecycleView {
        if self.phase != ReplayPhase::Terminated {
            LifecycleView { readers: self.readers + 1, ..self }
        } else {
            self
        }
    }

    pub open spec fn writer_left(self, now: nat) -> LifecycleView {
        let s = LifecycleView {
            writers: (self.writers - 1) as nat,
            zero_writers_since: if self.writers == 1 { Some(now) } else { None },
            ..self
        };
        s.settle(now)
    }

    pub open spec fn reader_left(self, now: nat) -> LifecycleView {
        LifecycleView { readers: (self.readers - 1) as nat, ..self }.settle(now)
    }

    pub open spec fn merge_finalized(self, now: nat) -> LifecycleView {
        if self.phase == ReplayPhase::Finalizing {
            LifecycleView { phase: ReplayPhase::Saving, ..self }.settle(now)
        } else {
            self.settle(now)
        }
    }

    pub open spec fn save_finished(self, now: nat) -> LifecycleView {
        if self.phase == ReplayPhase::Saving {
            LifecycleView { phase: ReplayPhase::DrainingReaders, ..self }.settle(now)
        } else {
            self.settle(now)
        }
    }

    pub open spec fn shutdown(self) -> LifecycleView {
        let s = if self.phase != ReplayPhase::Terminated {
            LifecycleView { phase: ReplayPhase::Cancelled, ..self }
        } else {
            self
        };
        if s.phase == ReplayPhase::Cancelled && s.writers == 0 && s.readers == 0 {
            LifecycleView { phase: ReplayPhase::Terminated, ..s }
        } else {
            s
        }
    }

    /// The state once every open connection has closed at `now`.
    pub open spec fn drained(self, now: nat) -> LifecycleView
        decreases self.writers + self.readers,
    {
        if self.writers > 0 {
            self.writer_left(now).drained(now)
        } else if self.readers > 0 {
            self.reader_left(now).drained(now)
        } else {
            self
        }
    }
}

/// Decides when a replay stops taking writers, finalizes, saves and ends,
/// from the connection counts and the time. The caller performs the work
/// that the phase asks for and reports back.
pub struct ReplayLifecycle {
    phase: ReplayPhase,
    writers: u64,
    readers: u64,
    deadline: u64,
    idle: u64,
    zero_writers_since: Option<u64>,
}

impl View for ReplayLifecycle {
    type V = LifecycleView;

    closed spec fn view(&self) -> LifecycleView {
        LifecycleView {
            phase: self.phase,
            writers: self.writers as nat,
            readers: self.readers as nat,
            deadline: self.deadline as nat,
            idle: self.idle as nat,
            zero_writers_since: match self.zero_writers_since {
                Some(t) => Some(t as nat),
                None => None,
            },
        }
    }
}

impl ReplayLifecycle {
    /// A replay created at `now` that is cancelled `forced_timeout` after
    /// creation and stops taking writers once it had none for `idle`.
    pub fn new(now: u64, forced_timeout: u64, idle: u64) -> (r: Self)
        ensures
            r@.wf(),
            r@ == (LifecycleView {
                phase: ReplayPhase::Accepting,
                writers: 0,
                readers: 0,
                deadline: if now + forced_timeout <= u64::MAX { (now + forced_timeout) as nat } else { u64::MAX as nat },
                idle: idle as nat,
                zero_writers_since: Some(now as nat),
            }),
    {
        let deadline = if forced_timeout <= u64::MAX - now { now + forced_timeout } else { u64::MAX };
        ReplayLifecycle { phase: ReplayPhase::Accepting, writers: 0, readers: 0, deadline, idle, zero_writers_since: Some(now) }
    }

    pub fn phase(&self) -> (r: ReplayPhase)
        ensures
            r == self@.phase,
    {
        self.phase
    }

    pub fn writer_count(&self) -> (r: u64)
        ensures
            r == self@.writers,
    {
        self.writers
    }

    pub fn reader_count(&self) -> (r: u64)
        ensures
            r == self@.readers,
    {
        self.readers
    }

    /// Whether new writers are taken.
    pub fn is_accepting(&self) -> (r: bool)
        ensures
            r == (self@.phase == ReplayPhase::Accepting),
    {
        self.phase == ReplayPhase::Accepting
    }

    fn settle(&mut self, now: u64)
        requires
            old(self)@.wf(),
        ensures
            final(self)@ == old(self)@.settle(now as nat),
            final(self)@.wf(),
    {
        if self.phase != ReplayPhase::Terminated && self.phase != ReplayPhase::Cancelled && now >= self.deadline {
            self.phase = ReplayPhase::Cancelled;
        }
        if self.phase == ReplayPhase::Accepting {
            match self.zero_writers_since {
                Some(t) => {
                    if now >= t && now - t >= self.idle {
                        self.phase = ReplayPhase::DrainingWriters;
                    }
                },
                None => {},
            }
        }
        if self.phase == ReplayPhase::DrainingWriters && self.writers == 0 {
            self.phase = ReplayPhase::Finalizing;
        }
        if (self.phase == ReplayPhase::DrainingReaders && self.readers == 0) || (self.phase
            == ReplayPhase::Cancelled && self.writers == 0 && self.readers == 0) {
            self.phase = ReplayPhase::Terminated;
        }
    }

    /// Lets the clock advance to `now`.
    pub fn tick(&mut self, now: u64)
        requires
            old(self)@.wf(),
        ensures
            final(self)@ == old(self)@.settle(now as nat),
            final(self)@.wf(),
    {
        self.settle(now);
    }

    /// A writer connection arrives; returns whether it is taken.
    pub fn writer_joined(&mut self) -> (r: bool)
        requires
            old(self)@.wf(),
            old(self)@.writers < u64::MAX,
        ensures
            r == (old(self)@.phase == ReplayPhase::Accepting),
            final(self)@ == old(self)@.writer_joined(),
            final(self)@.wf(),
    {
        if self.phase == ReplayPhase::Accepting {
            self.writers = self.writers + 1;
            self.zero_writers_since = None;
            true
        } else {
            false
        }
    }

    /// A reader connection arrives; returns whether it is taken.
    pub fn reader_joined(&mut self) -> (r: bool)
        requires
            old(self)@.wf(),
            old(self)@.readers < u64::MAX,
        ensures
            r == (old(self)@.phase != ReplayPhase::Terminated),
            final(self)@ == old(self)@.reader_joined(),
            final(self)@.wf(),
    {
        if self.phase != ReplayPhase::Terminated {
            self.readers = self.readers + 1;
            true
        } else {
            false
        }
    }

    /// A writer that was taken has closed at `now`.
    pub fn writer_left(&mut self, now: u64)
        requires
            old(self)@.wf(),
            old(self)@.writers > 0,
        ensures
            final(self)@ == old(self)@.writer_left(now as nat),
            final(self)@.wf(),
    {
        self.writers = self.writers - 1;
        if self.writers == 0 {
            self.zero_writers_since = Some(now);
        }
        self.settle(now);
    }

    /// A reader that was taken has closed at `now`.
    pub fn reader_left(&mut self, now: u64)
        requires
            old(self)@.wf(),
            old(self)@.readers > 0,
        ensures
            final(self)@ == old(self)@.reader_left(now as nat),
            final(self)@.wf(),
    {
        self.readers = self.readers - 1;
        self.settle(now);
    }

    /// The merge has been finalized.
    pub fn merge_finalized(&mut self, now: u64)
        requires
            old(self)@.wf(),
        ensures
            final(self)@ == old(self)@.merge_finalized(now as nat),
            final(self)@.wf(),
    {
        if self.phase == ReplayPhase::Finalizing {
            self.phase = ReplayPhase::Saving;
        }
        self.settle(now);
    }

    /// The saver has finished, whatever its outcome.
    pub fn save_finished(&mut self, now: u64)
        requires
            old(self)@.wf(),
        ensures
            final(self)@ == old(self)@.save_finished(now as nat),
            final(self)@.wf(),
    {
        if self.phase == ReplayPhase::Saving {
            self.phase = ReplayPhase::DrainingReaders;
        }
        self.settle(now);
    }

    /// The shutdown token was cancelled.
    pub fn shutdown(&mut self)
        requires
            old(self)@.wf(),
        ensures
            final(self)@ == old(self)@.shutdown(),
            final(self)@.wf(),
    {
        if self.phase != ReplayPhase::Terminated {
            self.phase = ReplayPhase::Cancelled;
        }
        if self.phase == ReplayPhase::Cancelled && self.writers == 0 && self.readers == 0 {
            self.phase = ReplayPhase::Terminated;
        }
    }
}


/// No transition moves a replay back to an earlier phase.
pub proof fn lemma_phase_never_goes_back(s: LifecycleView, now: nat)
    requires
        s.wf(),
    ensures
        s.phase.rank() <= s.settle(now).phase.rank(),
        s.phase.rank() <= s.writer_joined().phase.rank(),
        s.phase.rank() <= s.reader_joined().phase.rank(),
        s.writers > 0 ==> s.phase.rank() <= s.writer_left(now).phase.rank(),
        s.readers > 0 ==> s.phase.rank() <= s.reader_left(now).phase.rank(),
        s.phase.rank() <= s.merge_finalized(now).phase.rank(),
        s.phase.rank() <= s.save_finished(now).phase.rank(),
        s.phase.rank() <= s.shutdown().phase.rank(),
{
}

/// Once a replay has left the accepting phase it turns away every writer, and
/// no later transition takes it back.
pub proof fn lemma_writers_rejected_after_accepting(s: LifecycleView, now: nat)
    requires
        s.wf(),
        s.phase != ReplayPhase::Accepting,
    ensures
        s.writer_joined() == s,
        s.settle(now).phase != ReplayPhase::Accepting,
        s.reader_joined().phase != ReplayPhase::Accepting,
        s.writers > 0 ==> s.writer_left(now).phase != ReplayPhase::Accepting,
        s.readers > 0 ==> s.reader_left(now).phase != ReplayPhase::Accepting,
        s.merge_finalized(now).phase != ReplayPhase::Accepting,
        s.save_finished(now).phase != ReplayPhase::Accepting,
        s.shutdown().phase != ReplayPhase::Accepting,
{
    lemma_phase_never_goes_back(s, now);
}

proof fn lemma_cancelled_drains(s: LifecycleView, now: nat)
    requires
        s.wf(),
        s.phase == ReplayPhase::Cancelled || s.phase == ReplayPhase::Terminated,
        now <= u64::MAX,
    ensures
        s.drained(now).phase == ReplayPhase::Terminated || (s.writers == 0 && s.readers == 0
            && s.drained(now) == s && s.phase == ReplayPhase::Cancelled),
    decreases s.writers + s.readers,
{
    if s.writers > 0 {
        lemma_cancelled_drains(s.writer_left(now), now);
    } else if s.readers > 0 {
        lemma_cancelled_drains(s.reader_left(now), now);
    }
}

/// Once the forced timeout has passed, the replay is cancelled at the next
/// tick, and it has terminated as soon as its open connections have closed.
pub proof fn lemma_forced_timeout_terminates(s: LifecycleView, now: nat)
    requires
        s.wf(),
        now >= s.deadline,
        now <= u64::MAX,
    ensures
        s.settle(now).phase == ReplayPhase::Cancelled || s.settle(now).phase == ReplayPhase::Terminated,
        s.settle(now).drained(now).phase == ReplayPhase::Terminated,
{
    lemma_cancelled_drains(s.settle(now), now);
}

/// When the last writer leaves at `left`, the idle timer starts again from
/// `left`: up to the idle period later the replay still takes writers, and a
/// writer that returns stops the timer.
pub proof fn lemma_idle_timer_rearmed(s: LifecycleView, left: nat, now: nat)
    requires
        s.wf(),
        s.phase == ReplayPhase::Accepting,
        s.writers == 1,
        left <= now,
        now < left + s.idle,
        now < s.deadline,
    ensures
        s.writer_left(left).zero_writers_since == Some(left),
        s.writer_left(left).phase == ReplayPhase::Accepting,
        s.writer_left(left).settle(now).phase == ReplayPhase::Accepting,
        s.writer_left(left).writer_joined().zero_writers_since is None,
{
}
/// A connection that was taken and is then cancelled, by a forced timeout or
/// a shutdown, leaves the counts as they were before it came, and the replay
/// cancelled or terminated.
pub proof fn lemma_cancelled_connection_returns(s: LifecycleView, now: nat, writer: bool)
    requires
        s.wf(),
        s.writers < u64::MAX,
        s.readers < u64::MAX,
        now <= u64::MAX,
    ensures
        writer && s.phase == ReplayPhase::Accepting ==> {
            let t = s.writer_joined().shutdown().writer_left(now);
            &&& t.writers == s.writers
            &&& t.readers == s.readers
            &&& (t.phase == ReplayPhase::Cancelled || t.phase == ReplayPhase::Terminated)
        },
        !writer && s.phase != ReplayPhase::Terminated ==> {
            let t = s.reader_joined().shutdown().reader_left(now);
            &&& t.writers == s.writers
            &&& t.readers == s.readers
            &&& (t.phase == ReplayPhase::Cancelled || t.phase == ReplayPhase::Terminated)
        },
{
}

} // verus!
