use vstd::prelude::*;

use crate::merge_strategy::QuorumMergeStrategy;

verus! {

/// The delay tracker of one writer, as its contracts see it: samples of
/// `(time, body length)` not yet older than the delay, oldest first, and the
/// length already known to be that old.
pub struct DelayView {
    pub delay: nat,
    pub pending: Seq<(nat, nat)>,
    pub delayed: nat,
}

impl DelayView {
    pub open spec fn wf(self) -> bool {
        &&& self.delay <= u64::MAX
        &&& forall|i: int, j: int| 0 <= i < j < self.pending.len()
            ==> (#[trigger] self.pending[i]).0 <= (#[trigger] self.pending[j]).0
                && self.pending[i].1 <= self.pending[j].1
        &&& forall|i: int| 0 <= i < self.pending.len() ==> self.delayed <= (#[trigger] self.pending[i]).1
            && self.pending[i].0 <= u64::MAX && self.pending[i].1 <= usize::MAX
    }

    /// The latest time and length the tracker has seen.
    pub open spec fn last_time(self) -> nat {
        if self.pending.len() > 0 { self.pending.last().0 } else { 0 }
    }

    pub open spec fn last_len(self) -> nat {
        if self.pending.len() > 0 { self.pending.last().1 } else { self.delayed }
    }
}

/// Number of leading samples in `p` that are at least `delay` old at `now`.
pub open spec fn ripe_count(p: Seq<(nat, nat)>, delay: nat, now: nat) -> nat
    decreases p.len(),
{
    if p.len() > 0 && p[0].0 + delay <= now {
        1 + ripe_count(p.drop_first(), delay, now)
    } else {
        0
    }
}

/// Reports a writer's body length as it stood a fixed delay ago.
pub struct DelayTracker {
    delay: u64,
    pending: Vec<(u64, usize)>,
    delayed: usize,
}

impl View for DelayTracker {
    type V = DelayView;

    closed spec fn view(&self) -> DelayView {
        DelayView {
            delay: self.delay as nat,
            pending: self.pending@.map_values(|s: (u64, usize)| (s.0 as nat, s.1 as nat)),
            delayed: self.delayed as nat,
        }
    }
}

proof fn lemma_ripe_count_bound(p: Seq<(nat, nat)>, delay: nat, now: nat)
    ensures
        ripe_count(p, delay, now) <= p.len(),
    decreases p.len(),
{
    if p.len() > 0 && p[0].0 + delay <= now {
        lemma_ripe_count_bound(p.drop_first(), delay, now);
    }
}

impl DelayTracker {
    pub fn new(delay: u64) -> (r: Self)
        ensures
            r@.wf(),
            r@.delay == delay,
            r@.pending.len() == 0,
            r@.delayed == 0,
    {
        DelayTracker { delay, pending: Vec::new(), delayed: 0 }
    }

    /// Records that at `now` the writer's body had `len` bytes. Samples that go
    /// back in time or length are ignored.
    pub fn record(&mut self, now: u64, len: usize)
        requires
            old(self)@.wf(),
        ensures
            final(self)@.wf(),
            final(self)@ == if now >= old(self)@.last_time() && len >= old(self)@.last_len() {
                DelayView { pending: old(self)@.pending.push((now as nat, len as nat)), ..old(self)@ }
            } else {
                old(self)@
            },
    {
        let n = self.pending.len();
        let (t, l) = if n > 0 { self.pending[n - 1] } else { (0, self.delayed) };
        if now >= t && len >= l {
            self.pending.push((now, len));
            proof {
                let op = old(self)@.pending;
                let np = op.push((now as nat, len as nat));
                assert(self@.pending =~= np);
                if n > 0 {
                    assert(op.last() == op[n - 1]);
                    assert forall|a: int| 0 <= a < n implies (#[trigger] op[a]).0 <= now && op[a].1 <= len by {
                        if a < n - 1 {
                            assert(op[a].0 <= op[n - 1].0);
                        }
                    }
                }
                assert forall|a: int, b: int| 0 <= a < b < np.len()
                    implies (#[trigger] np[a]).0 <= (#[trigger] np[b]).0 && np[a].1 <= np[b].1 by {
                    if b < n {
                        assert(np[a] == op[a] && np[b] == op[b]);
                    } else {
                        assert(np[a] == op[a]);
                    }
                }
                assert forall|a: int| 0 <= a < np.len() implies old(self)@.delayed <= (#[trigger] np[a]).1 by {
                    if a < n {
                        assert(np[a] == op[a]);
                    }
                }
            }
        }
    }

    /// The latest body length the tracker has seen.
    pub fn last_len(&self) -> (r: usize)
        requires
            self@.wf(),
        ensures
            r == self@.last_len(),
    {
        let n = self.pending.len();
        if n > 0 {
            self.pending[n - 1].1
        } else {
            self.delayed
        }
    }

    /// Whether no sample is still waiting out the delay.
    pub fn is_drained(&self) -> (r: bool)
        ensures
            r == (self@.pending.len() == 0),
    {
        self.pending.len() == 0
    }

    /// The body length as it stood `delay` before `now`: the latest sample
    /// that old, or the previous answer when no new sample is.
    pub fn delayed_len(&mut self, now: u64) -> (r: usize)
        requires
            old(self)@.wf(),
        ensures
            final(self)@.wf(),
            ({
                let k = ripe_count(old(self)@.pending, old(self)@.delay, now as nat);
                &&& final(self)@.pending == old(self)@.pending.skip(k as int)
                &&& final(self)@.delay == old(self)@.delay
                &&& r as nat == final(self)@.delayed
                &&& final(self)@.delayed == if k > 0 { old(self)@.pending[k - 1].1 } else { old(self)@.delayed }
            }),
    {
        let ghost p0 = self@.pending;
        let ghost k = ripe_count(p0, self@.delay, now as nat);
        proof {
            lemma_ripe_count_bound(p0, self@.delay, now as nat);
        }
        let mut i: usize = 0;
        assert(p0.skip(0) =~= p0);
        while i < self.pending.len() && self.pending[i].0 as u128 + self.delay as u128 <= now as u128
            invariant
                i <= self.pending@.len(),
                self.pending == old(self).pending,
                self.delay == old(self).delay,
                p0 == old(self)@.pending,
                ripe_count(p0, self@.delay, now as nat) == i + ripe_count(p0.skip(i as int), self@.delay, now as nat),
                self.delayed as nat == if i > 0 { p0[i - 1].1 } else { old(self)@.delayed },
                old(self)@.wf(),
            decreases self.pending@.len() - i,
        {
            self.delayed = self.pending[i].1;
            proof {
                let s = p0.skip(i as int);
                assert(s[0] == p0[i as int]);
                assert(s.drop_first() =~= p0.skip(i + 1));
            }
            i = i + 1;
        }
        proof {
            let s = p0.skip(i as int);
            if i < p0.len() {
                assert(s[0] == p0[i as int]);
            }
            assert(ripe_count(s, self@.delay, now as nat) == 0);
        }
        let mut rest: Vec<(u64, usize)> = Vec::new();
        let mut j: usize = i;
        while j < self.pending.len()
            invariant
                i <= j <= self.pending@.len(),
                self.pending == old(self).pending,
                rest@ == self.pending@.subrange(i as int, j as int),
            decreases self.pending@.len() - j,
        {
            rest.push(self.pending[j]);
            j = j + 1;
            assert(rest@ =~= self.pending@.subrange(i as int, j as int));
        }
        self.pending = rest;
        proof {
            assert(self@.pending =~= p0.skip(i as int));
            assert(self@.wf());
        }
        self.delayed
    }
}

proof fn lemma_delayed_bounds(d: DelayView, now: nat)
    requires
        d.wf(),
    ensures
        ({
            let k = ripe_count(d.pending, d.delay, now);
            let r = if k > 0 { d.pending[k - 1].1 } else { d.delayed };
            d.delayed <= r <= d.last_len()
        }),
{
    lemma_ripe_count_bound(d.pending, d.delay, now);
    let k = ripe_count(d.pending, d.delay, now);
    let n = d.pending.len();
    if k > 0 {
        assert(d.delayed <= d.pending[k - 1].1);
        assert(d.pending.last() == d.pending[n - 1]);
        if k - 1 < n - 1 {
            assert(d.pending[k - 1].1 <= d.pending[n - 1].1);
        }
    }
    if n > 0 {
        assert(d.pending.last() == d.pending[n - 1]);
        assert(d.delayed <= d.pending[n - 1].1);
    }
}

/// Passes writer `token`'s delayed length at `now` on to the merge, and once
/// the writer has finished and every sample has aged past the delay, tells
/// the merge that it is done. Returns whether it was.
pub fn track_replay(s: &mut QuorumMergeStrategy, token: u64, delay: &mut DelayTracker, now: u64, finished: bool) -> (done: bool)
    requires
        old(s)@.wf(),
        old(delay)@.wf(),
        old(s)@.tracks(token) ==> old(delay)@.last_len() <= old(s)@.writer(token).stream.data.len(),
    ensures
        final(s)@.wf(),
        final(delay)@.wf(),
        old(delay)@.delayed <= final(delay)@.delayed <= old(delay)@.last_len(),
        old(s)@.tracks(token) ==> final(delay)@.delayed <= old(s)@.writer(token).stream.data.len(),
        ({
            let k = ripe_count(old(delay)@.pending, old(delay)@.delay, now as nat);
            &&& final(delay)@.pending == old(delay)@.pending.skip(k as int)
            &&& final(delay)@.delay == old(delay)@.delay
            &&& final(delay)@.delayed == if k > 0 { old(delay)@.pending[k - 1].1 } else { old(delay)@.delayed }
        }),
        done == (finished && final(delay)@.pending.len() == 0),
        final(s)@ == if done {
            old(s)@.after_delayed(token, final(delay)@.delayed).after_removed(token)
        } else {
            old(s)@.after_delayed(token, final(delay)@.delayed)
        },
{
    let ghost d0 = delay@;
    let d = delay.delayed_len(now);
    proof {
        lemma_delayed_bounds(d0, now as nat);
    }
    s.replay_new_delayed_data(token, d);
    if finished && delay.is_drained() {
        s.replay_removed(token);
        true
    } else {
        false
    }
}

} // verus!
