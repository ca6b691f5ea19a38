use vstd::prelude::*;

use crate::merged_replay::{MergedReplay, MergedReplayView, ReplayHeader};
use crate::position::StreamPosition;
use crate::writer_replay::{WriterReplay, WriterReplayView};

verus! {

/// Receives what happens to the writers of one match and keeps the merged
/// replay. Writers are named by the token that `replay_added` returned.
pub trait MergeStrategy {
    /// The strategy's internal consistency, which every operation keeps.
    spec fn inv(&self) -> bool;

    /// Another writer can still be given a token of its own.
    spec fn has_room(&self) -> bool;

    fn replay_added(&mut self) -> (r: u64)
        requires
            old(self).inv(),
            old(self).has_room(),
        ensures
            final(self).inv(),
    ;

    fn replay_removed(&mut self, id: u64)
        requires
            old(self).inv(),
        ensures
            final(self).inv(),
    ;

    fn replay_header_added(&mut self, id: u64, header: ReplayHeader)
        requires
            old(self).inv(),
        ensures
            final(self).inv(),
    ;

    fn replay_new_data(&mut self, id: u64, data: &[u8])
        requires
            old(self).inv(),
        ensures
            final(self).inv(),
    ;

    fn replay_new_delayed_data(&mut self, id: u64, data_len: usize)
        requires
            old(self).inv(),
        ensures
            final(self).inv(),
    ;

    fn get_merged_replay(&self) -> &MergedReplay;
}

/// A strategy that ignores every writer; its merged replay stays empty.
pub struct NullMergeStrategy {
    merged: MergedReplay,
}

impl NullMergeStrategy {
    pub fn new() -> (r: Self)
        ensures
            r@ == MergedReplayView::empty(),
    {
        NullMergeStrategy { merged: MergedReplay::new() }
    }
}

impl View for NullMergeStrategy {
    type V = MergedReplayView;

    closed spec fn view(&self) -> MergedReplayView {
        self.merged@
    }
}

impl MergeStrategy for NullMergeStrategy {
    open spec fn inv(&self) -> bool {
        true
    }

    open spec fn has_room(&self) -> bool {
        true
    }

    fn replay_added(&mut self) -> u64 {
        0
    }

    fn replay_removed(&mut self, id: u64) {
    }

    fn replay_header_added(&mut self, id: u64, header: ReplayHeader) {
    }

    fn replay_new_data(&mut self, id: u64, data: &[u8]) {
    }

    fn replay_new_delayed_data(&mut self, id: u64, data_len: usize) {
    }

    fn get_merged_replay(&self) -> &MergedReplay {
        &self.merged
    }
}

/// One writer as the quorum merge tracks it.
pub struct TrackedView {
    pub token: u64,
    pub stream: WriterReplayView,
    pub delayed_len: nat,
}

impl TrackedView {
    pub open spec fn has_header(self) -> bool {
        self.stream.header is Some
    }

    pub open spec fn finished(self) -> bool {
        self.stream.position.phase() == 3
    }

    /// Has bytes past `c` that are old enough to be merged.
    pub open spec fn candidate(self, c: nat) -> bool {
        self.has_header() && self.delayed_len > c
    }

    /// May still take part in the merge past `c`: it has a header and is either
    /// still sending or holds delayed bytes past `c`.
    pub open spec fn contributor(self, c: nat) -> bool {
        self.has_header() && (!self.finished() || self.delayed_len > c)
    }
}

/// Length of the window over which writers `i` and `j` are compared at `c`.
pub open spec fn window_len(ws: Seq<TrackedView>, i: int, j: int, c: nat, w: nat) -> nat {
    let a = (ws[i].delayed_len - c) as nat;
    let b = (ws[j].delayed_len - c) as nat;
    let m = if a < b { a } else { b };
    if m < w { m } else { w }
}

/// Length of the common run of `a` and `b` from `from + k`, counted from
/// `from`, at most `m`.
pub open spec fn common_prefix(a: Seq<u8>, b: Seq<u8>, from: int, k: nat, m: nat) -> nat
    decreases m - k,
{
    if k >= m {
        m
    } else if a[from + k] != b[from + k] {
        k
    } else {
        common_prefix(a, b, from, k + 1, m)
    }
}

/// How many bytes from `c` writers `i` and `j` agree on, within their common window.
pub open spec fn common_len(ws: Seq<TrackedView>, i: int, j: int, c: nat, w: nat) -> nat {
    common_prefix(ws[i].stream.data, ws[j].stream.data, c as int, 0, window_len(ws, i, j, c, w))
}

/// Writers `i` and `j` agree on at least the first byte at `c`.
pub open spec fn agree(ws: Seq<TrackedView>, i: int, j: int, c: nat, w: nat) -> bool {
    common_len(ws, i, j, c, w) >= 1
}

/// Number of candidates among the first `n` writers that agree with writer `i`.
pub open spec fn count_agree(ws: Seq<TrackedView>, i: int, c: nat, w: nat, n: int) -> nat
    decreases n,
{
    if n <= 0 {
        0
    } else {
        count_agree(ws, i, c, w, n - 1) + if ws[n - 1].candidate(c) && agree(ws, i, n - 1, c, w) {
            1nat
        } else {
            0nat
        }
    }
}

/// Number of contributors among the first `n` writers.
pub open spec fn count_contributors(ws: Seq<TrackedView>, c: nat, n: int) -> nat
    decreases n,
{
    if n <= 0 {
        0
    } else {
        count_contributors(ws, c, n - 1) + if ws[n - 1].contributor(c) {
            1nat
        } else {
            0nat
        }
    }
}

/// The candidate among the first `n` writers with the most agreeing candidates,
/// the earliest one on a tie, and that number.
pub open spec fn leader(ws: Seq<TrackedView>, c: nat, w: nat, n: int) -> (int, nat)
    decreases n,
{
    if n <= 0 {
        (0, 0)
    } else {
        let (b, k) = leader(ws, c, w, n - 1);
        let cnt = if ws[n - 1].candidate(c) {
            count_agree(ws, n - 1, c, w, ws.len() as int)
        } else {
            0
        };
        if cnt > k {
            (n - 1, cnt)
        } else {
            (b, k)
        }
    }
}

/// How far the group of writer `i` can advance at `c`: the shortest stretch on
/// which one of the first `n` writers agrees with it, at most `w`.
pub open spec fn advance(ws: Seq<TrackedView>, i: int, c: nat, w: nat, n: int) -> nat
    decreases n,
{
    if n <= 0 {
        w
    } else {
        let a = advance(ws, i, c, w, n - 1);
        if ws[n - 1].candidate(c) && agree(ws, i, n - 1, c, w) {
            let d = common_len(ws, i, n - 1, c, w);
            if d < a { d } else { a }
        } else {
            a
        }
    }
}

/// How many agreeing writers the merge needs at `c`: the quorum, or fewer when
/// fewer writers can still take part.
pub open spec fn needed(ws: Seq<TrackedView>, c: nat, q: nat) -> nat {
    let n = count_contributors(ws, c, ws.len() as int);
    if q < n { q } else { n }
}

/// The header of the earliest writer at or after `k` that has one.
pub open spec fn first_header(ws: Seq<TrackedView>, k: int) -> Option<Seq<u8>>
    decreases ws.len() - k,
{
    if k >= ws.len() || k < 0 {
        None
    } else if ws[k].has_header() {
        ws[k].stream.header
    } else {
        first_header(ws, k + 1)
    }
}

/// What one merge step appends at the end `c` of the merged body, if anything.
pub open spec fn merge_step_bytes(ws: Seq<TrackedView>, m: MergedReplayView, q: nat, w: nat) -> Option<Seq<u8>> {
    let c = m.data.len();
    let (i, k) = leader(ws, c, w, ws.len() as int);
    let adv = advance(ws, i, c, w, ws.len() as int);
    if m.header is Some && !m.finished && needed(ws, c, q) > 0 && k >= needed(ws, c, q)
        && m.header_len() + c + adv <= usize::MAX {
        Some(ws[i].stream.data.subrange(c as int, (c + adv) as int))
    } else {
        None
    }
}

/// The merged replay after one merge step.
pub open spec fn merge_step(ws: Seq<TrackedView>, m: MergedReplayView, q: nat, w: nat) -> MergedReplayView {
    match merge_step_bytes(ws, m, q, w) {
        Some(b) => MergedReplayView {
            data: m.data + b,
            delayed_data_len: m.data.len() + b.len(),
            ..m
        },
        None => m,
    }
}

/// The merged replay once the header is installed, if it was missing and a
/// writer has one.
pub open spec fn with_header(ws: Seq<TrackedView>, m: MergedReplayView) -> MergedReplayView {
    if m.header is None && !m.finished && first_header(ws, 0) is Some {
        MergedReplayView { header: first_header(ws, 0), ..m }
    } else {
        m
    }
}

/// The merged replay after merge steps are taken until none applies.
pub open spec fn merge_all(ws: Seq<TrackedView>, m: MergedReplayView, q: nat, w: nat) -> MergedReplayView
    decreases usize::MAX - m.data.len(),
{
    match merge_step_bytes(ws, m, q, w) {
        Some(b) => if b.len() > 0 && m.data.len() + b.len() <= usize::MAX {
            merge_all(ws, merge_step(ws, m, q, w), q, w)
        } else {
            m
        },
        None => m,
    }
}

/// The merged replay brought up to date with the writers.
pub open spec fn settle(ws: Seq<TrackedView>, m: MergedReplayView, q: nat, w: nat) -> MergedReplayView {
    merge_all(ws, with_header(ws, m), q, w)
}

pub struct QuorumView {
    pub writers: Seq<TrackedView>,
    pub merged: MergedReplayView,
    pub quorum: nat,
    pub window: nat,
    pub next_token: u64,
}

pub struct TrackedWriter {
    token: u64,
    stream: WriterReplay,
    delayed_len: usize,
}

impl TrackedWriter {
    pub closed spec fn view_of(self) -> TrackedView {
        TrackedView { token: self.token, stream: self.stream@, delayed_len: self.delayed_len as nat }
    }
}

/// Merges the writers of one match: a window of body bytes is published once
/// enough writers agree on it, and only after each of them has held it for
/// the configured delay.
pub struct QuorumMergeStrategy {
    writers: Vec<TrackedWriter>,
    merged: MergedReplay,
    quorum: usize,
    window: usize,
    next_token: u64,
}

impl View for QuorumMergeStrategy {
    type V = QuorumView;

    closed spec fn view(&self) -> QuorumView {
        QuorumView {
            writers: self.writers@.map_values(|t: TrackedWriter| t.view_of()),
            merged: self.merged@,
            quorum: self.quorum as nat,
            window: self.window as nat,
            next_token: self.next_token,
        }
    }
}

impl QuorumView {
    pub open spec fn wf(self) -> bool {
        &&& self.merged.wf()
        &&& self.quorum >= 1
        &&& self.window >= 1
        &&& forall|i: int| 0 <= i < self.writers.len() ==> {
            &&& (#[trigger] self.writers[i]).stream.wf()
            &&& self.writers[i].delayed_len <= self.writers[i].stream.data.len()
            &&& self.writers[i].token < self.next_token
        }
        &&& forall|i: int, j: int| 0 <= i < j < self.writers.len()
            ==> (#[trigger] self.writers[i]).token != (#[trigger] self.writers[j]).token
    }

    pub open spec fn index_of(self, token: u64) -> int {
        choose|i: int| 0 <= i < self.writers.len() && self.writers[i].token == token
    }

    pub open spec fn tracks(self, token: u64) -> bool {
        exists|i: int| 0 <= i < self.writers.len() && self.writers[i].token == token
    }
}


impl MergeStrategy for QuorumMergeStrategy {
    open spec fn inv(&self) -> bool {
        self@.wf()
    }

    open spec fn has_room(&self) -> bool {
        self@.next_token < u64::MAX
    }

    fn replay_added(&mut self) -> (r: u64) {
        QuorumMergeStrategy::replay_added(self)
    }

    fn replay_removed(&mut self, id: u64) {
        QuorumMergeStrategy::replay_removed(self, id)
    }

    fn replay_header_added(&mut self, id: u64, header: ReplayHeader) {
        QuorumMergeStrategy::replay_header_added(self, id, header)
    }

    fn replay_new_data(&mut self, id: u64, data: &[u8]) {
        QuorumMergeStrategy::replay_new_data(self, id, data)
    }

    fn replay_new_delayed_data(&mut self, id: u64, data_len: usize) {
        QuorumMergeStrategy::replay_new_delayed_data(self, id, data_len)
    }

    fn get_merged_replay(&self) -> &MergedReplay {
        QuorumMergeStrategy::get_merged_replay(self)
    }
}

proof fn lemma_count_agree_bound(ws: Seq<TrackedView>, i: int, c: nat, w: nat, n: int)
    requires
        0 <= n,
    ensures
        count_agree(ws, i, c, w, n) <= n,
    decreases n,
{
    if n > 0 {
        lemma_count_agree_bound(ws, i, c, w, n - 1);
    }
}

proof fn lemma_count_contributors_bound(ws: Seq<TrackedView>, c: nat, n: int)
    requires
        0 <= n,
    ensures
        count_contributors(ws, c, n) <= n,
    decreases n,
{
    if n > 0 {
        lemma_count_contributors_bound(ws, c, n - 1);
    }
}

proof fn lemma_leader(ws: Seq<TrackedView>, c: nat, w: nat, n: int)
    requires
        0 <= n <= ws.len(),
    ensures
        leader(ws, c, w, n).1 > 0 ==> 0 <= leader(ws, c, w, n).0 < n && ws[leader(ws, c, w, n).0].candidate(c),
        leader(ws, c, w, n).1 > 0 ==> leader(ws, c, w, n).1 == count_agree(ws, leader(ws, c, w, n).0, c, w, ws.len() as int),
    decreases n,
{
    if n > 0 {
        lemma_leader(ws, c, w, n - 1);
    }
}

proof fn lemma_common_prefix(a: Seq<u8>, b: Seq<u8>, from: int, k: nat, m: nat)
    requires
        k <= m,
        0 <= from,
        from + m <= a.len(),
        from + m <= b.len(),
        forall|t: int| from <= t < from + k ==> #[trigger] a[t] == b[t],
    ensures
        k <= common_prefix(a, b, from, k, m) <= m,
        forall|t: int| from <= t < from + common_prefix(a, b, from, k, m) ==> #[trigger] a[t] == b[t],
    decreases m - k,
{
    if k < m && a[from + k] == b[from + k] {
        lemma_common_prefix(a, b, from, k + 1, m);
    }
}

proof fn lemma_common_self(a: Seq<u8>, from: int, k: nat, m: nat)
    requires
        k <= m,
    ensures
        common_prefix(a, a, from, k, m) == m,
    decreases m - k,
{
    if k < m {
        lemma_common_self(a, from, k + 1, m);
    }
}

proof fn lemma_common_len(ws: Seq<TrackedView>, i: int, j: int, c: nat, w: nat)
    requires
        0 <= i < ws.len(),
        0 <= j < ws.len(),
        ws[i].delayed_len <= ws[i].stream.data.len(),
        ws[j].delayed_len <= ws[j].stream.data.len(),
        ws[i].delayed_len > c,
        ws[j].delayed_len > c,
    ensures
        common_len(ws, i, j, c, w) <= window_len(ws, i, j, c, w),
        window_len(ws, i, j, c, w) <= w,
        window_len(ws, i, j, c, w) <= ws[i].delayed_len - c,
        window_len(ws, i, j, c, w) <= ws[j].delayed_len - c,
        i == j ==> common_len(ws, i, j, c, w) == window_len(ws, i, j, c, w),
        ws[i].stream.data.subrange(c as int, (c + common_len(ws, i, j, c, w)) as int)
            == ws[j].stream.data.subrange(c as int, (c + common_len(ws, i, j, c, w)) as int),
{
    let a = ws[i].stream.data;
    let b = ws[j].stream.data;
    let m = window_len(ws, i, j, c, w);
    lemma_common_prefix(a, b, c as int, 0, m);
    if i == j {
        lemma_common_self(a, c as int, 0, m);
    }
    let l = common_len(ws, i, j, c, w);
    assert(a.subrange(c as int, (c + l) as int) =~= b.subrange(c as int, (c + l) as int));
}

proof fn lemma_advance(ws: Seq<TrackedView>, i: int, c: nat, w: nat, n: int)
    requires
        0 <= n <= ws.len(),
        0 <= i < ws.len(),
        ws[i].candidate(c),
        w >= 1,
        forall|j: int| 0 <= j < ws.len() ==> (#[trigger] ws[j]).delayed_len <= ws[j].stream.data.len(),
    ensures
        1 <= advance(ws, i, c, w, n) <= w,
        i < n ==> advance(ws, i, c, w, n) <= ws[i].delayed_len - c,
    decreases n,
{
    if n > 0 {
        lemma_advance(ws, i, c, w, n - 1);
        let j = n - 1;
        if ws[j].candidate(c) {
            lemma_common_len(ws, i, j, c, w);
        }
        if j == i {
            lemma_common_len(ws, i, i, c, w);
        }
    }
}

impl QuorumMergeStrategy {
    /// A strategy with quorum `quorum` and comparison window `window` bytes; a
    /// zero for either is taken as one.
    pub fn new(quorum: usize, window: usize) -> (r: Self)
        ensures
            r@.wf(),
            r@.writers.len() == 0,
            r@.merged == MergedReplayView::empty(),
            r@.quorum == if quorum == 0 { 1 } else { quorum },
            r@.window == if window == 0 { 1 } else { window },
    {
        let r = QuorumMergeStrategy {
            writers: Vec::new(),
            merged: MergedReplay::new(),
            quorum: if quorum == 0 { 1 } else { quorum },
            window: if window == 0 { 1 } else { window },
            next_token: 0,
        };
        assert(r@.writers =~= Seq::empty());
        r
    }

    pub fn get_merged_replay(&self) -> (r: &MergedReplay)
        ensures
            r@ == self@.merged,
    {
        &self.merged
    }

    fn common_len_exec(&self, i: usize, j: usize, c: usize) -> (r: usize)
        requires
            self@.wf(),
            i < self@.writers.len(),
            j < self@.writers.len(),
            self@.writers[i as int].candidate(c as nat),
            self@.writers[j as int].candidate(c as nat),
        ensures
            r == common_len(self@.writers, i as int, j as int, c as nat, self@.window),
    {
        let ghost ws = self@.writers;
        let a = &self.writers[i];
        let b = &self.writers[j];
        assert(ws[i as int] == a.view_of());
        assert(ws[j as int] == b.view_of());
        let da = a.delayed_len - c;
        let db = b.delayed_len - c;
        let mut m = if da < db { da } else { db };
        if self.window < m {
            m = self.window;
        }
        assert(m == window_len(ws, i as int, j as int, c as nat, self@.window));
        let xa = a.stream.get_data();
        let xb = b.stream.get_data();
        let end: usize = c + m;
        let mut k: usize = 0;
        while k < m
            invariant
                k <= m,
                end == c + m,
                end <= xa@.len(),
                end <= xb@.len(),
                i < ws.len(),
                j < ws.len(),
                ws == self@.writers,
                xa@ == ws[i as int].stream.data,
                xb@ == ws[j as int].stream.data,
                m == window_len(ws, i as int, j as int, c as nat, self@.window),
                common_len(ws, i as int, j as int, c as nat, self@.window)
                    == common_prefix(xa@, xb@, c as int, k as nat, m as nat),
            decreases m - k,
        {
            if xa[c + k] != xb[c + k] {
                return k;
            }
            k = k + 1;
        }
        m
    }

    fn agree_exec(&self, i: usize, j: usize, c: usize) -> (r: bool)
        requires
            self@.wf(),
            i < self@.writers.len(),
            j < self@.writers.len(),
            self@.writers[i as int].candidate(c as nat),
            self@.writers[j as int].candidate(c as nat),
        ensures
            r == agree(self@.writers, i as int, j as int, c as nat, self@.window),
    {
        self.common_len_exec(i, j, c) >= 1
    }

    fn count_agree_exec(&self, i: usize, c: usize) -> (r: usize)
        requires
            self@.wf(),
            i < self@.writers.len(),
            self@.writers[i as int].candidate(c as nat),
        ensures
            r == count_agree(self@.writers, i as int, c as nat, self@.window, self@.writers.len() as int),
    {
        let ghost ws = self@.writers;
        let mut n: usize = 0;
        let mut cnt: usize = 0;
        while n < self.writers.len()
            invariant
                n <= ws.len(),
                ws == self@.writers,
                self@.wf(),
                i < ws.len(),
                ws[i as int].candidate(c as nat),
                cnt == count_agree(ws, i as int, c as nat, self@.window, n as int),
            decreases ws.len() - n,
        {
            proof {
                lemma_count_agree_bound(ws, i as int, c as nat, self@.window, n as int);
            }
            let t = &self.writers[n];
            assert(ws[n as int] == t.view_of());
            if t.stream.get_header().is_some() && t.delayed_len > c {
                if self.agree_exec(i, n, c) {
                    cnt = cnt + 1;
                }
            }
            n = n + 1;
        }
        cnt
    }

    fn count_contributors_exec(&self, c: usize) -> (r: usize)
        requires
            self@.wf(),
        ensures
            r == count_contributors(self@.writers, c as nat, self@.writers.len() as int),
    {
        let ghost ws = self@.writers;
        let mut n: usize = 0;
        let mut cnt: usize = 0;
        while n < self.writers.len()
            invariant
                n <= ws.len(),
                ws == self@.writers,
                cnt == count_contributors(ws, c as nat, n as int),
            decreases ws.len() - n,
        {
            proof {
                lemma_count_contributors_bound(ws, c as nat, n as int);
            }
            let t = &self.writers[n];
            assert(ws[n as int] == t.view_of());
            if t.stream.get_header().is_some() && (!t.stream.position().is_finished() || t.delayed_len > c) {
                cnt = cnt + 1;
            }
            n = n + 1;
        }
        cnt
    }

    fn leader_exec(&self, c: usize) -> (r: (usize, usize))
        requires
            self@.wf(),
        ensures
            r.0 as int == leader(self@.writers, c as nat, self@.window, self@.writers.len() as int).0,
            r.1 as nat == leader(self@.writers, c as nat, self@.window, self@.writers.len() as int).1,
    {
        let ghost ws = self@.writers;
        let mut n: usize = 0;
        let mut best: usize = 0;
        let mut k: usize = 0;
        while n < self.writers.len()
            invariant
                n <= ws.len(),
                ws == self@.writers,
                self@.wf(),
                best as int == leader(ws, c as nat, self@.window, n as int).0,
                k as nat == leader(ws, c as nat, self@.window, n as int).1,
            decreases ws.len() - n,
        {
            let t = &self.writers[n];
            assert(ws[n as int] == t.view_of());
            let cnt = if t.stream.get_header().is_some() && t.delayed_len > c {
                self.count_agree_exec(n, c)
            } else {
                0
            };
            if cnt > k {
                best = n;
                k = cnt;
            }
            n = n + 1;
        }
        (best, k)
    }

    fn advance_exec(&self, i: usize, c: usize) -> (r: usize)
        requires
            self@.wf(),
            i < self@.writers.len(),
            self@.writers[i as int].candidate(c as nat),
        ensures
            r == advance(self@.writers, i as int, c as nat, self@.window, self@.writers.len() as int),
    {
        let ghost ws = self@.writers;
        let mut n: usize = 0;
        let mut a: usize = self.window;
        while n < self.writers.len()
            invariant
                n <= ws.len(),
                ws == self@.writers,
                self@.wf(),
                i < ws.len(),
                ws[i as int].candidate(c as nat),
                a == advance(ws, i as int, c as nat, self@.window, n as int),
            decreases ws.len() - n,
        {
            let t = &self.writers[n];
            assert(ws[n as int] == t.view_of());
            if t.stream.get_header().is_some() && t.delayed_len > c {
                let d = self.common_len_exec(i, n, c);
                if d >= 1 {
                    if d < a {
                        a = d;
                    }
                }
            }
            n = n + 1;
        }
        a
    }

    /// Takes one merge step; returns whether it appended anything.
    fn merge_once(&mut self) -> (r: bool)
        requires
            old(self)@.wf(),
        ensures
            final(self)@.wf(),
            final(self)@.writers == old(self)@.writers,
            final(self)@.quorum == old(self)@.quorum,
            final(self)@.window == old(self)@.window,
            final(self)@.next_token == old(self)@.next_token,
            final(self)@.merged == merge_step(old(self)@.writers, old(self)@.merged, old(self)@.quorum, old(self)@.window),
            r == (merge_step_bytes(old(self)@.writers, old(self)@.merged, old(self)@.quorum, old(self)@.window) is Some),
            r ==> final(self)@.merged.data.len() > old(self)@.merged.data.len(),
    {
        let ghost ws = self@.writers;
        let ghost m0 = self@.merged;
        let c = self.merged.get_data().len();
        if self.merged.get_header().is_none() || self.merged.is_finished() {
            return false;
        }
        let contributors = self.count_contributors_exec(c);
        let need = if self.quorum < contributors { self.quorum } else { contributors };
        let (i, k) = self.leader_exec(c);
        if need == 0 || k < need {
            return false;
        }
        proof {
            lemma_leader(ws, c as nat, self@.window, ws.len() as int);
        }
        let adv = self.advance_exec(i, c);
        proof {
            lemma_advance(ws, i as int, c as nat, self@.window, ws.len() as int);
        }
        let hlen = self.merged.header_len();
        if adv > usize::MAX - hlen - c {
            return false;
        }
        let until = c + adv;
        let ghost wi = self.writers@[i as int];
        assert(ws[i as int] == wi.view_of());
        self.merged.add_data(&self.writers[i].stream, until);
        self.merged.advance_delayed_data(until);
        proof {
            let b = ws[i as int].stream.data.subrange(c as int, until as int);
            assert(merge_step_bytes(ws, m0, self@.quorum, self@.window) == Some(b));
            assert(self@.merged.data == m0.data + b);
            assert(self@.writers =~= ws);
        }
        true
    }

    fn first_header_index(&self) -> (r: Option<usize>)
        ensures
            match r {
                Some(k) => k < self@.writers.len() && self@.writers[k as int].has_header()
                    && first_header(self@.writers, 0) == self@.writers[k as int].stream.header,
                None => first_header(self@.writers, 0) is None,
            },
    {
        let ghost ws = self@.writers;
        let mut k: usize = 0;
        while k < self.writers.len()
            invariant
                k <= ws.len(),
                ws == self@.writers,
                first_header(ws, 0) == first_header(ws, k as int),
            decreases ws.len() - k,
        {
            let t = &self.writers[k];
            assert(ws[k as int] == t.view_of());
            if t.stream.get_header().is_some() {
                return Some(k);
            }
            k = k + 1;
        }
        None
    }

    /// Brings the merged replay up to date: installs the header of the earliest
    /// writer that has one, then takes merge steps while any applies.
    fn settle(&mut self)
        requires
            old(self)@.wf(),
        ensures
            final(self)@.wf(),
            final(self)@.writers == old(self)@.writers,
            final(self)@.quorum == old(self)@.quorum,
            final(self)@.window == old(self)@.window,
            final(self)@.next_token == old(self)@.next_token,
            final(self)@.merged == settle(old(self)@.writers, old(self)@.merged, old(self)@.quorum, old(self)@.window),
    {
        let ghost ws = self@.writers;
        if self.merged.get_header().is_none() && !self.merged.is_finished() {
            match self.first_header_index() {
                Some(k) => {
                    let t = &self.writers[k];
                    assert(ws[k as int] == t.view_of());
                    let h = t.stream.get_header().unwrap();
                    let h2 = ReplayHeader { data: h.data.clone() };
                    self.merged.add_header(h2);
                    assert(self@.writers =~= ws);
                },
                None => {},
            }
        }
        let ghost m1 = self@.merged;
        assert(m1 == with_header(ws, old(self)@.merged));
        loop
            invariant
                self@.wf(),
                self@.writers == ws,
                self@.quorum == old(self)@.quorum,
                self@.window == old(self)@.window,
                self@.next_token == old(self)@.next_token,
                merge_all(ws, self@.merged, self@.quorum, self@.window) == merge_all(ws, m1, self@.quorum, self@.window),
            ensures
                self@.wf(),
                self@.writers == ws,
                self@.quorum == old(self)@.quorum,
                self@.window == old(self)@.window,
                self@.next_token == old(self)@.next_token,
                self@.merged == merge_all(ws, m1, self@.quorum, self@.window),
            decreases usize::MAX - self@.merged.data.len(),
        {
            let ghost before = self@.merged;
            let progressed = self.merge_once();
            if !progressed {
                assert(self@.merged == before);
                assert(merge_all(ws, before, self@.quorum, self@.window) == before);
                break;
            }
            proof {
                let b = merge_step_bytes(ws, before, self@.quorum, self@.window)->0;
                assert(self@.merged.data == before.data + b);
                assert(self@.merged.wf());
            }
        }
    }
}

impl QuorumView {
    /// The writers with `t` in place of the one with token `id`, if it is tracked.
    pub open spec fn with_writer(self, id: u64, t: TrackedView) -> Seq<TrackedView> {
        if self.tracks(id) {
            self.writers.update(self.index_of(id), t)
        } else {
            self.writers
        }
    }

    pub open spec fn writer(self, id: u64) -> TrackedView {
        self.writers[self.index_of(id)]
    }

    /// The state once the merge is brought up to date with `writers`.
    pub open spec fn with_writers(self, writers: Seq<TrackedView>) -> QuorumView {
        QuorumView { writers, merged: settle(writers, self.merged, self.quorum, self.window), ..self }
    }

    /// The state after writer `id` sent its header: taken when it is tracked
    /// and had not sent one.
    pub open spec fn after_header(self, id: u64, header: Seq<u8>) -> QuorumView {
        self.with_writers(
            if self.tracks(id) && self.writer(id).stream.position == StreamPosition::START {
                self.with_writer(id, TrackedView {
                    stream: WriterReplayView {
                        header: Some(header),
                        position: StreamPosition::HEADER,
                        ..self.writer(id).stream
                    },
                    ..self.writer(id)
                })
            } else {
                self.writers
            },
        )
    }

    /// The state after writer `id` sent body bytes `data`: taken when it is
    /// tracked, has sent its header, has not finished, and the body stays
    /// within the address space.
    pub open spec fn after_data(self, id: u64, data: Seq<u8>) -> QuorumView {
        self.with_writers(
            if self.tracks(id) && self.writer(id).stream.data.len() + data.len() <= usize::MAX
                && (self.writer(id).stream.position.phase() == 1
                    || self.writer(id).stream.position.phase() == 2) {
                self.with_writer(id, TrackedView {
                    stream: WriterReplayView {
                        data: self.writer(id).stream.data + data,
                        position: StreamPosition::DATA((self.writer(id).stream.data.len() + data.len()) as usize),
                        ..self.writer(id).stream
                    },
                    ..self.writer(id)
                })
            } else {
                self.writers
            },
        )
    }

    /// The state after writer `id` reported `len` delayed bytes: taken when it
    /// is tracked, does not go backwards and does not pass what was received.
    pub open spec fn after_delayed(self, id: u64, len: nat) -> QuorumView {
        self.with_writers(
            if self.tracks(id) && self.writer(id).delayed_len <= len <= self.writer(id).stream.data.len() {
                self.with_writer(id, TrackedView { delayed_len: len, ..self.writer(id) })
            } else {
                self.writers
            },
        )
    }

    /// The state after writer `id` finished sending.
    pub open spec fn after_removed(self, id: u64) -> QuorumView {
        self.with_writers(
            if self.tracks(id) {
                self.with_writer(id, TrackedView {
                    stream: WriterReplayView {
                        position: StreamPosition::FINISHED(self.writer(id).stream.data.len() as usize),
                        ..self.writer(id).stream
                    },
                    ..self.writer(id)
                })
            } else {
                self.writers
            },
        )
    }
}

impl QuorumMergeStrategy {
    fn find(&self, id: u64) -> (r: Option<usize>)
        requires
            self@.wf(),
        ensures
            match r {
                Some(i) => self@.tracks(id) && i as int == self@.index_of(id) && i < self@.writers.len(),
                None => !self@.tracks(id),
            },
    {
        let ghost ws = self@.writers;
        let mut i: usize = 0;
        while i < self.writers.len()
            invariant
                i <= ws.len(),
                ws == self@.writers,
                self@.wf(),
                forall|k: int| 0 <= k < i ==> (#[trigger] ws[k]).token != id,
            decreases ws.len() - i,
        {
            assert(ws[i as int] == self.writers@[i as int].view_of());
            if self.writers[i].token == id {
                proof {
                    let k = self@.index_of(id);
                    assert(self@.tracks(id));
                    assert(0 <= k < ws.len() && ws[k].token == id);
                    if k != i {
                        if k < i {
                            assert(ws[k].token != id);
                        } else {
                            assert(ws[i as int].token != ws[k].token);
                        }
                    }
                }
                return Some(i);
            }
            i = i + 1;
        }
        None
    }

    /// The token the next writer will get; `replay_added` needs it below `u64::MAX`.
    pub fn next_token(&self) -> (r: u64)
        ensures
            r == self@.next_token,
    {
        self.next_token
    }

    /// How many body bytes writer `id` has sent, if it is tracked.
    pub fn writer_data_len(&self, id: u64) -> (r: Option<usize>)
        requires
            self@.wf(),
        ensures
            match r {
                Some(n) => self@.tracks(id) && n == self@.writer(id).stream.data.len(),
                None => !self@.tracks(id),
            },
    {
        match self.find(id) {
            Some(i) => {
                assert(self@.writers[i as int] == self.writers@[i as int].view_of());
                Some(self.writers[i].stream.get_data().len())
            },
            None => None,
        }
    }

    /// Starts tracking a new writer and returns its token.
    pub fn replay_added(&mut self) -> (r: u64)
        requires
            old(self)@.wf(),
            old(self)@.next_token < u64::MAX,
        ensures
            final(self)@.wf(),
            r == old(self)@.next_token,
            final(self)@.next_token == r + 1,
            final(self)@.writers == old(self)@.writers.push(TrackedView {
                token: r,
                stream: WriterReplayView { header: None, data: Seq::empty(), position: StreamPosition::START },
                delayed_len: 0,
            }),
            final(self)@.merged == old(self)@.merged,
            final(self)@.quorum == old(self)@.quorum,
            final(self)@.window == old(self)@.window,
    {
        let token = self.next_token;
        let stream = WriterReplay::new();
        assert(stream@.data =~= Seq::empty());
        self.writers.push(TrackedWriter { token, stream, delayed_len: 0 });
        self.next_token = token + 1;
        proof {
            let nw = TrackedView {
                token,
                stream: WriterReplayView { header: None, data: Seq::empty(), position: StreamPosition::START },
                delayed_len: 0,
            };
            assert(self@.writers =~= old(self)@.writers.push(nw));
        }
        token
    }

    /// Records the header of writer `id`, if it is tracked and had none.
    pub fn replay_header_added(&mut self, id: u64, header: ReplayHeader)
        requires
            old(self)@.wf(),
        ensures
            final(self)@.wf(),
            final(self)@ == old(self)@.after_header(id, header.data@),
    {
        match self.find(id) {
            Some(i) => {
                if self.writers[i].stream.position() == StreamPosition::START {
                    self.writers[i].stream.add_header(header);
                    proof {
                        let t = old(self)@.writer(id);
                        let nt = TrackedView {
                            stream: WriterReplayView {
                                header: Some(header.data@),
                                position: StreamPosition::HEADER,
                                ..t.stream
                            },
                            ..t
                        };
                        assert(self@.writers =~= old(self)@.writers.update(i as int, nt));
                        assert(self@.writers[i as int] == nt);
                    }
                }
            },
            None => {},
        }
        self.settle();
    }

    /// Records body bytes that writer `id` sent, if it is tracked and the body
    /// stays within the address space.
    pub fn replay_new_data(&mut self, id: u64, data: &[u8])
        requires
            old(self)@.wf(),
        ensures
            final(self)@.wf(),
            final(self)@ == old(self)@.after_data(id, data@),
    {
        match self.find(id) {
            Some(i) => {
                let len = self.writers[i].stream.get_data().len();
                if data.len() <= usize::MAX - len {
                    assert(self@.writers[i as int] == self.writers@[i as int].view_of());
                    self.writers[i].stream.add_data(data);
                    proof {
                        let t = old(self)@.writer(id);
                        if t.stream.position.phase() == 1 || t.stream.position.phase() == 2 {
                            let nt = TrackedView {
                                stream: WriterReplayView {
                                    data: t.stream.data + data@,
                                    position: StreamPosition::DATA((t.stream.data.len() + data@.len()) as usize),
                                    ..t.stream
                                },
                                ..t
                            };
                            assert(self@.writers =~= old(self)@.writers.update(i as int, nt));
                        } else {
                            assert(self@.writers =~= old(self)@.writers);
                        }
                    }
                }
            },
            None => {},
        }
        self.settle();
    }

    /// Records that writer `id` has held its first `data_len` body bytes for the
    /// configured delay. A length that would move backwards or past the bytes
    /// received is ignored.
    pub fn replay_new_delayed_data(&mut self, id: u64, data_len: usize)
        requires
            old(self)@.wf(),
        ensures
            final(self)@.wf(),
            final(self)@ == old(self)@.after_delayed(id, data_len as nat),
    {
        match self.find(id) {
            Some(i) => {
                assert(self@.writers[i as int] == self.writers@[i as int].view_of());
                if self.writers[i].delayed_len <= data_len && data_len <= self.writers[i].stream.get_data().len() {
                    self.writers[i].delayed_len = data_len;
                    proof {
                        let t = old(self)@.writer(id);
                        assert(self@.writers =~= old(self)@.writers.update(i as int, TrackedView { delayed_len: data_len as nat, ..t }));
                    }
                }
            },
            None => {},
        }
        self.settle();
    }

    /// Records that writer `id` has finished sending. What it holds past the
    /// merged body still counts until it can no longer be merged.
    pub fn replay_removed(&mut self, id: u64)
        requires
            old(self)@.wf(),
        ensures
            final(self)@.wf(),
            final(self)@ == old(self)@.after_removed(id),
    {
        match self.find(id) {
            Some(i) => {
                assert(self@.writers[i as int] == self.writers@[i as int].view_of());
                self.writers[i].stream.finish();
                proof {
                    let t = old(self)@.writer(id);
                    let nt = TrackedView {
                        stream: WriterReplayView {
                            position: StreamPosition::FINISHED(t.stream.data.len() as usize),
                            ..t.stream
                        },
                        ..t
                    };
                    assert(self@.writers =~= old(self)@.writers.update(i as int, nt));
                }
            },
            None => {},
        }
        self.settle();
    }

    /// Ends the merge: the whole merged body is published and frozen.
    pub fn finalize(&mut self)
        requires
            old(self)@.wf(),
        ensures
            final(self)@.wf(),
            final(self)@.writers == old(self)@.writers,
            final(self)@.merged == (MergedReplayView {
                delayed_data_len: old(self)@.merged.data.len(),
                finished: true,
                ..old(self)@.merged
            }),
            final(self)@.quorum == old(self)@.quorum,
            final(self)@.window == old(self)@.window,
            final(self)@.next_token == old(self)@.next_token,
    {
        self.merged.finish();
    }
}

proof fn lemma_single_writer_merge_all(t: TrackedView, m: MergedReplayView, q: nat, w: nat)
    requires
        t.has_header(),
        t.delayed_len <= t.stream.data.len(),
        q >= 1,
        w >= 1,
        m.header is Some,
        !m.finished,
        m.data.len() <= t.delayed_len,
        m.data == t.stream.data.subrange(0, m.data.len() as int),
        m.header_len() + t.delayed_len <= usize::MAX,
    ensures
        merge_all(seq![t], m, q, w) == (MergedReplayView {
            data: t.stream.data.subrange(0, t.delayed_len as int),
            delayed_data_len: if m.data.len() == t.delayed_len { m.delayed_data_len } else { t.delayed_len },
            ..m
        }),
    decreases t.delayed_len - m.data.len(),
{
    let ws = seq![t];
    let c = m.data.len();
    assert(ws[0] == t);
    assert(count_contributors(ws, c, 0) == 0);
    assert(count_agree(ws, 0, c, w, 0) == 0);
    assert(leader(ws, c, w, 0) == (0int, 0nat));
    if c < t.delayed_len {
        lemma_common_len(ws, 0, 0, c, w);
        assert(agree(ws, 0, 0, c, w));
        assert(count_contributors(ws, c, 1) == 1);
        assert(needed(ws, c, q) == 1);
        assert(count_agree(ws, 0, c, w, 1) == 1);
        assert(leader(ws, c, w, 1) == (0int, 1nat));
        let d = (t.delayed_len - c) as nat;
        let adv = if d < w { d } else { w };
        assert(advance(ws, 0, c, w, 0) == w);
        assert(ws[0].candidate(c));
        assert(advance(ws, 0, c, w, 1) == adv);
        let b = t.stream.data.subrange(c as int, (c + adv) as int);
        assert(merge_step_bytes(ws, m, q, w) == Some(b));
        let m2 = merge_step(ws, m, q, w);
        assert(m2.data =~= t.stream.data.subrange(0, (c + adv) as int));
        lemma_single_writer_merge_all(t, m2, q, w);
    } else {
        assert(t.stream.data.subrange(0, t.delayed_len as int) == m.data);
        assert(leader(ws, c, w, 1).1 == 0);
        assert(merge_step_bytes(ws, m, q, w) is None);
    }
}

/// With a single writer, the merge publishes exactly the body bytes that writer
/// has held for the delay, after its header: a reader receives what the writer
/// sent.
pub proof fn lemma_single_writer_round_trip(t: TrackedView, q: nat, w: nat)
    requires
        t.has_header(),
        t.delayed_len <= t.stream.data.len(),
        q >= 1,
        w >= 1,
        t.stream.header->0.len() + t.delayed_len <= usize::MAX,
    ensures
        settle(seq![t], MergedReplayView::empty(), q, w) == (MergedReplayView {
            header: t.stream.header,
            data: t.stream.data.subrange(0, t.delayed_len as int),
            delayed_data_len: t.delayed_len,
            finished: false,
        }),
        settle(seq![t], MergedReplayView::empty(), q, w).visible()
            == t.stream.header->0 + t.stream.data.subrange(0, t.delayed_len as int),
{
    let ws = seq![t];
    assert(ws[0] == t);
    assert(first_header(ws, 0) == t.stream.header);
    let m = with_header(ws, MergedReplayView::empty());
    assert(m.data =~= t.stream.data.subrange(0, 0));
    lemma_single_writer_merge_all(t, m, q, w);
    let r = settle(ws, MergedReplayView::empty(), q, w);
    assert(r.data.subrange(0, r.delayed_data_len as int) =~= r.data);
}

/// Writer `t` has held the bytes `b` at `c` for the delay.
pub open spec fn holds_at(t: TrackedView, c: nat, b: Seq<u8>) -> bool {
    &&& t.candidate(c)
    &&& c + b.len() <= t.delayed_len
    &&& t.delayed_len <= t.stream.data.len()
    &&& t.stream.data.subrange(c as int, (c + b.len()) as int) == b
}

/// Number of writers among the first `n` that hold `b` at `c`.
pub open spec fn count_holding(ws: Seq<TrackedView>, c: nat, b: Seq<u8>, n: int) -> nat
    decreases n,
{
    if n <= 0 {
        0
    } else {
        count_holding(ws, c, b, n - 1) + if holds_at(ws[n - 1], c, b) {
            1nat
        } else {
            0nat
        }
    }
}

proof fn lemma_advance_le(ws: Seq<TrackedView>, i: int, c: nat, w: nat, n: int, j: int)
    requires
        0 <= j < n <= ws.len(),
        ws[j].candidate(c),
        agree(ws, i, j, c, w),
    ensures
        advance(ws, i, c, w, n) <= common_len(ws, i, j, c, w),
    decreases n,
{
    if j < n - 1 {
        lemma_advance_le(ws, i, c, w, n - 1, j);
    }
}

proof fn lemma_agreeing_hold(ws: Seq<TrackedView>, i: int, c: nat, w: nat, b: Seq<u8>, n: int)
    requires
        0 <= n <= ws.len(),
        0 <= i < ws.len(),
        ws[i].candidate(c),
        w >= 1,
        forall|j: int| 0 <= j < ws.len() ==> (#[trigger] ws[j]).delayed_len <= ws[j].stream.data.len(),
        b == ws[i].stream.data.subrange(c as int, (c + advance(ws, i, c, w, ws.len() as int)) as int),
    ensures
        count_agree(ws, i, c, w, n) <= count_holding(ws, c, b, n),
    decreases n,
{
    if n > 0 {
        lemma_agreeing_hold(ws, i, c, w, b, n - 1);
        let j = n - 1;
        if ws[j].candidate(c) && agree(ws, i, j, c, w) {
            let adv = advance(ws, i, c, w, ws.len() as int);
            lemma_advance(ws, i, c, w, ws.len() as int);
            lemma_advance_le(ws, i, c, w, ws.len() as int, j);
            lemma_common_len(ws, i, j, c, w);
            let l = common_len(ws, i, j, c, w);
            let si = ws[i].stream.data.subrange(c as int, (c + l) as int);
            let sj = ws[j].stream.data.subrange(c as int, (c + l) as int);
            assert(ws[j].stream.data.subrange(c as int, (c + adv) as int) =~= sj.subrange(0, adv as int));
            assert(b =~= si.subrange(0, adv as int));
            assert(holds_at(ws[j], c, b));
        }
    }
}

/// Every window the merge publishes is held, at the same place, by at least as
/// many writers as the quorum asks for (fewer only when fewer writers can
/// still take part), and by at least one.
pub proof fn lemma_quorum_agreement(ws: Seq<TrackedView>, m: MergedReplayView, q: nat, w: nat)
    requires
        w >= 1,
        forall|j: int| 0 <= j < ws.len() ==> (#[trigger] ws[j]).delayed_len <= ws[j].stream.data.len(),
        merge_step_bytes(ws, m, q, w) is Some,
    ensures
        ({
            let c = m.data.len();
            let b = merge_step_bytes(ws, m, q, w)->0;
            &&& b.len() >= 1
            &&& needed(ws, c, q) >= 1
            &&& count_holding(ws, c, b, ws.len() as int) >= needed(ws, c, q)
        }),
{
    let c = m.data.len();
    let (i, k) = leader(ws, c, w, ws.len() as int);
    lemma_leader(ws, c, w, ws.len() as int);
    assert(k >= needed(ws, c, q) && needed(ws, c, q) > 0);
    assert(ws[i].candidate(c));
    assert(ws[i].delayed_len <= ws[i].stream.data.len());
    lemma_advance(ws, i, c, w, ws.len() as int);
    let b = merge_step_bytes(ws, m, q, w)->0;
    assert(b.len() == advance(ws, i, c, w, ws.len() as int));
    lemma_agreeing_hold(ws, i, c, w, b, ws.len() as int);
}
} // verus!
