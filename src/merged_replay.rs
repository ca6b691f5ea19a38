use vstd::prelude::*;

use crate::writer_replay::WriterReplay;

verus! {

/// The header bytes that open a replay stream.
#[derive(Clone, Debug)]
pub struct ReplayHeader {
    pub data: Vec<u8>,
}

/// The authoritative merged replay of one match, as its contracts see it.
pub struct MergedReplayView {
    pub header: Option<Seq<u8>>,
    pub data: Seq<u8>,
    pub delayed_data_len: nat,
    pub finished: bool,
}

impl MergedReplayView {
    /// A replay with no header, no body and nothing published.
    pub open spec fn empty() -> MergedReplayView {
        MergedReplayView { header: None, data: Seq::empty(), delayed_data_len: 0, finished: false }
    }

    pub open spec fn header_len(self) -> nat {
        match self.header {
            Some(h) => h.len(),
            None => 0,
        }
    }

    pub open spec fn header_bytes(self) -> Seq<u8> {
        match self.header {
            Some(h) => h,
            None => Seq::empty(),
        }
    }

    /// What readers may see: the header followed by the published prefix of the body.
    pub open spec fn visible(self) -> Seq<u8> {
        self.header_bytes() + self.data.subrange(0, self.delayed_data_len as int)
    }

    pub open spec fn wf(self) -> bool {
        &&& self.delayed_data_len <= self.data.len()
        &&& self.header is None ==> self.data.len() == 0
        &&& self.finished ==> self.delayed_data_len == self.data.len()
        &&& self.header_len() + self.data.len() <= usize::MAX
    }

    /// `next` is a state that `self` can evolve into: the body only grows, the
    /// published prefix only grows, and a finished replay no longer changes.
    pub open spec fn evolves_to(self, next: MergedReplayView) -> bool {
        &&& self.data.is_prefix_of(next.data)
        &&& self.delayed_data_len <= next.delayed_data_len
        &&& self.header is Some ==> next.header == self.header
        &&& self.finished ==> next == self
    }
}

/// The merged replay: a header set once, an append-only body, and the length of
/// the body prefix that readers may already see.
pub struct MergedReplay {
    data: Vec<u8>,
    header: Option<ReplayHeader>,
    delayed_data_len: usize,
    finished: bool,
}

impl View for MergedReplay {
    type V = MergedReplayView;

    closed spec fn view(&self) -> MergedReplayView {
        MergedReplayView {
            header: match self.header {
                Some(h) => Some(h.data@),
                None => None,
            },
            data: self.data@,
            delayed_data_len: self.delayed_data_len as nat,
            finished: self.finished,
        }
    }
}

impl MergedReplay {
    pub fn new() -> (r: Self)
        ensures
            r@.wf(),
            r@ == MergedReplayView::empty(),
    {
        let r = MergedReplay { data: Vec::new(), header: None, delayed_data_len: 0, finished: false };
        assert(r@.data =~= Seq::empty());
        r
    }

    pub fn header_len(&self) -> (r: usize)
        ensures
            r == self@.header_len(),
    {
        match &self.header {
            Some(h) => h.data.len(),
            None => 0,
        }
    }

    pub fn delayed_data_len(&self) -> (r: usize)
        ensures
            r == self@.delayed_data_len,
    {
        self.delayed_data_len
    }

    /// Length of what readers may see: header and published body.
    pub fn delayed_len(&self) -> (r: usize)
        requires
            self@.wf(),
        ensures
            r == self@.visible().len(),
            r == self@.header_len() + self@.delayed_data_len,
    {
        self.delayed_data_len + self.header_len()
    }

    pub fn is_finished(&self) -> (r: bool)
        ensures
            r == self@.finished,
    {
        self.finished
    }

    /// Installs the header; it comes before any body byte and is set once.
    pub fn add_header(&mut self, header: ReplayHeader)
        requires
            old(self)@.wf(),
            !old(self)@.finished,
            old(self)@.header is None,
        ensures
            final(self)@.wf(),
            final(self)@ == (MergedReplayView { header: Some(header.data@), ..old(self)@ }),
            old(self)@.evolves_to(final(self)@),
    {
        let _hlen = header.data.len();
        self.header = Some(header);
    }

    pub fn get_header(&self) -> (r: Option<&ReplayHeader>)
        ensures
            match r {
                Some(h) => self@.header == Some(h.data@),
                None => self@.header is None,
            },
    {
        self.header.as_ref()
    }

    /// Appends the writer's body bytes from the current end of the merged body
    /// up to `until`.
    pub fn add_data(&mut self, writer: &WriterReplay, until: usize)
        requires
            old(self)@.wf(),
            !old(self)@.finished,
            old(self)@.header is Some,
            old(self)@.data.len() <= until <= writer@.data.len(),
            old(self)@.header_len() + until <= usize::MAX,
        ensures
            final(self)@.wf(),
            final(self)@ == (MergedReplayView {
                data: old(self)@.data + writer@.data.subrange(old(self)@.data.len() as int, until as int),
                ..old(self)@
            }),
            old(self)@.evolves_to(final(self)@),
    {
        let wdata = writer.get_data();
        let from = self.data.len();
        let mut i: usize = from;
        while i < until
            invariant
                from <= i <= until,
                until <= wdata@.len(),
                wdata@ == writer@.data,
                self.data@ == old(self).data@ + wdata@.subrange(from as int, i as int),
                self.header == old(self).header,
                self.delayed_data_len == old(self).delayed_data_len,
                self.finished == old(self).finished,
            decreases until - i,
        {
            self.data.push(wdata[i]);
            i = i + 1;
            assert(wdata@.subrange(from as int, i as int) =~= wdata@.subrange(from as int, i - 1).push(wdata@[i - 1]));
        }
        proof {
            assert(old(self)@.data.is_prefix_of(self@.data));
        }
    }

    pub fn get_data(&self) -> (r: &Vec<u8>)
        ensures
            r@ == self@.data,
    {
        &self.data
    }

    /// Publishes the body prefix of length `len` to readers.
    pub fn advance_delayed_data(&mut self, len: usize)
        requires
            old(self)@.wf(),
            !old(self)@.finished,
            old(self)@.delayed_data_len <= len <= old(self)@.data.len(),
        ensures
            final(self)@.wf(),
            final(self)@ == (MergedReplayView { delayed_data_len: len as nat, ..old(self)@ }),
            old(self)@.evolves_to(final(self)@),
    {
        self.delayed_data_len = len;
        proof {
            assert(old(self)@.data.is_prefix_of(self@.data));
        }
    }

    /// Publishes the whole body and freezes the replay.
    pub fn finish(&mut self)
        requires
            old(self)@.wf(),
        ensures
            final(self)@.wf(),
            final(self)@ == (MergedReplayView {
                delayed_data_len: old(self)@.data.len(),
                finished: true,
                ..old(self)@
            }),
            old(self)@.evolves_to(final(self)@),
    {
        self.delayed_data_len = self.data.len();
        self.finished = true;
        proof {
            assert(old(self)@.data.is_prefix_of(self@.data));
        }
    }

    /// Copies up to `max` visible bytes starting at `start`. A read that starts in
    /// the header stops at the header's end.
    pub fn read_at(&self, start: usize, max: usize) -> (r: Vec<u8>)
        requires
            self@.wf(),
        ensures
            start >= self@.visible().len() ==> r@.len() == 0,
            start < self@.visible().len() ==> r@ == self@.visible().subrange(
                start as int,
                read_end(self@, start as int, max as int),
            ),
            r@.len() <= max,
    {
        let mut out: Vec<u8> = Vec::new();
        let total = self.delayed_len();
        if start >= total {
            return out;
        }
        let hlen = self.header_len();
        let ghost vis = self@.visible();
        if start < hlen {
            let h = self.header.as_ref().unwrap();
            let end = if max < hlen - start { start + max } else { hlen };
            let mut i: usize = start;
            while i < end
                invariant
                    start <= i <= end,
                    end <= hlen,
                    hlen == h.data@.len(),
                    self@.header == Some(h.data@),
                    vis == self@.visible(),
                    out@ == vis.subrange(start as int, i as int),
                decreases end - i,
            {
                assert(vis[i as int] == h.data@[i as int]);
                out.push(h.data[i]);
                i = i + 1;
                assert(out@ =~= vis.subrange(start as int, i as int));
            }
        } else {
            let dstart = start - hlen;
            let end = if max < self.delayed_data_len - dstart { dstart + max } else { self.delayed_data_len };
            let mut i: usize = dstart;
            while i < end
                invariant
                    dstart <= i <= end,
                    end <= self.delayed_data_len,
                    self@.wf(),
                    hlen == self@.header_len(),
                    vis == self@.visible(),
                    out@ == vis.subrange(start as int, (hlen + i) as int),
                    start == hlen + dstart,
                decreases end - i,
            {
                assert(vis[hlen + i] == self.data@[i as int]);
                out.push(self.data[i]);
                i = i + 1;
                assert(out@ =~= vis.subrange(start as int, (hlen + i) as int));
            }
        }
        out
    }
}

/// Where a read of at most `max` bytes from `start` ends: at the header's end
/// when it starts inside the header, else at the end of the visible bytes.
pub open spec fn read_end(m: MergedReplayView, start: int, max: int) -> int {
    let limit = if start < m.header_len() { m.header_len() as int } else { m.visible().len() as int };
    if start + max < limit { start + max } else { limit }
}


/// The history of a merged replay: every change keeps it well formed and moves
/// it forward, so the published length never passes the body, neither ever
/// shrinks, and a finished replay has published all of its body and stays as
/// it is.
pub proof fn lemma_merged_replay_history(a: MergedReplayView, b: MergedReplayView, c: MergedReplayView)
    ensures
        a.evolves_to(a),
        a.evolves_to(b) && b.evolves_to(c) ==> a.evolves_to(c),
        a.evolves_to(b) ==> a.data.len() <= b.data.len() && a.delayed_data_len <= b.delayed_data_len,
        a.wf() ==> a.delayed_data_len <= a.data.len(),
        a.wf() && a.finished ==> a.delayed_data_len == a.data.len(),
        a.finished && a.evolves_to(b) ==> b == a,
{
    assert(a.data.is_prefix_of(a.data));
    if a.evolves_to(b) && b.evolves_to(c) {
        assert(a.data.is_prefix_of(c.data));
    }
}
/// A finished replay shows readers its whole stream: the header followed by
/// every body byte.
pub proof fn lemma_finished_replay_visible(m: MergedReplayView)
    requires
        m.wf(),
        m.finished,
    ensures
        m.visible() == m.header_bytes() + m.data,
{
    assert(m.data.subrange(0, m.delayed_data_len as int) =~= m.data);
}

} // verus!
