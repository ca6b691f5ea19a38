use vstd::prelude::*;

use crate::merged_replay::ReplayHeader;
use crate::position::StreamPosition;

verus! {

/// One writer connection's stream, as its contracts see it.
pub struct WriterReplayView {
    pub header: Option<Seq<u8>>,
    pub data: Seq<u8>,
    pub position: StreamPosition,
}

impl WriterReplayView {
    pub open spec fn wf(self) -> bool {
        match self.position {
            StreamPosition::START => self.header is None && self.data.len() == 0,
            StreamPosition::HEADER => self.header is Some && self.data.len() == 0,
            StreamPosition::DATA(n) => n == self.data.len(),
            StreamPosition::FINISHED(n) => n == self.data.len(),
        }
    }
}

/// The bytes one writer has sent for a match: an optional header, then an
/// append-only body. Its position only moves forward.
pub struct WriterReplay {
    header: Option<ReplayHeader>,
    data: Vec<u8>,
    position: StreamPosition,
}

impl View for WriterReplay {
    type V = WriterReplayView;

    closed spec fn view(&self) -> WriterReplayView {
        WriterReplayView {
            header: match self.header {
                Some(h) => Some(h.data@),
                None => None,
            },
            data: self.data@,
            position: self.position,
        }
    }
}

impl WriterReplay {
    pub fn new() -> (r: Self)
        ensures
            r@.wf(),
            r@.position == StreamPosition::START,
            r@.header is None,
            r@.data.len() == 0,
    {
        WriterReplay { header: None, data: Vec::new(), position: StreamPosition::START }
    }

    pub fn get_data(&self) -> (r: &Vec<u8>)
        ensures
            r@ == self@.data,
    {
        &self.data
    }

    pub fn get_header(&self) -> (r: Option<&ReplayHeader>)
        ensures
            match r {
                Some(h) => self@.header == Some(h.data@),
                None => self@.header is None,
            },
    {
        self.header.as_ref()
    }

    pub fn position(&self) -> (r: StreamPosition)
        ensures
            r == self@.position,
    {
        self.position
    }

    /// Records the header that the writer sent.
    pub fn add_header(&mut self, header: ReplayHeader)
        requires
            old(self)@.wf(),
            old(self)@.position == StreamPosition::START,
        ensures
            final(self)@.wf(),
            final(self)@.header == Some(header.data@),
            final(self)@.data == old(self)@.data,
            final(self)@.position == StreamPosition::HEADER,
            old(self)@.position.le(final(self)@.position),
    {
        self.header = Some(header);
        self.position = StreamPosition::HEADER;
    }

    /// Appends body bytes; a stream that is finished or has no header takes no
    /// more bytes and stays as it is.
    pub fn add_data(&mut self, bytes: &[u8])
        requires
            old(self)@.wf(),
            old(self)@.data.len() + bytes@.len() <= usize::MAX,
        ensures
            final(self)@.wf(),
            final(self)@.header == old(self)@.header,
            old(self)@.position.le(final(self)@.position),
            if old(self)@.position.phase() == 1 || old(self)@.position.phase() == 2 {
                &&& final(self)@.data == old(self)@.data + bytes@
                &&& final(self)@.position == StreamPosition::DATA(final(self)@.data.len() as usize)
            } else {
                final(self)@ == old(self)@
            },
    {
        match self.position {
            StreamPosition::HEADER | StreamPosition::DATA(_) => {},
            _ => {
                return;
            },
        }
        let mut i: usize = 0;
        while i < bytes.len()
            invariant
                0 <= i <= bytes@.len(),
                self.data@ == old(self).data@ + bytes@.subrange(0, i as int),
                self.header == old(self).header,
                self.position == old(self).position,
                old(self).data@.len() + bytes@.len() <= usize::MAX,
            decreases bytes@.len() - i,
        {
            self.data.push(bytes[i]);
            i = i + 1;
            assert(bytes@.subrange(0, i as int) =~= bytes@.subrange(0, i - 1).push(bytes@[i - 1]));
        }
        assert(bytes@.subrange(0, bytes@.len() as int) =~= bytes@);
        self.position = StreamPosition::DATA(self.data.len());
    }

    /// Marks the stream finished at its current length; finishing twice changes nothing.
    pub fn finish(&mut self)
        requires
            old(self)@.wf(),
        ensures
            final(self)@.wf(),
            final(self)@.header == old(self)@.header,
            final(self)@.data == old(self)@.data,
            final(self)@.position == StreamPosition::FINISHED(old(self)@.data.len() as usize),
            old(self)@.position.le(final(self)@.position),
    {
        self.position = StreamPosition::FINISHED(self.data.len());
    }
}

} // verus!
