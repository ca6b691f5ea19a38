use vstd::prelude::*;

verus! {

/// How far a writer stream has progressed.
#[derive(Clone, Copy, Debug, PartialEq, Eq, Structural)]
pub enum StreamPosition {
    START,
    HEADER,
    DATA(usize),
    FINISHED(usize),
}

impl StreamPosition {
    /// Rank of the phase: positions only ever move to an equal or later phase.
    pub open spec fn phase(self) -> nat {
        match self {
            StreamPosition::START => 0,
            StreamPosition::HEADER => 1,
            StreamPosition::DATA(_) => 2,
            StreamPosition::FINISHED(_) => 3,
        }
    }

    /// The number of body bytes the position accounts for.
    pub open spec fn spec_len(self) -> nat {
        match self {
            StreamPosition::DATA(n) => n as nat,
            StreamPosition::FINISHED(n) => n as nat,
            _ => 0,
        }
    }

    /// `self` is at or before `other`.
    pub open spec fn le(self, other: StreamPosition) -> bool {
        ||| self.phase() < other.phase() && self.spec_len() <= other.spec_len()
        ||| self.phase() == other.phase() && (self.phase() == 3 ==> self == other)
            && self.spec_len() <= other.spec_len()
    }

    /// The number of body bytes the position accounts for.
    pub fn len(&self) -> (r: usize)
        ensures
            r == self.spec_len(),
    {
        match self {
            StreamPosition::DATA(n) => *n,
            StreamPosition::FINISHED(n) => *n,
            _ => 0,
        }
    }

    pub fn is_finished(&self) -> (r: bool)
        ensures
            r == (self.phase() == 3),
    {
        matches!(self, StreamPosition::FINISHED(_))
    }
}

/// The order of positions is reflexive and transitive.
pub proof fn lemma_position_order(a: StreamPosition, b: StreamPosition, c: StreamPosition)
    ensures
        a.le(a),
        a.le(b) && b.le(c) ==> a.le(c),
{
}

} // verus!
