//! Ranges of byte offsets that start at an offset and end at one or run on.

use vstd::prelude::*;

verus! {

/// A range of byte offsets: from the first offset up to, not including, the
/// second; or from an offset on without an end.
#[derive(Debug, Clone)]
pub enum Ranger {
    InEx(usize, usize),
    InOpen(usize),
}

impl Ranger {
    /// The offset at which the range starts.
    pub open spec fn start(self) -> usize {
        match self {
            Ranger::InEx(a, _) => a,
            Ranger::InOpen(a) => a,
        }
    }

    /// The range from the same start up to, not including, `n`.
    pub fn with_end(&self, n: usize) -> (r: Self)
        ensures
            r == Ranger::InEx(self.start(), n),
    {
        match self {
            Ranger::InEx(a, _) => Ranger::InEx(*a, n),
            Ranger::InOpen(a) => Ranger::InEx(*a, n),
        }
    }

    /// The first offset of the range.
    pub fn start_bound(&self) -> (r: usize)
        ensures
            r == self.start(),
    {
        match self {
            Ranger::InEx(n, _) => *n,
            Ranger::InOpen(n) => *n,
        }
    }

    /// The offset before which the range ends, or `None` where it runs on.
    pub fn end_bound(&self) -> (r: Option<usize>)
        ensures
            r == (match *self {
                Ranger::InEx(_, n) => Some(n),
                Ranger::InOpen(_) => None,
            }),
    {
        match self {
            Ranger::InEx(_, n) => Some(*n),
            Ranger::InOpen(_) => None,
        }
    }
}

} // verus!
