//! Half-open byte spans into the original source text.
use vstd::prelude::*;

verus! {

/// The offset that an optional global offset stands for.
pub open spec fn offset_of(offset: Option<usize>) -> int {
    match offset {
        Some(k) => k as int,
        None => 0,
    }
}

/// A half-open span `[start, end)` of byte offsets.
#[derive(Debug, Clone, Copy, PartialEq, Eq, Structural)]
pub struct Position {
    pub start: usize,
    pub end: usize,
}

impl Position {
    pub open spec fn wf(&self) -> bool {
        self.start <= self.end
    }

    /// The span `[start, end)` moved right by the global offset, if any.
    pub fn new(start: usize, end: usize, offset: Option<usize>) -> (r: Position)
        requires
            start <= end,
            end + offset_of(offset) <= usize::MAX,
        ensures
            r.start == start + offset_of(offset),
            r.end == end + offset_of(offset),
            r.wf(),
    {
        match offset {
            Some(o) => Position { start: start + o, end: end + o },
            None => Position { start, end },
        }
    }

    /// Moves the start right by `offset`, after that many bytes were cut from the front.
    pub fn shift_start(&mut self, offset: usize)
        requires
            old(self).start + offset <= old(self).end,
        ensures
            final(self).start == old(self).start + offset,
            final(self).end == old(self).end,
    {
        self.start += offset;
    }

    /// Moves the end left by `offset`, after that many bytes were cut from the back.
    pub fn shift_end_down(&mut self, offset: usize)
        requires
            old(self).start + offset <= old(self).end,
        ensures
            final(self).start == old(self).start,
            final(self).end == old(self).end - offset,
    {
        self.end -= offset;
    }
}

} // verus!
