//! The text-selection state machine: an anchor ("tail") fixed at press time
//! and a moving head updated while dragging, normalised so that
//! `start <= end` always holds and `reversed` records which edge the head is.

use vstd::prelude::*;

verus! {

/// A text selection over source byte offsets.
///
/// `start..end` is the selected range with `start <= end`; `reversed` is true
/// when the user's head (the moving edge of a drag) is at `start` rather than
/// at `end`; `pending` is true only while a drag is in progress.
#[derive(Copy, Clone, Debug, PartialEq, Eq, Structural)]
pub struct Selection {
    pub start: usize,
    pub end: usize,
    pub reversed: bool,
    pub pending: bool,
}

impl Selection {
    /// The selected range is well formed: it never runs backwards.
    pub open spec fn wf(self) -> bool {
        self.start <= self.end
    }

    /// The anchor of the selection: the edge that stays fixed while the head
    /// moves. It is `end` when the selection is reversed, `start` otherwise.
    pub open spec fn spec_tail(self) -> usize {
        if self.reversed {
            self.end
        } else {
            self.start
        }
    }

    /// The anchor of the selection (the point fixed since the press).
    pub fn tail(&self) -> (t: usize)
        ensures
            t == self.spec_tail(),
    {
        if self.reversed {
            self.end
        } else {
            self.start
        }
    }

    /// Moves the head (the active edge of a drag) to `head`, flipping the
    /// selection's direction when the head crosses the anchor. The anchor and
    /// the `pending` flag are left untouched, and the resulting range never
    /// runs backwards, whichever side of the anchor the head lands on.
    pub fn set_head(&mut self, head: usize)
        ensures
            final(self).spec_tail() == old(self).spec_tail(),
            final(self).pending == old(self).pending,
            head < old(self).spec_tail() ==> *final(self) == (Selection {
                start: head,
                end: old(self).spec_tail(),
                reversed: true,
                pending: old(self).pending,
            }),
            head >= old(self).spec_tail() ==> *final(self) == (Selection {
                start: old(self).spec_tail(),
                end: head,
                reversed: false,
                pending: old(self).pending,
            }),
            final(self).wf(),
    {
        if head < self.tail() {
            if !self.reversed {
                self.end = self.start;
                self.reversed = true;
            }
            self.start = head;
        } else {
            if self.reversed {
                self.start = self.end;
                self.reversed = false;
            }
            self.end = head;
        }
    }
}

impl Default for Selection {
    /// The empty selection at offset zero, not reversed and not pending.
    fn default() -> (s: Selection)
        ensures
            s == (Selection { start: 0usize, end: 0usize, reversed: false, pending: false }),
    {
        Selection { start: 0, end: 0, reversed: false, pending: false }
    }
}

} // verus!
