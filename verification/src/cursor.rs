//! A stateful forward/backward pointer over an immutable, shared sequence
//! of source lines.

use vstd::prelude::*;
use std::rc::Rc;
use crate::line::SourceLine;

verus! {

/// Mutable view over a shared, read-only sequence of [`SourceLine`]s.
///
/// The cursor holds the current index and a focus flag saying whether this
/// cursor is the active one among possibly several views of the same
/// sequence. Its index is always a valid position in the sequence: a move
/// that would leave the sequence is refused and reported as a failure
/// without any mutation of the index.
pub struct LineCursor {
    pub lines: Rc<Vec<SourceLine>>,
    pub index: usize,
    pub focused: bool,
}

impl LineCursor {
    /// The cursor points at a valid position of a non-empty sequence.
    pub open spec fn well_formed(&self) -> bool {
        self.index < self.lines@.len()
    }

    /// Whether `advance` succeeds from index `i`: a next line exists and
    /// its text differs from the current line's text.
    pub open spec fn can_advance(lines: Seq<SourceLine>, i: int) -> bool {
        i + 1 < lines.len() && lines[i + 1]@.text != lines[i]@.text
    }

    /// Whether `retreat` succeeds from index `i`: a previous line exists
    /// and its text differs from the current line's text.
    pub open spec fn can_retreat(lines: Seq<SourceLine>, i: int) -> bool {
        i >= 1 && lines[i - 1]@.text != lines[i]@.text
    }

    pub fn new(lines: Rc<Vec<SourceLine>>, start: usize, focused: bool) -> (r: Self)
        requires
            start < lines@.len(),
        ensures
            r.well_formed(),
            r.lines == lines,
            r.index == start,
            r.focused == focused,
    {
        LineCursor { lines, index: start, focused }
    }

    /// The line the cursor currently points at.
    pub fn current(&self) -> (r: &SourceLine)
        requires
            self.well_formed(),
        ensures
            *r == self.lines@[self.index as int],
    {
        &(*self.lines)[self.index]
    }

    /// Moves one line forward. Succeeds exactly when a line exists at
    /// `index + 1` and its text differs from the current line's text;
    /// otherwise the index is left unchanged and failure is reported.
    /// `switch_focus` clears the focus flag regardless of the movement
    /// outcome. Repeated failing calls keep returning failure and never
    /// move the index.
    pub fn advance(&mut self, switch_focus: bool) -> (moved: bool)
        requires
            old(self).well_formed(),
        ensures
            final(self).well_formed(),
            final(self).lines == old(self).lines,
            moved == Self::can_advance(old(self).lines@, old(self).index as int),
            final(self).index == if moved {
                old(self).index + 1
            } else {
                old(self).index as int
            },
            final(self).focused == (old(self).focused && !switch_focus),
    {
        let moved = if self.index < self.lines.len() - 1 {
            let lines: &Vec<SourceLine> = &self.lines;
            if lines[self.index + 1].text != lines[self.index].text {
                self.index = self.index + 1;
                true
            } else {
                false
            }
        } else {
            false
        };
        if switch_focus {
            self.focused = false;
        }
        moved
    }

    /// Moves one line backward. Succeeds exactly when the cursor is not at
    /// index 0 and the previous line's text differs from the current
    /// line's text; otherwise the index is left unchanged and failure is
    /// reported. `switch_focus` clears the focus flag regardless of the
    /// movement outcome. Repeated failing calls keep returning failure and
    /// never move the index.
    pub fn retreat(&mut self, switch_focus: bool) -> (moved: bool)
        requires
            old(self).well_formed(),
        ensures
            final(self).well_formed(),
            final(self).lines == old(self).lines,
            moved == Self::can_retreat(old(self).lines@, old(self).index as int),
            final(self).index == if moved {
                old(self).index - 1
            } else {
                old(self).index as int
            },
            final(self).focused == (old(self).focused && !switch_focus),
    {
        let moved = if self.index >= 1 {
            let lines: &Vec<SourceLine> = &self.lines;
            if lines[self.index - 1].text != lines[self.index].text {
                self.index = self.index - 1;
                true
            } else {
                false
            }
        } else {
            false
        };
        if switch_focus {
            self.focused = false;
        }
        moved
    }
}

} // verus!
