//! The positional cursor the driver walks a block with.
//!
//! A position is an explicit (block, instruction index) pair, not a
//! control-flow stack: it can be captured, and restored after an edit so
//! that instructions inserted behind the capture point are visited again
//! from the restore point forward. An instruction replaced in place at
//! the current position does not disturb later steps, because the layout
//! stores only handles.

use vstd::prelude::*;
use crate::ir::Function;

verus! {

/// An opaque, resumable marker over (block, instruction index).
#[derive(Clone, Copy, PartialEq, Eq, Structural, Debug)]
pub struct CursorPos {
    pub ebb: usize,
    pub pos: usize,
}

/// A mutable traversal handle over the linear instruction layout.
#[derive(Clone, Copy, Debug)]
pub struct Cursor {
    pub ebb: usize,
    pub pos: usize,
}

impl Cursor {
    /// A cursor positioned at the top of block 0.
    pub fn new() -> (c: Cursor)
        ensures
            c.ebb == 0,
            c.pos == 0,
    {
        Cursor { ebb: 0, pos: 0 }
    }

    /// Jump to the top of block `ebb`.
    pub fn goto_top(&mut self, ebb: usize)
        ensures
            final(self).ebb == ebb,
            final(self).pos == 0,
    {
        self.ebb = ebb;
        self.pos = 0;
    }

    /// Capture the current position as a resumable marker.
    pub fn position(&self) -> (p: CursorPos)
        ensures
            p.ebb == self.ebb,
            p.pos == self.pos,
    {
        CursorPos { ebb: self.ebb, pos: self.pos }
    }

    /// Restore a captured position exactly, so that instructions
    /// inserted after the capture and before the restore are visited
    /// again from the restored point forward.
    pub fn set_position(&mut self, p: CursorPos)
        ensures
            final(self).ebb == p.ebb,
            final(self).pos == p.pos,
    {
        self.ebb = p.ebb;
        self.pos = p.pos;
    }

    /// Step to the next instruction of the current block and return its
    /// handle, or `None` at the end of the block.
    pub fn next_inst(&mut self, func: &Function) -> (r: Option<usize>)
        requires
            old(self).ebb < func.layout.num_ebbs(),
        ensures
            final(self).ebb == old(self).ebb,
            old(self).pos < func.layout.insts_of(old(self).ebb as int).len() ==> {
                &&& r == Some(func.layout.insts_of(old(self).ebb as int)[old(self).pos as int])
                &&& final(self).pos == old(self).pos + 1
            },
            old(self).pos >= func.layout.insts_of(old(self).ebb as int).len() ==> {
                &&& r is None
                &&& final(self).pos == old(self).pos
            },
    {
        if self.pos < func.layout.ebb_insts[self.ebb].len() {
            let id = func.layout.ebb_insts[self.ebb][self.pos];
            self.pos = self.pos + 1;
            Some(id)
        } else {
            None
        }
    }
}

/// Rewind correctness: when a rewrite inserts `inserted` at position `p`
/// of a block whose instruction sequence was `before`, restoring the
/// cursor to `p` makes the forward walk meet exactly the inserted
/// handles, each once and in order, and then exactly the handles that
/// followed the edit point, each once — no handle is skipped and none is
/// met twice.
pub proof fn lemma_rewind_visits_inserted(before: Seq<usize>, inserted: Seq<usize>, p: int)
    requires
        0 <= p <= before.len(),
    ensures
        (before.take(p) + inserted + before.skip(p)).len() == before.len() + inserted.len(),
        forall|k: int| 0 <= k < inserted.len()
            ==> (before.take(p) + inserted + before.skip(p))[p + k] == inserted[k],
        forall|k: int| p <= k < before.len()
            ==> (before.take(p) + inserted + before.skip(p))[k + inserted.len()] == before[k],
        forall|k: int| 0 <= k < p
            ==> (before.take(p) + inserted + before.skip(p))[k] == before[k],
{
    let after = before.take(p) + inserted + before.skip(p);
    assert forall|k: int| 0 <= k < inserted.len() implies after[p + k] == inserted[k] by {
        assert(after[p + k] == inserted[k]);
    }
    assert forall|k: int| p <= k < before.len() implies after[k + inserted.len()]
        == before[k] by {
        assert(after[k + inserted.len()] == before.skip(p)[k - p]);
    }
}

} // verus!
