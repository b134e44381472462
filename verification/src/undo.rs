//! One stack of offset+byte-run snapshots. A file keeps two of them (undo and
//! redo); every logical edit pushes a pre-edit and a post-edit entry onto the
//! undo stack, and undo/redo move pairs between the two.

use vstd::prelude::*;

use crate::data::Data;

verus! {

/// A stack of edit snapshots with push/pop at the tail.
#[derive(Clone, Debug, PartialEq, Eq)]
pub struct UndoRedo {
    e: Vec<Data>,
}

impl UndoRedo {
    /// The stack's contents, oldest first.
    pub closed spec fn view(&self) -> Seq<Data> {
        self.e@
    }

    pub fn new() -> (r: UndoRedo)
        ensures
            r@.len() == 0,
    {
        UndoRedo { e: Vec::new() }
    }

    /// Removes and returns the most recent entry; `None` on an empty stack
    /// (a no-op for the caller, not an error).
    pub fn pop(&mut self) -> (r: Option<Data>)
        ensures
            old(self)@.len() == 0 ==> r is None && final(self)@ == old(self)@,
            old(self)@.len() > 0 ==> r == Some(old(self)@.last())
                && final(self)@ == old(self)@.drop_last(),
    {
        self.e.pop()
    }

    pub fn push(&mut self, data: Data)
        ensures
            final(self)@ == old(self)@.push(data),
    {
        self.e.push(data);
    }
}

} // verus!
