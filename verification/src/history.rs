//! Undo/redo history: two independent delta stacks.

use vstd::prelude::*;

use crate::delta::Delta;

verus! {

/// Two independent delta stacks.  An undo entry reverses the edit that
/// produced the current state; a redo entry reverses an undo.
#[derive(Debug)]
pub struct History {
    pub undo_stack: Vec<Delta>,
    pub redo_stack: Vec<Delta>,
}

impl History {
    pub fn new() -> (r: History)
        ensures
            r.undo_stack@.len() == 0,
            r.redo_stack@.len() == 0,
    {
        History { undo_stack: Vec::new(), redo_stack: Vec::new() }
    }

    pub fn can_undo(&self) -> (r: bool)
        ensures
            r == (self.undo_stack@.len() > 0),
    {
        self.undo_stack.len() > 0
    }

    pub fn can_redo(&self) -> (r: bool)
        ensures
            r == (self.redo_stack@.len() > 0),
    {
        self.redo_stack.len() > 0
    }

    /// Pop the delta that reverses the most recent recorded edit.
    pub fn undo(&mut self) -> (r: Option<Delta>)
        ensures
            old(self).undo_stack@.len() == 0 ==> r is None && final(self).undo_stack@ == old(self).undo_stack@ && final(self).redo_stack@ == old(self).redo_stack@,
            old(self).undo_stack@.len() > 0 ==> {
                &&& r == Some(old(self).undo_stack@.last())
                &&& final(self).undo_stack@ == old(self).undo_stack@.drop_last()
                &&& final(self).redo_stack@ == old(self).redo_stack@
            },
    {
        self.undo_stack.pop()
    }

    /// Pop the delta that reverses the most recent undo.
    pub fn redo(&mut self) -> (r: Option<Delta>)
        ensures
            old(self).redo_stack@.len() == 0 ==> r is None && final(self).undo_stack@ == old(self).undo_stack@ && final(self).redo_stack@ == old(self).redo_stack@,
            old(self).redo_stack@.len() > 0 ==> {
                &&& r == Some(old(self).redo_stack@.last())
                &&& final(self).redo_stack@ == old(self).redo_stack@.drop_last()
                &&& final(self).undo_stack@ == old(self).undo_stack@
            },
    {
        self.redo_stack.pop()
    }

    pub fn add_undo(&mut self, delta: Delta)
        ensures
            final(self).undo_stack@ == old(self).undo_stack@.push(delta),
            final(self).redo_stack@ == old(self).redo_stack@,
    {
        self.undo_stack.push(delta);
    }

    pub fn add_redo(&mut self, delta: Delta)
        ensures
            final(self).redo_stack@ == old(self).redo_stack@.push(delta),
            final(self).undo_stack@ == old(self).undo_stack@,
    {
        self.redo_stack.push(delta);
    }

    /// Forget the redo entries: a fresh edit after an undo invalidates them.
    pub fn clear_redo(&mut self)
        ensures
            final(self).redo_stack@.len() == 0,
            final(self).undo_stack@ == old(self).undo_stack@,
    {
        self.redo_stack.clear();
    }
}

} // verus!
