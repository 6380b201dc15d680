//! A history of actions, kept in batches that are undone together.

use vstd::prelude::*;

verus! {

/// What an undo stack holds: the actions recorded, oldest first, and where
/// each closed batch ends. Actions after the last end are not in a batch yet.
pub struct UndoStackModel<A> {
    pub actions: Seq<A>,
    pub ends: Seq<usize>,
}

impl<A> UndoStackModel<A> {
    /// No batch is empty, and no batch ends beyond the actions recorded.
    pub open spec fn wf(self) -> bool {
        &&& forall|i: int| 0 <= i < self.ends.len() ==> 0 < #[trigger] self.ends[i] <= self.actions.len()
        &&& forall|i: int, j: int|
            0 <= i < j < self.ends.len() ==> #[trigger] self.ends[i] < #[trigger] self.ends[j]
    }

    pub open spec fn empty() -> UndoStackModel<A> {
        UndoStackModel { actions: Seq::empty(), ends: Seq::empty() }
    }

    /// How many actions are in closed batches.
    pub open spec fn closed(self) -> int {
        if self.ends.len() > 0 {
            self.ends.last() as int
        } else {
            0
        }
    }

    pub open spec fn push(self, action: A) -> UndoStackModel<A> {
        UndoStackModel { actions: self.actions.push(action), ends: self.ends }
    }

    /// The actions recorded since the last batch, closed as a batch of their
    /// own. Without such actions, nothing changes.
    pub open spec fn batch(self) -> UndoStackModel<A> {
        if self.actions.len() > self.closed() {
            UndoStackModel { actions: self.actions, ends: self.ends.push(self.actions.len() as usize) }
        } else {
            self
        }
    }

    /// This stack after all the actions of `other` have been moved onto it
    /// as one batch.
    pub open spec fn append_as_batch(self, other: UndoStackModel<A>) -> UndoStackModel<A> {
        let before = self.batch();
        (UndoStackModel { actions: before.actions + other.actions, ends: before.ends }).batch()
    }
}

/// A stack of actions that can be undone, batch by batch.
pub struct UndoStack<A> {
    actions: Vec<A>,
    ends: Vec<usize>,
}

impl<A> View for UndoStack<A> {
    type V = UndoStackModel<A>;

    closed spec fn view(&self) -> UndoStackModel<A> {
        UndoStackModel { actions: self.actions@, ends: self.ends@ }
    }
}

impl<A> UndoStack<A> {
    /// The invariant of a stack; see [`UndoStackModel::wf`].
    pub open spec fn wf(&self) -> bool {
        self@.wf()
    }

    pub fn new() -> (stack: UndoStack<A>)
        ensures
            stack.wf(),
            stack@ == UndoStackModel::<A>::empty(),
    {
        UndoStack { actions: Vec::new(), ends: Vec::new() }
    }

    /// The number of actions recorded.
    pub fn len(&self) -> (n: usize)
        ensures
            n == self@.actions.len(),
    {
        self.actions.len()
    }

    /// The number of closed batches.
    pub fn num_batches(&self) -> (n: usize)
        ensures
            n == self@.ends.len(),
    {
        self.ends.len()
    }

    /// Records an action.
    pub fn push(&mut self, action: A)
        requires
            old(self).wf(),
        ensures
            final(self).wf(),
            final(self)@ == old(self)@.push(action),
    {
        self.actions.push(action);
    }

    /// Forgets every action and every batch.
    pub fn clear(&mut self)
        ensures
            final(self).wf(),
            final(self)@ == UndoStackModel::<A>::empty(),
    {
        self.actions.clear();
        self.ends.clear();
    }

    /// Closes the actions recorded since the last batch as a batch.
    pub fn batch(&mut self)
        requires
            old(self).wf(),
        ensures
            final(self).wf(),
            final(self)@ == old(self)@.batch(),
    {
        proof {
            assert(self.ends@ == old(self)@.ends);
        }
        let closed = if self.ends.len() > 0 {
            self.ends[self.ends.len() - 1]
        } else {
            0
        };
        if self.actions.len() > closed {
            let ghost before = self.ends@;
            self.ends.push(self.actions.len());
            proof {
                assert forall|i: int, j: int| 0 <= i < j < self.ends@.len() implies #[trigger]
                    self.ends@[i] < #[trigger] self.ends@[j] by {
                    if j == before.len() && i < before.len() - 1 {
                        assert(before[i] < before[before.len() - 1]);
                    }
                }
            }
        }
    }

    /// Moves all the actions of `other` onto this stack, as one batch.
    pub fn append_as_batch(&mut self, other: &mut UndoStack<A>)
        requires
            old(self).wf(),
        ensures
            final(self).wf(),
            final(self)@ == old(self)@.append_as_batch(old(other)@),
            final(other).wf(),
            final(other)@ == UndoStackModel::<A>::empty(),
    {
        self.batch();
        let ghost closed = self@;
        self.actions.append(&mut other.actions);
        other.ends.clear();
        proof {
            assert(self.ends@ == closed.ends);
            assert forall|i: int| 0 <= i < self.ends@.len() implies 0 < #[trigger] self.ends@[i]
                <= self.actions@.len() by {
                assert(0 < closed.ends[i] <= closed.actions.len());
            }
            assert forall|i: int, j: int| 0 <= i < j < self.ends@.len() implies #[trigger]
                self.ends@[i] < #[trigger] self.ends@[j] by {
                assert(closed.ends[i] < closed.ends[j]);
            }
        }
        self.batch();
    }
}

} // verus!
