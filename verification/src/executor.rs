//! The control state of a multi-statement execution: the statements of one
//! batch run strictly in order inside one transaction; the first failure
//! aborts the batch, and a commit is allowed only when every statement ran.

use vstd::prelude::*;

verus! {

/// The progress of one all-or-nothing batch over `total` statements.
#[derive(Debug, Clone, Copy, PartialEq, Eq, Structural)]
pub struct BatchRun {
    pub total: usize,
    pub next: usize,
    pub failed: bool,
}

impl BatchRun {
    /// The counter never runs past the batch.
    pub open spec fn wf(&self) -> bool {
        self.next <= self.total
    }

    /// A fresh batch over `total` statements: nothing ran, nothing failed.
    pub fn new(total: usize) -> (r: BatchRun)
        ensures
            r.total == total,
            r.next == 0,
            !r.failed,
            r.wf(),
    {
        BatchRun { total, next: 0, failed: false }
    }

    /// The index of the statement to run next: the statements are taken in
    /// order, and nothing runs after a failure or past the end.
    pub fn next_action(&self) -> (r: Option<usize>)
        ensures
            r == if !self.failed && self.next < self.total {
                Some(self.next)
            } else {
                None::<usize>
            },
    {
        if !self.failed && self.next < self.total {
            Some(self.next)
        } else {
            None
        }
    }

    /// Records that the current statement succeeded: the batch moves to the
    /// following statement and skips none.
    pub fn on_success(&mut self)
        requires
            old(self).wf(),
            !old(self).failed,
            old(self).next < old(self).total,
        ensures
            final(self).total == old(self).total,
            final(self).next == old(self).next + 1,
            !final(self).failed,
            final(self).wf(),
    {
        self.next = self.next + 1;
    }

    /// Records that the current statement failed: the batch aborts and no
    /// further statement runs.
    pub fn on_failure(&mut self)
        requires
            old(self).wf(),
        ensures
            final(self).total == old(self).total,
            final(self).next == old(self).next,
            final(self).failed,
            final(self).wf(),
    {
        self.failed = true;
    }

    /// Whether the transaction may commit: only when every statement of the
    /// batch ran and none failed.
    pub fn should_commit(&self) -> (r: bool)
        ensures
            r == (!self.failed && self.next == self.total),
    {
        !self.failed && self.next == self.total
    }

    /// Whether the transaction must roll back: exactly when a statement
    /// failed.
    pub fn should_rollback(&self) -> (r: bool)
        ensures
            r == self.failed,
    {
        self.failed
    }
}

} // verus!
