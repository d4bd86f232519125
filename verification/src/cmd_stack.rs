//! A command history held in a fixed-size cyclic buffer, with a pointer to
//! the entry being browsed.

use vstd::prelude::*;

verus! {

/// A cyclic command history of `S` slots.  The live entries run from
/// `start` to `end`, and `pointer` marks the browsed entry.
#[derive(Debug)]
pub struct CmdStack<const S: usize> {
    pub stack: Vec<String>,
    pub start: usize,
    pub end: usize,
    pub pointer: usize,
}

impl<const S: usize> CmdStack<S> {
    /// The buffer holds exactly `S` slots and every index stays inside it.
    pub open spec fn wf(&self) -> bool {
        &&& self.stack@.len() == S
        &&& self.start < S
        &&& self.end < S
        &&& self.pointer < S
    }

    /// The number of live entries.
    pub open spec fn spec_len(&self) -> int {
        if self.end < self.start {
            S - self.start + self.end
        } else {
            self.end - self.start
        }
    }

    /// The number of live entries.
    pub fn len(&self) -> (r: usize)
        requires
            self.wf(),
        ensures
            r == self.spec_len(),
    {
        if self.end < self.start {
            return S - self.start + self.end;
        }
        self.end - self.start
    }

    /// Stores a command after the pointer; entries after the pointer are
    /// discarded, and when the buffer wraps onto its start the oldest entry
    /// is dropped.
    pub fn push(&mut self, cmd: String)
        requires
            old(self).wf(),
        ensures
            final(self).wf(),
            old(self).start == old(self).end ==> {
                &&& final(self).stack@ == old(self).stack@.update(old(self).end as int, cmd)
                &&& final(self).end == (old(self).pointer + 1) % (S as int)
                &&& final(self).pointer == final(self).end
                &&& final(self).start == old(self).start
            },
            old(self).start != old(self).end ==> {
                let e2 = (old(self).pointer + 1) % (S as int);
                &&& final(self).end == e2
                &&& final(self).pointer == e2
                &&& final(self).stack@ == old(self).stack@.update(e2, cmd)
                &&& final(self).start == if e2 == old(self).start {
                    (old(self).start + 1) % (S as int)
                } else {
                    old(self).start as int
                }
            },
    {
        if self.start == self.end {
            self.first_push(cmd);
            return ;
        }
        self.end = self.pointer;
        self.end = self.increment_end();
        self.pointer = self.end;
        self.stack[self.end] = cmd;
        if self.start == self.end {
            self.start = self.increment_start();
        }
    }

    /// The first store into an empty buffer: the command lands in the slot
    /// under `end`, and `end` and the pointer move past it.
    fn first_push(&mut self, cmd: String)
        requires
            old(self).wf(),
        ensures
            final(self).wf(),
            final(self).stack@ == old(self).stack@.update(old(self).end as int, cmd),
            final(self).end == (old(self).pointer + 1) % (S as int),
            final(self).pointer == final(self).end,
            final(self).start == old(self).start,
    {
        self.stack[self.end] = cmd;
        self.end = self.pointer;
        self.end = self.increment_end();
        self.pointer = self.end;
    }

    /// Removes and returns the entry under the pointer; an empty history
    /// yields nothing.
    pub fn pop(&mut self) -> (r: Option<String>)
        requires
            old(self).wf(),
        ensures
            final(self).wf(),
            match r {
                None => old(self).spec_len() == 0 && *final(self) == *old(self),
                Some(cmd) => {
                    &&& old(self).spec_len() > 0
                    &&& cmd == old(self).stack@[old(self).pointer as int]
                    &&& final(self).stack@ == old(self).stack@
                    &&& final(self).end == if old(self).pointer >= 1 {
                        old(self).pointer - 1
                    } else {
                        S - 1
                    }
                    &&& final(self).pointer == final(self).end
                    &&& final(self).start == old(self).start
                },
            },
    {
        if self.len() == 0 {
            return None;
        }
        let p = self.pointer;
        self.end = p;
        self.end = self.decrement_end();
        self.pointer = self.end;
        Some(self.stack[p].clone())
    }

    /// The entry under the pointer; an empty history yields nothing.
    pub fn get_pointer(&self) -> (r: Option<&String>)
        requires
            self.wf(),
        ensures
            match r {
                None => self.spec_len() == 0,
                Some(cmd) => self.spec_len() > 0 && *cmd == self.stack@[self.pointer as int],
            },
    {
        if self.len() == 0 {
            return None;
        }
        Some(&self.stack[self.pointer])
    }

    /// The entry before the pointer; nothing at the start or when empty.
    pub fn peek_prev(&self) -> (r: Option<&String>)
        requires
            self.wf(),
        ensures
            match r {
                None => self.spec_len() == 0 || self.pointer == self.start,
                Some(cmd) => {
                    &&& self.spec_len() > 0
                    &&& self.pointer != self.start
                    &&& *cmd == self.stack@[
                        if self.pointer >= 1 {
                            self.pointer - 1
                        } else {
                            S - 1
                        }
                    ]
                },
            },
    {
        if self.len() == 0 {
            return None;
        }
        if self.pointer == self.start {
            return None;
        }
        let index = if self.pointer >= 1 {
            self.pointer - 1
        } else {
            S - 1
        };
        Some(&self.stack[index])
    }

    /// Whether the pointer stands at the start of the history.
    pub fn at_start(&self) -> (r: bool)
        ensures
            r == (self.pointer == self.start),
    {
        self.pointer == self.start
    }

    /// Whether the pointer stands at the end of the history.
    pub fn at_end(&self) -> (r: bool)
        ensures
            r == (self.pointer == self.end),
    {
        self.pointer == self.end
    }

    /// Moves the pointer back to the start.
    fn set_start(&mut self)
        ensures
            final(self).pointer == old(self).start,
            final(self).stack@ == old(self).stack@,
            final(self).start == old(self).start,
            final(self).end == old(self).end,
    {
        self.pointer = self.start;
    }

    /// The start index moved one slot forward, cyclically.
    fn increment_start(&self) -> (r: usize)
        requires
            self.wf(),
        ensures
            r == (self.start + 1) % (S as int),
    {
        (self.start + 1) % S
    }

    /// The end index moved one slot forward, cyclically.
    fn increment_end(&self) -> (r: usize)
        requires
            self.wf(),
        ensures
            r == (self.end + 1) % (S as int),
    {
        (self.end + 1) % S
    }

    /// The end index moved one slot back, cyclically.
    fn decrement_end(&self) -> (r: usize)
        requires
            self.wf(),
        ensures
            r == if self.end >= 1 {
                self.end - 1
            } else {
                S - 1
            },
    {
        if self.end >= 1 {
            self.end - 1
        } else {
            S - 1
        }
    }
}

impl<const S: usize> Default for CmdStack<S> {
    /// An empty history: `S` empty slots, every index at the first one.
    fn default() -> (r: Self)
        ensures
            r.stack@.len() == S,
            forall|j: int| 0 <= j < S ==> (#[trigger] r.stack@[j])@.len() == 0,
            r.start == 0,
            r.end == 0,
            r.pointer == 0,
            S >= 1 ==> r.wf(),
    {
        let stack: Vec<String> = vec![String::new(); S];
        CmdStack { stack, start: 0, end: 0, pointer: 0 }
    }
}

} // verus!
