//! The state of a line-input widget: the entered characters, an optional
//! prompt, a cursor, and a flag saying whether input is being accepted.

use vstd::prelude::*;

use crate::text::str_to_chars;

verus! {

/// Errors from building an input state.
#[derive(Debug)]
pub enum InputErr {
    /// The cursor lies past the end of the content.
    InvalidCursorIndex,
}

/// A line-input widget's state.
#[derive(Debug)]
pub struct Input {
    pub content: Vec<char>,
    pub prompt: Option<String>,
    pub cursor: usize,
    pub input_cond: bool,
}

/// Whether two character vectors hold the same characters.
fn chars_equal(a: &Vec<char>, b: &Vec<char>) -> (r: bool)
    ensures
        r == (a@ == b@),
{
    if a.len() != b.len() {
        return false;
    }
    let mut i: usize = 0;
    while i < a.len()
        invariant
            i <= a@.len(),
            a@.len() == b@.len(),
            forall|j: int| 0 <= j < i ==> a@[j] == b@[j],
        decreases a@.len() - i,
    {
        if a[i] != b[i] {
            return false;
        }
        i += 1;
    }
    proof {
        assert(a@ =~= b@);
    }
    true
}

impl PartialEq for Input {
    fn eq(&self, other: &Input) -> (r: bool) {
        let prompts_equal = match (&self.prompt, &other.prompt) {
            (Some(a), Some(b)) => *a == *b,
            (None, None) => true,
            _ => false,
        };
        prompts_equal && chars_equal(&self.content, &other.content) && self.cursor == other.cursor
            && self.input_cond == other.input_cond
    }
}

impl Eq for Input {

}

impl vstd::std_specs::cmp::PartialEqSpecImpl for Input {
    open spec fn obeys_eq_spec() -> bool {
        true
    }

    open spec fn eq_spec(&self, other: &Input) -> bool {
        &&& self.content@ == other.content@
        &&& (match (self.prompt, other.prompt) {
            (Some(a), Some(b)) => a@ == b@,
            (None, None) => true,
            _ => false,
        })
        &&& self.cursor == other.cursor
        &&& self.input_cond == other.input_cond
    }
}

impl Input {
    /// The cursor never lies past the content.
    pub open spec fn wf(&self) -> bool {
        self.cursor <= self.content@.len()
    }

    /// Builds an input state; a cursor past the content is rejected.
    pub fn new(content: Vec<char>, prompt: Option<String>, cursor: usize, input_cond: bool) -> (r:
        Result<Input, InputErr>)
        ensures
            match r {
                Ok(inp) => {
                    &&& cursor <= content@.len()
                    &&& inp.content@ == content@
                    &&& inp.prompt == prompt
                    &&& inp.cursor == cursor
                    &&& inp.input_cond == input_cond
                    &&& inp.wf()
                },
                Err(e) => cursor > content@.len() && e == InputErr::InvalidCursorIndex,
            },
    {
        if content.len() < cursor {
            return Err(InputErr::InvalidCursorIndex);
        }
        Ok(Input { content, prompt, cursor, input_cond })
    }

    /// Builds an input state from a string, with the cursor at its end.
    pub fn from(content: String, prompt: Option<String>, input_cond: bool) -> (r: Input)
        ensures
            r.content@ == content@,
            r.prompt == prompt,
            r.cursor == content@.len(),
            r.input_cond == input_cond,
            r.wf(),
    {
        let chars = str_to_chars(content.as_str());
        let cursor = chars.len();
        Input { content: chars, prompt, cursor, input_cond }
    }

    /// Empties the content and resets the cursor, when input is accepted.
    pub fn clear(&mut self)
        ensures
            final(self).prompt == old(self).prompt,
            final(self).input_cond == old(self).input_cond,
            old(self).input_cond ==> final(self).content@.len() == 0 && final(self).cursor == 0,
            !old(self).input_cond ==> final(self).content@ == old(self).content@ && final(self).cursor == old(self).cursor,
    {
        if self.input_cond {
            self.content.clear();
            self.cursor = 0;
        }
    }

    /// Moves the cursor left by `step`, stopping at the start, when input is
    /// accepted.
    pub fn cursor_left(&mut self, step: usize)
        ensures
            final(self).content@ == old(self).content@,
            final(self).prompt == old(self).prompt,
            final(self).input_cond == old(self).input_cond,
            final(self).cursor == if old(self).input_cond {
                if old(self).cursor >= step {
                    (old(self).cursor - step) as usize
                } else {
                    0usize
                }
            } else {
                old(self).cursor
            },
    {
        if self.input_cond {
            if self.cursor >= step {
                self.cursor = self.cursor - step;
            } else {
                self.cursor = 0;
            }
        }
    }

    /// Moves the cursor right by `step`, stopping at the end of the
    /// content, when input is accepted.
    pub fn cursor_right(&mut self, step: usize)
        requires
            old(self).cursor + step <= usize::MAX,
        ensures
            final(self).content@ == old(self).content@,
            final(self).prompt == old(self).prompt,
            final(self).input_cond == old(self).input_cond,
            final(self).cursor == if old(self).input_cond {
                if old(self).cursor + step <= old(self).content@.len() {
                    (old(self).cursor + step) as usize
                } else {
                    old(self).content@.len() as usize
                }
            } else {
                old(self).cursor
            },
    {
        if self.input_cond {
            let stepped = self.cursor + step;
            if stepped <= self.content.len() {
                self.cursor = stepped;
            } else {
                self.cursor = self.content.len();
            }
        }
    }

    /// The cursor position.
    pub fn cursor(&self) -> (r: usize)
        ensures
            r == self.cursor,
    {
        self.cursor
    }

    /// Inserts a character left of the cursor, when input is accepted.
    pub fn add_char(&mut self, c: char)
        requires
            old(self).wf(),
        ensures
            final(self).prompt == old(self).prompt,
            final(self).input_cond == old(self).input_cond,
            final(self).wf(),
            old(self).input_cond ==> final(self).content@ == old(self).content@.insert(
                old(self).cursor as int,
                c,
            ) && final(self).cursor == old(self).cursor + 1,
            !old(self).input_cond ==> final(self).content@ == old(self).content@ && final(self).cursor == old(self).cursor,
    {
        if self.input_cond {
            self.content.insert(self.cursor, c);
            let _grown = self.content.len();
            self.cursor = self.cursor + 1;
        }
    }

    /// Removes the character left of the cursor, when input is accepted and
    /// the cursor is not at the start.
    pub fn del_char(&mut self)
        requires
            old(self).wf(),
        ensures
            final(self).prompt == old(self).prompt,
            final(self).input_cond == old(self).input_cond,
            final(self).wf(),
            (old(self).input_cond && old(self).cursor >= 1) ==> final(self).content@ == old(self).content@.remove(old(self).cursor - 1) && final(self).cursor == old(self).cursor - 1,
            !(old(self).input_cond && old(self).cursor >= 1) ==> final(self).content@ == old(self).content@ && final(self).cursor == old(self).cursor,
    {
        if self.input_cond {
            if self.cursor >= 1 {
                let target = self.cursor - 1;
                self.content.remove(target);
                self.cursor = target;
            }
        }
    }
}

} // verus!
