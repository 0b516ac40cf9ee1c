//! A cursor over the characters of a text.
use crate::text::chars_of;
use vstd::prelude::*;

verus! {

/// A text and the index of the next character to read.
pub struct Reader {
    f: Vec<char>,
    index: usize,
}

impl View for Reader {
    /// The text, and how many of its characters have been read.
    type V = (Seq<char>, nat);

    closed spec fn view(&self) -> (Seq<char>, nat) {
        (self.f@, self.index as nat)
    }
}

impl Reader {
    /// A reader at the start of `things`.
    pub fn from_string(things: String) -> (r: Reader)
        ensures
            r@ == (things@, 0nat),
    {
        Reader { f: chars_of(things.as_str()), index: 0 }
    }

    /// Whether a character is left to read.
    pub fn has_next(&mut self) -> (r: bool)
        ensures
            final(self)@ == old(self)@,
            r == (old(self)@.1 < old(self)@.0.len()),
    {
        self.index < self.f.len()
    }

    /// The next character, if one is left; nothing is read.
    pub fn peek(&mut self) -> (r: Option<char>)
        ensures
            final(self)@ == old(self)@,
            r == (if old(self)@.1 < old(self)@.0.len() {
                Some(old(self)@.0[old(self)@.1 as int])
            } else {
                None
            }),
    {
        if self.index < self.f.len() {
            Some(self.f[self.index])
        } else {
            None
        }
    }

    /// Reads the next character if it is `curr`, and says whether it did.
    pub fn consume(&mut self, curr: char) -> (r: bool)
        ensures
            r == (old(self)@.1 < old(self)@.0.len() && old(self)@.0[old(self)@.1 as int] == curr),
            final(self)@.0 == old(self)@.0,
            final(self)@.1 == (if r {
                old(self)@.1 + 1
            } else {
                old(self)@.1 + 0
            }),
    {
        if self.index < self.f.len() && self.f[self.index] == curr {
            self.index = self.index + 1;
            true
        } else {
            false
        }
    }
}

} // verus!
