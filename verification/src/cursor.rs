//! The cursor over an input string, and the match record the character
//! matchers produce.
//!
//! A cursor is an immutable pair of the input and a character position;
//! matchers never mutate one, they hand back an advanced copy.

use vstd::prelude::*;

verus! {

/// A position inside an input string.  Positions count characters, and
/// a well-formed pointer never lies past the end of the input.
#[derive(Clone, Copy, Debug, PartialEq)]
pub struct InputPointer<'a> {
    /// The input string.
    pub input: &'a String,
    /// Position in the input string, in characters.
    pub pos: usize,
}

impl<'a> InputPointer<'a> {
    /// The characters of the input.
    pub open spec fn text(&self) -> Seq<char> {
        self.input@
    }

    /// The position stays within the input.
    pub open spec fn wf(&self) -> bool {
        self.pos <= self.input@.len()
    }

    /// What remains of the input at this position.
    pub open spec fn remaining_text(&self) -> Seq<char> {
        if self.pos <= self.input@.len() {
            self.input@.subrange(self.pos as int, self.input@.len() as int)
        } else {
            Seq::empty()
        }
    }

    /// A pointer at the start of the given string.
    pub fn from_string(s: &String) -> (r: InputPointer)
        ensures
            r.input@ == s@,
            r.pos == 0,
            r.wf(),
    {
        InputPointer { input: s, pos: 0 }
    }

    /// Whether the pointer is at the end of the input.
    pub fn is_end(&self) -> (r: bool)
        ensures
            r == (self.pos >= self.text().len()),
    {
        self.pos >= self.input.as_str().unicode_len()
    }

    /// The remainder of the input from this position on; empty at the
    /// end.
    pub fn rest(&self) -> (r: &'a str)
        ensures
            r@ == self.remaining_text(),
    {
        let n = self.input.as_str().unicode_len();
        if self.pos >= n {
            let empty = "";
            proof {
                reveal_strlit("");
                assert(empty@ =~= self.remaining_text());
            }
            empty
        } else {
            self.input.as_str().substring_char(self.pos, n)
        }
    }

    /// The pointer advanced by `n` characters; the caller keeps it
    /// within bounds, as matchers derive `n` from a successful match.
    pub fn advance(&self, n: usize) -> (r: InputPointer<'a>)
        requires
            self.pos + n <= self.text().len(),
        ensures
            r.input@ == self.input@,
            r.input == self.input,
            r.pos == self.pos + n,
            r.wf(),
    {
        let _total = self.input.as_str().unicode_len();
        InputPointer { input: self.input, pos: self.pos + n }
    }

    /// The next `offset` characters from this position.
    pub fn peek_n(&self, offset: usize) -> (r: &'a str)
        requires
            self.pos + offset <= self.text().len(),
        ensures
            r@ == self.text().subrange(self.pos as int, self.pos + offset),
    {
        let _total = self.input.as_str().unicode_len();
        self.input.as_str().substring_char(self.pos, self.pos + offset)
    }

    /// The pointer moved to `pos`, clamped to the end of the input.
    pub fn at_pos(&self, pos: usize) -> (r: InputPointer<'a>)
        ensures
            r.input@ == self.input@,
            r.input == self.input,
            r.pos == if pos > self.text().len() {
                self.text().len() as usize
            } else {
                pos
            },
            r.wf(),
    {
        let n = self.input.as_str().unicode_len();
        let pos = if pos > n {
            n
        } else {
            pos
        };
        InputPointer { input: self.input, pos }
    }
}

/// A successful character-level match: the advanced pointer and the
/// matched characters.
#[derive(Debug)]
pub struct Match<'a> {
    /// After a successful match, the next unmatched part of the input.
    pub pointer: InputPointer<'a>,
    /// The characters the matcher consumed.
    pub matched: &'a str,
}

} // verus!
