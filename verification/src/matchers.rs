//! Character-level matchers: the `Matcher` contract, single-character
//! range matchers, and the `Concat` repetition that collapses many
//! matches into one.

use vstd::prelude::*;
use crate::cursor::{InputPointer, Match};

verus! {

/// A matcher consumes characters at the cursor.  `spec_match` gives,
/// for every text and position, how many characters the matcher takes
/// there (`None` when it does not match); a successful match always
/// consumes at least one character.
pub trait Matcher {
    spec fn spec_match(&self, text: Seq<char>, pos: int) -> Option<int>;

    fn match_input<'a>(&self, pointer: InputPointer<'a>) -> (r: Result<Match<'a>, String>)
        requires
            pointer.wf(),
        ensures
            match r {
                Ok(m) => {
                    &&& m.pointer.input == pointer.input
                    &&& m.pointer.pos > pointer.pos
                    &&& m.pointer.wf()
                    &&& self.spec_match(pointer.text(), pointer.pos as int) == Some(
                        m.pointer.pos - pointer.pos,
                    )
                    &&& m.matched@ == pointer.text().subrange(
                        pointer.pos as int,
                        m.pointer.pos as int,
                    )
                },
                Err(_) => self.spec_match(pointer.text(), pointer.pos as int) is None,
            },
    ;
}

/// Matches one character between the two bounds, inclusive.
pub struct CharRange(pub char, pub char);

impl Matcher for CharRange {
    open spec fn spec_match(&self, text: Seq<char>, pos: int) -> Option<int> {
        if 0 <= pos < text.len() && self.0 <= text[pos] && text[pos] <= self.1 {
            Some(1)
        } else {
            None
        }
    }

    fn match_input<'a>(&self, pointer: InputPointer<'a>) -> (r: Result<Match<'a>, String>) {
        let n = pointer.input.as_str().unicode_len();
        if pointer.pos < n {
            let c = pointer.input.as_str().get_char(pointer.pos);
            if self.0 <= c && c <= self.1 {
                let matched = pointer.peek_n(1);
                let advanced = pointer.advance(1);
                return Ok(Match { pointer: advanced, matched });
            }
        }
        Err(String::from_str("character not in range"))
    }
}

/// The same single-character range check, under the parser interface
/// used by `Concat`.
pub struct CharRangeParser(pub char, pub char);

impl CharRangeParser {
    /// One character between the bounds, as a match.
    pub fn parse<'a>(&self, pointer: &InputPointer<'a>) -> (r: Result<Match<'a>, String>)
        requires
            pointer.wf(),
        ensures
            match r {
                Ok(m) => {
                    &&& m.pointer.input == pointer.input
                    &&& m.pointer.pos > pointer.pos
                    &&& m.pointer.wf()
                    &&& self.spec_match(pointer.text(), pointer.pos as int) == Some(
                        m.pointer.pos - pointer.pos,
                    )
                    &&& m.matched@ == pointer.text().subrange(
                        pointer.pos as int,
                        m.pointer.pos as int,
                    )
                },
                Err(_) => self.spec_match(pointer.text(), pointer.pos as int) is None,
            },
    {
        self.match_input(*pointer)
    }
}

impl Matcher for CharRangeParser {
    open spec fn spec_match(&self, text: Seq<char>, pos: int) -> Option<int> {
        if 0 <= pos < text.len() && self.0 <= text[pos] && text[pos] <= self.1 {
            Some(1)
        } else {
            None
        }
    }

    fn match_input<'a>(&self, pointer: InputPointer<'a>) -> (r: Result<Match<'a>, String>) {
        let n = pointer.input.as_str().unicode_len();
        if pointer.pos < n {
            let c = pointer.input.as_str().get_char(pointer.pos);
            if self.0 <= c && c <= self.1 {
                let matched = pointer.peek_n(1);
                let advanced = pointer.advance(1);
                return Ok(Match { pointer: advanced, matched });
            }
        }
        Err(String::from_str("character not in range"))
    }
}

/// Concatenates subsequent results of applying a matcher into a single
/// match, with optional lower and upper bounds on the number of
/// matches.
pub struct Concat<'a, M: Matcher> {
    pub parser: &'a M,
    /// Fewer matches than this is an error.
    pub at_least: Option<u32>,
    /// Matching stops as soon as this many matches were made.
    pub at_most: Option<u32>,
}

impl<'a, M: Matcher> Concat<'a, M> {
    /// Where the greedy repetition, entered with `count` matches made,
    /// stops: the final position and the final count.
    pub open spec fn spec_repeat(&self, text: Seq<char>, pos: int, count: int) -> (int, int)
        decreases text.len() - pos,
    {
        match self.parser.spec_match(text, pos) {
            Option::None => (pos, count),
            Option::Some(k) => {
                if k < 1 || pos < 0 || pos + k > text.len() {
                    (pos, count)
                } else {
                    if self.at_most matches Some(upper) && count + 1 >= upper {
                        (pos + k, count + 1)
                    } else {
                        self.spec_repeat(text, pos + k, count + 1)
                    }
                }
            },
        }
    }

    /// Where `parse` succeeds and what it consumes: at least one match
    /// is needed, and the count must reach `at_least`.
    pub open spec fn spec_parse(&self, text: Seq<char>, pos: int) -> Option<int> {
        let r = self.spec_repeat(text, pos, 0);
        if r.0 == pos {
            Option::None
        } else if self.at_least matches Some(lower) && r.1 < lower {
            Option::None
        } else {
            Option::Some(r.0)
        }
    }

    /// Repeats the matcher greedily and returns one match spanning all
    /// the consumed characters.
    pub fn parse<'b>(&self, pointer: &InputPointer<'b>) -> (r: Result<Match<'b>, String>)
        requires
            pointer.wf(),
        ensures
            match r {
                Ok(m) => {
                    &&& m.pointer.input == pointer.input
                    &&& m.pointer.wf()
                    &&& self.spec_parse(pointer.text(), pointer.pos as int) == Some(
                        m.pointer.pos as int,
                    )
                    &&& m.matched@ == pointer.text().subrange(
                        pointer.pos as int,
                        m.pointer.pos as int,
                    )
                },
                Err(_) => self.spec_parse(pointer.text(), pointer.pos as int) is None,
            },
    {
        let ghost text = pointer.text();
        let ghost pos0 = pointer.pos as int;
        let mut cur: InputPointer<'b> = *pointer;
        let mut count: usize = 0;
        let mut done = false;
        while !done
            invariant
                pointer.wf(),
                cur.wf(),
                cur.input == pointer.input,
                cur.pos >= pointer.pos,
                text == pointer.text(),
                pos0 == pointer.pos as int,
                !done ==> self.spec_repeat(text, pos0, 0) == self.spec_repeat(
                    text,
                    cur.pos as int,
                    count as int,
                ),
                done ==> self.spec_repeat(text, pos0, 0) == (cur.pos as int, count as int),
                count <= cur.pos - pointer.pos,
            decreases text.len() - cur.pos + (if done {
                0int
            } else {
                1int
            }),
        {
            let result = self.parser.match_input(cur);
            match result {
                Ok(m) => {
                    count = count + 1;
                    cur = m.pointer;
                    if let Some(upper) = self.at_most {
                        if count as u64 >= upper as u64 {
                            done = true;
                        }
                    }
                },
                Err(_) => {
                    done = true;
                },
            }
        }
        if cur.pos == pointer.pos {
            return Err(String::from_str("nothing matched"));
        }
        if let Some(lower) = self.at_least {
            if (count as u64) < lower as u64 {
                return Err(String::from_str("not enough matches"));
            }
        }
        let matched = pointer.input.as_str().substring_char(pointer.pos, cur.pos);
        Ok(Match { pointer: cur, matched })
    }
}

} // verus!
