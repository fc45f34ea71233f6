//! A text in Forsyth–Edwards notation, kept as a string of its own type.

use vstd::prelude::*;
use crate::text::{chars_of, pop_char, push_char};

verus! {

/// The place of the first blank in the text, or its length if it has none.
pub open spec fn first_blank(s: Seq<char>, i: int) -> int
    decreases s.len() - i,
{
    if i < 0 || i >= s.len() {
        s.len() as int
    } else if s[i] == ' ' {
        i
    } else {
        first_blank(s, i + 1)
    }
}

#[derive(Debug)]
pub struct FenString(pub String);

impl View for FenString {
    type V = Seq<char>;

    open spec fn view(&self) -> Seq<char> {
        self.0@
    }
}

impl FenString {
    pub fn new(s: &str) -> (r: Self)
        ensures
            r@ == s@,
    {
        Self(String::from_str(s))
    }

    pub fn as_str(&self) -> (r: &str)
        ensures
            r@ == self@,
    {
        self.0.as_str()
    }

    /// The characters of the text, in order.
    pub fn chars(&self) -> (r: Vec<char>)
        ensures
            r@ == self@,
    {
        chars_of(self.0.as_str())
    }

    pub fn push(&mut self, c: char)
        ensures
            final(self)@ == old(self)@.push(c),
    {
        push_char(&mut self.0, c);
    }

    /// Drops the last character, if there is one.
    pub fn pop(&mut self)
        ensures
            final(self)@ == if old(self)@.len() > 0 {
                old(self)@.drop_last()
            } else {
                old(self)@
            },
    {
        let _ = pop_char(&mut self.0);
    }

    /// The board part of the text: what stands before the first blank.
    pub fn get_pieces_part(&self) -> (r: &str)
        ensures
            r@ == self@.subrange(0, first_blank(self@, 0)),
    {
        let text = self.0.as_str();
        let n = text.unicode_len();
        let mut i: usize = 0;
        while i < n && text.get_char(i) != ' '
            invariant
                n == text@.len(),
                i <= n,
                first_blank(text@, 0) == first_blank(text@, i as int),
            decreases n - i,
        {
            i += 1;
        }
        text.substring_char(0, i)
    }
}

} // verus!
