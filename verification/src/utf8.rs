//! A cursor over the characters of a string slice. Assembly source is
//! UTF-8 and a word may hold non-ASCII characters, so the scanner walks
//! whole characters, never bytes.

use vstd::prelude::*;

verus! {

/// Walks a string slice one character at a time, handing out each
/// character with its position.
pub struct Utf8CharIterator<'a> {
    string: &'a str,
    index: usize,
}

impl<'a> Utf8CharIterator<'a> {
    /// The text being walked.
    pub closed spec fn text(&self) -> Seq<char> {
        self.string@
    }

    /// How many characters were handed out already.
    pub closed spec fn cursor(&self) -> int {
        self.index as int
    }

    pub fn new(string: &'a str) -> (it: Utf8CharIterator<'a>)
        ensures
            it.text() == string@,
            it.cursor() == 0,
    {
        Utf8CharIterator { string, index: 0 }
    }

    /// The next character and its position, or `None` past the end.
    pub fn next(&mut self) -> (r: Option<(usize, char)>)
        ensures
            final(self).text() == old(self).text(),
            if old(self).cursor() < old(self).text().len() {
                r == Some((old(self).cursor() as usize, old(self).text()[old(self).cursor()]))
                    && final(self).cursor() == old(self).cursor() + 1
            } else {
                r is None && final(self).cursor() == old(self).cursor()
            },
    {
        if self.index < self.string.unicode_len() {
            let i = self.index;
            let c = self.string.get_char(i);
            self.index = i + 1;
            Some((i, c))
        } else {
            None
        }
    }
}

} // verus!
