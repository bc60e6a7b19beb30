//! A read-only cursor over the characters of a source string.
//!
//! The cursor works on Unicode scalar values, not bytes. At the end of the
//! input `peek` and `eat` return the `NUL` sentinel [`EOF_CHAR`]; a literal
//! `NUL` in the input is indistinguishable from it, so callers that care use
//! [`Cursor::is_eof`].

use vstd::prelude::*;
use vstd::string::StrSliceExecFns;

verus! {

/// The sentinel returned at end of input.
pub const EOF_CHAR: char = '\0';

/// A position inside a source string, counted in characters.
pub struct Cursor<'a> {
    src: &'a str,
    pos: usize,
    end: usize,
}

impl<'a> Cursor<'a> {
    /// The characters of the whole source.
    pub closed spec fn all(self) -> Seq<char> {
        self.src@
    }

    /// How many characters have been consumed.
    pub closed spec fn at(self) -> int {
        self.pos as int
    }

    /// The characters not yet consumed.
    pub open spec fn rest(self) -> Seq<char> {
        self.all().skip(self.at())
    }

    /// The cached length is the character count of the source.
    pub closed spec fn cache_ok(self) -> bool {
        self.end == self.src@.len()
    }

    /// The cursor's bookkeeping is sound: the cached length is the character
    /// count of the source and the position never passes the end.
    pub open spec fn wf(self) -> bool {
        self.cache_ok() && 0 <= self.at() <= self.all().len()
    }

    /// A fresh cursor at the start of `src`.
    pub fn new(src: &'a str) -> (c: Cursor<'a>)
        ensures
            c.wf(),
            c.all() == src@,
            c.at() == 0,
    {
        let end = src.unicode_len();
        Cursor { src, pos: 0, end }
    }

    /// True exactly when no characters remain.
    pub fn is_eof(&self) -> (b: bool)
        requires
            self.wf(),
        ensures
            b == (self.rest().len() == 0),
    {
        self.pos == self.end
    }

    /// The next character, or [`EOF_CHAR`] at end of input; does not advance.
    pub fn peek(&self) -> (c: char)
        requires
            self.wf(),
        ensures
            c == if self.rest().len() > 0 {
                self.rest()[0]
            } else {
                EOF_CHAR
            },
    {
        if self.pos < self.end {
            self.src.get_char(self.pos)
        } else {
            EOF_CHAR
        }
    }

    /// The character `n` places ahead of the next one, or [`EOF_CHAR`] when
    /// the input is shorter than that.
    pub fn peekn(&self, n: usize) -> (c: char)
        requires
            self.wf(),
        ensures
            c == if n < self.rest().len() {
                self.rest()[n as int]
            } else {
                EOF_CHAR
            },
    {
        if n < self.end - self.pos {
            self.src.get_char(self.pos + n)
        } else {
            EOF_CHAR
        }
    }

    /// Consume and return the next character, or return [`EOF_CHAR`] and stay
    /// put at end of input.
    pub fn eat(&mut self) -> (c: char)
        requires
            old(self).wf(),
        ensures
            final(self).wf(),
            final(self).all() == old(self).all(),
            if old(self).rest().len() > 0 {
                c == old(self).rest()[0] && final(self).at() == old(self).at() + 1
            } else {
                c == EOF_CHAR && final(self).at() == old(self).at()
            },
    {
        if self.pos < self.end {
            let c = self.src.get_char(self.pos);
            self.pos = self.pos + 1;
            c
        } else {
            EOF_CHAR
        }
    }

    /// The text between a saved position and the current one.
    pub fn taken_since(&self, start: usize) -> (v: String)
        requires
            self.wf(),
            start <= self.at(),
        ensures
            v@ == self.all().subrange(start as int, self.at()),
    {
        self.src.substring_char(start, self.pos).to_owned()
    }

    /// The current position, for [`Cursor::taken_since`].
    pub fn mark(&self) -> (p: usize)
        ensures
            p == self.at(),
    {
        self.pos
    }
}

} // verus!
