//! The scanner: a text and a cursor that never leaves it.

use crate::error::Error;
use crate::trusted::collect_chars;
use std::ops::Range;
use vstd::prelude::*;
use vstd::std_specs::convert::FromSpecImpl;

verus! {

/// A text, held character by character, and a cursor into it.
///
/// The cursor never leaves the text: it is at most the text's length, and an
/// operation that would carry it further fails and leaves it where it was.
#[derive(Debug)]
pub struct Scanner {
    chars: Vec<char>,
    len: usize,
    pos: usize,
}

/// A [`Scanner`] as a mathematical value.
pub struct ScannerView {
    /// The whole text, which never changes.
    pub input: Seq<char>,
    /// The cursor: how many characters lie behind it.
    pub pos: nat,
}

impl ScannerView {
    /// How many characters lie at and after the cursor.
    pub open spec fn remaining(self) -> int {
        self.input.len() - self.pos
    }

    /// The same text with the cursor `len` characters further on.
    pub open spec fn advanced(self, len: nat) -> ScannerView {
        ScannerView { input: self.input, pos: self.pos + len }
    }

    /// The `len` characters that start `offset` characters after the cursor.
    pub open spec fn ahead(self, offset: int, len: int) -> Seq<char> {
        self.input.subrange(self.pos + offset, self.pos + offset + len)
    }
}

impl View for Scanner {
    type V = ScannerView;

    closed spec fn view(&self) -> ScannerView {
        ScannerView { input: self.chars@, pos: self.pos as nat }
    }
}

impl Scanner {
    #[verifier::type_invariant]
    spec fn well_formed(&self) -> bool {
        self.len == self.chars@.len() && self.pos <= self.len
    }

    /// A scanner over `input`, with the cursor before the first character.
    pub fn new(input: &str) -> (scanner: Self)
        ensures
            scanner@ == (ScannerView { input: input@, pos: 0 }),
    {
        let chars = collect_chars(input);
        let len = chars.len();
        Self { len, chars, pos: 0 }
    }

    /// Succeeds when the text holds a character at offset `pos`.
    fn check(&self, pos: usize) -> (r: Result<(), Error>)
        ensures
            r is Ok <==> pos < self@.input.len(),
            r is Err ==> r == Err::<(), Error>(Error::OutOfRange),
    {
        proof {
            use_type_invariant(self);
        }
        if pos < self.len {
            Ok(())
        } else {
            Err(Error::OutOfRange)
        }
    }

    /// Succeeds when `len` characters lie at and after the cursor.
    pub fn check_len(&self, len: usize) -> (r: Result<(), Error>)
        ensures
            r is Ok <==> len <= self@.remaining(),
            r is Err ==> r == Err::<(), Error>(Error::OutOfRange),
    {
        proof {
            use_type_invariant(self);
        }
        match self.pos.checked_add(len) {
            None => Err(Error::OutOfRange),
            Some(end) => if len == 0 {
                Ok(())
            } else {
                self.check(end - 1)
            },
        }
    }

    /// Whether the cursor is at the end of the text.
    pub fn is_eof(&self) -> (eof: bool)
        ensures
            eof == (self@.pos == self@.input.len()),
            self@.pos <= self@.input.len(),
    {
        proof {
            use_type_invariant(self);
        }
        self.check(self.pos).is_err()
    }

    /// The cursor. It lies within the text, whose length is a `usize`.
    pub fn get_pos(&self) -> (pos: usize)
        ensures
            pos == self@.pos,
            pos <= self@.input.len() <= usize::MAX,
    {
        proof {
            use_type_invariant(self);
        }
        self.pos
    }

    /// Takes the next `len` characters and moves the cursor past them, or
    /// fails and moves nothing.
    pub fn read_len(&mut self, len: usize) -> (r: Result<String, Error>)
        ensures
            match r {
                Ok(s) => len <= old(self)@.remaining() && s@ == old(self)@.ahead(0, len as int)
                    && final(self)@ == old(self)@.advanced(len as nat),
                Err(e) => len > old(self)@.remaining() && e == Error::OutOfRange && final(self)@
                    == old(self)@,
            },
    {
        let s = self.peek_len(len)?;
        self.skip_len(len)?;
        Ok(s)
    }

    /// The next `len` characters; the cursor stays.
    pub fn peek_len(&self, len: usize) -> (r: Result<String, Error>)
        ensures
            match r {
                Ok(s) => len <= self@.remaining() && s@ == self@.ahead(0, len as int),
                Err(e) => len > self@.remaining() && e == Error::OutOfRange,
            },
    {
        self.peek_range(0..len)
    }

    /// The `i.end` characters that start `i.start` characters after the
    /// cursor; the cursor stays. Note that `i.end` is a count, not an offset.
    pub fn peek_range(&self, i: Range<usize>) -> (r: Result<String, Error>)
        ensures
            match r {
                Ok(s) => i.start + i.end <= self@.remaining() && s@ == self@.ahead(
                    i.start as int,
                    i.end as int,
                ),
                Err(e) => i.start + i.end > self@.remaining() && e == Error::OutOfRange,
            },
    {
        proof {
            use_type_invariant(self);
        }
        let start = match self.pos.checked_add(i.start) {
            Some(start) => start,
            None => return Err(Error::OutOfRange),
        };
        let end = match start.checked_add(i.end) {
            Some(end) => end,
            None => return Err(Error::OutOfRange),
        };
        if end > self.len {
            return Err(Error::OutOfRange);
        }
        let mut s = String::new();
        let mut at: usize = start;
        while at < end
            invariant
                start <= at <= end <= self.chars@.len(),
                s@ == self.chars@.subrange(start as int, at as int),
            decreases end - at,
        {
            s.push(self.chars[at]);
            at = at + 1;
        }
        Ok(s)
    }

    /// The character at the cursor; the cursor stays.
    pub fn peek(&self) -> (r: Result<char, Error>)
        ensures
            match r {
                Ok(c) => self@.pos < self@.input.len() && c == self@.input[self@.pos as int],
                Err(e) => self@.pos == self@.input.len() && e == Error::OutOfRange,
            },
    {
        proof {
            use_type_invariant(self);
        }
        self.check(self.pos)?;
        Ok(self.chars[self.pos])
    }

    /// Moves the cursor `len` characters on, or fails and moves nothing.
    pub fn skip_len(&mut self, len: usize) -> (r: Result<(), Error>)
        ensures
            match r {
                Ok(_) => len <= old(self)@.remaining() && final(self)@ == old(self)@.advanced(
                    len as nat,
                ),
                Err(e) => len > old(self)@.remaining() && e == Error::OutOfRange && final(self)@
                    == old(self)@,
            },
    {
        proof {
            use_type_invariant(&*self);
        }
        self.check_len(len)?;
        self.pos = self.pos + len;
        Ok(())
    }

    /// Moves the cursor one character on, or fails at the end of the text.
    pub fn skip(&mut self) -> (r: Result<(), Error>)
        ensures
            match r {
                Ok(_) => old(self)@.remaining() >= 1 && final(self)@ == old(self)@.advanced(1),
                Err(e) => old(self)@.remaining() == 0 && e == Error::OutOfRange && final(self)@
                    == old(self)@,
            },
    {
        proof {
            use_type_invariant(&*self);
        }
        self.skip_len(1)
    }

    /// Takes the character at the cursor and moves past it, or fails at the
    /// end of the text.
    pub fn read(&mut self) -> (r: Result<char, Error>)
        ensures
            match r {
                Ok(c) => old(self)@.remaining() >= 1 && c == old(self)@.input[old(self)@.pos as int]
                    && final(self)@ == old(self)@.advanced(1),
                Err(e) => old(self)@.remaining() == 0 && e == Error::OutOfRange && final(self)@
                    == old(self)@,
            },
    {
        let ch = self.peek()?;
        self.skip()?;
        Ok(ch)
    }
}

impl Clone for Scanner {
    fn clone(&self) -> (scanner: Self)
        ensures
            scanner@ == self@,
    {
        proof {
            use_type_invariant(self);
        }
        let chars = self.chars.clone();
        Self { chars, len: self.len, pos: self.pos }
    }
}

/// Conversions from texts. What `from` returns is stated on `from`
/// itself, over the view of the scanner.
impl<'a> From<&'a str> for Scanner {
    fn from(value: &'a str) -> (scanner: Self)
        ensures
            scanner@ == (ScannerView { input: value@, pos: 0 }),
    {
        Self::new(value)
    }
}

impl<'a> FromSpecImpl<&'a str> for Scanner {
    open spec fn obeys_from_spec() -> bool {
        false
    }

    open spec fn from_spec(v: &'a str) -> Self {
        arbitrary()
    }
}

impl From<String> for Scanner {
    fn from(value: String) -> (scanner: Self)
        ensures
            scanner@ == (ScannerView { input: value@, pos: 0 }),
    {
        Self::new(value.as_str())
    }
}

impl FromSpecImpl<String> for Scanner {
    open spec fn obeys_from_spec() -> bool {
        false
    }

    open spec fn from_spec(v: String) -> Self {
        arbitrary()
    }
}

impl<'a> From<&'a String> for Scanner {
    fn from(value: &'a String) -> (scanner: Self)
        ensures
            scanner@ == (ScannerView { input: value@, pos: 0 }),
    {
        Self::new(value.as_str())
    }
}

impl<'a> FromSpecImpl<&'a String> for Scanner {
    open spec fn obeys_from_spec() -> bool {
        false
    }

    open spec fn from_spec(v: &'a String) -> Self {
        arbitrary()
    }
}

} // verus!
