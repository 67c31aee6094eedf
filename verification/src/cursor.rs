//! A read position over an immutable byte buffer.

use vstd::prelude::*;

verus! {

/// A byte buffer and the offset of the next byte to read. The offset may lie
/// at or past the end of the buffer: reading there finds the end of input.
pub struct Cursor<'a> {
    pub data: &'a [u8],
    pub pos: usize,
}

impl<'a> Cursor<'a> {
    /// The bytes under the cursor.
    pub open spec fn bytes(&self) -> Seq<u8> {
        self.data@
    }

    /// Whether `other` reads the same buffer as `self`.
    pub open spec fn same_bytes(&self, other: &Cursor) -> bool {
        self.data@ == other.data@
    }

    /// A cursor at the start of `data`.
    pub fn new(data: &'a [u8]) -> (c: Self)
        ensures
            c.data@ == data@,
            c.pos == 0,
    {
        Cursor { data, pos: 0 }
    }

    /// A cursor over `data` that starts at `pos`.
    pub fn at(data: &'a [u8], pos: usize) -> (c: Self)
        ensures
            c.data@ == data@,
            c.pos == pos,
    {
        Cursor { data, pos }
    }

    /// The byte at the cursor, which stays where it is.
    pub fn peek_byte(&self) -> (r: Option<u8>)
        ensures
            r == byte_at(self.data@, self.pos as int),
            r is Some ==> self.pos < usize::MAX,
    {
        if self.pos < self.data.len() {
            Some(self.data[self.pos])
        } else {
            None
        }
    }

    /// Reads one byte and moves past it; at the end of input nothing moves.
    pub fn read_byte(&mut self) -> (r: Option<u8>)
        ensures
            final(self).data == old(self).data,
            r == byte_at(old(self).data@, old(self).pos as int),
            r is Some ==> final(self).pos == old(self).pos + 1,
            r is None ==> final(self).pos == old(self).pos,
    {
        if self.pos < self.data.len() {
            let b = self.data[self.pos];
            self.pos = self.pos + 1;
            Some(b)
        } else {
            None
        }
    }

    /// Moves back by `n` bytes, or to the start where fewer were read.
    pub fn unread_bytes(&mut self, n: usize)
        ensures
            final(self).data == old(self).data,
            final(self).pos == if n <= old(self).pos {
                old(self).pos - n
            } else {
                0
            },
    {
        if n <= self.pos {
            self.pos = self.pos - n;
        } else {
            self.pos = 0;
        }
    }
}

/// The byte of `s` at `pos`, or `None` when `pos` is outside `s`.
pub open spec fn byte_at(s: Seq<u8>, pos: int) -> Option<u8> {
    if 0 <= pos < s.len() {
        Some(s[pos])
    } else {
        None
    }
}

} // verus!
