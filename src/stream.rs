//! A reading position over a byte slice.
use vstd::prelude::*;

use crate::error::VcError;

verus! {

/// Reads a byte slice from the front, one value at a time.
pub struct ByteReader<'a> {
    pub data: &'a [u8],
    pub pos: usize,
}

impl<'a> ByteReader<'a> {
    /// The position lies within the data.
    pub open spec fn wf(&self) -> bool {
        self.pos <= self.data@.len()
    }

    /// The bytes not yet read.
    pub open spec fn rest(&self) -> Seq<u8> {
        self.data@.subrange(self.pos as int, self.data@.len() as int)
    }

    /// `next` holds the same data as `self`, `n` bytes further on.
    pub open spec fn advanced(&self, next: &ByteReader, n: nat) -> bool {
        &&& next.data@ == self.data@
        &&& next.pos == self.pos + n
        &&& next.wf()
    }

    pub fn new(data: &'a [u8]) -> (r: ByteReader<'a>)
        ensures
            r.wf(),
            r.data@ == data@,
            r.pos == 0,
            r.rest() == data@,
    {
        let r = ByteReader { data, pos: 0 };
        assert(r.rest() =~= data@);
        r
    }

    /// The number of bytes not yet read.
    pub fn remaining(&self) -> (r: usize)
        requires
            self.wf(),
        ensures
            r == self.rest().len(),
    {
        self.data.len() - self.pos
    }

    /// Reads one byte, or fails at the end of the data.
    pub fn read_u8(&mut self) -> (r: Result<u8, VcError>)
        requires
            old(self).wf(),
        ensures
            final(self).wf(),
            match r {
                Ok(b) => old(self).rest().len() > 0 && b == old(self).rest()[0]
                    && old(self).advanced(final(self), 1),
                Err(e) => old(self).rest().len() == 0 && e == VcError::UnexpectedEof
                    && *final(self) == *old(self),
            },
    {
        if self.pos >= self.data.len() {
            return Err(VcError::UnexpectedEof);
        }
        let b = self.data[self.pos];
        self.pos = self.pos + 1;
        Ok(b)
    }

    /// Reads the next `n` bytes, or fails without moving when fewer are left.
    pub fn read_slice(&mut self, n: usize) -> (r: Result<&'a [u8], VcError>)
        requires
            old(self).wf(),
        ensures
            final(self).wf(),
            match r {
                Ok(s) => n <= old(self).rest().len() && s@ == old(self).rest().take(n as int)
                    && old(self).advanced(final(self), n as nat),
                Err(e) => n > old(self).rest().len() && e == VcError::UnexpectedEof
                    && *final(self) == *old(self),
            },
    {
        if n > self.data.len() - self.pos {
            return Err(VcError::UnexpectedEof);
        }
        let s = vstd::slice::slice_subrange(self.data, self.pos, self.pos + n);
        self.pos = self.pos + n;
        assert(s@ =~= old(self).rest().take(n as int));
        Ok(s)
    }
}

} // verus!
