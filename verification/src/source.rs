//! A sequential source of bytes held in memory.

use crate::error::Error;
use vstd::prelude::*;
use vstd::slice::slice_subrange;

verus! {

/// The bytes of a slice that have not been read yet. Reading goes forward
/// only: there is no seeking back.
pub struct ByteSource<'a> {
    bytes: &'a [u8],
}

impl<'a> View for ByteSource<'a> {
    type V = Seq<u8>;

    /// The bytes that are still to be read, in order.
    closed spec fn view(&self) -> Seq<u8> {
        self.bytes@
    }
}

impl<'a> ByteSource<'a> {
    /// A source that will yield the bytes of `bytes` from the first on.
    pub fn new(bytes: &'a [u8]) -> (source: Self)
        ensures
            source@ == bytes@,
    {
        ByteSource { bytes }
    }

    /// The bytes that are still to be read.
    pub fn as_slice(&self) -> (bytes: &'a [u8])
        ensures
            bytes@ == self@,
    {
        self.bytes
    }

    /// Reads one byte, or fails with `UnexpectedEof` where none is left.
    pub fn next_byte(&mut self) -> (r: Result<u8, Error>)
        ensures
            old(self)@.len() > 0 ==> r == Ok::<u8, Error>(old(self)@[0]) && final(self)@ == old(
                self,
            )@.skip(1),
            old(self)@.len() == 0 ==> r == Err::<u8, Error>(Error::UnexpectedEof) && final(self)@
                == old(self)@,
    {
        if self.bytes.len() == 0 {
            return Err(Error::UnexpectedEof);
        }
        let byte: u8 = self.bytes[0];
        self.bytes = slice_subrange(self.bytes, 1, self.bytes.len());
        Ok(byte)
    }

    /// Passes over the next `count` bytes.
    pub fn advance(&mut self, count: usize)
        requires
            count <= old(self)@.len(),
        ensures
            final(self)@ == old(self)@.skip(count as int),
    {
        self.bytes = slice_subrange(self.bytes, count, self.bytes.len());
    }
}

} // verus!
