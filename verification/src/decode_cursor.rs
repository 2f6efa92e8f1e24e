//! The read side: a buffer and a position in it.
use vstd::prelude::*;

use crate::le::{get_le, le_value, lemma_le_value_bound, lemma_radix_values};
use crate::DecodeError;

verus! {

/// A read position in a buffer.
pub struct DecodeCursor<'a> {
    buffer: &'a [u8],
    offset: usize,
}

/// Whether `n` bytes can be read at `offset` in `buffer`.
pub open spec fn in_bounds(buffer: Seq<u8>, offset: nat, n: nat) -> bool {
    offset + n <= buffer.len()
}

/// The absolute offset stored in the four bytes at `offset` in `buffer`.
pub open spec fn pointer_at(buffer: Seq<u8>, offset: nat) -> nat
    recommends
        in_bounds(buffer, offset, 4),
{
    le_value(buffer.subrange(offset as int, offset + 4 as int))
}

impl<'a> DecodeCursor<'a> {
    /// The buffer that the cursor reads.
    pub closed spec fn bytes(&self) -> Seq<u8> {
        self.buffer@
    }

    /// The offset in the buffer of the next byte to read.
    pub closed spec fn position(&self) -> nat {
        self.offset as nat
    }

    pub fn new(buffer: &'a [u8]) -> (cursor: Self)
        ensures
            cursor.bytes() == buffer@,
            cursor.position() == 0,
    {
        Self { buffer, offset: 0 }
    }

    pub fn buffer(&self) -> (buffer: &'a [u8])
        ensures
            buffer@ == self.bytes(),
    {
        self.buffer
    }

    pub fn offset(&self) -> (offset: usize)
        ensures
            offset == self.position(),
    {
        self.offset
    }

    pub fn at_offset(buffer: &'a [u8], offset: usize) -> (cursor: Self)
        ensures
            cursor.bytes() == buffer@,
            cursor.position() == offset,
    {
        Self { buffer, offset }
    }

    /// Takes the next `size` bytes of the base region. Fails, and leaves the
    /// cursor where it is, if the buffer ends before them.
    pub fn base(&mut self, size: usize) -> (result: Result<&'a [u8], DecodeError>)
        ensures
            final(self).bytes() == old(self).bytes(),
            match result {
                Ok(taken) => in_bounds(old(self).bytes(), old(self).position(), size as nat)
                    && taken@ == old(self).bytes().subrange(
                    old(self).position() as int,
                    old(self).position() + size,
                ) && final(self).position() == old(self).position() + size,
                Err(_) => !in_bounds(old(self).bytes(), old(self).position(), size as nat)
                    && final(self).position() == old(self).position(),
            },
    {
        let len = self.buffer.len();
        if size > len || self.offset > len - size {
            return Err(DecodeError);
        }
        let start = self.offset;
        self.offset = start + size;
        Ok(vstd::slice::slice_subrange(self.buffer, start, start + size))
    }

    /// Reads a four-byte offset from the base region and takes the `size`
    /// bytes that it points to.
    pub fn scratch(&mut self, size: usize) -> (result: Result<&'a [u8], DecodeError>)
        ensures
            final(self).bytes() == old(self).bytes(),
            match result {
                Ok(taken) => in_bounds(old(self).bytes(), old(self).position(), 4) && in_bounds(
                    old(self).bytes(),
                    pointer_at(old(self).bytes(), old(self).position()),
                    size as nat,
                ) && taken@ == old(self).bytes().subrange(
                    pointer_at(old(self).bytes(), old(self).position()) as int,
                    pointer_at(old(self).bytes(), old(self).position()) + size,
                ) && final(self).position() == old(self).position() + 4,
                Err(_) => !(in_bounds(old(self).bytes(), old(self).position(), 4) && in_bounds(
                    old(self).bytes(),
                    pointer_at(old(self).bytes(), old(self).position()),
                    size as nat,
                )),
            },
    {
        let inner = self.inner_in_scratch()?;
        let len = self.buffer.len();
        if size > len || inner.offset > len - size {
            return Err(DecodeError);
        }
        Ok(vstd::slice::slice_subrange(self.buffer, inner.offset, inner.offset + size))
    }

    /// Reads a four-byte offset from the base region and returns a cursor
    /// at that offset. This cursor moves past the four bytes only.
    pub fn inner_in_scratch(&mut self) -> (result: Result<DecodeCursor<'a>, DecodeError>)
        ensures
            final(self).bytes() == old(self).bytes(),
            match result {
                Ok(inner) => in_bounds(old(self).bytes(), old(self).position(), 4)
                    && inner.bytes() == old(self).bytes() && inner.position() == pointer_at(
                    old(self).bytes(),
                    old(self).position(),
                ) && final(self).position() == old(self).position() + 4,
                Err(_) => !in_bounds(old(self).bytes(), old(self).position(), 4)
                    && final(self).position() == old(self).position(),
            },
    {
        let slot = self.base(4)?;
        proof {
            lemma_le_value_bound(slot@);
            lemma_radix_values();
        }
        let offset = get_le(slot) as usize;
        Ok(Self::at_offset(self.buffer, offset))
    }

    /// Skips `size` bytes of the base region without reading them: the
    /// cursor moves on by `size`, whether or not the buffer reaches that far.
    pub fn advance(&mut self, size: usize)
        requires
            old(self).position() + size <= usize::MAX,
        ensures
            final(self).bytes() == old(self).bytes(),
            final(self).position() == old(self).position() + size,
    {
        self.offset = self.offset + size;
    }

    /// Moves the cursor to the offset stored in the next four bytes.
    pub fn follow_scratch(&mut self) -> (result: Result<(), DecodeError>)
        ensures
            final(self).bytes() == old(self).bytes(),
            match result {
                Ok(_) => in_bounds(old(self).bytes(), old(self).position(), 4)
                    && final(self).position() == pointer_at(
                    old(self).bytes(),
                    old(self).position(),
                ),
                Err(_) => !in_bounds(old(self).bytes(), old(self).position(), 4)
                    && final(self).position() == old(self).position(),
            },
    {
        let inner = self.inner_in_scratch()?;
        self.offset = inner.offset;
        Ok(())
    }
}

} // verus!
