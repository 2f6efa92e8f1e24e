//! The write side: a base region and a scratch region over one buffer.
use vstd::prelude::*;

use crate::le::{le_bytes, put_le};
use crate::Encode;

verus! {

/// What is left of one region of the buffer.
pub struct BufferEncodeCursor<'a> {
    pub buffer: &'a mut [u8],
}

/// A slice of no bytes.
fn nothing<'a>() -> (slice: &'a mut [u8])
    ensures
        slice@.len() == 0,
{
    &mut []
}

impl<'a> BufferEncodeCursor<'a> {
    /// A cursor over the whole of `buffer`.
    pub fn new(buffer: &'a mut [u8]) -> (cursor: Self)
        ensures
            cursor.buffer@ == old(buffer)@,
            final(buffer)@ == final(cursor.buffer)@,
    {
        Self { buffer }
    }

    /// Hands out the next `size` bytes of the region.
    pub fn take(&mut self, size: usize) -> (taken: &'a mut [u8])
        requires
            size <= old(self).buffer@.len(),
        ensures
            taken@ == old(self).buffer@.subrange(0, size as int),
            final(self).buffer@ == old(self).buffer@.subrange(
                size as int,
                old(self).buffer@.len() as int,
            ),
            final(old(self).buffer)@ == final(taken)@ + final(final(self).buffer)@,
    {
        let mut whole: &'a mut [u8] = nothing();
        core::mem::swap(&mut self.buffer, &mut whole);
        let (taken, remaining) = whole.split_at_mut(size);
        self.buffer = remaining;
        taken
    }
}

/// The write position in a buffer that holds one top-level value.
///
/// The base region is filled from its start. Each scratch allocation takes
/// the next bytes of the scratch region, and its absolute offset in the
/// buffer is written into the base.
pub struct EncodeCursor<'a> {
    pub base_cursor: BufferEncodeCursor<'a>,
    pub scratch_cursor: BufferEncodeCursor<'a>,
    pub scratch_offset: u32,
}

impl<'a> EncodeCursor<'a> {
    /// The number of bytes left in the base region.
    pub open spec fn base_room(&self) -> nat {
        self.base_cursor.buffer@.len()
    }

    /// The number of bytes left in the scratch region.
    pub open spec fn scratch_room(&self) -> nat {
        self.scratch_cursor.buffer@.len()
    }

    /// Splits `buffer` at the base length of `T`: the first part is the base
    /// region, the rest the scratch region.
    pub fn new<T: Encode + ?Sized>(buffer: &'a mut [u8]) -> (cursor: Self)
        requires
            T::layout_fits(),
            T::spec_base_len() <= old(buffer)@.len(),
            T::spec_base_len() <= u32::MAX,
        ensures
            cursor.base_room() == T::spec_base_len(),
            cursor.scratch_room() == old(buffer)@.len() - T::spec_base_len(),
            cursor.scratch_offset == T::spec_base_len(),
            cursor.base_cursor.buffer@ == old(buffer)@.subrange(0, T::spec_base_len() as int),
            cursor.scratch_cursor.buffer@ == old(buffer)@.subrange(
                T::spec_base_len() as int,
                old(buffer)@.len() as int,
            ),
            final(buffer)@ == final(cursor.base_cursor.buffer)@ + final(cursor.scratch_cursor.buffer)@,
    {
        let ghost len = buffer@.len();
        assert(buffer.len() == len);
        let base_len = T::base_len();
        let (base_buffer, scratch_buffer) = buffer.split_at_mut(base_len);
        Self {
            base_cursor: BufferEncodeCursor::new(base_buffer),
            scratch_cursor: BufferEncodeCursor::new(scratch_buffer),
            scratch_offset: base_len as u32,
        }
    }

    /// The number of bytes used so far, base region included.
    pub fn encoded_len(&self) -> (len: usize)
        ensures
            len == self.scratch_offset,
    {
        self.scratch_offset as usize
    }

    /// Hands out the next `size` bytes of the base region, as they are, and
    /// keeps the rest.
    pub fn base(&mut self, size: usize) -> (taken: &'a mut [u8])
        requires
            size <= old(self).base_room(),
        ensures
            taken@ == old(self).base_cursor.buffer@.subrange(0, size as int),
            final(self).base_cursor.buffer@ == old(self).base_cursor.buffer@.subrange(
                size as int,
                old(self).base_room() as int,
            ),
            final(old(self).base_cursor.buffer)@ == final(taken)@ + final(final(self).base_cursor.buffer)@,
            final(self).scratch_cursor == old(self).scratch_cursor,
            final(self).scratch_offset == old(self).scratch_offset,
    {
        self.base_cursor.take(size)
    }

    /// Allocates `size` bytes of scratch and writes their offset into the
    /// next four bytes of the base region. The bytes of scratch are handed
    /// out as they are.
    pub fn scratch(&mut self, size: usize) -> (taken: &'a mut [u8])
        requires
            4 <= old(self).base_room(),
            size <= old(self).scratch_room(),
            old(self).scratch_offset + size <= u32::MAX,
        ensures
            taken@ == old(self).scratch_cursor.buffer@.subrange(0, size as int),
            final(self).base_cursor.buffer@ == old(self).base_cursor.buffer@.subrange(
                4,
                old(self).base_room() as int,
            ),
            final(self).scratch_cursor.buffer@ == old(self).scratch_cursor.buffer@.subrange(
                size as int,
                old(self).scratch_room() as int,
            ),
            final(self).scratch_offset == old(self).scratch_offset + size,
            final(old(self).base_cursor.buffer)@ == le_bytes(old(self).scratch_offset as nat, 4)
                + final(final(self).base_cursor.buffer)@,
            final(old(self).scratch_cursor.buffer)@ == final(taken)@ + final(final(self).scratch_cursor.buffer)@,
    {
        let slot = self.base(4);
        put_le(slot, self.scratch_offset as u128);
        self.scratch_offset = self.scratch_offset + size as u32;
        self.scratch_cursor.take(size)
    }

    /// Allocates `base_size` bytes of scratch as the base region of a nested
    /// value and returns the cursor that writes it. The nested cursor takes
    /// over the scratch region; hand it back with `leave_scratch`.
    pub fn inner_in_scratch(&mut self, base_size: usize) -> (inner: EncodeCursor<'a>)
        requires
            4 <= old(self).base_room(),
            base_size <= old(self).scratch_room(),
            old(self).scratch_offset + base_size <= u32::MAX,
        ensures
            inner.base_cursor.buffer@ == old(self).scratch_cursor.buffer@.subrange(
                0,
                base_size as int,
            ),
            inner.scratch_cursor.buffer@ == old(self).scratch_cursor.buffer@.subrange(
                base_size as int,
                old(self).scratch_room() as int,
            ),
            inner.scratch_offset == old(self).scratch_offset + base_size,
            final(self).base_cursor.buffer@ == old(self).base_cursor.buffer@.subrange(
                4,
                old(self).base_room() as int,
            ),
            final(self).scratch_room() == 0,
            final(old(self).base_cursor.buffer)@ == le_bytes(old(self).scratch_offset as nat, 4)
                + final(final(self).base_cursor.buffer)@,
            final(old(self).scratch_cursor.buffer)@ == final(inner.base_cursor.buffer)@ + final(inner.scratch_cursor.buffer)@,
    {
        let inner_base_buffer = self.scratch(base_size);
        let mut rest: &'a mut [u8] = nothing();
        core::mem::swap(&mut self.scratch_cursor.buffer, &mut rest);
        EncodeCursor {
            base_cursor: BufferEncodeCursor::new(inner_base_buffer),
            scratch_cursor: BufferEncodeCursor::new(rest),
            scratch_offset: self.scratch_offset,
        }
    }

    /// Takes the scratch region back from a nested cursor. What the nested
    /// cursor has left of its base region stays as it is.
    pub fn leave_scratch(&mut self, inner: EncodeCursor<'a>)
        ensures
            final(self).base_cursor == old(self).base_cursor,
            final(self).scratch_cursor == inner.scratch_cursor,
            final(self).scratch_offset == inner.scratch_offset,
            final(inner.base_cursor.buffer)@ == old(inner.base_cursor.buffer)@,
    {
        let EncodeCursor { base_cursor, scratch_cursor, scratch_offset } = inner;
        self.scratch_cursor = scratch_cursor;
        self.scratch_offset = scratch_offset;
    }
}

} // verus!
