//! The codec of `Box<T>`: the offset of the value in the base region, the
//! value itself in scratch, base region first.
use vstd::prelude::*;

use crate::decode_cursor::pointer_at;
use crate::le::{le_bytes, lemma_le_bytes_len, lemma_le_value_of_bytes, lemma_radix_values};
use crate::{
    lemma_holds_split, BaseLen, Compatible, Decode, DecodeCursor, DecodeResult, Encode, EncodeCursor, Lazy, Owned,
};

verus! {

/// The scratch region of a boxed `m`: its base region at `at`, then its
/// own scratch.
pub open spec fn boxed_scratch<T: Encode>(m: T::Model, at: nat) -> Seq<u8> {
    T::base_bytes(m, at + T::spec_base_len()) + T::scratch_bytes(m, at + T::spec_base_len())
}

/// The boxed value whose offset is stored at `offset` in `buffer`.
pub open spec fn parse_boxed<'a, T: Decode<'a>>(buffer: Seq<u8>, offset: nat) -> Option<T::Model> {
    if offset + 4 > buffer.len() {
        None
    } else {
        T::parse(buffer, pointer_at(buffer, offset))
    }
}

impl<T: BaseLen> BaseLen for Box<T> {
    type Model = T::Model;

    open spec fn spec_base_len() -> nat {
        4
    }

    open spec fn layout_fits() -> bool {
        T::layout_fits()
    }

    open spec fn model(&self) -> T::Model {
        (**self).model()
    }

    proof fn lemma_layout_fits() {
    }

    fn base_len() -> (len: usize) {
        4
    }
}

impl<T: Encode> Encode for Box<T> {
    open spec fn encodable(m: T::Model) -> bool {
        T::encodable(m)
    }

    open spec fn scratch_size(m: T::Model) -> nat {
        T::spec_base_len() + T::scratch_size(m)
    }

    open spec fn base_bytes(m: T::Model, at: nat) -> Seq<u8> {
        le_bytes(at, 4)
    }

    open spec fn scratch_bytes(m: T::Model, at: nat) -> Seq<u8> {
        boxed_scratch::<T>(m, at)
    }

    proof fn lemma_region_lens(m: T::Model, at: nat) {
        lemma_le_bytes_len(at, 4);
        T::lemma_region_lens(m, at + T::spec_base_len());
    }

    fn scratch_len(&self) -> (len: usize) {
        proof {
            T::lemma_layout_fits();
        }
        T::base_len() + (**self).scratch_len()
    }

    fn encode(&self, cursor: &mut EncodeCursor) {
        proof {
            T::lemma_layout_fits();
        }
        let mut inner = cursor.inner_in_scratch(T::base_len());
        let ghost entered = inner;
        (**self).encode(&mut inner);
        cursor.leave_scratch(inner);
        proof {
            let at = old(cursor).scratch_offset as nat;
            assert(final(entered.base_cursor.buffer)@ =~= T::base_bytes(
                self.model(),
                at + T::spec_base_len(),
            ));
            assert(final(old(cursor).scratch_cursor.buffer)@ =~= boxed_scratch::<T>(
                self.model(),
                at,
            ) + final(cursor.scratch_cursor.buffer)@);
        }
    }
}

impl<'a, T: BaseLen + Decode<'a>> Decode<'a> for Box<T> {
    open spec fn parse(buffer: Seq<u8>, offset: nat) -> Option<T::Model> {
        parse_boxed::<T>(buffer, offset)
    }

    proof fn lemma_parse_in_bounds(buffer: Seq<u8>, offset: nat) {
    }

    fn decode(cursor: &mut DecodeCursor<'a>) -> (result: DecodeResult<Self>) {
        let mut inner = cursor.inner_in_scratch()?;
        let value = T::decode(&mut inner)?;
        Ok(Box::new(value))
    }
}

impl<T: Encode, U: Compatible<T>> Compatible<Box<T>> for Box<U> {
    open spec fn counterpart(m: U::Model) -> T::Model {
        U::counterpart(m)
    }

    proof fn lemma_same_base_len() {
    }

    proof fn lemma_same_bytes(m: U::Model, at: nat) {
        U::lemma_same_base_len();
        U::lemma_same_bytes(m, at + U::spec_base_len());
    }
}

/// A boxed value that is still in its buffer: the buffer, and the offset of
/// the four bytes that point to the value.
pub struct BoxLazy<'a, T: Owned> {
    buffer: &'a [u8],
    offset: usize,
    inner_ty: core::marker::PhantomData<T>,
}

impl<'a, T: Owned> BoxLazy<'a, T> {
    /// The buffer that the value lies in.
    pub closed spec fn bytes(&self) -> Seq<u8> {
        self.buffer@
    }

    /// The offset in the buffer of the four bytes that point to the value.
    pub closed spec fn position(&self) -> nat {
        self.offset as nat
    }

    /// Decodes the value that the box points to, in its lazy form.
    pub fn get(&self) -> (result: DecodeResult<T::Lazy<'a>>)
        requires
            T::layout_fits(),
        ensures
            match result {
                Ok(value) => parse_boxed::<T::Lazy<'a>>(self.bytes(), self.position()) == Some(
                    value.model(),
                ),
                Err(_) => parse_boxed::<T::Lazy<'a>>(self.bytes(), self.position()) is None,
            },
    {
        let mut cursor = DecodeCursor::at_offset(self.buffer, self.offset);
        let mut inner = cursor.inner_in_scratch()?;
        proof {
            T::lemma_lazy_agrees(Seq::empty(), 0);
            T::lemma_layout_fits();
        }
        <T::Lazy<'a> as Decode<'a>>::decode(&mut inner)
    }
}

impl<T: Owned> Copy for BoxLazy<'_, T> {

}

impl<T: Owned> Clone for BoxLazy<'_, T> {
    fn clone(&self) -> (copy: Self)
        ensures
            copy == *self,
    {
        Self { buffer: self.buffer, offset: self.offset, inner_ty: core::marker::PhantomData }
    }
}

impl<'a, T: Owned> BaseLen for BoxLazy<'a, T> {
    type Model = (Seq<u8>, nat);

    open spec fn spec_base_len() -> nat {
        4
    }

    open spec fn layout_fits() -> bool {
        T::layout_fits()
    }

    open spec fn model(&self) -> (Seq<u8>, nat) {
        (self.bytes(), self.position())
    }

    proof fn lemma_layout_fits() {
    }

    fn base_len() -> (len: usize) {
        4
    }
}

/// The value that a lazy box over `buffer` at `offset` points to.
pub open spec fn boxed_in<T: Owned>(lazy: (Seq<u8>, nat)) -> Option<T::Model> {
    parse_boxed::<T>(lazy.0, lazy.1)
}

impl<'a, T: Owned> Encode for BoxLazy<'a, T> {
    /// A lazy box can be written where the value that it points to decodes
    /// and can be written.
    open spec fn encodable(m: (Seq<u8>, nat)) -> bool {
        boxed_in::<T>(m) is Some && T::encodable(boxed_in::<T>(m).unwrap())
    }

    open spec fn scratch_size(m: (Seq<u8>, nat)) -> nat {
        T::spec_base_len() + T::scratch_size(boxed_in::<T>(m).unwrap())
    }

    open spec fn base_bytes(m: (Seq<u8>, nat), at: nat) -> Seq<u8> {
        le_bytes(at, 4)
    }

    open spec fn scratch_bytes(m: (Seq<u8>, nat), at: nat) -> Seq<u8> {
        boxed_scratch::<T>(boxed_in::<T>(m).unwrap(), at)
    }

    proof fn lemma_region_lens(m: (Seq<u8>, nat), at: nat) {
        lemma_le_bytes_len(at, 4);
        T::lemma_region_lens(boxed_in::<T>(m).unwrap(), at + T::spec_base_len());
    }

    fn scratch_len(&self) -> (len: usize) {
        proof {
            T::lemma_layout_fits();
            T::lemma_lazy_agrees(self.bytes(), pointer_at(self.bytes(), self.position()));
        }
        match self.get() {
            Ok(value) => {
                proof {
                    T::lemma_lazy_same_bytes(value.model(), 0);
                }
                T::base_len() + value.scratch_len()
            },
            Err(_) => {
                proof {
                    assert(false);
                }
                0
            },
        }
    }

    fn encode(&self, cursor: &mut EncodeCursor) {
        proof {
            T::lemma_layout_fits();
            T::lemma_lazy_agrees(self.bytes(), pointer_at(self.bytes(), self.position()));
        }
        let ghost at = cursor.scratch_offset as nat;
        let ghost m = boxed_in::<T>(self.model()).unwrap();
        match self.get() {
            Ok(value) => {
                proof {
                    T::lemma_lazy_same_bytes(value.model(), at + T::spec_base_len());
                }
                let mut inner = cursor.inner_in_scratch(T::base_len());
                let ghost entered = inner;
                value.encode(&mut inner);
                cursor.leave_scratch(inner);
                proof {
                    assert(final(entered.base_cursor.buffer)@ =~= T::base_bytes(
                        m,
                        at + T::spec_base_len(),
                    ));
                    assert(final(old(cursor).scratch_cursor.buffer)@ =~= boxed_scratch::<T>(m, at)
                        + final(cursor.scratch_cursor.buffer)@);
                }
            },
            Err(_) => {
                proof {
                    assert(false);
                }
            },
        }
    }
}

impl<'a, T: Owned> Decode<'a> for BoxLazy<'a, T> {
    /// A lazy box is where it lies; the four bytes of the offset must be in
    /// the buffer.
    open spec fn parse(buffer: Seq<u8>, offset: nat) -> Option<(Seq<u8>, nat)> {
        if offset + 4 <= buffer.len() {
            Some((buffer, offset))
        } else {
            None
        }
    }

    proof fn lemma_parse_in_bounds(buffer: Seq<u8>, offset: nat) {
    }

    fn decode(cursor: &mut DecodeCursor<'a>) -> (result: DecodeResult<Self>) {
        let offset = cursor.offset();
        cursor.base(4)?;
        Ok(BoxLazy { buffer: cursor.buffer(), offset, inner_ty: core::marker::PhantomData })
    }
}

impl<'a, T: Owned> Lazy<'a> for BoxLazy<'a, T> {

}

impl<T: Owned> Compatible<Box<T>> for BoxLazy<'_, T> {
    open spec fn counterpart(m: (Seq<u8>, nat)) -> T::Model {
        boxed_in::<T>(m).unwrap()
    }

    proof fn lemma_same_base_len() {
    }

    proof fn lemma_same_bytes(m: (Seq<u8>, nat), at: nat) {
    }
}

/// The lazy box over the bytes that a boxed `m` takes as a top-level
/// value.
pub open spec fn lazy_box_of<T: Owned>(m: T::Model) -> (Seq<u8>, nat) {
    (crate::wire_bytes::<Box<T>>(m), 0)
}

impl<T: Owned> Compatible<BoxLazy<'_, T>> for Box<T> {
    open spec fn counterpart(m: T::Model) -> (Seq<u8>, nat) {
        lazy_box_of::<T>(m)
    }

    proof fn lemma_same_base_len() {
    }

    proof fn lemma_same_bytes(m: T::Model, at: nat) {
        crate::lemma_decode_encoded::<Box<T>>(m);
    }
}

impl<T: Owned> Owned for Box<T> {
    type Lazy<'a> = BoxLazy<'a, T>;

    open spec fn owned_of(lazy: (Seq<u8>, nat)) -> Option<T::Model> {
        boxed_in::<T>(lazy)
    }

    fn lazy_to_owned(lazy: Self::Lazy<'_>) -> (result: DecodeResult<Self>) {
        proof {
            T::lemma_lazy_agrees(lazy.bytes(), pointer_at(lazy.bytes(), lazy.position()));
        }
        let inner = lazy.get()?;
        Ok(Box::new(T::lazy_to_owned(inner)?))
    }

    proof fn lemma_round_trip(m: T::Model, buffer: Seq<u8>, offset: nat, at: nat) {
        let inner_at = at + T::spec_base_len();
        lemma_radix_values();
        lemma_le_bytes_len(at, 4);
        lemma_le_value_of_bytes(at, 4);
        T::lemma_region_lens(m, inner_at);
        lemma_holds_split(buffer, at, T::base_bytes(m, inner_at), T::scratch_bytes(m, inner_at));
        T::lemma_round_trip(m, buffer, at, inner_at);
    }

    proof fn lemma_lazy_same_bytes(lazy: (Seq<u8>, nat), at: nat) {
    }

    proof fn lemma_lazy_agrees(buffer: Seq<u8>, offset: nat) {
    }
}

/// Where a lazy box stands for a value, what it points to decodes in the
/// lazy form and converts to that value.
pub proof fn lemma_lazy_boxed<T: Owned>(lazy: (Seq<u8>, nat))
    requires
        boxed_in::<T>(lazy) is Some,
    ensures
        parse_boxed::<T::Lazy<'static>>(lazy.0, lazy.1) is Some,
        T::owned_of(parse_boxed::<T::Lazy<'static>>(lazy.0, lazy.1).unwrap()) == boxed_in::<T>(
            lazy,
        ),
{
    T::lemma_lazy_agrees(lazy.0, pointer_at(lazy.0, lazy.1));
}

} // verus!
