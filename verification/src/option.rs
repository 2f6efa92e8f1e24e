//! The codec of `Option<T>`: a tag byte, then the base region of `T`.
//!
//! Tag 1 is `Some` and the value follows. Tag 0 is `None` and the bytes
//! that a value would take are zero.
use vstd::prelude::*;

use crate::le::{zero_fill, zeros};
use crate::{
    lemma_holds_split, BaseLen, Compatible, Decode, DecodeCursor, DecodeError,
    DecodeResult, Encode, EncodeCursor, Lazy, Owned,
};

verus! {

impl<T: BaseLen> BaseLen for Option<T> {
    type Model = Option<T::Model>;

    open spec fn spec_base_len() -> nat {
        1 + T::spec_base_len()
    }

    open spec fn layout_fits() -> bool {
        T::layout_fits() && 1 + T::spec_base_len() <= usize::MAX
    }

    open spec fn model(&self) -> Option<T::Model> {
        match self {
            Some(value) => Some(value.model()),
            None => None,
        }
    }

    proof fn lemma_layout_fits() {
    }

    fn base_len() -> (len: usize) {
        1 + T::base_len()
    }
}

impl<T: Encode> Encode for Option<T> {
    open spec fn encodable(m: Option<T::Model>) -> bool {
        match m {
            Some(value) => T::encodable(value),
            None => true,
        }
    }

    open spec fn scratch_size(m: Option<T::Model>) -> nat {
        match m {
            Some(value) => T::scratch_size(value),
            None => 0,
        }
    }

    open spec fn base_bytes(m: Option<T::Model>, at: nat) -> Seq<u8> {
        match m {
            Some(value) => seq![1u8] + T::base_bytes(value, at),
            None => seq![0u8] + zeros(T::spec_base_len()),
        }
    }

    open spec fn scratch_bytes(m: Option<T::Model>, at: nat) -> Seq<u8> {
        match m {
            Some(value) => T::scratch_bytes(value, at),
            None => Seq::empty(),
        }
    }

    proof fn lemma_region_lens(m: Option<T::Model>, at: nat) {
        match m {
            Some(value) => T::lemma_region_lens(value, at),
            None => {},
        }
    }

    fn scratch_len(&self) -> (len: usize) {
        match self {
            Some(some) => some.scratch_len(),
            None => 0,
        }
    }

    fn encode(&self, cursor: &mut EncodeCursor) {
        let ghost at = cursor.scratch_offset as nat;
        match self {
            Some(some) => {
                let tag = cursor.base(1);
                tag[0] = 1;
                some.encode(cursor);
                proof {
                    assert(tag@ =~= seq![1u8]);
                    assert(final(old(cursor).base_cursor.buffer)@ =~= Self::base_bytes(
                        self.model(),
                        at,
                    ) + final(cursor.base_cursor.buffer)@);
                }
            },
            None => {
                let tag = cursor.base(1);
                tag[0] = 0;
                let rest = cursor.base(T::base_len());
                zero_fill(rest);
                proof {
                    assert(tag@ =~= seq![0u8]);
                    assert(final(old(cursor).base_cursor.buffer)@ =~= Self::base_bytes(
                        self.model(),
                        at,
                    ) + final(cursor.base_cursor.buffer)@);
                    assert(final(old(cursor).scratch_cursor.buffer)@ =~= Self::scratch_bytes(
                        self.model(),
                        at,
                    ) + final(cursor.scratch_cursor.buffer)@);
                }
            },
        }
    }
}

impl<'a, T: Decode<'a>> Decode<'a> for Option<T> {
    /// Tag 0 with room for a value is `None`; tag 1 is what follows, if it
    /// is a value; any other tag is not an option.
    open spec fn parse(buffer: Seq<u8>, offset: nat) -> Option<Option<T::Model>> {
        if offset + 1 > buffer.len() || buffer[offset as int] > 1 {
            None
        } else if buffer[offset as int] == 1 {
            match T::parse(buffer, offset + 1) {
                Some(value) => Some(Some(value)),
                None => None,
            }
        } else if offset + 1 + T::spec_base_len() <= buffer.len() {
            Some(None)
        } else {
            None
        }
    }

    proof fn lemma_parse_in_bounds(buffer: Seq<u8>, offset: nat) {
        if buffer[offset as int] == 1 {
            T::lemma_parse_in_bounds(buffer, offset + 1);
        }
    }

    fn decode(cursor: &mut DecodeCursor<'a>) -> (result: DecodeResult<Self>) {
        let tag = cursor.base(1)?;
        let variant = tag[0];
        if variant > 1 {
            return Err(DecodeError);
        }
        let is_some = variant == 1;
        if is_some {
            Ok(Some(T::decode(cursor)?))
        } else {
            cursor.base(T::base_len())?;
            Ok(None)
        }
    }
}

impl<T: Encode, U: Compatible<T>> Compatible<Option<T>> for Option<U> {
    open spec fn counterpart(m: Option<U::Model>) -> Option<T::Model> {
        match m {
            Some(value) => Some(U::counterpart(value)),
            None => None,
        }
    }

    proof fn lemma_same_base_len() {
        U::lemma_same_base_len();
    }

    proof fn lemma_same_bytes(m: Option<U::Model>, at: nat) {
        U::lemma_same_base_len();
        match m {
            Some(value) => U::lemma_same_bytes(value, at),
            None => {},
        }
    }
}

impl<'a, T: Lazy<'a>> Lazy<'a> for Option<T> {

}

impl<T: Owned> Owned for Option<T> {
    type Lazy<'a> = Option<T::Lazy<'a>>;

    open spec fn owned_of(lazy: Option<<T::Lazy<'static> as BaseLen>::Model>) -> Option<
        Option<T::Model>,
    > {
        match lazy {
            Some(value) => match T::owned_of(value) {
                Some(owned) => Some(Some(owned)),
                None => None,
            },
            None => Some(None),
        }
    }

    fn lazy_to_owned(lazy: Self::Lazy<'_>) -> (result: DecodeResult<Self>) {
        match lazy {
            Some(lazy) => Ok(Some(T::lazy_to_owned(lazy)?)),
            None => Ok(None),
        }
    }

    proof fn lemma_round_trip(m: Option<T::Model>, buffer: Seq<u8>, offset: nat, at: nat) {
        Self::lemma_region_lens(m, at);
        match m {
            Some(value) => {
                lemma_holds_split(buffer, offset, seq![1u8], T::base_bytes(value, at));
                assert(seq![1u8][0] == buffer[offset as int]);
                T::lemma_round_trip(value, buffer, offset + 1, at);
            },
            None => {
                lemma_holds_split(buffer, offset, seq![0u8], zeros(T::spec_base_len()));
                assert(seq![0u8][0] == buffer[offset as int]);
            },
        }
    }

    proof fn lemma_lazy_same_bytes(lazy: Option<<T::Lazy<'static> as BaseLen>::Model>, at: nat) {
        T::lemma_lazy_agrees(Seq::empty(), 0);
        match lazy {
            Some(value) => T::lemma_lazy_same_bytes(value, at),
            None => {},
        }
    }

    proof fn lemma_lazy_agrees(buffer: Seq<u8>, offset: nat) {
        T::lemma_lazy_agrees(buffer, offset + 1);
    }
}

/// A tag that is neither 0 nor 1 is no option.
pub proof fn lemma_option_tag_fails<'a, T: Decode<'a>>(buffer: Seq<u8>, offset: nat)
    requires
        offset < buffer.len(),
        buffer[offset as int] > 1,
    ensures
        <Option<T> as Decode<'a>>::parse(buffer, offset) is None,
{
}

} // verus!
