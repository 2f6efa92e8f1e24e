//! The codec of `Result<O, E>`: a tag byte, then the base region of the
//! variant, then zeros up to the longer of the two base regions.
//!
//! Tag 0 is `Ok`, tag 1 is `Err`.
use vstd::prelude::*;

use crate::le::{zero_fill, zeros};
use crate::{
    lemma_holds_split, max, BaseLen, Compatible, Decode, DecodeCursor, DecodeError,
    DecodeResult, Encode, EncodeCursor, Lazy, Owned,
};

verus! {

/// The larger of two lengths.
pub open spec fn spec_max(a: nat, b: nat) -> nat {
    if a < b {
        b
    } else {
        a
    }
}

impl<T: BaseLen, E: BaseLen> BaseLen for Result<T, E> {
    type Model = Result<T::Model, E::Model>;

    open spec fn spec_base_len() -> nat {
        1 + spec_max(T::spec_base_len(), E::spec_base_len())
    }

    open spec fn layout_fits() -> bool {
        T::layout_fits() && E::layout_fits() && 1 + spec_max(
            T::spec_base_len(),
            E::spec_base_len(),
        ) <= usize::MAX
    }

    open spec fn model(&self) -> Result<T::Model, E::Model> {
        match self {
            Ok(ok) => Ok(ok.model()),
            Err(err) => Err(err.model()),
        }
    }

    proof fn lemma_layout_fits() {
    }

    fn base_len() -> (len: usize) {
        1 + max(T::base_len(), E::base_len())
    }
}

impl<T: Encode, E: Encode> Encode for Result<T, E> {
    open spec fn encodable(m: Result<T::Model, E::Model>) -> bool {
        match m {
            Ok(ok) => T::encodable(ok),
            Err(err) => E::encodable(err),
        }
    }

    open spec fn scratch_size(m: Result<T::Model, E::Model>) -> nat {
        match m {
            Ok(ok) => T::scratch_size(ok),
            Err(err) => E::scratch_size(err),
        }
    }

    open spec fn base_bytes(m: Result<T::Model, E::Model>, at: nat) -> Seq<u8> {
        match m {
            Ok(ok) => seq![0u8] + T::base_bytes(ok, at) + zeros(
                (Self::spec_base_len() - 1 - T::spec_base_len()) as nat,
            ),
            Err(err) => seq![1u8] + E::base_bytes(err, at) + zeros(
                (Self::spec_base_len() - 1 - E::spec_base_len()) as nat,
            ),
        }
    }

    open spec fn scratch_bytes(m: Result<T::Model, E::Model>, at: nat) -> Seq<u8> {
        match m {
            Ok(ok) => T::scratch_bytes(ok, at),
            Err(err) => E::scratch_bytes(err, at),
        }
    }

    proof fn lemma_region_lens(m: Result<T::Model, E::Model>, at: nat) {
        match m {
            Ok(ok) => T::lemma_region_lens(ok, at),
            Err(err) => E::lemma_region_lens(err, at),
        }
    }

    fn scratch_len(&self) -> (len: usize) {
        match self {
            Ok(ok) => ok.scratch_len(),
            Err(err) => err.scratch_len(),
        }
    }

    fn encode(&self, cursor: &mut EncodeCursor) {
        let ghost at = cursor.scratch_offset as nat;
        proof {
            assert(cursor.base_cursor.buffer.len() == cursor.base_room());
        }
        match self {
            Ok(ok) => {
                let tag = cursor.base(1);
                tag[0] = 0;
                ok.encode(cursor);
                let rest = cursor.base(Self::base_len() - 1 - T::base_len());
                zero_fill(rest);
                proof {
                    assert(tag@ =~= seq![0u8]);
                    assert(final(old(cursor).base_cursor.buffer)@ =~= Self::base_bytes(
                        self.model(),
                        at,
                    ) + final(cursor.base_cursor.buffer)@);
                }
            },
            Err(err) => {
                let tag = cursor.base(1);
                tag[0] = 1;
                err.encode(cursor);
                let rest = cursor.base(Self::base_len() - 1 - E::base_len());
                zero_fill(rest);
                proof {
                    assert(tag@ =~= seq![1u8]);
                    assert(final(old(cursor).base_cursor.buffer)@ =~= Self::base_bytes(
                        self.model(),
                        at,
                    ) + final(cursor.base_cursor.buffer)@);
                }
            },
        }
    }
}

impl<'a, T: Decode<'a>, E: Decode<'a>> Decode<'a> for Result<T, E> {
    /// Tag 0 is the `Ok` value that follows, tag 1 the `Err` value, each
    /// with room for the longer base region behind the tag; any other tag
    /// is not a result.
    open spec fn parse(buffer: Seq<u8>, offset: nat) -> Option<Result<T::Model, E::Model>> {
        if offset + Self::spec_base_len() > buffer.len() || buffer[offset as int] > 1 {
            None
        } else if buffer[offset as int] == 0 {
            match T::parse(buffer, offset + 1) {
                Some(ok) => Some(Ok(ok)),
                None => None,
            }
        } else {
            match E::parse(buffer, offset + 1) {
                Some(err) => Some(Err(err)),
                None => None,
            }
        }
    }

    proof fn lemma_parse_in_bounds(buffer: Seq<u8>, offset: nat) {
    }

    fn decode(cursor: &mut DecodeCursor<'a>) -> (result: DecodeResult<Self>) {
        let ghost start = cursor.position();
        let ghost bytes = cursor.bytes();
        let base_len = Self::base_len();
        let room = cursor.buffer().len();
        if base_len > room || cursor.offset() > room - base_len {
            return Err(DecodeError);
        }
        let tag = cursor.base(1)?;
        let variant = tag[0];
        if variant > 1 {
            return Err(DecodeError);
        }
        let is_ok = variant == 0;
        if is_ok {
            let ok = T::decode(cursor)?;
            cursor.base(base_len - 1 - T::base_len())?;
            Ok(Ok(ok))
        } else {
            let err = E::decode(cursor)?;
            cursor.base(base_len - 1 - E::base_len())?;
            Ok(Err(err))
        }
    }
}

impl<Ok1, Err1, Ok2, Err2> Compatible<Result<Ok2, Err2>> for Result<Ok1, Err1> where
    Ok1: Compatible<Ok2>,
    Err1: Compatible<Err2>,
    Ok2: Encode,
    Err2: Encode,
 {
    open spec fn counterpart(m: Result<Ok1::Model, Err1::Model>) -> Result<
        Ok2::Model,
        Err2::Model,
    > {
        match m {
            Ok(ok) => Ok(Ok1::counterpart(ok)),
            Err(err) => Err(Err1::counterpart(err)),
        }
    }

    proof fn lemma_same_base_len() {
        Ok1::lemma_same_base_len();
        Err1::lemma_same_base_len();
    }

    proof fn lemma_same_bytes(m: Result<Ok1::Model, Err1::Model>, at: nat) {
        Ok1::lemma_same_base_len();
        Err1::lemma_same_base_len();
        match m {
            Ok(ok) => Ok1::lemma_same_bytes(ok, at),
            Err(err) => Err1::lemma_same_bytes(err, at),
        }
    }
}

impl<'a, O: Lazy<'a>, E: Lazy<'a>> Lazy<'a> for Result<O, E> {

}

impl<O: Owned, E: Owned> Owned for Result<O, E> {
    type Lazy<'a> = Result<O::Lazy<'a>, E::Lazy<'a>>;

    open spec fn owned_of(
        lazy: Result<<O::Lazy<'static> as BaseLen>::Model, <E::Lazy<'static> as BaseLen>::Model>,
    ) -> Option<Result<O::Model, E::Model>> {
        match lazy {
            Ok(ok) => match O::owned_of(ok) {
                Some(owned) => Some(Ok(owned)),
                None => None,
            },
            Err(err) => match E::owned_of(err) {
                Some(owned) => Some(Err(owned)),
                None => None,
            },
        }
    }

    fn lazy_to_owned(lazy: Self::Lazy<'_>) -> (result: DecodeResult<Self>) {
        match lazy {
            Ok(ok) => Ok(Ok(O::lazy_to_owned(ok)?)),
            Err(err) => Ok(Err(E::lazy_to_owned(err)?)),
        }
    }

    proof fn lemma_round_trip(
        m: Result<O::Model, E::Model>,
        buffer: Seq<u8>,
        offset: nat,
        at: nat,
    ) {
        Self::lemma_region_lens(m, at);
        match m {
            Ok(ok) => {
                let pad = zeros((Self::spec_base_len() - 1 - O::spec_base_len()) as nat);
                lemma_holds_split(buffer, offset, seq![0u8] + O::base_bytes(ok, at), pad);
                lemma_holds_split(buffer, offset, seq![0u8], O::base_bytes(ok, at));
                assert(seq![0u8][0] == buffer[offset as int]);
                O::lemma_round_trip(ok, buffer, offset + 1, at);
            },
            Err(err) => {
                let pad = zeros((Self::spec_base_len() - 1 - E::spec_base_len()) as nat);
                lemma_holds_split(buffer, offset, seq![1u8] + E::base_bytes(err, at), pad);
                lemma_holds_split(buffer, offset, seq![1u8], E::base_bytes(err, at));
                assert(seq![1u8][0] == buffer[offset as int]);
                E::lemma_round_trip(err, buffer, offset + 1, at);
            },
        }
    }

    proof fn lemma_lazy_same_bytes(
        lazy: Result<<O::Lazy<'static> as BaseLen>::Model, <E::Lazy<'static> as BaseLen>::Model>,
        at: nat,
    ) {
        O::lemma_lazy_agrees(Seq::empty(), 0);
        E::lemma_lazy_agrees(Seq::empty(), 0);
        match lazy {
            Ok(ok) => O::lemma_lazy_same_bytes(ok, at),
            Err(err) => E::lemma_lazy_same_bytes(err, at),
        }
    }

    proof fn lemma_lazy_agrees(buffer: Seq<u8>, offset: nat) {
        O::lemma_lazy_agrees(buffer, offset + 1);
        E::lemma_lazy_agrees(buffer, offset + 1);
    }
}

/// A tag that is neither 0 nor 1 is no result: the tag is the index of
/// the variant, and there are two.
pub proof fn lemma_result_tag_fails<'a, T: Decode<'a>, E: Decode<'a>>(buffer: Seq<u8>, offset: nat)
    requires
        offset < buffer.len(),
        buffer[offset as int] > 1,
    ensures
        <Result<T, E> as Decode<'a>>::parse(buffer, offset) is None,
{
}

} // verus!
