//! The codecs of the types that are copied as they are: the unit type,
//! `bool` and the integers.
//!
//! An integer of `n` bytes is `n` base bytes, least significant first, in
//! two's complement where it is signed. A `bool` is one byte, 0 or 1. The
//! unit type is no bytes at all. None of them uses scratch.
use vstd::prelude::*;

use crate::le::{
    get_le, get_le_signed, le_bytes, le_value, lemma_le_bytes_len,
    lemma_le_value_bound, lemma_le_value_of_bytes, lemma_radix_values, lemma_signed_round_trip,
    put_le, put_le_signed, to_signed, to_unsigned,
};
use crate::{
    BaseLen, Compatible, Decode, DecodeCursor, DecodeError, DecodeResult, Encode,
    EncodeCursor, Lazy, Owned,
};

verus! {

impl BaseLen for () {
    type Model = ();

    open spec fn spec_base_len() -> nat {
        0
    }

    open spec fn layout_fits() -> bool {
        true
    }

    open spec fn model(&self) -> () {
        ()
    }

    proof fn lemma_layout_fits() {
    }

    fn base_len() -> (len: usize) {
        0
    }
}

impl Encode for () {
    open spec fn encodable(m: ()) -> bool {
        true
    }

    open spec fn scratch_size(m: ()) -> nat {
        0
    }

    open spec fn base_bytes(m: (), at: nat) -> Seq<u8> {
        Seq::empty()
    }

    open spec fn scratch_bytes(m: (), at: nat) -> Seq<u8> {
        Seq::empty()
    }

    proof fn lemma_region_lens(m: (), at: nat) {
    }

    fn scratch_len(&self) -> (len: usize) {
        0
    }

    fn encode(&self, cursor: &mut EncodeCursor) {
        proof {
            assert(final(cursor.base_cursor.buffer)@ =~= Seq::<u8>::empty() + final(
                cursor.base_cursor.buffer)@);
            assert(final(cursor.scratch_cursor.buffer)@ =~= Seq::<u8>::empty() + final(
                cursor.scratch_cursor.buffer)@);
        }
    }
}

impl<'a> Decode<'a> for () {
    /// No bytes, anywhere in the buffer or at its end.
    open spec fn parse(buffer: Seq<u8>, offset: nat) -> Option<()> {
        if offset <= buffer.len() {
            Some(())
        } else {
            None
        }
    }

    proof fn lemma_parse_in_bounds(buffer: Seq<u8>, offset: nat) {
    }

    fn decode(cursor: &mut DecodeCursor<'a>) -> (result: DecodeResult<Self>) {
        cursor.base(0)?;
        Ok(())
    }
}

impl Compatible<()> for () {
    open spec fn counterpart(m: ()) -> () {
        m
    }

    proof fn lemma_same_base_len() {
    }

    proof fn lemma_same_bytes(m: (), at: nat) {
    }
}

impl Lazy<'_> for () {

}

impl Owned for () {
    type Lazy<'a> = ();

    open spec fn owned_of(lazy: ()) -> Option<()> {
        Some(lazy)
    }

    fn lazy_to_owned(lazy: ()) -> (result: DecodeResult<Self>) {
        Ok(lazy)
    }

    proof fn lemma_round_trip(m: (), buffer: Seq<u8>, offset: nat, at: nat) {
    }

    proof fn lemma_lazy_same_bytes(lazy: (), at: nat) {
    }

    proof fn lemma_lazy_agrees(buffer: Seq<u8>, offset: nat) {
    }
}

impl BaseLen for bool {
    type Model = bool;

    open spec fn spec_base_len() -> nat {
        1
    }

    open spec fn layout_fits() -> bool {
        true
    }

    open spec fn model(&self) -> bool {
        *self
    }

    proof fn lemma_layout_fits() {
    }

    fn base_len() -> (len: usize) {
        1
    }
}

impl Encode for bool {
    open spec fn encodable(m: bool) -> bool {
        true
    }

    open spec fn scratch_size(m: bool) -> nat {
        0
    }

    open spec fn base_bytes(m: bool, at: nat) -> Seq<u8> {
        seq![if m { 1u8 } else { 0u8 }]
    }

    open spec fn scratch_bytes(m: bool, at: nat) -> Seq<u8> {
        Seq::empty()
    }

    proof fn lemma_region_lens(m: bool, at: nat) {
    }

    fn scratch_len(&self) -> (len: usize) {
        0
    }

    fn encode(&self, cursor: &mut EncodeCursor) {
        let slot = cursor.base(1);
        slot[0] = if *self { 1 } else { 0 };
        proof {
            assert(slot@ =~= Self::base_bytes(*self, old(cursor).scratch_offset as nat));
            assert(final(cursor.scratch_cursor.buffer)@ =~= Seq::<u8>::empty() + final(
                cursor.scratch_cursor.buffer)@);
        }
    }
}

impl<'a> Decode<'a> for bool {
    /// One byte: 0 is `false`, 1 is `true`, and no other byte is a `bool`.
    open spec fn parse(buffer: Seq<u8>, offset: nat) -> Option<bool> {
        if offset + 1 <= buffer.len() && buffer[offset as int] <= 1 {
            Some(buffer[offset as int] == 1)
        } else {
            None
        }
    }

    proof fn lemma_parse_in_bounds(buffer: Seq<u8>, offset: nat) {
    }

    fn decode(cursor: &mut DecodeCursor<'a>) -> (result: DecodeResult<Self>) {
        let slot = cursor.base(1)?;
        let b = slot[0];
        if b <= 1 {
            Ok(b == 1)
        } else {
            Err(DecodeError)
        }
    }
}

/// A byte that is neither 0 nor 1 is no `bool`.
pub proof fn lemma_bool_byte_fails(buffer: Seq<u8>, offset: nat)
    requires
        offset < buffer.len(),
        buffer[offset as int] > 1,
    ensures
        <bool as Decode<'static>>::parse(buffer, offset) is None,
{
}

impl Compatible<bool> for bool {
    open spec fn counterpart(m: bool) -> bool {
        m
    }

    proof fn lemma_same_base_len() {
    }

    proof fn lemma_same_bytes(m: bool, at: nat) {
    }
}

impl Lazy<'_> for bool {

}

impl Owned for bool {
    type Lazy<'a> = bool;

    open spec fn owned_of(lazy: bool) -> Option<bool> {
        Some(lazy)
    }

    fn lazy_to_owned(lazy: bool) -> (result: DecodeResult<Self>) {
        Ok(lazy)
    }

    proof fn lemma_round_trip(m: bool, buffer: Seq<u8>, offset: nat, at: nat) {
        assert(Self::base_bytes(m, at)[0] == buffer[offset as int]);
    }

    proof fn lemma_lazy_same_bytes(lazy: bool, at: nat) {
    }

    proof fn lemma_lazy_agrees(buffer: Seq<u8>, offset: nat) {
    }
}

impl BaseLen for u8 {
    type Model = u8;

    open spec fn spec_base_len() -> nat {
        1
    }

    open spec fn layout_fits() -> bool {
        true
    }

    open spec fn model(&self) -> u8 {
        *self
    }

    proof fn lemma_layout_fits() {
    }

    fn base_len() -> (len: usize) {
        1
    }
}

impl Encode for u8 {
    open spec fn encodable(m: u8) -> bool {
        true
    }

    open spec fn scratch_size(m: u8) -> nat {
        0
    }

    open spec fn base_bytes(m: u8, at: nat) -> Seq<u8> {
        le_bytes(m as nat, 1)
    }

    open spec fn scratch_bytes(m: u8, at: nat) -> Seq<u8> {
        Seq::empty()
    }

    proof fn lemma_region_lens(m: u8, at: nat) {
        lemma_le_bytes_len(m as nat, 1);
    }

    fn scratch_len(&self) -> (len: usize) {
        0
    }

    fn encode(&self, cursor: &mut EncodeCursor) {
        let slot = cursor.base(1);
        put_le(slot, *self as u128);
        proof {
            assert(final(cursor.scratch_cursor.buffer)@ =~= Seq::<u8>::empty() + final(
                cursor.scratch_cursor.buffer)@);
        }
    }
}

impl<'a> Decode<'a> for u8 {
    open spec fn parse(buffer: Seq<u8>, offset: nat) -> Option<u8> {
        if offset + 1 <= buffer.len() {
            Some(le_value(buffer.subrange(offset as int, offset + 1 as int)) as u8)
        } else {
            None
        }
    }

    proof fn lemma_parse_in_bounds(buffer: Seq<u8>, offset: nat) {
    }

    fn decode(cursor: &mut DecodeCursor<'a>) -> (result: DecodeResult<Self>) {
        let slot = cursor.base(1)?;
        proof {
            lemma_le_value_bound(slot@);
            lemma_radix_values();
        }
        Ok(get_le(slot) as u8)
    }
}

impl Compatible<u8> for u8 {
    open spec fn counterpart(m: u8) -> u8 {
        m
    }

    proof fn lemma_same_base_len() {
    }

    proof fn lemma_same_bytes(m: u8, at: nat) {
    }
}

impl Lazy<'_> for u8 {

}

impl Owned for u8 {
    type Lazy<'a> = u8;

    open spec fn owned_of(lazy: u8) -> Option<u8> {
        Some(lazy)
    }

    fn lazy_to_owned(lazy: u8) -> (result: DecodeResult<Self>) {
        Ok(lazy)
    }

    proof fn lemma_round_trip(m: u8, buffer: Seq<u8>, offset: nat, at: nat) {
        lemma_radix_values();
        lemma_le_bytes_len(m as nat, 1);
        lemma_le_value_of_bytes(m as nat, 1);
    }

    proof fn lemma_lazy_same_bytes(lazy: u8, at: nat) {
    }

    proof fn lemma_lazy_agrees(buffer: Seq<u8>, offset: nat) {
    }
}

impl BaseLen for u16 {
    type Model = u16;

    open spec fn spec_base_len() -> nat {
        2
    }

    open spec fn layout_fits() -> bool {
        true
    }

    open spec fn model(&self) -> u16 {
        *self
    }

    proof fn lemma_layout_fits() {
    }

    fn base_len() -> (len: usize) {
        2
    }
}

impl Encode for u16 {
    open spec fn encodable(m: u16) -> bool {
        true
    }

    open spec fn scratch_size(m: u16) -> nat {
        0
    }

    open spec fn base_bytes(m: u16, at: nat) -> Seq<u8> {
        le_bytes(m as nat, 2)
    }

    open spec fn scratch_bytes(m: u16, at: nat) -> Seq<u8> {
        Seq::empty()
    }

    proof fn lemma_region_lens(m: u16, at: nat) {
        lemma_le_bytes_len(m as nat, 2);
    }

    fn scratch_len(&self) -> (len: usize) {
        0
    }

    fn encode(&self, cursor: &mut EncodeCursor) {
        let slot = cursor.base(2);
        put_le(slot, *self as u128);
        proof {
            assert(final(cursor.scratch_cursor.buffer)@ =~= Seq::<u8>::empty() + final(
                cursor.scratch_cursor.buffer)@);
        }
    }
}

impl<'a> Decode<'a> for u16 {
    open spec fn parse(buffer: Seq<u8>, offset: nat) -> Option<u16> {
        if offset + 2 <= buffer.len() {
            Some(le_value(buffer.subrange(offset as int, offset + 2 as int)) as u16)
        } else {
            None
        }
    }

    proof fn lemma_parse_in_bounds(buffer: Seq<u8>, offset: nat) {
    }

    fn decode(cursor: &mut DecodeCursor<'a>) -> (result: DecodeResult<Self>) {
        let slot = cursor.base(2)?;
        proof {
            lemma_le_value_bound(slot@);
            lemma_radix_values();
        }
        Ok(get_le(slot) as u16)
    }
}

impl Compatible<u16> for u16 {
    open spec fn counterpart(m: u16) -> u16 {
        m
    }

    proof fn lemma_same_base_len() {
    }

    proof fn lemma_same_bytes(m: u16, at: nat) {
    }
}

impl Lazy<'_> for u16 {

}

impl Owned for u16 {
    type Lazy<'a> = u16;

    open spec fn owned_of(lazy: u16) -> Option<u16> {
        Some(lazy)
    }

    fn lazy_to_owned(lazy: u16) -> (result: DecodeResult<Self>) {
        Ok(lazy)
    }

    proof fn lemma_round_trip(m: u16, buffer: Seq<u8>, offset: nat, at: nat) {
        lemma_radix_values();
        lemma_le_bytes_len(m as nat, 2);
        lemma_le_value_of_bytes(m as nat, 2);
    }

    proof fn lemma_lazy_same_bytes(lazy: u16, at: nat) {
    }

    proof fn lemma_lazy_agrees(buffer: Seq<u8>, offset: nat) {
    }
}

impl BaseLen for u32 {
    type Model = u32;

    open spec fn spec_base_len() -> nat {
        4
    }

    open spec fn layout_fits() -> bool {
        true
    }

    open spec fn model(&self) -> u32 {
        *self
    }

    proof fn lemma_layout_fits() {
    }

    fn base_len() -> (len: usize) {
        4
    }
}

impl Encode for u32 {
    open spec fn encodable(m: u32) -> bool {
        true
    }

    open spec fn scratch_size(m: u32) -> nat {
        0
    }

    open spec fn base_bytes(m: u32, at: nat) -> Seq<u8> {
        le_bytes(m as nat, 4)
    }

    open spec fn scratch_bytes(m: u32, at: nat) -> Seq<u8> {
        Seq::empty()
    }

    proof fn lemma_region_lens(m: u32, at: nat) {
        lemma_le_bytes_len(m as nat, 4);
    }

    fn scratch_len(&self) -> (len: usize) {
        0
    }

    fn encode(&self, cursor: &mut EncodeCursor) {
        let slot = cursor.base(4);
        put_le(slot, *self as u128);
        proof {
            assert(final(cursor.scratch_cursor.buffer)@ =~= Seq::<u8>::empty() + final(
                cursor.scratch_cursor.buffer)@);
        }
    }
}

impl<'a> Decode<'a> for u32 {
    open spec fn parse(buffer: Seq<u8>, offset: nat) -> Option<u32> {
        if offset + 4 <= buffer.len() {
            Some(le_value(buffer.subrange(offset as int, offset + 4 as int)) as u32)
        } else {
            None
        }
    }

    proof fn lemma_parse_in_bounds(buffer: Seq<u8>, offset: nat) {
    }

    fn decode(cursor: &mut DecodeCursor<'a>) -> (result: DecodeResult<Self>) {
        let slot = cursor.base(4)?;
        proof {
            lemma_le_value_bound(slot@);
            lemma_radix_values();
        }
        Ok(get_le(slot) as u32)
    }
}

impl Compatible<u32> for u32 {
    open spec fn counterpart(m: u32) -> u32 {
        m
    }

    proof fn lemma_same_base_len() {
    }

    proof fn lemma_same_bytes(m: u32, at: nat) {
    }
}

impl Lazy<'_> for u32 {

}

impl Owned for u32 {
    type Lazy<'a> = u32;

    open spec fn owned_of(lazy: u32) -> Option<u32> {
        Some(lazy)
    }

    fn lazy_to_owned(lazy: u32) -> (result: DecodeResult<Self>) {
        Ok(lazy)
    }

    proof fn lemma_round_trip(m: u32, buffer: Seq<u8>, offset: nat, at: nat) {
        lemma_radix_values();
        lemma_le_bytes_len(m as nat, 4);
        lemma_le_value_of_bytes(m as nat, 4);
    }

    proof fn lemma_lazy_same_bytes(lazy: u32, at: nat) {
    }

    proof fn lemma_lazy_agrees(buffer: Seq<u8>, offset: nat) {
    }
}

impl BaseLen for u64 {
    type Model = u64;

    open spec fn spec_base_len() -> nat {
        8
    }

    open spec fn layout_fits() -> bool {
        true
    }

    open spec fn model(&self) -> u64 {
        *self
    }

    proof fn lemma_layout_fits() {
    }

    fn base_len() -> (len: usize) {
        8
    }
}

impl Encode for u64 {
    open spec fn encodable(m: u64) -> bool {
        true
    }

    open spec fn scratch_size(m: u64) -> nat {
        0
    }

    open spec fn base_bytes(m: u64, at: nat) -> Seq<u8> {
        le_bytes(m as nat, 8)
    }

    open spec fn scratch_bytes(m: u64, at: nat) -> Seq<u8> {
        Seq::empty()
    }

    proof fn lemma_region_lens(m: u64, at: nat) {
        lemma_le_bytes_len(m as nat, 8);
    }

    fn scratch_len(&self) -> (len: usize) {
        0
    }

    fn encode(&self, cursor: &mut EncodeCursor) {
        let slot = cursor.base(8);
        put_le(slot, *self as u128);
        proof {
            assert(final(cursor.scratch_cursor.buffer)@ =~= Seq::<u8>::empty() + final(
                cursor.scratch_cursor.buffer)@);
        }
    }
}

impl<'a> Decode<'a> for u64 {
    open spec fn parse(buffer: Seq<u8>, offset: nat) -> Option<u64> {
        if offset + 8 <= buffer.len() {
            Some(le_value(buffer.subrange(offset as int, offset + 8 as int)) as u64)
        } else {
            None
        }
    }

    proof fn lemma_parse_in_bounds(buffer: Seq<u8>, offset: nat) {
    }

    fn decode(cursor: &mut DecodeCursor<'a>) -> (result: DecodeResult<Self>) {
        let slot = cursor.base(8)?;
        proof {
            lemma_le_value_bound(slot@);
            lemma_radix_values();
        }
        Ok(get_le(slot) as u64)
    }
}

impl Compatible<u64> for u64 {
    open spec fn counterpart(m: u64) -> u64 {
        m
    }

    proof fn lemma_same_base_len() {
    }

    proof fn lemma_same_bytes(m: u64, at: nat) {
    }
}

impl Lazy<'_> for u64 {

}

impl Owned for u64 {
    type Lazy<'a> = u64;

    open spec fn owned_of(lazy: u64) -> Option<u64> {
        Some(lazy)
    }

    fn lazy_to_owned(lazy: u64) -> (result: DecodeResult<Self>) {
        Ok(lazy)
    }

    proof fn lemma_round_trip(m: u64, buffer: Seq<u8>, offset: nat, at: nat) {
        lemma_radix_values();
        lemma_le_bytes_len(m as nat, 8);
        lemma_le_value_of_bytes(m as nat, 8);
    }

    proof fn lemma_lazy_same_bytes(lazy: u64, at: nat) {
    }

    proof fn lemma_lazy_agrees(buffer: Seq<u8>, offset: nat) {
    }
}

impl BaseLen for u128 {
    type Model = u128;

    open spec fn spec_base_len() -> nat {
        16
    }

    open spec fn layout_fits() -> bool {
        true
    }

    open spec fn model(&self) -> u128 {
        *self
    }

    proof fn lemma_layout_fits() {
    }

    fn base_len() -> (len: usize) {
        16
    }
}

impl Encode for u128 {
    open spec fn encodable(m: u128) -> bool {
        true
    }

    open spec fn scratch_size(m: u128) -> nat {
        0
    }

    open spec fn base_bytes(m: u128, at: nat) -> Seq<u8> {
        le_bytes(m as nat, 16)
    }

    open spec fn scratch_bytes(m: u128, at: nat) -> Seq<u8> {
        Seq::empty()
    }

    proof fn lemma_region_lens(m: u128, at: nat) {
        lemma_le_bytes_len(m as nat, 16);
    }

    fn scratch_len(&self) -> (len: usize) {
        0
    }

    fn encode(&self, cursor: &mut EncodeCursor) {
        let slot = cursor.base(16);
        put_le(slot, *self as u128);
        proof {
            assert(final(cursor.scratch_cursor.buffer)@ =~= Seq::<u8>::empty() + final(
                cursor.scratch_cursor.buffer)@);
        }
    }
}

impl<'a> Decode<'a> for u128 {
    open spec fn parse(buffer: Seq<u8>, offset: nat) -> Option<u128> {
        if offset + 16 <= buffer.len() {
            Some(le_value(buffer.subrange(offset as int, offset + 16 as int)) as u128)
        } else {
            None
        }
    }

    proof fn lemma_parse_in_bounds(buffer: Seq<u8>, offset: nat) {
    }

    fn decode(cursor: &mut DecodeCursor<'a>) -> (result: DecodeResult<Self>) {
        let slot = cursor.base(16)?;
        proof {
            lemma_le_value_bound(slot@);
            lemma_radix_values();
        }
        Ok(get_le(slot) as u128)
    }
}

impl Compatible<u128> for u128 {
    open spec fn counterpart(m: u128) -> u128 {
        m
    }

    proof fn lemma_same_base_len() {
    }

    proof fn lemma_same_bytes(m: u128, at: nat) {
    }
}

impl Lazy<'_> for u128 {

}

impl Owned for u128 {
    type Lazy<'a> = u128;

    open spec fn owned_of(lazy: u128) -> Option<u128> {
        Some(lazy)
    }

    fn lazy_to_owned(lazy: u128) -> (result: DecodeResult<Self>) {
        Ok(lazy)
    }

    proof fn lemma_round_trip(m: u128, buffer: Seq<u8>, offset: nat, at: nat) {
        lemma_radix_values();
        lemma_le_bytes_len(m as nat, 16);
        lemma_le_value_of_bytes(m as nat, 16);
    }

    proof fn lemma_lazy_same_bytes(lazy: u128, at: nat) {
    }

    proof fn lemma_lazy_agrees(buffer: Seq<u8>, offset: nat) {
    }
}

impl BaseLen for i8 {
    type Model = i8;

    open spec fn spec_base_len() -> nat {
        1
    }

    open spec fn layout_fits() -> bool {
        true
    }

    open spec fn model(&self) -> i8 {
        *self
    }

    proof fn lemma_layout_fits() {
    }

    fn base_len() -> (len: usize) {
        1
    }
}

impl Encode for i8 {
    open spec fn encodable(m: i8) -> bool {
        true
    }

    open spec fn scratch_size(m: i8) -> nat {
        0
    }

    open spec fn base_bytes(m: i8, at: nat) -> Seq<u8> {
        le_bytes(to_unsigned(m as int, 1), 1)
    }

    open spec fn scratch_bytes(m: i8, at: nat) -> Seq<u8> {
        Seq::empty()
    }

    proof fn lemma_region_lens(m: i8, at: nat) {
        lemma_le_bytes_len(to_unsigned(m as int, 1), 1);
    }

    fn scratch_len(&self) -> (len: usize) {
        0
    }

    fn encode(&self, cursor: &mut EncodeCursor) {
        let slot = cursor.base(1);
        proof {
            lemma_radix_values();
        }
        put_le_signed(slot, *self as i128);
        proof {
            assert(final(cursor.scratch_cursor.buffer)@ =~= Seq::<u8>::empty() + final(
                cursor.scratch_cursor.buffer)@);
        }
    }
}

impl<'a> Decode<'a> for i8 {
    open spec fn parse(buffer: Seq<u8>, offset: nat) -> Option<i8> {
        if offset + 1 <= buffer.len() {
            Some(to_signed(le_value(buffer.subrange(offset as int, offset + 1 as int)), 1) as i8)
        } else {
            None
        }
    }

    proof fn lemma_parse_in_bounds(buffer: Seq<u8>, offset: nat) {
    }

    fn decode(cursor: &mut DecodeCursor<'a>) -> (result: DecodeResult<Self>) {
        let slot = cursor.base(1)?;
        proof {
            lemma_radix_values();
        }
        Ok(get_le_signed(slot) as i8)
    }
}

impl Compatible<i8> for i8 {
    open spec fn counterpart(m: i8) -> i8 {
        m
    }

    proof fn lemma_same_base_len() {
    }

    proof fn lemma_same_bytes(m: i8, at: nat) {
    }
}

impl Lazy<'_> for i8 {

}

impl Owned for i8 {
    type Lazy<'a> = i8;

    open spec fn owned_of(lazy: i8) -> Option<i8> {
        Some(lazy)
    }

    fn lazy_to_owned(lazy: i8) -> (result: DecodeResult<Self>) {
        Ok(lazy)
    }

    proof fn lemma_round_trip(m: i8, buffer: Seq<u8>, offset: nat, at: nat) {
        lemma_radix_values();
        lemma_signed_round_trip(m as int, 1);
        lemma_le_bytes_len(to_unsigned(m as int, 1), 1);
        lemma_le_value_of_bytes(to_unsigned(m as int, 1), 1);
    }

    proof fn lemma_lazy_same_bytes(lazy: i8, at: nat) {
    }

    proof fn lemma_lazy_agrees(buffer: Seq<u8>, offset: nat) {
    }
}

impl BaseLen for i16 {
    type Model = i16;

    open spec fn spec_base_len() -> nat {
        2
    }

    open spec fn layout_fits() -> bool {
        true
    }

    open spec fn model(&self) -> i16 {
        *self
    }

    proof fn lemma_layout_fits() {
    }

    fn base_len() -> (len: usize) {
        2
    }
}

impl Encode for i16 {
    open spec fn encodable(m: i16) -> bool {
        true
    }

    open spec fn scratch_size(m: i16) -> nat {
        0
    }

    open spec fn base_bytes(m: i16, at: nat) -> Seq<u8> {
        le_bytes(to_unsigned(m as int, 2), 2)
    }

    open spec fn scratch_bytes(m: i16, at: nat) -> Seq<u8> {
        Seq::empty()
    }

    proof fn lemma_region_lens(m: i16, at: nat) {
        lemma_le_bytes_len(to_unsigned(m as int, 2), 2);
    }

    fn scratch_len(&self) -> (len: usize) {
        0
    }

    fn encode(&self, cursor: &mut EncodeCursor) {
        let slot = cursor.base(2);
        proof {
            lemma_radix_values();
        }
        put_le_signed(slot, *self as i128);
        proof {
            assert(final(cursor.scratch_cursor.buffer)@ =~= Seq::<u8>::empty() + final(
                cursor.scratch_cursor.buffer)@);
        }
    }
}

impl<'a> Decode<'a> for i16 {
    open spec fn parse(buffer: Seq<u8>, offset: nat) -> Option<i16> {
        if offset + 2 <= buffer.len() {
            Some(to_signed(le_value(buffer.subrange(offset as int, offset + 2 as int)), 2) as i16)
        } else {
            None
        }
    }

    proof fn lemma_parse_in_bounds(buffer: Seq<u8>, offset: nat) {
    }

    fn decode(cursor: &mut DecodeCursor<'a>) -> (result: DecodeResult<Self>) {
        let slot = cursor.base(2)?;
        proof {
            lemma_radix_values();
        }
        Ok(get_le_signed(slot) as i16)
    }
}

impl Compatible<i16> for i16 {
    open spec fn counterpart(m: i16) -> i16 {
        m
    }

    proof fn lemma_same_base_len() {
    }

    proof fn lemma_same_bytes(m: i16, at: nat) {
    }
}

impl Lazy<'_> for i16 {

}

impl Owned for i16 {
    type Lazy<'a> = i16;

    open spec fn owned_of(lazy: i16) -> Option<i16> {
        Some(lazy)
    }

    fn lazy_to_owned(lazy: i16) -> (result: DecodeResult<Self>) {
        Ok(lazy)
    }

    proof fn lemma_round_trip(m: i16, buffer: Seq<u8>, offset: nat, at: nat) {
        lemma_radix_values();
        lemma_signed_round_trip(m as int, 2);
        lemma_le_bytes_len(to_unsigned(m as int, 2), 2);
        lemma_le_value_of_bytes(to_unsigned(m as int, 2), 2);
    }

    proof fn lemma_lazy_same_bytes(lazy: i16, at: nat) {
    }

    proof fn lemma_lazy_agrees(buffer: Seq<u8>, offset: nat) {
    }
}

impl BaseLen for i32 {
    type Model = i32;

    open spec fn spec_base_len() -> nat {
        4
    }

    open spec fn layout_fits() -> bool {
        true
    }

    open spec fn model(&self) -> i32 {
        *self
    }

    proof fn lemma_layout_fits() {
    }

    fn base_len() -> (len: usize) {
        4
    }
}

impl Encode for i32 {
    open spec fn encodable(m: i32) -> bool {
        true
    }

    open spec fn scratch_size(m: i32) -> nat {
        0
    }

    open spec fn base_bytes(m: i32, at: nat) -> Seq<u8> {
        le_bytes(to_unsigned(m as int, 4), 4)
    }

    open spec fn scratch_bytes(m: i32, at: nat) -> Seq<u8> {
        Seq::empty()
    }

    proof fn lemma_region_lens(m: i32, at: nat) {
        lemma_le_bytes_len(to_unsigned(m as int, 4), 4);
    }

    fn scratch_len(&self) -> (len: usize) {
        0
    }

    fn encode(&self, cursor: &mut EncodeCursor) {
        let slot = cursor.base(4);
        proof {
            lemma_radix_values();
        }
        put_le_signed(slot, *self as i128);
        proof {
            assert(final(cursor.scratch_cursor.buffer)@ =~= Seq::<u8>::empty() + final(
                cursor.scratch_cursor.buffer)@);
        }
    }
}

impl<'a> Decode<'a> for i32 {
    open spec fn parse(buffer: Seq<u8>, offset: nat) -> Option<i32> {
        if offset + 4 <= buffer.len() {
            Some(to_signed(le_value(buffer.subrange(offset as int, offset + 4 as int)), 4) as i32)
        } else {
            None
        }
    }

    proof fn lemma_parse_in_bounds(buffer: Seq<u8>, offset: nat) {
    }

    fn decode(cursor: &mut DecodeCursor<'a>) -> (result: DecodeResult<Self>) {
        let slot = cursor.base(4)?;
        proof {
            lemma_radix_values();
        }
        Ok(get_le_signed(slot) as i32)
    }
}

impl Compatible<i32> for i32 {
    open spec fn counterpart(m: i32) -> i32 {
        m
    }

    proof fn lemma_same_base_len() {
    }

    proof fn lemma_same_bytes(m: i32, at: nat) {
    }
}

impl Lazy<'_> for i32 {

}

impl Owned for i32 {
    type Lazy<'a> = i32;

    open spec fn owned_of(lazy: i32) -> Option<i32> {
        Some(lazy)
    }

    fn lazy_to_owned(lazy: i32) -> (result: DecodeResult<Self>) {
        Ok(lazy)
    }

    proof fn lemma_round_trip(m: i32, buffer: Seq<u8>, offset: nat, at: nat) {
        lemma_radix_values();
        lemma_signed_round_trip(m as int, 4);
        lemma_le_bytes_len(to_unsigned(m as int, 4), 4);
        lemma_le_value_of_bytes(to_unsigned(m as int, 4), 4);
    }

    proof fn lemma_lazy_same_bytes(lazy: i32, at: nat) {
    }

    proof fn lemma_lazy_agrees(buffer: Seq<u8>, offset: nat) {
    }
}

impl BaseLen for i64 {
    type Model = i64;

    open spec fn spec_base_len() -> nat {
        8
    }

    open spec fn layout_fits() -> bool {
        true
    }

    open spec fn model(&self) -> i64 {
        *self
    }

    proof fn lemma_layout_fits() {
    }

    fn base_len() -> (len: usize) {
        8
    }
}

impl Encode for i64 {
    open spec fn encodable(m: i64) -> bool {
        true
    }

    open spec fn scratch_size(m: i64) -> nat {
        0
    }

    open spec fn base_bytes(m: i64, at: nat) -> Seq<u8> {
        le_bytes(to_unsigned(m as int, 8), 8)
    }

    open spec fn scratch_bytes(m: i64, at: nat) -> Seq<u8> {
        Seq::empty()
    }

    proof fn lemma_region_lens(m: i64, at: nat) {
        lemma_le_bytes_len(to_unsigned(m as int, 8), 8);
    }

    fn scratch_len(&self) -> (len: usize) {
        0
    }

    fn encode(&self, cursor: &mut EncodeCursor) {
        let slot = cursor.base(8);
        proof {
            lemma_radix_values();
        }
        put_le_signed(slot, *self as i128);
        proof {
            assert(final(cursor.scratch_cursor.buffer)@ =~= Seq::<u8>::empty() + final(
                cursor.scratch_cursor.buffer)@);
        }
    }
}

impl<'a> Decode<'a> for i64 {
    open spec fn parse(buffer: Seq<u8>, offset: nat) -> Option<i64> {
        if offset + 8 <= buffer.len() {
            Some(to_signed(le_value(buffer.subrange(offset as int, offset + 8 as int)), 8) as i64)
        } else {
            None
        }
    }

    proof fn lemma_parse_in_bounds(buffer: Seq<u8>, offset: nat) {
    }

    fn decode(cursor: &mut DecodeCursor<'a>) -> (result: DecodeResult<Self>) {
        let slot = cursor.base(8)?;
        proof {
            lemma_radix_values();
        }
        Ok(get_le_signed(slot) as i64)
    }
}

impl Compatible<i64> for i64 {
    open spec fn counterpart(m: i64) -> i64 {
        m
    }

    proof fn lemma_same_base_len() {
    }

    proof fn lemma_same_bytes(m: i64, at: nat) {
    }
}

impl Lazy<'_> for i64 {

}

impl Owned for i64 {
    type Lazy<'a> = i64;

    open spec fn owned_of(lazy: i64) -> Option<i64> {
        Some(lazy)
    }

    fn lazy_to_owned(lazy: i64) -> (result: DecodeResult<Self>) {
        Ok(lazy)
    }

    proof fn lemma_round_trip(m: i64, buffer: Seq<u8>, offset: nat, at: nat) {
        lemma_radix_values();
        lemma_signed_round_trip(m as int, 8);
        lemma_le_bytes_len(to_unsigned(m as int, 8), 8);
        lemma_le_value_of_bytes(to_unsigned(m as int, 8), 8);
    }

    proof fn lemma_lazy_same_bytes(lazy: i64, at: nat) {
    }

    proof fn lemma_lazy_agrees(buffer: Seq<u8>, offset: nat) {
    }
}

impl BaseLen for i128 {
    type Model = i128;

    open spec fn spec_base_len() -> nat {
        16
    }

    open spec fn layout_fits() -> bool {
        true
    }

    open spec fn model(&self) -> i128 {
        *self
    }

    proof fn lemma_layout_fits() {
    }

    fn base_len() -> (len: usize) {
        16
    }
}

impl Encode for i128 {
    open spec fn encodable(m: i128) -> bool {
        true
    }

    open spec fn scratch_size(m: i128) -> nat {
        0
    }

    open spec fn base_bytes(m: i128, at: nat) -> Seq<u8> {
        le_bytes(to_unsigned(m as int, 16), 16)
    }

    open spec fn scratch_bytes(m: i128, at: nat) -> Seq<u8> {
        Seq::empty()
    }

    proof fn lemma_region_lens(m: i128, at: nat) {
        lemma_le_bytes_len(to_unsigned(m as int, 16), 16);
    }

    fn scratch_len(&self) -> (len: usize) {
        0
    }

    fn encode(&self, cursor: &mut EncodeCursor) {
        let slot = cursor.base(16);
        proof {
            lemma_radix_values();
        }
        put_le_signed(slot, *self as i128);
        proof {
            assert(final(cursor.scratch_cursor.buffer)@ =~= Seq::<u8>::empty() + final(
                cursor.scratch_cursor.buffer)@);
        }
    }
}

impl<'a> Decode<'a> for i128 {
    open spec fn parse(buffer: Seq<u8>, offset: nat) -> Option<i128> {
        if offset + 16 <= buffer.len() {
            Some(to_signed(le_value(buffer.subrange(offset as int, offset + 16 as int)), 16) as i128)
        } else {
            None
        }
    }

    proof fn lemma_parse_in_bounds(buffer: Seq<u8>, offset: nat) {
    }

    fn decode(cursor: &mut DecodeCursor<'a>) -> (result: DecodeResult<Self>) {
        let slot = cursor.base(16)?;
        proof {
            lemma_radix_values();
        }
        Ok(get_le_signed(slot) as i128)
    }
}

impl Compatible<i128> for i128 {
    open spec fn counterpart(m: i128) -> i128 {
        m
    }

    proof fn lemma_same_base_len() {
    }

    proof fn lemma_same_bytes(m: i128, at: nat) {
    }
}

impl Lazy<'_> for i128 {

}

impl Owned for i128 {
    type Lazy<'a> = i128;

    open spec fn owned_of(lazy: i128) -> Option<i128> {
        Some(lazy)
    }

    fn lazy_to_owned(lazy: i128) -> (result: DecodeResult<Self>) {
        Ok(lazy)
    }

    proof fn lemma_round_trip(m: i128, buffer: Seq<u8>, offset: nat, at: nat) {
        lemma_radix_values();
        lemma_signed_round_trip(m as int, 16);
        lemma_le_bytes_len(to_unsigned(m as int, 16), 16);
        lemma_le_value_of_bytes(to_unsigned(m as int, 16), 16);
    }

    proof fn lemma_lazy_same_bytes(lazy: i128, at: nat) {
    }

    proof fn lemma_lazy_agrees(buffer: Seq<u8>, offset: nat) {
    }
}

} // verus!
