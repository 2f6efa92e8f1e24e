//! The codec of text: the length in bytes and the offset of the bytes in
//! the base region, the UTF-8 bytes in scratch.
use vstd::prelude::*;
use vstd::string::StringSliceAdditionalSpecFns;
use vstd::utf8::{decode_utf8, encode_utf8, valid_utf8};

use crate::decode_cursor::pointer_at;
use crate::le::{
    copy_bytes, get_le, le_bytes, le_value, lemma_le_bytes_len, lemma_le_value_bound,
    lemma_le_value_of_bytes, lemma_radix_values, put_le,
};
use crate::{
    holds, lemma_holds_split, BaseLen, Compatible, Decode, DecodeCursor, DecodeError,
    DecodeResult, Encode, EncodeCursor, Lazy, Owned,
};

verus! {

#[verifier::external_type_specification]
#[verifier::external_body]
pub struct ExUtf8Error(core::str::Utf8Error);

/// `core::str::from_utf8`: the text that `bytes` are the UTF-8 encoding
/// of; an error if they are not valid UTF-8.
#[verifier::external_body]
pub(crate) fn from_utf8<'a>(bytes: &'a [u8]) -> (result: Result<&'a str, core::str::Utf8Error>)
    ensures
        match result {
            Ok(text) => valid_utf8(bytes@) && text.spec_bytes() == bytes@,
            Err(_) => !valid_utf8(bytes@),
        },
{
    core::str::from_utf8(bytes)
}

/// The base region of the text `m`: the length of its UTF-8 bytes, then
/// the offset `at` of its scratch.
pub open spec fn text_base_bytes(m: Seq<char>, at: nat) -> Seq<u8> {
    le_bytes(encode_utf8(m).len(), 4) + le_bytes(at, 4)
}

/// Whether a 32-bit length can count the UTF-8 bytes of `m`.
pub open spec fn text_encodable(m: Seq<char>) -> bool {
    encode_utf8(m).len() <= u32::MAX
}

/// The text whose base region starts at `offset` in `buffer`: the bytes
/// that its length and offset name, if they lie in the buffer and are
/// valid UTF-8.
pub open spec fn parse_text(buffer: Seq<u8>, offset: nat) -> Option<Seq<char>> {
    if offset + 8 > buffer.len() {
        None
    } else {
        let len = le_value(buffer.subrange(offset as int, offset + 4 as int));
        let at = pointer_at(buffer, offset + 4);
        if at + len > buffer.len() {
            None
        } else if valid_utf8(buffer.subrange(at as int, at + len as int)) {
            Some(decode_utf8(buffer.subrange(at as int, at + len as int)))
        } else {
            None
        }
    }
}

/// A buffer that holds the regions of an encodable text decodes to it.
pub proof fn lemma_text_round_trip(m: Seq<char>, buffer: Seq<u8>, offset: nat, at: nat)
    requires
        text_encodable(m),
        holds(buffer, offset, text_base_bytes(m, at)),
        holds(buffer, at, encode_utf8(m)),
        at + encode_utf8(m).len() <= u32::MAX,
    ensures
        parse_text(buffer, offset) == Some(m),
{
    let len = encode_utf8(m).len();
    lemma_radix_values();
    lemma_le_bytes_len(len, 4);
    lemma_le_bytes_len(at, 4);
    lemma_holds_split(buffer, offset, le_bytes(len, 4), le_bytes(at, 4));
    lemma_le_value_of_bytes(len, 4);
    lemma_le_value_of_bytes(at, 4);
    vstd::utf8::encode_utf8_valid_utf8(m);
    vstd::utf8::encode_utf8_decode_utf8(m);
}

impl BaseLen for str {
    type Model = Seq<char>;

    open spec fn spec_base_len() -> nat {
        8
    }

    open spec fn layout_fits() -> bool {
        true
    }

    open spec fn model(&self) -> Seq<char> {
        self@
    }

    proof fn lemma_layout_fits() {
    }

    fn base_len() -> (len: usize) {
        4 + 4
    }
}

impl Encode for str {
    open spec fn encodable(m: Seq<char>) -> bool {
        text_encodable(m)
    }

    open spec fn scratch_size(m: Seq<char>) -> nat {
        encode_utf8(m).len()
    }

    open spec fn base_bytes(m: Seq<char>, at: nat) -> Seq<u8> {
        text_base_bytes(m, at)
    }

    open spec fn scratch_bytes(m: Seq<char>, at: nat) -> Seq<u8> {
        encode_utf8(m)
    }

    proof fn lemma_region_lens(m: Seq<char>, at: nat) {
        lemma_le_bytes_len(encode_utf8(m).len(), 4);
        lemma_le_bytes_len(at, 4);
    }

    fn scratch_len(&self) -> (len: usize) {
        self.len()
    }

    fn encode(&self, cursor: &mut EncodeCursor) {
        let len = self.len();
        let slot = cursor.base(4);
        put_le(slot, len as u128);
        let scratch_buf = cursor.scratch(len);
        copy_bytes(scratch_buf, self.as_bytes());
        proof {
            assert(final(old(cursor).base_cursor.buffer)@ =~= text_base_bytes(
                self@,
                old(cursor).scratch_offset as nat,
            ) + final(cursor.base_cursor.buffer)@);
        }
    }
}

impl<'a> Decode<'a> for &'a str {
    open spec fn parse(buffer: Seq<u8>, offset: nat) -> Option<Seq<char>> {
        parse_text(buffer, offset)
    }

    proof fn lemma_parse_in_bounds(buffer: Seq<u8>, offset: nat) {
    }

    fn decode(cursor: &mut DecodeCursor<'a>) -> (result: DecodeResult<Self>) {
        let len_slot = cursor.base(4)?;
        proof {
            lemma_le_value_bound(len_slot@);
            lemma_radix_values();
        }
        let len = get_le(len_slot) as usize;
        let scratch = cursor.scratch(len)?;
        match from_utf8(scratch) {
            Ok(text) => {
                proof {
                    vstd::utf8::encode_utf8_decode_utf8(text@);
                }
                Ok(text)
            },
            Err(_) => Err(DecodeError),
        }
    }
}

impl BaseLen for String {
    type Model = Seq<char>;

    open spec fn spec_base_len() -> nat {
        8
    }

    open spec fn layout_fits() -> bool {
        true
    }

    open spec fn model(&self) -> Seq<char> {
        self@
    }

    proof fn lemma_layout_fits() {
    }

    fn base_len() -> (len: usize) {
        4 + 4
    }
}

impl Encode for String {
    open spec fn encodable(m: Seq<char>) -> bool {
        text_encodable(m)
    }

    open spec fn scratch_size(m: Seq<char>) -> nat {
        encode_utf8(m).len()
    }

    open spec fn base_bytes(m: Seq<char>, at: nat) -> Seq<u8> {
        text_base_bytes(m, at)
    }

    open spec fn scratch_bytes(m: Seq<char>, at: nat) -> Seq<u8> {
        encode_utf8(m)
    }

    proof fn lemma_region_lens(m: Seq<char>, at: nat) {
        lemma_le_bytes_len(encode_utf8(m).len(), 4);
        lemma_le_bytes_len(at, 4);
    }

    fn scratch_len(&self) -> (len: usize) {
        self.as_str().len()
    }

    fn encode(&self, cursor: &mut EncodeCursor) {
        self.as_str().encode(cursor)
    }
}

impl<'a> Decode<'a> for String {
    open spec fn parse(buffer: Seq<u8>, offset: nat) -> Option<Seq<char>> {
        parse_text(buffer, offset)
    }

    proof fn lemma_parse_in_bounds(buffer: Seq<u8>, offset: nat) {
    }

    fn decode(cursor: &mut DecodeCursor<'a>) -> (result: DecodeResult<Self>) {
        let text = <&'a str as Decode<'a>>::decode(cursor)?;
        Ok(text.to_owned())
    }
}

impl Compatible<String> for String {
    open spec fn counterpart(m: Seq<char>) -> Seq<char> {
        m
    }

    proof fn lemma_same_base_len() {
    }

    proof fn lemma_same_bytes(m: Seq<char>, at: nat) {
    }
}

impl Compatible<str> for str {
    open spec fn counterpart(m: Seq<char>) -> Seq<char> {
        m
    }

    proof fn lemma_same_base_len() {
    }

    proof fn lemma_same_bytes(m: Seq<char>, at: nat) {
    }
}

impl Compatible<String> for str {
    open spec fn counterpart(m: Seq<char>) -> Seq<char> {
        m
    }

    proof fn lemma_same_base_len() {
    }

    proof fn lemma_same_bytes(m: Seq<char>, at: nat) {
    }
}

impl Compatible<str> for String {
    open spec fn counterpart(m: Seq<char>) -> Seq<char> {
        m
    }

    proof fn lemma_same_base_len() {
    }

    proof fn lemma_same_bytes(m: Seq<char>, at: nat) {
    }
}

impl<'a> Lazy<'a> for &'a str {

}

impl Owned for String {
    type Lazy<'a> = &'a str;

    open spec fn owned_of(lazy: Seq<char>) -> Option<Seq<char>> {
        Some(lazy)
    }

    fn lazy_to_owned(lazy: &str) -> (result: DecodeResult<Self>) {
        Ok(lazy.to_owned())
    }

    proof fn lemma_round_trip(m: Seq<char>, buffer: Seq<u8>, offset: nat, at: nat) {
        lemma_text_round_trip(m, buffer, offset, at);
    }

    proof fn lemma_lazy_same_bytes(lazy: Seq<char>, at: nat) {
    }

    proof fn lemma_lazy_agrees(buffer: Seq<u8>, offset: nat) {
    }
}

/// Bytes that are not valid UTF-8 are no text.
pub proof fn lemma_invalid_text_fails(buffer: Seq<u8>, offset: nat)
    requires
        offset + 8 <= buffer.len(),
        pointer_at(buffer, offset + 4) + le_value(
            buffer.subrange(offset as int, offset + 4 as int),
        ) <= buffer.len(),
        !valid_utf8(
            buffer.subrange(
                pointer_at(buffer, offset + 4) as int,
                pointer_at(buffer, offset + 4) + le_value(
                    buffer.subrange(offset as int, offset + 4 as int),
                ) as int,
            ),
        ),
    ensures
        parse_text(buffer, offset) is None,
{
}

} // verus!
