//! A fixed-layout binary encoding with a base region and a scratch region,
//! and the schema tools that describe the types it carries.
//!
//! Every encodable type has a base length known from the type alone. A
//! value's variable-length payloads live in a scratch region behind the base
//! region of the top-level value, and are reached through absolute 32-bit
//! offsets written little-endian into the base.
use vstd::prelude::*;

pub use crate::boxed::BoxLazy;
pub use crate::decode_cursor::DecodeCursor;
pub use crate::encode_cursor::{BufferEncodeCursor, EncodeCursor};
pub use crate::list::{ListLazy, ListLazyIter};

pub mod ast;
pub mod boxed;
pub mod codegen;
pub mod copy_primitives;
pub mod db;
pub mod decode_cursor;
pub mod encode_cursor;
pub mod le;
pub mod list;
pub mod option;
pub mod parse;
pub mod result;
pub mod string;
pub mod text;

verus! {

/// A type whose base region has a length known from the type alone.
///
/// The trait also names the mathematical model of the type's values, over
/// which the wire format is stated.
pub trait BaseLen {
    /// What a value of the type stands for.
    type Model;

    /// The length in bytes of the base region.
    spec fn spec_base_len() -> nat;

    /// Whether the base length of the type, and of each type that its
    /// layout is built from, fits a `usize`.
    spec fn layout_fits() -> bool;

    /// What `self` stands for.
    spec fn model(&self) -> Self::Model;

    proof fn lemma_layout_fits()
        requires
            Self::layout_fits(),
        ensures
            Self::spec_base_len() <= usize::MAX,
    ;

    /// The length in bytes of the base region.
    fn base_len() -> (len: usize)
        requires
            Self::layout_fits(),
        ensures
            len == Self::spec_base_len(),
    ;
}

/// Whether `buffer` holds `bytes` at `offset`.
pub open spec fn holds(buffer: Seq<u8>, offset: nat, bytes: Seq<u8>) -> bool {
    offset + bytes.len() <= buffer.len() && buffer.subrange(
        offset as int,
        offset + bytes.len() as int,
    ) == bytes
}

/// A buffer that holds two runs of bytes one after the other holds each.
pub proof fn lemma_holds_split(buffer: Seq<u8>, offset: nat, first: Seq<u8>, second: Seq<u8>)
    requires
        holds(buffer, offset, first + second),
    ensures
        holds(buffer, offset, first),
        holds(buffer, offset + first.len(), second),
{
    let whole = first + second;
    let run = buffer.subrange(offset as int, offset + whole.len() as int);
    assert(run.subrange(0, first.len() as int) =~= buffer.subrange(
        offset as int,
        offset + first.len() as int,
    ));
    assert(whole.subrange(0, first.len() as int) =~= first);
    assert(run.subrange(first.len() as int, whole.len() as int) =~= buffer.subrange(
        offset + first.len() as int,
        offset + first.len() + second.len() as int,
    ));
    assert(whole.subrange(first.len() as int, whole.len() as int) =~= second);
}

/// A type whose values can be written to the wire.
///
/// The format is given by `base_bytes` and `scratch_bytes`: what the base and
/// scratch regions of a value hold when its scratch region starts at the
/// absolute offset `at`.
pub trait Encode: BaseLen {
    /// Whether `m` can be written: the 32-bit counts of the format can
    /// hold it, and where it is a lazy value, its bytes are a value.
    spec fn encodable(m: Self::Model) -> bool;

    /// The number of scratch bytes that `m` needs.
    spec fn scratch_size(m: Self::Model) -> nat;

    /// The base region of `m`.
    spec fn base_bytes(m: Self::Model, at: nat) -> Seq<u8>;

    /// The scratch region of `m`.
    spec fn scratch_bytes(m: Self::Model, at: nat) -> Seq<u8>;

    /// The base region is as long as the type says, the scratch region as
    /// long as the value says.
    proof fn lemma_region_lens(m: Self::Model, at: nat)
        requires
            Self::encodable(m),
        ensures
            Self::base_bytes(m, at).len() == Self::spec_base_len(),
            Self::scratch_bytes(m, at).len() == Self::scratch_size(m),
    ;

    /// The number of scratch bytes that `self` needs.
    fn scratch_len(&self) -> (len: usize)
        requires
            Self::layout_fits(),
            Self::encodable(self.model()),
            Self::scratch_size(self.model()) <= usize::MAX,
        ensures
            len == Self::scratch_size(self.model()),
    ;

    /// Writes `self` at the cursor: the base region into the next bytes of
    /// the cursor's base, the scratch region into the next bytes of its
    /// scratch.
    fn encode(&self, cursor: &mut EncodeCursor)
        requires
            Self::layout_fits(),
            Self::encodable(self.model()),
            Self::spec_base_len() <= old(cursor).base_room(),
            Self::scratch_size(self.model()) <= old(cursor).scratch_room(),
            old(cursor).scratch_offset + Self::scratch_size(self.model()) <= u32::MAX,
        ensures
            final(cursor).scratch_offset == old(cursor).scratch_offset + Self::scratch_size(
                self.model(),
            ),
            final(cursor).base_room() == old(cursor).base_room() - Self::spec_base_len(),
            final(cursor).scratch_room() == old(cursor).scratch_room() - Self::scratch_size(
                self.model(),
            ),
            final(old(cursor).base_cursor.buffer)@ == Self::base_bytes(
                self.model(),
                old(cursor).scratch_offset as nat,
            ) + final(final(cursor).base_cursor.buffer)@,
            final(old(cursor).scratch_cursor.buffer)@ == Self::scratch_bytes(
                self.model(),
                old(cursor).scratch_offset as nat,
            ) + final(final(cursor).scratch_cursor.buffer)@,
    ;
}

/// The one error of decoding: the bytes are not a value of the type.
#[derive(Debug)]
pub struct DecodeError;

impl DecodeError {
    /// The text that describes the error.
    pub fn message(&self) -> (text: &'static str)
        ensures
            text@ == "failed to decode mproto value"@,
    {
        "failed to decode mproto value"
    }
}

pub type DecodeResult<T> = Result<T, DecodeError>;

/// A type whose values can be read from the wire.
pub trait Decode<'a>: BaseLen + Sized {
    /// The value whose base region starts at `offset` in `buffer`, if the
    /// bytes there are one.
    spec fn parse(buffer: Seq<u8>, offset: nat) -> Option<Self::Model>;

    /// A value lies in the buffer with its whole base region.
    proof fn lemma_parse_in_bounds(buffer: Seq<u8>, offset: nat)
        requires
            Self::parse(buffer, offset) is Some,
        ensures
            offset + Self::spec_base_len() <= buffer.len(),
    ;

    /// Reads a value at the cursor and moves the cursor past its base region.
    fn decode(cursor: &mut DecodeCursor<'a>) -> (result: DecodeResult<Self>)
        requires
            Self::layout_fits(),
        ensures
            final(cursor).bytes() == old(cursor).bytes(),
            match result {
                Ok(value) => Self::parse(old(cursor).bytes(), old(cursor).position()) == Some(
                    value.model(),
                ) && final(cursor).position() == old(cursor).position() + Self::spec_base_len(),
                Err(_) => Self::parse(old(cursor).bytes(), old(cursor).position()) is None,
            },
    ;
}

/// A type with the same wire format as `Other`: a value of the one and the
/// value of the other that it corresponds to have the same bytes, where the
/// value fits a message, whose offsets are 32 bits wide.
pub trait Compatible<Other: Encode + ?Sized>: Encode {
    /// The value of `Other` that `m` corresponds to.
    spec fn counterpart(m: Self::Model) -> Other::Model;

    proof fn lemma_same_base_len()
        ensures
            Other::spec_base_len() == Self::spec_base_len(),
    ;

    proof fn lemma_same_bytes(m: Self::Model, at: nat)
        requires
            Self::encodable(m),
            Self::spec_base_len() + Self::scratch_size(m) <= u32::MAX,
        ensures
            Other::encodable(Self::counterpart(m)),
            Other::scratch_size(Self::counterpart(m)) == Self::scratch_size(m),
            Other::base_bytes(Self::counterpart(m), at) == Self::base_bytes(m, at),
            Other::scratch_bytes(Self::counterpart(m), at) == Self::scratch_bytes(m, at),
    ;
}

/// A type that borrows the buffer it was decoded from and reads its parts
/// on demand.
pub trait Lazy<'a>: Encode + Decode<'a> {

}

/// A type that owns what it holds, independently of any buffer.
///
/// What is written can be read back, and reading the lazy form first and
/// converting it gives what reading the owned form gives.
pub trait Owned: Encode + for <'a>Decode<'a> + Compatible<Self> + Send + Sync + 'static {
    /// The form of the type that reads from a buffer on demand.
    type Lazy<'a>: Lazy<'a>;

    /// What a lazy value converts to, if its bytes are a value.
    spec fn owned_of(lazy: <Self::Lazy<'static> as BaseLen>::Model) -> Option<Self::Model>;

    fn lazy_to_owned(lazy: Self::Lazy<'_>) -> (result: DecodeResult<Self>)
        requires
            Self::layout_fits(),
        ensures
            match result {
                Ok(value) => Self::owned_of(lazy.model()) == Some(value.model()),
                Err(_) => Self::owned_of(lazy.model()) is None,
            },
    ;

    /// Decoding what was encoded gives the value back: a buffer that holds
    /// the base region of `m` at `offset` and its scratch region at `at`
    /// decodes at `offset` to `m`.
    proof fn lemma_round_trip(m: Self::Model, buffer: Seq<u8>, offset: nat, at: nat)
        requires
            Self::encodable(m),
            holds(buffer, offset, Self::base_bytes(m, at)),
            holds(buffer, at, Self::scratch_bytes(m, at)),
            at + Self::scratch_size(m) <= u32::MAX,
        ensures
            Self::parse(buffer, offset) == Some(m),
    ;

    /// A lazy value encodes to the bytes of the value that it converts to.
    proof fn lemma_lazy_same_bytes(lazy: <Self::Lazy<'static> as BaseLen>::Model, at: nat)
        requires
            Self::owned_of(lazy) is Some,
            Self::encodable(Self::owned_of(lazy).unwrap()),
        ensures
            <Self::Lazy<'static> as Encode>::encodable(lazy),
            <Self::Lazy<'static> as Encode>::scratch_size(lazy) == Self::scratch_size(
                Self::owned_of(lazy).unwrap(),
            ),
            <Self::Lazy<'static> as Encode>::base_bytes(lazy, at) == Self::base_bytes(
                Self::owned_of(lazy).unwrap(),
                at,
            ),
            <Self::Lazy<'static> as Encode>::scratch_bytes(lazy, at) == Self::scratch_bytes(
                Self::owned_of(lazy).unwrap(),
                at,
            ),
    ;

    /// Where the owned form decodes, the lazy form decodes too, and
    /// converts to the same value; where the lazy form does not decode,
    /// neither does the owned form.
    proof fn lemma_lazy_agrees(buffer: Seq<u8>, offset: nat)
        ensures
            <Self::Lazy<'static> as BaseLen>::spec_base_len() == Self::spec_base_len(),
            Self::layout_fits() ==> <Self::Lazy<'static> as BaseLen>::layout_fits(),
            match <Self::Lazy<'static> as Decode<'static>>::parse(buffer, offset) {
                Some(lazy) => Self::owned_of(lazy) == Self::parse(buffer, offset),
                None => Self::parse(buffer, offset) is None,
            },
    ;
}

impl<T: BaseLen + ?Sized> BaseLen for &T {
    type Model = T::Model;

    open spec fn spec_base_len() -> nat {
        T::spec_base_len()
    }

    open spec fn layout_fits() -> bool {
        T::layout_fits()
    }

    open spec fn model(&self) -> T::Model {
        (**self).model()
    }

    proof fn lemma_layout_fits() {
        T::lemma_layout_fits();
    }

    fn base_len() -> (len: usize) {
        T::base_len()
    }
}

impl<T: Encode + ?Sized> Encode for &T {
    open spec fn encodable(m: T::Model) -> bool {
        T::encodable(m)
    }

    open spec fn scratch_size(m: T::Model) -> nat {
        T::scratch_size(m)
    }

    open spec fn base_bytes(m: T::Model, at: nat) -> Seq<u8> {
        T::base_bytes(m, at)
    }

    open spec fn scratch_bytes(m: T::Model, at: nat) -> Seq<u8> {
        T::scratch_bytes(m, at)
    }

    proof fn lemma_region_lens(m: T::Model, at: nat) {
        T::lemma_region_lens(m, at);
    }

    fn scratch_len(&self) -> (len: usize) {
        (**self).scratch_len()
    }

    fn encode(&self, cursor: &mut EncodeCursor) {
        (**self).encode(cursor)
    }
}

impl<T: Encode, U: Compatible<T> + ?Sized> Compatible<T> for &U {
    open spec fn counterpart(m: U::Model) -> T::Model {
        U::counterpart(m)
    }

    proof fn lemma_same_base_len() {
        U::lemma_same_base_len();
    }

    proof fn lemma_same_bytes(m: U::Model, at: nat) {
        U::lemma_same_bytes(m, at);
    }
}

impl<T: BaseLen + ?Sized> BaseLen for &mut T {
    type Model = T::Model;

    open spec fn spec_base_len() -> nat {
        T::spec_base_len()
    }

    open spec fn layout_fits() -> bool {
        T::layout_fits()
    }

    open spec fn model(&self) -> T::Model {
        (**self).model()
    }

    proof fn lemma_layout_fits() {
        T::lemma_layout_fits();
    }

    fn base_len() -> (len: usize) {
        T::base_len()
    }
}

impl<T: Encode + ?Sized> Encode for &mut T {
    open spec fn encodable(m: T::Model) -> bool {
        T::encodable(m)
    }

    open spec fn scratch_size(m: T::Model) -> nat {
        T::scratch_size(m)
    }

    open spec fn base_bytes(m: T::Model, at: nat) -> Seq<u8> {
        T::base_bytes(m, at)
    }

    open spec fn scratch_bytes(m: T::Model, at: nat) -> Seq<u8> {
        T::scratch_bytes(m, at)
    }

    proof fn lemma_region_lens(m: T::Model, at: nat) {
        T::lemma_region_lens(m, at);
    }

    fn scratch_len(&self) -> (len: usize) {
        (**self).scratch_len()
    }

    fn encode(&self, cursor: &mut EncodeCursor) {
        (**self).encode(cursor)
    }
}

/// The bytes of `m` as a top-level value: its base region, then its scratch
/// region.
pub open spec fn wire_bytes<T: Encode + ?Sized>(m: T::Model) -> Seq<u8> {
    T::base_bytes(m, T::spec_base_len()) + T::scratch_bytes(m, T::spec_base_len())
}

/// The number of bytes that `m` takes as a top-level value.
pub open spec fn wire_len<T: Encode + ?Sized>(m: T::Model) -> nat {
    T::spec_base_len() + T::scratch_size(m)
}

/// The number of bytes that `value` takes as a top-level value: the base
/// length of its type and the scratch that it needs.
pub fn encoded_len<T: Encode>(value: T) -> (len: usize)
    requires
        T::layout_fits(),
        T::encodable(value.model()),
        wire_len::<T>(value.model()) <= usize::MAX,
    ensures
        len == wire_len::<T>(value.model()),
{
    T::base_len() + value.scratch_len()
}

/// Encodes `v` as a top-level value at the start of `buf` and returns the
/// number of bytes used.
pub fn encode_value<E: Encode>(v: E, buf: &mut [u8]) -> (len: usize)
    requires
        E::layout_fits(),
        E::encodable(v.model()),
        wire_len::<E>(v.model()) <= old(buf)@.len(),
        wire_len::<E>(v.model()) <= u32::MAX,
    ensures
        len == wire_len::<E>(v.model()),
        final(buf)@.len() == old(buf)@.len(),
        final(buf)@.subrange(0, len as int) == wire_bytes::<E>(v.model()),
{
    let ghost before = buf@;
    let mut cursor = EncodeCursor::new::<E>(buf);
    let ghost start = cursor;
    v.encode(&mut cursor);
    let len = cursor.encoded_len();
    proof {
        let m = v.model();
        let base_len = E::spec_base_len();
        E::lemma_region_lens(m, base_len);
        let whole = final(start.base_cursor.buffer)@ + final(start.scratch_cursor.buffer)@;
        assert(whole.subrange(0, len as int) =~= wire_bytes::<E>(m));
    }
    len
}

/// Encodes `v` as a top-level value into a new vector of exactly the
/// length that it takes.
pub fn encode_value_vec<E: Encode>(v: E) -> (buf: Vec<u8>)
    requires
        E::layout_fits(),
        E::encodable(v.model()),
        wire_len::<E>(v.model()) <= u32::MAX,
    ensures
        buf@ == wire_bytes::<E>(v.model()),
{
    let len = E::base_len() + v.scratch_len();
    let mut buf = vec![0u8; len];
    let used = encode_value(v, buf.as_mut_slice());
    proof {
        assert(buf@ =~= wire_bytes::<E>(v.model()));
    }
    buf
}

/// Decodes the top-level value at the start of `buf`.
pub fn decode_value<'a, D: Decode<'a>>(buf: &'a [u8]) -> (result: DecodeResult<D>)
    requires
        D::layout_fits(),
    ensures
        match result {
            Ok(value) => D::parse(buf@, 0) == Some(value.model()),
            Err(_) => D::parse(buf@, 0) is None,
        },
{
    let mut cursor = DecodeCursor::new(buf);
    D::decode(&mut cursor)
}

/// What `encode_value_vec` writes, `decode_value` reads back as the same
/// value.
pub proof fn lemma_decode_encoded<T: Owned>(m: T::Model)
    requires
        T::encodable(m),
        wire_len::<T>(m) <= u32::MAX,
    ensures
        T::parse(wire_bytes::<T>(m), 0) == Some(m),
{
    let at = T::spec_base_len();
    let buffer = wire_bytes::<T>(m);
    T::lemma_region_lens(m, at);
    assert(buffer.subrange(0, at as int) =~= T::base_bytes(m, at));
    assert(buffer.subrange(at as int, at + T::scratch_size(m) as int) =~= T::scratch_bytes(m, at));
    T::lemma_round_trip(m, buffer, 0, at);
}

/// Larger of two lengths.
pub fn max(a: usize, b: usize) -> (m: usize)
    ensures
        m == if a < b { b } else { a },
{
    if a < b {
        b
    } else {
        a
    }
}

/// What `encode_value_vec` writes decodes in the lazy form too, and the
/// lazy value converts to the value that was written.
pub proof fn lemma_lazy_decodes_encoded<T: Owned>(m: T::Model)
    requires
        T::encodable(m),
        wire_len::<T>(m) <= u32::MAX,
    ensures
        <T::Lazy<'static> as Decode<'static>>::parse(wire_bytes::<T>(m), 0) is Some,
        T::owned_of(
            <T::Lazy<'static> as Decode<'static>>::parse(wire_bytes::<T>(m), 0).unwrap(),
        ) == Some(m),
{
    lemma_decode_encoded::<T>(m);
    T::lemma_lazy_agrees(wire_bytes::<T>(m), 0);
}

/// A top-level value takes its base length and the scratch that it needs:
/// its bytes are as many as `encoded_len` says.
pub proof fn lemma_wire_len<T: Encode + ?Sized>(m: T::Model)
    requires
        T::encodable(m),
    ensures
        wire_bytes::<T>(m).len() == wire_len::<T>(m),
{
    T::lemma_region_lens(m, T::spec_base_len());
}

/// A buffer together with the lazy view of the value of `T` that it
/// holds. The view borrows from the buffer and is derived from it on each
/// `get`, so that the pair holds no reference into itself. As no view is
/// stored, none can be exchanged for another: a view of a part is had from
/// the view that `get` returns.
pub struct LazyBuf<T: Owned> {
    buf: Vec<u8>,
    value_ty: core::marker::PhantomData<T>,
}

impl<T: Owned> LazyBuf<T> {
    #[verifier::type_invariant]
    spec fn holds_value(self) -> bool {
        T::layout_fits() && <T::Lazy<'static> as Decode<'static>>::parse(self.buf@, 0) is Some
    }

    /// The bytes of the buffer.
    pub closed spec fn bytes(&self) -> Seq<u8> {
        self.buf@
    }

    /// Takes a buffer that holds a value of `T` in its lazy form.
    pub fn new(buf: Vec<u8>) -> (lazy_buf: Self)
        requires
            T::layout_fits(),
            <T::Lazy<'static> as Decode<'static>>::parse(buf@, 0) is Some,
        ensures
            lazy_buf.bytes() == buf@,
    {
        Self { buf, value_ty: core::marker::PhantomData }
    }

    /// Takes a buffer if it holds a value of `T` in its lazy form.
    pub fn try_new(buf: Vec<u8>) -> (result: DecodeResult<Self>)
        requires
            T::layout_fits(),
        ensures
            match result {
                Ok(lazy_buf) => lazy_buf.bytes() == buf@ && <T::Lazy<'static> as Decode<
                    'static,
                >>::parse(buf@, 0) is Some,
                Err(_) => <T::Lazy<'static> as Decode<'static>>::parse(buf@, 0) is None,
            },
    {
        proof {
            T::lemma_lazy_agrees(buf@, 0);
        }
        let decodes = {
            let lazy: DecodeResult<T::Lazy<'_>> = decode_value(buf.as_slice());
            lazy.is_ok()
        };
        if decodes {
            Ok(Self { buf, value_ty: core::marker::PhantomData })
        } else {
            Err(DecodeError)
        }
    }

    /// The lazy view of the value in the buffer.
    pub fn get<'a>(&'a self) -> (lazy: T::Lazy<'a>)
        ensures
            <T::Lazy<'static> as Decode<'static>>::parse(self.bytes(), 0) == Some(lazy.model()),
    {
        proof {
            use_type_invariant(self);
            T::lemma_lazy_agrees(self.buf@, 0);
        }
        let decoded: DecodeResult<T::Lazy<'a>> = decode_value(self.buf.as_slice());
        match decoded {
            Ok(lazy) => lazy,
            Err(_) => vstd::pervasive::unreached(),
        }
    }

    /// Gives the buffer back.
    pub fn into_inner(self) -> (buf: Vec<u8>)
        ensures
            buf@ == self.bytes(),
    {
        self.buf
    }
}

} // verus!
