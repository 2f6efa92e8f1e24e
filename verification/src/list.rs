//! The codec of lists: the number of items and the offset of the items in
//! the base region; in scratch the base regions of the items one after the
//! other, then the scratch of each item in turn.
//!
//! A list is written from a slice, a vector or a lazy list. It is not
//! written from an iterator: what an iterator says of its length and what
//! it then yields are two things, and the format needs them to agree.
use vstd::prelude::*;

use crate::decode_cursor::{pointer_at};
use crate::le::{
    get_le, le_bytes, le_value, lemma_le_bytes_len, lemma_le_value_bound,
    lemma_le_value_of_bytes, lemma_radix_values, put_le,
};
use crate::{
    holds, lemma_holds_split, BaseLen, Compatible, Decode, DecodeCursor, DecodeError,
    DecodeResult, Encode, EncodeCursor, Lazy, Owned,
};

verus! {

/// What each of `items` stands for.
pub open spec fn models_of<T: BaseLen>(items: Seq<T>) -> Seq<T::Model> {
    Seq::new(items.len(), |i: int| items[i].model())
}

/// The scratch that `items` need between them.
pub open spec fn items_scratch_size<T: Encode>(items: Seq<T::Model>) -> nat
    decreases items.len(),
{
    if items.len() == 0 {
        0
    } else {
        items_scratch_size::<T>(items.drop_last()) + T::scratch_size(items.last())
    }
}

/// The base regions of `items`, one after the other, where the scratch of
/// the first starts at `at` and the scratch of each follows that of the one
/// before.
pub open spec fn items_base<T: Encode>(items: Seq<T::Model>, at: nat) -> Seq<u8>
    decreases items.len(),
{
    if items.len() == 0 {
        Seq::empty()
    } else {
        items_base::<T>(items.drop_last(), at) + T::base_bytes(
            items.last(),
            at + items_scratch_size::<T>(items.drop_last()),
        )
    }
}

/// The scratch regions of `items`, one after the other, the first at `at`.
pub open spec fn items_scratch<T: Encode>(items: Seq<T::Model>, at: nat) -> Seq<u8>
    decreases items.len(),
{
    if items.len() == 0 {
        Seq::empty()
    } else {
        items_scratch::<T>(items.drop_last(), at) + T::scratch_bytes(
            items.last(),
            at + items_scratch_size::<T>(items.drop_last()),
        )
    }
}

/// Whether a 32-bit count can count `items` and each of them can be written.
pub open spec fn list_encodable<T: Encode>(items: Seq<T::Model>) -> bool {
    items.len() <= u32::MAX && forall|i: int| 0 <= i < items.len() ==> T::encodable(items[i])
}

/// The scratch that a list of `items` needs: their base regions and their
/// scratch.
pub open spec fn list_scratch_size<T: Encode>(items: Seq<T::Model>) -> nat {
    items.len() * T::spec_base_len() + items_scratch_size::<T>(items)
}

/// The base region of a list of `items`: their number, then the offset `at`
/// of their base regions.
pub open spec fn list_base_bytes<T: Encode>(items: Seq<T::Model>, at: nat) -> Seq<u8> {
    le_bytes(items.len(), 4) + le_bytes(at, 4)
}

/// The scratch region of a list of `items`, which starts at `at`.
pub open spec fn list_scratch_bytes<T: Encode>(items: Seq<T::Model>, at: nat) -> Seq<u8> {
    items_base::<T>(items, at + items.len() * T::spec_base_len()) + items_scratch::<T>(
        items,
        at + items.len() * T::spec_base_len(),
    )
}

/// The first `count` items whose base regions lie one after the other from
/// `offset` on in `buffer`, if each of them is a value.
pub open spec fn parse_items<'a, T: Decode<'a>>(buffer: Seq<u8>, offset: nat, count: nat) -> Option<
    Seq<T::Model>,
>
    decreases count,
{
    if count == 0 {
        Some(Seq::empty())
    } else {
        match parse_items::<T>(buffer, offset, (count - 1) as nat) {
            Some(front) => match T::parse(
                buffer,
                offset + (count - 1) as nat * T::spec_base_len(),
            ) {
                Some(item) => Some(front.push(item)),
                None => None,
            },
            None => None,
        }
    }
}

/// The list whose base region starts at `offset` in `buffer`: as many items
/// as its count says, from where its offset says.
pub open spec fn parse_list<'a, T: Decode<'a>>(buffer: Seq<u8>, offset: nat) -> Option<
    Seq<T::Model>,
> {
    if offset + 8 > buffer.len() {
        None
    } else {
        parse_items::<T>(
            buffer,
            pointer_at(buffer, offset + 4),
            le_value(buffer.subrange(offset as int, offset + 4 as int)),
        )
    }
}

/// The items that parse are as many as were asked for.
pub proof fn lemma_parse_items_len<'a, T: Decode<'a>>(buffer: Seq<u8>, offset: nat, count: nat)
    ensures
        parse_items::<T>(buffer, offset, count) matches Some(items) ==> items.len() == count,
    decreases count,
{
    if count > 0 {
        lemma_parse_items_len::<T>(buffer, offset, (count - 1) as nat);
    }
}

/// Where fewer items do not parse, more do not either; where more parse,
/// fewer parse to the same items.
pub proof fn lemma_parse_items_prefix<'a, T: Decode<'a>>(
    buffer: Seq<u8>,
    offset: nat,
    fewer: nat,
    more: nat,
)
    requires
        fewer <= more,
    ensures
        parse_items::<T>(buffer, offset, fewer) is None ==> parse_items::<T>(
            buffer,
            offset,
            more,
        ) is None,
        parse_items::<T>(buffer, offset, more) matches Some(items) ==> parse_items::<T>(
            buffer,
            offset,
            fewer,
        ) == Some(items.take(fewer as int)),
    decreases more,
{
    lemma_parse_items_len::<T>(buffer, offset, more);
    if fewer < more {
        lemma_parse_items_prefix::<T>(buffer, offset, fewer, (more - 1) as nat);
        lemma_parse_items_len::<T>(buffer, offset, (more - 1) as nat);
        match parse_items::<T>(buffer, offset, more) {
            Some(items) => {
                let front = parse_items::<T>(buffer, offset, (more - 1) as nat).unwrap();
                assert(items.take(fewer as int) =~= front.take(fewer as int));
            },
            None => {},
        }
    } else {
        match parse_items::<T>(buffer, offset, more) {
            Some(items) => {
                assert(items.take(fewer as int) =~= items);
            },
            None => {},
        }
    }
}

/// The scratch of the first items is part of the scratch of all.
pub proof fn lemma_items_scratch_size_prefix<T: Encode>(items: Seq<T::Model>, k: int)
    requires
        0 <= k <= items.len(),
    ensures
        items_scratch_size::<T>(items.take(k)) <= items_scratch_size::<T>(items),
    decreases items.len(),
{
    if k < items.len() {
        lemma_items_scratch_size_prefix::<T>(items.drop_last(), k);
        assert(items.drop_last().take(k) =~= items.take(k));
    } else {
        assert(items.take(k) =~= items);
    }
}

/// The regions of the items are as long as their types and values say.
pub proof fn lemma_items_lens<T: Encode>(items: Seq<T::Model>, at: nat)
    requires
        forall|i: int| 0 <= i < items.len() ==> T::encodable(items[i]),
    ensures
        items_base::<T>(items, at).len() == items.len() * T::spec_base_len(),
        items_scratch::<T>(items, at).len() == items_scratch_size::<T>(items),
    decreases items.len(),
{
    if items.len() > 0 {
        let front = items.drop_last();
        lemma_items_lens::<T>(front, at);
        T::lemma_region_lens(items.last(), at + items_scratch_size::<T>(front));
        assert(items.len() * T::spec_base_len() == front.len() * T::spec_base_len()
            + T::spec_base_len()) by (nonlinear_arith)
            requires
                items.len() == front.len() + 1,
        ;
    } else {
        assert(items.len() * T::spec_base_len() == 0) by (nonlinear_arith)
            requires
                items.len() == 0,
        ;
    }
}

/// The regions of the first items are the start of the regions of all.
pub proof fn lemma_items_prefix<T: Encode>(items: Seq<T::Model>, at: nat, k: int)
    requires
        0 <= k <= items.len(),
    ensures
        items_base::<T>(items.take(k), at).len() <= items_base::<T>(items, at).len(),
        items_base::<T>(items, at).subrange(0, items_base::<T>(items.take(k), at).len() as int)
            == items_base::<T>(items.take(k), at),
        items_scratch::<T>(items.take(k), at).len() <= items_scratch::<T>(items, at).len(),
        items_scratch::<T>(items, at).subrange(
            0,
            items_scratch::<T>(items.take(k), at).len() as int,
        ) == items_scratch::<T>(items.take(k), at),
    decreases items.len(),
{
    if k < items.len() {
        let front = items.drop_last();
        lemma_items_prefix::<T>(front, at, k);
        assert(front.take(k) =~= items.take(k));
        let part = items_base::<T>(items.take(k), at);
        assert(items_base::<T>(items, at).subrange(0, part.len() as int) =~= items_base::<T>(
            front,
            at,
        ).subrange(0, part.len() as int));
        let spart = items_scratch::<T>(items.take(k), at);
        assert(items_scratch::<T>(items, at).subrange(0, spart.len() as int)
            =~= items_scratch::<T>(front, at).subrange(0, spart.len() as int));
    } else {
        assert(items.take(k) =~= items);
        let whole = items_base::<T>(items, at);
        assert(whole.subrange(0, whole.len() as int) =~= whole);
        let swhole = items_scratch::<T>(items, at);
        assert(swhole.subrange(0, swhole.len() as int) =~= swhole);
    }
}

/// A buffer that holds a run of bytes holds each start of the run.
pub proof fn lemma_holds_prefix(buffer: Seq<u8>, offset: nat, whole: Seq<u8>, n: nat)
    requires
        holds(buffer, offset, whole),
        n <= whole.len(),
    ensures
        holds(buffer, offset, whole.subrange(0, n as int)),
{
    assert(whole =~= whole.subrange(0, n as int) + whole.subrange(n as int, whole.len() as int));
    lemma_holds_split(
        buffer,
        offset,
        whole.subrange(0, n as int),
        whole.subrange(n as int, whole.len() as int),
    );
}

/// A buffer that holds the regions of an encodable list decodes to it.
pub proof fn lemma_list_round_trip<T: Owned>(
    items: Seq<T::Model>,
    buffer: Seq<u8>,
    offset: nat,
    at: nat,
)
    requires
        list_encodable::<T>(items),
        holds(buffer, offset, list_base_bytes::<T>(items, at)),
        holds(buffer, at, list_scratch_bytes::<T>(items, at)),
        at + list_scratch_size::<T>(items) <= u32::MAX,
    ensures
        parse_list::<T>(buffer, offset) == Some(items),
{
    let n = items.len();
    let inner = at + n * T::spec_base_len();
    lemma_radix_values();
    lemma_le_bytes_len(n, 4);
    lemma_le_bytes_len(at, 4);
    lemma_holds_split(buffer, offset, le_bytes(n, 4), le_bytes(at, 4));
    lemma_le_value_of_bytes(n, 4);
    lemma_le_value_of_bytes(at, 4);
    lemma_items_lens::<T>(items, inner);
    lemma_holds_split(
        buffer,
        at,
        items_base::<T>(items, inner),
        items_scratch::<T>(items, inner),
    );
    lemma_items_round_trip::<T>(items, buffer, at, inner, n as int);
    assert(items.take(n as int) =~= items);
}

/// A buffer that holds the base regions of `items` at `offset` and their
/// scratch at `at` decodes, item by item, to the first `k` of them.
pub proof fn lemma_items_round_trip<T: Owned>(
    items: Seq<T::Model>,
    buffer: Seq<u8>,
    offset: nat,
    at: nat,
    k: int,
)
    requires
        0 <= k <= items.len(),
        forall|i: int| 0 <= i < items.len() ==> T::encodable(items[i]),
        holds(buffer, offset, items_base::<T>(items, at)),
        holds(buffer, at, items_scratch::<T>(items, at)),
        at + items_scratch_size::<T>(items) <= u32::MAX,
    ensures
        parse_items::<T>(buffer, offset, k as nat) == Some(items.take(k)),
    decreases k,
{
    if k > 0 {
        lemma_items_round_trip::<T>(items, buffer, offset, at, k - 1);
        let upto = items.take(k);
        let front = items.take(k - 1);
        let item = items[k - 1];
        assert(upto.drop_last() =~= front);
        assert(upto.last() == item);
        let item_at = at + items_scratch_size::<T>(front);
        lemma_items_prefix::<T>(items, at, k);
        lemma_items_scratch_size_prefix::<T>(items, k);
        lemma_items_lens::<T>(front, at);
        lemma_items_lens::<T>(upto, at);
        lemma_items_lens::<T>(items, at);
        lemma_holds_prefix(
            buffer,
            offset,
            items_base::<T>(items, at),
            items_base::<T>(upto, at).len(),
        );
        lemma_holds_prefix(
            buffer,
            at,
            items_scratch::<T>(items, at),
            items_scratch::<T>(upto, at).len(),
        );
        lemma_holds_split(
            buffer,
            offset,
            items_base::<T>(front, at),
            T::base_bytes(item, item_at),
        );
        lemma_holds_split(
            buffer,
            at,
            items_scratch::<T>(front, at),
            T::scratch_bytes(item, item_at),
        );
        T::lemma_round_trip(item, buffer, offset + (k - 1) as nat * T::spec_base_len(), item_at);
        assert(front.push(item) =~= upto);
    } else {
        assert(items.take(0) =~= Seq::<T::Model>::empty());
    }
}

/// The number of scratch bytes that a list of `items` needs.
fn list_scratch_len<T: Encode>(items: &[T]) -> (len: usize)
    requires
        T::layout_fits(),
        list_encodable::<T>(models_of(items@)),
        list_scratch_size::<T>(models_of(items@)) <= usize::MAX,
    ensures
        len == list_scratch_size::<T>(models_of(items@)),
{
    let ghost models = models_of(items@);
    let n = items.len();
    proof {
        T::lemma_layout_fits();
        assert(models.take(0) =~= Seq::<T::Model>::empty());
    }
    let mut sum: usize = 0;
    let mut i: usize = 0;
    while i < n
        invariant
            i <= n,
            n == items@.len(),
            models == models_of(items@),
            T::layout_fits(),
            list_encodable::<T>(models),
            list_scratch_size::<T>(models) <= usize::MAX,
            sum == items_scratch_size::<T>(models.take(i as int)),
        decreases n - i,
    {
        proof {
            assert(models.take(i + 1).drop_last() =~= models.take(i as int));
            assert(models.take(i + 1).last() == items@[i as int].model());
            lemma_items_scratch_size_prefix::<T>(models, i + 1);
        }
        sum = sum + items[i].scratch_len();
        i = i + 1;
    }
    proof {
        assert(models.take(n as int) =~= models);
        assert(n * T::spec_base_len() >= 0) by (nonlinear_arith);
    }
    n * T::base_len() + sum
}

/// Writes a list of `items` at the cursor.
fn encode_list<T: Encode>(items: &[T], cursor: &mut EncodeCursor)
    requires
        T::layout_fits(),
        list_encodable::<T>(models_of(items@)),
        8 <= old(cursor).base_room(),
        list_scratch_size::<T>(models_of(items@)) <= old(cursor).scratch_room(),
        old(cursor).scratch_offset + list_scratch_size::<T>(models_of(items@)) <= u32::MAX,
    ensures
        final(cursor).scratch_offset == old(cursor).scratch_offset + list_scratch_size::<T>(
            models_of(items@),
        ),
        final(cursor).base_room() == old(cursor).base_room() - 8,
        final(cursor).scratch_room() == old(cursor).scratch_room() - list_scratch_size::<T>(
            models_of(items@),
        ),
        final(old(cursor).base_cursor.buffer)@ == list_base_bytes::<T>(
            models_of(items@),
            old(cursor).scratch_offset as nat,
        ) + final(final(cursor).base_cursor.buffer)@,
        final(old(cursor).scratch_cursor.buffer)@ == list_scratch_bytes::<T>(
            models_of(items@),
            old(cursor).scratch_offset as nat,
        ) + final(final(cursor).scratch_cursor.buffer)@,
{
    let ghost models = models_of(items@);
    let ghost at = cursor.scratch_offset as nat;
    let n = items.len();
    proof {
        T::lemma_layout_fits();
        assert(cursor.scratch_cursor.buffer.len() == cursor.scratch_room());
        assert(n * T::spec_base_len() >= 0) by (nonlinear_arith);
    }
    let slot = cursor.base(4);
    put_le(slot, n as u128);
    let mut inner = cursor.inner_in_scratch(n * T::base_len());
    let ghost entered = inner;
    let ghost inner_at = inner.scratch_offset as nat;
    proof {
        assert(models.take(0) =~= Seq::<T::Model>::empty());
        assert(final(entered.base_cursor.buffer)@ =~= items_base::<T>(models.take(0), inner_at)
            + final(inner.base_cursor.buffer)@);
        assert(final(entered.scratch_cursor.buffer)@ =~= items_scratch::<T>(
            models.take(0),
            inner_at,
        ) + final(inner.scratch_cursor.buffer)@);
    }
    let mut i: usize = 0;
    while i < n
        invariant
            i <= n,
            n == items@.len(),
            models == models_of(items@),
            T::layout_fits(),
            list_encodable::<T>(models),
            inner_at + items_scratch_size::<T>(models) <= u32::MAX,
            inner.base_room() == (n - i) * T::spec_base_len(),
            inner.scratch_room() + items_scratch_size::<T>(models.take(i as int))
                == entered.scratch_room(),
            items_scratch_size::<T>(models) <= entered.scratch_room(),
            inner.scratch_offset == inner_at + items_scratch_size::<T>(models.take(i as int)),
            final(entered.base_cursor.buffer)@ == items_base::<T>(models.take(i as int), inner_at)
                + final(inner.base_cursor.buffer)@,
            final(entered.scratch_cursor.buffer)@ == items_scratch::<T>(
                models.take(i as int),
                inner_at,
            ) + final(inner.scratch_cursor.buffer)@,
        decreases n - i,
    {
        proof {
            assert(models.take(i + 1).drop_last() =~= models.take(i as int));
            assert(models.take(i + 1).last() == items@[i as int].model());
            lemma_items_scratch_size_prefix::<T>(models, i + 1);
            assert((n - i) * T::spec_base_len() == (n - (i + 1)) * T::spec_base_len()
                + T::spec_base_len()) by (nonlinear_arith);
            assert((n - (i + 1)) * T::spec_base_len() >= 0) by (nonlinear_arith)
                requires
                    i < n,
            ;
        }
        let ghost before = inner;
        items[i].encode(&mut inner);
        proof {
            let done = models.take(i as int);
            let item = items@[i as int].model();
            let item_at = inner_at + items_scratch_size::<T>(done);
            assert(final(entered.base_cursor.buffer)@ =~= (items_base::<T>(done, inner_at)
                + T::base_bytes(item, item_at)) + final(inner.base_cursor.buffer)@);
            assert(final(entered.scratch_cursor.buffer)@ =~= (items_scratch::<T>(done, inner_at)
                + T::scratch_bytes(item, item_at)) + final(inner.scratch_cursor.buffer)@);
        }
        i = i + 1;
    }
    proof {
        assert(models.take(n as int) =~= models);
        assert((n - n) * T::spec_base_len() == 0) by (nonlinear_arith);
    }
    cursor.leave_scratch(inner);
    proof {
        assert(final(old(cursor).base_cursor.buffer)@ =~= list_base_bytes::<T>(models, at)
            + final(cursor.base_cursor.buffer)@);
        assert(final(entered.base_cursor.buffer)@ =~= items_base::<T>(models, inner_at));
        assert(final(old(cursor).scratch_cursor.buffer)@ =~= list_scratch_bytes::<T>(models, at)
            + final(cursor.scratch_cursor.buffer)@);
    }
}

impl<T: BaseLen> BaseLen for [T] {
    type Model = Seq<T::Model>;

    open spec fn spec_base_len() -> nat {
        8
    }

    open spec fn layout_fits() -> bool {
        T::layout_fits()
    }

    open spec fn model(&self) -> Seq<T::Model> {
        models_of(self@)
    }

    proof fn lemma_layout_fits() {
    }

    fn base_len() -> (len: usize) {
        4 + 4
    }
}

impl<T: Encode> Encode for [T] {
    open spec fn encodable(m: Seq<T::Model>) -> bool {
        list_encodable::<T>(m)
    }

    open spec fn scratch_size(m: Seq<T::Model>) -> nat {
        list_scratch_size::<T>(m)
    }

    open spec fn base_bytes(m: Seq<T::Model>, at: nat) -> Seq<u8> {
        list_base_bytes::<T>(m, at)
    }

    open spec fn scratch_bytes(m: Seq<T::Model>, at: nat) -> Seq<u8> {
        list_scratch_bytes::<T>(m, at)
    }

    proof fn lemma_region_lens(m: Seq<T::Model>, at: nat) {
        lemma_le_bytes_len(m.len(), 4);
        lemma_le_bytes_len(at, 4);
        lemma_items_lens::<T>(m, at + m.len() * T::spec_base_len());
    }

    fn scratch_len(&self) -> (len: usize) {
        list_scratch_len(self)
    }

    fn encode(&self, cursor: &mut EncodeCursor) {
        encode_list(self, cursor)
    }
}

impl<T: BaseLen> BaseLen for Vec<T> {
    type Model = Seq<T::Model>;

    open spec fn spec_base_len() -> nat {
        8
    }

    open spec fn layout_fits() -> bool {
        T::layout_fits()
    }

    open spec fn model(&self) -> Seq<T::Model> {
        models_of(self@)
    }

    proof fn lemma_layout_fits() {
    }

    fn base_len() -> (len: usize) {
        4 + 4
    }
}

impl<T: Encode> Encode for Vec<T> {
    open spec fn encodable(m: Seq<T::Model>) -> bool {
        list_encodable::<T>(m)
    }

    open spec fn scratch_size(m: Seq<T::Model>) -> nat {
        list_scratch_size::<T>(m)
    }

    open spec fn base_bytes(m: Seq<T::Model>, at: nat) -> Seq<u8> {
        list_base_bytes::<T>(m, at)
    }

    open spec fn scratch_bytes(m: Seq<T::Model>, at: nat) -> Seq<u8> {
        list_scratch_bytes::<T>(m, at)
    }

    proof fn lemma_region_lens(m: Seq<T::Model>, at: nat) {
        lemma_le_bytes_len(m.len(), 4);
        lemma_le_bytes_len(at, 4);
        lemma_items_lens::<T>(m, at + m.len() * T::spec_base_len());
    }

    fn scratch_len(&self) -> (len: usize) {
        list_scratch_len(self.as_slice())
    }

    fn encode(&self, cursor: &mut EncodeCursor) {
        encode_list(self.as_slice(), cursor)
    }
}

impl<'a, T: Decode<'a>> Decode<'a> for Vec<T> {
    open spec fn parse(buffer: Seq<u8>, offset: nat) -> Option<Seq<T::Model>> {
        parse_list::<T>(buffer, offset)
    }

    proof fn lemma_parse_in_bounds(buffer: Seq<u8>, offset: nat) {
    }

    fn decode(cursor: &mut DecodeCursor<'a>) -> (result: DecodeResult<Self>) {
        let ghost buffer = cursor.bytes();
        let slot = cursor.base(4)?;
        proof {
            lemma_le_value_bound(slot@);
            lemma_radix_values();
        }
        let len = get_le(slot) as usize;
        let mut inner = cursor.inner_in_scratch()?;
        let ghost start = inner.position();
        let mut vec: Vec<T> = Vec::new();
        let mut i: usize = 0;
        proof {
            assert(models_of(vec@) =~= Seq::<T::Model>::empty());
            assert(0 * T::spec_base_len() == 0) by (nonlinear_arith);
        }
        while i < len
            invariant
                i <= len,
                T::layout_fits(),
                cursor.bytes() == buffer,
                buffer == old(cursor).bytes(),
                old(cursor).position() + 8 <= buffer.len(),
                cursor.position() == old(cursor).position() + 8,
                start == pointer_at(buffer, old(cursor).position() + 4),
                len == le_value(
                    buffer.subrange(
                        old(cursor).position() as int,
                        old(cursor).position() + 4 as int,
                    ),
                ),
                inner.bytes() == buffer,
                inner.position() == start + i * T::spec_base_len(),
                parse_items::<T>(buffer, start, i as nat) == Some(models_of(vec@)),
            decreases len - i,
        {
            let ghost before = models_of(vec@);
            proof {
                lemma_parse_items_prefix::<T>(buffer, start, (i + 1) as nat, len as nat);
            }
            let item = T::decode(&mut inner)?;
            vec.push(item);
            proof {
                assert(models_of(vec@) =~= before.push(item.model()));
                assert((i + 1) * T::spec_base_len() == i * T::spec_base_len()
                    + T::spec_base_len()) by (nonlinear_arith);
            }
            i = i + 1;
        }
        Ok(vec)
    }
}

/// The bytes that the list at `offset` in `buffer` names by its count and
/// its offset, if they lie in the buffer.
pub open spec fn parse_bytes(buffer: Seq<u8>, offset: nat) -> Option<Seq<u8>> {
    if offset + 8 > buffer.len() {
        None
    } else {
        let len = le_value(buffer.subrange(offset as int, offset + 4 as int));
        let at = pointer_at(buffer, offset + 4);
        if at + len > buffer.len() {
            None
        } else {
            Some(buffer.subrange(at as int, at + len as int))
        }
    }
}

impl<'a> Decode<'a> for &'a [u8] {
    /// A list of bytes is read in place, as one run of the buffer.
    open spec fn parse(buffer: Seq<u8>, offset: nat) -> Option<Seq<u8>> {
        parse_bytes(buffer, offset)
    }

    proof fn lemma_parse_in_bounds(buffer: Seq<u8>, offset: nat) {
    }

    fn decode(cursor: &mut DecodeCursor<'a>) -> (result: DecodeResult<Self>) {
        let slot = cursor.base(4)?;
        proof {
            lemma_le_value_bound(slot@);
            lemma_radix_values();
        }
        let len = get_le(slot) as usize;
        let bytes = cursor.scratch(len)?;
        proof {
            assert(models_of(bytes@) =~= bytes@);
        }
        Ok(bytes)
    }
}

impl<T: Encode, U: Compatible<T>> Compatible<Vec<T>> for Vec<U> {
    open spec fn counterpart(m: Seq<U::Model>) -> Seq<T::Model> {
        counterparts::<T, U>(m)
    }

    proof fn lemma_same_base_len() {
    }

    proof fn lemma_same_bytes(m: Seq<U::Model>, at: nat) {
        lemma_items_fit::<U>(m);
        lemma_counterparts_same_bytes::<T, U>(m, at + m.len() * U::spec_base_len());
        U::lemma_same_base_len();
    }
}

impl<T: Encode, U: Compatible<T>> Compatible<Vec<T>> for [U] {
    open spec fn counterpart(m: Seq<U::Model>) -> Seq<T::Model> {
        counterparts::<T, U>(m)
    }

    proof fn lemma_same_base_len() {
    }

    proof fn lemma_same_bytes(m: Seq<U::Model>, at: nat) {
        lemma_items_fit::<U>(m);
        lemma_counterparts_same_bytes::<T, U>(m, at + m.len() * U::spec_base_len());
        U::lemma_same_base_len();
    }
}

impl<T: Encode, U: Compatible<T>> Compatible<[T]> for Vec<U> {
    open spec fn counterpart(m: Seq<U::Model>) -> Seq<T::Model> {
        counterparts::<T, U>(m)
    }

    proof fn lemma_same_base_len() {
    }

    proof fn lemma_same_bytes(m: Seq<U::Model>, at: nat) {
        lemma_items_fit::<U>(m);
        lemma_counterparts_same_bytes::<T, U>(m, at + m.len() * U::spec_base_len());
        U::lemma_same_base_len();
    }
}

/// The value of `T` that each of `m` corresponds to.
pub open spec fn counterparts<T: Encode, U: Compatible<T>>(m: Seq<U::Model>) -> Seq<T::Model> {
    Seq::new(m.len(), |i: int| U::counterpart(m[i]))
}

/// One item needs no more scratch than all together.
pub proof fn lemma_item_scratch_within<T: Encode>(items: Seq<T::Model>, i: int)
    requires
        0 <= i < items.len(),
    ensures
        T::scratch_size(items[i]) <= items_scratch_size::<T>(items),
    decreases items.len(),
{
    if i < items.len() - 1 {
        lemma_item_scratch_within::<T>(items.drop_last(), i);
    }
}

/// Each item of a list that fits a message fits one.
pub proof fn lemma_items_fit<T: Encode>(items: Seq<T::Model>)
    requires
        8 + list_scratch_size::<T>(items) <= u32::MAX,
    ensures
        forall|i: int|
            0 <= i < items.len() ==> T::spec_base_len() + T::scratch_size(#[trigger] items[i])
                <= u32::MAX,
{
    assert forall|i: int| 0 <= i < items.len() implies T::spec_base_len() + T::scratch_size(
        #[trigger] items[i],
    ) <= u32::MAX by {
        lemma_item_scratch_within::<T>(items, i);
        assert(items.len() * T::spec_base_len() >= T::spec_base_len()) by (nonlinear_arith)
            requires
                items.len() >= 1,
        ;
    }
}

/// Items of compatible types have the same regions one by one, and so
/// together.
pub proof fn lemma_counterparts_same_bytes<T: Encode, U: Compatible<T>>(m: Seq<U::Model>, at: nat)
    requires
        forall|i: int| 0 <= i < m.len() ==> U::encodable(m[i]),
        forall|i: int|
            0 <= i < m.len() ==> U::spec_base_len() + U::scratch_size(#[trigger] m[i])
                <= u32::MAX,
    ensures
        forall|i: int| 0 <= i < m.len() ==> T::encodable(#[trigger] counterparts::<T, U>(m)[i]),
        items_scratch_size::<T>(counterparts::<T, U>(m)) == items_scratch_size::<U>(m),
        items_base::<T>(counterparts::<T, U>(m), at) == items_base::<U>(m, at),
        items_scratch::<T>(counterparts::<T, U>(m), at) == items_scratch::<U>(m, at),
    decreases m.len(),
{
    let c = counterparts::<T, U>(m);
    assert forall|i: int| 0 <= i < m.len() implies T::encodable(#[trigger] c[i]) by {
        U::lemma_same_bytes(m[i], 0);
    }
    if m.len() > 0 {
        let front = m.drop_last();
        lemma_counterparts_same_bytes::<T, U>(front, at);
        let cfront = counterparts::<T, U>(front);
        assert(c.drop_last() =~= cfront);
        U::lemma_same_bytes(m.last(), at + items_scratch_size::<U>(front));
    }
}

/// Each of the items that parse together parses alone at its place.
pub proof fn lemma_parse_items_at<'a, T: Decode<'a>>(
    buffer: Seq<u8>,
    offset: nat,
    count: nat,
    i: int,
)
    requires
        0 <= i < count,
        parse_items::<T>(buffer, offset, count) is Some,
    ensures
        parse_items::<T>(buffer, offset, count).unwrap().len() == count,
        T::parse(buffer, offset + i as nat * T::spec_base_len()) == Some(
            parse_items::<T>(buffer, offset, count).unwrap()[i],
        ),
    decreases count,
{
    lemma_parse_items_len::<T>(buffer, offset, count);
    lemma_parse_items_len::<T>(buffer, offset, (count - 1) as nat);
    if i < count - 1 {
        lemma_parse_items_at::<T>(buffer, offset, (count - 1) as nat, i);
    }
}

/// A list that is still in its buffer: the buffer, and the offset of the
/// base region of the list.
pub struct ListLazy<'a, T> {
    buffer: &'a [u8],
    offset: usize,
    item_ty: core::marker::PhantomData<T>,
}

/// The number of items that the list at `offset` in `buffer` says it has.
pub open spec fn count_at(buffer: Seq<u8>, offset: nat) -> nat {
    le_value(buffer.subrange(offset as int, offset + 4 as int))
}

/// The item at `index` of the lazy list `lazy`, in its lazy form: what
/// lies at the place of the item, if the list has that many items.
pub open spec fn lazy_item<T: Owned>(lazy: (Seq<u8>, nat), index: nat) -> Option<
    <T::Lazy<'static> as BaseLen>::Model,
> {
    if index < count_at(lazy.0, lazy.1) {
        <T::Lazy<'static> as Decode<'static>>::parse(
            lazy.0,
            pointer_at(lazy.0, lazy.1 + 4) + index * T::spec_base_len(),
        )
    } else {
        None
    }
}

/// The list that the lazy list `lazy` stands for.
pub open spec fn list_in<T: Owned>(lazy: (Seq<u8>, nat)) -> Option<Seq<T::Model>> {
    parse_list::<T>(lazy.0, lazy.1)
}

/// Where a lazy list stands for a list, each of its items decodes in its
/// lazy form and converts to the item of the list at that place.
pub proof fn lemma_lazy_items<T: Owned>(lazy: (Seq<u8>, nat), index: nat)
    requires
        list_in::<T>(lazy) is Some,
        index < list_in::<T>(lazy).unwrap().len(),
    ensures
        index < count_at(lazy.0, lazy.1),
        lazy_item::<T>(lazy, index) is Some,
        T::owned_of(lazy_item::<T>(lazy, index).unwrap()) == Some(
            list_in::<T>(lazy).unwrap()[index as int],
        ),
{
    let start = pointer_at(lazy.0, lazy.1 + 4);
    let count = count_at(lazy.0, lazy.1);
    lemma_parse_items_len::<T>(lazy.0, start, count);
    lemma_parse_items_at::<T>(lazy.0, start, count, index as int);
    T::lemma_lazy_agrees(lazy.0, start + index * T::spec_base_len());
}

impl<'a, T> ListLazy<'a, T> {
    #[verifier::type_invariant]
    spec fn in_buffer(self) -> bool {
        self.offset + 8 <= self.buffer@.len()
    }
}

impl<'a, T: Owned> ListLazy<'a, T> {
    /// The buffer that the list lies in.
    pub closed spec fn bytes(&self) -> Seq<u8> {
        self.buffer@
    }

    /// The offset in the buffer of the base region of the list.
    pub closed spec fn position(&self) -> nat {
        self.offset as nat
    }

    /// The number of items.
    pub fn len(&self) -> (len: usize)
        ensures
            self.position() + 8 <= self.bytes().len(),
            len == count_at(self.bytes(), self.position()),
    {
        proof {
            use_type_invariant(self);
            assert(self.buffer.len() == self.buffer@.len());
        }
        let slot = vstd::slice::slice_subrange(self.buffer, self.offset, self.offset + 4);
        proof {
            lemma_le_value_bound(slot@);
            lemma_radix_values();
        }
        get_le(slot) as usize
    }

    /// Decodes the item at `index`, in its lazy form. Fails where the list
    /// has no such item, and where what lies at its place is no value.
    pub fn get(&self, index: usize) -> (result: DecodeResult<T::Lazy<'a>>)
        requires
            T::layout_fits(),
        ensures
            match result {
                Ok(value) => lazy_item::<T>((self.bytes(), self.position()), index as nat) == Some(
                    value.model(),
                ),
                Err(_) => lazy_item::<T>((self.bytes(), self.position()), index as nat) is None,
            },
    {
        proof {
            use_type_invariant(self);
            assert(self.buffer.len() == self.buffer@.len());
            T::lemma_layout_fits();
        }
        if index >= self.len() {
            return Err(DecodeError);
        }
        let slot = vstd::slice::slice_subrange(self.buffer, self.offset + 4, self.offset + 8);
        proof {
            lemma_le_value_bound(slot@);
            lemma_radix_values();
        }
        let list_scratch_offset = get_le(slot) as usize;
        let base_len = T::base_len();
        let ghost place = list_scratch_offset + index * base_len;
        proof {
            T::lemma_lazy_agrees(self.bytes(), place as nat);
            assert(index * base_len >= 0) by (nonlinear_arith);
            if <T::Lazy<'static> as Decode<'static>>::parse(self.bytes(), place as nat) is Some {
                <T::Lazy<'static> as Decode<'static>>::lemma_parse_in_bounds(
                    self.bytes(),
                    place as nat,
                );
            }
            assert(self.buffer.len() == self.bytes().len());
        }
        if base_len != 0 && index > (usize::MAX - list_scratch_offset) / base_len {
            proof {
                assert(index * base_len > usize::MAX - list_scratch_offset) by (nonlinear_arith)
                    requires
                        base_len > 0,
                        index > (usize::MAX - list_scratch_offset) / (base_len as int),
                ;
            }
            return Err(DecodeError);
        }
        proof {
            assert(index * base_len <= usize::MAX - list_scratch_offset) by (nonlinear_arith)
                requires
                    base_len == 0 || index <= (usize::MAX - list_scratch_offset) / (
                    base_len as int),
                    index >= 0,
                    base_len >= 0,
                    usize::MAX - list_scratch_offset >= 0,
            ;
        }
        let mut cursor = DecodeCursor::at_offset(
            self.buffer,
            list_scratch_offset + index * base_len,
        );
        <T::Lazy<'a> as Decode<'a>>::decode(&mut cursor)
    }

    /// An iterator over the items, from the first on.
    pub fn iter<'s>(&'s self) -> (iter: ListLazyIter<'s, 'a, T>)
        ensures
            iter.list_lazy == self,
            iter.len == count_at(self.bytes(), self.position()),
            iter.cursor == 0,
    {
        let len = self.len();
        ListLazyIter { list_lazy: self, len, cursor: 0 }
    }

    /// Decodes the whole list into a vector of `U`.
    pub fn to_vec<U: Decode<'a>>(&self) -> (result: DecodeResult<Vec<U>>)
        requires
            U::layout_fits(),
        ensures
            match result {
                Ok(items) => parse_list::<U>(self.bytes(), self.position()) == Some(
                    models_of(items@),
                ),
                Err(_) => parse_list::<U>(self.bytes(), self.position()) is None,
            },
    {
        let mut cursor = DecodeCursor::at_offset(self.buffer, self.offset);
        <Vec<U> as Decode<'a>>::decode(&mut cursor)
    }
}

impl<'a> ListLazy<'a, u8> {
    /// The bytes of a list of bytes, in place.
    pub fn as_slice(&self) -> (result: DecodeResult<&'a [u8]>)
        ensures
            match result {
                Ok(bytes) => parse_bytes(self.bytes(), self.position()) == Some(bytes@),
                Err(_) => parse_bytes(self.bytes(), self.position()) is None,
            },
    {
        let mut cursor = DecodeCursor::at_offset(self.buffer, self.offset);
        let bytes = <&'a [u8] as Decode<'a>>::decode(&mut cursor)?;
        proof {
            assert(models_of(bytes@) =~= bytes@);
        }
        Ok(bytes)
    }
}

/// Where an iterator over a lazy list stands.
pub struct ListLazyIter<'s, 'a, T> {
    pub list_lazy: &'s ListLazy<'a, T>,
    pub len: usize,
    pub cursor: usize,
}

impl<'s, 'a, T: Owned> ListLazyIter<'s, 'a, T> {
    /// The next item, decoded in its lazy form, if there is one left.
    pub fn next(&mut self) -> (item: Option<DecodeResult<T::Lazy<'a>>>)
        requires
            T::layout_fits(),
        ensures
            final(self).list_lazy == old(self).list_lazy,
            final(self).len == old(self).len,
            match item {
                Some(result) => old(self).cursor < old(self).len && final(self).cursor == old(
                    self,
                ).cursor + 1 && match result {
                    Ok(value) => lazy_item::<T>(
                        (old(self).list_lazy.bytes(), old(self).list_lazy.position()),
                        old(self).cursor as nat,
                    ) == Some(value.model()),
                    Err(_) => lazy_item::<T>(
                        (old(self).list_lazy.bytes(), old(self).list_lazy.position()),
                        old(self).cursor as nat,
                    ) is None,
                },
                None => old(self).cursor >= old(self).len && final(self).cursor == old(
                    self,
                ).cursor,
            },
    {
        let i = self.cursor;
        if i < self.len {
            self.cursor = i + 1;
            Some(self.list_lazy.get(i))
        } else {
            None
        }
    }
}

impl<T: Owned> Copy for ListLazy<'_, T> {

}

impl<T: Owned> Clone for ListLazy<'_, T> {
    fn clone(&self) -> (copy: Self)
        ensures
            copy == *self,
    {
        proof {
            use_type_invariant(self);
        }
        Self { buffer: self.buffer, offset: self.offset, item_ty: core::marker::PhantomData }
    }
}

impl<'a, T: Owned> BaseLen for ListLazy<'a, T> {
    type Model = (Seq<u8>, nat);

    open spec fn spec_base_len() -> nat {
        8
    }

    open spec fn layout_fits() -> bool {
        T::layout_fits()
    }

    open spec fn model(&self) -> (Seq<u8>, nat) {
        (self.bytes(), self.position())
    }

    proof fn lemma_layout_fits() {
    }

    fn base_len() -> (len: usize) {
        4 + 4
    }
}

impl<'a, T: Owned> Decode<'a> for ListLazy<'a, T> {
    /// A lazy list is where it lies; its count and offset must be in the
    /// buffer.
    open spec fn parse(buffer: Seq<u8>, offset: nat) -> Option<(Seq<u8>, nat)> {
        if offset + 8 <= buffer.len() {
            Some((buffer, offset))
        } else {
            None
        }
    }

    proof fn lemma_parse_in_bounds(buffer: Seq<u8>, offset: nat) {
    }

    fn decode(cursor: &mut DecodeCursor<'a>) -> (result: DecodeResult<Self>) {
        let offset = cursor.offset();
        cursor.base(8)?;
        Ok(ListLazy { buffer: cursor.buffer(), offset, item_ty: core::marker::PhantomData })
    }
}

impl<'a, T: Owned> Encode for ListLazy<'a, T> {
    /// A lazy list can be written where the list that it stands for decodes
    /// and can be written.
    open spec fn encodable(m: (Seq<u8>, nat)) -> bool {
        list_in::<T>(m) is Some && list_encodable::<T>(list_in::<T>(m).unwrap())
    }

    open spec fn scratch_size(m: (Seq<u8>, nat)) -> nat {
        list_scratch_size::<T>(list_in::<T>(m).unwrap())
    }

    open spec fn base_bytes(m: (Seq<u8>, nat), at: nat) -> Seq<u8> {
        list_base_bytes::<T>(list_in::<T>(m).unwrap(), at)
    }

    open spec fn scratch_bytes(m: (Seq<u8>, nat), at: nat) -> Seq<u8> {
        list_scratch_bytes::<T>(list_in::<T>(m).unwrap(), at)
    }

    proof fn lemma_region_lens(m: (Seq<u8>, nat), at: nat) {
        let items = list_in::<T>(m).unwrap();
        lemma_le_bytes_len(items.len(), 4);
        lemma_le_bytes_len(at, 4);
        lemma_items_lens::<T>(items, at + items.len() * T::spec_base_len());
    }

    fn scratch_len(&self) -> (len: usize) {
        let ghost lazy = self.model();
        let ghost models = list_in::<T>(lazy).unwrap();
        let n = self.len();
        proof {
            T::lemma_layout_fits();
            lemma_parse_items_len::<T>(lazy.0, pointer_at(lazy.0, lazy.1 + 4), n as nat);
            assert(models.take(0) =~= Seq::<T::Model>::empty());
        }
        let mut sum: usize = 0;
        let mut i: usize = 0;
        while i < n
            invariant
                i <= n,
                lazy == self.model(),
                list_in::<T>(lazy) == Some(models),
                n == models.len(),
                T::layout_fits(),
                list_encodable::<T>(models),
                list_scratch_size::<T>(models) <= usize::MAX,
                sum == items_scratch_size::<T>(models.take(i as int)),
            decreases n - i,
        {
            proof {
                assert(models.take(i + 1).drop_last() =~= models.take(i as int));
                assert(models.take(i + 1).last() == models[i as int]);
                lemma_items_scratch_size_prefix::<T>(models, i + 1);
                lemma_lazy_items::<T>(lazy, i as nat);
                T::lemma_lazy_agrees(Seq::empty(), 0);
            }
            match self.get(i) {
                Ok(item) => {
                    proof {
                        T::lemma_lazy_same_bytes(item.model(), 0);
                    }
                    sum = sum + item.scratch_len();
                },
                Err(_) => {
                    proof {
                        assert(false);
                    }
                },
            }
            i = i + 1;
        }
        proof {
            assert(models.take(n as int) =~= models);
            assert(n * T::spec_base_len() >= 0) by (nonlinear_arith);
        }
        n * T::base_len() + sum
    }

    fn encode(&self, cursor: &mut EncodeCursor) {
        let ghost lazy = self.model();
        let ghost models = list_in::<T>(lazy).unwrap();
        let ghost at = cursor.scratch_offset as nat;
        let n = self.len();
        proof {
            T::lemma_layout_fits();
            lemma_parse_items_len::<T>(lazy.0, pointer_at(lazy.0, lazy.1 + 4), n as nat);
            assert(cursor.scratch_cursor.buffer.len() == cursor.scratch_room());
            assert(n * T::spec_base_len() >= 0) by (nonlinear_arith);
        }
        let slot = cursor.base(4);
        put_le(slot, n as u128);
        let mut inner = cursor.inner_in_scratch(n * T::base_len());
        let ghost entered = inner;
        let ghost inner_at = inner.scratch_offset as nat;
        proof {
            assert(models.take(0) =~= Seq::<T::Model>::empty());
            assert(final(entered.base_cursor.buffer)@ =~= items_base::<T>(
                models.take(0),
                inner_at,
            ) + final(inner.base_cursor.buffer)@);
            assert(final(entered.scratch_cursor.buffer)@ =~= items_scratch::<T>(
                models.take(0),
                inner_at,
            ) + final(inner.scratch_cursor.buffer)@);
        }
        let mut i: usize = 0;
        while i < n
            invariant
                i <= n,
                lazy == self.model(),
                list_in::<T>(lazy) == Some(models),
                n == models.len(),
                T::layout_fits(),
                list_encodable::<T>(models),
                inner_at + items_scratch_size::<T>(models) <= u32::MAX,
                inner.base_room() == (n - i) * T::spec_base_len(),
                inner.scratch_room() + items_scratch_size::<T>(models.take(i as int))
                    == entered.scratch_room(),
                items_scratch_size::<T>(models) <= entered.scratch_room(),
                inner.scratch_offset == inner_at + items_scratch_size::<T>(models.take(i as int)),
                final(entered.base_cursor.buffer)@ == items_base::<T>(
                    models.take(i as int),
                    inner_at,
                ) + final(inner.base_cursor.buffer)@,
                final(entered.scratch_cursor.buffer)@ == items_scratch::<T>(
                    models.take(i as int),
                    inner_at,
                ) + final(inner.scratch_cursor.buffer)@,
            decreases n - i,
        {
            let ghost done = models.take(i as int);
            let ghost item_at = inner_at + items_scratch_size::<T>(done);
            proof {
                assert(models.take(i + 1).drop_last() =~= done);
                assert(models.take(i + 1).last() == models[i as int]);
                lemma_items_scratch_size_prefix::<T>(models, i + 1);
                lemma_lazy_items::<T>(lazy, i as nat);
                T::lemma_lazy_agrees(Seq::empty(), 0);
                assert((n - i) * T::spec_base_len() == (n - (i + 1)) * T::spec_base_len()
                    + T::spec_base_len()) by (nonlinear_arith);
                assert((n - (i + 1)) * T::spec_base_len() >= 0) by (nonlinear_arith)
                    requires
                        i < n,
                ;
            }
            match self.get(i) {
                Ok(item) => {
                    proof {
                        T::lemma_lazy_same_bytes(item.model(), item_at);
                    }
                    item.encode(&mut inner);
                    proof {
                        assert(final(entered.base_cursor.buffer)@ =~= (items_base::<T>(
                            done,
                            inner_at,
                        ) + T::base_bytes(models[i as int], item_at)) + final(
                            inner.base_cursor.buffer)@);
                        assert(final(entered.scratch_cursor.buffer)@ =~= (items_scratch::<T>(
                            done,
                            inner_at,
                        ) + T::scratch_bytes(models[i as int], item_at)) + final(
                            inner.scratch_cursor.buffer)@);
                    }
                },
                Err(_) => {
                    proof {
                        assert(false);
                    }
                },
            }
            i = i + 1;
        }
        proof {
            assert(models.take(n as int) =~= models);
            assert((n - n) * T::spec_base_len() == 0) by (nonlinear_arith);
        }
        cursor.leave_scratch(inner);
        proof {
            assert(final(old(cursor).base_cursor.buffer)@ =~= list_base_bytes::<T>(models, at)
                + final(cursor.base_cursor.buffer)@);
            assert(final(entered.base_cursor.buffer)@ =~= items_base::<T>(models, inner_at));
            assert(final(old(cursor).scratch_cursor.buffer)@ =~= list_scratch_bytes::<T>(
                models,
                at,
            ) + final(cursor.scratch_cursor.buffer)@);
        }
    }
}

impl<'a, T: Owned> Lazy<'a> for ListLazy<'a, T> {

}

/// A list of `U` has the regions of the lazy list over its own bytes.
pub proof fn lemma_list_as_lazy<T: Owned, U: Compatible<T>>(m: Seq<U::Model>, at: nat)
    requires
        list_encodable::<U>(m),
        8 + list_scratch_size::<U>(m) <= u32::MAX,
    ensures
        list_in::<T>(lazy_list_of::<T, U>(m)) == Some(counterparts::<T, U>(m)),
        list_encodable::<T>(counterparts::<T, U>(m)),
        list_scratch_size::<T>(counterparts::<T, U>(m)) == list_scratch_size::<U>(m),
        list_base_bytes::<T>(counterparts::<T, U>(m), at) == list_base_bytes::<U>(m, at),
        list_scratch_bytes::<T>(counterparts::<T, U>(m), at) == list_scratch_bytes::<U>(m, at),
{
    U::lemma_same_base_len();
    lemma_items_fit::<U>(m);
    lemma_counterparts_same_bytes::<T, U>(m, at + m.len() * U::spec_base_len());
    crate::lemma_decode_encoded::<Vec<T>>(counterparts::<T, U>(m));
}

/// The lazy list over the bytes that a list of `U` takes as a top-level
/// value.
pub open spec fn lazy_list_of<T: Owned, U: Compatible<T>>(m: Seq<U::Model>) -> (Seq<u8>, nat) {
    (crate::wire_bytes::<Vec<T>>(counterparts::<T, U>(m)), 0)
}

impl<T: Owned, U: Compatible<T>> Compatible<ListLazy<'_, T>> for Vec<U> {
    open spec fn counterpart(m: Seq<U::Model>) -> (Seq<u8>, nat) {
        lazy_list_of::<T, U>(m)
    }

    proof fn lemma_same_base_len() {
    }

    proof fn lemma_same_bytes(m: Seq<U::Model>, at: nat) {
        lemma_list_as_lazy::<T, U>(m, at);
    }
}

impl<T: Owned, U: Compatible<T>> Compatible<ListLazy<'_, T>> for [U] {
    open spec fn counterpart(m: Seq<U::Model>) -> (Seq<u8>, nat) {
        lazy_list_of::<T, U>(m)
    }

    proof fn lemma_same_base_len() {
    }

    proof fn lemma_same_bytes(m: Seq<U::Model>, at: nat) {
        lemma_list_as_lazy::<T, U>(m, at);
    }
}

impl<T: Owned + Compatible<U>, U: Encode> Compatible<Vec<U>> for ListLazy<'_, T> {
    open spec fn counterpart(m: (Seq<u8>, nat)) -> Seq<U::Model> {
        counterparts::<U, T>(list_in::<T>(m).unwrap())
    }

    proof fn lemma_same_base_len() {
    }

    proof fn lemma_same_bytes(m: (Seq<u8>, nat), at: nat) {
        let items = list_in::<T>(m).unwrap();
        <T as Compatible<U>>::lemma_same_base_len();
        lemma_items_fit::<T>(items);
        lemma_counterparts_same_bytes::<U, T>(items, at + items.len() * T::spec_base_len());
    }
}

impl<T: Owned + Compatible<U>, U: Encode> Compatible<[U]> for ListLazy<'_, T> {
    open spec fn counterpart(m: (Seq<u8>, nat)) -> Seq<U::Model> {
        counterparts::<U, T>(list_in::<T>(m).unwrap())
    }

    proof fn lemma_same_base_len() {
    }

    proof fn lemma_same_bytes(m: (Seq<u8>, nat), at: nat) {
        let items = list_in::<T>(m).unwrap();
        <T as Compatible<U>>::lemma_same_base_len();
        lemma_items_fit::<T>(items);
        lemma_counterparts_same_bytes::<U, T>(items, at + items.len() * T::spec_base_len());
    }
}

impl<T: Owned> Owned for Vec<T> {
    type Lazy<'a> = ListLazy<'a, T>;

    open spec fn owned_of(lazy: (Seq<u8>, nat)) -> Option<Seq<T::Model>> {
        list_in::<T>(lazy)
    }

    fn lazy_to_owned(lazy: Self::Lazy<'_>) -> (result: DecodeResult<Self>) {
        lazy.to_vec::<T>()
    }

    proof fn lemma_round_trip(m: Seq<T::Model>, buffer: Seq<u8>, offset: nat, at: nat) {
        lemma_list_round_trip::<T>(m, buffer, offset, at);
    }

    proof fn lemma_lazy_same_bytes(lazy: (Seq<u8>, nat), at: nat) {
    }

    proof fn lemma_lazy_agrees(buffer: Seq<u8>, offset: nat) {
    }
}

/// A list that says it has no items is the empty list, wherever its
/// offset points.
pub proof fn lemma_empty_list_parses<'a, T: Decode<'a>>(buffer: Seq<u8>, offset: nat)
    requires
        offset + 8 <= buffer.len(),
        count_at(buffer, offset) == 0,
    ensures
        parse_list::<T>(buffer, offset) == Some(Seq::<T::Model>::empty()),
{
}

} // verus!
