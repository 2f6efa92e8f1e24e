//! Little-endian integer fields and plain byte copies.
//!
//! Every fixed-width number on the wire is stored least significant byte
//! first. The functions here read and write such fields for any width up
//! to sixteen bytes; the codecs of the integer types are thin layers on top.
use vstd::prelude::*;

verus! {

/// `256^width`: the number of values a field of `width` bytes can hold.
pub open spec fn radix(width: nat) -> nat
    decreases width,
{
    if width == 0 {
        1
    } else {
        256 * radix((width - 1) as nat)
    }
}

/// The `width` low bytes of `value`, least significant first.
pub open spec fn le_bytes(value: nat, width: nat) -> Seq<u8>
    decreases width,
{
    if width == 0 {
        Seq::empty()
    } else {
        seq![(value % 256) as u8] + le_bytes(value / 256, (width - 1) as nat)
    }
}

/// The number that `bytes` spell, least significant byte first.
pub open spec fn le_value(bytes: Seq<u8>) -> nat
    decreases bytes.len(),
{
    if bytes.len() == 0 {
        0
    } else {
        bytes[0] as nat + 256 * le_value(bytes.drop_first())
    }
}

/// A run of `n` zero bytes.
pub open spec fn zeros(n: nat) -> Seq<u8> {
    Seq::new(n, |i: int| 0u8)
}

/// The unsigned number with the same two's-complement bits as `value`
/// in a field of `width` bytes.
pub open spec fn to_unsigned(value: int, width: nat) -> nat {
    if value >= 0 {
        value as nat
    } else {
        (value + radix(width)) as nat
    }
}

/// The signed number with the same two's-complement bits as `value`
/// in a field of `width` bytes.
pub open spec fn to_signed(value: nat, width: nat) -> int {
    if 2 * value < radix(width) {
        value as int
    } else {
        value - radix(width)
    }
}

pub proof fn lemma_radix_values()
    ensures
        radix(0) == 1,
        radix(1) == 0x100,
        radix(2) == 0x1_0000,
        radix(4) == 0x1_0000_0000,
        radix(8) == 0x1_0000_0000_0000_0000,
        radix(16) == 0x1_0000_0000_0000_0000_0000_0000_0000_0000,
{
    reveal_with_fuel(radix, 17);
}

pub proof fn lemma_le_bytes_len(value: nat, width: nat)
    ensures
        le_bytes(value, width).len() == width,
    decreases width,
{
    if width > 0 {
        lemma_le_bytes_len(value / 256, (width - 1) as nat);
    }
}

/// A field of `bytes.len()` bytes holds a number below `256^len`.
pub proof fn lemma_le_value_bound(bytes: Seq<u8>)
    ensures
        le_value(bytes) < radix(bytes.len()),
    decreases bytes.len(),
{
    if bytes.len() > 0 {
        lemma_le_value_bound(bytes.drop_first());
    }
}

/// Writing a number that fits and reading it back gives the number.
pub proof fn lemma_le_value_of_bytes(value: nat, width: nat)
    requires
        value < radix(width),
    ensures
        le_value(le_bytes(value, width)) == value,
    decreases width,
{
    lemma_le_bytes_len(value, width);
    if width > 0 {
        let rest = le_bytes(value / 256, (width - 1) as nat);
        lemma_le_value_of_bytes(value / 256, (width - 1) as nat);
        assert(le_bytes(value, width).drop_first() =~= rest);
    }
}

/// The first `width + 1` bytes are the first `width` bytes and one more.
pub proof fn lemma_le_bytes_push(value: nat, width: nat)
    ensures
        le_bytes(value, width + 1) == le_bytes(value, width).push(
            ((value / radix(width)) % 256) as u8,
        ),
        (value / radix(width)) / 256 == value / radix(width + 1),
    decreases width,
{
    if width == 0 {
        assert(le_bytes(value, 1) =~= le_bytes(value, 0).push(((value / radix(0)) % 256) as u8)) by {
            reveal_with_fuel(le_bytes, 2);
        }
        assert(radix(1) == 256) by {
            reveal_with_fuel(radix, 2);
        }
    } else {
        let w1 = (width - 1) as nat;
        lemma_le_bytes_push(value / 256, w1);
        lemma_radix_monotone(w1, width);
        lemma_div_div(value, radix(w1));
        lemma_div_div(value, radix(width));
        assert(radix(width) == 256 * radix(w1));
        assert(radix(width + 1) == 256 * radix(width));
        assert(le_bytes(value, width + 1) =~= le_bytes(value, width).push(
            ((value / radix(width)) % 256) as u8,
        ));
    }
}

/// Dividing by 256 and by `d` commute and equal one division by `256 * d`.
proof fn lemma_div_div(value: nat, d: nat)
    requires
        d > 0,
    ensures
        (value / 256) / d == value / (256 * d),
        (value / d) / 256 == value / (256 * d),
{
    vstd::arithmetic::div_mod::lemma_div_denominator(value as int, 256, d as int);
    vstd::arithmetic::div_mod::lemma_div_denominator(value as int, d as int, 256);
    assert(256 * d == d * 256);
}

/// Writes `value` into `dst`, least significant byte first.
pub fn put_le(dst: &mut [u8], value: u128)
    requires
        old(dst)@.len() <= 16,
    ensures
        final(dst)@ == le_bytes(value as nat, old(dst)@.len()),
{
    let n = dst.len();
    let mut rest: u128 = value;
    let mut i: usize = 0;
    proof {
        assert(dst@.subrange(0, 0) =~= le_bytes(value as nat, 0));
        assert(radix(0) == 1);
    }
    while i < n
        invariant
            i <= n,
            n == old(dst)@.len(),
            dst@.len() == n,
            rest == (value as nat) / radix(i as nat),
            dst@.subrange(0, i as int) == le_bytes(value as nat, i as nat),
        decreases n - i,
    {
        proof {
            lemma_le_bytes_push(value as nat, i as nat);
        }
        let ghost before = dst@;
        dst[i] = (rest % 256) as u8;
        rest = rest / 256;
        proof {
            assert(dst@.subrange(0, i + 1) =~= before.subrange(0, i as int).push(dst@[i as int]));
        }
        i = i + 1;
    }
    proof {
        assert(dst@.subrange(0, n as int) =~= dst@);
    }
}

/// Reads the number that `src` spells, least significant byte first.
pub fn get_le(src: &[u8]) -> (value: u128)
    requires
        src@.len() <= 16,
    ensures
        value == le_value(src@),
{
    let n = src.len();
    let mut value: u128 = 0;
    let mut i: usize = n;
    proof {
        assert(src@.subrange(n as int, n as int) =~= Seq::<u8>::empty());
    }
    while i > 0
        invariant
            i <= n,
            n == src@.len(),
            n <= 16,
            value == le_value(src@.subrange(i as int, n as int)),
        decreases i,
    {
        i = i - 1;
        proof {
            let tail = src@.subrange(i as int, n as int);
            assert(tail.drop_first() =~= src@.subrange(i + 1, n as int));
            lemma_le_value_bound(tail.drop_first());
            lemma_radix_monotone(tail.drop_first().len(), 15);
            assert(radix(16) == 256 * radix(15));
            assert(value == le_value(tail.drop_first()));
            assert(value < radix(15));
            assert(value * 256 + 255 < radix(16));
            lemma_radix_values();
        }
        value = value * 256 + src[i] as u128;
    }
    proof {
        assert(src@.subrange(0, n as int) =~= src@);
    }
    value
}

pub proof fn lemma_radix_monotone(a: nat, b: nat)
    requires
        a <= b,
    ensures
        radix(a) <= radix(b),
        radix(a) > 0,
    decreases b,
{
    if a < b {
        lemma_radix_monotone(a, (b - 1) as nat);
    } else if a > 0 {
        lemma_radix_monotone((a - 1) as nat, (a - 1) as nat);
    }
}

/// The largest number that a field of `width` bytes can hold.
pub fn max_le(width: usize) -> (max: u128)
    requires
        width <= 16,
    ensures
        max + 1 == radix(width as nat),
{
    let mut max: u128 = 0;
    let mut i: usize = 0;
    while i < width
        invariant
            i <= width,
            width <= 16,
            max + 1 == radix(i as nat),
        decreases width - i,
    {
        proof {
            lemma_radix_monotone((i + 1) as nat, 16);
            lemma_radix_values();
        }
        max = max * 256 + 255;
        i = i + 1;
    }
    max
}

/// Whether `value` fits a two's-complement field of `width` bytes.
pub open spec fn fits_signed(value: int, width: nat) -> bool {
    -(radix(width) as int) <= 2 * value < radix(width)
}

/// A signed number that fits goes to its bits and back unchanged.
pub proof fn lemma_signed_round_trip(value: int, width: nat)
    requires
        width > 0,
        fits_signed(value, width),
    ensures
        to_unsigned(value, width) < radix(width),
        to_signed(to_unsigned(value, width), width) == value,
{
    lemma_radix_monotone(width, width);
}

/// The bits of a field go to a signed number that fits, and back unchanged.
pub proof fn lemma_unsigned_round_trip(value: nat, width: nat)
    requires
        width > 0,
        value < radix(width),
    ensures
        fits_signed(to_signed(value, width), width),
        to_unsigned(to_signed(value, width), width) == value,
{
    lemma_radix_monotone(width, width);
    assert(radix(width) == 256 * radix((width - 1) as nat));
}

/// Writes `value` into `dst` in two's complement, least significant byte
/// first.
pub fn put_le_signed(dst: &mut [u8], value: i128)
    requires
        0 < old(dst)@.len() <= 16,
        fits_signed(value as int, old(dst)@.len()),
    ensures
        final(dst)@ == le_bytes(to_unsigned(value as int, old(dst)@.len()), old(dst)@.len()),
{
    let width = dst.len();
    if value >= 0 {
        put_le(dst, value as u128);
    } else {
        let max = max_le(width);
        let below = (-(value + 1)) as u128;
        put_le(dst, max - below);
    }
}

/// Reads the two's-complement number that `src` spells, least significant
/// byte first.
pub fn get_le_signed(src: &[u8]) -> (value: i128)
    requires
        0 < src@.len() <= 16,
    ensures
        value == to_signed(le_value(src@), src@.len()),
        fits_signed(value as int, src@.len()),
{
    let width = src.len();
    let bits = get_le(src);
    let max = max_le(width);
    proof {
        lemma_le_value_bound(src@);
        lemma_unsigned_round_trip(bits as nat, width as nat);
        lemma_radix_monotone(width as nat, 16);
        lemma_radix_values();
        assert(radix(width as nat) == 256 * radix((width - 1) as nat));
    }
    if bits <= max / 2 {
        bits as i128
    } else {
        -((max - bits) as i128) - 1
    }
}

/// Fills `dst` with zero bytes.
pub fn zero_fill(dst: &mut [u8])
    ensures
        final(dst)@ == zeros(old(dst)@.len()),
{
    let n = dst.len();
    let mut i: usize = 0;
    while i < n
        invariant
            i <= n,
            dst@.len() == n,
            n == old(dst)@.len(),
            forall|j: int| 0 <= j < i ==> dst@[j] == 0u8,
        decreases n - i,
    {
        dst[i] = 0;
        i = i + 1;
    }
    proof {
        assert(dst@ =~= zeros(old(dst)@.len()));
    }
}

/// Copies `src` over `dst`, which has the same length.
pub fn copy_bytes(dst: &mut [u8], src: &[u8])
    requires
        old(dst)@.len() == src@.len(),
    ensures
        final(dst)@ == src@,
{
    let n = dst.len();
    let mut i: usize = 0;
    while i < n
        invariant
            i <= n,
            dst@.len() == n,
            src@.len() == n,
            forall|j: int| 0 <= j < i ==> dst@[j] == src@[j],
        decreases n - i,
    {
        dst[i] = src[i];
        i = i + 1;
    }
    proof {
        assert(dst@ =~= src@);
    }
}

} // verus!
