//! Reading a byte stream as a stream of bits, most significant bit first.

use vstd::prelude::*;

verus! {

/// Bit `index` of the stream: bit `7 - index % 8` of byte `index / 8`, or
/// `false` past the last byte.
pub open spec fn stream_bit(bytes: Seq<u8>, index: int) -> bool {
    0 <= index && index / 8 < bytes.len()
        && (bytes[index / 8] >> ((7 - index % 8) as u8)) & 1u8 == 1u8
}

/// How many of the stream bits in `start .. end` are set.
pub open spec fn ones_in(bytes: Seq<u8>, start: int, end: int) -> nat
    decreases end - start,
{
    if end <= start {
        0
    } else {
        ones_in(bytes, start, end - 1) + if stream_bit(bytes, end - 1) { 1nat } else { 0nat }
    }
}

/// How many of the eight bits of `byte` are set.
pub open spec fn byte_ones(byte: u8) -> nat {
    ((byte & 1u8) + ((byte >> 1u8) & 1u8) + ((byte >> 2u8) & 1u8) + ((byte >> 3u8) & 1u8)
        + ((byte >> 4u8) & 1u8) + ((byte >> 5u8) & 1u8) + ((byte >> 6u8) & 1u8) + ((
    byte >> 7u8) & 1u8)) as nat
}

/// Counting the set bits of two adjacent ranges counts those of their union.
pub proof fn lemma_ones_split(bytes: Seq<u8>, start: int, mid: int, end: int)
    requires
        start <= mid <= end,
    ensures
        ones_in(bytes, start, mid) + ones_in(bytes, mid, end) == ones_in(bytes, start, end),
    decreases end - mid,
{
    if end > mid {
        lemma_ones_split(bytes, start, mid, end - 1);
    }
}

/// A range holds no more set bits than it holds bits.
pub proof fn lemma_ones_bound(bytes: Seq<u8>, start: int, end: int)
    requires
        start <= end,
    ensures
        ones_in(bytes, start, end) <= end - start,
    decreases end - start,
{
    if end > start {
        lemma_ones_bound(bytes, start, end - 1);
    }
}

/// The eight stream bits of one byte hold as many set bits as the byte.
proof fn lemma_ones_of_byte(bytes: Seq<u8>, j: int)
    requires
        0 <= j,
    ensures
        ones_in(bytes, 8 * j, 8 * j + 8) == if j < bytes.len() { byte_ones(bytes[j]) } else { 0 },
{
    reveal_with_fuel(ones_in, 9);
    let b = 8 * j;
    assert((b + 0) / 8 == j && (b + 0) % 8 == 0);
    assert((b + 1) / 8 == j && (b + 1) % 8 == 1);
    assert((b + 2) / 8 == j && (b + 2) % 8 == 2);
    assert((b + 3) / 8 == j && (b + 3) % 8 == 3);
    assert((b + 4) / 8 == j && (b + 4) % 8 == 4);
    assert((b + 5) / 8 == j && (b + 5) % 8 == 5);
    assert((b + 6) / 8 == j && (b + 6) % 8 == 6);
    assert((b + 7) / 8 == j && (b + 7) % 8 == 7);
    if j < bytes.len() {
        let x = bytes[j];
        assert(x >> 7u8 & 1u8 == 1u8 || x >> 7u8 & 1u8 == 0u8) by (bit_vector);
        assert(x >> 6u8 & 1u8 == 1u8 || x >> 6u8 & 1u8 == 0u8) by (bit_vector);
        assert(x >> 5u8 & 1u8 == 1u8 || x >> 5u8 & 1u8 == 0u8) by (bit_vector);
        assert(x >> 4u8 & 1u8 == 1u8 || x >> 4u8 & 1u8 == 0u8) by (bit_vector);
        assert(x >> 3u8 & 1u8 == 1u8 || x >> 3u8 & 1u8 == 0u8) by (bit_vector);
        assert(x >> 2u8 & 1u8 == 1u8 || x >> 2u8 & 1u8 == 0u8) by (bit_vector);
        assert(x >> 1u8 & 1u8 == 1u8 || x >> 1u8 & 1u8 == 0u8) by (bit_vector);
        assert(x >> 0u8 & 1u8 == 1u8 || x >> 0u8 & 1u8 == 0u8) by (bit_vector);
        assert(x >> 0u8 == x) by (bit_vector);
    }
}

/// The number of set bits of a byte.
///
/// Trusted: `u8::count_ones` counts the bits of the byte that are 1.
#[verifier::external_body]
fn count_ones(byte: u8) -> (n: u32)
    ensures
        n == byte_ones(byte),
{
    byte.count_ones()
}

pub fn bit_at(bytes: &[u8], index: usize) -> (bit: bool)
    ensures
        bit == stream_bit(bytes@, index as int),
{
    if index / 8 < bytes.len() {
        let byte = bytes[index / 8];
        byte >> (7 - index % 8) as u8 & 1 == 1
    } else {
        false
    }
}

/// The number of set stream bits in `start .. end`; whole bytes are counted
/// at once.
pub fn ones_between(bytes: &[u8], start: usize, end: usize) -> (count: usize)
    ensures
        count == ones_in(bytes@, start as int, end as int),
{
    let mut count: usize = 0;
    let mut index: usize = start;
    if end <= start {
        return 0;
    }
    while index < end && index % 8 != 0
        invariant
            start <= index <= end,
            count == ones_in(bytes@, start as int, index as int),
        decreases end - index,
    {
        proof {
            lemma_ones_bound(bytes@, start as int, index as int);
        }
        count += if bit_at(bytes, index) { 1 } else { 0 };
        index += 1;
    }
    while index < end && end - index >= 8
        invariant
            start <= index <= end,
            index < end ==> index % 8 == 0,
            count == ones_in(bytes@, start as int, index as int),
        decreases end - index,
    {
        proof {
            lemma_ones_split(bytes@, start as int, index as int, index + 8);
            lemma_ones_of_byte(bytes@, (index / 8) as int);
            lemma_ones_bound(bytes@, start as int, index + 8);
        }
        if index / 8 < bytes.len() {
            count += count_ones(bytes[index / 8]) as usize;
        }
        index += 8;
    }
    while index < end
        invariant
            start <= index <= end,
            count == ones_in(bytes@, start as int, index as int),
        decreases end - index,
    {
        proof {
            lemma_ones_bound(bytes@, start as int, index as int);
        }
        count += if bit_at(bytes, index) { 1 } else { 0 };
        index += 1;
    }
    count
}

} // verus!
