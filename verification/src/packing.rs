//! Packing of a buffer's address and length into one 64-bit scalar.
//!
//! The high 32 bits of a packed address hold the pointer, the low 32 bits the
//! length. The scalar crosses the boundary as a signed integer, so a pointer
//! of `2^31` or more makes it negative; unpacking reads the bit pattern and
//! is not misled by the sign.

use vstd::prelude::*;
use crate::error::Error;

verus! {

/// The signed 64-bit integer whose bit pattern is `pointer * 2^32 + length`.
pub open spec fn packed(pointer: u32, length: u32) -> int {
    let raw = pointer as int * 0x1_0000_0000 + length as int;
    if raw < 0x8000_0000_0000_0000 {
        raw
    } else {
        raw - 0x1_0000_0000_0000_0000
    }
}

/// The pointer held in the high 32 bits of a packed address.
pub open spec fn pointer_of(value: i64) -> u32 {
    ((value as int / 0x1_0000_0000) % 0x1_0000_0000) as u32
}

/// The length held in the low 32 bits of a packed address.
pub open spec fn length_of(value: i64) -> u32 {
    (value as int % 0x1_0000_0000) as u32
}

/// Packs a pointer and a length into one 64-bit scalar.
pub fn pack(pointer: u32, length: u32) -> (value: i64)
    ensures
        value == packed(pointer, length),
        pointer_of(value) == pointer,
        length_of(value) == length,
{
    let high: u64 = (pointer as u64) << 32;
    let low: u64 = (length as u64) & 0x0000_0000_ffff_ffff;
    let bits: u64 = high | low;
    let value: i64 = bits as i64;
    proof {
        lemma_pack_bits(pointer, length, bits, value);
    }
    value
}

/// Splits a packed address into its pointer and its length.
pub fn unpack(value: i64) -> (parts: (u32, u32))
    ensures
        parts.0 == pointer_of(value),
        parts.1 == length_of(value),
        packed(parts.0, parts.1) == value,
{
    let bits: u64 = value as u64;
    let pointer: u32 = ((bits & 0xffff_ffff_0000_0000) >> 32) as u32;
    let length: u32 = (bits & 0x0000_0000_ffff_ffff) as u32;
    proof {
        lemma_unpack_bits(value, bits, pointer, length);
    }
    (pointer, length)
}

/// Packs a pointer and a length that are held in machine words, after
/// checking that each fits in 32 bits.
pub fn try_pack(pointer: usize, length: usize) -> (r: Result<i64, Error>)
    ensures
        pointer <= u32::MAX && length <= u32::MAX ==> r == Ok::<i64, Error>(
            packed(pointer as u32, length as u32) as i64,
        ),
        pointer > u32::MAX || length > u32::MAX ==> r == Err::<i64, Error>(
            Error::PackingOverflow { address: pointer, size: length },
        ),
{
    if pointer > 0xffff_ffff || length > 0xffff_ffff {
        return Err(Error::PackingOverflow { address: pointer, size: length });
    }
    Ok(pack(pointer as u32, length as u32))
}

/// The signed 32-bit integer that has the bit pattern of `word`.
pub open spec fn signed(word: u32) -> int {
    if word < 0x8000_0000 {
        word as int
    } else {
        word - 0x1_0000_0000
    }
}

/// The unsigned 32-bit integer that has the bit pattern of `scalar`.
pub open spec fn unsigned(scalar: i32) -> int {
    if scalar >= 0 {
        scalar as int
    } else {
        scalar + 0x1_0000_0000
    }
}

/// Reads a 32-bit word as the signed scalar that an export takes.
pub fn to_scalar(word: u32) -> (scalar: i32)
    ensures
        scalar == signed(word),
        unsigned(scalar) == word,
{
    let scalar: i32 = word as i32;
    assert(word < 0x8000_0000 ==> (word as i32) == word) by (bit_vector);
    assert(word >= 0x8000_0000 ==> (word as i32) == word - 0x1_0000_0000) by (bit_vector);
    scalar
}

/// Reads the signed scalar that an export takes as a 32-bit word.
pub fn to_word(scalar: i32) -> (word: u32)
    ensures
        word == unsigned(scalar),
        signed(word) == scalar,
{
    let word: u32 = scalar as u32;
    assert(scalar >= 0 ==> (scalar as u32) == scalar) by (bit_vector);
    assert(scalar < 0 ==> (scalar as u32) == scalar + 0x1_0000_0000) by (bit_vector);
    word
}

/// Unpacking what was packed gives back the pointer and the length, for
/// every pointer and length of 32 bits.
pub proof fn lemma_unpack_pack(pointer: u32, length: u32)
    ensures
        i64::MIN <= packed(pointer, length) <= i64::MAX,
        pointer_of(packed(pointer, length) as i64) == pointer,
        length_of(packed(pointer, length) as i64) == length,
{
}

/// Packing what was unpacked gives back the scalar: every 64-bit scalar is
/// the packed form of exactly one pointer and length.
pub proof fn lemma_pack_unpack(value: i64)
    ensures
        packed(pointer_of(value), length_of(value)) == value,
{
}

/// Two pairs of pointer and length with the same packed form are equal.
pub proof fn lemma_packed_injective(p1: u32, l1: u32, p2: u32, l2: u32)
    requires
        packed(p1, l1) == packed(p2, l2),
    ensures
        p1 == p2,
        l1 == l2,
{
}

proof fn lemma_pack_bits(pointer: u32, length: u32, bits: u64, value: i64)
    requires
        bits == ((pointer as u64) << 32) | ((length as u64) & 0x0000_0000_ffff_ffff),
        value == bits as i64,
    ensures
        value == packed(pointer, length),
        pointer_of(value) == pointer,
        length_of(value) == length,
{
    assert(bits == (pointer as u64) * 0x1_0000_0000 + (length as u64)) by (bit_vector)
        requires
            bits == ((pointer as u64) << 32) | ((length as u64) & 0x0000_0000_ffff_ffff),
    ;
    assert(bits < 0x8000_0000_0000_0000 ==> (bits as i64) == bits) by (bit_vector);
    assert(bits >= 0x8000_0000_0000_0000 ==> (bits as i64) == bits - 0x1_0000_0000_0000_0000)
        by (bit_vector);
}

proof fn lemma_unpack_bits(value: i64, bits: u64, pointer: u32, length: u32)
    requires
        bits == value as u64,
        pointer == ((bits & 0xffff_ffff_0000_0000) >> 32) as u32,
        length == (bits & 0x0000_0000_ffff_ffff) as u32,
    ensures
        pointer == pointer_of(value),
        length == length_of(value),
        packed(pointer, length) == value,
{
    assert(value >= 0 ==> (value as u64) == value) by (bit_vector);
    assert(value < 0 ==> (value as u64) == value + 0x1_0000_0000_0000_0000) by (bit_vector);
    assert(bits == (pointer as u64) * 0x1_0000_0000 + (length as u64)) by (bit_vector)
        requires
            pointer == ((bits & 0xffff_ffff_0000_0000) >> 32) as u32,
            length == (bits & 0x0000_0000_ffff_ffff) as u32,
    ;
}

} // verus!
