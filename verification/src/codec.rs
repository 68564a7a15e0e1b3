//! The byte encoding of the values that cross the boundary.
//!
//! Every value is a fixed sequence of 32-bit integers, and its encoding is
//! the concatenation of their encodings: four bytes each, least significant
//! byte first, a negative integer in two's complement. Nothing is padded and
//! nothing is prefixed, so the width of an encoding depends on the type of
//! the value alone.

use vstd::prelude::*;
use crate::error::Error;
use crate::geometry::{Point, Rect};
use crate::packing::{signed, to_scalar, to_word, unsigned};

verus! {

/// The width in bytes of one encoded 32-bit integer.
pub const WORD_WIDTH: usize = 4;

/// The four bytes of a 32-bit word, least significant first.
pub open spec fn word_bytes(word: u32) -> Seq<u8> {
    seq![
        (word % 0x100) as u8,
        (word / 0x100 % 0x100) as u8,
        (word / 0x1_0000 % 0x100) as u8,
        (word / 0x100_0000) as u8,
    ]
}

/// The 32-bit word whose bytes, least significant first, are the four bytes
/// of `bytes` that start at index `at`.
pub open spec fn word_at(bytes: Seq<u8>, at: int) -> u32 {
    (bytes[at] + bytes[at + 1] * 0x100 + bytes[at + 2] * 0x1_0000 + bytes[at + 3] * 0x100_0000) as u32
}

/// The encoding of a signed 32-bit integer.
pub open spec fn int_bytes(v: i32) -> Seq<u8> {
    word_bytes(unsigned(v) as u32)
}

/// The signed 32-bit integer encoded in the four bytes of `bytes` that start
/// at index `at`.
pub open spec fn int_at(bytes: Seq<u8>, at: int) -> i32 {
    signed(word_at(bytes, at)) as i32
}

/// A value that can cross the boundary: it has an encoding of fixed width,
/// from which it can be read back.
pub trait Value: Sized {
    /// The number of bytes in the encoding of every value of this type.
    spec fn width() -> nat;

    /// The encoding of this value.
    spec fn encoding(&self) -> Seq<u8>;

    /// The value that is encoded in the first `width()` bytes of `bytes`, or
    /// `None` where `bytes` is shorter than that. Bytes beyond the encoding
    /// are not looked at.
    spec fn decoding(bytes: Seq<u8>) -> Option<Self>;

    /// The number of bytes that `encode` produces for this value.
    fn encoded_size(&self) -> (size: usize)
        ensures
            size == self.encoding().len(),
            size == Self::width(),
    ;

    /// Encodes this value.
    fn encode(&self) -> (bytes: Vec<u8>)
        ensures
            bytes@ == self.encoding(),
    ;

    /// Decodes a value from the start of `bytes`. Fails exactly where
    /// `bytes` is shorter than the encoding of a value of this type.
    fn decode(bytes: &[u8]) -> (r: Result<Self, Error>)
        ensures
            match Self::decoding(bytes@) {
                Some(v) => r == Ok::<Self, Error>(v),
                None => r == Err::<Self, Error>(
                    Error::Decode { expected: Self::width() as usize, actual: bytes@.len() as usize },
                ),
            },
    ;

    /// An encoding has the width of its type, which a 32-bit size can
    /// express.
    proof fn lemma_width(v: Self)
        ensures
            v.encoding().len() == Self::width(),
            Self::width() <= i32::MAX,
    ;

    /// Decoding succeeds exactly on the sequences that are long enough.
    proof fn lemma_decoding_defined(bytes: Seq<u8>)
        ensures
            Self::decoding(bytes) is Some <==> bytes.len() >= Self::width(),
    ;

    /// Decoding an encoding gives back the value, whatever follows the
    /// encoding.
    proof fn lemma_round_trip(v: Self, rest: Seq<u8>)
        ensures
            Self::decoding(v.encoding() + rest) == Some(v),
    ;

    /// A value's encoding is the part of the input that it was decoded from:
    /// no two byte sequences of the type's width decode to the same value.
    proof fn lemma_canonical(bytes: Seq<u8>)
        requires
            bytes.len() >= Self::width(),
        ensures
            Self::decoding(bytes) is Some,
            Self::decoding(bytes)->0.encoding() == bytes.subrange(0, Self::width() as int),
    ;
}

/// A word is the word read back from its four bytes.
pub proof fn lemma_word_round_trip(word: u32, before: Seq<u8>, after: Seq<u8>)
    ensures
        word_bytes(word).len() == 4,
        word_at(before + word_bytes(word) + after, before.len() as int) == word,
{
    let all = before + word_bytes(word) + after;
    let at = before.len() as int;
    assert(all[at] == word_bytes(word)[0]);
    assert(all[at + 1] == word_bytes(word)[1]);
    assert(all[at + 2] == word_bytes(word)[2]);
    assert(all[at + 3] == word_bytes(word)[3]);
}

/// Four bytes are the bytes of the word read from them.
pub proof fn lemma_word_canonical(bytes: Seq<u8>, at: int)
    requires
        0 <= at,
        at + 4 <= bytes.len(),
    ensures
        word_bytes(word_at(bytes, at)) == bytes.subrange(at, at + 4),
{
    let b0 = bytes[at];
    let b1 = bytes[at + 1];
    let b2 = bytes[at + 2];
    let b3 = bytes[at + 3];
    let word = word_at(bytes, at);
    assert(b0 + b1 * 0x100 + b2 * 0x1_0000 + b3 * 0x100_0000 <= u32::MAX);
    assert(word == b0 + b1 * 0x100 + b2 * 0x1_0000 + b3 * 0x100_0000);
    assert(word % 0x100 == b0 && word / 0x100 % 0x100 == b1 && word / 0x1_0000 % 0x100 == b2
        && word / 0x100_0000 == b3) by (bit_vector)
        requires
            word == b0 + b1 * 0x100 + b2 * 0x1_0000 + b3 * 0x100_0000,
    ;
    assert(word_bytes(word) =~= bytes.subrange(at, at + 4));
}

/// A signed integer is the integer read back from its four bytes.
pub proof fn lemma_int_round_trip(v: i32, before: Seq<u8>, after: Seq<u8>)
    ensures
        int_bytes(v).len() == 4,
        int_at(before + int_bytes(v) + after, before.len() as int) == v,
{
    lemma_word_round_trip(unsigned(v) as u32, before, after);
}

/// Four bytes are the bytes of the signed integer read from them.
pub proof fn lemma_int_canonical(bytes: Seq<u8>, at: int)
    requires
        0 <= at,
        at + 4 <= bytes.len(),
    ensures
        int_bytes(int_at(bytes, at)) == bytes.subrange(at, at + 4),
{
    lemma_word_canonical(bytes, at);
}

/// Appends the four bytes of a word to `out`.
fn push_word(out: &mut Vec<u8>, word: u32)
    ensures
        final(out)@ == old(out)@ + word_bytes(word),
{
    out.push((word % 0x100) as u8);
    out.push((word / 0x100 % 0x100) as u8);
    out.push((word / 0x1_0000 % 0x100) as u8);
    out.push((word / 0x100_0000) as u8);
    assert(out@ =~= old(out)@ + word_bytes(word));
}

/// Reads the word whose four bytes start at index `at` of `bytes`.
fn read_word(bytes: &[u8], at: usize) -> (word: u32)
    requires
        at + 4 <= bytes@.len(),
    ensures
        word == word_at(bytes@, at as int),
{
    let b0: u32 = bytes[at] as u32;
    let b1: u32 = bytes[at + 1] as u32;
    let b2: u32 = bytes[at + 2] as u32;
    let b3: u32 = bytes[at + 3] as u32;
    b0 + b1 * 0x100 + b2 * 0x1_0000 + b3 * 0x100_0000
}

/// Appends the encoding of a signed integer to `out`.
fn push_int(out: &mut Vec<u8>, v: i32)
    ensures
        final(out)@ == old(out)@ + int_bytes(v),
{
    push_word(out, to_word(v));
}

/// Reads the signed integer encoded at index `at` of `bytes`.
fn read_int(bytes: &[u8], at: usize) -> (v: i32)
    requires
        at + 4 <= bytes@.len(),
    ensures
        v == int_at(bytes@, at as int),
{
    to_scalar(read_word(bytes, at))
}

/// The encodings of two signed integers, one after the other.
pub open spec fn pair_bytes(a: i32, b: i32) -> Seq<u8> {
    int_bytes(a) + int_bytes(b)
}

/// The encodings of four signed integers, one after the other.
pub open spec fn quad_bytes(a: i32, b: i32, c: i32, d: i32) -> Seq<u8> {
    int_bytes(a) + int_bytes(b) + int_bytes(c) + int_bytes(d)
}

/// Two integers are read back from their encodings, whatever follows.
pub proof fn lemma_pair_round_trip(a: i32, b: i32, rest: Seq<u8>)
    ensures
        pair_bytes(a, b).len() == 8,
        int_at(pair_bytes(a, b) + rest, 0) == a,
        int_at(pair_bytes(a, b) + rest, 4) == b,
{
    let all = pair_bytes(a, b) + rest;
    lemma_int_round_trip(a, Seq::empty(), int_bytes(b) + rest);
    assert(all =~= Seq::<u8>::empty() + int_bytes(a) + (int_bytes(b) + rest));
    lemma_int_round_trip(b, int_bytes(a), rest);
}

/// Four integers are read back from their encodings, whatever follows.
pub proof fn lemma_quad_round_trip(a: i32, b: i32, c: i32, d: i32, rest: Seq<u8>)
    ensures
        quad_bytes(a, b, c, d).len() == 16,
        int_at(quad_bytes(a, b, c, d) + rest, 0) == a,
        int_at(quad_bytes(a, b, c, d) + rest, 4) == b,
        int_at(quad_bytes(a, b, c, d) + rest, 8) == c,
        int_at(quad_bytes(a, b, c, d) + rest, 12) == d,
{
    let all = quad_bytes(a, b, c, d) + rest;
    lemma_pair_round_trip(a, b, pair_bytes(c, d) + rest);
    assert(all =~= pair_bytes(a, b) + (pair_bytes(c, d) + rest));
    lemma_int_round_trip(c, pair_bytes(a, b), int_bytes(d) + rest);
    assert(all =~= pair_bytes(a, b) + int_bytes(c) + (int_bytes(d) + rest));
    lemma_int_round_trip(d, pair_bytes(a, b) + int_bytes(c), rest);
}

/// Eight bytes are the encodings of the two integers read from them.
pub proof fn lemma_pair_canonical(bytes: Seq<u8>)
    requires
        bytes.len() >= 8,
    ensures
        pair_bytes(int_at(bytes, 0), int_at(bytes, 4)) == bytes.subrange(0, 8),
{
    lemma_int_canonical(bytes, 0);
    lemma_int_canonical(bytes, 4);
    assert(bytes.subrange(0, 4) + bytes.subrange(4, 8) =~= bytes.subrange(0, 8));
}

/// Sixteen bytes are the encodings of the four integers read from them.
pub proof fn lemma_quad_canonical(bytes: Seq<u8>)
    requires
        bytes.len() >= 16,
    ensures
        quad_bytes(int_at(bytes, 0), int_at(bytes, 4), int_at(bytes, 8), int_at(bytes, 12))
            == bytes.subrange(0, 16),
{
    lemma_int_canonical(bytes, 0);
    lemma_int_canonical(bytes, 4);
    lemma_int_canonical(bytes, 8);
    lemma_int_canonical(bytes, 12);
    assert(bytes.subrange(0, 4) + bytes.subrange(4, 8) + bytes.subrange(8, 12) + bytes.subrange(
        12,
        16,
    ) =~= bytes.subrange(0, 16));
}

impl Value for i32 {
    open spec fn width() -> nat {
        4
    }

    open spec fn encoding(&self) -> Seq<u8> {
        int_bytes(*self)
    }

    open spec fn decoding(bytes: Seq<u8>) -> Option<i32> {
        if bytes.len() >= 4 {
            Some(int_at(bytes, 0))
        } else {
            None
        }
    }

    fn encoded_size(&self) -> (size: usize) {
        WORD_WIDTH
    }

    fn encode(&self) -> (bytes: Vec<u8>) {
        let mut bytes: Vec<u8> = Vec::new();
        push_int(&mut bytes, *self);
        bytes
    }

    fn decode(bytes: &[u8]) -> (r: Result<i32, Error>) {
        if bytes.len() < WORD_WIDTH {
            return Err(Error::Decode { expected: WORD_WIDTH, actual: bytes.len() });
        }
        Ok(read_int(bytes, 0))
    }

    proof fn lemma_width(v: i32) {
    }

    proof fn lemma_decoding_defined(bytes: Seq<u8>) {
    }

    proof fn lemma_round_trip(v: i32, rest: Seq<u8>) {
        lemma_int_round_trip(v, Seq::empty(), rest);
        assert(v.encoding() + rest =~= Seq::<u8>::empty() + int_bytes(v) + rest);
    }

    proof fn lemma_canonical(bytes: Seq<u8>) {
        lemma_int_canonical(bytes, 0);
    }
}

impl Value for u32 {
    open spec fn width() -> nat {
        4
    }

    open spec fn encoding(&self) -> Seq<u8> {
        word_bytes(*self)
    }

    open spec fn decoding(bytes: Seq<u8>) -> Option<u32> {
        if bytes.len() >= 4 {
            Some(word_at(bytes, 0))
        } else {
            None
        }
    }

    fn encoded_size(&self) -> (size: usize) {
        WORD_WIDTH
    }

    fn encode(&self) -> (bytes: Vec<u8>) {
        let mut bytes: Vec<u8> = Vec::new();
        push_word(&mut bytes, *self);
        bytes
    }

    fn decode(bytes: &[u8]) -> (r: Result<u32, Error>) {
        if bytes.len() < WORD_WIDTH {
            return Err(Error::Decode { expected: WORD_WIDTH, actual: bytes.len() });
        }
        Ok(read_word(bytes, 0))
    }

    proof fn lemma_width(v: u32) {
    }

    proof fn lemma_decoding_defined(bytes: Seq<u8>) {
    }

    proof fn lemma_round_trip(v: u32, rest: Seq<u8>) {
        lemma_word_round_trip(v, Seq::empty(), rest);
        assert(v.encoding() + rest =~= Seq::<u8>::empty() + word_bytes(v) + rest);
    }

    proof fn lemma_canonical(bytes: Seq<u8>) {
        lemma_word_canonical(bytes, 0);
    }
}

impl Value for Point {
    open spec fn width() -> nat {
        8
    }

    open spec fn encoding(&self) -> Seq<u8> {
        pair_bytes(self.x, self.y)
    }

    open spec fn decoding(bytes: Seq<u8>) -> Option<Point> {
        if bytes.len() >= 8 {
            Some(Point { x: int_at(bytes, 0), y: int_at(bytes, 4) })
        } else {
            None
        }
    }

    fn encoded_size(&self) -> (size: usize) {
        proof {
            lemma_pair_round_trip(self.x, self.y, Seq::empty());
        }
        2 * WORD_WIDTH
    }

    fn encode(&self) -> (bytes: Vec<u8>) {
        let mut bytes: Vec<u8> = Vec::new();
        push_int(&mut bytes, self.x);
        push_int(&mut bytes, self.y);
        assert(bytes@ =~= self.encoding());
        bytes
    }

    fn decode(bytes: &[u8]) -> (r: Result<Point, Error>) {
        if bytes.len() < 2 * WORD_WIDTH {
            return Err(Error::Decode { expected: 2 * WORD_WIDTH, actual: bytes.len() });
        }
        Ok(Point { x: read_int(bytes, 0), y: read_int(bytes, 4) })
    }

    proof fn lemma_width(v: Point) {
        lemma_pair_round_trip(v.x, v.y, Seq::empty());
    }

    proof fn lemma_decoding_defined(bytes: Seq<u8>) {
    }

    proof fn lemma_round_trip(v: Point, rest: Seq<u8>) {
        lemma_pair_round_trip(v.x, v.y, rest);
    }

    proof fn lemma_canonical(bytes: Seq<u8>) {
        lemma_pair_canonical(bytes);
    }
}

impl Value for Rect {
    open spec fn width() -> nat {
        16
    }

    open spec fn encoding(&self) -> Seq<u8> {
        quad_bytes(self.left, self.right, self.top, self.bottom)
    }

    open spec fn decoding(bytes: Seq<u8>) -> Option<Rect> {
        if bytes.len() >= 16 {
            Some(
                Rect {
                    left: int_at(bytes, 0),
                    right: int_at(bytes, 4),
                    top: int_at(bytes, 8),
                    bottom: int_at(bytes, 12),
                },
            )
        } else {
            None
        }
    }

    fn encoded_size(&self) -> (size: usize) {
        proof {
            lemma_quad_round_trip(self.left, self.right, self.top, self.bottom, Seq::empty());
        }
        4 * WORD_WIDTH
    }

    fn encode(&self) -> (bytes: Vec<u8>) {
        let mut bytes: Vec<u8> = Vec::new();
        push_int(&mut bytes, self.left);
        push_int(&mut bytes, self.right);
        push_int(&mut bytes, self.top);
        push_int(&mut bytes, self.bottom);
        assert(bytes@ =~= self.encoding());
        bytes
    }

    fn decode(bytes: &[u8]) -> (r: Result<Rect, Error>) {
        if bytes.len() < 4 * WORD_WIDTH {
            return Err(Error::Decode { expected: 4 * WORD_WIDTH, actual: bytes.len() });
        }
        Ok(
            Rect {
                left: read_int(bytes, 0),
                right: read_int(bytes, 4),
                top: read_int(bytes, 8),
                bottom: read_int(bytes, 12),
            },
        )
    }

    proof fn lemma_width(v: Rect) {
        lemma_quad_round_trip(v.left, v.right, v.top, v.bottom, Seq::empty());
    }

    proof fn lemma_decoding_defined(bytes: Seq<u8>) {
    }

    proof fn lemma_round_trip(v: Rect, rest: Seq<u8>) {
        lemma_quad_round_trip(v.left, v.right, v.top, v.bottom, rest);
    }

    proof fn lemma_canonical(bytes: Seq<u8>) {
        lemma_quad_canonical(bytes);
    }
}

impl Value for (Point, Point) {
    open spec fn width() -> nat {
        16
    }

    open spec fn encoding(&self) -> Seq<u8> {
        quad_bytes(self.0.x, self.0.y, self.1.x, self.1.y)
    }

    open spec fn decoding(bytes: Seq<u8>) -> Option<(Point, Point)> {
        if bytes.len() >= 16 {
            Some(
                (
                    Point { x: int_at(bytes, 0), y: int_at(bytes, 4) },
                    Point { x: int_at(bytes, 8), y: int_at(bytes, 12) },
                ),
            )
        } else {
            None
        }
    }

    fn encoded_size(&self) -> (size: usize) {
        proof {
            lemma_quad_round_trip(self.0.x, self.0.y, self.1.x, self.1.y, Seq::empty());
        }
        4 * WORD_WIDTH
    }

    fn encode(&self) -> (bytes: Vec<u8>) {
        let mut bytes: Vec<u8> = Vec::new();
        push_int(&mut bytes, self.0.x);
        push_int(&mut bytes, self.0.y);
        push_int(&mut bytes, self.1.x);
        push_int(&mut bytes, self.1.y);
        assert(bytes@ =~= self.encoding());
        bytes
    }

    fn decode(bytes: &[u8]) -> (r: Result<(Point, Point), Error>) {
        if bytes.len() < 4 * WORD_WIDTH {
            return Err(Error::Decode { expected: 4 * WORD_WIDTH, actual: bytes.len() });
        }
        Ok(
            (
                Point { x: read_int(bytes, 0), y: read_int(bytes, 4) },
                Point { x: read_int(bytes, 8), y: read_int(bytes, 12) },
            ),
        )
    }

    proof fn lemma_width(v: (Point, Point)) {
        lemma_quad_round_trip(v.0.x, v.0.y, v.1.x, v.1.y, Seq::empty());
    }

    proof fn lemma_decoding_defined(bytes: Seq<u8>) {
    }

    proof fn lemma_round_trip(v: (Point, Point), rest: Seq<u8>) {
        lemma_quad_round_trip(v.0.x, v.0.y, v.1.x, v.1.y, rest);
    }

    proof fn lemma_canonical(bytes: Seq<u8>) {
        lemma_quad_canonical(bytes);
    }
}

} // verus!
