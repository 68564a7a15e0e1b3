//! The failures of a boundary call.

use vstd::prelude::*;

verus! {

/// Why a boundary call, or one of its steps, failed. Each variant carries the
/// values that caused it.
#[derive(Clone, Copy, Debug, PartialEq, Eq, Structural)]
pub enum Error {
    /// A value's encoding has `size` bytes, which the 32-bit size argument of
    /// a reservation cannot express.
    Encode { size: usize },
    /// A byte sequence of `actual` bytes is too short for a value whose
    /// encoding takes `expected` bytes.
    Decode { expected: usize, actual: usize },
    /// The guest did not reserve a buffer of the `requested` size: it granted
    /// `granted` bytes, or nothing at all.
    Reservation { requested: u32, granted: u32 },
    /// A write of `length` bytes at `pointer` does not lie within the
    /// `extent` of linear memory.
    MemoryWrite { pointer: u32, length: usize, extent: usize },
    /// A read of `length` bytes at `pointer` does not lie within the `extent`
    /// of linear memory, or not within the buffer that is reserved there.
    MemoryRead { pointer: u32, length: usize, extent: usize },
    /// An address or a size does not fit in the 32 bits that a packed
    /// address has for it.
    PackingOverflow { address: usize, size: usize },
}

} // verus!
