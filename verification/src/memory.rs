//! Bounds-checked access to linear memory.
//!
//! Linear memory is one array of bytes that belongs to the guest. The host
//! sees it as a slice that is good for the length of one call, and reads or
//! writes a region of it only after checking the region against the slice's
//! extent. An access that does not fit fails; it is never cut short.

use vstd::prelude::*;
use crate::error::Error;

verus! {

/// Whether `length` bytes at `pointer` lie within a memory of `extent` bytes.
pub open spec fn within(pointer: u32, length: nat, extent: nat) -> bool {
    pointer + length <= extent
}

/// The `length` bytes of `memory` that start at `pointer`.
pub open spec fn region(memory: Seq<u8>, pointer: u32, length: nat) -> Seq<u8> {
    memory.subrange(pointer as int, pointer + length)
}

/// The memory after `bytes` were written at `pointer`: those bytes in their
/// place, every other byte as it was.
pub open spec fn overwritten(memory: Seq<u8>, pointer: u32, bytes: Seq<u8>) -> Seq<u8> {
    Seq::new(
        memory.len(),
        |i: int|
            if pointer <= i < pointer + bytes.len() {
                bytes[i - pointer]
            } else {
                memory[i]
            },
    )
}

/// Copies `length` bytes out of `memory`, starting at `pointer`. Fails where
/// the region does not lie within the memory.
pub fn read_region(memory: &[u8], pointer: u32, length: u32) -> (r: Result<Vec<u8>, Error>)
    ensures
        match r {
            Ok(bytes) => within(pointer, length as nat, memory@.len()) && bytes@ == region(
                memory@,
                pointer,
                length as nat,
            ),
            Err(e) => !within(pointer, length as nat, memory@.len()) && e == (Error::MemoryRead {
                pointer,
                length: length as usize,
                extent: memory@.len() as usize,
            }),
        },
{
    let extent: usize = memory.len();
    if pointer as u64 + length as u64 > extent as u64 {
        return Err(Error::MemoryRead { pointer, length: length as usize, extent });
    }
    let start: usize = pointer as usize;
    let count: usize = length as usize;
    let mut bytes: Vec<u8> = Vec::with_capacity(count);
    let mut i: usize = 0;
    while i < count
        invariant
            start + count <= extent,
            extent == memory@.len(),
            i <= count,
            bytes@ == memory@.subrange(start as int, start + i),
        decreases count - i,
    {
        bytes.push(memory[start + i]);
        i += 1;
        assert(bytes@ =~= memory@.subrange(start as int, start + i));
    }
    Ok(bytes)
}

/// Writes `bytes` into `memory`, starting at `pointer`. Fails, and leaves the
/// memory as it was, where the region does not lie within the memory.
pub fn write_region(memory: &mut [u8], pointer: u32, bytes: &[u8]) -> (r: Result<(), Error>)
    ensures
        match r {
            Ok(_) => within(pointer, bytes@.len(), old(memory)@.len()) && final(memory)@
                == overwritten(old(memory)@, pointer, bytes@),
            Err(e) => !within(pointer, bytes@.len(), old(memory)@.len()) && final(memory)@ == old(
                memory,
            )@ && e == (Error::MemoryWrite {
                pointer,
                length: bytes@.len() as usize,
                extent: old(memory)@.len() as usize,
            }),
        },
{
    let extent: usize = memory.len();
    let count: usize = bytes.len();
    if pointer as u64 > extent as u64 || count as u64 > extent as u64 - pointer as u64 {
        return Err(Error::MemoryWrite { pointer, length: count, extent });
    }
    let start: usize = pointer as usize;
    let mut i: usize = 0;
    while i < count
        invariant
            start == pointer,
            count == bytes@.len(),
            start + count <= extent,
            extent == old(memory)@.len(),
            i <= count,
            memory@ == overwritten(old(memory)@, pointer, bytes@.subrange(0, i as int)),
        decreases count - i,
    {
        memory[start + i] = bytes[i];
        i += 1;
        assert(memory@ =~= overwritten(old(memory)@, pointer, bytes@.subrange(0, i as int)));
    }
    assert(bytes@.subrange(0, count as int) =~= bytes@);
    Ok(())
}

/// What was written to a region is what is read from it; the memory keeps
/// its extent, and no byte outside the region changes.
pub proof fn lemma_read_after_write(memory: Seq<u8>, pointer: u32, bytes: Seq<u8>)
    requires
        within(pointer, bytes.len(), memory.len()),
    ensures
        overwritten(memory, pointer, bytes).len() == memory.len(),
        region(overwritten(memory, pointer, bytes), pointer, bytes.len()) == bytes,
        forall|i: int|
            0 <= i < memory.len() && !(pointer <= i < pointer + bytes.len())
                ==> overwritten(memory, pointer, bytes)[i] == memory[i],
{
    assert(region(overwritten(memory, pointer, bytes), pointer, bytes.len()) =~= bytes);
}

/// A later write leaves an earlier region as it was, where the two regions
/// do not overlap.
pub proof fn lemma_disjoint_write(
    memory: Seq<u8>,
    pointer: u32,
    length: nat,
    other: u32,
    bytes: Seq<u8>,
)
    requires
        within(pointer, length, memory.len()),
        within(other, bytes.len(), memory.len()),
        pointer + length <= other || other + bytes.len() <= pointer,
    ensures
        region(overwritten(memory, other, bytes), pointer, length) == region(
            memory,
            pointer,
            length,
        ),
{
    assert(region(overwritten(memory, other, bytes), pointer, length) =~= region(
        memory,
        pointer,
        length,
    ));
}

} // verus!
