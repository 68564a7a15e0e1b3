//! The guest's side of a boundary call: buffer reservation and the compute
//! entry point.
//!
//! [`prepare_buffer`] and [`do_compute`] are what a guest module builds its
//! two exports from. [`Guest`] is a guest instance with its linear memory
//! held as a byte vector: it offers the same two exports and the host's view
//! of its memory, so that a whole call can run without a WebAssembly engine.

use vstd::prelude::*;
use crate::codec::Value;
use crate::error::Error;
use crate::geometry::{bounding_rect, spanned_rect, Point, Rect};
use crate::memory::{
    lemma_read_after_write, overwritten, read_region, region, within, write_region,
};
use crate::packing::{length_of, pack, packed, to_word, unsigned};

verus! {

/// Calls `wasi_binio_wasm::wasm_prepare_buffer`, which allocates a buffer of
/// `size` bytes and returns its address and `size` as one packed scalar.
///
/// Assumed of it: the low 32 bits of the result hold `size`. Nothing is
/// assumed of the address in the high 32 bits, which is the allocator's to
/// choose. It panics on a negative size, which `requires` leaves out, and
/// like every allocation it ends the process where no memory is to be had.
#[verifier::external_body]
fn wasm_prepare_buffer(size: i32) -> (address: i64)
    requires
        size >= 0,
    ensures
        length_of(address) == size,
{
    wasi_binio_wasm::wasm_prepare_buffer(size)
}

/// Reserves a buffer of `buffer_size` bytes in the guest's own memory and
/// returns its packed address, whose length is the requested size.
///
/// A guest that cannot provide the memory traps; there is no error to
/// return across the boundary.
pub fn prepare_buffer(buffer_size: i32) -> (address: i64)
    requires
        buffer_size >= 0,
    ensures
        length_of(address) == buffer_size,
{
    wasm_prepare_buffer(buffer_size)
}

/// The width in bytes of the compute export's argument and of its result:
/// two points go in, one rectangle comes out.
pub const COMPUTE_WIDTH: u32 = 16;

/// The computation behind the compute export, from the bytes of the argument
/// buffer to the bytes of the result buffer: decodes two points and encodes
/// the rectangle that they span. Fails exactly where the input is too short
/// to hold two points.
pub fn do_compute(input: &[u8]) -> (r: Result<Vec<u8>, Error>)
    ensures
        match r {
            Ok(output) => <(Point, Point) as Value>::decoding(input@) matches Some(points)
                && output@ == spanned_rect(points.0, points.1).encoding(),
            Err(e) => <(Point, Point) as Value>::decoding(input@) is None && e == (Error::Decode {
                expected: COMPUTE_WIDTH as usize,
                actual: input@.len() as usize,
            }),
        },
{
    match <(Point, Point) as Value>::decode(input) {
        Ok(points) => {
            let rect: Rect = bounding_rect(points.0, points.1);
            Ok(rect.encode())
        },
        Err(e) => Err(e),
    }
}

/// What a guest instance is, as far as a boundary call can tell.
///
/// The guest keeps an arena with a single slot, which starts at `base`. A
/// reservation puts the slot's length in `slot` and replaces what was there;
/// nothing is ever released. The memory grows where a reservation needs it
/// to, and never beyond `limit` bytes.
pub ghost struct GuestView {
    pub memory: Seq<u8>,
    pub base: u32,
    pub limit: u32,
    pub slot: Option<u32>,
}

/// The memory grown to `extent` bytes, the new bytes zero; unchanged where
/// it has that many already.
pub open spec fn grown(memory: Seq<u8>, extent: nat) -> Seq<u8> {
    if memory.len() >= extent {
        memory
    } else {
        memory + Seq::new((extent - memory.len()) as nat, |i: int| 0u8)
    }
}

impl GuestView {
    /// The memory does not exceed its limit, and the reserved buffer lies
    /// within it.
    pub open spec fn wf(self) -> bool {
        &&& self.memory.len() <= self.limit
        &&& self.slot matches Some(length) ==> self.base + length <= self.memory.len()
    }

    /// Whether the arena can hold a buffer of `size` bytes.
    pub open spec fn fits(self, size: int) -> bool {
        0 <= size && self.base + size <= self.limit
    }

    /// Whether `length` bytes at `pointer` are the buffer that is reserved.
    pub open spec fn holds(self, pointer: u32, length: u32) -> bool {
        pointer == self.base && self.slot == Some(length)
    }

    /// The guest after it reserved `size` bytes.
    pub open spec fn reserved(self, size: u32) -> GuestView {
        GuestView {
            memory: grown(self.memory, (self.base + size) as nat),
            slot: Some(size),
            ..self
        }
    }

    /// The guest after `bytes` were written to its memory at `pointer`.
    pub open spec fn written(self, pointer: u32, bytes: Seq<u8>) -> GuestView {
        GuestView { memory: overwritten(self.memory, pointer, bytes), ..self }
    }

    /// Whether the compute export finds its argument: the buffer is the one
    /// that is reserved, and it lies within the memory.
    pub open spec fn readable(self, pointer: u32, length: u32) -> bool {
        self.holds(pointer, length) && within(pointer, length as nat, self.memory.len())
    }

    /// What the compute export returns when it is called with the buffer of
    /// `length` bytes at `pointer`.
    pub open spec fn compute_result(self, pointer: u32, length: u32) -> Result<i64, Error> {
        if !self.readable(pointer, length) {
            Err(
                Error::MemoryRead {
                    pointer,
                    length: length as usize,
                    extent: self.memory.len() as usize,
                },
            )
        } else if length < COMPUTE_WIDTH {
            Err(Error::Decode { expected: COMPUTE_WIDTH as usize, actual: length as usize })
        } else if !self.fits(COMPUTE_WIDTH as int) {
            Err(Error::Reservation { requested: COMPUTE_WIDTH, granted: 0 })
        } else {
            Ok(packed(self.base, COMPUTE_WIDTH) as i64)
        }
    }

    /// The guest after its compute export was called with the buffer of
    /// `length` bytes at `pointer`: unchanged where the call failed.
    pub open spec fn compute_state(self, pointer: u32, length: u32) -> GuestView {
        if self.compute_result(pointer, length) is Ok {
            self.computed(
                <(Point, Point) as Value>::decoding(region(self.memory, pointer, length as nat))->0,
            )
        } else {
            self
        }
    }

    /// The guest after its compute export ran on a reserved buffer that
    /// holds the encoding of `points`: the result's encoding is in the slot.
    pub open spec fn computed(self, points: (Point, Point)) -> GuestView {
        self.reserved(COMPUTE_WIDTH).written(
            self.base,
            spanned_rect(points.0, points.1).encoding(),
        )
    }
}

/// A guest instance whose linear memory is a byte vector.
pub struct Guest {
    memory: Vec<u8>,
    base: u32,
    limit: u32,
    slot: Option<u32>,
}

impl View for Guest {
    type V = GuestView;

    closed spec fn view(&self) -> GuestView {
        GuestView { memory: self.memory@, base: self.base, limit: self.limit, slot: self.slot }
    }
}

impl Guest {
    /// A guest with empty memory and nothing reserved, whose arena starts at
    /// `base` and whose memory may grow to `limit` bytes.
    pub fn new(base: u32, limit: u32) -> (guest: Guest)
        ensures
            guest@ == (GuestView { memory: Seq::empty(), base, limit, slot: None }),
            guest@.wf(),
    {
        Guest { memory: Vec::new(), base, limit, slot: None }
    }

    /// The current extent of the linear memory, in bytes.
    pub fn extent(&self) -> (extent: usize)
        ensures
            extent == self@.memory.len(),
    {
        self.memory.len()
    }

    /// The reserve export. Reserves `size` bytes in the arena's slot, growing
    /// the memory where it must, and returns the slot's packed address.
    ///
    /// Fails, as a guest would trap, where `size` is negative or the slot
    /// would end beyond the memory's limit; the guest is then unchanged.
    pub fn reserve(&mut self, size: i32) -> (r: Result<i64, Error>)
        ensures
            match r {
                Ok(address) => old(self)@.fits(size as int) && address == packed(
                    old(self)@.base,
                    size as u32,
                ) && final(self)@ == old(self)@.reserved(size as u32),
                Err(e) => !old(self)@.fits(size as int) && final(self)@ == old(self)@ && e == (
                Error::Reservation { requested: unsigned(size) as u32, granted: 0 }),
            },
    {
        if size < 0 || self.base as u64 + size as u64 > self.limit as u64 {
            return Err(Error::Reservation { requested: to_word(size), granted: 0 });
        }
        let length: u32 = size as u32;
        let end: usize = (self.base + length) as usize;
        while self.memory.len() < end
            invariant
                end <= self.limit,
                self.base == old(self).base,
                self.limit == old(self).limit,
                self.slot == old(self).slot,
                old(self).memory@.len() <= self.memory@.len(),
                self.memory@.len() <= end || self.memory@ == old(self).memory@,
                self.memory@ == grown(old(self).memory@, self.memory@.len()),
            decreases end - self.memory@.len(),
        {
            self.memory.push(0u8);
            assert(self.memory@ =~= grown(old(self).memory@, self.memory@.len()));
        }
        self.slot = Some(length);
        assert(self.memory@ =~= grown(old(self).memory@, end as nat));
        Ok(pack(self.base, length))
    }

    /// The host's write into the guest's memory: `bytes` are stored at
    /// `pointer`. Fails, and leaves the memory as it was, where they do not
    /// lie within its current extent.
    pub fn write(&mut self, pointer: u32, bytes: &[u8]) -> (r: Result<(), Error>)
        ensures
            match r {
                Ok(_) => within(pointer, bytes@.len(), old(self)@.memory.len()) && final(self)@
                    == old(self)@.written(pointer, bytes@),
                Err(e) => !within(pointer, bytes@.len(), old(self)@.memory.len()) && final(self)@
                    == old(self)@ && e == (Error::MemoryWrite {
                    pointer,
                    length: bytes@.len() as usize,
                    extent: old(self)@.memory.len() as usize,
                }),
            },
    {
        write_region(self.memory.as_mut_slice(), pointer, bytes)
    }

    /// The host's read of the guest's memory: a copy of the `length` bytes
    /// at `pointer`. Fails where they do not lie within its current extent.
    pub fn read(&self, pointer: u32, length: u32) -> (r: Result<Vec<u8>, Error>)
        ensures
            match r {
                Ok(bytes) => within(pointer, length as nat, self@.memory.len()) && bytes@
                    == region(self@.memory, pointer, length as nat),
                Err(e) => !within(pointer, length as nat, self@.memory.len()) && e == (
                Error::MemoryRead {
                    pointer,
                    length: length as usize,
                    extent: self@.memory.len() as usize,
                }),
            },
    {
        read_region(self.memory.as_slice(), pointer, length)
    }

    /// The compute export. Takes the two scalars that name the argument
    /// buffer, reads two points from it, and leaves the encoding of the
    /// rectangle that they span in a newly reserved buffer, whose packed
    /// address it returns.
    ///
    /// The buffer must be the one that is reserved: any other pointer or
    /// length fails as a memory read, and no byte is looked at. A reserved
    /// buffer too short for two points fails as a decode. A failure leaves
    /// the guest unchanged.
    pub fn compute(&mut self, ptr: i32, len: i32) -> (r: Result<i64, Error>)
        ensures
            r == old(self)@.compute_result(unsigned(ptr) as u32, unsigned(len) as u32),
            final(self)@ == old(self)@.compute_state(unsigned(ptr) as u32, unsigned(len) as u32),
    {
        let pointer: u32 = to_word(ptr);
        let length: u32 = to_word(len);
        let reserved: bool = match self.slot {
            Some(held) => pointer == self.base && held == length,
            None => false,
        };
        if !reserved {
            return Err(
                Error::MemoryRead { pointer, length: length as usize, extent: self.memory.len() },
            );
        }
        let input: Vec<u8> = match read_region(self.memory.as_slice(), pointer, length) {
            Ok(bytes) => bytes,
            Err(e) => {
                return Err(e);
            },
        };
        let output: Vec<u8> = match do_compute(input.as_slice()) {
            Ok(bytes) => bytes,
            Err(e) => {
                return Err(e);
            },
        };
        proof {
            let points = <(Point, Point) as Value>::decoding(input@)->0;
            <Rect as Value>::lemma_width(spanned_rect(points.0, points.1));
        }
        let address: i64 = match self.reserve(COMPUTE_WIDTH as i32) {
            Ok(address) => address,
            Err(e) => {
                return Err(e);
            },
        };
        let stored = write_region(self.memory.as_mut_slice(), self.base, output.as_slice());
        assert(stored is Ok);
        Ok(address)
    }
}

/// A reservation that fits leaves a well-formed guest well formed, and the
/// reserved buffer lies within its memory.
pub proof fn lemma_reserved_wf(g: GuestView, size: u32)
    requires
        g.wf(),
        g.fits(size as int),
    ensures
        g.reserved(size).wf(),
        g.reserved(size).holds(g.base, size),
        within(g.base, size as nat, g.reserved(size).memory.len()),
{
}

/// A write leaves a well-formed guest well formed: the memory keeps its
/// extent.
pub proof fn lemma_written_wf(g: GuestView, pointer: u32, bytes: Seq<u8>)
    requires
        g.wf(),
    ensures
        g.written(pointer, bytes).wf(),
        g.written(pointer, bytes).memory.len() == g.memory.len(),
{
}

/// A call of the compute export leaves a well-formed guest well formed,
/// whether it succeeds or fails.
pub proof fn lemma_compute_wf(g: GuestView, pointer: u32, length: u32)
    requires
        g.wf(),
    ensures
        g.compute_state(pointer, length).wf(),
{
}

/// After a reservation, what is written to the reserved buffer is what is
/// read from it, byte for byte, for a buffer of any size that fits.
pub proof fn lemma_reserve_write_read(g: GuestView, size: u32, bytes: Seq<u8>)
    requires
        g.fits(size as int),
        bytes.len() == size,
    ensures
        within(g.base, bytes.len(), g.reserved(size).memory.len()),
        region(g.reserved(size).written(g.base, bytes).memory, g.base, size as nat) == bytes,
{
    lemma_read_after_write(g.reserved(size).memory, g.base, bytes);
}

/// The compute export refuses a pointer and length that are not those of
/// the reserved buffer: it fails as a memory read and changes nothing,
/// whatever the memory holds at that place.
pub proof fn lemma_compute_checks_buffer(g: GuestView, pointer: u32, length: u32)
    requires
        !g.holds(pointer, length),
    ensures
        g.compute_result(pointer, length) == Err::<i64, Error>(
            Error::MemoryRead {
                pointer,
                length: length as usize,
                extent: g.memory.len() as usize,
            },
        ),
        g.compute_state(pointer, length) == g,
{
}

/// On a reserved buffer that holds the encoding of two points, in a guest
/// whose arena has room for the result, the compute export succeeds; the
/// buffer at the address that it returns holds the encoding of the
/// rectangle that the points span.
pub proof fn lemma_compute_result(g: GuestView, points: (Point, Point))
    requires
        g.readable(g.base, COMPUTE_WIDTH),
        g.fits(COMPUTE_WIDTH as int),
        region(g.memory, g.base, COMPUTE_WIDTH as nat) == points.encoding(),
    ensures
        g.compute_result(g.base, COMPUTE_WIDTH) == Ok::<i64, Error>(
            packed(g.base, COMPUTE_WIDTH) as i64,
        ),
        g.compute_state(g.base, COMPUTE_WIDTH) == g.computed(points),
        within(g.base, COMPUTE_WIDTH as nat, g.computed(points).memory.len()),
        region(g.computed(points).memory, g.base, COMPUTE_WIDTH as nat) == spanned_rect(
            points.0,
            points.1,
        ).encoding(),
{
    <(Point, Point) as Value>::lemma_round_trip(points, Seq::empty());
    assert(points.encoding() + Seq::<u8>::empty() =~= points.encoding());
    let rect = spanned_rect(points.0, points.1);
    <Rect as Value>::lemma_width(rect);
    lemma_read_after_write(g.reserved(COMPUTE_WIDTH).memory, g.base, rect.encoding());
}

} // verus!
