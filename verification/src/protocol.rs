//! The order of calls by which the host passes a value to the guest and gets
//! one back.
//!
//! One call runs through six steps: size the argument, reserve a buffer for
//! it, write it there, call the compute export, read the result buffer, and
//! decode it. [`step`] decides what comes next from what has happened so
//! far; whoever drives a guest performs the action and reports back.
//! [`call`] drives a [`Guest`] in this way.

use vstd::prelude::*;
use crate::codec::Value;
use crate::error::Error;
use crate::geometry::{spanned_rect, Point, Rect};
use crate::guest::{lemma_compute_result, Guest, GuestView, COMPUTE_WIDTH};
use crate::memory::{lemma_read_after_write, region, within};
use crate::packing::{lemma_unpack_pack, length_of, packed, pointer_of, signed, to_scalar, unpack};

verus! {

/// How far a call has come.
#[derive(Clone, Copy, Debug, PartialEq, Eq, Structural)]
pub enum Phase {
    /// No call is in flight.
    Idle,
    /// The reserve export was asked for `size` bytes.
    Requested { size: u32 },
    /// The argument buffer is reserved.
    Reserved { pointer: u32, length: u32 },
    /// The argument is in its buffer.
    Written { pointer: u32, length: u32 },
    /// The compute export returned the result buffer.
    Computed { pointer: u32, length: u32 },
    /// The result's bytes are with the host.
    ReadBack,
}

/// What happened outside since the last step.
#[derive(Clone, Copy, Debug, PartialEq, Eq, Structural)]
pub enum Event {
    /// The host has an argument to send, whose encoding takes `size` bytes.
    Begin { size: usize },
    /// An export returned this packed address.
    Returned { address: i64 },
    /// The argument was written to linear memory.
    Wrote,
    /// The result buffer was read from linear memory.
    Fetched,
    /// The result was decoded.
    Decoded,
    /// The action failed: an export is missing or trapped, a region is out
    /// of bounds, or the result does not decode.
    Failed { error: Error },
}

/// What the driver is to do next.
#[derive(Clone, Copy, Debug, PartialEq, Eq, Structural)]
pub enum Action {
    /// Call the reserve export with `size`, and report what it returns.
    Reserve { size: i32 },
    /// Write the argument's encoding, of `length` bytes, at `pointer`.
    Write { pointer: u32, length: u32 },
    /// Call the compute export with these two scalars, and report what it
    /// returns.
    Compute { ptr: i32, len: i32 },
    /// Read `length` bytes at `pointer`.
    Read { pointer: u32, length: u32 },
    /// Decode the bytes that were read.
    Decode,
    /// Hand the decoded result to the caller: the call is complete.
    Finish,
    /// Give up the call with this error.
    Abort { error: Error },
    /// The event does not belong to this phase; nothing has changed.
    Reject,
}

/// The phase that follows `phase` on `event`, and the action to perform.
pub open spec fn transition(phase: Phase, event: Event) -> (Phase, Action) {
    match (phase, event) {
        (Phase::Idle, Event::Begin { size }) => if size <= i32::MAX {
            (Phase::Requested { size: size as u32 }, Action::Reserve { size: size as i32 })
        } else {
            (Phase::Idle, Action::Abort { error: Error::Encode { size } })
        },
        (Phase::Requested { size }, Event::Returned { address }) => if length_of(address) == size {
            (
                Phase::Reserved { pointer: pointer_of(address), length: size },
                Action::Write { pointer: pointer_of(address), length: size },
            )
        } else {
            (
                Phase::Idle,
                Action::Abort {
                    error: Error::Reservation { requested: size, granted: length_of(address) },
                },
            )
        },
        (Phase::Reserved { pointer, length }, Event::Wrote) => (
            Phase::Written { pointer, length },
            Action::Compute { ptr: signed(pointer) as i32, len: signed(length) as i32 },
        ),
        (Phase::Written { .. }, Event::Returned { address }) => (
            Phase::Computed { pointer: pointer_of(address), length: length_of(address) },
            Action::Read { pointer: pointer_of(address), length: length_of(address) },
        ),
        (Phase::Computed { .. }, Event::Fetched) => (Phase::ReadBack, Action::Decode),
        (Phase::ReadBack, Event::Decoded) => (Phase::Idle, Action::Finish),
        (Phase::Idle, Event::Failed { .. }) => (Phase::Idle, Action::Reject),
        (_, Event::Failed { error }) => (Phase::Idle, Action::Abort { error }),
        _ => (phase, Action::Reject),
    }
}

/// The place of a phase in the order of a call.
pub open spec fn rank(phase: Phase) -> nat {
    match phase {
        Phase::Idle => 0,
        Phase::Requested { .. } => 1,
        Phase::Reserved { .. } => 2,
        Phase::Written { .. } => 3,
        Phase::Computed { .. } => 4,
        Phase::ReadBack => 5,
    }
}

/// Decides the next phase and the next action from the current phase and
/// what has just happened.
pub fn step(phase: Phase, event: Event) -> (next: (Phase, Action))
    ensures
        next == transition(phase, event),
{
    match (phase, event) {
        (Phase::Idle, Event::Begin { size }) => {
            if size <= 0x7fff_ffff {
                (Phase::Requested { size: size as u32 }, Action::Reserve { size: size as i32 })
            } else {
                (Phase::Idle, Action::Abort { error: Error::Encode { size } })
            }
        },
        (Phase::Requested { size }, Event::Returned { address }) => {
            let (pointer, length) = unpack(address);
            if length == size {
                (Phase::Reserved { pointer, length }, Action::Write { pointer, length })
            } else {
                (
                    Phase::Idle,
                    Action::Abort { error: Error::Reservation { requested: size, granted: length } },
                )
            }
        },
        (Phase::Reserved { pointer, length }, Event::Wrote) => (
            Phase::Written { pointer, length },
            Action::Compute { ptr: to_scalar(pointer), len: to_scalar(length) },
        ),
        (Phase::Written { .. }, Event::Returned { address }) => {
            let (pointer, length) = unpack(address);
            (Phase::Computed { pointer, length }, Action::Read { pointer, length })
        },
        (Phase::Computed { .. }, Event::Fetched) => (Phase::ReadBack, Action::Decode),
        (Phase::ReadBack, Event::Decoded) => (Phase::Idle, Action::Finish),
        (Phase::Idle, Event::Failed { .. }) => (Phase::Idle, Action::Reject),
        (_, Event::Failed { error }) => (Phase::Idle, Action::Abort { error }),
        _ => (phase, Action::Reject),
    }
}

/// While a call is in flight no other can begin: the event is rejected and
/// the call in flight is not disturbed.
pub proof fn lemma_one_call_at_a_time(phase: Phase, size: usize)
    requires
        phase != Phase::Idle,
    ensures
        transition(phase, Event::Begin { size }) == (phase, Action::Reject),
{
}

/// A failure ends the call in flight at once, with the error that was
/// reported, and leaves the guest free for the next call.
pub proof fn lemma_failure_aborts(phase: Phase, error: Error)
    requires
        phase != Phase::Idle,
    ensures
        transition(phase, Event::Failed { error }) == (Phase::Idle, Action::Abort { error }),
{
}

/// The steps of a call come in one order: an event that is accepted moves
/// the call to the next phase, the last one back to idle. Any other event
/// is rejected and changes nothing, or aborts the call.
pub proof fn lemma_steps_in_order(phase: Phase, event: Event)
    ensures
        match transition(phase, event).1 {
            Action::Reject => transition(phase, event).0 == phase,
            Action::Abort { .. } => transition(phase, event).0 == Phase::Idle,
            Action::Finish => phase == Phase::ReadBack && transition(phase, event).0
                == Phase::Idle,
            _ => rank(transition(phase, event).0) == rank(phase) + 1,
        },
{
}

/// The compute export is called only with the buffer that the guest
/// reserved for the argument, and only after the argument was written there:
/// its length is the size that was asked for.
pub proof fn lemma_compute_follows_write(phase: Phase, event: Event)
    requires
        transition(phase, event).1 is Compute,
    ensures
        event == Event::Wrote,
        phase matches Phase::Reserved { pointer, length } && transition(phase, event).1 == (
        Action::Compute { ptr: signed(pointer) as i32, len: signed(length) as i32 }),
{
}

/// What a call with `points` returns on a guest in state `g`: the rectangle
/// that the points span, or the failed reservation where the guest's arena
/// has no room for the argument.
pub open spec fn call_result(g: GuestView, points: (Point, Point)) -> Result<Rect, Error> {
    if g.fits(COMPUTE_WIDTH as int) {
        Ok(spanned_rect(points.0, points.1))
    } else {
        Err(Error::Reservation { requested: COMPUTE_WIDTH, granted: 0 })
    }
}

/// The guest after it was sent the argument of a call: the buffer is
/// reserved and holds the encoding of `points`.
pub open spec fn sent(g: GuestView, points: (Point, Point)) -> GuestView {
    g.reserved(COMPUTE_WIDTH).written(g.base, points.encoding())
}

/// The guest after a call with `points`: it holds the result in its reserved
/// buffer, or is unchanged where the call failed.
pub open spec fn call_state(g: GuestView, points: (Point, Point)) -> GuestView {
    if g.fits(COMPUTE_WIDTH as int) {
        sent(g, points).computed(points)
    } else {
        g
    }
}

/// Whether a driver that is in `phase` with `event` to report, on a guest
/// now in state `now`, is on the way of a call with `points` that began on a
/// guest in state `g`.
spec fn on_course(
    g: GuestView,
    points: (Point, Point),
    phase: Phase,
    event: Event,
    now: GuestView,
    fetched: Seq<u8>,
    result: Option<Rect>,
) -> bool {
    match phase {
        Phase::Idle => event == (Event::Begin { size: COMPUTE_WIDTH as usize }) && now == g,
        Phase::Requested { size } => size == COMPUTE_WIDTH && if g.fits(COMPUTE_WIDTH as int) {
            event == (Event::Returned { address: packed(g.base, COMPUTE_WIDTH) as i64 }) && now
                == g.reserved(COMPUTE_WIDTH)
        } else {
            event == (Event::Failed {
                error: Error::Reservation { requested: COMPUTE_WIDTH, granted: 0 },
            }) && now == g
        },
        Phase::Reserved { pointer, length } => pointer == g.base && length == COMPUTE_WIDTH
            && g.fits(COMPUTE_WIDTH as int) && event == Event::Wrote && now == sent(g, points),
        Phase::Written { pointer, length } => pointer == g.base && length == COMPUTE_WIDTH
            && g.fits(COMPUTE_WIDTH as int) && event == (Event::Returned {
            address: packed(g.base, COMPUTE_WIDTH) as i64,
        }) && now == call_state(g, points),
        Phase::Computed { pointer, length } => pointer == g.base && length == COMPUTE_WIDTH
            && g.fits(COMPUTE_WIDTH as int) && event == Event::Fetched && now == call_state(
            g,
            points,
        ) && fetched == spanned_rect(points.0, points.1).encoding(),
        Phase::ReadBack => g.fits(COMPUTE_WIDTH as int) && event == Event::Decoded && now
            == call_state(g, points) && result == Some(spanned_rect(points.0, points.1)),
    }
}

/// The guest that was sent its argument computes on it without failing, and
/// its result buffer holds the encoding of the spanned rectangle.
proof fn lemma_call_course(g: GuestView, points: (Point, Point))
    requires
        g.fits(COMPUTE_WIDTH as int),
    ensures
        points.encoding().len() == COMPUTE_WIDTH,
        within(g.base, COMPUTE_WIDTH as nat, g.reserved(COMPUTE_WIDTH).memory.len()),
        sent(g, points).compute_result(g.base, COMPUTE_WIDTH) == Ok::<i64, Error>(
            packed(g.base, COMPUTE_WIDTH) as i64,
        ),
        sent(g, points).compute_state(g.base, COMPUTE_WIDTH) == call_state(g, points),
        within(g.base, COMPUTE_WIDTH as nat, call_state(g, points).memory.len()),
        region(call_state(g, points).memory, g.base, COMPUTE_WIDTH as nat) == spanned_rect(
            points.0,
            points.1,
        ).encoding(),
        <Rect as Value>::decoding(spanned_rect(points.0, points.1).encoding()) == Some(
            spanned_rect(points.0, points.1),
        ),
{
    let rect = spanned_rect(points.0, points.1);
    <(Point, Point) as Value>::lemma_width(points);
    lemma_read_after_write(g.reserved(COMPUTE_WIDTH).memory, g.base, points.encoding());
    lemma_compute_result(sent(g, points), points);
    <Rect as Value>::lemma_round_trip(rect, Seq::empty());
    assert(rect.encoding() + Seq::<u8>::empty() =~= rect.encoding());
}

/// Calls that follow one another on one guest do not disturb each other.
/// Let a second piece of work reuse the address of the first call's buffers
/// for a payload of another size, and a second call follow: each call
/// returns the rectangle of its own points, and the second leaves its own
/// result at that address.
pub proof fn lemma_calls_in_sequence(
    g: GuestView,
    first: (Point, Point),
    size: u32,
    payload: Seq<u8>,
    second: (Point, Point),
)
    requires
        g.fits(COMPUTE_WIDTH as int),
        g.fits(size as int),
        payload.len() == size,
    ensures
        call_result(g, first) == Ok::<Rect, Error>(spanned_rect(first.0, first.1)),
        call_state(g, first).reserved(size).written(g.base, payload).base == g.base,
        call_result(call_state(g, first).reserved(size).written(g.base, payload), second) == Ok::<
            Rect,
            Error,
        >(spanned_rect(second.0, second.1)),
        region(
            call_state(call_state(g, first).reserved(size).written(g.base, payload), second).memory,
            g.base,
            COMPUTE_WIDTH as nat,
        ) == spanned_rect(second.0, second.1).encoding(),
{
    let between = call_state(g, first).reserved(size).written(g.base, payload);
    lemma_call_course(between, second);
}

/// Runs one call against `guest`: sends it `points`, has it compute, and
/// brings back the rectangle that the points span.
///
/// The result depends on the points alone, and on the room in the guest's
/// arena: whatever earlier calls left in the guest's memory has no part in
/// it. The only failure is a reservation that the arena cannot hold, which
/// leaves the guest unchanged.
pub fn call(guest: &mut Guest, points: &(Point, Point)) -> (r: Result<Rect, Error>)
    ensures
        r == call_result(old(guest)@, *points),
        final(guest)@ == call_state(old(guest)@, *points),
{
    let argument: Vec<u8> = points.encode();
    let mut fetched: Vec<u8> = Vec::new();
    let mut result: Option<Rect> = None;
    let mut phase: Phase = Phase::Idle;
    let mut event: Event = Event::Begin { size: points.encoded_size() };
    proof {
        <(Point, Point) as Value>::lemma_width(*points);
    }
    loop
        invariant
            argument@ == points.encoding(),
            on_course(old(guest)@, *points, phase, event, guest@, fetched@, result),
        decreases 6 - rank(phase),
    {
        proof {
            lemma_unpack_pack(old(guest)@.base, COMPUTE_WIDTH);
            if old(guest)@.fits(COMPUTE_WIDTH as int) {
                lemma_call_course(old(guest)@, *points);
            }
        }
        let (next, action) = step(phase, event);
        phase = next;
        match action {
            Action::Reserve { size } => {
                event = match guest.reserve(size) {
                    Ok(address) => Event::Returned { address },
                    Err(error) => Event::Failed { error },
                };
            },
            Action::Write { pointer, length } => {
                event = match guest.write(pointer, argument.as_slice()) {
                    Ok(_) => Event::Wrote,
                    Err(error) => Event::Failed { error },
                };
            },
            Action::Compute { ptr, len } => {
                event = match guest.compute(ptr, len) {
                    Ok(address) => Event::Returned { address },
                    Err(error) => Event::Failed { error },
                };
            },
            Action::Read { pointer, length } => {
                event = match guest.read(pointer, length) {
                    Ok(bytes) => {
                        fetched = bytes;
                        Event::Fetched
                    },
                    Err(error) => Event::Failed { error },
                };
            },
            Action::Decode => {
                event = match <Rect as Value>::decode(fetched.as_slice()) {
                    Ok(rect) => {
                        result = Some(rect);
                        Event::Decoded
                    },
                    Err(error) => Event::Failed { error },
                };
            },
            Action::Finish => {
                return Ok(result.unwrap());
            },
            Action::Abort { error } => {
                return Err(error);
            },
            Action::Reject => {
                return unreached();
            },
        }
    }
}

} // verus!
