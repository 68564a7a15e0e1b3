//! Marshaling of structured values across a WebAssembly module boundary.
//!
//! A WebAssembly export takes and returns scalars only. This crate holds the
//! pieces that let a host and a guest exchange whole values through the
//! guest's linear memory: a fixed-width byte encoding ([`codec`]), the packing
//! of a buffer's address and length into one 64-bit scalar ([`packing`]),
//! bounds-checked access to linear memory ([`memory`]), the guest's buffer
//! reservation and compute entry point ([`guest`]), and the order of calls
//! that the host follows ([`protocol`]).

pub mod codec;
pub mod error;
pub mod geometry;
pub mod guest;
pub mod memory;
pub mod packing;
pub mod protocol;

pub use codec::Value;
pub use error::Error;
pub use geometry::{add, bounding_rect, Point, Rect};
pub use guest::{do_compute, prepare_buffer, Guest};
pub use memory::{read_region, write_region};
pub use packing::{pack, to_scalar, to_word, try_pack, unpack};
pub use protocol::{call, step, Action, Event, Phase};
