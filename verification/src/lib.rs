//! A software data-link layer that carries bit strings over an acoustic channel.
//!
//! The physical side frames bits into audio frames of BPSK symbols; the link side
//! wraps them into addressed, checksummed frames and runs a CSMA/CA state machine
//! with stop-and-wait acknowledgements. Everything here is pure: audio, clocks and
//! channels stay with the caller, who hands their results in as plain values.
//!
//! - [`bits`], [`chunks`], [`wire`]: bit strings, their pieces, and fields in them.
//! - [`ather`], [`decode`], [`input`]: the physical layer, on the level of symbols.
//! - [`frame`]: link frames and their layout in bits.
//! - [`backoff`], [`jar`], [`timer`], [`daemon`]: the CSMA/CA state machine.
//! - [`socket`]: what the reading and the writing handle compute.
//! - [`laws`]: what holds across these.

pub mod ather;
pub mod backoff;
pub mod bits;
pub mod chunks;
pub mod consts;
pub mod daemon;
pub mod decode;
pub mod error;
pub mod frame;
pub mod input;
pub mod jar;
pub mod laws;
pub mod socket;
pub mod timer;
pub mod wire;
