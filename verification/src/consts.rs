//! The fixed numbers of the link: field widths, limits and timeouts.
//!
//! All durations are in milliseconds.

use vstd::prelude::*;

verus! {

/// Symbol-durations of the chirp that primes the audio hardware.
pub const WARMUP_LEN: usize = 8;

/// Symbol-durations of the chirp that every audio frame starts with.
pub const PREAMBLE_LEN: usize = 48;

/// Symbols of an audio frame's length field.
pub const LENGTH_LEN: usize = 7;

/// The most payload bits that one audio frame carries: `2^LENGTH_LEN - 1`.
pub const PAYLOAD_LEN: usize = 127;

/// Bits of a link frame's type tag.
pub const TYPE_BITS_LEN: usize = 2;

/// Bits of a link frame's flag field.
pub const FLAG_BITS_LEN: usize = 1;

/// Bits of an address.
pub const ADDRESS_BITS_LEN: usize = 4;

/// Bits of a sequence number.
pub const SEQ_BITS_LEN: usize = 12;

/// Bits of a link frame's checksum.
pub const CHECKSUM_BITS_LEN: usize = 8;

/// Bits in front of a link frame's payload: type, flag, both addresses, sequence.
pub const HEADER_BITS_LEN: usize = 23;

/// The most payload bits that one link frame carries. With the header and the
/// checksum a full frame is exactly `PAYLOAD_LEN` bits, one audio frame.
pub const PAYLOAD_BITS_LEN: usize = 96;

/// One more than the largest address.
pub const ADDRESS_LIMIT: usize = 16;

/// One more than the largest sequence number.
pub const SEQ_LIMIT: usize = 4096;

/// The address that every station but the sender accepts.
pub const SOCKET_BROADCAST_ADDRESS: usize = 0;

/// How long the daemon waits for an acknowledgement before it backs off.
pub const SOCKET_ACK_TIMEOUT: u64 = 1000;

/// One slot of back-off delay.
pub const SOCKET_SLOT_TIMEOUT: u64 = 100;

/// The widest contention window, in slots.
pub const SOCKET_MAX_RANGE: u32 = 16;

/// Retransmissions after which a write is given up.
pub const SOCKET_MAX_RESENDS: usize = 10;

/// How many recent sequence numbers the receive side remembers.
pub const SOCKET_JAR_CAPACITY: usize = 128;

/// The longest that one iteration of the daemon waits for a frame.
pub const SOCKET_RECIEVE_TIMEOUT: u64 = 50;

/// The pause between two pings.
pub const SOCKET_PING_INTERVAL: u64 = 1000;

/// How long a ping waits for its answer.
pub const SOCKET_PING_TIMEOUT: u64 = 10000;

/// The pause between two throughput reports.
pub const SOCKET_PERF_INTERVAL: u64 = 1000;

/// How long the throughput probe waits for one acknowledgement.
pub const SOCKET_PERF_TIMEOUT: u64 = 10000;

} // verus!
