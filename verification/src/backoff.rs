//! The random delay of CSMA/CA: a number of slots drawn from a window that
//! doubles with every retry, up to a fixed width.

use crate::consts::{SOCKET_MAX_RANGE, SOCKET_SLOT_TIMEOUT};
use crate::wire::lemma_pow2_grows;
use rand::rngs::SmallRng;
use rand::Rng;
use vstd::arithmetic::power2::{lemma2_to64, pow2};
use vstd::prelude::*;

verus! {

/// `rand::rngs::SmallRng`, carried through as an opaque value.
#[verifier::external_type_specification]
#[verifier::external_body]
pub struct ExSmallRng(SmallRng);

/// Draws a number from `0..=max`.
///
/// Trusted: `Rng::gen_range` on an inclusive range returns a value inside the
/// range. It panics only on an empty range, and `0..=max` is never empty. Which
/// value comes is up to the generator, so nothing more is claimed.
#[verifier::external_body]
pub(crate) fn uniform_upto(rng: &mut SmallRng, max: u32) -> (k: u32)
    ensures
        k <= max,
{
    rng.gen_range(0..=max)
}

/// The width of the contention window at the given retry: `min(2^retry, SOCKET_MAX_RANGE)`.
pub open spec fn spec_backoff_range(retry: nat) -> nat {
    if pow2(retry) < SOCKET_MAX_RANGE {
        pow2(retry)
    } else {
        SOCKET_MAX_RANGE as nat
    }
}

/// Whether `duration` is a whole number of slots inside the window of `retry`.
pub open spec fn is_backoff(duration: u64, retry: nat) -> bool {
    &&& duration % SOCKET_SLOT_TIMEOUT == 0
    &&& duration / SOCKET_SLOT_TIMEOUT <= spec_backoff_range(retry)
}

/// The width of the contention window at the given retry.
pub fn backoff_range(retry: usize) -> (range: u32)
    ensures
        range == spec_backoff_range(retry as nat),
        1 <= range <= SOCKET_MAX_RANGE,
{
    proof {
        lemma2_to64();
        if retry >= 4 {
            lemma_pow2_grows(4, retry as nat);
        }
    }
    if retry == 0 {
        1
    } else if retry == 1 {
        2
    } else if retry == 2 {
        4
    } else if retry == 3 {
        8
    } else {
        SOCKET_MAX_RANGE
    }
}

/// The delay of `slots` slots, in milliseconds.
pub fn backoff_duration(slots: u32) -> (duration: u64)
    ensures
        duration == slots * SOCKET_SLOT_TIMEOUT,
{
    (slots as u64) * SOCKET_SLOT_TIMEOUT
}

/// Draws a back-off delay for the given retry: `k` slots with
/// `0 <= k <= min(2^retry, SOCKET_MAX_RANGE)`, whichever `k` the generator gives.
pub fn generate_backoff(rng: &mut SmallRng, retry: usize) -> (duration: u64)
    ensures
        is_backoff(duration, retry as nat),
        duration <= SOCKET_MAX_RANGE * SOCKET_SLOT_TIMEOUT,
{
    let range = backoff_range(retry);
    let slots = uniform_upto(rng, range);
    let duration = backoff_duration(slots);
    assert(duration / SOCKET_SLOT_TIMEOUT == slots && duration % SOCKET_SLOT_TIMEOUT == 0)
        by (nonlinear_arith)
        requires
            duration == slots * SOCKET_SLOT_TIMEOUT,
            SOCKET_SLOT_TIMEOUT == 100,
    ;
    duration
}

} // verus!
