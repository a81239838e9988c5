//! Uniform failure reporting for the envelope pipeline.
//!
//! The taxonomy is closed: encoding failures, clock failures, signing
//! failures (fatal for the process), and a generic wrapping kind. Every
//! failure aborts the request it belongs to; none is retried here.

use vstd::prelude::*;

verus! {

/// The payload cannot be canonically encoded.
#[derive(Clone, Copy, Debug, PartialEq, Eq, Structural)]
pub enum EncodeError {
    /// A numeric field holds a non-finite value (an infinity or a NaN),
    /// which has no canonical encoding.
    NonFiniteNumber,
}

/// The wall-clock time source could not produce a reading.
#[derive(Clone, Copy, Debug, PartialEq, Eq, Structural)]
pub enum ClockError {
    /// The time source reported a reading before the epoch or none at all.
    Unavailable,
}

/// The signing key is unusable. This is a process-health signal, not an
/// ordinary per-request error: the enclave's trust root is gone.
#[derive(Clone, Copy, Debug, PartialEq, Eq, Structural)]
pub enum SignError {
    /// The process holds no key material.
    KeyUnusable,
}

/// Any failure of the envelope pipeline, as surfaced to the caller.
#[derive(Clone, Debug, PartialEq, Eq)]
pub enum EnclaveError {
    /// The payload could not be canonically encoded.
    Encode(EncodeError),
    /// The time source failed.
    Clock(ClockError),
    /// The signing key is unusable (fatal for the process).
    Sign(SignError),
    /// Anything else, with a description.
    Generic(String),
}

} // verus!
