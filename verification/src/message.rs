//! The signable envelope: scope, timestamp, payload.
//!
//! An `IntentMessage` is what actually gets signed, never the bare payload:
//! its canonical encoding opens with the scope tag and the timestamp, so a
//! signature cannot be replayed under another scope or another time.

use vstd::prelude::*;
use crate::codec::{
    encode_payload, lemma_payload_encoding_injective, push_u64_be, spec_encode_payload, u64_be,
};
use crate::errors::EncodeError;
use crate::field::{payload_encodable, FieldModel, Payload};
use crate::scope::{lemma_scope_tag_injective, IntentScope};

verus! {

/// An inbound request as taken in at ingress: just its typed payload.
/// Constructed once per request and discarded after fingerprinting and
/// handling.
#[derive(Debug)]
pub struct RequestEnvelope<T> {
    /// The request's payload.
    pub payload: T,
}

impl<T> RequestEnvelope<T> {
    /// Wraps an inbound payload.
    pub fn new(payload: T) -> (e: Self)
        ensures
            e.payload == payload,
    {
        RequestEnvelope { payload }
    }

    /// Hands the payload back out for fingerprinting and handling.
    pub fn into_payload(self) -> (p: T)
        ensures
            p == self.payload,
    {
        self.payload
    }
}

/// A typed payload wrapped with its domain tag and the wall-clock time at
/// which it was stamped. Immutable once constructed.
#[derive(Debug)]
pub struct IntentMessage {
    /// The domain tag paired with this payload's schema.
    pub scope: IntentScope,
    /// Wall-clock milliseconds since the epoch, read once at build time.
    pub timestamp_ms: u64,
    /// The payload, in canonical form.
    pub payload: Payload,
}

/// The canonical encoding of a whole message: the scope tag, then the
/// timestamp, then the payload. Scope and timestamp are part of the signed
/// bytes by construction.
pub open spec fn spec_encode_message(
    scope: IntentScope,
    timestamp_ms: u64,
    fields: Seq<FieldModel>,
) -> Seq<u8> {
    seq![scope.spec_tag()] + u64_be(timestamp_ms) + spec_encode_payload(fields)
}

/// Wraps a payload with its scope and a clock reading taken by the caller
/// at call time. Pure composition; never fails on its own.
pub fn build_envelope(scope: IntentScope, payload: Payload, now_ms: u64) -> (m: IntentMessage)
    ensures
        m.scope == scope,
        m.timestamp_ms == now_ms,
        m.payload == payload,
{
    IntentMessage { scope, timestamp_ms: now_ms, payload }
}

/// Produces the canonical bytes of a message, or the reason the payload has
/// none. Exactly the messages with an encodable payload succeed.
pub fn encode_message(m: &IntentMessage) -> (r: Result<Vec<u8>, EncodeError>)
    ensures
        r matches Ok(v) ==> payload_encodable(m.payload@) && v@ == spec_encode_message(
            m.scope,
            m.timestamp_ms,
            m.payload@,
        ),
        r matches Err(e) ==> !payload_encodable(m.payload@) && e == EncodeError::NonFiniteNumber,
{
    let mut out: Vec<u8> = Vec::new();
    out.push(m.scope.tag());
    push_u64_be(&mut out, m.timestamp_ms);
    match encode_payload(&m.payload) {
        Ok(mut body) => {
            out.append(&mut body);
            proof {
                assert(out@ =~= spec_encode_message(m.scope, m.timestamp_ms, m.payload@));
            }
            Ok(out)
        },
        Err(e) => Err(e),
    }
}

/// The canonical message encoding is injective: equal bytes mean equal
/// scope, equal timestamp and equal payload. Altering any of the three
/// changes the bytes that are signed.
pub proof fn lemma_message_encoding_injective(
    s1: IntentScope,
    t1: u64,
    p1: Seq<FieldModel>,
    s2: IntentScope,
    t2: u64,
    p2: Seq<FieldModel>,
)
    requires
        payload_encodable(p1),
        payload_encodable(p2),
        spec_encode_message(s1, t1, p1) == spec_encode_message(s2, t2, p2),
    ensures
        s1 == s2,
        t1 == t2,
        p1 == p2,
{
    let b = spec_encode_message(s1, t1, p1);
    assert(b[0] == s1.spec_tag());
    assert(b[0] == s2.spec_tag());
    lemma_scope_tag_injective(s1, s2);
    assert(u64_be(t1) =~= b.subrange(1, 9));
    assert(u64_be(t2) =~= b.subrange(1, 9));
    crate::codec::lemma_u64_be_injective(t1, t2);
    assert(spec_encode_payload(p1) =~= b.subrange(9, b.len() as int));
    assert(spec_encode_payload(p2) =~= b.subrange(9, b.len() as int));
    lemma_payload_encoding_injective(p1, p2);
}

/// Domain separation: two messages under distinct scopes never share their
/// canonical bytes, whatever their timestamps and payloads — even when the
/// raw payload bytes coincide.
pub proof fn lemma_domain_separation(
    s1: IntentScope,
    t1: u64,
    p1: Seq<FieldModel>,
    s2: IntentScope,
    t2: u64,
    p2: Seq<FieldModel>,
)
    requires
        s1 != s2,
    ensures
        spec_encode_message(s1, t1, p1) != spec_encode_message(s2, t2, p2),
{
    if spec_encode_message(s1, t1, p1) == spec_encode_message(s2, t2, p2) {
        assert(spec_encode_message(s1, t1, p1)[0] == s1.spec_tag());
        assert(spec_encode_message(s2, t2, p2)[0] == s2.spec_tag());
        lemma_scope_tag_injective(s1, s2);
    }
}

/// Tamper evidence at the byte level: any change to scope, timestamp or
/// payload of a message changes its canonical — and therefore signed —
/// bytes.
pub proof fn lemma_tamper_changes_bytes(
    s1: IntentScope,
    t1: u64,
    p1: Seq<FieldModel>,
    s2: IntentScope,
    t2: u64,
    p2: Seq<FieldModel>,
)
    requires
        payload_encodable(p1),
        payload_encodable(p2),
        s1 != s2 || t1 != t2 || p1 != p2,
    ensures
        spec_encode_message(s1, t1, p1) != spec_encode_message(s2, t2, p2),
{
    if spec_encode_message(s1, t1, p1) == spec_encode_message(s2, t2, p2) {
        lemma_message_encoding_injective(s1, t1, p1, s2, t2, p2);
    }
}

/// Timestamp monotonicity: envelopes stamped from a non-decreasing clock
/// carry non-decreasing timestamps, whatever their scopes and payloads.
pub proof fn lemma_timestamp_monotone(m1: IntentMessage, m2: IntentMessage, t1: u64, t2: u64)
    requires
        m1.timestamp_ms == t1,
        m2.timestamp_ms == t2,
        t1 <= t2,
    ensures
        m1.timestamp_ms <= m2.timestamp_ms,
{
}

} // verus!
