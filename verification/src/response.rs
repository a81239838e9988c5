//! Assembling the signed response that crosses the trust boundary.

use vstd::prelude::*;
use crate::codec::encode_payload;
use crate::errors::{EnclaveError, SignError};
use crate::field::{payload_encodable, Payload};
use crate::message::{build_envelope, spec_encode_message, IntentMessage};
use crate::scope::IntentScope;
use crate::signer::{sign, spec_signature_bytes, EphemeralKeyPair, Signature};

verus! {

/// The one object returned to the caller: the signed message together with
/// its signature over the message's canonical bytes.
#[derive(Debug)]
pub struct SignedResponse {
    /// The envelope exactly as it was signed.
    pub message: IntentMessage,
    /// The signature over the envelope's canonical encoding.
    pub signature: Signature,
}

/// Pure composition, no failure path. Consumes the signed message by value,
/// so the emitted `message` is the very value whose bytes were signed —
/// nothing is rebuilt or mutated between signing and assembly.
pub fn assemble(message: IntentMessage, signature: Signature) -> (r: SignedResponse)
    ensures
        r.message == message,
        r.signature == signature,
{
    SignedResponse { message, signature }
}

/// The full envelope pipeline for one response: stamp the payload with its
/// scope and the caller's clock reading, sign the canonical bytes, and
/// assemble the wire object. Fails exactly on a payload with no canonical
/// encoding, or — fatally — on an unusable key; in either case no signature
/// is produced.
pub fn to_signed_response(
    key: &EphemeralKeyPair,
    payload: Payload,
    timestamp_ms: u64,
    scope: IntentScope,
) -> (r: Result<SignedResponse, EnclaveError>)
    ensures
        !payload_encodable(payload@) ==> (r matches Err(e) && e == EnclaveError::Encode(
            crate::errors::EncodeError::NonFiniteNumber,
        )),
        payload_encodable(payload@) && !key.usable() ==> (r matches Err(e) && e
            == EnclaveError::Sign(SignError::KeyUnusable)),
        payload_encodable(payload@) && key.usable() ==> (r matches Ok(sr) && sr.message.scope
            == scope && sr.message.timestamp_ms == timestamp_ms && sr.message.payload@ == payload@
            && sr.signature.bytes@ == spec_signature_bytes(
            key.spec_secret(),
            spec_encode_message(scope, timestamp_ms, payload@),
        )),
{
    match encode_payload(&payload) {
        Ok(_) => {},
        Err(e) => {
            return Err(EnclaveError::Encode(e));
        },
    }
    let message = build_envelope(scope, payload, timestamp_ms);
    match sign(&message, key) {
        Ok(signature) => Ok(assemble(message, signature)),
        Err(e) => Err(EnclaveError::Sign(e)),
    }
}

} // verus!
