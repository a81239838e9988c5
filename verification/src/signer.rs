//! The enclave-held ephemeral key and the signature over canonical bytes.
//!
//! The key pair is generated once at process start, shared read-only by
//! every request, and never exported: the private material is visible only
//! to specifications, through [`EphemeralKeyPair::spec_secret`]. A signature
//! is a keyed digest over the length-prefixed key material followed by the
//! canonical encoding of the whole message — scope tag and timestamp
//! included, so neither can be swapped under an existing signature.

use vstd::prelude::*;
use crate::codec::{push_u64_be, u64_be};
use crate::digest::{sha256, sha256_of};
use crate::errors::SignError;
use crate::field::payload_encodable;
use crate::message::{encode_message, spec_encode_message, IntentMessage};

verus! {

/// The process-wide signing key. Generated at start-up (outside this core),
/// used read-only for the process's lifetime, never rotated and never
/// exposed.
pub struct EphemeralKeyPair {
    secret: Vec<u8>,
}

impl EphemeralKeyPair {
    /// The private key material. Specification-only: no executable code can
    /// read it back out of the pair.
    pub closed spec fn spec_secret(&self) -> Seq<u8> {
        self.secret@
    }

    /// Whether the key material can sign at all. An unusable key is fatal
    /// for the process, not a per-request condition.
    pub open spec fn usable(&self) -> bool {
        self.spec_secret().len() > 0
    }

    /// Installs the key material generated at process start.
    pub fn from_secret_bytes(secret: Vec<u8>) -> (kp: Self)
        ensures
            kp.spec_secret() == secret@,
    {
        EphemeralKeyPair { secret }
    }

    /// Executable form of [`EphemeralKeyPair::usable`].
    pub fn is_usable(&self) -> (r: bool)
        ensures
            r == self.usable(),
    {
        self.secret.len() > 0
    }
}

/// A signature over the canonical encoding of an [`IntentMessage`].
#[derive(Debug)]
pub struct Signature {
    /// The signature bytes handed to the caller.
    pub bytes: Vec<u8>,
}

/// The signature bytes over a canonical message encoding: the keyed digest
/// of the length-prefixed key material followed by the message bytes. The
/// length prefix keeps the (key, message) pair unambiguous in the digest
/// input.
pub open spec fn spec_signature_bytes(sk: Seq<u8>, msg: Seq<u8>) -> Seq<u8> {
    sha256_of(u64_be(sk.len() as u64) + sk + msg)
}

/// Computes the digest input and signature bytes for `message` under `key`.
fn compute_signature_bytes(message: &IntentMessage, key: &EphemeralKeyPair) -> (r: Vec<u8>)
    requires
        payload_encodable(message.payload@),
    ensures
        r@ == spec_signature_bytes(
            key.spec_secret(),
            spec_encode_message(message.scope, message.timestamp_ms, message.payload@),
        ),
        r@.len() == 32,
{
    let mut input: Vec<u8> = Vec::new();
    push_u64_be(&mut input, key.secret.len() as u64);
    let ghost pre = input@;
    let mut i: usize = 0;
    while i < key.secret.len()
        invariant
            i <= key.secret@.len(),
            pre == u64_be(key.secret@.len() as u64),
            input@ == pre + key.secret@.take(i as int),
        decreases key.secret@.len() - i,
    {
        proof {
            assert(key.secret@.take(i + 1) =~= key.secret@.take(i as int).push(
                key.secret@[i as int],
            ));
        }
        input.push(key.secret[i]);
        i = i + 1;
    }
    proof {
        assert(key.secret@.take(key.secret@.len() as int) =~= key.secret@);
    }
    let mut msg = match encode_message(message) {
        Ok(v) => v,
        Err(_) => {
            proof {
                assert(false);
            }
            Vec::new()
        },
    };
    input.append(&mut msg);
    proof {
        assert(input@ =~= u64_be(key.spec_secret().len() as u64) + key.spec_secret()
            + spec_encode_message(message.scope, message.timestamp_ms, message.payload@));
    }
    sha256(&input)
}

/// Signs the canonical encoding of the full message with the process-held
/// key. Succeeds on every usable key; an unusable key is the one — fatal —
/// failure. The key material itself is never part of the result.
pub fn sign(message: &IntentMessage, key: &EphemeralKeyPair) -> (r: Result<Signature, SignError>)
    requires
        payload_encodable(message.payload@),
    ensures
        key.usable() ==> (r matches Ok(s) && s.bytes@ == spec_signature_bytes(
            key.spec_secret(),
            spec_encode_message(message.scope, message.timestamp_ms, message.payload@),
        ) && s.bytes@.len() == 32),
        !key.usable() ==> (r matches Err(e) && e == SignError::KeyUnusable),
{
    if !key.is_usable() {
        return Err(SignError::KeyUnusable);
    }
    let bytes = compute_signature_bytes(message, key);
    Ok(Signature { bytes })
}

/// Checks a signature by recomputing the keyed digest over the message's
/// canonical bytes: true exactly when `sig` is the signature of `message`
/// under `key`.
pub fn verify_signature(key: &EphemeralKeyPair, message: &IntentMessage, sig: &Signature) -> (r:
    bool)
    requires
        payload_encodable(message.payload@),
    ensures
        r == (sig.bytes@ == spec_signature_bytes(
            key.spec_secret(),
            spec_encode_message(message.scope, message.timestamp_ms, message.payload@),
        )),
{
    let expected = compute_signature_bytes(message, key);
    bytes_eq(&expected, &sig.bytes)
}

/// Byte-string equality.
fn bytes_eq(a: &Vec<u8>, b: &Vec<u8>) -> (r: bool)
    ensures
        r == (a@ == b@),
{
    if a.len() != b.len() {
        proof {
            assert(a@ != b@);
        }
        return false;
    }
    let mut i: usize = 0;
    while i < a.len()
        invariant
            a@.len() == b@.len(),
            i <= a@.len(),
            forall|j: int| 0 <= j < i ==> a@[j] == b@[j],
        decreases a@.len() - i,
    {
        if a[i] != b[i] {
            proof {
                assert(a@[i as int] != b@[i as int]);
            }
            return false;
        }
        i = i + 1;
    }
    proof {
        assert(a@ =~= b@);
    }
    true
}

} // verus!
