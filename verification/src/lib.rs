//! Signed-response envelope protocol for an enclave service.
//!
//! Every response leaving the enclave is wrapped in a domain-separated,
//! timestamped envelope ([`message::IntentMessage`]), canonically encoded,
//! and signed with the process-held ephemeral key. A verifier checks the
//! signature over the envelope's canonical bytes; because that encoding is
//! injective and opens with the scope tag, a valid signature binds one
//! scope, one timestamp and one payload, and no other.

pub mod codec;
pub mod digest;
pub mod errors;
pub mod field;
pub mod fingerprint;
pub mod message;
pub mod response;
pub mod scope;
pub mod signer;
pub mod trainer;

pub use errors::EnclaveError;
pub use field::{Field, Payload};
pub use fingerprint::RequestFingerprint;
pub use message::IntentMessage;
pub use response::SignedResponse;
pub use scope::IntentScope;
pub use signer::EphemeralKeyPair;
