//! Domain separation for signed messages.
//!
//! Every kind of message the enclave signs carries its own scope tag, so a
//! signature produced for one message kind can never be mistaken for a
//! signature over another kind: the tag is the first byte of the canonical
//! encoding that is signed.

use vstd::prelude::*;

verus! {

/// The kind of message being signed. Each distinct payload schema used
/// anywhere in the system must be paired with exactly one scope variant;
/// scopes are never reused across incompatible schemas.
#[derive(Clone, Copy, Debug, PartialEq, Eq, Structural)]
pub enum IntentScope {
    /// A processed-data response produced by a request handler.
    ProcessData,
    /// An announcement of the enclave's ephemeral verification key.
    KeyAnnouncement,
}

impl IntentScope {
    /// The tag byte that opens the canonical encoding of every message
    /// signed under this scope.
    pub open spec fn spec_tag(self) -> u8 {
        match self {
            IntentScope::ProcessData => 0u8,
            IntentScope::KeyAnnouncement => 1u8,
        }
    }

    /// Executable form of [`IntentScope::spec_tag`].
    pub fn tag(self) -> (t: u8)
        ensures
            t == self.spec_tag(),
    {
        match self {
            IntentScope::ProcessData => 0u8,
            IntentScope::KeyAnnouncement => 1u8,
        }
    }
}

/// Distinct scopes have distinct tag bytes: the tag alone separates the
/// signing domains.
pub proof fn lemma_scope_tag_injective(a: IntentScope, b: IntentScope)
    ensures
        a.spec_tag() == b.spec_tag() ==> a == b,
{
}

} // verus!
