//! The model-weight handler's compute pipeline.
//!
//! The surrounding HTTP layer only deserializes a request and serializes the
//! signed response; everything it does in between — fingerprint the request,
//! derive the weights from the fingerprint, stamp and sign the response —
//! is here. The weight derivation itself is demonstration arithmetic with
//! no security property; the envelope around it is the part that matters.

use vstd::prelude::*;
use crate::errors::{EnclaveError, SignError};
use crate::field::{payload_encodable, Field, FieldModel, Payload};
use crate::fingerprint::{fingerprint, is_lower_hex, spec_fingerprint, RequestFingerprint};
use crate::message::spec_encode_message;
use crate::response::{to_signed_response, SignedResponse};
use crate::scope::IntentScope;
use crate::signer::{spec_signature_bytes, EphemeralKeyPair};

verus! {

use vstd::string::StrSliceExecFns;

/// A handler's inbound payload.
#[derive(Debug)]
pub struct ModelWeightRequest {
    /// The opaque input the weights are derived from.
    pub input_data: String,
}

/// A handler's outbound payload: the request's fingerprint and the weights
/// derived from it.
#[derive(Debug)]
pub struct ModelWeightResponse {
    /// The fingerprint of the request payload, as 64 lowercase hex digits.
    pub request_hash: String,
    /// The derived weights, each in `0..10000`.
    pub updated_weights: Vec<u64>,
}

impl ModelWeightRequest {
    /// The canonical payload of a request: its one text field.
    pub open spec fn spec_payload(&self) -> Seq<FieldModel> {
        seq![FieldModel::Text(self.input_data@)]
    }

    /// The request in canonical payload form.
    pub fn to_payload(&self) -> (p: Payload)
        ensures
            p@ == self.spec_payload(),
    {
        let mut fields: Vec<Field> = Vec::new();
        fields.push(Field::Text(self.input_data.clone()));
        let p = Payload { fields };
        proof {
            assert(p@ =~= self.spec_payload());
        }
        p
    }
}

impl ModelWeightResponse {
    /// The canonical payload of a response: the fingerprint text, then the
    /// weight list, in that fixed schema order.
    pub open spec fn spec_payload(&self) -> Seq<FieldModel> {
        seq![
            FieldModel::Text(self.request_hash@),
            FieldModel::UIntList(self.updated_weights@),
        ]
    }

    /// The response in canonical payload form.
    pub fn to_payload(&self) -> (p: Payload)
        ensures
            p@ == self.spec_payload(),
    {
        let mut ws: Vec<u64> = Vec::new();
        let mut i: usize = 0;
        while i < self.updated_weights.len()
            invariant
                i <= self.updated_weights@.len(),
                ws@ == self.updated_weights@.take(i as int),
            decreases self.updated_weights@.len() - i,
        {
            proof {
                assert(self.updated_weights@.take(i + 1) =~= self.updated_weights@.take(
                    i as int,
                ).push(self.updated_weights@[i as int]));
            }
            ws.push(self.updated_weights[i]);
            i = i + 1;
        }
        proof {
            assert(self.updated_weights@.take(self.updated_weights@.len() as int)
                =~= self.updated_weights@);
        }
        let mut fields: Vec<Field> = Vec::new();
        fields.push(Field::Text(self.request_hash.clone()));
        fields.push(Field::UIntList(ws));
        let p = Payload { fields };
        proof {
            assert(p@ =~= self.spec_payload());
        }
        p
    }
}

/// The value of a lowercase hex digit.
pub open spec fn hex_digit_val(c: char) -> u64
    recommends
        is_lower_hex(c),
{
    if '0' <= c && c <= '9' {
        (c as u32 - '0' as u32) as u64
    } else {
        (c as u32 - 'a' as u32 + 10) as u64
    }
}

/// The seed read from the first `k` hex digits of a fingerprint, most
/// significant digit first.
pub open spec fn spec_seed_prefix(chars: Seq<char>, k: int) -> u64
    recommends
        0 <= k <= chars.len(),
    decreases k,
{
    if k <= 0 {
        0
    } else {
        (spec_seed_prefix(chars, k - 1) << 4) | hex_digit_val(chars[k - 1])
    }
}

/// The 64-bit seed a fingerprint yields: its first sixteen hex digits.
pub open spec fn spec_seed(chars: Seq<char>) -> u64 {
    spec_seed_prefix(chars, 16)
}

/// Reads the weight seed out of a fingerprint's first sixteen hex digits.
pub fn weight_seed(fp: &RequestFingerprint) -> (s: u64)
    requires
        fp.wf(),
    ensures
        s == spec_seed(fp.hex@),
{
    proof {
        assert forall|i: int| 0 <= i < fp.hex@.len() implies '\0' <= #[trigger] fp.hex@[i]
            <= '\u{7f}' by {
            assert(is_lower_hex(fp.hex@[i]));
        }
        assert(fp.hex.is_ascii());
    }
    let mut acc: u64 = 0;
    let mut i: usize = 0;
    while i < 16
        invariant
            fp.wf(),
            fp.hex.is_ascii(),
            i <= 16,
            acc == spec_seed_prefix(fp.hex@, i as int),
        decreases 16 - i,
    {
        let b = fp.hex.as_str().get_ascii(i);
        proof {
            assert(is_lower_hex(fp.hex@[i as int]));
        }
        let v: u64 = if b <= 57 {
            (b - 48) as u64
        } else {
            (b - 87) as u64
        };
        proof {
            let c = fp.hex@[i as int];
            assert(c as u8 == b);
            assert(v == hex_digit_val(c));
        }
        acc = (acc << 4) | v;
        i = i + 1;
    }
    acc
}

/// One derived weight: the seed advanced by the weight's index, wrapped
/// modulo 2^64, reduced into `0..10000`.
pub open spec fn spec_weight(seed: u64, i: u64) -> u64 {
    vstd::wrapping::u64_specs::wrapping_add(seed, i) % 10000
}

/// Derives the handler's ten weights from a seed.
pub fn derive_weights(seed: u64) -> (w: Vec<u64>)
    ensures
        w@.len() == 10,
        forall|i: int| 0 <= i < 10 ==> w@[i] == spec_weight(seed, i as u64),
{
    let mut w: Vec<u64> = Vec::new();
    let mut i: u64 = 0;
    while i < 10
        invariant
            i <= 10,
            w@.len() == i,
            forall|j: int| 0 <= j < i ==> w@[j] == spec_weight(seed, j as u64),
        decreases 10 - i,
    {
        w.push(seed.wrapping_add(i) % 10000);
        i = i + 1;
    }
    w
}

/// The full handler pipeline for one request: fingerprint the request
/// payload, derive the weights from the fingerprint's seed, and return the
/// response payload stamped with the handler's scope and the caller's clock
/// reading, signed by the process key. Fails exactly when the request
/// payload cannot be encoded (it is pure text, so in practice never) or —
/// fatally — when the key is unusable; no signature is produced on failure.
pub fn process_model_weights(
    key: &EphemeralKeyPair,
    request: &ModelWeightRequest,
    now_ms: u64,
) -> (r: Result<SignedResponse, EnclaveError>)
    ensures
        !payload_encodable(request.spec_payload()) ==> (r matches Err(e) && e
            == EnclaveError::Encode(crate::errors::EncodeError::NonFiniteNumber)),
        payload_encodable(request.spec_payload()) && !key.usable() ==> (r matches Err(e) && e
            == EnclaveError::Sign(SignError::KeyUnusable)),
        payload_encodable(request.spec_payload()) && key.usable() ==> (r matches Ok(sr) && {
            let fp = spec_fingerprint(request.spec_payload());
            let weights = Seq::new(10, |i: int| spec_weight(spec_seed(fp), i as u64));
            &&& sr.message.scope == IntentScope::ProcessData
            &&& sr.message.timestamp_ms == now_ms
            &&& sr.message.payload@ == seq![
                FieldModel::Text(fp),
                FieldModel::UIntList(weights),
            ]
            &&& sr.signature.bytes@ == spec_signature_bytes(
                key.spec_secret(),
                spec_encode_message(IntentScope::ProcessData, now_ms, sr.message.payload@),
            )
        }),
{
    let request_payload = request.to_payload();
    let fp = match fingerprint(&request_payload) {
        Ok(fp) => fp,
        Err(e) => {
            return Err(EnclaveError::Encode(e));
        },
    };
    let seed = weight_seed(&fp);
    let updated_weights = derive_weights(seed);
    proof {
        assert(updated_weights@ =~= Seq::new(
            10,
            |i: int| spec_weight(spec_seed(spec_fingerprint(request.spec_payload())), i as u64),
        ));
    }
    let response = ModelWeightResponse { request_hash: fp.hex, updated_weights };
    let response_payload = response.to_payload();
    proof {
        let rp = response.spec_payload();
        assert forall|i: int| 0 <= i < rp.len() implies crate::field::field_encodable(
            #[trigger] rp[i],
        ) by {
            vstd::utf8::is_ascii_chars_encode_utf8(response.request_hash@);
        }
    }
    to_signed_response(key, response_payload, now_ms, IntentScope::ProcessData)
}

} // verus!
