//! Content fingerprints of request payloads.
//!
//! A fingerprint is the SHA-256 digest of the canonical byte encoding of a
//! payload, rendered as 64 lowercase hex characters. It is a pure function
//! of the payload bytes — identical payloads always fingerprint identically
//! — and is used for correlation and idempotency hints, never as a security
//! token by itself.

use vstd::prelude::*;
use crate::codec::{encode_payload, spec_encode_payload};
use crate::digest::{sha256, sha256_of};
use crate::errors::EncodeError;
use crate::field::{payload_encodable, FieldModel, Payload};

verus! {

use vstd::string::StringExecFns;

/// The lowercase hex digit for a nibble.
pub open spec fn hex_char(n: u8) -> char
    recommends
        n < 16,
{
    if n == 0 {
        '0'
    } else if n == 1 {
        '1'
    } else if n == 2 {
        '2'
    } else if n == 3 {
        '3'
    } else if n == 4 {
        '4'
    } else if n == 5 {
        '5'
    } else if n == 6 {
        '6'
    } else if n == 7 {
        '7'
    } else if n == 8 {
        '8'
    } else if n == 9 {
        '9'
    } else if n == 10 {
        'a'
    } else if n == 11 {
        'b'
    } else if n == 12 {
        'c'
    } else if n == 13 {
        'd'
    } else if n == 14 {
        'e'
    } else {
        'f'
    }
}

/// Lowercase hex rendering of a byte string: two digits per byte, high
/// nibble first.
pub open spec fn hex_of(bytes: Seq<u8>) -> Seq<char> {
    Seq::new(
        bytes.len() * 2,
        |i: int|
            if i % 2 == 0 {
                hex_char(bytes[i / 2] >> 4)
            } else {
                hex_char(bytes[i / 2] & 0xf)
            },
    )
}

/// Whether a character is a lowercase hex digit.
pub open spec fn is_lower_hex(c: char) -> bool {
    ('0' <= c && c <= '9') || ('a' <= c && c <= 'f')
}

/// The fingerprint of a payload: lowercase hex of the SHA-256 digest of the
/// payload's canonical encoding.
pub open spec fn spec_fingerprint(fields: Seq<FieldModel>) -> Seq<char> {
    hex_of(sha256_of(spec_encode_payload(fields)))
}

/// Determinism of fingerprints: the fingerprint is a function of the
/// payload's fields alone, so the same payload always fingerprints to the
/// same 64 hex characters, however often it is fingerprinted.
pub proof fn lemma_fingerprint_deterministic(p1: Seq<FieldModel>, p2: Seq<FieldModel>)
    requires
        p1 == p2,
    ensures
        spec_fingerprint(p1) == spec_fingerprint(p2),
{
}

/// A 256-bit content digest of a request payload, hex-encoded.
#[derive(Debug)]
pub struct RequestFingerprint {
    /// The digest as 64 lowercase hex characters.
    pub hex: String,
}

impl RequestFingerprint {
    /// A fingerprint is exactly 64 lowercase hex characters.
    pub open spec fn wf(&self) -> bool {
        &&& self.hex@.len() == 64
        &&& forall|i: int| 0 <= i < 64 ==> is_lower_hex(#[trigger] self.hex@[i])
    }
}

/// Both nibbles of a byte are nibbles.
proof fn lemma_nibble_bounds(b: u8)
    ensures
        b >> 4 < 16,
        b & 0xf < 16,
{
    assert(b >> 4 < 16) by (bit_vector);
    assert(b & 0xf < 16) by (bit_vector);
}

/// A nibble's hex digit is a lowercase hex character.
proof fn lemma_hex_char_lower(n: u8)
    requires
        n < 16,
    ensures
        is_lower_hex(hex_char(n)),
{
}

/// The one-character string for a nibble's hex digit.
fn hex_str(n: u8) -> (r: &'static str)
    requires
        n < 16,
    ensures
        r@.len() == 1,
        r@[0] == hex_char(n),
{
    proof {
        reveal_strlit("0");
        reveal_strlit("1");
        reveal_strlit("2");
        reveal_strlit("3");
        reveal_strlit("4");
        reveal_strlit("5");
        reveal_strlit("6");
        reveal_strlit("7");
        reveal_strlit("8");
        reveal_strlit("9");
        reveal_strlit("a");
        reveal_strlit("b");
        reveal_strlit("c");
        reveal_strlit("d");
        reveal_strlit("e");
        reveal_strlit("f");
    }
    if n == 0 {
        "0"
    } else if n == 1 {
        "1"
    } else if n == 2 {
        "2"
    } else if n == 3 {
        "3"
    } else if n == 4 {
        "4"
    } else if n == 5 {
        "5"
    } else if n == 6 {
        "6"
    } else if n == 7 {
        "7"
    } else if n == 8 {
        "8"
    } else if n == 9 {
        "9"
    } else if n == 10 {
        "a"
    } else if n == 11 {
        "b"
    } else if n == 12 {
        "c"
    } else if n == 13 {
        "d"
    } else if n == 14 {
        "e"
    } else {
        "f"
    }
}

/// Fingerprints a payload: canonical encoding, SHA-256, lowercase hex.
/// Succeeds on exactly the payloads with a canonical encoding; a payload
/// that has none is reported, never coerced, and nothing is hashed for it.
/// Identical payloads always produce identical fingerprints, since the
/// result is a function of the payload's fields alone.
pub fn fingerprint(payload: &Payload) -> (r: Result<RequestFingerprint, EncodeError>)
    ensures
        r matches Ok(f) ==> payload_encodable(payload@) && f.hex@ == spec_fingerprint(payload@)
            && f.wf(),
        r matches Err(e) ==> !payload_encodable(payload@) && e == EncodeError::NonFiniteNumber,
{
    let bytes = match encode_payload(payload) {
        Ok(v) => v,
        Err(e) => {
            return Err(e);
        },
    };
    let digest = sha256(&bytes);
    let ghost gd = digest@;
    let mut hex = String::new();
    let mut i: usize = 0;
    while i < digest.len()
        invariant
            digest@ == gd,
            gd.len() == 32,
            i <= 32,
            hex@ == hex_of(gd).take(2 * i as int),
        decreases 32 - i,
    {
        let b = digest[i];
        proof {
            lemma_nibble_bounds(b);
        }
        hex.append(hex_str(b >> 4));
        hex.append(hex_str(b & 0xf));
        proof {
            assert(hex_of(gd).take(2 * (i + 1) as int) =~= hex_of(gd).take(2 * i as int) + seq![
                hex_char(gd[i as int] >> 4),
                hex_char(gd[i as int] & 0xf),
            ]);
            assert(hex@ =~= hex_of(gd).take(2 * (i + 1) as int));
        }
        i = i + 1;
    }
    proof {
        assert(hex_of(gd).take(64) =~= hex_of(gd));
        assert forall|j: int| 0 <= j < 64 implies is_lower_hex(#[trigger] hex@[j]) by {
            if j % 2 == 0 {
                lemma_nibble_bounds(gd[j / 2]);
                lemma_hex_char_lower(gd[j / 2] >> 4);
            } else {
                lemma_nibble_bounds(gd[j / 2]);
                lemma_hex_char_lower(gd[j / 2] & 0xf);
            }
        }
    }
    Ok(RequestFingerprint { hex })
}

} // verus!
