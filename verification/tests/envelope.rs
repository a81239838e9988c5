use nautilus_envelope::codec::{decode_payload, encode_payload};
use nautilus_envelope::errors::{ClockError, EnclaveError, EncodeError, SignError};
use nautilus_envelope::field::{Field, Payload};
use nautilus_envelope::fingerprint::{fingerprint, RequestFingerprint};
use nautilus_envelope::message::{build_envelope, encode_message, IntentMessage, RequestEnvelope};
use nautilus_envelope::response::to_signed_response;
use nautilus_envelope::scope::IntentScope;
use nautilus_envelope::signer::{sign, verify_signature, EphemeralKeyPair};
use nautilus_envelope::trainer::{
    derive_weights, process_model_weights, weight_seed, ModelWeightRequest,
};

const FP_ABC: &str = "53c39266bbe2c03b381ae04add252fcae1585f202b7367515bf91a667f49c3e7";
const SEED_ABC: u64 = 6035828895543115835;
const T0: u64 = 1700000000000;

fn abc_payload() -> Payload {
    Payload {
        fields: vec![Field::Text("abc".to_string())],
    }
}

fn test_key() -> EphemeralKeyPair {
    EphemeralKeyPair::from_secret_bytes(b"0123456789abcdef0123456789abcdef".to_vec())
}

fn other_key() -> EphemeralKeyPair {
    EphemeralKeyPair::from_secret_bytes(b"another-secret-key-entirely-....".to_vec())
}

fn to_hex(bytes: &[u8]) -> String {
    let mut s = String::new();
    for b in bytes {
        s.push_str(&format!("{:02x}", b));
    }
    s
}

#[test]
fn fingerprint_is_deterministic() {
    let a = fingerprint(&abc_payload()).unwrap();
    let b = fingerprint(&abc_payload()).unwrap();
    assert_eq!(a.hex, b.hex);
}

#[test]
fn fingerprint_matches_known_digest() {
    let f = fingerprint(&abc_payload()).unwrap();
    assert_eq!(f.hex.len(), 64);
    assert!(f.hex.chars().all(|c| c.is_ascii_hexdigit() && !c.is_ascii_uppercase()));
    assert_eq!(f.hex, FP_ABC);
}

#[test]
fn fingerprint_of_empty_payload() {
    let f = fingerprint(&Payload { fields: vec![] }).unwrap();
    assert_eq!(
        f.hex,
        "af5570f5a1810b7af78caf4bc70a660f0df51e42baf91d4de5b2328de0e83dfc"
    );
}

#[test]
fn canonical_encoding_exact_bytes() {
    let enc = encode_payload(&abc_payload()).unwrap();
    let mut expected = vec![0u8, 0, 0, 0, 0, 0, 0, 1];
    expected.push(0); // text tag
    expected.extend_from_slice(&[0, 0, 0, 0, 0, 0, 0, 3]);
    expected.extend_from_slice(b"abc");
    assert_eq!(enc, expected);

    let enc = encode_payload(&Payload {
        fields: vec![Field::UInt(0x0102030405060708)],
    })
    .unwrap();
    assert_eq!(
        enc,
        vec![0, 0, 0, 0, 0, 0, 0, 1, 1, 1, 2, 3, 4, 5, 6, 7, 8]
    );

    let enc = encode_payload(&Payload {
        fields: vec![Field::UIntList(vec![1, 2])],
    })
    .unwrap();
    assert_eq!(
        enc,
        vec![
            0, 0, 0, 0, 0, 0, 0, 1, // one field
            3, // list tag
            0, 0, 0, 0, 0, 0, 0, 2, // two elements
            0, 0, 0, 0, 0, 0, 0, 1, 0, 0, 0, 0, 0, 0, 0, 2,
        ]
    );
}

#[test]
fn round_trip_canonicalization() {
    let payload = Payload {
        fields: vec![
            Field::Text("hello envelope".to_string()),
            Field::UInt(42),
            Field::Num(1.5f64.to_bits()),
            Field::UIntList(vec![7, 9999, u64::MAX]),
            Field::Text(String::new()),
        ],
    };
    let enc = encode_payload(&payload).unwrap();
    let decoded = decode_payload(&enc).expect("canonical bytes must decode");
    let re_enc = encode_payload(&decoded).unwrap();
    assert_eq!(enc, re_enc);
    assert_eq!(decoded.fields.len(), 5);
    match &decoded.fields[0] {
        Field::Text(s) => assert_eq!(s, "hello envelope"),
        _ => panic!("wrong field kind"),
    }
    match &decoded.fields[3] {
        Field::UIntList(l) => assert_eq!(l, &vec![7, 9999, u64::MAX]),
        _ => panic!("wrong field kind"),
    }
}

#[test]
fn decode_rejects_malformed_bytes() {
    // trailing garbage
    let mut enc = encode_payload(&abc_payload()).unwrap();
    enc.push(0);
    assert!(decode_payload(&enc).is_none());
    // truncated
    let enc = encode_payload(&abc_payload()).unwrap();
    let cut = enc[..enc.len() - 1].to_vec();
    assert!(decode_payload(&cut).is_none());
    // unknown tag
    let bad = vec![0u8, 0, 0, 0, 0, 0, 0, 1, 9, 0, 0, 0, 0, 0, 0, 0, 0];
    assert!(decode_payload(&bad).is_none());
    // a non-finite number has no canonical encoding, so its bytes do not decode
    let mut nan_bytes = vec![0u8, 0, 0, 0, 0, 0, 0, 1, 2];
    nan_bytes.extend_from_slice(&f64::NAN.to_bits().to_be_bytes());
    assert!(decode_payload(&nan_bytes).is_none());
    // too short
    assert!(decode_payload(&vec![0u8, 0, 0]).is_none());
}

#[test]
fn non_finite_number_yields_encode_error() {
    for bits in [
        f64::NAN.to_bits(),
        f64::INFINITY.to_bits(),
        f64::NEG_INFINITY.to_bits(),
    ] {
        let payload = Payload {
            fields: vec![Field::Num(bits)],
        };
        assert_eq!(
            encode_payload(&payload).unwrap_err(),
            EncodeError::NonFiniteNumber
        );
        assert_eq!(
            fingerprint(&payload).unwrap_err(),
            EncodeError::NonFiniteNumber
        );
        // and no signature is produced
        let payload = Payload {
            fields: vec![Field::Num(bits)],
        };
        match to_signed_response(&test_key(), payload, T0, IntentScope::ProcessData) {
            Err(EnclaveError::Encode(EncodeError::NonFiniteNumber)) => {}
            _ => panic!("expected an encode error and no signature"),
        }
    }
}

#[test]
fn finite_number_encodes() {
    let payload = Payload {
        fields: vec![Field::Num(1.5f64.to_bits())],
    };
    let enc = encode_payload(&payload).unwrap();
    let decoded = decode_payload(&enc).unwrap();
    match decoded.fields[0] {
        Field::Num(bits) => assert_eq!(f64::from_bits(bits), 1.5),
        _ => panic!("wrong field kind"),
    }
}

#[test]
fn scenario_process_data() {
    let key = test_key();
    let request = ModelWeightRequest {
        input_data: "abc".to_string(),
    };
    let sr = process_model_weights(&key, &request, T0).unwrap();
    assert!(matches!(sr.message.scope, IntentScope::ProcessData));
    assert_eq!(sr.message.timestamp_ms, T0);
    match &sr.message.payload.fields[0] {
        Field::Text(hash) => assert_eq!(hash, FP_ABC),
        _ => panic!("wrong field kind"),
    }
    match &sr.message.payload.fields[1] {
        Field::UIntList(w) => {
            assert_eq!(w.len(), 10);
            assert_eq!(
                w,
                &vec![5835, 5836, 5837, 5838, 5839, 5840, 5841, 5842, 5843, 5844]
            );
        }
        _ => panic!("wrong field kind"),
    }
    // the signature verifies under the enclave's key and no other
    assert!(verify_signature(&key, &sr.message, &sr.signature));
    assert!(!verify_signature(&other_key(), &sr.message, &sr.signature));
    assert_eq!(
        to_hex(&sr.signature.bytes),
        "63fe21c96fefef35753836c4e4aaf5e3eb5ffd66b94c51555fddce5a288f4a16"
    );
}

#[test]
fn domain_separation() {
    let key = test_key();
    let m1 = build_envelope(IntentScope::ProcessData, abc_payload(), T0);
    let m2 = build_envelope(IntentScope::KeyAnnouncement, abc_payload(), T0);
    let e1 = encode_message(&m1).unwrap();
    let e2 = encode_message(&m2).unwrap();
    assert_ne!(e1, e2);
    assert_eq!(e1[0], 0);
    assert_eq!(e2[0], 1);
    let s1 = sign(&m1, &key).unwrap();
    let s2 = sign(&m2, &key).unwrap();
    assert_ne!(s1.bytes, s2.bytes);
    // a signature made under one scope does not verify under the other
    assert!(!verify_signature(&key, &m2, &s1));
    assert!(!verify_signature(&key, &m1, &s2));
}

#[test]
fn tampering_invalidates_signature() {
    let key = test_key();
    let request = ModelWeightRequest {
        input_data: "abc".to_string(),
    };
    let sr = process_model_weights(&key, &request, T0).unwrap();
    assert!(verify_signature(&key, &sr.message, &sr.signature));

    // altered timestamp
    let m = IntentMessage {
        scope: sr.message.scope,
        timestamp_ms: sr.message.timestamp_ms + 1,
        payload: sr.message.payload.clone(),
    };
    assert!(!verify_signature(&key, &m, &sr.signature));

    // altered scope
    let m = IntentMessage {
        scope: IntentScope::KeyAnnouncement,
        timestamp_ms: sr.message.timestamp_ms,
        payload: sr.message.payload.clone(),
    };
    assert!(!verify_signature(&key, &m, &sr.signature));

    // altered payload
    let mut fields = sr.message.payload.fields.clone();
    fields[0] = Field::Text("53c39266bbe2c03b381ae04add252fcae1585f202b7367515bf91a667f49c3e8".to_string());
    let m = IntentMessage {
        scope: sr.message.scope,
        timestamp_ms: sr.message.timestamp_ms,
        payload: Payload { fields },
    };
    assert!(!verify_signature(&key, &m, &sr.signature));

    // altered signature byte
    let mut bytes = sr.signature.bytes.clone();
    bytes[0] ^= 1;
    let sig = nautilus_envelope::signer::Signature { bytes };
    assert!(!verify_signature(&key, &sr.message, &sig));
}

#[test]
fn timestamps_are_monotone_for_monotone_clock() {
    let t1: u64 = 1700000000000;
    let t2: u64 = 1700000000001;
    let m1 = build_envelope(IntentScope::ProcessData, abc_payload(), t1);
    let m2 = build_envelope(IntentScope::ProcessData, abc_payload(), t2);
    assert!(m1.timestamp_ms <= m2.timestamp_ms);
    assert_eq!(m1.timestamp_ms, t1);
    assert_eq!(m2.timestamp_ms, t2);
}

#[test]
fn unusable_key_is_fatal() {
    let empty = EphemeralKeyPair::from_secret_bytes(vec![]);
    let m = build_envelope(IntentScope::ProcessData, abc_payload(), T0);
    assert_eq!(sign(&m, &empty).unwrap_err(), SignError::KeyUnusable);
    match to_signed_response(&empty, abc_payload(), T0, IntentScope::ProcessData) {
        Err(EnclaveError::Sign(SignError::KeyUnusable)) => {}
        _ => panic!("expected the fatal signing error"),
    }
    let request = ModelWeightRequest {
        input_data: "abc".to_string(),
    };
    match process_model_weights(&empty, &request, T0) {
        Err(EnclaveError::Sign(SignError::KeyUnusable)) => {}
        _ => panic!("expected the fatal signing error"),
    }
}

#[test]
fn weight_seed_reads_first_sixteen_hex_digits() {
    let fp = RequestFingerprint {
        hex: FP_ABC.to_string(),
    };
    assert_eq!(weight_seed(&fp), SEED_ABC);
    let w = derive_weights(SEED_ABC);
    assert_eq!(
        w,
        vec![5835, 5836, 5837, 5838, 5839, 5840, 5841, 5842, 5843, 5844]
    );
    // wrapping at the top of the range
    let w = derive_weights(u64::MAX);
    assert_eq!(w[0], u64::MAX % 10000);
    assert_eq!(w[1], 0u64.wrapping_sub(1).wrapping_add(1) % 10000);
}

#[test]
fn request_envelope_carries_the_payload_through() {
    let envelope = RequestEnvelope::new(ModelWeightRequest {
        input_data: "abc".to_string(),
    });
    let request = envelope.into_payload();
    assert_eq!(request.input_data, "abc");
    let fp = fingerprint(&request.to_payload()).unwrap();
    assert_eq!(fp.hex, FP_ABC);
}

#[test]
fn error_taxonomy_is_closed() {
    let e = EnclaveError::Clock(ClockError::Unavailable);
    assert_eq!(e, EnclaveError::Clock(ClockError::Unavailable));
    assert_ne!(
        EnclaveError::Encode(EncodeError::NonFiniteNumber),
        EnclaveError::Sign(SignError::KeyUnusable)
    );
    let g = EnclaveError::Generic("time went backwards".to_string());
    assert_eq!(g, EnclaveError::Generic("time went backwards".to_string()));
}

#[test]
fn assembled_message_is_what_was_signed() {
    let key = test_key();
    let sr = to_signed_response(&key, abc_payload(), T0, IntentScope::ProcessData).unwrap();
    // the emitted message verifies as-is: nothing was mutated after signing
    assert!(verify_signature(&key, &sr.message, &sr.signature));
    assert_eq!(sr.message.timestamp_ms, T0);
    assert!(matches!(sr.message.scope, IntentScope::ProcessData));
    let enc = encode_message(&sr.message).unwrap();
    assert_eq!(enc[0], 0);
    // timestamp sits big-endian right after the scope tag
    assert_eq!(&enc[1..9], &T0.to_be_bytes());
}
