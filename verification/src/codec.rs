//! Canonical byte encoding for payloads and signable messages.
//!
//! This is the strict encoding that is hashed and signed — distinct from any
//! wire encoding. Every logical value has exactly one encoding: fields are
//! tagged, lengths are fixed-width big-endian, and field order is the schema
//! order. The encoding is prefix-free per field, which makes it decodable
//! and injective; injectivity is what makes domain separation and
//! tamper-evidence of the signed bytes meaningful.

use vstd::prelude::*;
use vstd::utf8::encode_utf8;
use crate::errors::EncodeError;
use crate::field::{
    fields_view, finite_bits, field_encodable, payload_encodable, Field, FieldModel, Payload,
};

verus! {

use vstd::string::StrSliceExecFns;

/// Tag byte opening the encoding of a text field.
pub const TAG_TEXT: u8 = 0;

/// Tag byte opening the encoding of an unsigned-integer field.
pub const TAG_UINT: u8 = 1;

/// Tag byte opening the encoding of a numeric field.
pub const TAG_NUM: u8 = 2;

/// Tag byte opening the encoding of an integer-list field.
pub const TAG_LIST: u8 = 3;

/// The eight bytes of `n`, most significant first.
pub open spec fn u64_be(n: u64) -> Seq<u8> {
    seq![
        ((n >> 56) & 0xff) as u8,
        ((n >> 48) & 0xff) as u8,
        ((n >> 40) & 0xff) as u8,
        ((n >> 32) & 0xff) as u8,
        ((n >> 24) & 0xff) as u8,
        ((n >> 16) & 0xff) as u8,
        ((n >> 8) & 0xff) as u8,
        (n & 0xff) as u8,
    ]
}

/// The value eight big-endian bytes denote.
pub open spec fn be_val(s: Seq<u8>) -> u64
    recommends
        s.len() == 8,
{
    ((s[0] as u64) << 56) | ((s[1] as u64) << 48) | ((s[2] as u64) << 40) | ((s[3] as u64) << 32)
        | ((s[4] as u64) << 24) | ((s[5] as u64) << 16) | ((s[6] as u64) << 8) | (s[7] as u64)
}

/// Reading back the eight big-endian bytes of `n` yields `n`.
pub proof fn lemma_be_val_of_u64_be(n: u64)
    ensures
        be_val(u64_be(n)) == n,
{
    assert(((((((n >> 56) & 0xff) as u8) as u64) << 56) | (((((n >> 48) & 0xff) as u8) as u64)
        << 48) | (((((n >> 40) & 0xff) as u8) as u64) << 40) | (((((n >> 32) & 0xff) as u8) as u64)
        << 32) | (((((n >> 24) & 0xff) as u8) as u64) << 24) | (((((n >> 16) & 0xff) as u8) as u64)
        << 16) | (((((n >> 8) & 0xff) as u8) as u64) << 8) | (((n & 0xff) as u8) as u64)) == n)
        by (bit_vector);
}

/// The big-endian encoding of a `u64` is injective.
pub proof fn lemma_u64_be_injective(a: u64, b: u64)
    ensures
        u64_be(a) == u64_be(b) ==> a == b,
{
    if u64_be(a) == u64_be(b) {
        lemma_be_val_of_u64_be(a);
        lemma_be_val_of_u64_be(b);
    }
}

/// The concatenated big-endian encodings of a list of integers.
pub open spec fn spec_encode_u64s(l: Seq<u64>) -> Seq<u8>
    decreases l.len(),
{
    if l.len() == 0 {
        Seq::empty()
    } else {
        u64_be(l[0]) + spec_encode_u64s(l.drop_first())
    }
}

/// The canonical encoding of one field: a tag byte, then a fixed-width
/// length where the contents are variable, then the contents.
pub open spec fn spec_encode_field(f: FieldModel) -> Seq<u8> {
    match f {
        FieldModel::Text(t) => seq![TAG_TEXT] + u64_be(encode_utf8(t).len() as u64) + encode_utf8(
            t,
        ),
        FieldModel::UInt(n) => seq![TAG_UINT] + u64_be(n),
        FieldModel::Num(bits) => seq![TAG_NUM] + u64_be(bits),
        FieldModel::UIntList(l) => seq![TAG_LIST] + u64_be(l.len() as u64) + spec_encode_u64s(l),
    }
}

/// The concatenated encodings of a sequence of fields.
pub open spec fn spec_encode_fields(fs: Seq<FieldModel>) -> Seq<u8>
    decreases fs.len(),
{
    if fs.len() == 0 {
        Seq::empty()
    } else {
        spec_encode_field(fs[0]) + spec_encode_fields(fs.drop_first())
    }
}

/// The canonical encoding of a payload: its field count, then its fields in
/// schema order.
pub open spec fn spec_encode_payload(fs: Seq<FieldModel>) -> Seq<u8> {
    u64_be(fs.len() as u64) + spec_encode_fields(fs)
}

/// Appending an integer to a list appends its eight bytes to the encoding.
pub proof fn lemma_encode_u64s_snoc(l: Seq<u64>, x: u64)
    ensures
        spec_encode_u64s(l.push(x)) == spec_encode_u64s(l) + u64_be(x),
    decreases l.len(),
{
    if l.len() == 0 {
        assert(l.push(x)[0] == x);
        assert(l.push(x).drop_first() =~= Seq::<u64>::empty());
        assert(spec_encode_u64s(l.push(x).drop_first()) =~= Seq::<u8>::empty());
        assert(spec_encode_u64s(l.push(x)) =~= spec_encode_u64s(l) + u64_be(x));
    } else {
        assert(l.push(x).drop_first() =~= l.drop_first().push(x));
        lemma_encode_u64s_snoc(l.drop_first(), x);
        assert(spec_encode_u64s(l.push(x)) =~= spec_encode_u64s(l) + u64_be(x));
    }
}

/// Appending a field to a sequence appends its encoding to the whole.
pub proof fn lemma_encode_fields_snoc(fs: Seq<FieldModel>, f: FieldModel)
    ensures
        spec_encode_fields(fs.push(f)) == spec_encode_fields(fs) + spec_encode_field(f),
    decreases fs.len(),
{
    if fs.len() == 0 {
        assert(fs.push(f)[0] == f);
        assert(fs.push(f).drop_first() =~= Seq::<FieldModel>::empty());
        assert(spec_encode_fields(fs.push(f).drop_first()) =~= Seq::<u8>::empty());
        assert(spec_encode_fields(fs.push(f)) =~= spec_encode_fields(fs) + spec_encode_field(f));
    } else {
        assert(fs.push(f).drop_first() =~= fs.drop_first().push(f));
        lemma_encode_fields_snoc(fs.drop_first(), f);
        assert(spec_encode_fields(fs.push(f)) =~= spec_encode_fields(fs) + spec_encode_field(f));
    }
}

/// A list of integers encodes to exactly eight bytes per element.
pub proof fn lemma_encode_u64s_len(l: Seq<u64>)
    ensures
        spec_encode_u64s(l).len() == 8 * l.len(),
    decreases l.len(),
{
    if l.len() > 0 {
        lemma_encode_u64s_len(l.drop_first());
    }
}

/// The tag byte that opens the encoding of a field.
pub open spec fn field_tag(f: FieldModel) -> u8 {
    match f {
        FieldModel::Text(_) => TAG_TEXT,
        FieldModel::UInt(_) => TAG_UINT,
        FieldModel::Num(_) => TAG_NUM,
        FieldModel::UIntList(_) => TAG_LIST,
    }
}

/// Every field encoding opens with its tag byte and is at least nine bytes
/// long: a tag and one eight-byte group.
pub proof fn lemma_field_enc_shape(f: FieldModel)
    ensures
        spec_encode_field(f).len() >= 9,
        spec_encode_field(f)[0] == field_tag(f),
{
    match f {
        FieldModel::Text(t) => {
            assert(spec_encode_field(f)[0] == TAG_TEXT);
        },
        FieldModel::UInt(n) => {
            assert(spec_encode_field(f)[0] == TAG_UINT);
        },
        FieldModel::Num(bits) => {
            assert(spec_encode_field(f)[0] == TAG_NUM);
        },
        FieldModel::UIntList(l) => {
            lemma_encode_u64s_len(l);
            assert(spec_encode_field(f)[0] == TAG_LIST);
        },
    }
}

/// Two lists of integers with the same length and the same encoding are the
/// same list.
pub proof fn lemma_encode_u64s_injective(l1: Seq<u64>, l2: Seq<u64>)
    requires
        l1.len() == l2.len(),
        spec_encode_u64s(l1) == spec_encode_u64s(l2),
    ensures
        l1 == l2,
    decreases l1.len(),
{
    if l1.len() == 0 {
        assert(l1 =~= l2);
    } else {
        let s = spec_encode_u64s(l1);
        lemma_encode_u64s_len(l1.drop_first());
        lemma_encode_u64s_len(l2.drop_first());
        assert(u64_be(l1[0]) =~= s.subrange(0, 8));
        assert(u64_be(l2[0]) =~= s.subrange(0, 8));
        lemma_u64_be_injective(l1[0], l2[0]);
        assert(spec_encode_u64s(l1.drop_first()) =~= s.subrange(8, s.len() as int));
        assert(spec_encode_u64s(l2.drop_first()) =~= s.subrange(8, s.len() as int));
        lemma_encode_u64s_injective(l1.drop_first(), l2.drop_first());
        assert forall|i: int| 0 <= i < l1.len() implies l1[i] == l2[i] by {
            if i > 0 {
                assert(l1.drop_first()[i - 1] == l1[i]);
                assert(l2.drop_first()[i - 1] == l2[i]);
            }
        }
        assert(l1 =~= l2);
    }
}

/// The field encoding is prefix-free: when two encodings open the same byte
/// string, the fields agree and so do the remainders. This is what lets a
/// decoder be deterministic and makes the whole encoding injective.
pub proof fn lemma_field_prefix_free(f1: FieldModel, f2: FieldModel, r1: Seq<u8>, r2: Seq<u8>)
    requires
        field_encodable(f1),
        field_encodable(f2),
        spec_encode_field(f1) + r1 == spec_encode_field(f2) + r2,
    ensures
        f1 == f2,
        r1 == r2,
{
    let e1 = spec_encode_field(f1);
    let e2 = spec_encode_field(f2);
    let s = e1 + r1;
    lemma_field_enc_shape(f1);
    lemma_field_enc_shape(f2);
    assert(s[0] == e1[0]);
    assert(s[0] == e2[0]);
    match (f1, f2) {
        (FieldModel::Text(t1), FieldModel::Text(t2)) => {
            let b1 = vstd::utf8::encode_utf8(t1);
            let b2 = vstd::utf8::encode_utf8(t2);
            assert(u64_be(b1.len() as u64) =~= s.subrange(1, 9));
            assert(u64_be(b2.len() as u64) =~= s.subrange(1, 9));
            lemma_u64_be_injective(b1.len() as u64, b2.len() as u64);
            assert(b1.len() == b2.len());
            assert(b1 =~= s.subrange(9, 9 + b1.len() as int));
            assert(b2 =~= s.subrange(9, 9 + b2.len() as int));
            vstd::utf8::encode_utf8_decode_utf8(t1);
            vstd::utf8::encode_utf8_decode_utf8(t2);
            assert(t1 == t2);
            assert(r1 =~= s.subrange(9 + b1.len() as int, s.len() as int));
            assert(r2 =~= s.subrange(9 + b2.len() as int, s.len() as int));
        },
        (FieldModel::UInt(n1), FieldModel::UInt(n2)) => {
            assert(u64_be(n1) =~= s.subrange(1, 9));
            assert(u64_be(n2) =~= s.subrange(1, 9));
            lemma_u64_be_injective(n1, n2);
            assert(r1 =~= s.subrange(9, s.len() as int));
            assert(r2 =~= s.subrange(9, s.len() as int));
        },
        (FieldModel::Num(x1), FieldModel::Num(x2)) => {
            assert(u64_be(x1) =~= s.subrange(1, 9));
            assert(u64_be(x2) =~= s.subrange(1, 9));
            lemma_u64_be_injective(x1, x2);
            assert(r1 =~= s.subrange(9, s.len() as int));
            assert(r2 =~= s.subrange(9, s.len() as int));
        },
        (FieldModel::UIntList(l1), FieldModel::UIntList(l2)) => {
            lemma_encode_u64s_len(l1);
            lemma_encode_u64s_len(l2);
            assert(u64_be(l1.len() as u64) =~= s.subrange(1, 9));
            assert(u64_be(l2.len() as u64) =~= s.subrange(1, 9));
            lemma_u64_be_injective(l1.len() as u64, l2.len() as u64);
            assert(l1.len() == l2.len());
            assert(spec_encode_u64s(l1) =~= s.subrange(9, 9 + 8 * l1.len() as int));
            assert(spec_encode_u64s(l2) =~= s.subrange(9, 9 + 8 * l2.len() as int));
            lemma_encode_u64s_injective(l1, l2);
            assert(r1 =~= s.subrange(9 + 8 * l1.len() as int, s.len() as int));
            assert(r2 =~= s.subrange(9 + 8 * l2.len() as int, s.len() as int));
        },
        _ => {
            assert(field_tag(f1) == field_tag(f2));
        },
    }
}

/// Prefix-freedom lifted to field sequences of equal length.
pub proof fn lemma_fields_prefix_free(
    fs1: Seq<FieldModel>,
    fs2: Seq<FieldModel>,
    r1: Seq<u8>,
    r2: Seq<u8>,
)
    requires
        fs1.len() == fs2.len(),
        forall|i: int| 0 <= i < fs1.len() ==> field_encodable(#[trigger] fs1[i]),
        forall|i: int| 0 <= i < fs2.len() ==> field_encodable(#[trigger] fs2[i]),
        spec_encode_fields(fs1) + r1 == spec_encode_fields(fs2) + r2,
    ensures
        fs1 == fs2,
        r1 == r2,
    decreases fs1.len(),
{
    if fs1.len() == 0 {
        assert(fs1 =~= fs2);
        assert(r1 =~= spec_encode_fields(fs1) + r1);
        assert(r2 =~= spec_encode_fields(fs2) + r2);
    } else {
        let t1 = fs1.drop_first();
        let t2 = fs2.drop_first();
        assert(spec_encode_fields(fs1) + r1 =~= spec_encode_field(fs1[0]) + (spec_encode_fields(t1)
            + r1));
        assert(spec_encode_fields(fs2) + r2 =~= spec_encode_field(fs2[0]) + (spec_encode_fields(t2)
            + r2));
        lemma_field_prefix_free(fs1[0], fs2[0], spec_encode_fields(t1) + r1, spec_encode_fields(t2)
            + r2);
        assert(forall|i: int| 0 <= i < t1.len() ==> field_encodable(#[trigger] t1[i]));
        assert(forall|i: int| 0 <= i < t2.len() ==> field_encodable(#[trigger] t2[i]));
        lemma_fields_prefix_free(t1, t2, r1, r2);
        assert forall|i: int| 0 <= i < fs1.len() implies fs1[i] == fs2[i] by {
            if i > 0 {
                assert(t1[i - 1] == fs1[i]);
                assert(t2[i - 1] == fs2[i]);
            }
        }
        assert(fs1 =~= fs2);
    }
}

/// The canonical payload encoding is injective: equal encodings mean equal
/// payloads. Together with the scope tag this is what makes a signature
/// over the canonical bytes bind one payload and no other.
pub proof fn lemma_payload_encoding_injective(fs1: Seq<FieldModel>, fs2: Seq<FieldModel>)
    requires
        payload_encodable(fs1),
        payload_encodable(fs2),
        spec_encode_payload(fs1) == spec_encode_payload(fs2),
    ensures
        fs1 == fs2,
{
    let s = spec_encode_payload(fs1);
    assert(u64_be(fs1.len() as u64) =~= s.subrange(0, 8));
    assert(u64_be(fs2.len() as u64) =~= s.subrange(0, 8));
    lemma_u64_be_injective(fs1.len() as u64, fs2.len() as u64);
    assert(fs1.len() == fs2.len());
    assert(spec_encode_fields(fs1) =~= s.subrange(8, s.len() as int));
    assert(spec_encode_fields(fs2) =~= s.subrange(8, s.len() as int));
    assert(spec_encode_fields(fs1) + Seq::<u8>::empty() == spec_encode_fields(fs2)
        + Seq::<u8>::empty());
    lemma_fields_prefix_free(fs1, fs2, Seq::empty(), Seq::empty());
}

/// A field sequence's encoding splits at any point into the encodings of
/// its two halves.
pub proof fn lemma_encode_fields_split(fs: Seq<FieldModel>, k: int)
    requires
        0 <= k <= fs.len(),
    ensures
        spec_encode_fields(fs) == spec_encode_fields(fs.take(k)) + spec_encode_fields(fs.skip(k)),
    decreases k,
{
    if k == 0 {
        assert(fs.take(0) =~= Seq::<FieldModel>::empty());
        assert(fs.skip(0) =~= fs);
        assert(spec_encode_fields(fs) =~= spec_encode_fields(fs.take(0)) + spec_encode_fields(
            fs.skip(0),
        ));
    } else {
        let rest = fs.drop_first();
        lemma_encode_fields_split(rest, k - 1);
        assert(fs.take(k)[0] == fs[0]);
        assert(fs.take(k).drop_first() =~= rest.take(k - 1));
        assert(fs.skip(k) =~= rest.skip(k - 1));
        assert(spec_encode_fields(fs) =~= spec_encode_fields(fs.take(k)) + spec_encode_fields(
            fs.skip(k),
        ));
    }
}

/// Appends the eight big-endian bytes of `n`.
pub(crate) fn push_u64_be(out: &mut Vec<u8>, n: u64)
    ensures
        final(out)@ == old(out)@ + u64_be(n),
{
    out.push(((n >> 56) & 0xff) as u8);
    out.push(((n >> 48) & 0xff) as u8);
    out.push(((n >> 40) & 0xff) as u8);
    out.push(((n >> 32) & 0xff) as u8);
    out.push(((n >> 24) & 0xff) as u8);
    out.push(((n >> 16) & 0xff) as u8);
    out.push(((n >> 8) & 0xff) as u8);
    out.push((n & 0xff) as u8);
    proof {
        assert(out@ =~= old(out)@ + u64_be(n));
    }
}

/// Appends the canonical encoding of one field, or reports that the field
/// has none and leaves the buffer as it was.
fn push_field(out: &mut Vec<u8>, f: &Field) -> (r: Result<(), EncodeError>)
    ensures
        r matches Ok(u) ==> field_encodable(f@) && final(out)@ == old(out)@
            + spec_encode_field(f@),
        r matches Err(e) ==> !field_encodable(f@) && e == EncodeError::NonFiniteNumber
            && final(out)@ == old(out)@,
{
    match f {
        Field::Text(s) => {
            let mut bytes = s.as_str().as_bytes_vec();
            out.push(TAG_TEXT);
            push_u64_be(out, bytes.len() as u64);
            out.append(&mut bytes);
            proof {
                assert(out@ =~= old(out)@ + spec_encode_field(f@));
            }
            Ok(())
        },
        Field::UInt(n) => {
            out.push(TAG_UINT);
            push_u64_be(out, *n);
            proof {
                assert(out@ =~= old(out)@ + spec_encode_field(f@));
            }
            Ok(())
        },
        Field::Num(bits) => {
            if finite_bits(*bits) {
                out.push(TAG_NUM);
                push_u64_be(out, *bits);
                proof {
                    assert(out@ =~= old(out)@ + spec_encode_field(f@));
                }
                Ok(())
            } else {
                Err(EncodeError::NonFiniteNumber)
            }
        },
        Field::UIntList(l) => {
            out.push(TAG_LIST);
            push_u64_be(out, l.len() as u64);
            let ghost pre = out@;
            let mut i: usize = 0;
            while i < l.len()
                invariant
                    i <= l@.len(),
                    out@ == pre + spec_encode_u64s(l@.take(i as int)),
                decreases l@.len() - i,
            {
                proof {
                    assert(l@.take(i + 1) =~= l@.take(i as int).push(l@[i as int]));
                    lemma_encode_u64s_snoc(l@.take(i as int), l@[i as int]);
                }
                push_u64_be(out, l[i]);
                i = i + 1;
            }
            proof {
                assert(l@.take(l@.len() as int) =~= l@);
                assert(out@ =~= old(out)@ + spec_encode_field(f@));
            }
            Ok(())
        },
    }
}

/// Produces the canonical encoding of a payload, or the reason it has none.
/// Exactly the payloads with a canonical encoding succeed; nothing is
/// coerced silently.
pub fn encode_payload(p: &Payload) -> (r: Result<Vec<u8>, EncodeError>)
    ensures
        r matches Ok(v) ==> payload_encodable(p@) && v@ == spec_encode_payload(p@),
        r matches Err(e) ==> !payload_encodable(p@) && e == EncodeError::NonFiniteNumber,
{
    let mut out: Vec<u8> = Vec::new();
    push_u64_be(&mut out, p.fields.len() as u64);
    let ghost pre = out@;
    let mut i: usize = 0;
    while i < p.fields.len()
        invariant
            i <= p.fields@.len(),
            pre == u64_be(p@.len() as u64),
            out@ == pre + spec_encode_fields(p@.take(i as int)),
            forall|j: int| 0 <= j < i ==> field_encodable(#[trigger] p@[j]),
        decreases p.fields@.len() - i,
    {
        proof {
            assert(p@.take(i + 1) =~= p@.take(i as int).push(p@[i as int]));
            lemma_encode_fields_snoc(p@.take(i as int), p@[i as int]);
        }
        match push_field(&mut out, &p.fields[i]) {
            Ok(_) => {},
            Err(e) => {
                return Err(e);
            },
        }
        i = i + 1;
    }
    proof {
        assert(p@.take(p@.len() as int) =~= p@);
    }
    Ok(out)
}

/// Rebuilding the big-endian bytes of the value read from eight bytes
/// yields those bytes again.
pub proof fn lemma_u64_be_of_be_val(s: Seq<u8>)
    requires
        s.len() == 8,
    ensures
        u64_be(be_val(s)) == s,
{
    let b0 = s[0];
    let b1 = s[1];
    let b2 = s[2];
    let b3 = s[3];
    let b4 = s[4];
    let b5 = s[5];
    let b6 = s[6];
    let b7 = s[7];
    let n = ((b0 as u64) << 56) | ((b1 as u64) << 48) | ((b2 as u64) << 40) | ((b3 as u64) << 32)
        | ((b4 as u64) << 24) | ((b5 as u64) << 16) | ((b6 as u64) << 8) | (b7 as u64);
    assert(be_val(s) == n);
    assert((((n >> 56) & 0xff) as u8) == b0 && (((n >> 48) & 0xff) as u8) == b1 && (((n >> 40)
        & 0xff) as u8) == b2 && (((n >> 32) & 0xff) as u8) == b3 && (((n >> 24) & 0xff) as u8) == b4
        && (((n >> 16) & 0xff) as u8) == b5 && (((n >> 8) & 0xff) as u8) == b6 && ((n
        & 0xff) as u8) == b7) by {
        assert(n == ((b0 as u64) << 56) | ((b1 as u64) << 48) | ((b2 as u64) << 40) | ((
        b3 as u64) << 32) | ((b4 as u64) << 24) | ((b5 as u64) << 16) | ((b6 as u64) << 8) | (
        b7 as u64) ==> (((n >> 56) & 0xff) as u8) == b0 && (((n >> 48) & 0xff) as u8) == b1 && (((n
            >> 40) & 0xff) as u8) == b2 && (((n >> 32) & 0xff) as u8) == b3 && (((n >> 24)
            & 0xff) as u8) == b4 && (((n >> 16) & 0xff) as u8) == b5 && (((n >> 8)
            & 0xff) as u8) == b6 && ((n & 0xff) as u8) == b7) by (bit_vector);
    }
    assert(u64_be(be_val(s)) =~= s);
}

/// Reads the value of eight big-endian bytes at `pos`.
fn read_u64_be(bytes: &Vec<u8>, pos: usize) -> (n: u64)
    requires
        pos + 8 <= bytes@.len(),
    ensures
        n == be_val(bytes@.subrange(pos as int, pos + 8)),
{
    let blen = bytes.len();
    let n = ((bytes[pos] as u64) << 56) | ((bytes[pos + 1] as u64) << 48) | ((bytes[pos
        + 2] as u64) << 40) | ((bytes[pos + 3] as u64) << 32) | ((bytes[pos + 4] as u64) << 24) | ((
    bytes[pos + 5] as u64) << 16) | ((bytes[pos + 6] as u64) << 8) | (bytes[pos + 7] as u64);
    proof {
        let s = bytes@.subrange(pos as int, pos + 8);
        assert(s[0] == bytes@[pos as int] && s[1] == bytes@[pos + 1] && s[2] == bytes@[pos + 2]
            && s[3] == bytes@[pos + 3] && s[4] == bytes@[pos + 4] && s[5] == bytes@[pos + 5] && s[6]
            == bytes@[pos + 6] && s[7] == bytes@[pos + 7]);
    }
    n
}

/// Relies on `String::from_utf8`: it succeeds exactly on valid UTF-8, and
/// the characters of the returned string are the decoding of the input, so
/// they re-encode to the input bytes.
#[verifier::external_body]
fn bytes_to_string(v: Vec<u8>) -> (r: Option<String>)
    ensures
        r matches Some(s) ==> encode_utf8(s@) == v@,
        vstd::utf8::valid_utf8(v@) ==> r is Some,
{
    match String::from_utf8(v) {
        Ok(s) => Some(s),
        Err(_) => None,
    }
}

/// Whether the canonical encoding of some encodable field sits at `pos` in
/// `bytes`.
pub open spec fn field_encoded_at(bytes: Seq<u8>, pos: int, fm: FieldModel) -> bool {
    &&& field_encodable(fm)
    &&& pos + spec_encode_field(fm).len() <= bytes.len()
    &&& bytes.subrange(pos, pos + spec_encode_field(fm).len() as int) == spec_encode_field(fm)
}

/// Decodes one field at `pos`. Returns the field and the position just past
/// it when — and only when — the canonical encoding of some encodable field
/// sits at `pos`; the bytes consumed re-encode to exactly that span.
#[verifier::rlimit(100)]
pub fn decode_field(bytes: &Vec<u8>, pos: usize) -> (r: Option<(Field, usize)>)
    requires
        pos <= bytes@.len(),
    ensures
        r matches Some(p) ==> field_encodable(p.0@) && pos < p.1 <= bytes@.len()
            && bytes@.subrange(pos as int, p.1 as int) == spec_encode_field(p.0@),
        r is None ==> forall|fm: FieldModel| !field_encoded_at(bytes@, pos as int, fm),
{
    let len = bytes.len();
    if len - pos < 9 {
        proof {
            assert forall|fm: FieldModel| !field_encoded_at(bytes@, pos as int, fm) by {
                lemma_field_enc_shape(fm);
            }
        }
        return None;
    }
    let tag = bytes[pos];
    let n = read_u64_be(bytes, pos + 1);
    let ghost group = bytes@.subrange(pos + 1, pos + 9);
    proof {
        lemma_u64_be_of_be_val(group);
    }
    if tag == TAG_UINT {
        let f = Field::UInt(n);
        proof {
            assert(bytes@.subrange(pos as int, pos + 9) =~= seq![TAG_UINT] + u64_be(n));
        }
        Some((f, pos + 9))
    } else if tag == TAG_NUM {
        if finite_bits(n) {
            let f = Field::Num(n);
            proof {
                assert(bytes@.subrange(pos as int, pos + 9) =~= seq![TAG_NUM] + u64_be(n));
            }
            Some((f, pos + 9))
        } else {
            proof {
                assert forall|fm: FieldModel| !field_encoded_at(bytes@, pos as int, fm) by {
                    if field_encoded_at(bytes@, pos as int, fm) {
                        lemma_field_enc_shape(fm);
                        let e = spec_encode_field(fm);
                        assert(bytes@[pos as int] == e[0]);
                        match fm {
                            FieldModel::Num(x) => {
                                assert(u64_be(x) =~= e.subrange(1, 9));
                                assert(e.subrange(1, 9) =~= group);
                                lemma_be_val_of_u64_be(x);
                            },
                            _ => {},
                        }
                    }
                }
            }
            None
        }
    } else if tag == TAG_TEXT {
        let avail = len - pos - 9;
        if n > avail as u64 {
            proof {
                assert forall|fm: FieldModel| !field_encoded_at(bytes@, pos as int, fm) by {
                    if field_encoded_at(bytes@, pos as int, fm) {
                        lemma_field_enc_shape(fm);
                        let e = spec_encode_field(fm);
                        assert(bytes@[pos as int] == e[0]);
                        match fm {
                            FieldModel::Text(t) => {
                                let bl = encode_utf8(t).len();
                                assert(u64_be(bl as u64) =~= e.subrange(1, 9));
                                assert(e.subrange(1, 9) =~= group);
                                lemma_be_val_of_u64_be(bl as u64);
                                assert(e.len() == 9 + bl);
                            },
                            _ => {},
                        }
                    }
                }
            }
            return None;
        }
        let l = n as usize;
        let mut body: Vec<u8> = Vec::new();
        let mut j: usize = 0;
        while j < l
            invariant
                len == bytes@.len(),
                pos + 9 + l <= len,
                j <= l,
                body@ == bytes@.subrange(pos + 9, pos + 9 + j as int),
            decreases l - j,
        {
            proof {
                assert(bytes@.subrange(pos + 9, pos + 9 + (j + 1)) =~= bytes@.subrange(
                    pos + 9,
                    pos + 9 + j as int,
                ).push(bytes@[pos + 9 + j]));
            }
            body.push(bytes[pos + 9 + j]);
            j = j + 1;
        }
        let ghost gbody = body@;
        match bytes_to_string(body) {
            Some(s) => {
                let f = Field::Text(s);
                proof {
                    assert(encode_utf8(s@) == gbody);
                    assert(encode_utf8(s@).len() == l);
                    assert(u64_be(encode_utf8(s@).len() as u64) == u64_be(n));
                    assert(bytes@.subrange(pos as int, pos + 9 + l) =~= seq![TAG_TEXT] + u64_be(
                        encode_utf8(s@).len() as u64,
                    ) + encode_utf8(s@));
                }
                Some((f, pos + 9 + l))
            },
            None => {
                proof {
                    assert forall|fm: FieldModel| !field_encoded_at(bytes@, pos as int, fm) by {
                        if field_encoded_at(bytes@, pos as int, fm) {
                            lemma_field_enc_shape(fm);
                            let e = spec_encode_field(fm);
                            assert(bytes@[pos as int] == e[0]);
                            match fm {
                                FieldModel::Text(t) => {
                                    let bl = encode_utf8(t).len();
                                    assert(u64_be(bl as u64) =~= e.subrange(1, 9));
                                    assert(e.subrange(1, 9) =~= group);
                                    lemma_be_val_of_u64_be(bl as u64);
                                    assert(bl == l);
                                    assert(encode_utf8(t) =~= e.subrange(9, 9 + bl as int));
                                    assert(e.subrange(9, 9 + bl as int) =~= gbody);
                                    vstd::utf8::encode_utf8_valid_utf8(t);
                                },
                                _ => {},
                            }
                        }
                    }
                }
                None
            },
        }
    } else if tag == TAG_LIST {
        let avail = len - pos - 9;
        let max_cnt = avail / 8;
        if n > max_cnt as u64 {
            proof {
                vstd::arithmetic::div_mod::lemma_fundamental_div_mod(avail as int, 8);
                vstd::arithmetic::div_mod::lemma_mod_bound(avail as int, 8);
                assert forall|fm: FieldModel| !field_encoded_at(bytes@, pos as int, fm) by {
                    if field_encoded_at(bytes@, pos as int, fm) {
                        lemma_field_enc_shape(fm);
                        let e = spec_encode_field(fm);
                        assert(bytes@[pos as int] == e[0]);
                        match fm {
                            FieldModel::UIntList(el) => {
                                lemma_encode_u64s_len(el);
                                assert(u64_be(el.len() as u64) =~= e.subrange(1, 9));
                                assert(e.subrange(1, 9) =~= group);
                                lemma_be_val_of_u64_be(el.len() as u64);
                                assert(e.len() == 9 + 8 * el.len());
                                assert(8 * el.len() <= avail);
                            },
                            _ => {},
                        }
                    }
                }
            }
            return None;
        }
        let cnt = n as usize;
        proof {
            vstd::arithmetic::div_mod::lemma_fundamental_div_mod(avail as int, 8);
            vstd::arithmetic::div_mod::lemma_mod_bound(avail as int, 8);
            assert(8 * cnt <= avail);
        }
        let mut elems: Vec<u64> = Vec::new();
        let mut j: usize = 0;
        while j < cnt
            invariant
                len == bytes@.len(),
                pos + 9 + 8 * cnt <= len,
                j <= cnt,
                elems@.len() == j,
                spec_encode_u64s(elems@) == bytes@.subrange(pos + 9, pos + 9 + 8 * j as int),
            decreases cnt - j,
        {
            let e = read_u64_be(bytes, pos + 9 + 8 * j);
            proof {
                let part = bytes@.subrange(pos + 9 + 8 * j, pos + 9 + 8 * j + 8);
                lemma_u64_be_of_be_val(part);
                lemma_encode_u64s_snoc(elems@, e);
                assert(bytes@.subrange(pos + 9, pos + 9 + 8 * (j + 1)) =~= bytes@.subrange(
                    pos + 9,
                    pos + 9 + 8 * j as int,
                ) + part);
            }
            elems.push(e);
            j = j + 1;
        }
        let f = Field::UIntList(elems);
        proof {
            assert(bytes@.subrange(pos as int, pos + 9 + 8 * cnt) =~= seq![TAG_LIST] + u64_be(n)
                + spec_encode_u64s(f@->UIntList_0));
        }
        Some((f, pos + 9 + 8 * cnt))
    } else {
        proof {
            assert forall|fm: FieldModel| !field_encoded_at(bytes@, pos as int, fm) by {
                if field_encoded_at(bytes@, pos as int, fm) {
                    lemma_field_enc_shape(fm);
                    let e = spec_encode_field(fm);
                    assert(bytes@[pos as int] == e[0]);
                }
            }
        }
        None
    }
}

/// In the encoding of an encodable payload, the `k`-th field's encoding
/// sits right after the count and the fields before it, and the bytes from
/// there to the end are that encoding followed by the remaining fields'.
proof fn lemma_payload_structure(bytes: Seq<u8>, fs: Seq<FieldModel>, k: int)
    requires
        payload_encodable(fs),
        spec_encode_payload(fs) == bytes,
        0 <= k < fs.len(),
    ensures
        ({
            let pos = 8 + spec_encode_fields(fs.take(k)).len();
            &&& field_encoded_at(bytes, pos as int, fs[k])
            &&& bytes.subrange(pos as int, bytes.len() as int) == spec_encode_field(fs[k])
                + spec_encode_fields(fs.skip(k + 1))
        }),
{
    lemma_encode_fields_split(fs, k);
    let sk = fs.skip(k);
    assert(sk[0] == fs[k]);
    assert(sk.drop_first() =~= fs.skip(k + 1));
    let pos = 8 + spec_encode_fields(fs.take(k)).len();
    assert(bytes.subrange(pos as int, bytes.len() as int) =~= spec_encode_field(fs[k])
        + spec_encode_fields(fs.skip(k + 1)));
    assert(bytes.subrange(pos as int, pos + spec_encode_field(fs[k]).len() as int)
        =~= spec_encode_field(fs[k]));
}

/// An encodable payload's encoding opens with eight bytes that carry its
/// field count, and its length is the count bytes plus its fields'.
proof fn lemma_payload_count(bytes: Seq<u8>, fs: Seq<FieldModel>)
    requires
        payload_encodable(fs),
        spec_encode_payload(fs) == bytes,
    ensures
        bytes.len() >= 8,
        fs.len() == be_val(bytes.subrange(0, 8)),
        8 + spec_encode_fields(fs).len() == bytes.len(),
{
    assert(u64_be(fs.len() as u64) =~= bytes.subrange(0, 8));
    lemma_be_val_of_u64_be(fs.len() as u64);
    assert(spec_encode_fields(fs) =~= bytes.subrange(8, bytes.len() as int));
}

/// Decodes the canonical encoding of a payload. Returns a payload when —
/// and only when — the bytes are exactly the canonical encoding of some
/// encodable payload, and what it returns re-encodes to exactly these
/// bytes: decoding and re-encoding is the identity on canonical bytes.
#[verifier::rlimit(100)]
pub fn decode_payload(bytes: &Vec<u8>) -> (r: Option<Payload>)
    ensures
        r matches Some(p) ==> payload_encodable(p@) && spec_encode_payload(p@) == bytes@,
        r is None ==> forall|fs: Seq<FieldModel>|
            payload_encodable(fs) ==> #[trigger] spec_encode_payload(fs) != bytes@,
{
    let len = bytes.len();
    if len < 8 {
        proof {
            assert forall|fs: Seq<FieldModel>|
                payload_encodable(fs) implies #[trigger] spec_encode_payload(fs) != bytes@ by {
                if spec_encode_payload(fs) == bytes@ {
                    lemma_payload_count(bytes@, fs);
                }
            }
        }
        return None;
    }
    let cnt = read_u64_be(bytes, 0);
    proof {
        lemma_u64_be_of_be_val(bytes@.subrange(0, 8));
    }
    let mut fields: Vec<Field> = Vec::new();
    let mut parsed: u64 = 0;
    let mut pos: usize = 8;
    proof {
        assert(fields_view(fields@) =~= Seq::<FieldModel>::empty());
        assert(u64_be(cnt) + spec_encode_fields(fields_view(fields@)) =~= bytes@.subrange(0, 8));
        assert forall|fs: Seq<FieldModel>|
            payload_encodable(fs) && #[trigger] spec_encode_payload(fs)
                == bytes@ implies fs.take(0) == fields_view(fields@) by {
            assert(fs.take(0) =~= Seq::<FieldModel>::empty());
        }
    }
    while parsed < cnt
        invariant
            len == bytes@.len(),
            8 <= pos <= len,
            parsed <= cnt,
            cnt == be_val(bytes@.subrange(0, 8)),
            fields@.len() == parsed,
            forall|j: int|
                0 <= j < fields@.len() ==> field_encodable(#[trigger] fields_view(fields@)[j]),
            u64_be(cnt) + spec_encode_fields(fields_view(fields@)) == bytes@.subrange(0, pos as int),
            forall|fs: Seq<FieldModel>|
                payload_encodable(fs) && #[trigger] spec_encode_payload(fs) == bytes@ ==> fs.take(
                    parsed as int,
                ) == fields_view(fields@),
        decreases cnt - parsed,
    {
        match decode_field(bytes, pos) {
            None => {
                proof {
                    assert forall|fs: Seq<FieldModel>|
                        payload_encodable(fs) implies #[trigger] spec_encode_payload(fs)
                        != bytes@ by {
                        if spec_encode_payload(fs) == bytes@ {
                            lemma_payload_count(bytes@, fs);
                            assert(fs.take(parsed as int) == fields_view(fields@));
                            lemma_payload_structure(bytes@, fs, parsed as int);
                            assert(spec_encode_fields(fs.take(parsed as int))
                                == spec_encode_fields(fields_view(fields@)));
                            assert(u64_be(cnt).len() == 8);
                            assert(bytes@.subrange(0, pos as int).len() == pos);
                            assert(8 + spec_encode_fields(fs.take(parsed as int)).len() == pos);
                            assert(field_encoded_at(bytes@, pos as int, fs[parsed as int]));
                        }
                    }
                }
                return None;
            },
            Some((f, end)) => {
                let ghost old_fields = fields@;
                let ghost old_pos = pos as int;
                let ghost old_parsed = parsed as int;
                proof {
                    lemma_encode_fields_snoc(fields_view(fields@), f@);
                }
                fields.push(f);
                pos = end;
                parsed = parsed + 1;
                proof {
                    assert(fields_view(fields@) =~= fields_view(old_fields).push(f@));
                    assert(bytes@.subrange(0, pos as int) =~= bytes@.subrange(0, old_pos)
                        + bytes@.subrange(old_pos, pos as int));
                    assert(u64_be(cnt) + spec_encode_fields(fields_view(fields@))
                        =~= bytes@.subrange(0, pos as int));
                    assert forall|fs: Seq<FieldModel>|
                        payload_encodable(fs) && #[trigger] spec_encode_payload(fs)
                            == bytes@ implies fs.take(parsed as int) == fields_view(fields@) by {
                        lemma_payload_count(bytes@, fs);
                        assert(fs.take(old_parsed) == fields_view(old_fields));
                        lemma_payload_structure(bytes@, fs, old_parsed);
                        assert(8 + spec_encode_fields(fs.take(old_parsed)).len() == old_pos);
                        assert(bytes@.subrange(old_pos, len as int) =~= spec_encode_field(f@)
                            + bytes@.subrange(pos as int, len as int));
                        lemma_field_prefix_free(
                            f@,
                            fs[old_parsed],
                            bytes@.subrange(pos as int, len as int),
                            spec_encode_fields(fs.skip(old_parsed + 1)),
                        );
                        assert(fs.take(parsed as int) =~= fs.take(old_parsed).push(
                            fs[old_parsed],
                        ));
                        assert(fs.take(parsed as int) =~= fields_view(fields@));
                    }
                }
            },
        }
    }
    if pos != len {
        proof {
            assert forall|fs: Seq<FieldModel>|
                payload_encodable(fs) implies #[trigger] spec_encode_payload(fs) != bytes@ by {
                if spec_encode_payload(fs) == bytes@ {
                    lemma_payload_count(bytes@, fs);
                    assert(fs.take(parsed as int) =~= fs);
                    assert(spec_encode_fields(fs) == spec_encode_fields(fields_view(fields@)));
                    assert(8 + spec_encode_fields(fields_view(fields@)).len() == pos);
                }
            }
        }
        return None;
    }
    proof {
        let fv = fields_view(fields@);
        assert(bytes@.subrange(0, pos as int) =~= bytes@);
        assert(fv.len() == parsed);
        assert(fv.len() as u64 == cnt);
        assert(spec_encode_payload(fv) =~= bytes@);
    }
    Some(Payload { fields })
}

} // verus!
