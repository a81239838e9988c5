//! The canonical payload model.
//!
//! A payload is a sequence of typed fields in schema order. Field order is
//! part of the schema, never discovered at run time, so the canonical
//! encoding of a payload is unique. Numbers are carried as the bits of an
//! IEEE 754 double so that finiteness can be checked and a non-finite value
//! rejected before anything is hashed or signed.

use vstd::prelude::*;
use vstd::utf8::encode_utf8;

verus! {

/// The mathematical model of one payload field.
pub enum FieldModel {
    /// A text field, as a sequence of Unicode scalar values.
    Text(Seq<char>),
    /// An unsigned 64-bit integer field.
    UInt(u64),
    /// A numeric field, carried as the bits of an IEEE 754 double.
    Num(u64),
    /// A list of unsigned 64-bit integers.
    UIntList(Seq<u64>),
}

/// One field of a payload.
#[derive(Debug, Clone)]
pub enum Field {
    /// A text field.
    Text(String),
    /// An unsigned 64-bit integer field.
    UInt(u64),
    /// A numeric field, carried as the bits of an IEEE 754 double.
    Num(u64),
    /// A list of unsigned 64-bit integers.
    UIntList(Vec<u64>),
}

impl View for Field {
    type V = FieldModel;

    open spec fn view(&self) -> FieldModel {
        match self {
            Field::Text(s) => FieldModel::Text(s@),
            Field::UInt(n) => FieldModel::UInt(*n),
            Field::Num(bits) => FieldModel::Num(*bits),
            Field::UIntList(l) => FieldModel::UIntList(l@),
        }
    }
}

/// A payload in canonical form: its fields in schema order.
#[derive(Debug, Clone)]
pub struct Payload {
    /// The fields, in the fixed order the payload's schema gives them.
    pub fields: Vec<Field>,
}

/// The models of a sequence of fields, in order.
pub open spec fn fields_view(fields: Seq<Field>) -> Seq<FieldModel> {
    fields.map_values(|f: Field| f@)
}

impl View for Payload {
    type V = Seq<FieldModel>;

    open spec fn view(&self) -> Seq<FieldModel> {
        fields_view(self.fields@)
    }
}

/// Whether the bits of an IEEE 754 double denote a finite number: the
/// exponent field is not all ones (all ones means an infinity or a NaN).
pub open spec fn spec_finite_bits(bits: u64) -> bool {
    (bits >> 52) & 0x7ff != 0x7ff
}

/// Executable form of [`spec_finite_bits`].
pub fn finite_bits(bits: u64) -> (r: bool)
    ensures
        r == spec_finite_bits(bits),
{
    (bits >> 52) & 0x7ff != 0x7ff
}

/// Whether a field has a canonical encoding: numeric fields must be finite,
/// and variable-length contents must be addressable by a 64-bit length.
pub open spec fn field_encodable(f: FieldModel) -> bool {
    match f {
        FieldModel::Text(t) => encode_utf8(t).len() <= u64::MAX,
        FieldModel::UInt(_) => true,
        FieldModel::Num(bits) => spec_finite_bits(bits),
        FieldModel::UIntList(l) => l.len() <= u64::MAX,
    }
}

/// Whether a whole payload has a canonical encoding.
pub open spec fn payload_encodable(fields: Seq<FieldModel>) -> bool {
    &&& fields.len() <= u64::MAX
    &&& forall|i: int| 0 <= i < fields.len() ==> field_encodable(#[trigger] fields[i])
}

} // verus!
