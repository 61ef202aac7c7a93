//! What orchard notes are made of.
use crate::bytes::le_value;
use vstd::prelude::*;

verus! {

/// The order of the field over which the orchard curve is defined.
pub open spec fn pallas_base_order() -> nat {
    0x4000_0000_0000_0000_0000_0000_0000_0000 * 0x1_0000_0000_0000_0000 * 0x1_0000_0000_0000_0000
        + 0x2246_98fc_094c_f91b_992d_30ed_0000_0001
}

/// Whether 32 bytes are the canonical encoding of an element of that field.
pub open spec fn canonical_base(b: Seq<u8>) -> bool {
    le_value(b) < pallas_base_order()
}

/// `Nullifier::from_bytes` of `orchard`: a nullifier is an element of the base field of the curve,
/// and only its canonical encoding is accepted.
#[verifier::external_body]
pub(crate) fn nullifier_is_canonical(b: &[u8; 32]) -> (r: bool)
    ensures
        r == canonical_base(b@),
{
    bool::from(orchard::note::Nullifier::from_bytes(b).is_some())
}

/// `Rho::from_bytes` of `orchard`: a rho is an element of the base field of the curve, and only its
/// canonical encoding is accepted.
#[verifier::external_body]
pub(crate) fn rho_is_canonical(b: &[u8; 32]) -> (r: bool)
    ensures
        r == canonical_base(b@),
{
    bool::from(orchard::note::Rho::from_bytes(b).is_some())
}

/// Whether `Address::from_raw_address_bytes` of `orchard` accepts 43 bytes.
pub uninterp spec fn orchard_address_ok(b: Seq<u8>) -> bool;

/// `Address::from_raw_address_bytes` of `orchard`: whether the bytes are a raw orchard address.
#[verifier::external_body]
pub(crate) fn recipient_is_valid(b: &[u8; 43]) -> (r: bool)
    ensures
        r == orchard_address_ok(b@),
{
    bool::from(orchard::Address::from_raw_address_bytes(b).is_some())
}

/// Whether `RandomSeed::from_bytes` of `orchard` accepts a seed for a rho.
pub uninterp spec fn rseed_ok(rseed: Seq<u8>, rho: Seq<u8>) -> bool;

/// `RandomSeed::from_bytes` of `orchard`: whether the bytes are a seed for a note with that rho.
#[verifier::external_body]
pub(crate) fn rseed_is_valid(rseed: &[u8; 32], rho: &[u8; 32]) -> (r: bool)
    requires
        canonical_base(rho@),
    ensures
        r == rseed_ok(rseed@, rho@),
{
    let rho = orchard::note::Rho::from_bytes(rho).unwrap();
    bool::from(orchard::note::RandomSeed::from_bytes(*rseed, &rho).is_some())
}

/// Whether `Note::from_parts` of `orchard` makes a note of some parts.
pub uninterp spec fn note_parts_ok(recipient: Seq<u8>, value: u64, rho: Seq<u8>, rseed: Seq<u8>) -> bool;

/// `Note::from_parts` of `orchard`, for notes of the second plaintext version: whether the parts
/// have a note commitment.
#[verifier::external_body]
pub(crate) fn note_is_valid(
    recipient: &[u8; 43],
    value: u64,
    rho: &[u8; 32],
    rseed: &[u8; 32],
) -> (r: bool)
    requires
        orchard_address_ok(recipient@),
        canonical_base(rho@),
        rseed_ok(rseed@, rho@),
    ensures
        r == note_parts_ok(recipient@, value, rho@, rseed@),
{
    let to = orchard::Address::from_raw_address_bytes(recipient).unwrap();
    let rho = orchard::note::Rho::from_bytes(rho).unwrap();
    let seed = orchard::note::RandomSeed::from_bytes(*rseed, &rho).unwrap();
    let value = orchard::value::NoteValue::from_raw(value);
    let version = orchard::note::NoteVersion::V2;
    bool::from(orchard::note::Note::from_parts(to, value, rho, seed, version).is_some())
}

} // verus!
