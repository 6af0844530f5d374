//! The dual hash engine. A descriptor is split into 32-byte words; each word
//! is reversed (big-endian ABI convention to the field decoder's
//! little-endian convention) and decoded as a scalar field element, which
//! must lie below the field's order; the element sequence is absorbed by an
//! Anemoi-Jive permutation hash; the digest element is serialized back to 32
//! little-endian bytes and reversed again. The legacy configuration hashes
//! over the BLS12-381 scalar field; the replacement configuration packs over
//! the BN254 scalar field, whose permutation parameter set has no published
//! implementation, so this crate prepares its element encodings and stops
//! there.

use crate::bytes::{
    be_nat, le32_of_nat, le_nat, lemma_be_nat_reverse, lt_be, reverse_bytes,
    word_at,
};
use noah_algebra::bls12_381::BLSScalar;
use noah_algebra::traits::Scalar;
use noah_crypto::basic::anemoi_jive::{AnemoiJive, AnemoiJive381};
use vstd::arithmetic::div_mod::{lemma_fundamental_div_mod, lemma_small_mod};
use vstd::prelude::*;

verus! {

/// A scalar field element of the legacy (BLS12-381) configuration, as
/// noah_algebra defines it.
#[verifier::external_type_specification]
#[verifier::external_body]
pub struct ExBLSScalar(BLSScalar);

/// The canonical unsigned value a legacy field element holds; always below
/// the field's order.
pub uninterp spec fn bls_scalar_nat(s: BLSScalar) -> nat;

/// The field-element digest of the legacy Anemoi-Jive hash over an ordered
/// sequence of field element values.
pub uninterp spec fn anemoi_bls_digest(elems: Seq<nat>) -> nat;

/// The order of the legacy configuration's scalar field (the BLS12-381 curve
/// order), big-endian.
pub open spec fn bls_modulus_be() -> Seq<u8> {
    seq![
        0x73u8, 0xedu8, 0xa7u8, 0x53u8, 0x29u8, 0x9du8, 0x7du8, 0x48u8, 0x33u8, 0x39u8, 0xd8u8,
        0x08u8, 0x09u8, 0xa1u8, 0xd8u8, 0x05u8, 0x53u8, 0xbdu8, 0xa4u8, 0x02u8, 0xffu8, 0xfeu8,
        0x5bu8, 0xfeu8, 0xffu8, 0xffu8, 0xffu8, 0xffu8, 0x00u8, 0x00u8, 0x00u8, 0x01u8,
    ]
}

/// The order of the legacy configuration's scalar field.
pub open spec fn bls_modulus() -> nat {
    be_nat(bls_modulus_be())
}

/// The order of the replacement configuration's scalar field (the BN254
/// curve order), big-endian.
pub open spec fn bn254_modulus_be() -> Seq<u8> {
    seq![
        0x30u8, 0x64u8, 0x4eu8, 0x72u8, 0xe1u8, 0x31u8, 0xa0u8, 0x29u8, 0xb8u8, 0x50u8, 0x45u8,
        0xb6u8, 0x81u8, 0x81u8, 0x58u8, 0x5du8, 0x28u8, 0x33u8, 0xe8u8, 0x48u8, 0x79u8, 0xb9u8,
        0x70u8, 0x91u8, 0x43u8, 0xe1u8, 0xf5u8, 0x93u8, 0xf0u8, 0x00u8, 0x00u8, 0x01u8,
    ]
}

/// The order of the replacement configuration's scalar field.
pub open spec fn bn254_modulus() -> nat {
    be_nat(bn254_modulus_be())
}

/// The big-endian value of the `i`-th 32-byte word of a byte string.
pub open spec fn word_value(s: Seq<u8>, i: int) -> nat {
    be_nat(s.subrange(32 * i, 32 * i + 32))
}

/// The big-endian values of all 32-byte words of a byte string.
pub open spec fn word_values(s: Seq<u8>) -> Seq<nat> {
    Seq::new(s.len() / 32, |i: int| word_value(s, i))
}

/// Every 32-byte word of `s` denotes a value below `m`.
pub open spec fn words_fit(s: Seq<u8>, m: nat) -> bool {
    forall|i: int| 0 <= i < s.len() / 32 ==> #[trigger] word_value(s, i) < m
}

/// Every word of `s` is a valid legacy field element.
pub open spec fn fits_legacy_field(s: Seq<u8>) -> bool {
    words_fit(s, bls_modulus())
}

/// Every word of `s` is a valid replacement field element.
pub open spec fn fits_replacement_field(s: Seq<u8>) -> bool {
    words_fit(s, bn254_modulus())
}

/// Why a hash run failed.
#[derive(Clone, Copy, Debug, PartialEq, Eq, Structural)]
pub enum HashError {
    /// The input's length is not a multiple of 32 bytes.
    InvalidLength,
    /// A 32-byte word does not denote a valid field element: its value is
    /// at or above the field's order.
    DecodeError,
}

/// The legacy digest of a byte string whose words all fit the legacy field:
/// the Anemoi-Jive digest element of the word values, serialized little-endian
/// and reversed to big-endian.
pub open spec fn legacy_digest(s: Seq<u8>) -> Seq<u8> {
    le32_of_nat(anemoi_bls_digest(word_values(s))).reverse()
}

/// The little-endian element encoding of the `i`-th word of a byte string,
/// as the replacement field's decoder consumes it.
pub open spec fn replacement_element_at(s: Seq<u8>, i: int) -> Seq<u8> {
    s.subrange(32 * i, 32 * i + 32).reverse()
}

/// Relies on noah_algebra's `BLSScalar::from_bytes`: 32 bytes are read as a
/// little-endian integer and reduced modulo the field order.
#[verifier::external_body]
fn bls_scalar_from_le_bytes(b: &Vec<u8>) -> (r: BLSScalar)
    requires
        b@.len() == 32,
    ensures
        bls_scalar_nat(r) == le_nat(b@) % bls_modulus(),
{
    BLSScalar::from_bytes(b.as_slice()).unwrap()
}

/// Relies on noah_crypto's `AnemoiJive381::eval_variable_length_hash`: one
/// field-element digest, a function of the ordered input elements alone.
#[verifier::external_body]
fn anemoi_bls_eval(elems: &Vec<BLSScalar>) -> (r: BLSScalar)
    ensures
        bls_scalar_nat(r) == anemoi_bls_digest(
            elems@.map_values(|s: BLSScalar| bls_scalar_nat(s)),
        ),
        bls_scalar_nat(r) < bls_modulus(),
{
    AnemoiJive381::eval_variable_length_hash(elems.as_slice())
}

/// Relies on noah_algebra's `BLSScalar::to_bytes`: the element's canonical
/// value as exactly 32 little-endian bytes.
#[verifier::external_body]
fn bls_scalar_to_le_bytes(s: &BLSScalar) -> (r: Vec<u8>)
    ensures
        r@ == le32_of_nat(bls_scalar_nat(*s)),
{
    s.to_bytes()
}

/// The big-endian bytes of the legacy field's order.
fn bls_modulus_bytes() -> (r: Vec<u8>)
    ensures
        r@ == bls_modulus_be(),
{
    let mut v: Vec<u8> = Vec::new();
    v.push(0x73);
    v.push(0xed);
    v.push(0xa7);
    v.push(0x53);
    v.push(0x29);
    v.push(0x9d);
    v.push(0x7d);
    v.push(0x48);
    v.push(0x33);
    v.push(0x39);
    v.push(0xd8);
    v.push(0x08);
    v.push(0x09);
    v.push(0xa1);
    v.push(0xd8);
    v.push(0x05);
    v.push(0x53);
    v.push(0xbd);
    v.push(0xa4);
    v.push(0x02);
    v.push(0xff);
    v.push(0xfe);
    v.push(0x5b);
    v.push(0xfe);
    v.push(0xff);
    v.push(0xff);
    v.push(0xff);
    v.push(0xff);
    v.push(0x00);
    v.push(0x00);
    v.push(0x00);
    v.push(0x01);
    proof {
        assert(v@ =~= bls_modulus_be());
    }
    v
}

/// The big-endian bytes of the replacement field's order.
fn bn254_modulus_bytes() -> (r: Vec<u8>)
    ensures
        r@ == bn254_modulus_be(),
{
    let mut v: Vec<u8> = Vec::new();
    v.push(0x30);
    v.push(0x64);
    v.push(0x4e);
    v.push(0x72);
    v.push(0xe1);
    v.push(0x31);
    v.push(0xa0);
    v.push(0x29);
    v.push(0xb8);
    v.push(0x50);
    v.push(0x45);
    v.push(0xb6);
    v.push(0x81);
    v.push(0x81);
    v.push(0x58);
    v.push(0x5d);
    v.push(0x28);
    v.push(0x33);
    v.push(0xe8);
    v.push(0x48);
    v.push(0x79);
    v.push(0xb9);
    v.push(0x70);
    v.push(0x91);
    v.push(0x43);
    v.push(0xe1);
    v.push(0xf5);
    v.push(0x93);
    v.push(0xf0);
    v.push(0x00);
    v.push(0x00);
    v.push(0x01);
    proof {
        assert(v@ =~= bn254_modulus_be());
    }
    v
}

/// Hashes a descriptor under the legacy configuration. Fails with
/// `InvalidLength` exactly when the input's length is not a multiple of 32,
/// and with `DecodeError` exactly when a 32-byte word is not a valid legacy
/// field element; otherwise returns the 32-byte legacy digest.
pub fn legacy_hash(input: &Vec<u8>) -> (r: Result<Vec<u8>, HashError>)
    ensures
        r is Err <==> input@.len() % 32 != 0 || !fits_legacy_field(input@),
        r matches Err(e) ==> (e is InvalidLength <==> input@.len() % 32 != 0),
        r matches Err(e) ==> (e is DecodeError <==> input@.len() % 32 == 0 && !fits_legacy_field(
            input@,
        )),
        r matches Ok(d) ==> d@ == legacy_digest(input@) && d@.len() == 32,
{
    if input.len() % 32 != 0 {
        return Err(HashError::InvalidLength);
    }
    let n = input.len() / 32;
    proof {
        lemma_fundamental_div_mod(input@.len() as int, 32);
    }
    let modulus = bls_modulus_bytes();
    let mut elems: Vec<BLSScalar> = Vec::new();
    let mut i: usize = 0;
    while i < n
        invariant
            i <= n,
            n == input@.len() / 32,
            input@.len() == 32 * n,
            modulus@ == bls_modulus_be(),
            elems@.len() == i,
            forall|j: int|
                0 <= j < i ==> #[trigger] word_value(input@, j) < bls_modulus() && bls_scalar_nat(
                    elems@[j],
                ) == word_value(input@, j),
        decreases n - i,
    {
        let w = word_at(input, i);
        if !lt_be(&w, &modulus) {
            proof {
                assert(word_value(input@, i as int) >= bls_modulus());
                assert(!fits_legacy_field(input@));
            }
            return Err(HashError::DecodeError);
        }
        let wle = reverse_bytes(&w);
        proof {
            lemma_be_nat_reverse(w@);
            lemma_small_mod(be_nat(w@), bls_modulus());
        }
        let s = bls_scalar_from_le_bytes(&wle);
        elems.push(s);
        i = i + 1;
    }
    proof {
        assert(fits_legacy_field(input@));
        assert(elems@.map_values(|s: BLSScalar| bls_scalar_nat(s)) =~= word_values(input@));
    }
    let digest_elem = anemoi_bls_eval(&elems);
    let digest_le = bls_scalar_to_le_bytes(&digest_elem);
    let digest = reverse_bytes(&digest_le);
    Ok(digest)
}

/// The legacy hash is deterministic: the digest is a function of the input
/// bytes alone, so repeated runs on identical input yield identical digests.
pub proof fn lemma_legacy_hash_deterministic(input: Seq<u8>, d1: Seq<u8>, d2: Seq<u8>)
    requires
        d1 == legacy_digest(input),
        d2 == legacy_digest(input),
    ensures
        d1 == d2,
{
}

/// Packs a descriptor for the replacement configuration: splits it into
/// 32-byte words, requires each to be a valid replacement field element, and
/// reverses each into the little-endian encoding the field decoder consumes.
/// The error conditions are those of `legacy_hash`, under the replacement
/// field's order. The replacement permutation's parameter set has no
/// published implementation, so evaluating it over these elements is outside
/// this crate.
pub fn replacement_elements(input: &Vec<u8>) -> (r: Result<Vec<Vec<u8>>, HashError>)
    ensures
        r is Err <==> input@.len() % 32 != 0 || !fits_replacement_field(input@),
        r matches Err(e) ==> (e is InvalidLength <==> input@.len() % 32 != 0),
        r matches Err(e) ==> (e is DecodeError <==> input@.len() % 32 == 0
            && !fits_replacement_field(input@)),
        r matches Ok(els) ==> els@.len() == input@.len() / 32 && forall|j: int|
            0 <= j < els@.len() ==> #[trigger] els@[j]@ == replacement_element_at(input@, j),
{
    if input.len() % 32 != 0 {
        return Err(HashError::InvalidLength);
    }
    let n = input.len() / 32;
    proof {
        lemma_fundamental_div_mod(input@.len() as int, 32);
    }
    let modulus = bn254_modulus_bytes();
    let mut els: Vec<Vec<u8>> = Vec::new();
    let mut i: usize = 0;
    while i < n
        invariant
            i <= n,
            n == input@.len() / 32,
            input@.len() == 32 * n,
            modulus@ == bn254_modulus_be(),
            els@.len() == i,
            forall|j: int| 0 <= j < i ==> #[trigger] word_value(input@, j) < bn254_modulus(),
            forall|j: int| 0 <= j < i ==> #[trigger] els@[j]@ == replacement_element_at(input@, j),
        decreases n - i,
    {
        let w = word_at(input, i);
        if !lt_be(&w, &modulus) {
            proof {
                assert(word_value(input@, i as int) >= bn254_modulus());
                assert(!fits_replacement_field(input@));
            }
            return Err(HashError::DecodeError);
        }
        let wle = reverse_bytes(&w);
        els.push(wle);
        i = i + 1;
    }
    proof {
        assert(fits_replacement_field(input@));
    }
    Ok(els)
}

} // verus!
