use asset_retype::bytes::reverse_bytes;
use asset_retype::codec::{encode, TokenStandard};
use asset_retype::engine::{legacy_hash, replacement_elements, HashError};

#[test]
fn reverse_bytes_round_trip() {
    let v: Vec<u8> = (0u8..32).collect();
    let once = reverse_bytes(&v);
    let twice = reverse_bytes(&once);
    assert_eq!(twice, v);
    assert_eq!(once[0], 31);
    assert_eq!(once[31], 0);
}

#[test]
fn legacy_hash_rejects_bad_length() {
    let input = vec![0u8; 33];
    assert_eq!(legacy_hash(&input), Err(HashError::InvalidLength));
    let input = vec![0u8; 31];
    assert_eq!(legacy_hash(&input), Err(HashError::InvalidLength));
}

#[test]
fn replacement_elements_reject_bad_length() {
    let input = vec![0u8; 33];
    assert_eq!(replacement_elements(&input), Err(HashError::InvalidLength));
}

#[test]
fn legacy_hash_rejects_oversize_word() {
    let input = vec![0xFFu8; 32];
    assert_eq!(legacy_hash(&input), Err(HashError::DecodeError));
}

#[test]
fn replacement_elements_reject_oversize_word() {
    let input = vec![0xFFu8; 32];
    assert_eq!(replacement_elements(&input), Err(HashError::DecodeError));
}

#[test]
fn legacy_hash_is_deterministic() {
    let mut input = vec![0u8; 64];
    input[31] = 5;
    input[63] = 9;
    let d1 = legacy_hash(&input).unwrap();
    let d2 = legacy_hash(&input).unwrap();
    assert_eq!(d1, d2);
    assert_eq!(d1.len(), 32);
}

#[test]
fn legacy_hash_transforms_its_input() {
    let input = vec![0u8; 32];
    let d = legacy_hash(&input).unwrap();
    assert_ne!(d, input);
}

#[test]
fn legacy_hash_separates_inputs() {
    let mut a = vec![0u8; 32];
    a[31] = 1;
    let mut b = vec![0u8; 32];
    b[31] = 2;
    assert_ne!(legacy_hash(&a).unwrap(), legacy_hash(&b).unwrap());
}

#[test]
fn replacement_elements_reverse_each_word() {
    let mut input = vec![0u8; 64];
    input[0] = 0x01;
    input[31] = 0x02;
    input[63] = 0x03;
    let els = replacement_elements(&input).unwrap();
    assert_eq!(els.len(), 2);
    assert_eq!(els[0][0], 0x02);
    assert_eq!(els[0][31], 0x01);
    assert_eq!(els[1][0], 0x03);
    assert_eq!(els[1][31], 0x00);
}

#[test]
fn fungible_end_to_end_digest() {
    let mut address = vec![0u8; 20];
    address[19] = 0x01;
    let descriptor = encode(TokenStandard::Fungible, &address, &vec![0u8; 32]);
    let digest = legacy_hash(&descriptor).unwrap();
    let expected =
        hex::decode("637383460d2b243a390eff09d9c509c21220f953364a6d0226d7e66fa8e7b735").unwrap();
    assert_eq!(digest, expected);
}

#[test]
fn prefix_tags_against_field_orders() {
    // The three prefix tags are fixed 256-bit Keccak digests, so whether
    // each fits a field's order is a fixed fact: the fungible tag lies
    // between the replacement order and the legacy order, the two
    // non-fungible tags lie above both.
    let a = vec![0u8; 20];
    let t = vec![0u8; 32];
    let fungible = encode(TokenStandard::Fungible, &a, &t);
    assert!(legacy_hash(&fungible).is_ok());
    assert_eq!(replacement_elements(&fungible), Err(HashError::DecodeError));
    let type_a = encode(TokenStandard::NonFungibleTypeA, &a, &t);
    assert_eq!(legacy_hash(&type_a), Err(HashError::DecodeError));
    assert_eq!(replacement_elements(&type_a), Err(HashError::DecodeError));
    let type_b = encode(TokenStandard::NonFungibleTypeB, &a, &t);
    assert_eq!(legacy_hash(&type_b), Err(HashError::DecodeError));
    assert_eq!(replacement_elements(&type_b), Err(HashError::DecodeError));
}
