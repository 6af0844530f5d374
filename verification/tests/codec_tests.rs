use asset_retype::codec::{encode, standard_of_code, TokenStandard};

fn addr(last: u8) -> Vec<u8> {
    let mut a = vec![0u8; 20];
    a[19] = last;
    a
}

fn token_zero() -> Vec<u8> {
    vec![0u8; 32]
}

#[test]
fn encode_is_deterministic() {
    let a = addr(7);
    let t = token_zero();
    let d1 = encode(TokenStandard::Fungible, &a, &t);
    let d2 = encode(TokenStandard::Fungible, &a, &t);
    assert_eq!(d1, d2);
    let n1 = encode(TokenStandard::NonFungibleTypeA, &a, &t);
    let n2 = encode(TokenStandard::NonFungibleTypeA, &a, &t);
    assert_eq!(n1, n2);
}

#[test]
fn fungible_descriptor_is_64_bytes() {
    let d = encode(TokenStandard::Fungible, &addr(1), &token_zero());
    assert_eq!(d.len(), 64);
}

#[test]
fn nonfungible_descriptors_are_128_bytes() {
    let a = encode(TokenStandard::NonFungibleTypeA, &addr(1), &token_zero());
    let b = encode(TokenStandard::NonFungibleTypeB, &addr(1), &token_zero());
    assert_eq!(a.len(), 128);
    assert_eq!(b.len(), 128);
}

#[test]
fn fungible_tag_is_keccak_of_prefix() {
    let d = encode(TokenStandard::Fungible, &addr(1), &token_zero());
    let tag = ethers::utils::keccak256("Findora ERC20 Asset Type");
    assert_eq!(&d[0..32], &tag[..]);
}

#[test]
fn nonfungible_tags_are_keccak_of_prefixes() {
    let a = encode(TokenStandard::NonFungibleTypeA, &addr(1), &token_zero());
    let b = encode(TokenStandard::NonFungibleTypeB, &addr(1), &token_zero());
    assert_eq!(&a[0..32], &ethers::utils::keccak256("Findora ERC721 Asset Type")[..]);
    assert_eq!(&b[0..32], &ethers::utils::keccak256("Findora ERC1155 Asset Type")[..]);
}

#[test]
fn address_word_is_left_padded() {
    let a = addr(0xAB);
    let d = encode(TokenStandard::Fungible, &a, &token_zero());
    assert_eq!(&d[32..44], &[0u8; 12][..]);
    assert_eq!(&d[44..64], &a[..]);
}

#[test]
fn token_id_zero_split() {
    let d = encode(TokenStandard::NonFungibleTypeA, &addr(1), &token_zero());
    assert_eq!(&d[64..96], &[0u8; 32][..]);
    assert_eq!(&d[96..128], &[0u8; 32][..]);
}

#[test]
fn token_id_255_split() {
    let mut t = vec![0u8; 32];
    t[31] = 0xFF;
    let d = encode(TokenStandard::NonFungibleTypeA, &addr(1), &t);
    assert_eq!(&d[64..96], &[0u8; 32][..]);
    assert_eq!(d[96], 0xFF);
    assert_eq!(&d[97..128], &[0u8; 31][..]);
}

#[test]
fn token_id_high_bit_split() {
    let mut t = vec![0u8; 32];
    t[0] = 0x80;
    let d = encode(TokenStandard::NonFungibleTypeB, &addr(1), &t);
    assert_eq!(d[64], 0x80);
    assert_eq!(&d[65..96], &[0u8; 31][..]);
    assert_eq!(&d[96..128], &[0u8; 32][..]);
}

#[test]
fn standard_of_code_maps_type_codes() {
    assert_eq!(standard_of_code(1), TokenStandard::NonFungibleTypeA);
    assert_eq!(standard_of_code(2), TokenStandard::NonFungibleTypeB);
    assert_eq!(standard_of_code(0), TokenStandard::Fungible);
    assert_eq!(standard_of_code(3), TokenStandard::Fungible);
    assert_eq!(standard_of_code(255), TokenStandard::Fungible);
}
