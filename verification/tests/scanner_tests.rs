use asset_retype::codec::TokenStandard;
use asset_retype::engine::HashError;
use asset_retype::scanner::{
    clone_handle, contains_handle, decode_asset_record, discover_handles, extract_handle,
    handle_eq, migrate_record, plan_windows, push_unique, AssetHandle, AssetRecord,
};

fn handle(tag: u8) -> AssetHandle {
    let mut b = vec![0u8; 32];
    b[0] = tag;
    AssetHandle { bytes: b }
}

#[test]
fn plan_windows_covers_range() {
    let w = plan_windows(0, 25000, 10000);
    assert_eq!(w, vec![(0, 10000), (10000, 20000), (20000, 25000)]);
}

#[test]
fn plan_windows_clamps_short_range() {
    assert_eq!(plan_windows(5, 20, 100), vec![(5, 20)]);
}

#[test]
fn plan_windows_empty_range() {
    assert_eq!(plan_windows(30, 30, 100), Vec::<(u64, u64)>::new());
    assert_eq!(plan_windows(40, 30, 100), Vec::<(u64, u64)>::new());
}

#[test]
fn plan_windows_exact_multiple() {
    assert_eq!(plan_windows(0, 20, 10), vec![(0, 10), (10, 20)]);
}

#[test]
fn handle_equality_is_byte_exact() {
    assert!(handle_eq(&handle(1), &handle(1)));
    assert!(!handle_eq(&handle(1), &handle(2)));
    let h = handle(3);
    assert!(handle_eq(&clone_handle(&h), &h));
}

#[test]
fn push_unique_drops_duplicates() {
    let mut seen: Vec<AssetHandle> = Vec::new();
    push_unique(&mut seen, handle(1));
    push_unique(&mut seen, handle(2));
    push_unique(&mut seen, handle(1));
    assert_eq!(seen.len(), 2);
    assert_eq!(seen[0].bytes[0], 1);
    assert_eq!(seen[1].bytes[0], 2);
    assert!(contains_handle(&seen, &handle(2)));
    assert!(!contains_handle(&seen, &handle(9)));
}

#[test]
fn discovery_deduplicates_across_windows() {
    let batches = vec![
        vec![handle(1), handle(2)],
        vec![handle(2), handle(3), handle(1)],
        vec![handle(3)],
    ];
    let out = discover_handles(&batches);
    assert_eq!(out.len(), 3);
    assert_eq!(out[0].bytes[0], 1);
    assert_eq!(out[1].bytes[0], 2);
    assert_eq!(out[2].bytes[0], 3);
}

#[test]
fn extract_handle_reads_first_word() {
    let mut data = vec![0u8; 40];
    data[0] = 0xAA;
    data[31] = 0xBB;
    let h = extract_handle(&data).unwrap();
    assert_eq!(h.bytes[0], 0xAA);
    assert_eq!(h.bytes[31], 0xBB);
    assert!(extract_handle(&vec![0u8; 31]).is_none());
}

#[test]
fn decode_asset_record_reads_three_words() {
    let mut reply = vec![0u8; 96];
    reply[12] = 0xCC;
    reply[31] = 0xDD;
    reply[63] = 0x07;
    reply[95] = 2;
    let rec = decode_asset_record(handle(1), &reply).unwrap();
    assert_eq!(rec.contract_address.len(), 20);
    assert_eq!(rec.contract_address[0], 0xCC);
    assert_eq!(rec.contract_address[19], 0xDD);
    assert_eq!(rec.token_id_be[31], 0x07);
    assert_eq!(rec.standard, TokenStandard::NonFungibleTypeB);
    assert!(decode_asset_record(handle(1), &vec![0u8; 95]).is_none());
}

#[test]
fn zero_address_is_skipped_without_error() {
    let rec = AssetRecord {
        handle: handle(1),
        contract_address: vec![0u8; 20],
        token_id_be: vec![0u8; 32],
        standard: TokenStandard::Fungible,
    };
    let r = migrate_record(&rec);
    assert!(matches!(r, Ok(None)));
}

#[test]
fn resolved_fungible_record_fails_replacement_packing() {
    // The fungible prefix tag's value lies between the two field orders: the
    // legacy path accepts it, the replacement field's strict validity check
    // rejects it, which aborts the migration of the record.
    let mut address = vec![0u8; 20];
    address[19] = 0x01;
    let rec = AssetRecord {
        handle: handle(1),
        contract_address: address,
        token_id_be: vec![0u8; 32],
        standard: TokenStandard::Fungible,
    };
    let r = migrate_record(&rec);
    assert!(matches!(r, Err(HashError::DecodeError)));
}

#[test]
fn oversize_word_aborts_migration() {
    let rec = AssetRecord {
        handle: handle(1),
        contract_address: vec![0xFFu8; 20],
        token_id_be: vec![0xFFu8; 32],
        standard: TokenStandard::NonFungibleTypeA,
    };
    // The descriptor's third word is the token id's first 31 bytes, all
    // ones, followed by a zero byte: a value above both field orders.
    let r = migrate_record(&rec);
    assert!(matches!(r, Err(HashError::DecodeError)));
}
