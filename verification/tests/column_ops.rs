use ledger_store::byte_order::bytes_lt;
use ledger_store::byte_order::decode_u64_be;
use ledger_store::byte_order::encode_u32_be;
use ledger_store::byte_order::encode_u64_be;
use ledger_store::columns::DIRTY_COUNT;
use ledger_store::errors::LedgerError;
use ledger_store::iterator::IteratorDirection;
use ledger_store::iterator::IteratorMode;
use ledger_store::ledger::Ledger;
use ledger_store::ledger_column::try_decrease_entry_counter;
use ledger_store::ledger_column::try_increase_entry_counter;
use ledger_store::ledger_column::PerfSamplingStatus;

#[test]
fn big_endian_key_codec_exact_bytes() {
    let k = encode_u64_be(0x0102030405060708);
    assert_eq!(k, vec![1u8, 2, 3, 4, 5, 6, 7, 8]);
    assert_eq!(decode_u64_be(&k), 0x0102030405060708);
    let k32 = encode_u32_be(0x0A0B0C0D);
    assert_eq!(k32, vec![0x0Au8, 0x0B, 0x0C, 0x0D]);
}

#[test]
fn key_order_matches_slot_order() {
    // numeric slot order and lexicographic encoded order agree
    let a = encode_u64_be(255);
    let b = encode_u64_be(256);
    let c = encode_u64_be(65536);
    assert!(bytes_lt(&a, &b));
    assert!(bytes_lt(&b, &c));
    assert!(!bytes_lt(&b, &a));
    assert!(!bytes_lt(&a, &a));
}

#[test]
fn put_get_roundtrip_bincode() {
    let mut ledger = Ledger::new(0);
    let value = vec![10u8, 20, 30];
    ledger.blocks.put(&mut ledger.backend, 7, &value).unwrap();
    let got = ledger.blocks.get(&ledger.backend, 7).unwrap();
    assert_eq!(got, Some(vec![10u8, 20, 30]));
    assert_eq!(ledger.blocks.get(&ledger.backend, 8).unwrap(), None);
}

#[test]
fn stored_bytes_are_encoded_not_raw() {
    // the compact-binary codec frames a byte string with its 64-bit
    // little-endian length; the stored bytes must differ from the value
    let mut ledger = Ledger::new(0);
    let value = vec![9u8, 9];
    ledger.blocks.put(&mut ledger.backend, 1, &value).unwrap();
    let stored = ledger.blocks.get_bytes(&ledger.backend, 1).unwrap().unwrap();
    assert_eq!(stored, vec![2u8, 0, 0, 0, 0, 0, 0, 0, 9, 9]);
    assert_ne!(stored, value);
}

#[test]
fn put_get_roundtrip_protobuf() {
    let mut ledger = Ledger::new(0);
    let value = vec![1u8, 2, 3, 4];
    ledger
        .transaction_status
        .put_protobuf(&mut ledger.backend, (5, 0), &value)
        .unwrap();
    let got = ledger
        .transaction_status
        .get_protobuf(&ledger.backend, (5, 0))
        .unwrap();
    assert_eq!(got, Some(vec![1u8, 2, 3, 4]));
    // the schema codec adds its own framing
    let stored = ledger
        .transaction_status
        .get_bytes(&ledger.backend, (5, 0))
        .unwrap()
        .unwrap();
    assert_ne!(stored, value);
    assert_eq!(
        ledger
            .transaction_status
            .get_protobuf(&ledger.backend, (5, 1))
            .unwrap(),
        None
    );
}

#[test]
fn legacy_bincode_row_readable_through_fallback() {
    // a row written under the legacy compact-binary codec, before the
    // schema codec existed, still reads back through the fallback
    let mut ledger = Ledger::new(0);
    let value = vec![7u8, 7, 7];
    ledger
        .transaction_status
        .put(&mut ledger.backend, (3, 0), &value)
        .unwrap();
    // the schema codec rejects these bytes outright
    assert_eq!(
        ledger
            .transaction_status
            .get_protobuf(&ledger.backend, (3, 0)),
        Err(LedgerError::Decode)
    );
    let got = ledger
        .transaction_status
        .get_protobuf_or_bincode(&ledger.backend, (3, 0))
        .unwrap();
    assert_eq!(got, Some(vec![7u8, 7, 7]));
}

#[test]
fn fallback_prefers_schema_codec() {
    let mut ledger = Ledger::new(0);
    let value = vec![42u8; 5];
    ledger
        .transactions
        .put_protobuf(&mut ledger.backend, (9, 2), &value)
        .unwrap();
    let got = ledger
        .transactions
        .get_protobuf_or_bincode(&ledger.backend, (9, 2))
        .unwrap();
    assert_eq!(got, Some(vec![42u8; 5]));
}

#[test]
fn undecodable_row_gives_decode_error() {
    let mut ledger = Ledger::new(0);
    // three raw bytes cannot carry the 8-byte length prefix
    ledger
        .blocks
        .put_bytes(&mut ledger.backend, 4, &[1u8, 2, 3])
        .unwrap();
    assert_eq!(ledger.blocks.get(&ledger.backend, 4), Err(LedgerError::Decode));
    assert_eq!(
        LedgerError::Decode.describe(),
        "stored bytes could not be decoded"
    );
    assert_eq!(LedgerError::Storage.describe(), "storage engine failure");
    assert_eq!(LedgerError::Encode.describe(), "value could not be encoded");
}

#[test]
fn multi_get_isolates_failures() {
    let mut ledger = Ledger::new(0);
    let good = vec![5u8];
    ledger.blocks.put(&mut ledger.backend, 1, &good).unwrap();
    ledger
        .blocks
        .put_bytes(&mut ledger.backend, 2, &[0u8])
        .unwrap();
    let results = ledger
        .blocks
        .multi_get(&ledger.backend, vec![1u64, 2, 3]);
    assert_eq!(results.len(), 3);
    assert_eq!(results[0], Ok(Some(vec![5u8])));
    assert_eq!(results[1], Err(LedgerError::Decode));
    assert_eq!(results[2], Ok(None));
}

#[test]
fn multi_get_bytes_preserves_input_order() {
    let mut ledger = Ledger::new(0);
    ledger
        .blocks
        .put_bytes(&mut ledger.backend, 10, &[1u8])
        .unwrap();
    ledger
        .blocks
        .put_bytes(&mut ledger.backend, 20, &[2u8])
        .unwrap();
    let results = ledger
        .blocks
        .multi_get_bytes(&ledger.backend, vec![20u64, 10]);
    assert_eq!(results[0], Ok(Some(vec![2u8])));
    assert_eq!(results[1], Ok(Some(vec![1u8])));
}

#[test]
fn delete_removes_only_the_row() {
    let mut ledger = Ledger::new(0);
    ledger
        .blocks
        .put_bytes(&mut ledger.backend, 1, &[1u8])
        .unwrap();
    ledger
        .blocks
        .put_bytes(&mut ledger.backend, 2, &[2u8])
        .unwrap();
    ledger.blocks.delete(&mut ledger.backend, 1).unwrap();
    assert_eq!(ledger.blocks.get_bytes(&ledger.backend, 1).unwrap(), None);
    assert_eq!(
        ledger.blocks.get_bytes(&ledger.backend, 2).unwrap(),
        Some(vec![2u8])
    );
    // deleting an absent row is a no-op
    ledger.blocks.delete(&mut ledger.backend, 99).unwrap();
    assert_eq!(
        ledger.blocks.get_bytes(&ledger.backend, 2).unwrap(),
        Some(vec![2u8])
    );
}

#[test]
fn iteration_orders_and_modes() {
    let mut ledger = Ledger::new(0);
    for slot in [3u64, 1, 2] {
        ledger
            .blocks
            .put_bytes(&mut ledger.backend, slot, &[slot as u8])
            .unwrap();
    }
    let forward = ledger
        .blocks
        .iter(&ledger.backend, IteratorMode::Start)
        .unwrap();
    let keys: Vec<u64> = forward.iter().map(|e| e.0).collect();
    assert_eq!(keys, vec![1u64, 2, 3]);
    let backward = ledger
        .blocks
        .iter(&ledger.backend, IteratorMode::End)
        .unwrap();
    let keys: Vec<u64> = backward.iter().map(|e| e.0).collect();
    assert_eq!(keys, vec![3u64, 2, 1]);
    let from2 = ledger
        .blocks
        .iter(
            &ledger.backend,
            IteratorMode::From(2, IteratorDirection::Forward),
        )
        .unwrap();
    let keys: Vec<u64> = from2.iter().map(|e| e.0).collect();
    assert_eq!(keys, vec![2u64, 3]);
    let upto2 = ledger
        .blocks
        .iter(
            &ledger.backend,
            IteratorMode::From(2, IteratorDirection::Reverse),
        )
        .unwrap();
    let keys: Vec<u64> = upto2.iter().map(|e| e.0).collect();
    assert_eq!(keys, vec![2u64, 1]);
}

#[test]
fn iter_protobuf_reports_per_row() {
    let mut ledger = Ledger::new(0);
    let value = vec![8u8, 8];
    ledger
        .transactions
        .put_protobuf(&mut ledger.backend, (1, 0), &value)
        .unwrap();
    ledger
        .transactions
        .put_bytes(&mut ledger.backend, (2, 0), &[1u8])
        .unwrap();
    let rows = ledger
        .transactions
        .iter_protobuf(&ledger.backend, IteratorMode::Start);
    assert_eq!(rows.len(), 2);
    assert_eq!(rows[0], Ok(((1u64, 0u32), vec![8u8, 8])));
    assert!(rows[1].is_err());
}

#[test]
fn is_empty_and_count_cache() {
    let mut ledger = Ledger::new(0);
    assert_eq!(ledger.blocks.is_empty(&ledger.backend).unwrap(), true);
    // a fresh column starts with an accurate count of zero
    assert_eq!(
        ledger.blocks.count_column_using_cache(&ledger.backend).unwrap(),
        0
    );
    ledger
        .blocks
        .put_bytes(&mut ledger.backend, 1, &[1u8])
        .unwrap();
    ledger
        .blocks
        .put_bytes(&mut ledger.backend, 2, &[2u8])
        .unwrap();
    assert_eq!(ledger.blocks.is_empty(&ledger.backend).unwrap(), false);
    // puts do not adjust the counter unless the caller opts in; a recount
    // after marking dirty returns the true row count and repairs the cache
    ledger.blocks.mark_entry_counter_dirty();
    assert_eq!(ledger.blocks.entry_counter, DIRTY_COUNT);
    assert_eq!(
        ledger.blocks.count_column_using_cache(&ledger.backend).unwrap(),
        2
    );
    assert_eq!(ledger.blocks.entry_counter, 2);
}

#[test]
fn counter_sequences_sum_or_go_dirty() {
    // increments and decrements on a fresh counter reach the algebraic sum
    let mut c: i64 = 0;
    try_increase_entry_counter(&mut c, 5);
    try_increase_entry_counter(&mut c, 2);
    try_decrease_entry_counter(&mut c, 3);
    try_increase_entry_counter(&mut c, 1);
    assert_eq!(c, 5);
    // a decrement past zero resets to the dirty sentinel,
    // and the sentinel absorbs everything after it
    try_decrease_entry_counter(&mut c, 6);
    assert_eq!(c, DIRTY_COUNT);
    try_increase_entry_counter(&mut c, 100);
    try_decrease_entry_counter(&mut c, 1);
    assert_eq!(c, DIRTY_COUNT);
}

#[test]
fn counter_recount_after_underflow() {
    let mut ledger = Ledger::new(0);
    ledger
        .blocks
        .put_bytes(&mut ledger.backend, 1, &[1u8])
        .unwrap();
    ledger.blocks.try_increase_entry_counter(1);
    assert_eq!(ledger.blocks.entry_counter, 1);
    ledger.blocks.try_decrease_entry_counter(5);
    assert_eq!(ledger.blocks.entry_counter, DIRTY_COUNT);
    // the subsequent full recount returns the true count
    assert_eq!(
        ledger.blocks.count_column_using_cache(&ledger.backend).unwrap(),
        1
    );
}

#[test]
fn perf_sampling_every_nth_operation() {
    let mut status = PerfSamplingStatus { op_count: 0 };
    let mut sampled = Vec::new();
    for _ in 0..6 {
        sampled.push(status.record_op(3));
    }
    assert_eq!(sampled, vec![true, false, false, true, false, false]);
    // a zero interval disables sampling
    let mut off = PerfSamplingStatus { op_count: 0 };
    assert!(!off.record_op(0));
}

#[test]
fn flush_and_compact_are_benign() {
    let mut ledger = Ledger::new(0);
    ledger
        .blocks
        .put_bytes(&mut ledger.backend, 1, &[1u8])
        .unwrap();
    assert!(ledger.blocks.flush().is_ok());
    ledger.blocks.compact_range(Some(0), Some(10));
    assert_eq!(
        ledger.blocks.get_bytes(&ledger.backend, 1).unwrap(),
        Some(vec![1u8])
    );
}

#[test]
fn storage_size_grows_with_data() {
    let mut ledger = Ledger::new(0);
    let empty = ledger.storage_size();
    ledger
        .blocks
        .put_bytes(&mut ledger.backend, 1, &[0u8; 100])
        .unwrap();
    let after = ledger.storage_size();
    // 8 key bytes + 100 value bytes
    assert_eq!(after, empty + 108);
}
