use ledger_store::byte_order::encode_u64_be;
use ledger_store::columns::ColumnKind;
use ledger_store::errors::LedgerError;
use ledger_store::iterator::IteratorMode;
use ledger_store::kv_store::KvStore;
use ledger_store::ledger::Ledger;
use ledger_store::ledger_truncator::LedgerTruncator;

#[test]
fn get_raw_reads_by_encoded_key() {
    let mut ledger = Ledger::new(0);
    let value = vec![3u8, 1, 4];
    ledger.blocks.put(&mut ledger.backend, 12, &value).unwrap();
    let key = encode_u64_be(12);
    let got = ledger.blocks.get_raw(&ledger.backend, &key).unwrap();
    assert_eq!(got, Some(vec![3u8, 1, 4]));
    let missing = encode_u64_be(13);
    assert_eq!(ledger.blocks.get_raw(&ledger.backend, &missing).unwrap(), None);
}

#[test]
fn malformed_keys_error_or_are_filtered() {
    let mut ledger = Ledger::new(0);
    ledger
        .blocks
        .put_bytes(&mut ledger.backend, 1, &[1u8])
        .unwrap();
    // a row whose key does not decode as a slot, planted through the raw
    // backend surface
    ledger
        .backend
        .put(ColumnKind::Blocks, vec![1u8, 2, 3], vec![9u8]);
    assert_eq!(
        ledger.blocks.iter(&ledger.backend, IteratorMode::Start),
        Err(LedgerError::Decode)
    );
    let filtered = ledger
        .blocks
        .iter_current_index_filtered(&ledger.backend, IteratorMode::Start);
    assert_eq!(filtered.len(), 1);
    assert_eq!(filtered[0].0, 1u64);
}

#[test]
fn kv_store_basic_operations() {
    let mut store = KvStore::new();
    assert_eq!(store.num_entries(), 0);
    store.upsert(vec![2u8], vec![20u8]);
    store.upsert(vec![1u8], vec![10u8]);
    store.upsert(vec![3u8], vec![30u8]);
    // overwrite keeps a single row
    store.upsert(vec![2u8], vec![22u8]);
    assert_eq!(store.num_entries(), 3);
    assert_eq!(store.get(&[2u8]), Some(&vec![22u8]));
    // scans come back in key order
    let rows = store.scan();
    let keys: Vec<Vec<u8>> = rows.iter().map(|e| e.0.clone()).collect();
    assert_eq!(keys, vec![vec![1u8], vec![2u8], vec![3u8]]);
    // the range delete bound is half-open
    store.delete_range(&[1u8], &[3u8]);
    assert_eq!(store.get(&[1u8]), None);
    assert_eq!(store.get(&[2u8]), None);
    assert_eq!(store.get(&[3u8]), Some(&vec![30u8]));
    store.delete(&[3u8]);
    assert_eq!(store.num_entries(), 0);
    assert_eq!(store.approximate_size(), 0);
}

// Even with a size budget far above actual usage, finality alone
// authorizes trimming the superseded prefix, under the same safety bound.
#[test]
fn finality_alone_triggers_truncation() {
    let mut ledger = Ledger::new(0);
    for i in 0..60u64 {
        ledger
            .blocks
            .put_bytes(&mut ledger.backend, i, &[1u8])
            .unwrap();
    }
    let truncator = LedgerTruncator::new(50, 1 << 30);
    let size = ledger.storage_size();
    assert!(size < 1 << 30);
    assert!(truncator.tick(&mut ledger, 50, Some(size)).unwrap());
    assert_eq!(ledger.get_lowest_cleanup_slot(), 49);
    assert!(ledger.blocks.get_bytes(&ledger.backend, 49).unwrap().is_none());
    assert!(ledger.blocks.get_bytes(&ledger.backend, 50).unwrap().is_some());
}
