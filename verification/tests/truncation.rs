use ledger_store::errors::LedgerError;
use ledger_store::ledger::Ledger;
use ledger_store::ledger_truncator::size_budget_exceeded;
use ledger_store::ledger_truncator::LedgerTruncator;
use ledger_store::ledger_truncator::TruncatorState;
use ledger_store::write_batch::WriteBatch;

// One slot's worth of ledger traffic: a block row, a signature row, a
// transaction row and a status row, as the write path stages them.
fn write_dummy_slot(ledger: &mut Ledger, slot: u64) -> Vec<u8> {
    let signature = vec![slot as u8, 0xAB];
    let tx = vec![slot as u8, 1, 2, 3];
    let status = vec![slot as u8, 9];
    let blockhash = vec![slot as u8; 4];
    ledger
        .slot_signatures
        .put(&mut ledger.backend, (slot, 0), &signature)
        .unwrap();
    ledger
        .transactions
        .put_protobuf(&mut ledger.backend, (slot, 0), &tx)
        .unwrap();
    ledger
        .transaction_status
        .put_protobuf(&mut ledger.backend, (slot, 0), &status)
        .unwrap();
    ledger
        .blocks
        .put(&mut ledger.backend, slot, &blockhash)
        .unwrap();
    signature
}

fn slot_exists(ledger: &mut Ledger, slot: u64) -> bool {
    let sig = ledger
        .slot_signatures
        .get(&ledger.backend, (slot, 0))
        .unwrap()
        .is_some();
    let tx = ledger
        .transactions
        .get_protobuf(&ledger.backend, (slot, 0))
        .map(|o| o.is_some())
        .unwrap_or(false);
    let status = ledger
        .transaction_status
        .get_protobuf(&ledger.backend, (slot, 0))
        .map(|o| o.is_some())
        .unwrap_or(false);
    assert_eq!(sig, tx);
    assert_eq!(tx, status);
    sig
}

fn verify_transactions_state(ledger: &mut Ledger, start_slot: u64, count: u64, shall_exist: bool) {
    for offset in 0..count {
        assert_eq!(slot_exists(ledger, start_slot + offset), shall_exist);
    }
}

// The ledger is not truncated while the finalized slot is zero.
#[test]
fn test_truncator_not_purged_finality() {
    const SLOT_TRUNCATION_INTERVAL: u64 = 5;

    let mut ledger = Ledger::new(0);
    let truncator = LedgerTruncator::new(50, 0);
    for i in 0..SLOT_TRUNCATION_INTERVAL {
        write_dummy_slot(&mut ledger, i);
    }

    // several ticks elapse; finality stays at zero
    for _ in 0..3 {
        let purged = truncator.tick(&mut ledger, 0, None).unwrap();
        assert!(!purged);
    }

    verify_transactions_state(&mut ledger, 0, SLOT_TRUNCATION_INTERVAL, true);
    assert_eq!(ledger.get_lowest_cleanup_slot(), 0);
}

// A generous size budget does not authorize truncation either while the
// finalized slot is zero.
#[test]
fn test_truncator_not_purged_size() {
    const NUM_TRANSACTIONS: u64 = 100;

    let mut ledger = Ledger::new(0);
    let truncator = LedgerTruncator::new(50, 1 << 30);
    for i in 0..NUM_TRANSACTIONS {
        write_dummy_slot(&mut ledger, i);
    }

    let size = ledger.storage_size();
    let purged = truncator.tick(&mut ledger, 0, Some(size)).unwrap();
    assert!(!purged);

    verify_transactions_state(&mut ledger, 0, NUM_TRANSACTIONS, true);
}

// With finality fixed at 80, the ledger is truncated, but never at or
// beyond the finalized slot.
#[test]
fn test_truncator_non_empty_ledger() {
    const FINAL_SLOT: u64 = 80;

    let mut ledger = Ledger::new(0);
    for i in 0..FINAL_SLOT + 20 {
        write_dummy_slot(&mut ledger, i);
    }

    let truncator = LedgerTruncator::new(50, 0);
    let purged = truncator.tick(&mut ledger, FINAL_SLOT, None).unwrap();
    assert!(purged);

    let cleanup_slot = ledger.get_lowest_cleanup_slot();
    assert_ne!(cleanup_slot, 0);
    assert!(cleanup_slot < FINAL_SLOT);
    verify_transactions_state(&mut ledger, 0, cleanup_slot + 1, false);
    verify_transactions_state(&mut ledger, cleanup_slot + 1, FINAL_SLOT + 20 - cleanup_slot - 1, true);
}

// Interleaved writing and finality advancement: after the dust settles the
// low-watermark converges to one below the final slot, everything before
// it is gone and everything from the final slot on is readable.
#[test]
fn test_truncator_with_tx_spammer() {
    let mut ledger = Ledger::new(0);
    let truncator = LedgerTruncator::new(50, 0);
    let mut written: u64 = 0;

    for _ in 0..10 {
        for _ in 0..20 {
            write_dummy_slot(&mut ledger, written);
            written += 1;
        }
        let latest_final_slot = written - 1;
        truncator.tick(&mut ledger, latest_final_slot, None).unwrap();
    }

    let latest_final_slot = written - 1;
    // once more, now that no further writes race the truncator
    truncator.tick(&mut ledger, latest_final_slot, None).unwrap();

    assert_eq!(ledger.get_lowest_cleanup_slot(), latest_final_slot - 1);
    verify_transactions_state(&mut ledger, 0, latest_final_slot, false);
    verify_transactions_state(&mut ledger, latest_final_slot, written - latest_final_slot, true);
}

// A large backlog is purged in bounded increments that converge over
// several ticks; an exceeded size budget lifts the per-tick bound.
#[test]
fn bounded_increments_converge() {
    let mut ledger = Ledger::new(0);
    // blocks only, to keep the test fast
    for i in 0..1500u64 {
        ledger
            .blocks
            .put_bytes(&mut ledger.backend, i, &[1u8])
            .unwrap();
    }
    let truncator = LedgerTruncator::new(50, 0);
    assert!(truncator.tick(&mut ledger, 1500, None).unwrap());
    // first increment is capped
    assert_eq!(ledger.get_lowest_cleanup_slot(), 1023);
    assert!(truncator.tick(&mut ledger, 1500, None).unwrap());
    // second increment reaches the frontier: finalized slot minus one
    assert_eq!(ledger.get_lowest_cleanup_slot(), 1499);
    assert!(ledger
        .blocks
        .get_bytes(&ledger.backend, 1499)
        .unwrap()
        .is_none());
    assert!(ledger
        .blocks
        .get_bytes(&ledger.backend, 1500 - 1 + 1)
        .unwrap()
        .is_none());
    // nothing more to do afterwards
    assert!(!truncator.tick(&mut ledger, 1500, None).unwrap());
}

#[test]
fn size_budget_lifts_per_tick_bound() {
    let mut ledger = Ledger::new(0);
    for i in 0..1500u64 {
        ledger
            .blocks
            .put_bytes(&mut ledger.backend, i, &[1u8])
            .unwrap();
    }
    let truncator = LedgerTruncator::new(50, 10);
    // the reported footprint exceeds the 10-byte budget: one tick purges
    // the whole eligible range
    let size = ledger.storage_size();
    assert!(truncator.tick(&mut ledger, 1500, Some(size)).unwrap());
    assert_eq!(ledger.get_lowest_cleanup_slot(), 1499);
}

#[test]
fn size_trigger_fails_open() {
    assert!(!size_budget_exceeded(0, Some(1 << 40)));
    assert!(!size_budget_exceeded(100, None));
    assert!(!size_budget_exceeded(100, Some(100)));
    assert!(size_budget_exceeded(100, Some(101)));
}

#[test]
fn truncation_is_atomic_across_columns() {
    let mut ledger = Ledger::new(0);
    for i in 0..10u64 {
        write_dummy_slot(&mut ledger, i);
    }
    let truncator = LedgerTruncator::new(50, 0);
    assert!(truncator.tick(&mut ledger, 8, None).unwrap());
    let cleanup_slot = ledger.get_lowest_cleanup_slot();
    assert_eq!(cleanup_slot, 7);
    // per-column views of a removed slot disappear together
    for i in 0..8u64 {
        assert!(!slot_exists(&mut ledger, i));
        assert!(ledger.blocks.get(&ledger.backend, i).unwrap().is_none());
    }
    for i in 8..10u64 {
        assert!(slot_exists(&mut ledger, i));
        assert!(ledger.blocks.get(&ledger.backend, i).unwrap().is_some());
    }
    // the affected entry counters are dirty until a recount
    assert_eq!(ledger.blocks.entry_counter, -1);
    assert_eq!(
        ledger.blocks.count_column_using_cache(&ledger.backend).unwrap(),
        2
    );
}

#[test]
fn truncation_is_idempotent() {
    let mut ledger = Ledger::new(0);
    for i in 0..10u64 {
        write_dummy_slot(&mut ledger, i);
    }
    let truncator = LedgerTruncator::new(50, 0);
    assert!(truncator.tick(&mut ledger, 8, None).unwrap());
    // the same finality again: the eligible range is already gone
    assert!(!truncator.tick(&mut ledger, 8, None).unwrap());
    assert_eq!(ledger.get_lowest_cleanup_slot(), 7);
}

#[test]
fn truncator_lifecycle_transitions() {
    let mut t = LedgerTruncator::new(50, 0);
    assert_eq!(t.state, TruncatorState::Idle);
    assert!(!t.should_run());
    t.start();
    assert_eq!(t.state, TruncatorState::Running);
    assert!(t.should_run());
    // starting again is a no-op
    t.start();
    assert_eq!(t.state, TruncatorState::Running);
    t.request_stop();
    assert_eq!(t.state, TruncatorState::StopRequested);
    // a pending stop is not overridden by start
    t.start();
    assert_eq!(t.state, TruncatorState::StopRequested);
    t.mark_stopped();
    assert_eq!(t.state, TruncatorState::Stopped);
    // a stopped task can be restarted
    t.start();
    assert_eq!(t.state, TruncatorState::Running);
}

#[test]
fn batched_deletes_apply_atomically() {
    let mut ledger = Ledger::new(0);
    for i in 0..5u64 {
        ledger
            .blocks
            .put_bytes(&mut ledger.backend, i, &[i as u8])
            .unwrap();
    }
    let mut batch = WriteBatch::new();
    ledger.blocks.delete_in_batch(&mut batch, 0);
    ledger.blocks.delete_range_in_batch(&mut batch, 2, 4);
    // nothing is applied before commit
    assert!(ledger.blocks.get_bytes(&ledger.backend, 0).unwrap().is_some());
    assert_eq!(batch.num_ops(), 2);
    ledger.write(batch).unwrap();
    assert!(ledger.blocks.get_bytes(&ledger.backend, 0).unwrap().is_none());
    assert!(ledger.blocks.get_bytes(&ledger.backend, 1).unwrap().is_some());
    assert!(ledger.blocks.get_bytes(&ledger.backend, 2).unwrap().is_none());
    assert!(ledger.blocks.get_bytes(&ledger.backend, 3).unwrap().is_none());
    // the range bound is half-open
    assert!(ledger.blocks.get_bytes(&ledger.backend, 4).unwrap().is_some());
}

#[test]
fn watermark_survives_in_column_data() {
    let mut ledger = Ledger::new(0);
    for i in 0..5u64 {
        write_dummy_slot(&mut ledger, i);
    }
    let truncator = LedgerTruncator::new(50, 0);
    assert!(truncator.tick(&mut ledger, 3, None).unwrap());
    assert_eq!(ledger.get_lowest_cleanup_slot(), 2);
    // the low-watermark is ordinary column data, readable as such
    let raw = ledger
        .cleanup_meta
        .get(&ledger.backend, 0)
        .unwrap();
    assert_eq!(raw, Some(2u64));
    let err: Result<bool, LedgerError> = truncator.tick(&mut ledger, 0, None);
    assert_eq!(err, Ok(false));
}
