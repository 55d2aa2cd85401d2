//! The ledger store: the backend plus one typed column handle per column
//! family, and the persisted truncation low-watermark, which is kept as
//! ordinary column data so it moves through the same atomic batch
//! machinery as the rows it bounds.

use vstd::prelude::*;
use crate::backend::spec_total_size;
use crate::backend::Backend;
use crate::byte_order::encode_u64_be;
use crate::byte_order::u64_be_bytes;
use crate::columns::Blocks;
use crate::columns::CleanupMeta;
use crate::columns::ColumnKind;
use crate::columns::SlotSignatures;
use crate::columns::TransactionStatus;
use crate::columns::Transactions;
use crate::errors::LedgerError;
use crate::kv_store::seq_lookup;
use crate::ledger_column::LedgerColumn;
use crate::ledger_column::LedgerColumnOptions;
use crate::value_codecs::bincode_decode_u64;
use crate::value_codecs::bincode_u64_of;
use crate::write_batch::apply_batch_ops;
use crate::write_batch::WriteBatch;

verus! {

/// One logical ledger: the shared backend and the per-column handles.
/// Columns never outlive the store; teardown is dropping the whole value.
pub struct Ledger {
    pub backend: Backend,
    pub blocks: LedgerColumn<Blocks>,
    pub slot_signatures: LedgerColumn<SlotSignatures>,
    pub transactions: LedgerColumn<Transactions>,
    pub transaction_status: LedgerColumn<TransactionStatus>,
    pub cleanup_meta: LedgerColumn<CleanupMeta>,
}

impl Ledger {
    pub open spec fn wf(self) -> bool {
        self.backend.wf()
    }

    /// The persisted truncation low-watermark: the highest slot already
    /// fully purged, or zero when nothing was ever purged or the stored
    /// row does not decode.
    pub open spec fn spec_lowest_cleanup_slot(self) -> u64 {
        match seq_lookup(self.backend.cf(ColumnKind::CleanupMeta), u64_be_bytes(0)) {
            Some(b) => match bincode_u64_of(b) {
                Some(v) => v,
                None => 0,
            },
            None => 0,
        }
    }

    /// A fresh, empty ledger with the given per-column sampling interval.
    pub fn new(perf_sample_interval: u64) -> (r: Self)
        ensures
            r.wf(),
            forall|k: ColumnKind| (#[trigger] r.backend.cf(k)).len() == 0,
            r.spec_lowest_cleanup_slot() == 0,
            r.blocks.entry_counter == 0,
            r.slot_signatures.entry_counter == 0,
            r.transactions.entry_counter == 0,
            r.transaction_status.entry_counter == 0,
            r.cleanup_meta.entry_counter == 0,
    {
        let r = Ledger {
            backend: Backend::new(),
            blocks: LedgerColumn::new(LedgerColumnOptions { perf_sample_interval }),
            slot_signatures: LedgerColumn::new(
                LedgerColumnOptions { perf_sample_interval },
            ),
            transactions: LedgerColumn::new(LedgerColumnOptions { perf_sample_interval }),
            transaction_status: LedgerColumn::new(
                LedgerColumnOptions { perf_sample_interval },
            ),
            cleanup_meta: LedgerColumn::new(LedgerColumnOptions { perf_sample_interval }),
        };
        proof {
            assert(r.backend.cf(ColumnKind::CleanupMeta).len() == 0);
        }
        r
    }

    /// The oldest-guaranteed-present boundary: the highest slot index the
    /// truncator has fully purged.
    pub fn get_lowest_cleanup_slot(&self) -> (r: u64)
        requires
            self.wf(),
        ensures
            r == self.spec_lowest_cleanup_slot(),
    {
        let k = encode_u64_be(0);
        match self.backend.get(ColumnKind::CleanupMeta, k.as_slice()) {
            Some(b) => match bincode_decode_u64(b.as_slice()) {
                Ok(v) => v,
                Err(_) => 0,
            },
            None => 0,
        }
    }

    /// Approximate total on-disk footprint in bytes, saturating.
    pub fn storage_size(&self) -> (r: u64)
        ensures
            r == spec_total_size(self.backend),
    {
        self.backend.total_size()
    }

    /// Commit a staged write batch atomically.
    pub fn write(&mut self, batch: WriteBatch) -> (r: Result<(), LedgerError>)
        requires
            old(self).wf(),
        ensures
            final(self).wf(),
            r is Ok,
            forall|q: ColumnKind|
                final(self).backend.cf(q) == apply_batch_ops(
                    old(self).backend.cf(q),
                    q,
                    batch@,
                ),
            final(self).blocks == old(self).blocks,
            final(self).slot_signatures == old(self).slot_signatures,
            final(self).transactions == old(self).transactions,
            final(self).transaction_status == old(self).transaction_status,
            final(self).cleanup_meta == old(self).cleanup_meta,
    {
        self.backend.write(batch)
    }
}

} // verus!
