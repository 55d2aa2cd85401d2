//! The storage backend: one ordered key-value store per column family,
//! addressed by `ColumnKind`, with atomic commitment of staged write
//! batches. A batch either fails before anything is applied or applies
//! whole; no partial application is observable.

use vstd::prelude::*;
use crate::columns::ColumnKind;
use crate::errors::LedgerError;
use crate::kv_store::clone_bytes;
use crate::kv_store::remove_key;
use crate::kv_store::remove_range;
use crate::kv_store::seq_lookup;
use crate::kv_store::sorted_insert;
use crate::kv_store::spec_size;
use crate::kv_store::KvStore;
use crate::write_batch::apply_batch_ops;
use crate::write_batch::BatchOp;
use crate::write_batch::WriteBatch;

verus! {

pub struct Backend {
    blocks: KvStore,
    slot_signatures: KvStore,
    transactions: KvStore,
    transaction_status: KvStore,
    cleanup_meta: KvStore,
}

impl Backend {
    /// The contents of one column family: its ordered association
    /// sequence of (key, value) byte strings.
    pub closed spec fn cf(self, k: ColumnKind) -> Seq<(Seq<u8>, Seq<u8>)> {
        match k {
            ColumnKind::Blocks => self.blocks@,
            ColumnKind::SlotSignatures => self.slot_signatures@,
            ColumnKind::Transactions => self.transactions@,
            ColumnKind::TransactionStatus => self.transaction_status@,
            ColumnKind::CleanupMeta => self.cleanup_meta@,
        }
    }

    pub closed spec fn wf(self) -> bool {
        &&& self.blocks.wf()
        &&& self.slot_signatures.wf()
        &&& self.transactions.wf()
        &&& self.transaction_status.wf()
        &&& self.cleanup_meta.wf()
    }

    /// A well-formed backend keeps every column family in strictly
    /// ascending key order.
    pub proof fn lemma_wf_sorted(self, k: ColumnKind)
        requires
            self.wf(),
        ensures
            crate::kv_store::keys_sorted(self.cf(k)),
    {
    }

    /// A fresh backend with every column family empty.
    pub fn new() -> (r: Self)
        ensures
            r.wf(),
            forall|k: ColumnKind| (#[trigger] r.cf(k)).len() == 0,
    {
        Backend {
            blocks: KvStore::new(),
            slot_signatures: KvStore::new(),
            transactions: KvStore::new(),
            transaction_status: KvStore::new(),
            cleanup_meta: KvStore::new(),
        }
    }

    fn store(&self, k: ColumnKind) -> (r: &KvStore)
        ensures
            r@ == self.cf(k),
            self.wf() ==> r.wf(),
    {
        match k {
            ColumnKind::Blocks => &self.blocks,
            ColumnKind::SlotSignatures => &self.slot_signatures,
            ColumnKind::Transactions => &self.transactions,
            ColumnKind::TransactionStatus => &self.transaction_status,
            ColumnKind::CleanupMeta => &self.cleanup_meta,
        }
    }

    /// Point read from one column family.
    pub fn get(&self, k: ColumnKind, key: &[u8]) -> (r: Option<&Vec<u8>>)
        requires
            self.wf(),
        ensures
            match r {
                Some(v) => seq_lookup(self.cf(k), key@) == Some(v@),
                None => seq_lookup(self.cf(k), key@) is None,
            },
    {
        self.store(k).get(key)
    }

    /// Number of rows in one column family.
    pub fn num_entries(&self, k: ColumnKind) -> (r: usize)
        ensures
            r == self.cf(k).len(),
    {
        self.store(k).num_entries()
    }

    /// All rows of one column family, in key order.
    pub fn scan(&self, k: ColumnKind) -> (r: Vec<(Vec<u8>, Vec<u8>)>)
        requires
            self.wf(),
        ensures
            r@.map_values(|e: (Vec<u8>, Vec<u8>)| (e.0@, e.1@)) == self.cf(k),
    {
        self.store(k).scan()
    }

    /// Insert or overwrite one row.
    pub fn put(&mut self, k: ColumnKind, key: Vec<u8>, value: Vec<u8>)
        requires
            old(self).wf(),
        ensures
            final(self).wf(),
            final(self).cf(k) == sorted_insert(old(self).cf(k), key@, value@),
            forall|q: ColumnKind| q != k ==> final(self).cf(q) == old(self).cf(q),
    {
        match k {
            ColumnKind::Blocks => self.blocks.upsert(key, value),
            ColumnKind::SlotSignatures => self.slot_signatures.upsert(key, value),
            ColumnKind::Transactions => self.transactions.upsert(key, value),
            ColumnKind::TransactionStatus => self.transaction_status.upsert(key, value),
            ColumnKind::CleanupMeta => self.cleanup_meta.upsert(key, value),
        }
    }

    /// Delete one row; absent keys are a no-op.
    pub fn delete(&mut self, k: ColumnKind, key: &[u8])
        requires
            old(self).wf(),
        ensures
            final(self).wf(),
            final(self).cf(k) == remove_key(old(self).cf(k), key@),
            forall|q: ColumnKind| q != k ==> final(self).cf(q) == old(self).cf(q),
    {
        match k {
            ColumnKind::Blocks => self.blocks.delete(key),
            ColumnKind::SlotSignatures => self.slot_signatures.delete(key),
            ColumnKind::Transactions => self.transactions.delete(key),
            ColumnKind::TransactionStatus => self.transaction_status.delete(key),
            ColumnKind::CleanupMeta => self.cleanup_meta.delete(key),
        }
    }

    /// Delete every row whose key lies in `[lo, hi)`.
    pub fn delete_range(&mut self, k: ColumnKind, lo: &[u8], hi: &[u8])
        requires
            old(self).wf(),
        ensures
            final(self).wf(),
            final(self).cf(k) == remove_range(old(self).cf(k), lo@, hi@),
            forall|q: ColumnKind| q != k ==> final(self).cf(q) == old(self).cf(q),
    {
        match k {
            ColumnKind::Blocks => self.blocks.delete_range(lo, hi),
            ColumnKind::SlotSignatures => self.slot_signatures.delete_range(lo, hi),
            ColumnKind::Transactions => self.transactions.delete_range(lo, hi),
            ColumnKind::TransactionStatus => self.transaction_status.delete_range(lo, hi),
            ColumnKind::CleanupMeta => self.cleanup_meta.delete_range(lo, hi),
        }
    }

    /// Commit a write batch: every staged mutation is applied, in staging
    /// order, as one unit.
    pub fn write(&mut self, batch: WriteBatch) -> (r: Result<(), LedgerError>)
        requires
            old(self).wf(),
        ensures
            final(self).wf(),
            r is Ok,
            forall|q: ColumnKind|
                final(self).cf(q) == apply_batch_ops(old(self).cf(q), q, batch@),
    {
        let ghost orig = *self;
        let n = batch.num_ops();
        let mut i: usize = 0;
        while i < n
            invariant
                0 <= i <= n,
                n == batch@.len(),
                self.wf(),
                forall|q: ColumnKind|
                    (#[trigger] self.cf(q)) == apply_batch_ops(
                        orig.cf(q),
                        q,
                        batch@.take(i as int),
                    ),
            decreases n - i,
        {
            let op = batch.op_at(i);
            match op {
                BatchOp::Put(k, key, value) => {
                    let kk = clone_bytes(key);
                    let vv = clone_bytes(value);
                    self.put(*k, kk, vv);
                },
                BatchOp::Delete(k, key) => {
                    self.delete(*k, key.as_slice());
                },
                BatchOp::DeleteRange(k, lo, hi) => {
                    self.delete_range(*k, lo.as_slice(), hi.as_slice());
                },
            }
            proof {
                assert forall|q: ColumnKind| (#[trigger] self.cf(q)) == apply_batch_ops(
                    orig.cf(q),
                    q,
                    batch@.take(i + 1),
                ) by {
                    assert(batch@.take(i + 1).drop_last() =~= batch@.take(i as int));
                    assert(batch@.take(i + 1).last() == batch@[i as int]);
                }
            }
            i = i + 1;
        }
        proof {
            assert(batch@.take(n as int) =~= batch@);
        }
        Ok(())
    }

    /// Approximate total storage footprint in bytes, saturating.
    pub fn total_size(&self) -> (r: u64)
        ensures
            r == spec_total_size(*self),
    {
        proof {
            crate::kv_store::lemma_spec_size_nonneg(self.blocks@);
            crate::kv_store::lemma_spec_size_nonneg(self.slot_signatures@);
            crate::kv_store::lemma_spec_size_nonneg(self.transactions@);
            crate::kv_store::lemma_spec_size_nonneg(self.transaction_status@);
            crate::kv_store::lemma_spec_size_nonneg(self.cleanup_meta@);
        }
        let a = self.blocks.approximate_size();
        let b = self.slot_signatures.approximate_size();
        let c = self.transactions.approximate_size();
        let d = self.transaction_status.approximate_size();
        let e = self.cleanup_meta.approximate_size();
        let ab = sat_add(a, b);
        let abc = sat_add(ab, c);
        let abcd = sat_add(abc, d);
        sat_add(abcd, e)
    }
}

/// Exact total footprint of all column families, unbounded.
pub open spec fn spec_total_size_exact(b: Backend) -> int {
    spec_size(b.cf(ColumnKind::Blocks)) + spec_size(b.cf(ColumnKind::SlotSignatures)) + spec_size(
        b.cf(ColumnKind::Transactions),
    ) + spec_size(b.cf(ColumnKind::TransactionStatus)) + spec_size(b.cf(ColumnKind::CleanupMeta))
}

/// Total footprint clamped to `u64::MAX`.
pub open spec fn spec_total_size(b: Backend) -> u64 {
    if spec_total_size_exact(b) <= u64::MAX {
        spec_total_size_exact(b) as u64
    } else {
        u64::MAX
    }
}

/// Saturating addition.
fn sat_add(a: u64, b: u64) -> (r: u64)
    ensures
        r == if a + b <= u64::MAX {
            (a + b) as u64
        } else {
            u64::MAX
        },
{
    if b <= u64::MAX - a {
        a + b
    } else {
        u64::MAX
    }
}

} // verus!
