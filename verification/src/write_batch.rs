//! A cross-column atomic mutation unit: an ordered sequence of staged
//! puts, point deletes and range deletes, applied to the backend as one
//! unit when committed.

use vstd::prelude::*;
use crate::columns::ColumnKind;
use crate::kv_store::remove_key;
use crate::kv_store::remove_range;
use crate::kv_store::sorted_insert;

verus! {

/// One staged mutation against a named column family.
pub enum BatchOp {
    Put(ColumnKind, Vec<u8>, Vec<u8>),
    Delete(ColumnKind, Vec<u8>),
    DeleteRange(ColumnKind, Vec<u8>, Vec<u8>),
}

/// What one staged mutation does to one column family's contents.
pub open spec fn apply_batch_op(
    s: Seq<(Seq<u8>, Seq<u8>)>,
    cf: ColumnKind,
    op: BatchOp,
) -> Seq<(Seq<u8>, Seq<u8>)> {
    match op {
        BatchOp::Put(k, key, value) => if k == cf {
            sorted_insert(s, key@, value@)
        } else {
            s
        },
        BatchOp::Delete(k, key) => if k == cf {
            remove_key(s, key@)
        } else {
            s
        },
        BatchOp::DeleteRange(k, lo, hi) => if k == cf {
            remove_range(s, lo@, hi@)
        } else {
            s
        },
    }
}

/// What a whole staged sequence does to one column family's contents,
/// applied in staging order.
pub open spec fn apply_batch_ops(
    s: Seq<(Seq<u8>, Seq<u8>)>,
    cf: ColumnKind,
    ops: Seq<BatchOp>,
) -> Seq<(Seq<u8>, Seq<u8>)>
    decreases ops.len(),
{
    if ops.len() == 0 {
        s
    } else {
        apply_batch_op(apply_batch_ops(s, cf, ops.drop_last()), cf, ops.last())
    }
}

/// The staged mutations, in order. Nothing is applied until the batch is
/// committed; commitment applies everything at once.
pub struct WriteBatch {
    ops: Vec<BatchOp>,
}

impl WriteBatch {
    /// The model: the staged operations in staging order.
    pub closed spec fn view(&self) -> Seq<BatchOp> {
        self.ops@
    }

    pub fn new() -> (r: Self)
        ensures
            r@ == Seq::<BatchOp>::empty(),
    {
        let r = WriteBatch { ops: Vec::new() };
        proof {
            assert(r@ =~= Seq::<BatchOp>::empty());
        }
        r
    }

    pub fn stage_put(&mut self, cf: ColumnKind, key: Vec<u8>, value: Vec<u8>)
        ensures
            final(self)@ == old(self)@.push(BatchOp::Put(cf, key, value)),
    {
        self.ops.push(BatchOp::Put(cf, key, value));
    }

    pub fn stage_delete(&mut self, cf: ColumnKind, key: Vec<u8>)
        ensures
            final(self)@ == old(self)@.push(BatchOp::Delete(cf, key)),
    {
        self.ops.push(BatchOp::Delete(cf, key));
    }

    pub fn stage_delete_range(&mut self, cf: ColumnKind, lo: Vec<u8>, hi: Vec<u8>)
        ensures
            final(self)@ == old(self)@.push(BatchOp::DeleteRange(cf, lo, hi)),
    {
        self.ops.push(BatchOp::DeleteRange(cf, lo, hi));
    }

    pub fn num_ops(&self) -> (r: usize)
        ensures
            r == self@.len(),
    {
        self.ops.len()
    }

    pub(crate) fn op_at(&self, i: usize) -> (r: &BatchOp)
        requires
            i < self@.len(),
        ensures
            *r == self@[i as int],
    {
        &self.ops[i]
    }
}

} // verus!
