//! The typed column handle: the operational surface of one column family,
//! bound to that column's key and value codecs and to its cached entry
//! counter. Every operation's effect is stated against the backend's
//! contents model.

use vstd::prelude::*;
use core::marker::PhantomData;
use crate::backend::Backend;
use crate::columns::Column;
use crate::columns::ProtobufColumn;
use crate::columns::TypedColumn;
use crate::columns::DIRTY_COUNT;
use crate::errors::LedgerError;
use crate::iterator::mode_entries;
use crate::iterator::raw_mode_entries;
use crate::iterator::select_mode_entries;
use crate::iterator::IteratorDirection;
use crate::iterator::IteratorMode;
use crate::iterator::RawIteratorMode;
use crate::kv_store::clone_bytes;
use crate::kv_store::keys_sorted;
use crate::kv_store::lemma_lookup_remove_key;
use crate::kv_store::lemma_lookup_sorted_insert;
use crate::kv_store::remove_key;
use crate::kv_store::seq_lookup;
use crate::kv_store::sorted_insert;
use crate::write_batch::BatchOp;
use crate::write_batch::WriteBatch;

verus! {

/// The value of an entry counter after one attempted increase.
pub open spec fn spec_counter_increased(c: i64, by: u64) -> i64 {
    if c == DIRTY_COUNT {
        c
    } else {
        (c + by) as i64
    }
}

/// The value of an entry counter after one attempted decrease: a decrease
/// that would go negative resets the counter to the dirty sentinel rather
/// than storing a negative count.
pub open spec fn spec_counter_decreased(c: i64, by: u64) -> i64 {
    if c == DIRTY_COUNT {
        c
    } else if 0 <= c - by {
        (c - by) as i64
    } else {
        DIRTY_COUNT
    }
}

/// Increases the entry counter unless it is the dirty sentinel, which is
/// left as it is until a recount sets it.
pub fn try_increase_entry_counter(entry_counter: &mut i64, by: u64)
    requires
        *old(entry_counter) == DIRTY_COUNT || (0 <= *old(entry_counter) && *old(entry_counter)
            + by <= i64::MAX),
    ensures
        *final(entry_counter) == spec_counter_increased(*old(entry_counter), by),
{
    let prev = *entry_counter;
    if prev == DIRTY_COUNT {
        return ;
    }
    *entry_counter = prev + (by as i64);
}

/// Decreases the entry counter unless it is the dirty sentinel; a decrease
/// below zero resets it to the dirty sentinel instead.
pub fn try_decrease_entry_counter(entry_counter: &mut i64, by: u64)
    ensures
        *final(entry_counter) == spec_counter_decreased(*old(entry_counter), by),
{
    let prev = *entry_counter;
    if prev == DIRTY_COUNT {
        return ;
    }
    if prev >= 0 && by <= (prev as u64) {
        *entry_counter = prev - (by as i64);
    } else {
        *entry_counter = DIRTY_COUNT;
    }
}

/// One counter adjustment: `true` for an increase, with its magnitude.
pub open spec fn counter_delta(op: (bool, u64)) -> int {
    if op.0 {
        op.1 as int
    } else {
        -(op.1 as int)
    }
}

/// A counter after a sequence of adjustments, applied in order.
pub open spec fn apply_counter_ops(c: i64, ops: Seq<(bool, u64)>) -> i64
    decreases ops.len(),
{
    if ops.len() == 0 {
        c
    } else {
        let prev = apply_counter_ops(c, ops.drop_last());
        let op = ops.last();
        if op.0 {
            spec_counter_increased(prev, op.1)
        } else {
            spec_counter_decreased(prev, op.1)
        }
    }
}

/// The algebraic running value after the first `n` adjustments.
pub open spec fn counter_sum(start: int, ops: Seq<(bool, u64)>, n: int) -> int
    decreases n,
{
    if n <= 0 {
        start
    } else {
        counter_sum(start, ops, n - 1) + counter_delta(ops[n - 1])
    }
}

/// Law: on a fresh (non-dirty) counter, a sequence of adjustments whose
/// running value stays within bounds ends at the algebraic sum of its
/// deltas.
pub proof fn lemma_counter_ops_reach_sum(start: i64, ops: Seq<(bool, u64)>)
    requires
        0 <= start,
        forall|n: int|
            0 <= n <= ops.len() ==> 0 <= #[trigger] counter_sum(start as int, ops, n) <= i64::MAX,
    ensures
        apply_counter_ops(start, ops) == counter_sum(start as int, ops, ops.len() as int),
    decreases ops.len(),
{
    if ops.len() > 0 {
        let front = ops.drop_last();
        assert(forall|n: int| 0 <= n <= front.len() ==> counter_sum(start as int, front, n)
            == counter_sum(start as int, ops, n)) by {
            lemma_counter_sum_prefix(start as int, ops, front.len() as int);
        }
        lemma_counter_ops_reach_sum(start, front);
        let prev = apply_counter_ops(start, front);
        assert(prev == counter_sum(start as int, ops, ops.len() - 1));
        assert(0 <= prev);
        assert(prev != DIRTY_COUNT);
    }
}

proof fn lemma_counter_sum_prefix(start: int, ops: Seq<(bool, u64)>, upto: int)
    requires
        0 <= upto <= ops.len() - 1,
    ensures
        forall|n: int|
            0 <= n <= upto ==> #[trigger] counter_sum(start, ops.drop_last(), n) == counter_sum(
                start,
                ops,
                n,
            ),
    decreases upto,
{
    if upto > 0 {
        lemma_counter_sum_prefix(start, ops, upto - 1);
    }
    assert forall|n: int|
        0 <= n <= upto implies #[trigger] counter_sum(start, ops.drop_last(), n) == counter_sum(
        start,
        ops,
        n,
    ) by {
        if n == upto && upto > 0 {
            assert(ops.drop_last()[upto - 1] == ops[upto - 1]);
            assert(counter_sum(start, ops.drop_last(), upto - 1) == counter_sum(
                start,
                ops,
                upto - 1,
            ));
        }
    }
}

/// Law: the dirty sentinel absorbs every later adjustment until a recount
/// replaces it.
pub proof fn lemma_counter_dirty_absorbs(ops: Seq<(bool, u64)>)
    ensures
        apply_counter_ops(DIRTY_COUNT, ops) == DIRTY_COUNT,
    decreases ops.len(),
{
    if ops.len() > 0 {
        lemma_counter_dirty_absorbs(ops.drop_last());
    }
}

/// Adjustments compose: applying a concatenation is applying the parts in
/// turn.
pub proof fn lemma_counter_ops_concat(c: i64, a: Seq<(bool, u64)>, b: Seq<(bool, u64)>)
    ensures
        apply_counter_ops(c, a + b) == apply_counter_ops(apply_counter_ops(c, a), b),
    decreases b.len(),
{
    if b.len() == 0 {
        assert(a + b =~= a);
    } else {
        assert((a + b).drop_last() =~= a + b.drop_last());
        assert((a + b).last() == b.last());
        lemma_counter_ops_concat(c, a, b.drop_last());
    }
}

/// Law: once a decrease underflows, the counter is the dirty sentinel from
/// that point on, whatever follows.
pub proof fn lemma_counter_underflow_goes_dirty(start: i64, ops: Seq<(bool, u64)>, n: int)
    requires
        0 <= start,
        0 <= n < ops.len(),
        forall|m: int|
            0 <= m <= n ==> 0 <= #[trigger] counter_sum(start as int, ops, m) <= i64::MAX,
        !ops[n].0,
        counter_sum(start as int, ops, n) - ops[n].1 < 0,
    ensures
        apply_counter_ops(start, ops) == DIRTY_COUNT,
{
    let head = ops.take(n + 1);
    let tail = ops.skip(n + 1);
    assert(ops =~= head + tail);
    assert(forall|m: int| 0 <= m <= n + 1 ==> #[trigger] counter_sum(start as int, head, m)
        == counter_sum(start as int, ops, m)) by {
        lemma_counter_sum_take(start as int, ops, n + 1, n + 1);
    }
    assert(head.drop_last() =~= ops.take(n));
    assert(forall|m: int| 0 <= m <= n ==> #[trigger] counter_sum(start as int, ops.take(n), m)
        == counter_sum(start as int, ops, m)) by {
        lemma_counter_sum_take(start as int, ops, n, n);
    }
    lemma_counter_ops_reach_sum_take(start, ops, n);
    let prev = apply_counter_ops(start, ops.take(n));
    assert(prev == counter_sum(start as int, ops, n));
    assert(head.last() == ops[n]);
    assert(apply_counter_ops(start, head) == spec_counter_decreased(prev, ops[n].1));
    assert(apply_counter_ops(start, head) == DIRTY_COUNT);
    lemma_counter_ops_concat(start, head, tail);
    lemma_counter_dirty_absorbs(tail);
}

proof fn lemma_counter_sum_take(start: int, ops: Seq<(bool, u64)>, cut: int, upto: int)
    requires
        0 <= cut <= ops.len(),
        0 <= upto <= cut,
    ensures
        forall|m: int|
            0 <= m <= upto ==> #[trigger] counter_sum(start, ops.take(cut), m) == counter_sum(
                start,
                ops,
                m,
            ),
    decreases upto,
{
    if upto > 0 {
        lemma_counter_sum_take(start, ops, cut, upto - 1);
    }
    assert forall|m: int|
        0 <= m <= upto implies #[trigger] counter_sum(start, ops.take(cut), m) == counter_sum(
        start,
        ops,
        m,
    ) by {
        if m == upto && upto > 0 {
            assert(ops.take(cut)[upto - 1] == ops[upto - 1]);
            assert(counter_sum(start, ops.take(cut), upto - 1) == counter_sum(
                start,
                ops,
                upto - 1,
            ));
        }
    }
}

proof fn lemma_counter_ops_reach_sum_take(start: i64, ops: Seq<(bool, u64)>, n: int)
    requires
        0 <= start,
        0 <= n <= ops.len(),
        forall|m: int|
            0 <= m <= n ==> 0 <= #[trigger] counter_sum(start as int, ops, m) <= i64::MAX,
    ensures
        apply_counter_ops(start, ops.take(n)) == counter_sum(start as int, ops, n),
{
    assert(forall|m: int| 0 <= m <= n ==> #[trigger] counter_sum(start as int, ops.take(n), m)
        == counter_sum(start as int, ops, m)) by {
        lemma_counter_sum_take(start as int, ops, n, n);
    }
    lemma_counter_ops_reach_sum(start, ops.take(n));
}

/// The row count the cache returns after a recount of `n` rows, clamped to
/// the largest representable value.
pub open spec fn spec_count_clamped(n: nat) -> i64 {
    if n <= i64::MAX {
        n as i64
    } else {
        i64::MAX
    }
}

/// An operation-sampling cursor: "sample every Nth operation", advanced on
/// each operation without consulting a clock.
pub struct PerfSamplingStatus {
    pub op_count: u64,
}

impl PerfSamplingStatus {
    pub open spec fn spec_bumped(self) -> PerfSamplingStatus {
        PerfSamplingStatus {
            op_count: if self.op_count == u64::MAX {
                0
            } else {
                (self.op_count + 1) as u64
            },
        }
    }

    /// Advance the cursor; the result says whether this operation is the
    /// one in `interval` that should be sampled. A zero interval disables
    /// sampling.
    pub fn record_op(&mut self, interval: u64) -> (sampled: bool)
        ensures
            *final(self) == old(self).spec_bumped(),
            sampled == (interval != 0 && old(self).op_count % interval == 0),
    {
        let sampled = if interval == 0 {
            false
        } else {
            self.op_count % interval == 0
        };
        self.op_count = if self.op_count == u64::MAX {
            0
        } else {
            self.op_count + 1
        };
        sampled
    }
}

/// Per-column tuning: how often read and write operations are sampled for
/// performance accounting.
pub struct LedgerColumnOptions {
    pub perf_sample_interval: u64,
}

/// The operational handle of one column family: key and value codecs bound
/// to the column type `C`, an entry counter, and sampling cursors for
/// reads and writes.
pub struct LedgerColumn<C: Column> {
    pub column: PhantomData<C>,
    pub column_options: LedgerColumnOptions,
    pub read_perf_status: PerfSamplingStatus,
    pub write_perf_status: PerfSamplingStatus,
    pub entry_counter: i64,
}

/// Whether every key of the given rows decodes as an index of column `C`.
pub open spec fn all_keys_decodable<C: Column>(s: Seq<(Seq<u8>, Seq<u8>)>) -> bool {
    forall|j: int| 0 <= j < s.len() ==> (#[trigger] C::spec_index_of(s[j].0)) is Some
}

/// The rows of `s` whose keys decode as indices of `C`, decoded, in order.
pub open spec fn decoded_entries<C: Column>(s: Seq<(Seq<u8>, Seq<u8>)>) -> Seq<
    (C::Index, Seq<u8>),
>
    decreases s.len(),
{
    if s.len() == 0 {
        Seq::empty()
    } else {
        let front = decoded_entries::<C>(s.drop_last());
        match C::spec_index_of(s.last().0) {
            Some(i) => front + seq![(i, s.last().1)],
            None => front,
        }
    }
}

impl<C: Column> LedgerColumn<C> {
    pub open spec fn with_read_bumped(self) -> Self {
        LedgerColumn { read_perf_status: self.read_perf_status.spec_bumped(), ..self }
    }

    pub open spec fn with_write_bumped(self) -> Self {
        LedgerColumn { write_perf_status: self.write_perf_status.spec_bumped(), ..self }
    }

    pub fn new(options: LedgerColumnOptions) -> (r: Self)
        ensures
            r.entry_counter == 0,
            r.column_options == options,
            r.read_perf_status.op_count == 0,
            r.write_perf_status.op_count == 0,
    {
        LedgerColumn {
            column: PhantomData,
            column_options: options,
            read_perf_status: PerfSamplingStatus { op_count: 0 },
            write_perf_status: PerfSamplingStatus { op_count: 0 },
            entry_counter: 0,
        }
    }

    /// Raw point read: the stored bytes under the index's key, if any.
    pub fn get_bytes(&mut self, backend: &Backend, key: C::Index) -> (r: Result<
        Option<Vec<u8>>,
        LedgerError,
    >)
        requires
            backend.wf(),
        ensures
            *final(self) == old(self).with_read_bumped(),
            ({
                let stored = seq_lookup(backend.cf(C::spec_kind()), C::spec_key(key));
                match r {
                    Ok(Some(v)) => stored == Some(v@),
                    Ok(None) => stored is None,
                    Err(_) => false,
                }
            }),
    {
        self.read_perf_status.record_op(self.column_options.perf_sample_interval);
        let k = C::key(&key);
        match backend.get(C::kind(), k.as_slice()) {
            Some(v) => Ok(Some(clone_bytes(v))),
            None => Ok(None),
        }
    }

    /// Batched raw point reads: one independent result per input index, in
    /// input order.
    pub fn multi_get_bytes(&mut self, backend: &Backend, keys: Vec<C::Index>) -> (r: Vec<
        Result<Option<Vec<u8>>, LedgerError>,
    >)
        requires
            backend.wf(),
        ensures
            *final(self) == old(self).with_read_bumped(),
            r@.len() == keys@.len(),
            forall|j: int|
                0 <= j < r@.len() ==> ({
                    let stored = seq_lookup(
                        backend.cf(C::spec_kind()),
                        C::spec_key(keys@[j]),
                    );
                    match #[trigger] r@[j] {
                        Ok(Some(v)) => stored == Some(v@),
                        Ok(None) => stored is None,
                        Err(_) => false,
                    }
                }),
    {
        self.read_perf_status.record_op(self.column_options.perf_sample_interval);
        let n = keys.len();
        let mut out: Vec<Result<Option<Vec<u8>>, LedgerError>> = Vec::new();
        let mut i: usize = 0;
        while i < n
            invariant
                0 <= i <= n,
                n == keys@.len(),
                backend.wf(),
                *self == old(self).with_read_bumped(),
                out@.len() == i,
                forall|j: int|
                    0 <= j < i ==> ({
                        let stored = seq_lookup(
                            backend.cf(C::spec_kind()),
                            C::spec_key(keys@[j]),
                        );
                        match #[trigger] out@[j] {
                            Ok(Some(v)) => stored == Some(v@),
                            Ok(None) => stored is None,
                            Err(_) => false,
                        }
                    }),
            decreases n - i,
        {
            let k = C::key(&keys[i]);
            match backend.get(C::kind(), k.as_slice()) {
                Some(v) => out.push(Ok(Some(clone_bytes(v)))),
                None => out.push(Ok(None)),
            }
            i = i + 1;
        }
        out
    }

    /// Raw write of already-encoded value bytes under the index's key.
    pub fn put_bytes(&mut self, backend: &mut Backend, key: C::Index, value: &[u8]) -> (r: Result<
        (),
        LedgerError,
    >)
        requires
            old(backend).wf(),
        ensures
            *final(self) == old(self).with_write_bumped(),
            final(backend).wf(),
            r is Ok,
            final(backend).cf(C::spec_kind()) == sorted_insert(
                old(backend).cf(C::spec_kind()),
                C::spec_key(key),
                value@,
            ),
            forall|q: crate::columns::ColumnKind|
                q != C::spec_kind() ==> final(backend).cf(q) == old(backend).cf(q),
    {
        self.write_perf_status.record_op(self.column_options.perf_sample_interval);
        let k = C::key(&key);
        let v = slice_to_vec(value);
        backend.put(C::kind(), k, v);
        Ok(())
    }

    /// Point delete of the row under the index's key; absent rows are a
    /// no-op. The entry counter is adjusted only if the caller opts in
    /// through `try_decrease_entry_counter`.
    pub fn delete(&mut self, backend: &mut Backend, key: C::Index) -> (r: Result<(), LedgerError>)
        requires
            old(backend).wf(),
        ensures
            *final(self) == old(self).with_write_bumped(),
            final(backend).wf(),
            r is Ok,
            final(backend).cf(C::spec_kind()) == remove_key(
                old(backend).cf(C::spec_kind()),
                C::spec_key(key),
            ),
            forall|q: crate::columns::ColumnKind|
                q != C::spec_kind() ==> final(backend).cf(q) == old(backend).cf(q),
    {
        self.write_perf_status.record_op(self.column_options.perf_sample_interval);
        let k = C::key(&key);
        backend.delete(C::kind(), k.as_slice());
        Ok(())
    }

    /// Stage a point delete into a write batch instead of applying it.
    pub fn delete_in_batch(&self, write_batch: &mut WriteBatch, key: C::Index)
        ensures
            final(write_batch)@.len() == old(write_batch)@.len() + 1,
            final(write_batch)@.take(old(write_batch)@.len() as int) == old(write_batch)@,
            ({
                let op = final(write_batch)@.last();
                op matches BatchOp::Delete(k, kb) && k == C::spec_kind() && kb@ == C::spec_key(
                    key,
                )
            }),
    {
        let k = C::key(&key);
        write_batch.stage_delete(C::kind(), k);
        proof {
            assert(write_batch@.take(old(write_batch)@.len() as int) =~= old(write_batch)@);
        }
    }

    /// Stage a half-open range delete, covering encoded keys in
    /// `[key(from), key(to))`, into a write batch.
    pub fn delete_range_in_batch(
        &self,
        write_batch: &mut WriteBatch,
        from: C::Index,
        to: C::Index,
    )
        ensures
            final(write_batch)@.len() == old(write_batch)@.len() + 1,
            final(write_batch)@.take(old(write_batch)@.len() as int) == old(write_batch)@,
            ({
                let op = final(write_batch)@.last();
                op matches BatchOp::DeleteRange(k, lo, hi) && k == C::spec_kind() && lo@
                    == C::spec_key(from) && hi@ == C::spec_key(to)
            }),
    {
        let lo = C::key(&from);
        let hi = C::key(&to);
        write_batch.stage_delete_range(C::kind(), lo, hi);
        proof {
            assert(write_batch@.take(old(write_batch)@.len() as int) =~= old(write_batch)@);
        }
    }

    /// A maintenance hint for storage engines that defer reclamation; this
    /// backend reclaims space eagerly, so there is nothing to compact.
    pub fn compact_range(&self, _from: Option<C::Index>, _to: Option<C::Index>) {
    }

    /// A durability hint for storage engines that buffer writes; this
    /// backend holds its rows directly, so there is nothing buffered to
    /// flush.
    pub fn flush(&self) -> (r: Result<(), LedgerError>)
        ensures
            r is Ok,
    {
        Ok(())
    }

    /// Whether the column holds no rows at all.
    pub fn is_empty(&self, backend: &Backend) -> (r: Result<bool, LedgerError>)
        ensures
            r matches Ok(e) && e == (backend.cf(C::spec_kind()).len() == 0),
    {
        Ok(backend.num_entries(C::kind()) == 0)
    }

    /// The cached row count, or a recount. A non-dirty counter is returned
    /// as it stands; the dirty sentinel triggers a full count, clamped to
    /// the largest representable value, which is stored and returned.
    pub fn count_column_using_cache(&mut self, backend: &Backend) -> (r: Result<i64, LedgerError>)
        ensures
            old(self).entry_counter != DIRTY_COUNT ==> r == Ok::<i64, LedgerError>(
                old(self).entry_counter,
            ) && *final(self) == *old(self),
            old(self).entry_counter == DIRTY_COUNT ==> ({
                let c = spec_count_clamped(backend.cf(C::spec_kind()).len());
                &&& r == Ok::<i64, LedgerError>(c)
                &&& *final(self) == (LedgerColumn { entry_counter: c, ..*old(self) })
            }),
    {
        let cached = self.entry_counter;
        if cached != DIRTY_COUNT {
            return Ok(cached);
        }
        let n = backend.num_entries(C::kind());
        let c: i64 = if (n as u64) <= (i64::MAX as u64) {
            n as i64
        } else {
            i64::MAX
        };
        self.entry_counter = c;
        Ok(c)
    }

    /// Reset the cached count to the dirty sentinel, for bulk mutations
    /// whose exact row delta is not cheaply known; the next recount
    /// repairs it.
    pub fn mark_entry_counter_dirty(&mut self)
        ensures
            *final(self) == (LedgerColumn { entry_counter: DIRTY_COUNT, ..*old(self) }),
    {
        self.entry_counter = DIRTY_COUNT;
    }

    /// Opt-in counter increase after a successful write.
    pub fn try_increase_entry_counter(&mut self, by: u64)
        requires
            old(self).entry_counter == DIRTY_COUNT || (0 <= old(self).entry_counter && old(
                self,
            ).entry_counter + by <= i64::MAX),
        ensures
            *final(self) == (LedgerColumn {
                entry_counter: spec_counter_increased(old(self).entry_counter, by),
                ..*old(self)
            }),
    {
        crate::ledger_column::try_increase_entry_counter(&mut self.entry_counter, by);
    }

    /// Opt-in counter decrease after a successful delete.
    pub fn try_decrease_entry_counter(&mut self, by: u64)
        ensures
            *final(self) == (LedgerColumn {
                entry_counter: spec_counter_decreased(old(self).entry_counter, by),
                ..*old(self)
            }),
    {
        crate::ledger_column::try_decrease_entry_counter(&mut self.entry_counter, by);
    }

    /// Ordered iteration: the rows the mode yields, with decoded indices
    /// and raw value bytes. Fails if any yielded key does not decode.
    pub fn iter(&mut self, backend: &Backend, mode: IteratorMode<C::Index>) -> (r: Result<
        Vec<(C::Index, Vec<u8>)>,
        LedgerError,
    >)
        requires
            backend.wf(),
        ensures
            *final(self) == old(self).with_read_bumped(),
            ({
                let base = mode_entries::<C>(backend.cf(C::spec_kind()), mode);
                &&& (r matches Ok(v) ==> v@.map_values(|e: (C::Index, Vec<u8>)| (e.0, e.1@))
                    == decoded_entries::<C>(base) && all_keys_decodable::<C>(base))
                &&& (r is Err ==> (r matches Err(e) && e == LedgerError::Decode)
                    && !all_keys_decodable::<C>(base))
            }),
    {
        self.read_perf_status.record_op(self.column_options.perf_sample_interval);
        let entries = backend.scan(C::kind());
        let ghost base = mode_entries::<C>(backend.cf(C::spec_kind()), mode);
        let raw = match &mode {
            IteratorMode::Start => RawIteratorMode::Start,
            IteratorMode::End => RawIteratorMode::End,
            IteratorMode::From(i, IteratorDirection::Forward) => RawIteratorMode::FromForward(
                C::key(i),
            ),
            IteratorMode::From(i, IteratorDirection::Reverse) => RawIteratorMode::FromReverse(
                C::key(i),
            ),
        };
        let selected = select_mode_entries(&entries, &raw);
        proof {
            assert(raw_mode_entries(
                entries@.map_values(|e: (Vec<u8>, Vec<u8>)| (e.0@, e.1@)),
                raw,
            ) == base);
        }
        let ghost sel = selected@.map_values(|e: (Vec<u8>, Vec<u8>)| (e.0@, e.1@));
        let n = selected.len();
        let mut out: Vec<(C::Index, Vec<u8>)> = Vec::new();
        let mut i: usize = 0;
        proof {
            assert(sel.take(0) =~= Seq::<(Seq<u8>, Seq<u8>)>::empty());
            assert(out@.map_values(|e: (C::Index, Vec<u8>)| (e.0, e.1@)) =~= Seq::<
                (C::Index, Seq<u8>),
            >::empty());
        }
        while i < n
            invariant
                0 <= i <= n,
                n == sel.len(),
                sel == selected@.map_values(|e: (Vec<u8>, Vec<u8>)| (e.0@, e.1@)),
                sel == base,
                base == mode_entries::<C>(backend.cf(C::spec_kind()), mode),
                *self == old(self).with_read_bumped(),
                out@.map_values(|e: (C::Index, Vec<u8>)| (e.0, e.1@)) == decoded_entries::<C>(
                    sel.take(i as int),
                ),
                forall|j: int| 0 <= j < i ==> (#[trigger] C::spec_index_of(sel[j].0)) is Some,
            decreases n - i,
        {
            proof {
                assert(sel.take(i + 1).drop_last() =~= sel.take(i as int));
                assert(sel.take(i + 1).last() == sel[i as int]);
            }
            match C::try_index(selected[i].0.as_slice()) {
                Some(ix) => {
                    let vc = clone_bytes(&selected[i].1);
                    let ghost before = out@.map_values(|e: (C::Index, Vec<u8>)| (e.0, e.1@));
                    out.push((ix, vc));
                    proof {
                        assert(out@.map_values(|e: (C::Index, Vec<u8>)| (e.0, e.1@)) =~= before
                            + seq![(ix, sel[i as int].1)]);
                    }
                },
                None => {
                    proof {
                        assert(C::spec_index_of(base[i as int].0) is None);
                        assert(!all_keys_decodable::<C>(base)) by {
                            if all_keys_decodable::<C>(base) {
                                assert(C::spec_index_of(base[i as int].0) is Some);
                            }
                        }
                    }
                    return Err(LedgerError::Decode);
                },
            }
            i = i + 1;
        }
        proof {
            assert(sel.take(n as int) =~= sel);
        }
        Ok(out)
    }

    /// Ordered iteration that silently skips rows whose keys do not decode
    /// under the column's current index layout.
    pub fn iter_current_index_filtered(&mut self, backend: &Backend, mode: IteratorMode<C::Index>)
        -> (r: Vec<(C::Index, Vec<u8>)>)
        requires
            backend.wf(),
        ensures
            *final(self) == old(self).with_read_bumped(),
            r@.map_values(|e: (C::Index, Vec<u8>)| (e.0, e.1@)) == decoded_entries::<C>(
                mode_entries::<C>(backend.cf(C::spec_kind()), mode),
            ),
    {
        self.read_perf_status.record_op(self.column_options.perf_sample_interval);
        let entries = backend.scan(C::kind());
        let ghost base = mode_entries::<C>(backend.cf(C::spec_kind()), mode);
        let raw = match &mode {
            IteratorMode::Start => RawIteratorMode::Start,
            IteratorMode::End => RawIteratorMode::End,
            IteratorMode::From(i, IteratorDirection::Forward) => RawIteratorMode::FromForward(
                C::key(i),
            ),
            IteratorMode::From(i, IteratorDirection::Reverse) => RawIteratorMode::FromReverse(
                C::key(i),
            ),
        };
        let selected = select_mode_entries(&entries, &raw);
        proof {
            assert(raw_mode_entries(
                entries@.map_values(|e: (Vec<u8>, Vec<u8>)| (e.0@, e.1@)),
                raw,
            ) == base);
        }
        let ghost sel = selected@.map_values(|e: (Vec<u8>, Vec<u8>)| (e.0@, e.1@));
        let n = selected.len();
        let mut out: Vec<(C::Index, Vec<u8>)> = Vec::new();
        let mut i: usize = 0;
        proof {
            assert(sel.take(0) =~= Seq::<(Seq<u8>, Seq<u8>)>::empty());
            assert(out@.map_values(|e: (C::Index, Vec<u8>)| (e.0, e.1@)) =~= Seq::<
                (C::Index, Seq<u8>),
            >::empty());
        }
        while i < n
            invariant
                0 <= i <= n,
                n == sel.len(),
                sel == selected@.map_values(|e: (Vec<u8>, Vec<u8>)| (e.0@, e.1@)),
                sel == base,
                base == mode_entries::<C>(backend.cf(C::spec_kind()), mode),
                *self == old(self).with_read_bumped(),
                out@.map_values(|e: (C::Index, Vec<u8>)| (e.0, e.1@)) == decoded_entries::<C>(
                    sel.take(i as int),
                ),
            decreases n - i,
        {
            proof {
                assert(sel.take(i + 1).drop_last() =~= sel.take(i as int));
                assert(sel.take(i + 1).last() == sel[i as int]);
            }
            match C::try_index(selected[i].0.as_slice()) {
                Some(ix) => {
                    let vc = clone_bytes(&selected[i].1);
                    let ghost before = out@.map_values(|e: (C::Index, Vec<u8>)| (e.0, e.1@));
                    out.push((ix, vc));
                    proof {
                        assert(out@.map_values(|e: (C::Index, Vec<u8>)| (e.0, e.1@)) =~= before
                            + seq![(ix, sel[i as int].1)]);
                    }
                },
                None => {},
            }
            i = i + 1;
        }
        proof {
            assert(sel.take(n as int) =~= sel);
        }
        out
    }
}


impl<C: TypedColumn> LedgerColumn<C> {
    /// Typed point read: stored bytes decoded by the compact-binary codec.
    /// `Ok(None)` exactly when the key is absent; a decode failure is an
    /// error for this row only.
    pub fn get(&mut self, backend: &Backend, key: C::Index) -> (r: Result<
        Option<C::Type>,
        LedgerError,
    >)
        requires
            backend.wf(),
        ensures
            *final(self) == old(self).with_read_bumped(),
            ({
                let stored = seq_lookup(backend.cf(C::spec_kind()), C::spec_key(key));
                match r {
                    Ok(Some(v)) => (stored matches Some(b) && C::spec_value_of(b) == Some(v@)),
                    Ok(None) => stored is None,
                    Err(e) => e == LedgerError::Decode && (stored matches Some(b)
                        && C::spec_value_of(b) is None),
                }
            }),
    {
        self.read_perf_status.record_op(self.column_options.perf_sample_interval);
        let k = C::key(&key);
        match backend.get(C::kind(), k.as_slice()) {
            Some(v) => match C::decode_value(v.as_slice()) {
                Ok(val) => Ok(Some(val)),
                Err(e) => Err(e),
            },
            None => Ok(None),
        }
    }

    /// Typed read of an already-encoded key, as `get` but without the key
    /// codec: the caller supplies the exact stored key bytes.
    pub fn get_raw(&mut self, backend: &Backend, key: &[u8]) -> (r: Result<
        Option<C::Type>,
        LedgerError,
    >)
        requires
            backend.wf(),
        ensures
            *final(self) == old(self).with_read_bumped(),
            ({
                let stored = seq_lookup(backend.cf(C::spec_kind()), key@);
                match r {
                    Ok(Some(v)) => (stored matches Some(b) && C::spec_value_of(b) == Some(v@)),
                    Ok(None) => stored is None,
                    Err(e) => e == LedgerError::Decode && (stored matches Some(b)
                        && C::spec_value_of(b) is None),
                }
            }),
    {
        self.read_perf_status.record_op(self.column_options.perf_sample_interval);
        match backend.get(C::kind(), key) {
            Some(v) => match C::decode_value(v.as_slice()) {
                Ok(val) => Ok(Some(val)),
                Err(e) => Err(e),
            },
            None => Ok(None),
        }
    }

    /// Batched typed reads: one independent result per input index, in
    /// input order; one row's decode failure does not abort its siblings.
    pub fn multi_get(&mut self, backend: &Backend, keys: Vec<C::Index>) -> (r: Vec<
        Result<Option<C::Type>, LedgerError>,
    >)
        requires
            backend.wf(),
        ensures
            *final(self) == old(self).with_read_bumped(),
            r@.len() == keys@.len(),
            forall|j: int|
                0 <= j < r@.len() ==> ({
                    let stored = seq_lookup(
                        backend.cf(C::spec_kind()),
                        C::spec_key(keys@[j]),
                    );
                    match #[trigger] r@[j] {
                        Ok(Some(v)) => (stored matches Some(b) && C::spec_value_of(b) == Some(
                            v@,
                        )),
                        Ok(None) => stored is None,
                        Err(e) => e == LedgerError::Decode && (stored matches Some(b)
                            && C::spec_value_of(b) is None),
                    }
                }),
    {
        self.read_perf_status.record_op(self.column_options.perf_sample_interval);
        let n = keys.len();
        let mut out: Vec<Result<Option<C::Type>, LedgerError>> = Vec::new();
        let mut i: usize = 0;
        while i < n
            invariant
                0 <= i <= n,
                n == keys@.len(),
                backend.wf(),
                *self == old(self).with_read_bumped(),
                out@.len() == i,
                forall|j: int|
                    0 <= j < i ==> ({
                        let stored = seq_lookup(
                            backend.cf(C::spec_kind()),
                            C::spec_key(keys@[j]),
                        );
                        match #[trigger] out@[j] {
                            Ok(Some(v)) => (stored matches Some(b) && C::spec_value_of(b)
                                == Some(v@)),
                            Ok(None) => stored is None,
                            Err(e) => e == LedgerError::Decode && (stored matches Some(b)
                                && C::spec_value_of(b) is None),
                        }
                    }),
            decreases n - i,
        {
            let k = C::key(&keys[i]);
            match backend.get(C::kind(), k.as_slice()) {
                Some(v) => match C::decode_value(v.as_slice()) {
                    Ok(val) => out.push(Ok(Some(val))),
                    Err(e) => out.push(Err(e)),
                },
                None => out.push(Ok(None)),
            }
            i = i + 1;
        }
        out
    }

    /// Typed write: the value is encoded by the compact-binary codec and
    /// stored under the index\'s key, overwriting any previous row. The
    /// entry counter is adjusted only if the caller opts in through
    /// `try_increase_entry_counter`.
    pub fn put(&mut self, backend: &mut Backend, key: C::Index, value: &C::Type) -> (r: Result<
        (),
        LedgerError,
    >)
        requires
            old(backend).wf(),
        ensures
            *final(self) == old(self).with_write_bumped(),
            final(backend).wf(),
            r is Ok,
            final(backend).cf(C::spec_kind()) == sorted_insert(
                old(backend).cf(C::spec_kind()),
                C::spec_key(key),
                C::spec_value_bytes(value@),
            ),
            forall|q: crate::columns::ColumnKind|
                q != C::spec_kind() ==> final(backend).cf(q) == old(backend).cf(q),
    {
        self.write_perf_status.record_op(self.column_options.perf_sample_interval);
        let bytes = match C::encode_value(value) {
            Ok(b) => b,
            Err(e) => {
                return Err(e);
            },
        };
        let k = C::key(&key);
        backend.put(C::kind(), k, bytes);
        Ok(())
    }
}

impl<C: ProtobufColumn> LedgerColumn<C> {
    /// Schema-coded write: the value is encoded by the schema codec and
    /// stored under the index\'s key. Writes always use the schema codec;
    /// only reads fall back to the legacy codec.
    pub fn put_protobuf(&mut self, backend: &mut Backend, key: C::Index, value: &C::Type) -> (r:
        Result<(), LedgerError>)
        requires
            old(backend).wf(),
        ensures
            *final(self) == old(self).with_write_bumped(),
            final(backend).wf(),
            r is Ok,
            final(backend).cf(C::spec_kind()) == sorted_insert(
                old(backend).cf(C::spec_kind()),
                C::spec_key(key),
                C::spec_proto_bytes(value@),
            ),
            forall|q: crate::columns::ColumnKind|
                q != C::spec_kind() ==> final(backend).cf(q) == old(backend).cf(q),
    {
        self.write_perf_status.record_op(self.column_options.perf_sample_interval);
        let bytes = match C::encode_proto(value) {
            Ok(b) => b,
            Err(e) => {
                return Err(e);
            },
        };
        let k = C::key(&key);
        backend.put(C::kind(), k, bytes);
        Ok(())
    }

    /// Schema-coded point read, without the legacy fallback: bytes the
    /// schema codec cannot parse are a decode error. Whatever was written
    /// by `put_protobuf` reads back as the same value.
    pub fn get_protobuf(&mut self, backend: &Backend, key: C::Index) -> (r: Result<
        Option<C::Type>,
        LedgerError,
    >)
        requires
            backend.wf(),
        ensures
            *final(self) == old(self).with_read_bumped(),
            ({
                let stored = seq_lookup(backend.cf(C::spec_kind()), C::spec_key(key));
                &&& (match r {
                    Ok(Some(v)) => (stored matches Some(b) && C::spec_proto_of(b) == Some(v@)),
                    Ok(None) => stored is None,
                    Err(e) => e == LedgerError::Decode && (stored matches Some(b)
                        && C::spec_proto_of(b) is None),
                })
                &&& (forall|w: <C::Type as View>::V|
                    stored == Some(C::spec_proto_bytes(w)) ==> (r matches Ok(Some(v)) && v@
                        == w))
            }),
    {
        self.read_perf_status.record_op(self.column_options.perf_sample_interval);
        let k = C::key(&key);
        match backend.get(C::kind(), k.as_slice()) {
            Some(bytes) => match C::decode_proto(bytes.as_slice()) {
                Ok(val) => Ok(Some(val)),
                Err(e) => Err(e),
            },
            None => Ok(None),
        }
    }

    /// Ordered schema-coded iteration: one independent result per yielded
    /// row; a row whose key or value does not decode is an error for that
    /// row only.
    pub fn iter_protobuf(&mut self, backend: &Backend, mode: IteratorMode<C::Index>) -> (r: Vec<
        Result<(C::Index, C::Type), LedgerError>,
    >)
        requires
            backend.wf(),
        ensures
            *final(self) == old(self).with_read_bumped(),
            ({
                let base = mode_entries::<C>(backend.cf(C::spec_kind()), mode);
                &&& r@.len() == base.len()
                &&& (forall|j: int|
                    0 <= j < r@.len() ==> ((#[trigger] r@[j]) matches Ok(p) ==> C::spec_index_of(
                        base[j].0,
                    ) == Some(p.0) && C::spec_proto_of(base[j].1) == Some(p.1@)))
                &&& (forall|j: int|
                    0 <= j < r@.len() ==> ((#[trigger] r@[j]) is Err ==> C::spec_index_of(
                        base[j].0,
                    ) is None || C::spec_proto_of(base[j].1) is None))
            }),
    {
        self.read_perf_status.record_op(self.column_options.perf_sample_interval);
        let entries = backend.scan(C::kind());
        let ghost base = mode_entries::<C>(backend.cf(C::spec_kind()), mode);
        let raw = match &mode {
            IteratorMode::Start => RawIteratorMode::Start,
            IteratorMode::End => RawIteratorMode::End,
            IteratorMode::From(i, IteratorDirection::Forward) => RawIteratorMode::FromForward(
                C::key(i),
            ),
            IteratorMode::From(i, IteratorDirection::Reverse) => RawIteratorMode::FromReverse(
                C::key(i),
            ),
        };
        let selected = select_mode_entries(&entries, &raw);
        proof {
            assert(raw_mode_entries(
                entries@.map_values(|e: (Vec<u8>, Vec<u8>)| (e.0@, e.1@)),
                raw,
            ) == base);
        }
        let ghost sel = selected@.map_values(|e: (Vec<u8>, Vec<u8>)| (e.0@, e.1@));
        let n = selected.len();
        let mut out: Vec<Result<(C::Index, C::Type), LedgerError>> = Vec::new();
        let mut i: usize = 0;
        while i < n
            invariant
                0 <= i <= n,
                n == sel.len(),
                sel == selected@.map_values(|e: (Vec<u8>, Vec<u8>)| (e.0@, e.1@)),
                sel == base,
                *self == old(self).with_read_bumped(),
                out@.len() == i,
                forall|j: int|
                    0 <= j < i ==> ((#[trigger] out@[j]) matches Ok(p) ==> C::spec_index_of(
                        base[j].0,
                    ) == Some(p.0) && C::spec_proto_of(base[j].1) == Some(p.1@)),
                forall|j: int|
                    0 <= j < i ==> ((#[trigger] out@[j]) is Err ==> C::spec_index_of(base[j].0)
                        is None || C::spec_proto_of(base[j].1) is None),
            decreases n - i,
        {
            match C::try_index(selected[i].0.as_slice()) {
                Some(ix) => match C::decode_proto(selected[i].1.as_slice()) {
                    Ok(val) => out.push(Ok((ix, val))),
                    Err(e) => out.push(Err(e)),
                },
                None => out.push(Err(LedgerError::Decode)),
            }
            i = i + 1;
        }
        out
    }
}

impl<C> LedgerColumn<C> where
    C: ProtobufColumn + TypedColumn<Type = <C as ProtobufColumn>::Type>,
 {
    /// Dual-codec point read: try the schema codec first; bytes it cannot
    /// parse are reinterpreted under the legacy compact-binary codec, so
    /// data written before the schema codec remains readable. An ambiguous
    /// byte string that both codecs accept decodes under the schema codec.
    pub fn get_protobuf_or_bincode(&mut self, backend: &Backend, key: C::Index) -> (r: Result<
        Option<<C as ProtobufColumn>::Type>,
        LedgerError,
    >)
        requires
            backend.wf(),
        ensures
            *final(self) == old(self).with_read_bumped(),
            ({
                let stored = seq_lookup(backend.cf(C::spec_kind()), C::spec_key(key));
                &&& (match r {
                    Ok(Some(v)) => (stored matches Some(b) && (C::spec_proto_of(b) == Some(v@)
                        || (C::spec_proto_of(b) is None && C::spec_value_of(b) == Some(v@)))),
                    Ok(None) => stored is None,
                    Err(e) => e == LedgerError::Decode && (stored matches Some(b)
                        && C::spec_proto_of(b) is None && C::spec_value_of(b) is None),
                })
                &&& (forall|w: <<C as ProtobufColumn>::Type as View>::V|
                    stored == Some(C::spec_proto_bytes(w)) ==> (r matches Ok(Some(v)) && v@
                        == w))
            }),
    {
        self.read_perf_status.record_op(self.column_options.perf_sample_interval);
        let k = C::key(&key);
        match backend.get(C::kind(), k.as_slice()) {
            Some(bytes) => match <C as ProtobufColumn>::decode_proto(bytes.as_slice()) {
                Ok(val) => Ok(Some(val)),
                Err(_) => match <C as TypedColumn>::decode_value(bytes.as_slice()) {
                    Ok(val) => Ok(Some(val)),
                    Err(e) => Err(e),
                },
            },
            None => Ok(None),
        }
    }
}

/// Law: a typed write followed by a typed read of the same index returns
/// the written value. After `put` the row under the index's key holds the
/// value's encoding, and that encoding decodes back to the value, so
/// `get` answers `Some` of it.
pub proof fn lemma_put_then_get_roundtrip<C: TypedColumn>(
    s: Seq<(Seq<u8>, Seq<u8>)>,
    key: C::Index,
    v: <C::Type as View>::V,
)
    requires
        keys_sorted(s),
        C::spec_value_wf(v),
    ensures
        ({
            let b = C::spec_value_bytes(v);
            &&& seq_lookup(sorted_insert(s, C::spec_key(key), b), C::spec_key(key)) == Some(b)
            &&& C::spec_value_of(b) == Some(v)
        }),
{
    lemma_lookup_sorted_insert(s, C::spec_key(key), C::spec_value_bytes(v), C::spec_key(key));
    C::lemma_value_roundtrip(v);
}

/// Law: a schema-coded write followed by a schema-coded read of the same
/// index returns the written value. After `put_protobuf` the row holds
/// the schema encoding, and `get_protobuf` pins the result of reading
/// back exactly that encoding.
pub proof fn lemma_put_then_get_protobuf_roundtrip<C: ProtobufColumn>(
    s: Seq<(Seq<u8>, Seq<u8>)>,
    key: C::Index,
    v: <C::Type as View>::V,
)
    requires
        keys_sorted(s),
    ensures
        seq_lookup(
            sorted_insert(s, C::spec_key(key), C::spec_proto_bytes(v)),
            C::spec_key(key),
        ) == Some(C::spec_proto_bytes(v)),
{
    lemma_lookup_sorted_insert(s, C::spec_key(key), C::spec_proto_bytes(v), C::spec_key(key));
}

/// Law: a value written under the legacy compact-binary codec still reads
/// back after the schema codec is introduced, through the dual-codec
/// fallback, provided the schema codec rejects its bytes. (A legacy byte
/// string the schema codec happens to parse decodes under the schema
/// codec instead; nothing guards against that ambiguity.)
pub proof fn lemma_legacy_write_still_readable<C>(
    s: Seq<(Seq<u8>, Seq<u8>)>,
    key: C::Index,
    v: <<C as ProtobufColumn>::Type as View>::V,
) where C: ProtobufColumn + TypedColumn<Type = <C as ProtobufColumn>::Type>
    requires
        keys_sorted(s),
        <C as TypedColumn>::spec_value_wf(v),
        <C as ProtobufColumn>::spec_proto_of(<C as TypedColumn>::spec_value_bytes(v)) is None,
    ensures
        ({
            let b = <C as TypedColumn>::spec_value_bytes(v);
            &&& seq_lookup(sorted_insert(s, C::spec_key(key), b), C::spec_key(key)) == Some(b)
            &&& <C as TypedColumn>::spec_value_of(b) == Some(v)
            &&& <C as ProtobufColumn>::spec_proto_of(b) is None
        }),
{
    lemma_lookup_sorted_insert(
        s,
        C::spec_key(key),
        <C as TypedColumn>::spec_value_bytes(v),
        C::spec_key(key),
    );
    <C as TypedColumn>::lemma_value_roundtrip(v);
}

/// Law: deleting an index removes exactly its row. A later read of that
/// index finds nothing, and every other key reads as before.
pub proof fn lemma_delete_then_get<C: Column>(s: Seq<(Seq<u8>, Seq<u8>)>, key: C::Index, q: Seq<u8>)
    requires
        keys_sorted(s),
    ensures
        seq_lookup(remove_key(s, C::spec_key(key)), q) == if q == C::spec_key(key) {
            None
        } else {
            seq_lookup(s, q)
        },
{
    lemma_lookup_remove_key(s, C::spec_key(key), q);
}

fn slice_to_vec(s: &[u8]) -> (r: Vec<u8>)
    ensures
        r@ == s@,
{
    let n = s.len();
    let mut r: Vec<u8> = Vec::new();
    let mut i: usize = 0;
    while i < n
        invariant
            0 <= i <= n,
            n == s@.len(),
            r@ == s@.take(i as int),
        decreases n - i,
    {
        r.push(s[i]);
        proof {
            assert(s@.take(i + 1) =~= s@.take(i as int).push(s@[i as int]));
        }
        i = i + 1;
    }
    proof {
        assert(s@.take(n as int) =~= s@);
    }
    r
}

} // verus!
