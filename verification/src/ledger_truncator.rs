//! The ledger truncator: the policy that bounds the ledger's footprint
//! without ever removing unfinalized data. Each tick reads the finality
//! watermark, decides a bounded slot range to purge, removes it from every
//! slot-indexed column in one atomic batch together with the advanced
//! low-watermark, and marks the affected entry counters dirty.
//!
//! The background task itself (periodic wake-up, stop signal, join) is
//! driven outside; this module owns the lifecycle state and everything a
//! tick decides and changes.

use vstd::prelude::*;
use crate::byte_order::lemma_lex_lt_asym;
use crate::byte_order::lemma_lex_lt_irrefl;
use crate::byte_order::lex_le;
use crate::byte_order::lex_lt;
use crate::byte_order::encode_u64_be;
use crate::byte_order::u64_be_bytes;
use crate::columns::Blocks;
use crate::columns::CleanupMeta;
use crate::columns::Column;
use crate::columns::ColumnKind;
use crate::columns::SlotSignatures;
use crate::columns::TransactionStatus;
use crate::columns::Transactions;
use crate::columns::DIRTY_COUNT;
use crate::errors::LedgerError;
use crate::kv_store::in_key_range;
use crate::kv_store::keys_sorted;
use crate::kv_store::lemma_lookup_remove_range;
use crate::kv_store::lemma_lookup_sorted_insert;
use crate::kv_store::remove_range;
use crate::kv_store::seq_lookup;
use crate::kv_store::sorted_insert;
use crate::ledger::Ledger;
use crate::value_codecs::bincode_encode_u64;
use crate::value_codecs::bincode_u64_bytes;
use crate::write_batch::WriteBatch;

verus! {

/// Lifecycle of the background task that drives ticks.
#[derive(Clone, Copy, Debug, PartialEq, Eq, Structural)]
pub enum TruncatorState {
    Idle,
    Running,
    StopRequested,
    Stopped,
}

/// How many slots one non-urgent tick purges at most, so that a single
/// tick's blocking cost stays bounded; a large backlog converges over
/// several ticks.
pub const DEFAULT_TRUNCATION_BATCH_SLOTS: u64 = 1024;

/// Whether the configured size budget is exceeded. A zero budget disables
/// the size trigger; a missing or failed size report fails open toward
/// not truncating, since over-retention is safer than over-deletion.
pub open spec fn spec_size_exceeded(max_size: u64, reported: Option<u64>) -> bool {
    max_size != 0 && (reported matches Some(s) && s > max_size)
}

pub fn size_budget_exceeded(max_size: u64, reported: Option<u64>) -> (r: bool)
    ensures
        r == spec_size_exceeded(max_size, reported),
{
    match reported {
        Some(s) => max_size != 0 && s > max_size,
        None => false,
    }
}

/// The slot cap of the next increment: unbounded (zero) when the size
/// budget is exceeded, else the default bounded step.
pub open spec fn spec_tick_cap(max_size: u64, reported: Option<u64>) -> u64 {
    if spec_size_exceeded(max_size, reported) {
        0
    } else {
        DEFAULT_TRUNCATION_BATCH_SLOTS
    }
}

/// The inclusive slot range `[from, to]` a tick purges, or `None` when no
/// truncation happens. A finalized slot of zero authorizes nothing; the
/// range never reaches the finalized slot itself; a zero cap means no
/// per-tick bound.
pub open spec fn spec_plan(finalized: u64, lowest: u64, cap: u64) -> Option<(u64, u64)> {
    if finalized == 0 {
        None
    } else {
        let limit = (finalized - 1) as u64;
        let from_i = if lowest == 0 {
            0int
        } else {
            lowest + 1
        };
        if from_i > limit {
            None
        } else {
            let to_i = if cap > 0 && limit - from_i + 1 > cap {
                from_i + cap - 1
            } else {
                limit as int
            };
            Some((from_i as u64, to_i as u64))
        }
    }
}

/// Law: whatever the plan, its upper end stays strictly below the
/// finalized slot that produced it.
pub proof fn lemma_plan_below_finality(finalized: u64, lowest: u64, cap: u64)
    ensures
        spec_plan(finalized, lowest, cap) matches Some(p) ==> p.0 <= p.1 < finalized,
{
}

/// Law: a finalized slot of zero authorizes no truncation, whatever the
/// elapsed time, watermark or size budget.
pub proof fn lemma_zero_finality_plans_nothing(lowest: u64, cap: u64)
    ensures
        spec_plan(0, lowest, cap) is None,
{
}

/// Law: finality alone authorizes truncation. Whenever finality has
/// advanced past the low-watermark, the plan is non-empty for every cap,
/// hence for every size budget and reported footprint.
pub proof fn lemma_finality_alone_authorizes(finalized: u64, lowest: u64, cap: u64)
    requires
        1 <= finalized,
        lowest == 0 || lowest + 1 <= finalized - 1,
    ensures
        spec_plan(finalized, lowest, cap) matches Some(p) && p.1 < finalized,
{
}

/// Law: rows of slots at or beyond the observed finalized slot survive a
/// tick's range removal untouched (the safety invariant, per column).
pub proof fn lemma_truncation_safety<C: Column>(
    s: Seq<(Seq<u8>, Seq<u8>)>,
    from: u64,
    to_excl: u64,
    i: C::Index,
    finalized: u64,
)
    requires
        keys_sorted(s),
        to_excl <= finalized,
        finalized <= C::spec_slot(i),
    ensures
        seq_lookup(
            remove_range(
                s,
                C::spec_key(C::spec_slot_start(from)),
                C::spec_key(C::spec_slot_start(to_excl)),
            ),
            C::spec_key(i),
        ) == seq_lookup(s, C::spec_key(i)),
{
    let k = C::spec_key(i);
    let hi = C::spec_key(C::spec_slot_start(to_excl));
    let lo = C::spec_key(C::spec_slot_start(from));
    C::lemma_slot_key_bounds(to_excl, i);
    assert(lex_le(hi, k));
    assert(!lex_lt(k, hi)) by {
        if hi == k {
            lemma_lex_lt_irrefl(k);
        } else {
            lemma_lex_lt_asym(hi, k);
        }
    }
    assert(!in_key_range(k, lo, hi));
    lemma_lookup_remove_range(s, lo, hi, k);
}

/// Law: rows of slots inside the purged range are gone after the removal
/// (the tick really trims its chosen prefix, per column).
pub proof fn lemma_truncation_removes_range<C: Column>(
    s: Seq<(Seq<u8>, Seq<u8>)>,
    from: u64,
    to_excl: u64,
    i: C::Index,
)
    requires
        keys_sorted(s),
        from <= C::spec_slot(i) < to_excl,
    ensures
        seq_lookup(
            remove_range(
                s,
                C::spec_key(C::spec_slot_start(from)),
                C::spec_key(C::spec_slot_start(to_excl)),
            ),
            C::spec_key(i),
        ) is None,
{
    let k = C::spec_key(i);
    let hi = C::spec_key(C::spec_slot_start(to_excl));
    let lo = C::spec_key(C::spec_slot_start(from));
    C::lemma_slot_key_bounds(from, i);
    C::lemma_slot_key_bounds(to_excl, i);
    assert(lex_le(lo, k));
    assert(lex_lt(k, hi));
    assert(in_key_range(k, lo, hi));
    lemma_lookup_remove_range(s, lo, hi, k);
}

/// Law, end to end: a successful purge tick never touches finalized data.
/// For every slot-indexed column and every index whose slot is at or
/// beyond the finalized slot the tick observed, the row reads exactly as
/// it did before the tick.
pub proof fn lemma_tick_preserves_finalized(
    before: Ledger,
    after: Ledger,
    from: u64,
    to: u64,
    finalized: u64,
)
    requires
        before.wf(),
        tick_purged(before, after, from, to),
        to < finalized,
    ensures
        forall|i: <Blocks as Column>::Index|
            finalized <= Blocks::spec_slot(i) ==> seq_lookup(
                after.backend.cf(ColumnKind::Blocks),
                #[trigger] Blocks::spec_key(i),
            ) == seq_lookup(before.backend.cf(ColumnKind::Blocks), Blocks::spec_key(i)),
        forall|i: <SlotSignatures as Column>::Index|
            finalized <= SlotSignatures::spec_slot(i) ==> seq_lookup(
                after.backend.cf(ColumnKind::SlotSignatures),
                #[trigger] SlotSignatures::spec_key(i),
            ) == seq_lookup(
                before.backend.cf(ColumnKind::SlotSignatures),
                SlotSignatures::spec_key(i),
            ),
        forall|i: <Transactions as Column>::Index|
            finalized <= Transactions::spec_slot(i) ==> seq_lookup(
                after.backend.cf(ColumnKind::Transactions),
                #[trigger] Transactions::spec_key(i),
            ) == seq_lookup(
                before.backend.cf(ColumnKind::Transactions),
                Transactions::spec_key(i),
            ),
        forall|i: <TransactionStatus as Column>::Index|
            finalized <= TransactionStatus::spec_slot(i) ==> seq_lookup(
                after.backend.cf(ColumnKind::TransactionStatus),
                #[trigger] TransactionStatus::spec_key(i),
            ) == seq_lookup(
                before.backend.cf(ColumnKind::TransactionStatus),
                TransactionStatus::spec_key(i),
            ),
{
    let to_excl = (to + 1) as u64;
    assert forall|i: <Blocks as Column>::Index|
        finalized <= Blocks::spec_slot(i) implies seq_lookup(
        after.backend.cf(ColumnKind::Blocks),
        #[trigger] Blocks::spec_key(i),
    ) == seq_lookup(before.backend.cf(ColumnKind::Blocks), Blocks::spec_key(i)) by {
        before.backend.lemma_wf_sorted(ColumnKind::Blocks);
        lemma_truncation_safety::<Blocks>(
            before.backend.cf(ColumnKind::Blocks),
            from,
            to_excl,
            i,
            finalized,
        );
    }
    assert forall|i: <SlotSignatures as Column>::Index|
        finalized <= SlotSignatures::spec_slot(i) implies seq_lookup(
        after.backend.cf(ColumnKind::SlotSignatures),
        #[trigger] SlotSignatures::spec_key(i),
    ) == seq_lookup(
        before.backend.cf(ColumnKind::SlotSignatures),
        SlotSignatures::spec_key(i),
    ) by {
        before.backend.lemma_wf_sorted(ColumnKind::SlotSignatures);
        lemma_truncation_safety::<SlotSignatures>(
            before.backend.cf(ColumnKind::SlotSignatures),
            from,
            to_excl,
            i,
            finalized,
        );
    }
    assert forall|i: <Transactions as Column>::Index|
        finalized <= Transactions::spec_slot(i) implies seq_lookup(
        after.backend.cf(ColumnKind::Transactions),
        #[trigger] Transactions::spec_key(i),
    ) == seq_lookup(before.backend.cf(ColumnKind::Transactions), Transactions::spec_key(i)) by {
        before.backend.lemma_wf_sorted(ColumnKind::Transactions);
        lemma_truncation_safety::<Transactions>(
            before.backend.cf(ColumnKind::Transactions),
            from,
            to_excl,
            i,
            finalized,
        );
    }
    assert forall|i: <TransactionStatus as Column>::Index|
        finalized <= TransactionStatus::spec_slot(i) implies seq_lookup(
        after.backend.cf(ColumnKind::TransactionStatus),
        #[trigger] TransactionStatus::spec_key(i),
    ) == seq_lookup(
        before.backend.cf(ColumnKind::TransactionStatus),
        TransactionStatus::spec_key(i),
    ) by {
        before.backend.lemma_wf_sorted(ColumnKind::TransactionStatus);
        lemma_truncation_safety::<TransactionStatus>(
            before.backend.cf(ColumnKind::TransactionStatus),
            from,
            to_excl,
            i,
            finalized,
        );
    }
}

/// The background maintenance process: its lifecycle state, the tick
/// period the runner should use, and the storage budget.
pub struct LedgerTruncator {
    pub state: TruncatorState,
    pub check_interval_ms: u64,
    pub max_ledger_size: u64,
}

impl LedgerTruncator {
    /// A truncator that has not been started. A zero `max_ledger_size`
    /// means no size-based trigger: rely on finality alone.
    pub fn new(check_interval_ms: u64, max_ledger_size: u64) -> (r: Self)
        ensures
            r.state == TruncatorState::Idle,
            r.check_interval_ms == check_interval_ms,
            r.max_ledger_size == max_ledger_size,
    {
        LedgerTruncator { state: TruncatorState::Idle, check_interval_ms, max_ledger_size }
    }

    /// Begin (or resume) running; a no-op if already running or while a
    /// stop is pending.
    pub fn start(&mut self)
        ensures
            *final(self) == (LedgerTruncator {
                state: match old(self).state {
                    TruncatorState::Idle => TruncatorState::Running,
                    TruncatorState::Stopped => TruncatorState::Running,
                    TruncatorState::Running => TruncatorState::Running,
                    TruncatorState::StopRequested => TruncatorState::StopRequested,
                },
                ..*old(self)
            }),
    {
        match self.state {
            TruncatorState::Idle => {
                self.state = TruncatorState::Running;
            },
            TruncatorState::Stopped => {
                self.state = TruncatorState::Running;
            },
            _ => {},
        }
    }

    /// Ask the running task to exit at its next checkpoint; does not
    /// block, and is a no-op unless running.
    pub fn request_stop(&mut self)
        ensures
            *final(self) == (LedgerTruncator {
                state: if old(self).state == TruncatorState::Running {
                    TruncatorState::StopRequested
                } else {
                    old(self).state
                },
                ..*old(self)
            }),
    {
        if matches!(self.state, TruncatorState::Running) {
            self.state = TruncatorState::StopRequested;
        }
    }

    /// Record that the task has observed the stop signal and exited.
    pub fn mark_stopped(&mut self)
        ensures
            *final(self) == (LedgerTruncator {
                state: if old(self).state == TruncatorState::StopRequested {
                    TruncatorState::Stopped
                } else {
                    old(self).state
                },
                ..*old(self)
            }),
    {
        if matches!(self.state, TruncatorState::StopRequested) {
            self.state = TruncatorState::Stopped;
        }
    }

    /// Whether the driving loop should keep ticking.
    pub fn should_run(&self) -> (r: bool)
        ensures
            r == (self.state == TruncatorState::Running),
    {
        matches!(self.state, TruncatorState::Running)
    }

    /// One maintenance tick. Reads the finality watermark and the reported
    /// footprint, computes the purge plan, and applies it: one atomic
    /// batch removes the planned slot range from every slot-indexed column
    /// and persists the advanced low-watermark; the affected entry
    /// counters become dirty. Returns whether anything was purged.
    pub fn tick(&self, ledger: &mut Ledger, finalized_slot: u64, reported_size: Option<u64>) -> (r:
        Result<bool, LedgerError>)
        requires
            old(ledger).wf(),
        ensures
            final(ledger).wf(),
            r is Ok,
            ({
                let plan = spec_plan(
                    finalized_slot,
                    old(ledger).spec_lowest_cleanup_slot(),
                    spec_tick_cap(self.max_ledger_size, reported_size),
                );
                match r {
                    Ok(false) => plan is None && *final(ledger) == *old(ledger),
                    Ok(true) => (plan matches Some(p) && tick_purged(
                        *old(ledger),
                        *final(ledger),
                        p.0,
                        p.1,
                    ) && p.1 < finalized_slot),
                    Err(_) => false,
                }
            }),
    {
        let lowest = ledger.get_lowest_cleanup_slot();
        let urgent = size_budget_exceeded(self.max_ledger_size, reported_size);
        let cap: u64 = if urgent {
            0
        } else {
            DEFAULT_TRUNCATION_BATCH_SLOTS
        };
        if finalized_slot == 0 {
            return Ok(false);
        }
        let limit = finalized_slot - 1;
        if lowest != 0 && lowest >= limit {
            return Ok(false);
        }
        let from: u64 = if lowest == 0 {
            0
        } else {
            lowest + 1
        };
        let span = limit - from + 1;
        let to: u64 = if cap > 0 && span > cap {
            from + cap - 1
        } else {
            limit
        };
        let to_excl = to + 1;

        let mut batch = WriteBatch::new();
        let ghost b0 = batch@;
        ledger.blocks.delete_range_in_batch(
            &mut batch,
            Blocks::slot_start(from),
            Blocks::slot_start(to_excl),
        );
        let ghost b1 = batch@;
        ledger.slot_signatures.delete_range_in_batch(
            &mut batch,
            SlotSignatures::slot_start(from),
            SlotSignatures::slot_start(to_excl),
        );
        let ghost b2 = batch@;
        ledger.transactions.delete_range_in_batch(
            &mut batch,
            Transactions::slot_start(from),
            Transactions::slot_start(to_excl),
        );
        let ghost b3 = batch@;
        ledger.transaction_status.delete_range_in_batch(
            &mut batch,
            TransactionStatus::slot_start(from),
            TransactionStatus::slot_start(to_excl),
        );
        let ghost b4 = batch@;
        let mark_key = encode_u64_be(0);
        let mark_value = match bincode_encode_u64(to) {
            Ok(b) => b,
            Err(e) => {
                return Err(e);
            },
        };
        batch.stage_put(ColumnKind::CleanupMeta, mark_key, mark_value);
        let ghost b5 = batch@;
        let ghost pre = *ledger;
        match ledger.write(batch) {
            Ok(()) => {},
            Err(e) => {
                return Err(e);
            },
        }
        ledger.blocks.mark_entry_counter_dirty();
        ledger.slot_signatures.mark_entry_counter_dirty();
        ledger.transactions.mark_entry_counter_dirty();
        ledger.transaction_status.mark_entry_counter_dirty();
        ledger.cleanup_meta.mark_entry_counter_dirty();
        proof {
            assert(b1.drop_last() =~= b0);
            assert(b2.drop_last() =~= b1);
            assert(b3.drop_last() =~= b2);
            assert(b4.drop_last() =~= b3);
            assert(b5.drop_last() =~= b4);
            lemma_tick_batch_effect(pre, *ledger, b0, b1, b2, b3, b4, b5, from, to);
            assert(final_meta_lookup(*ledger, to)) by {
                lemma_lookup_sorted_insert(
                    pre.backend.cf(ColumnKind::CleanupMeta),
                    u64_be_bytes(0),
                    bincode_u64_bytes(to),
                    u64_be_bytes(0),
                );
                assert(bincode_u64_bytes(to).take(8) =~= bincode_u64_bytes(to));
                crate::byte_order::lemma_u64_le_roundtrip(to);
            }
        }
        Ok(true)
    }
}

/// The stored low-watermark row of `after` holds exactly `to`.
spec fn final_meta_lookup(after: Ledger, to: u64) -> bool {
    &&& seq_lookup(after.backend.cf(ColumnKind::CleanupMeta), u64_be_bytes(0)) == Some(
        bincode_u64_bytes(to),
    )
    &&& after.spec_lowest_cleanup_slot() == to
}

/// What one successful purge tick did: every slot-indexed column lost
/// exactly the key range of slots `[from, to]`, the persisted
/// low-watermark advanced to `to`, and the affected entry counters are
/// dirty pending a recount.
pub open spec fn tick_purged(before: Ledger, after: Ledger, from: u64, to: u64) -> bool {
    &&& after.backend.cf(ColumnKind::Blocks) == remove_range(
        before.backend.cf(ColumnKind::Blocks),
        Blocks::spec_key(Blocks::spec_slot_start(from)),
        Blocks::spec_key(Blocks::spec_slot_start((to + 1) as u64)),
    )
    &&& after.backend.cf(ColumnKind::SlotSignatures) == remove_range(
        before.backend.cf(ColumnKind::SlotSignatures),
        SlotSignatures::spec_key(SlotSignatures::spec_slot_start(from)),
        SlotSignatures::spec_key(SlotSignatures::spec_slot_start((to + 1) as u64)),
    )
    &&& after.backend.cf(ColumnKind::Transactions) == remove_range(
        before.backend.cf(ColumnKind::Transactions),
        Transactions::spec_key(Transactions::spec_slot_start(from)),
        Transactions::spec_key(Transactions::spec_slot_start((to + 1) as u64)),
    )
    &&& after.backend.cf(ColumnKind::TransactionStatus) == remove_range(
        before.backend.cf(ColumnKind::TransactionStatus),
        TransactionStatus::spec_key(TransactionStatus::spec_slot_start(from)),
        TransactionStatus::spec_key(TransactionStatus::spec_slot_start((to + 1) as u64)),
    )
    &&& after.backend.cf(ColumnKind::CleanupMeta) == sorted_insert(
        before.backend.cf(ColumnKind::CleanupMeta),
        u64_be_bytes(0),
        bincode_u64_bytes(to),
    )
    &&& after.spec_lowest_cleanup_slot() == to
    &&& after.blocks.entry_counter == DIRTY_COUNT
    &&& after.slot_signatures.entry_counter == DIRTY_COUNT
    &&& after.transactions.entry_counter == DIRTY_COUNT
    &&& after.transaction_status.entry_counter == DIRTY_COUNT
    &&& after.cleanup_meta.entry_counter == DIRTY_COUNT
}

proof fn lemma_tick_batch_effect(
    pre: Ledger,
    post: Ledger,
    b0: Seq<crate::write_batch::BatchOp>,
    b1: Seq<crate::write_batch::BatchOp>,
    b2: Seq<crate::write_batch::BatchOp>,
    b3: Seq<crate::write_batch::BatchOp>,
    b4: Seq<crate::write_batch::BatchOp>,
    b5: Seq<crate::write_batch::BatchOp>,
    from: u64,
    to: u64,
)
    requires
        to < u64::MAX,
        b0.len() == 0,
        b1.len() == 1,
        b2.len() == 2,
        b3.len() == 3,
        b4.len() == 4,
        b5.len() == 5,
        b1.drop_last() == b0,
        b2.drop_last() == b1,
        b3.drop_last() == b2,
        b4.drop_last() == b3,
        b5.drop_last() == b4,
        b1.last() matches crate::write_batch::BatchOp::DeleteRange(k, lo, hi) && k
            == ColumnKind::Blocks && lo@ == Blocks::spec_key(Blocks::spec_slot_start(from)) && hi@
            == Blocks::spec_key(Blocks::spec_slot_start((to + 1) as u64)),
        b2.last() matches crate::write_batch::BatchOp::DeleteRange(k, lo, hi) && k
            == ColumnKind::SlotSignatures && lo@ == SlotSignatures::spec_key(
            SlotSignatures::spec_slot_start(from),
        ) && hi@ == SlotSignatures::spec_key(SlotSignatures::spec_slot_start((to + 1) as u64)),
        b3.last() matches crate::write_batch::BatchOp::DeleteRange(k, lo, hi) && k
            == ColumnKind::Transactions && lo@ == Transactions::spec_key(
            Transactions::spec_slot_start(from),
        ) && hi@ == Transactions::spec_key(Transactions::spec_slot_start((to + 1) as u64)),
        b4.last() matches crate::write_batch::BatchOp::DeleteRange(k, lo, hi) && k
            == ColumnKind::TransactionStatus && lo@ == TransactionStatus::spec_key(
            TransactionStatus::spec_slot_start(from),
        ) && hi@ == TransactionStatus::spec_key(
            TransactionStatus::spec_slot_start((to + 1) as u64),
        ),
        b5.last() matches crate::write_batch::BatchOp::Put(k, key, value) && k
            == ColumnKind::CleanupMeta && key@ == u64_be_bytes(0) && value@ == bincode_u64_bytes(
            to,
        ),
        forall|q: ColumnKind|
            post.backend.cf(q) == crate::write_batch::apply_batch_ops(pre.backend.cf(q), q, b5),
    ensures
        post.backend.cf(ColumnKind::Blocks) == remove_range(
            pre.backend.cf(ColumnKind::Blocks),
            Blocks::spec_key(Blocks::spec_slot_start(from)),
            Blocks::spec_key(Blocks::spec_slot_start((to + 1) as u64)),
        ),
        post.backend.cf(ColumnKind::SlotSignatures) == remove_range(
            pre.backend.cf(ColumnKind::SlotSignatures),
            SlotSignatures::spec_key(SlotSignatures::spec_slot_start(from)),
            SlotSignatures::spec_key(SlotSignatures::spec_slot_start((to + 1) as u64)),
        ),
        post.backend.cf(ColumnKind::Transactions) == remove_range(
            pre.backend.cf(ColumnKind::Transactions),
            Transactions::spec_key(Transactions::spec_slot_start(from)),
            Transactions::spec_key(Transactions::spec_slot_start((to + 1) as u64)),
        ),
        post.backend.cf(ColumnKind::TransactionStatus) == remove_range(
            pre.backend.cf(ColumnKind::TransactionStatus),
            TransactionStatus::spec_key(TransactionStatus::spec_slot_start(from)),
            TransactionStatus::spec_key(TransactionStatus::spec_slot_start((to + 1) as u64)),
        ),
        post.backend.cf(ColumnKind::CleanupMeta) == sorted_insert(
            pre.backend.cf(ColumnKind::CleanupMeta),
            u64_be_bytes(0),
            bincode_u64_bytes(to),
        ),
{
    assert(crate::write_batch::apply_batch_ops(pre.backend.cf(ColumnKind::Blocks), ColumnKind::Blocks, b0) == pre.backend.cf(ColumnKind::Blocks));
    assert(crate::write_batch::apply_batch_ops(pre.backend.cf(ColumnKind::Blocks), ColumnKind::Blocks, b1) == remove_range(pre.backend.cf(ColumnKind::Blocks), Blocks::spec_key(Blocks::spec_slot_start(from)), Blocks::spec_key(Blocks::spec_slot_start((to + 1) as u64))));
    assert(crate::write_batch::apply_batch_ops(pre.backend.cf(ColumnKind::Blocks), ColumnKind::Blocks, b2) == remove_range(pre.backend.cf(ColumnKind::Blocks), Blocks::spec_key(Blocks::spec_slot_start(from)), Blocks::spec_key(Blocks::spec_slot_start((to + 1) as u64))));
    assert(crate::write_batch::apply_batch_ops(pre.backend.cf(ColumnKind::Blocks), ColumnKind::Blocks, b3) == remove_range(pre.backend.cf(ColumnKind::Blocks), Blocks::spec_key(Blocks::spec_slot_start(from)), Blocks::spec_key(Blocks::spec_slot_start((to + 1) as u64))));
    assert(crate::write_batch::apply_batch_ops(pre.backend.cf(ColumnKind::Blocks), ColumnKind::Blocks, b4) == remove_range(pre.backend.cf(ColumnKind::Blocks), Blocks::spec_key(Blocks::spec_slot_start(from)), Blocks::spec_key(Blocks::spec_slot_start((to + 1) as u64))));
    assert(crate::write_batch::apply_batch_ops(pre.backend.cf(ColumnKind::Blocks), ColumnKind::Blocks, b5) == remove_range(pre.backend.cf(ColumnKind::Blocks), Blocks::spec_key(Blocks::spec_slot_start(from)), Blocks::spec_key(Blocks::spec_slot_start((to + 1) as u64))));
    assert(crate::write_batch::apply_batch_ops(pre.backend.cf(ColumnKind::SlotSignatures), ColumnKind::SlotSignatures, b0) == pre.backend.cf(ColumnKind::SlotSignatures));
    assert(crate::write_batch::apply_batch_ops(pre.backend.cf(ColumnKind::SlotSignatures), ColumnKind::SlotSignatures, b1) == pre.backend.cf(ColumnKind::SlotSignatures));
    assert(crate::write_batch::apply_batch_ops(pre.backend.cf(ColumnKind::SlotSignatures), ColumnKind::SlotSignatures, b2) == remove_range(pre.backend.cf(ColumnKind::SlotSignatures), SlotSignatures::spec_key(SlotSignatures::spec_slot_start(from)), SlotSignatures::spec_key(SlotSignatures::spec_slot_start((to + 1) as u64))));
    assert(crate::write_batch::apply_batch_ops(pre.backend.cf(ColumnKind::SlotSignatures), ColumnKind::SlotSignatures, b3) == remove_range(pre.backend.cf(ColumnKind::SlotSignatures), SlotSignatures::spec_key(SlotSignatures::spec_slot_start(from)), SlotSignatures::spec_key(SlotSignatures::spec_slot_start((to + 1) as u64))));
    assert(crate::write_batch::apply_batch_ops(pre.backend.cf(ColumnKind::SlotSignatures), ColumnKind::SlotSignatures, b4) == remove_range(pre.backend.cf(ColumnKind::SlotSignatures), SlotSignatures::spec_key(SlotSignatures::spec_slot_start(from)), SlotSignatures::spec_key(SlotSignatures::spec_slot_start((to + 1) as u64))));
    assert(crate::write_batch::apply_batch_ops(pre.backend.cf(ColumnKind::SlotSignatures), ColumnKind::SlotSignatures, b5) == remove_range(pre.backend.cf(ColumnKind::SlotSignatures), SlotSignatures::spec_key(SlotSignatures::spec_slot_start(from)), SlotSignatures::spec_key(SlotSignatures::spec_slot_start((to + 1) as u64))));
    assert(crate::write_batch::apply_batch_ops(pre.backend.cf(ColumnKind::Transactions), ColumnKind::Transactions, b0) == pre.backend.cf(ColumnKind::Transactions));
    assert(crate::write_batch::apply_batch_ops(pre.backend.cf(ColumnKind::Transactions), ColumnKind::Transactions, b1) == pre.backend.cf(ColumnKind::Transactions));
    assert(crate::write_batch::apply_batch_ops(pre.backend.cf(ColumnKind::Transactions), ColumnKind::Transactions, b2) == pre.backend.cf(ColumnKind::Transactions));
    assert(crate::write_batch::apply_batch_ops(pre.backend.cf(ColumnKind::Transactions), ColumnKind::Transactions, b3) == remove_range(pre.backend.cf(ColumnKind::Transactions), Transactions::spec_key(Transactions::spec_slot_start(from)), Transactions::spec_key(Transactions::spec_slot_start((to + 1) as u64))));
    assert(crate::write_batch::apply_batch_ops(pre.backend.cf(ColumnKind::Transactions), ColumnKind::Transactions, b4) == remove_range(pre.backend.cf(ColumnKind::Transactions), Transactions::spec_key(Transactions::spec_slot_start(from)), Transactions::spec_key(Transactions::spec_slot_start((to + 1) as u64))));
    assert(crate::write_batch::apply_batch_ops(pre.backend.cf(ColumnKind::Transactions), ColumnKind::Transactions, b5) == remove_range(pre.backend.cf(ColumnKind::Transactions), Transactions::spec_key(Transactions::spec_slot_start(from)), Transactions::spec_key(Transactions::spec_slot_start((to + 1) as u64))));
    assert(crate::write_batch::apply_batch_ops(pre.backend.cf(ColumnKind::TransactionStatus), ColumnKind::TransactionStatus, b0) == pre.backend.cf(ColumnKind::TransactionStatus));
    assert(crate::write_batch::apply_batch_ops(pre.backend.cf(ColumnKind::TransactionStatus), ColumnKind::TransactionStatus, b1) == pre.backend.cf(ColumnKind::TransactionStatus));
    assert(crate::write_batch::apply_batch_ops(pre.backend.cf(ColumnKind::TransactionStatus), ColumnKind::TransactionStatus, b2) == pre.backend.cf(ColumnKind::TransactionStatus));
    assert(crate::write_batch::apply_batch_ops(pre.backend.cf(ColumnKind::TransactionStatus), ColumnKind::TransactionStatus, b3) == pre.backend.cf(ColumnKind::TransactionStatus));
    assert(crate::write_batch::apply_batch_ops(pre.backend.cf(ColumnKind::TransactionStatus), ColumnKind::TransactionStatus, b4) == remove_range(pre.backend.cf(ColumnKind::TransactionStatus), TransactionStatus::spec_key(TransactionStatus::spec_slot_start(from)), TransactionStatus::spec_key(TransactionStatus::spec_slot_start((to + 1) as u64))));
    assert(crate::write_batch::apply_batch_ops(pre.backend.cf(ColumnKind::TransactionStatus), ColumnKind::TransactionStatus, b5) == remove_range(pre.backend.cf(ColumnKind::TransactionStatus), TransactionStatus::spec_key(TransactionStatus::spec_slot_start(from)), TransactionStatus::spec_key(TransactionStatus::spec_slot_start((to + 1) as u64))));
    assert(crate::write_batch::apply_batch_ops(pre.backend.cf(ColumnKind::CleanupMeta), ColumnKind::CleanupMeta, b0) == pre.backend.cf(ColumnKind::CleanupMeta));
    assert(crate::write_batch::apply_batch_ops(pre.backend.cf(ColumnKind::CleanupMeta), ColumnKind::CleanupMeta, b1) == pre.backend.cf(ColumnKind::CleanupMeta));
    assert(crate::write_batch::apply_batch_ops(pre.backend.cf(ColumnKind::CleanupMeta), ColumnKind::CleanupMeta, b2) == pre.backend.cf(ColumnKind::CleanupMeta));
    assert(crate::write_batch::apply_batch_ops(pre.backend.cf(ColumnKind::CleanupMeta), ColumnKind::CleanupMeta, b3) == pre.backend.cf(ColumnKind::CleanupMeta));
    assert(crate::write_batch::apply_batch_ops(pre.backend.cf(ColumnKind::CleanupMeta), ColumnKind::CleanupMeta, b4) == pre.backend.cf(ColumnKind::CleanupMeta));
    assert(crate::write_batch::apply_batch_ops(pre.backend.cf(ColumnKind::CleanupMeta), ColumnKind::CleanupMeta, b5) == sorted_insert(pre.backend.cf(ColumnKind::CleanupMeta), u64_be_bytes(0), bincode_u64_bytes(to)));
}

} // verus!
