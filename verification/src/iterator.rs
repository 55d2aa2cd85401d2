//! Iteration modes over a column: from the start, from the end, or from a
//! given key in a given direction, together with the specification of
//! which rows each mode yields and in what order.

use vstd::prelude::*;
use crate::byte_order::bytes_lt;
use crate::byte_order::lemma_lex_lt_asym;
use crate::byte_order::lemma_lex_lt_irrefl;
use crate::byte_order::lex_lt;
use crate::byte_order::lemma_lex_trichotomy;
use crate::byte_order::lex_le;
use crate::columns::Column;
use crate::kv_store::clone_bytes;

verus! {

pub enum IteratorDirection {
    Forward,
    Reverse,
}

/// Where iteration begins and which way it runs.
pub enum IteratorMode<I> {
    Start,
    End,
    From(I, IteratorDirection),
}

/// The rows with keys at or above `k`, in order.
pub open spec fn keep_from(s: Seq<(Seq<u8>, Seq<u8>)>, k: Seq<u8>) -> Seq<(Seq<u8>, Seq<u8>)>
    decreases s.len(),
{
    if s.len() == 0 {
        s
    } else {
        let front = keep_from(s.drop_last(), k);
        if lex_le(k, s.last().0) {
            front + seq![s.last()]
        } else {
            front
        }
    }
}

/// The rows with keys at or below `k`, in order.
pub open spec fn keep_upto(s: Seq<(Seq<u8>, Seq<u8>)>, k: Seq<u8>) -> Seq<(Seq<u8>, Seq<u8>)>
    decreases s.len(),
{
    if s.len() == 0 {
        s
    } else {
        let front = keep_upto(s.drop_last(), k);
        if lex_le(s.last().0, k) {
            front + seq![s.last()]
        } else {
            front
        }
    }
}

/// The rows a mode yields from a column's ordered contents, in yield
/// order.
pub open spec fn mode_entries<C: Column>(
    s: Seq<(Seq<u8>, Seq<u8>)>,
    m: IteratorMode<C::Index>,
) -> Seq<(Seq<u8>, Seq<u8>)> {
    match m {
        IteratorMode::Start => s,
        IteratorMode::End => s.reverse(),
        IteratorMode::From(i, IteratorDirection::Forward) => keep_from(s, C::spec_key(i)),
        IteratorMode::From(i, IteratorDirection::Reverse) => keep_upto(s, C::spec_key(i)).reverse(),
    }
}

/// An already-encoded iteration mode, used internally once the start key
/// has been turned into bytes.
pub(crate) enum RawIteratorMode {
    Start,
    End,
    FromForward(Vec<u8>),
    FromReverse(Vec<u8>),
}

pub(crate) open spec fn raw_mode_entries(s: Seq<(Seq<u8>, Seq<u8>)>, m: RawIteratorMode) -> Seq<
    (Seq<u8>, Seq<u8>),
> {
    match m {
        RawIteratorMode::Start => s,
        RawIteratorMode::End => s.reverse(),
        RawIteratorMode::FromForward(k) => keep_from(s, k@),
        RawIteratorMode::FromReverse(k) => keep_upto(s, k@).reverse(),
    }
}

fn reverse_entries(entries: &Vec<(Vec<u8>, Vec<u8>)>) -> (r: Vec<(Vec<u8>, Vec<u8>)>)
    ensures
        r@.map_values(|e: (Vec<u8>, Vec<u8>)| (e.0@, e.1@)) == entries@.map_values(
            |e: (Vec<u8>, Vec<u8>)| (e.0@, e.1@),
        ).reverse(),
{
    let ghost s = entries@.map_values(|e: (Vec<u8>, Vec<u8>)| (e.0@, e.1@));
    let n = entries.len();
    let mut out: Vec<(Vec<u8>, Vec<u8>)> = Vec::new();
    let mut i: usize = 0;
    while i < n
        invariant
            0 <= i <= n,
            n == s.len(),
            s == entries@.map_values(|e: (Vec<u8>, Vec<u8>)| (e.0@, e.1@)),
            out@.len() == i,
            forall|j: int|
                0 <= j < i ==> (#[trigger] out@[j]).0@ == s[n - 1 - j].0 && out@[j].1@ == s[n - 1
                    - j].1,
        decreases n - i,
    {
        let kc = clone_bytes(&entries[n - 1 - i].0);
        let vc = clone_bytes(&entries[n - 1 - i].1);
        out.push((kc, vc));
        i = i + 1;
    }
    proof {
        assert(out@.map_values(|e: (Vec<u8>, Vec<u8>)| (e.0@, e.1@)) =~= s.reverse());
    }
    out
}

/// Select and order the rows a mode yields. The input rows must come in
/// ascending key order; the result is exactly what the mode specifies.
pub(crate) fn select_mode_entries(entries: &Vec<(Vec<u8>, Vec<u8>)>, mode: &RawIteratorMode) -> (r:
    Vec<(Vec<u8>, Vec<u8>)>)
    ensures
        r@.map_values(|e: (Vec<u8>, Vec<u8>)| (e.0@, e.1@)) == raw_mode_entries(
            entries@.map_values(|e: (Vec<u8>, Vec<u8>)| (e.0@, e.1@)),
            *mode,
        ),
{
    let ghost s = entries@.map_values(|e: (Vec<u8>, Vec<u8>)| (e.0@, e.1@));
    match mode {
        RawIteratorMode::Start => {
            let n = entries.len();
            let mut out: Vec<(Vec<u8>, Vec<u8>)> = Vec::new();
            let mut i: usize = 0;
            while i < n
                invariant
                    0 <= i <= n,
                    n == s.len(),
                    s == entries@.map_values(|e: (Vec<u8>, Vec<u8>)| (e.0@, e.1@)),
                    out@.map_values(|e: (Vec<u8>, Vec<u8>)| (e.0@, e.1@)) == s.take(i as int),
                decreases n - i,
            {
                let kc = clone_bytes(&entries[i].0);
                let vc = clone_bytes(&entries[i].1);
                let ghost before = out@.map_values(|e: (Vec<u8>, Vec<u8>)| (e.0@, e.1@));
                out.push((kc, vc));
                proof {
                    assert(out@.map_values(|e: (Vec<u8>, Vec<u8>)| (e.0@, e.1@)) =~= before + seq![
                        s[i as int],
                    ]);
                    assert(s.take(i + 1) =~= s.take(i as int) + seq![s[i as int]]);
                }
                i = i + 1;
            }
            proof {
                assert(out@.map_values(|e: (Vec<u8>, Vec<u8>)| (e.0@, e.1@)) =~= s.take(n as int));
                assert(s.take(n as int) =~= s);
            }
            out
        },
        RawIteratorMode::End => reverse_entries(entries),
        RawIteratorMode::FromForward(key) => {
            let n = entries.len();
            let mut out: Vec<(Vec<u8>, Vec<u8>)> = Vec::new();
            let mut i: usize = 0;
            proof {
                assert(s.take(0) =~= Seq::<(Seq<u8>, Seq<u8>)>::empty());
            }
            while i < n
                invariant
                    0 <= i <= n,
                    n == s.len(),
                    s == entries@.map_values(|e: (Vec<u8>, Vec<u8>)| (e.0@, e.1@)),
                    out@.map_values(|e: (Vec<u8>, Vec<u8>)| (e.0@, e.1@)) == keep_from(
                        s.take(i as int),
                        key@,
                    ),
                decreases n - i,
            {
                let keep = !bytes_lt(entries[i].0.as_slice(), key.as_slice());
                proof {
                    lemma_lex_trichotomy(key@, s[i as int].0);
                    if lex_lt(s[i as int].0, key@) {
                        lemma_lex_lt_asym(s[i as int].0, key@);
                        lemma_lex_lt_irrefl(key@);
                    }
                    assert(s.take(i + 1).drop_last() =~= s.take(i as int));
                    assert(s.take(i + 1).last() == s[i as int]);
                }
                if keep {
                    let kc = clone_bytes(&entries[i].0);
                    let vc = clone_bytes(&entries[i].1);
                    let ghost before = out@.map_values(|e: (Vec<u8>, Vec<u8>)| (e.0@, e.1@));
                    out.push((kc, vc));
                    proof {
                        assert(out@.map_values(|e: (Vec<u8>, Vec<u8>)| (e.0@, e.1@)) =~= before
                            + seq![s[i as int]]);
                    }
                }
                i = i + 1;
            }
            proof {
                assert(s.take(n as int) =~= s);
            }
            out
        },
        RawIteratorMode::FromReverse(key) => {
            let n = entries.len();
            let mut kept: Vec<(Vec<u8>, Vec<u8>)> = Vec::new();
            let mut i: usize = 0;
            proof {
                assert(s.take(0) =~= Seq::<(Seq<u8>, Seq<u8>)>::empty());
            }
            while i < n
                invariant
                    0 <= i <= n,
                    n == s.len(),
                    s == entries@.map_values(|e: (Vec<u8>, Vec<u8>)| (e.0@, e.1@)),
                    kept@.map_values(|e: (Vec<u8>, Vec<u8>)| (e.0@, e.1@)) == keep_upto(
                        s.take(i as int),
                        key@,
                    ),
                decreases n - i,
            {
                let keep = !bytes_lt(key.as_slice(), entries[i].0.as_slice());
                proof {
                    lemma_lex_trichotomy(s[i as int].0, key@);
                    if lex_lt(key@, s[i as int].0) {
                        lemma_lex_lt_asym(key@, s[i as int].0);
                        lemma_lex_lt_irrefl(key@);
                    }
                    assert(s.take(i + 1).drop_last() =~= s.take(i as int));
                    assert(s.take(i + 1).last() == s[i as int]);
                }
                if keep {
                    let kc = clone_bytes(&entries[i].0);
                    let vc = clone_bytes(&entries[i].1);
                    let ghost before = kept@.map_values(|e: (Vec<u8>, Vec<u8>)| (e.0@, e.1@));
                    kept.push((kc, vc));
                    proof {
                        assert(kept@.map_values(|e: (Vec<u8>, Vec<u8>)| (e.0@, e.1@)) =~= before
                            + seq![s[i as int]]);
                    }
                }
                i = i + 1;
            }
            proof {
                assert(s.take(n as int) =~= s);
            }
            reverse_entries(&kept)
        },
    }
}

} // verus!
