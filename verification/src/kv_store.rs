//! An ordered key-value store kept as a key-sorted vector of byte pairs.
//! It stands where an ordered storage engine would: point reads and writes,
//! half-open range deletes, and ordered scans, all against one model, the
//! sorted association sequence of (key, value) byte strings.

use vstd::prelude::*;
use crate::byte_order::lex_le;
use crate::byte_order::lex_lt;
use crate::byte_order::bytes_lt;
use crate::byte_order::lemma_lex_lt_asym;
use crate::byte_order::lemma_lex_lt_irrefl;
use crate::byte_order::lemma_lex_lt_transitive;
use crate::byte_order::lemma_lex_trichotomy;

verus! {

/// A key is in the half-open range `[lo, hi)`.
pub open spec fn in_key_range(k: Seq<u8>, lo: Seq<u8>, hi: Seq<u8>) -> bool {
    lex_le(lo, k) && lex_lt(k, hi)
}

/// First-match lookup in an association sequence.
pub open spec fn seq_lookup(s: Seq<(Seq<u8>, Seq<u8>)>, k: Seq<u8>) -> Option<Seq<u8>>
    decreases s.len(),
{
    if s.len() == 0 {
        None
    } else if s[0].0 == k {
        Some(s[0].1)
    } else {
        seq_lookup(s.drop_first(), k)
    }
}

/// Insertion into a key-sorted association sequence, replacing an equal key.
pub open spec fn sorted_insert(s: Seq<(Seq<u8>, Seq<u8>)>, k: Seq<u8>, v: Seq<u8>) -> Seq<
    (Seq<u8>, Seq<u8>),
>
    decreases s.len(),
{
    if s.len() == 0 {
        seq![(k, v)]
    } else if lex_lt(s[0].0, k) {
        seq![s[0]] + sorted_insert(s.drop_first(), k, v)
    } else if s[0].0 == k {
        seq![(k, v)] + s.drop_first()
    } else {
        seq![(k, v)] + s
    }
}

/// Removal of the first entry with the given key, if any.
pub open spec fn remove_key(s: Seq<(Seq<u8>, Seq<u8>)>, k: Seq<u8>) -> Seq<(Seq<u8>, Seq<u8>)>
    decreases s.len(),
{
    if s.len() == 0 {
        s
    } else if s[0].0 == k {
        s.drop_first()
    } else {
        seq![s[0]] + remove_key(s.drop_first(), k)
    }
}

/// Removal of every entry whose key lies in the half-open range `[lo, hi)`.
pub open spec fn remove_range(s: Seq<(Seq<u8>, Seq<u8>)>, lo: Seq<u8>, hi: Seq<u8>) -> Seq<
    (Seq<u8>, Seq<u8>),
>
    decreases s.len(),
{
    if s.len() == 0 {
        s
    } else {
        let rest = remove_range(s.drop_first(), lo, hi);
        if in_key_range(s[0].0, lo, hi) {
            rest
        } else {
            seq![s[0]] + rest
        }
    }
}

/// Keys strictly ascending in the store's order.
pub open spec fn keys_sorted(s: Seq<(Seq<u8>, Seq<u8>)>) -> bool {
    forall|i: int, j: int| 0 <= i < j < s.len() ==> lex_lt(#[trigger] s[i].0, #[trigger] s[j].0)
}

pub proof fn lemma_keys_sorted_drop_first(s: Seq<(Seq<u8>, Seq<u8>)>)
    requires
        keys_sorted(s),
        s.len() > 0,
    ensures
        keys_sorted(s.drop_first()),
{
    let t = s.drop_first();
    assert forall|i: int, j: int| 0 <= i < j < t.len() implies lex_lt(#[trigger] t[i].0, #[trigger] t[j].0) by {
        assert(t[i] == s[i + 1]);
        assert(t[j] == s[j + 1]);
    }
}

/// A key absent from every entry is not found by lookup.
pub proof fn lemma_lookup_none_if_absent(s: Seq<(Seq<u8>, Seq<u8>)>, k: Seq<u8>)
    requires
        forall|i: int| 0 <= i < s.len() ==> (#[trigger] s[i].0) != k,
    ensures
        seq_lookup(s, k) is None,
    decreases s.len(),
{
    if s.len() > 0 {
        assert(s[0].0 != k);
        assert(forall|i: int| 0 <= i < s.drop_first().len() ==> (#[trigger] s.drop_first()[i].0)
            != k) by {
            assert(forall|i: int| 0 <= i < s.drop_first().len() ==> s.drop_first()[i] == s[i + 1]);
        }
        lemma_lookup_none_if_absent(s.drop_first(), k);
    }
}

/// An entry present in a sorted sequence is what lookup finds for its key.
pub proof fn lemma_lookup_present(s: Seq<(Seq<u8>, Seq<u8>)>, i: int)
    requires
        keys_sorted(s),
        0 <= i < s.len(),
    ensures
        seq_lookup(s, s[i].0) == Some(s[i].1),
    decreases i,
{
    if i == 0 {
    } else {
        assert(lex_lt(s[0].0, s[i].0));
        lemma_lex_lt_irrefl(s[0].0);
        assert(s[0].0 != s[i].0);
        lemma_keys_sorted_drop_first(s);
        assert(s.drop_first()[i - 1] == s[i]);
        lemma_lookup_present(s.drop_first(), i - 1);
    }
}

/// Lookup after a sorted insertion: the inserted key maps to the new value,
/// every other key is unchanged.
pub proof fn lemma_lookup_sorted_insert(
    s: Seq<(Seq<u8>, Seq<u8>)>,
    k: Seq<u8>,
    v: Seq<u8>,
    q: Seq<u8>,
)
    ensures
        seq_lookup(sorted_insert(s, k, v), q) == if q == k {
            Some(v)
        } else {
            seq_lookup(s, q)
        },
    decreases s.len(),
{
    let r = sorted_insert(s, k, v);
    if s.len() == 0 {
        assert(r =~= seq![(k, v)]);
        assert(r[0] == (k, v));
        assert(r.drop_first() =~= Seq::<(Seq<u8>, Seq<u8>)>::empty());
        if q == k {
            assert(seq_lookup(r, q) == Some(v));
        } else {
            assert(r[0].0 != q);
            assert(seq_lookup(r, q) == seq_lookup(r.drop_first(), q));
            assert(seq_lookup(r.drop_first(), q) is None);
        }
    } else if lex_lt(s[0].0, k) {
        lemma_lex_lt_irrefl(s[0].0);
        assert(s[0].0 != k);
        assert(r == seq![s[0]] + sorted_insert(s.drop_first(), k, v));
        assert(r[0] == s[0]);
        assert(r.len() > 0);
        assert(r.drop_first() =~= sorted_insert(s.drop_first(), k, v));
        lemma_lookup_sorted_insert(s.drop_first(), k, v, q);
        if q == s[0].0 {
            assert(seq_lookup(r, q) == Some(s[0].1));
            assert(seq_lookup(s, q) == Some(s[0].1));
        } else {
            assert(seq_lookup(r, q) == seq_lookup(r.drop_first(), q));
            assert(seq_lookup(s, q) == seq_lookup(s.drop_first(), q));
        }
    } else if s[0].0 == k {
        assert(r == seq![(k, v)] + s.drop_first());
        assert(r[0] == (k, v));
        assert(r.len() > 0);
        assert(r.drop_first() =~= s.drop_first());
        if q == k {
            assert(seq_lookup(r, q) == Some(v));
        } else {
            assert(s[0].0 != q);
            assert(seq_lookup(r, q) == seq_lookup(r.drop_first(), q));
            assert(seq_lookup(s, q) == seq_lookup(s.drop_first(), q));
        }
    } else {
        assert(r == seq![(k, v)] + s);
        assert(r[0] == (k, v));
        assert(r.len() > 0);
        assert(r.drop_first() =~= s);
        if q == k {
            assert(seq_lookup(r, q) == Some(v));
        } else {
            assert(seq_lookup(r, q) == seq_lookup(r.drop_first(), q));
        }
    }
}

/// Lookup after removing a key from a sorted sequence.
pub proof fn lemma_lookup_remove_key(s: Seq<(Seq<u8>, Seq<u8>)>, k: Seq<u8>, q: Seq<u8>)
    requires
        keys_sorted(s),
    ensures
        seq_lookup(remove_key(s, k), q) == if q == k {
            None
        } else {
            seq_lookup(s, q)
        },
    decreases s.len(),
{
    let r = remove_key(s, k);
    if s.len() == 0 {
    } else if s[0].0 == k {
        if q == k {
            assert forall|i: int| 0 <= i < s.drop_first().len() implies (#[trigger] s.drop_first()[i].0)
                != k by {
                assert(s.drop_first()[i] == s[i + 1]);
                assert(lex_lt(s[0].0, s[i + 1].0));
                lemma_lex_lt_irrefl(s[0].0);
            }
            lemma_lookup_none_if_absent(s.drop_first(), k);
        }
    } else {
        assert(r[0] == s[0]);
        assert(r.drop_first() =~= remove_key(s.drop_first(), k));
        lemma_keys_sorted_drop_first(s);
        lemma_lookup_remove_key(s.drop_first(), k, q);
    }
}

/// Every entry of `remove_range(s, ..)` is an entry of `s`, and the result
/// stays sorted.
pub proof fn lemma_remove_range_sorted(s: Seq<(Seq<u8>, Seq<u8>)>, lo: Seq<u8>, hi: Seq<u8>)
    requires
        keys_sorted(s),
    ensures
        keys_sorted(remove_range(s, lo, hi)),
        forall|j: int|
            0 <= j < remove_range(s, lo, hi).len() ==> s.contains(
                #[trigger] remove_range(s, lo, hi)[j],
            ),
    decreases s.len(),
{
    let r = remove_range(s, lo, hi);
    if s.len() == 0 {
    } else {
        lemma_keys_sorted_drop_first(s);
        lemma_remove_range_sorted(s.drop_first(), lo, hi);
        let rest = remove_range(s.drop_first(), lo, hi);
        assert forall|j: int| 0 <= j < rest.len() implies s.contains(#[trigger] rest[j]) by {
            assert(s.drop_first().contains(rest[j]));
            let t = choose|t: int| 0 <= t < s.drop_first().len() && s.drop_first()[t] == rest[j];
            assert(s[t + 1] == rest[j]);
        }
        if in_key_range(s[0].0, lo, hi) {
        } else {
            assert(r =~= seq![s[0]] + rest);
            assert forall|i: int, j: int| 0 <= i < j < r.len() implies lex_lt(
                #[trigger] r[i].0,
                #[trigger] r[j].0,
            ) by {
                if i == 0 {
                    assert(r[j] == rest[j - 1]);
                    assert(s.drop_first().contains(rest[j - 1]));
                    let t = choose|t: int|
                        0 <= t < s.drop_first().len() && s.drop_first()[t] == rest[j - 1];
                    assert(s[t + 1] == rest[j - 1]);
                    assert(lex_lt(s[0].0, s[t + 1].0));
                } else {
                    assert(r[i] == rest[i - 1]);
                    assert(r[j] == rest[j - 1]);
                }
            }
        }
    }
}

/// Lookup after a range removal from a sorted sequence: keys inside the
/// range are gone, keys outside are untouched.
pub proof fn lemma_lookup_remove_range(
    s: Seq<(Seq<u8>, Seq<u8>)>,
    lo: Seq<u8>,
    hi: Seq<u8>,
    q: Seq<u8>,
)
    requires
        keys_sorted(s),
    ensures
        seq_lookup(remove_range(s, lo, hi), q) == if in_key_range(q, lo, hi) {
            None::<Seq<u8>>
        } else {
            seq_lookup(s, q)
        },
    decreases s.len(),
{
    let r = remove_range(s, lo, hi);
    if s.len() == 0 {
    } else {
        lemma_keys_sorted_drop_first(s);
        lemma_lookup_remove_range(s.drop_first(), lo, hi, q);
        let rest = remove_range(s.drop_first(), lo, hi);
        if in_key_range(s[0].0, lo, hi) {
            if q == s[0].0 {
                assert(seq_lookup(rest, q) is None) by {
                    lemma_remove_range_sorted(s.drop_first(), lo, hi);
                    assert forall|i: int| 0 <= i < rest.len() implies (#[trigger] rest[i].0)
                        != q by {
                        assert(s.drop_first().contains(rest[i]));
                        let t = choose|t: int|
                            0 <= t < s.drop_first().len() && s.drop_first()[t] == rest[i];
                        assert(s[t + 1] == rest[i]);
                        assert(lex_lt(s[0].0, s[t + 1].0));
                        lemma_lex_lt_irrefl(s[0].0);
                    }
                    lemma_lookup_none_if_absent(rest, q);
                }
            }
        } else {
            assert(r[0] == s[0]);
            assert(r.drop_first() =~= rest);
            if q == s[0].0 {
            }
        }
    }
}

/// The store: a key-sorted vector of (key, value) byte pairs.
pub struct KvStore {
    entries: Vec<(Vec<u8>, Vec<u8>)>,
}

impl KvStore {
    /// The model: the association sequence of the held entries, in order.
    pub closed spec fn view(&self) -> Seq<(Seq<u8>, Seq<u8>)> {
        self.entries@.map_values(|e: (Vec<u8>, Vec<u8>)| (e.0@, e.1@))
    }

    pub open spec fn wf(&self) -> bool {
        keys_sorted(self@)
    }

    pub fn new() -> (r: Self)
        ensures
            r.wf(),
            r@ == Seq::<(Seq<u8>, Seq<u8>)>::empty(),
    {
        let r = KvStore { entries: Vec::new() };
        proof {
            assert(r@ =~= Seq::<(Seq<u8>, Seq<u8>)>::empty());
        }
        r
    }

    pub fn num_entries(&self) -> (r: usize)
        ensures
            r == self@.len(),
    {
        self.entries.len()
    }

    /// Locate `key`: returns `(pos, found)`; `pos` is the index of the key
    /// if found, else the position where it would be inserted.
    fn locate(&self, key: &[u8]) -> (r: (usize, bool))
        requires
            self.wf(),
        ensures
            r.0 <= self@.len(),
            forall|i: int| 0 <= i < r.0 ==> lex_lt((#[trigger] self@[i]).0, key@),
            r.1 ==> r.0 < self@.len() && self@[r.0 as int].0 == key@,
            !r.1 && r.0 < self@.len() ==> lex_lt(key@, self@[r.0 as int].0),
            !r.1 ==> forall|i: int| 0 <= i < self@.len() ==> (#[trigger] self@[i]).0 != key@,
    {
        let n = self.entries.len();
        let mut i: usize = 0;
        loop
            invariant
                0 <= i <= n,
                n == self@.len(),
                self.wf(),
                forall|t: int| 0 <= t < i ==> lex_lt((#[trigger] self@[t]).0, key@),
            decreases n - i,
        {
            if i >= n {
                proof {
                    assert forall|t: int| 0 <= t < self@.len() implies (#[trigger] self@[t]).0
                        != key@ by {
                        lemma_lex_lt_irrefl(self@[t].0);
                    }
                }
                return (i, false);
            }
            let below = bytes_lt(self.entries[i].0.as_slice(), key);
            if !below {
                let above = bytes_lt(key, self.entries[i].0.as_slice());
                proof {
                    assert(self@[i as int].0 == self.entries@[i as int].0@);
                }
                if above {
                    proof {
                        assert forall|t: int| 0 <= t < self@.len() implies (#[trigger] self@[t]).0
                            != key@ by {
                            if t < i {
                                lemma_lex_lt_irrefl(self@[t].0);
                            } else if t == i {
                                lemma_lex_lt_irrefl(key@);
                            } else {
                                assert(lex_lt(self@[i as int].0, self@[t].0));
                                lemma_lex_lt_transitive(key@, self@[i as int].0, self@[t].0);
                                lemma_lex_lt_irrefl(key@);
                            }
                        }
                    }
                    return (i, false);
                } else {
                    proof {
                        lemma_lex_trichotomy(self@[i as int].0, key@);
                    }
                    return (i, true);
                }
            }
            i = i + 1;
        }
    }

    /// Point read; `None` when the key is absent.
    pub fn get(&self, key: &[u8]) -> (r: Option<&Vec<u8>>)
        requires
            self.wf(),
        ensures
            match r {
                Some(v) => seq_lookup(self@, key@) == Some(v@),
                None => seq_lookup(self@, key@) is None,
            },
    {
        let (pos, found) = self.locate(key);
        if found {
            proof {
                lemma_lookup_present(self@, pos as int);
            }
            Some(&self.entries[pos].1)
        } else {
            proof {
                lemma_lookup_none_if_absent(self@, key@);
            }
            None
        }
    }

    /// Insert or overwrite.
    pub fn upsert(&mut self, key: Vec<u8>, value: Vec<u8>)
        requires
            old(self).wf(),
        ensures
            final(self).wf(),
            final(self)@ == sorted_insert(old(self)@, key@, value@),
    {
        let ghost s0 = self@;
        let (pos, found) = self.locate(key.as_slice());
        if found {
            self.entries.remove(pos);
            self.entries.insert(pos, (key, value));
            proof {
                assert(self@ =~= s0.update(pos as int, (key@, value@)));
                lemma_sorted_insert_found(s0, key@, value@, pos as int);
                assert forall|i: int, j: int| 0 <= i < j < self@.len() implies lex_lt(
                    (#[trigger] self@[i]).0,
                    (#[trigger] self@[j]).0,
                ) by {
                    assert(s0[pos as int].0 == key@);
                }
            }
        } else {
            self.entries.insert(pos, (key, value));
            proof {
                assert(self@ =~= s0.insert(pos as int, (key@, value@)));
                lemma_sorted_insert_notfound(s0, key@, value@, pos as int);
                assert forall|i: int, j: int| 0 <= i < j < self@.len() implies lex_lt(
                    (#[trigger] self@[i]).0,
                    (#[trigger] self@[j]).0,
                ) by {
                    if i == pos as int {
                        assert(self@[j] == s0[j - 1]);
                        if j - 1 > pos as int {
                            lemma_lex_lt_transitive(key@, s0[pos as int].0, s0[j - 1].0);
                        }
                    } else if j == pos as int {
                        assert(self@[i] == s0[i]);
                    } else if i < pos as int && j > pos as int {
                        assert(self@[i] == s0[i]);
                        assert(self@[j] == s0[j - 1]);
                        assert(lex_lt(s0[i].0, key@));
                        if j - 1 > pos as int {
                            lemma_lex_lt_transitive(key@, s0[pos as int].0, s0[j - 1].0);
                        }
                        assert(lex_lt(key@, s0[j - 1].0));
                        lemma_lex_lt_transitive(s0[i].0, key@, s0[j - 1].0);
                    } else if j < pos as int {
                        assert(self@[i] == s0[i]);
                        assert(self@[j] == s0[j]);
                    } else {
                        assert(self@[i] == s0[i - 1]);
                        assert(self@[j] == s0[j - 1]);
                    }
                }
            }
        }
    }

    /// Point delete; absent keys are a no-op.
    pub fn delete(&mut self, key: &[u8])
        requires
            old(self).wf(),
        ensures
            final(self).wf(),
            final(self)@ == remove_key(old(self)@, key@),
    {
        let ghost s0 = self@;
        let (pos, found) = self.locate(key);
        if found {
            self.entries.remove(pos);
            proof {
                assert(self@ =~= s0.remove(pos as int));
                lemma_remove_key_found(s0, key@, pos as int);
                assert forall|i: int, j: int| 0 <= i < j < self@.len() implies lex_lt(
                    (#[trigger] self@[i]).0,
                    (#[trigger] self@[j]).0,
                ) by {
                    if i < pos as int {
                        assert(self@[i] == s0[i]);
                    } else {
                        assert(self@[i] == s0[i + 1]);
                    }
                    if j < pos as int {
                        assert(self@[j] == s0[j]);
                    } else {
                        assert(self@[j] == s0[j + 1]);
                    }
                }
            }
        } else {
            proof {
                lemma_remove_key_absent(s0, key@);
            }
        }
    }

    /// Remove every entry whose key lies in `[lo, hi)`.
    pub fn delete_range(&mut self, lo: &[u8], hi: &[u8])
        requires
            old(self).wf(),
        ensures
            final(self).wf(),
            final(self)@ == remove_range(old(self)@, lo@, hi@),
    {
        let ghost s0 = self@;
        let n = self.entries.len();
        let mut kept: Vec<(Vec<u8>, Vec<u8>)> = Vec::new();
        let mut i: usize = 0;
        proof {
            assert(kept@.map_values(|e: (Vec<u8>, Vec<u8>)| (e.0@, e.1@)) =~= remove_range(
                s0.take(0),
                lo@,
                hi@,
            )) by {
                assert(s0.take(0) =~= Seq::<(Seq<u8>, Seq<u8>)>::empty());
            }
        }
        while i < n
            invariant
                0 <= i <= n,
                n == s0.len(),
                s0 == self@,
                self.wf(),
                kept@.map_values(|e: (Vec<u8>, Vec<u8>)| (e.0@, e.1@)) == remove_range(
                    s0.take(i as int),
                    lo@,
                    hi@,
                ),
            decreases n - i,
        {
            let in_lo = !bytes_lt(self.entries[i].0.as_slice(), lo);
            let in_hi = bytes_lt(self.entries[i].0.as_slice(), hi);
            let ghost kv0 = kept@.map_values(|e: (Vec<u8>, Vec<u8>)| (e.0@, e.1@));
            proof {
                lemma_lex_trichotomy(s0[i as int].0, lo@);
                if in_lo {
                    assert(lex_le(lo@, s0[i as int].0));
                } else {
                    lemma_lex_lt_asym(s0[i as int].0, lo@);
                    assert(!lex_le(lo@, s0[i as int].0));
                }
            }
            if !(in_lo && in_hi) {
                let kc = clone_bytes(&self.entries[i].0);
                let vc = clone_bytes(&self.entries[i].1);
                kept.push((kc, vc));
            }
            proof {
                assert(s0.take(i + 1) =~= s0.take(i as int) + seq![s0[i as int]]);
                lemma_remove_range_snoc(s0.take(i as int), s0[i as int], lo@, hi@);
                if !(in_lo && in_hi) {
                    assert(kept@.map_values(|e: (Vec<u8>, Vec<u8>)| (e.0@, e.1@)) =~= kv0 + seq![
                        s0[i as int],
                    ]);
                } else {
                    assert(kept@.map_values(|e: (Vec<u8>, Vec<u8>)| (e.0@, e.1@)) == kv0);
                }
            }
            i = i + 1;
        }
        self.entries = kept;
        proof {
            assert(s0.take(n as int) =~= s0);
            lemma_remove_range_sorted(s0, lo@, hi@);
        }
    }

    /// All entries, in key order, as fresh byte vectors.
    pub fn scan(&self) -> (r: Vec<(Vec<u8>, Vec<u8>)>)
        requires
            self.wf(),
        ensures
            r@.map_values(|e: (Vec<u8>, Vec<u8>)| (e.0@, e.1@)) == self@,
    {
        let n = self.entries.len();
        let mut out: Vec<(Vec<u8>, Vec<u8>)> = Vec::new();
        let mut i: usize = 0;
        proof {
            assert(out@.map_values(|e: (Vec<u8>, Vec<u8>)| (e.0@, e.1@)) =~= self@.take(0));
        }
        while i < n
            invariant
                0 <= i <= n,
                n == self@.len(),
                self.wf(),
                out@.map_values(|e: (Vec<u8>, Vec<u8>)| (e.0@, e.1@)) == self@.take(i as int),
            decreases n - i,
        {
            let kc = clone_bytes(&self.entries[i].0);
            let vc = clone_bytes(&self.entries[i].1);
            let ghost before = out@.map_values(|e: (Vec<u8>, Vec<u8>)| (e.0@, e.1@));
            out.push((kc, vc));
            proof {
                assert(out@.map_values(|e: (Vec<u8>, Vec<u8>)| (e.0@, e.1@)) =~= before + seq![
                    self@[i as int],
                ]);
                assert(self@.take(i + 1) =~= self@.take(i as int) + seq![self@[i as int]]);
            }
            i = i + 1;
        }
        proof {
            assert(self@.take(n as int) =~= self@);
        }
        out
    }

    /// Approximate footprint in bytes: the summed lengths of keys and
    /// values, saturating at the largest representable size.
    pub fn approximate_size(&self) -> (r: u64)
        ensures
            r == spec_size_saturated(self@),
    {
        let n = self.entries.len();
        let mut acc: u64 = 0;
        let mut i: usize = 0;
        proof {
            assert(self@.take(0) =~= Seq::<(Seq<u8>, Seq<u8>)>::empty());
        }
        while i < n
            invariant
                0 <= i <= n,
                n == self@.len(),
                acc == spec_size_saturated(self@.take(i as int)),
            decreases n - i,
        {
            let klen = self.entries[i].0.len() as u64;
            let vlen = self.entries[i].1.len() as u64;
            let step = if klen <= u64::MAX - vlen {
                klen + vlen
            } else {
                u64::MAX
            };
            acc = if step <= u64::MAX - acc {
                acc + step
            } else {
                u64::MAX
            };
            proof {
                assert(self@.take(i + 1) =~= self@.take(i as int) + seq![self@[i as int]]);
                lemma_size_saturated_snoc(self@.take(i as int), self@[i as int]);
                lemma_spec_size_nonneg(self@.take(i as int));
                assert(self@[i as int].0.len() == klen && self@[i as int].1.len() == vlen);
                let before = spec_size(self@.take(i as int));
                let total = spec_size(self@.take(i + 1));
                assert(total == before + klen + vlen);
                if before <= u64::MAX && klen + vlen <= u64::MAX && total <= u64::MAX {
                    assert(acc == total as u64);
                } else {
                    assert(total > u64::MAX);
                    assert(acc == u64::MAX);
                }
            }
            i = i + 1;
        }
        proof {
            assert(self@.take(n as int) =~= self@);
        }
        acc
    }
}

/// Exact byte size of an association sequence, unbounded.
pub open spec fn spec_size(s: Seq<(Seq<u8>, Seq<u8>)>) -> int
    decreases s.len(),
{
    if s.len() == 0 {
        0
    } else {
        spec_size(s.drop_last()) + s.last().0.len() + s.last().1.len()
    }
}

pub proof fn lemma_spec_size_nonneg(s: Seq<(Seq<u8>, Seq<u8>)>)
    ensures
        0 <= spec_size(s),
    decreases s.len(),
{
    if s.len() > 0 {
        lemma_spec_size_nonneg(s.drop_last());
    }
}

/// Byte size clamped to `u64::MAX`.
pub open spec fn spec_size_saturated(s: Seq<(Seq<u8>, Seq<u8>)>) -> u64 {
    if spec_size(s) <= u64::MAX {
        spec_size(s) as u64
    } else {
        u64::MAX
    }
}

proof fn lemma_size_saturated_snoc(s: Seq<(Seq<u8>, Seq<u8>)>, e: (Seq<u8>, Seq<u8>))
    ensures
        spec_size(s + seq![e]) == spec_size(s) + e.0.len() + e.1.len(),
{
    assert((s + seq![e]).drop_last() =~= s);
    assert((s + seq![e]).last() == e);
}

/// Copy a byte vector.
pub fn clone_bytes(v: &Vec<u8>) -> (r: Vec<u8>)
    ensures
        r@ == v@,
{
    let r = v.clone();
    proof {
        assert(r@ =~= v@);
    }
    r
}

proof fn lemma_sorted_insert_found(s: Seq<(Seq<u8>, Seq<u8>)>, k: Seq<u8>, v: Seq<u8>, pos: int)
    requires
        0 <= pos < s.len(),
        s[pos].0 == k,
        forall|j: int| 0 <= j < pos ==> lex_lt((#[trigger] s[j]).0, k),
    ensures
        sorted_insert(s, k, v) == s.update(pos, (k, v)),
    decreases pos,
{
    if pos == 0 {
        assert(!lex_lt(s[0].0, k)) by {
            lemma_lex_lt_irrefl(k);
        }
        assert(sorted_insert(s, k, v) =~= s.update(0, (k, v)));
    } else {
        assert(lex_lt(s[0].0, k));
        assert(s.drop_first()[pos - 1] == s[pos]);
        assert(forall|j: int| 0 <= j < pos - 1 ==> (#[trigger] s.drop_first()[j]).0 == s[j + 1].0
            && lex_lt(s[j + 1].0, k));
        lemma_sorted_insert_found(s.drop_first(), k, v, pos - 1);
        assert(sorted_insert(s, k, v) =~= seq![s[0]] + s.drop_first().update(pos - 1, (k, v)));
        assert(seq![s[0]] + s.drop_first().update(pos - 1, (k, v)) =~= s.update(pos, (k, v)));
    }
}

proof fn lemma_sorted_insert_notfound(s: Seq<(Seq<u8>, Seq<u8>)>, k: Seq<u8>, v: Seq<u8>, pos: int)
    requires
        0 <= pos <= s.len(),
        forall|j: int| 0 <= j < pos ==> lex_lt((#[trigger] s[j]).0, k),
        pos < s.len() ==> lex_lt(k, s[pos].0),
    ensures
        sorted_insert(s, k, v) == s.insert(pos, (k, v)),
    decreases pos,
{
    if s.len() == 0 {
        assert(sorted_insert(s, k, v) =~= s.insert(0, (k, v)));
    } else if pos == 0 {
        assert(!lex_lt(s[0].0, k)) by {
            lemma_lex_lt_asym(k, s[0].0);
        }
        assert(s[0].0 != k) by {
            lemma_lex_lt_irrefl(k);
        }
        assert(sorted_insert(s, k, v) =~= s.insert(0, (k, v)));
    } else {
        assert(lex_lt(s[0].0, k));
        assert(forall|j: int| 0 <= j < pos - 1 ==> (#[trigger] s.drop_first()[j]).0 == s[j + 1].0
            && lex_lt(s[j + 1].0, k));
        if pos < s.len() {
            assert(s.drop_first()[pos - 1] == s[pos]);
        }
        lemma_sorted_insert_notfound(s.drop_first(), k, v, pos - 1);
        assert(sorted_insert(s, k, v) =~= seq![s[0]] + s.drop_first().insert(pos - 1, (k, v)));
        assert(seq![s[0]] + s.drop_first().insert(pos - 1, (k, v)) =~= s.insert(pos, (k, v)));
    }
}

proof fn lemma_remove_key_found(s: Seq<(Seq<u8>, Seq<u8>)>, k: Seq<u8>, pos: int)
    requires
        0 <= pos < s.len(),
        s[pos].0 == k,
        forall|j: int| 0 <= j < pos ==> lex_lt((#[trigger] s[j]).0, k),
    ensures
        remove_key(s, k) == s.remove(pos),
    decreases pos,
{
    if pos == 0 {
        assert(remove_key(s, k) =~= s.remove(0));
    } else {
        assert(s[0].0 != k) by {
            lemma_lex_lt_irrefl(s[0].0);
        }
        assert(s.drop_first()[pos - 1] == s[pos]);
        assert(forall|j: int| 0 <= j < pos - 1 ==> (#[trigger] s.drop_first()[j]).0 == s[j + 1].0
            && lex_lt(s[j + 1].0, k));
        lemma_remove_key_found(s.drop_first(), k, pos - 1);
        assert(remove_key(s, k) =~= seq![s[0]] + s.drop_first().remove(pos - 1));
        assert(seq![s[0]] + s.drop_first().remove(pos - 1) =~= s.remove(pos));
    }
}

proof fn lemma_remove_key_absent(s: Seq<(Seq<u8>, Seq<u8>)>, k: Seq<u8>)
    requires
        forall|i: int| 0 <= i < s.len() ==> (#[trigger] s[i]).0 != k,
    ensures
        remove_key(s, k) == s,
    decreases s.len(),
{
    if s.len() > 0 {
        assert(forall|i: int| 0 <= i < s.drop_first().len() ==> (#[trigger] s.drop_first()[i]).0
            == s[i + 1].0 && s[i + 1].0 != k);
        lemma_remove_key_absent(s.drop_first(), k);
        assert(remove_key(s, k) =~= seq![s[0]] + s.drop_first());
        assert(seq![s[0]] + s.drop_first() =~= s);
    }
}

proof fn lemma_remove_range_snoc(
    s: Seq<(Seq<u8>, Seq<u8>)>,
    e: (Seq<u8>, Seq<u8>),
    lo: Seq<u8>,
    hi: Seq<u8>,
)
    ensures
        remove_range(s + seq![e], lo, hi) == if in_key_range(e.0, lo, hi) {
            remove_range(s, lo, hi)
        } else {
            remove_range(s, lo, hi) + seq![e]
        },
    decreases s.len(),
{
    let w = s + seq![e];
    if s.len() == 0 {
        assert(w[0] == e);
        assert(w.drop_first() =~= Seq::<(Seq<u8>, Seq<u8>)>::empty());
        assert(remove_range(w.drop_first(), lo, hi) =~= Seq::<(Seq<u8>, Seq<u8>)>::empty());
        if in_key_range(e.0, lo, hi) {
            assert(remove_range(w, lo, hi) =~= remove_range(s, lo, hi));
        } else {
            assert(remove_range(w, lo, hi) =~= remove_range(s, lo, hi) + seq![e]);
        }
    } else {
        assert(w[0] == s[0]);
        assert(w.drop_first() =~= s.drop_first() + seq![e]);
        lemma_remove_range_snoc(s.drop_first(), e, lo, hi);
        if in_key_range(e.0, lo, hi) {
        } else {
            if in_key_range(s[0].0, lo, hi) {
            } else {
                assert(seq![s[0]] + (remove_range(s.drop_first(), lo, hi) + seq![e]) =~= (seq![
                    s[0],
                ] + remove_range(s.drop_first(), lo, hi)) + seq![e]);
            }
        }
    }
}

} // verus!
