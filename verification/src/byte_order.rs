//! Byte-level order: the lexicographic comparison the storage engine uses for
//! its keys, and fixed-width big-endian integer codecs whose encoded order
//! matches numeric order, so slot ranges map to contiguous key ranges.
//! Also little-endian specs, which describe the compact-binary value codec.

use vstd::prelude::*;

verus! {

/// Strict lexicographic (bytewise) order on byte strings, with a proper
/// prefix ordered before its extensions. This is the storage engine's
/// default key comparator.
pub open spec fn lex_lt(a: Seq<u8>, b: Seq<u8>) -> bool
    decreases a.len(),
{
    if b.len() == 0 {
        false
    } else if a.len() == 0 {
        true
    } else if a[0] < b[0] {
        true
    } else if a[0] > b[0] {
        false
    } else {
        lex_lt(a.drop_first(), b.drop_first())
    }
}

pub open spec fn lex_le(a: Seq<u8>, b: Seq<u8>) -> bool {
    a == b || lex_lt(a, b)
}

pub proof fn lemma_lex_lt_irrefl(a: Seq<u8>)
    ensures
        !lex_lt(a, a),
    decreases a.len(),
{
    if a.len() > 0 {
        lemma_lex_lt_irrefl(a.drop_first());
    }
}

pub proof fn lemma_lex_lt_asym(a: Seq<u8>, b: Seq<u8>)
    requires
        lex_lt(a, b),
    ensures
        !lex_lt(b, a),
    decreases a.len(),
{
    if b.len() == 0 {
    } else if a.len() == 0 {
    } else if a[0] < b[0] {
    } else {
        lemma_lex_lt_asym(a.drop_first(), b.drop_first());
    }
}

/// Exactly one of `lex_lt(a, b)`, `a == b`, `lex_lt(b, a)` holds.
pub proof fn lemma_lex_trichotomy(a: Seq<u8>, b: Seq<u8>)
    ensures
        !lex_lt(a, b) && !lex_lt(b, a) ==> a == b,
    decreases a.len(),
{
    if a.len() == 0 || b.len() == 0 {
        if !lex_lt(a, b) && !lex_lt(b, a) {
            assert(a.len() == 0 && b.len() == 0);
            assert(a =~= b);
        }
    } else {
        lemma_lex_trichotomy(a.drop_first(), b.drop_first());
        if !lex_lt(a, b) && !lex_lt(b, a) {
            assert(a[0] == b[0]);
            assert(a.drop_first() =~= b.drop_first());
            assert(forall|i: int| 1 <= i < a.len() ==> a[i] == a.drop_first()[i - 1]);
            assert(forall|i: int| 1 <= i < b.len() ==> b[i] == b.drop_first()[i - 1]);
            assert(a =~= b);
        }
    }
}

pub proof fn lemma_lex_lt_transitive(a: Seq<u8>, b: Seq<u8>, c: Seq<u8>)
    requires
        lex_lt(a, b),
        lex_lt(b, c),
    ensures
        lex_lt(a, c),
    decreases a.len() + b.len() + c.len(),
{
    if c.len() == 0 {
    } else if b.len() == 0 {
    } else if a.len() == 0 {
    } else {
        if a[0] == b[0] && b[0] == c[0] {
            lemma_lex_lt_transitive(a.drop_first(), b.drop_first(), c.drop_first());
        }
    }
}

/// Comparing two concatenations whose left parts have equal length reduces
/// to comparing the left parts, then the right parts.
pub proof fn lemma_lex_concat(a: Seq<u8>, b: Seq<u8>, x: Seq<u8>, y: Seq<u8>)
    requires
        a.len() == b.len(),
    ensures
        lex_lt(a + x, b + y) <==> (lex_lt(a, b) || (a == b && lex_lt(x, y))),
    decreases a.len(),
{
    if a.len() == 0 {
        assert(a + x =~= x);
        assert(b + y =~= y);
        assert(a =~= b);
    } else {
        assert((a + x)[0] == a[0]);
        assert((b + y)[0] == b[0]);
        if a[0] == b[0] {
            assert((a + x).drop_first() =~= a.drop_first() + x);
            assert((b + y).drop_first() =~= b.drop_first() + y);
            lemma_lex_concat(a.drop_first(), b.drop_first(), x, y);
            if a.drop_first() == b.drop_first() {
                assert(forall|i: int| 1 <= i < a.len() ==> a[i] == a.drop_first()[i - 1]);
                assert(forall|i: int| 1 <= i < b.len() ==> b[i] == b.drop_first()[i - 1]);
                assert(a =~= b);
            }
            if a == b {
                assert(a.drop_first() == b.drop_first());
            }
        }
    }
}

/// If the two strings agree strictly before `i` and differ at `i` in `a`'s
/// favor, then `a` is lexicographically below `b`.
pub proof fn lemma_lex_lt_at(a: Seq<u8>, b: Seq<u8>, i: int)
    requires
        0 <= i < a.len(),
        i < b.len(),
        forall|j: int| 0 <= j < i ==> a[j] == b[j],
        a[i] < b[i],
    ensures
        lex_lt(a, b),
    decreases i,
{
    if i > 0 {
        lemma_lex_lt_at(a.drop_first(), b.drop_first(), i - 1);
    }
}

/// Executable lexicographic comparison, matching `lex_lt`.
pub fn bytes_lt(a: &[u8], b: &[u8]) -> (r: bool)
    ensures
        r == lex_lt(a@, b@),
{
    let mut i: usize = 0;
    let alen = a.len();
    let blen = b.len();
    proof {
        assert(a@.skip(0) =~= a@);
        assert(b@.skip(0) =~= b@);
    }
    loop
        invariant
            0 <= i <= alen,
            i <= blen,
            alen == a@.len(),
            blen == b@.len(),
            lex_lt(a@, b@) == lex_lt(a@.skip(i as int), b@.skip(i as int)),
        decreases alen - i,
    {
        if i >= alen || i >= blen {
            proof {
                if i >= alen {
                    assert(a@.skip(i as int) =~= Seq::<u8>::empty());
                } else {
                    assert(b@.skip(i as int) =~= Seq::<u8>::empty());
                }
            }
            return alen < blen;
        }
        let av = a[i];
        let bv = b[i];
        if av < bv {
            proof {
                assert(a@.skip(i as int)[0] == av);
                assert(b@.skip(i as int)[0] == bv);
            }
            return true;
        }
        if av > bv {
            proof {
                assert(a@.skip(i as int)[0] == av);
                assert(b@.skip(i as int)[0] == bv);
            }
            return false;
        }
        proof {
            assert(a@.skip(i as int)[0] == av);
            assert(b@.skip(i as int)[0] == bv);
            assert(a@.skip(i as int).drop_first() =~= a@.skip(i + 1));
            assert(b@.skip(i as int).drop_first() =~= b@.skip(i + 1));
        }
        i = i + 1;
    }
}

// --- big-endian fixed-width integer codecs (order-preserving keys) ---

pub open spec fn u64_be_bytes(v: u64) -> Seq<u8> {
    seq![
        (v >> 56) as u8,
        (v >> 48) as u8,
        (v >> 40) as u8,
        (v >> 32) as u8,
        (v >> 24) as u8,
        (v >> 16) as u8,
        (v >> 8) as u8,
        v as u8,
    ]
}

pub open spec fn u32_be_bytes(v: u32) -> Seq<u8> {
    seq![(v >> 24) as u8, (v >> 16) as u8, (v >> 8) as u8, v as u8]
}

pub open spec fn u64_from_be(s: Seq<u8>) -> u64
    recommends
        s.len() == 8,
{
    let h0 = (s[0] as u64) << 56;
    let h1 = (s[1] as u64) << 48;
    let h2 = (s[2] as u64) << 40;
    let h3 = (s[3] as u64) << 32;
    let h4 = (s[4] as u64) << 24;
    let h5 = (s[5] as u64) << 16;
    let h6 = (s[6] as u64) << 8;
    let h7 = s[7] as u64;
    h0 | h1 | h2 | h3 | h4 | h5 | h6 | h7
}

pub open spec fn u32_from_be(s: Seq<u8>) -> u32
    recommends
        s.len() == 4,
{
    let h0 = (s[0] as u32) << 24;
    let h1 = (s[1] as u32) << 16;
    let h2 = (s[2] as u32) << 8;
    let h3 = s[3] as u32;
    h0 | h1 | h2 | h3
}

pub proof fn lemma_u32_be_roundtrip(v: u32)
    ensures
        u32_from_be(u32_be_bytes(v)) == v,
{
    assert({
        let b0 = (v >> 24) as u8;
        let b1 = (v >> 16) as u8;
        let b2 = (v >> 8) as u8;
        let b3 = v as u8;
        let h0 = (b0 as u32) << 24;
        let h1 = (b1 as u32) << 16;
        let h2 = (b2 as u32) << 8;
        let h3 = b3 as u32;
        h0 | h1 | h2 | h3 == v
    }) by (bit_vector);
}

pub fn decode_u32_be(s: &[u8]) -> (r: u32)
    requires
        s@.len() == 4,
    ensures
        r == u32_from_be(s@),
{
    let h0 = (s[0] as u32) << 24u32;
    let h1 = (s[1] as u32) << 16u32;
    let h2 = (s[2] as u32) << 8u32;
    let h3 = s[3] as u32;
    h0 | h1 | h2 | h3
}

pub proof fn lemma_u64_be_roundtrip(v: u64)
    ensures
        u64_from_be(u64_be_bytes(v)) == v,
{
    assert({
        let b0 = (v >> 56) as u8;
        let b1 = (v >> 48) as u8;
        let b2 = (v >> 40) as u8;
        let b3 = (v >> 32) as u8;
        let b4 = (v >> 24) as u8;
        let b5 = (v >> 16) as u8;
        let b6 = (v >> 8) as u8;
        let b7 = v as u8;
        let h0 = (b0 as u64) << 56;
        let h1 = (b1 as u64) << 48;
        let h2 = (b2 as u64) << 40;
        let h3 = (b3 as u64) << 32;
        let h4 = (b4 as u64) << 24;
        let h5 = (b5 as u64) << 16;
        let h6 = (b6 as u64) << 8;
        let h7 = b7 as u64;
        h0 | h1 | h2 | h3 | h4 | h5 | h6 | h7 == v
    }) by (bit_vector);
}

/// Big-endian encoding preserves numeric order under the key comparator.
pub proof fn lemma_u64_be_order(a: u64, b: u64)
    requires
        a < b,
    ensures
        lex_lt(u64_be_bytes(a), u64_be_bytes(b)),
{
    let s = u64_be_bytes(a);
    let t = u64_be_bytes(b);
    assert({
        let e0 = (a >> 56) as u8 == (b >> 56) as u8;
        let e1 = (a >> 48) as u8 == (b >> 48) as u8;
        let e2 = (a >> 40) as u8 == (b >> 40) as u8;
        let e3 = (a >> 32) as u8 == (b >> 32) as u8;
        let e4 = (a >> 24) as u8 == (b >> 24) as u8;
        let e5 = (a >> 16) as u8 == (b >> 16) as u8;
        let e6 = (a >> 8) as u8 == (b >> 8) as u8;
        ||| ((a >> 56) as u8) < ((b >> 56) as u8)
        ||| e0 && ((a >> 48) as u8) < ((b >> 48) as u8)
        ||| e0 && e1 && ((a >> 40) as u8) < ((b >> 40) as u8)
        ||| e0 && e1 && e2 && ((a >> 32) as u8) < ((b >> 32) as u8)
        ||| e0 && e1 && e2 && e3 && ((a >> 24) as u8) < ((b >> 24) as u8)
        ||| e0 && e1 && e2 && e3 && e4 && ((a >> 16) as u8) < ((b >> 16) as u8)
        ||| e0 && e1 && e2 && e3 && e4 && e5 && ((a >> 8) as u8) < ((b >> 8) as u8)
        ||| e0 && e1 && e2 && e3 && e4 && e5 && e6 && (a as u8) < (b as u8)
    }) by (bit_vector)
        requires
            a < b,
    ;
    if s[0] < t[0] {
        lemma_lex_lt_at(s, t, 0);
    } else if s[1] < t[1] {
        lemma_lex_lt_at(s, t, 1);
    } else if s[2] < t[2] {
        lemma_lex_lt_at(s, t, 2);
    } else if s[3] < t[3] {
        lemma_lex_lt_at(s, t, 3);
    } else if s[4] < t[4] {
        lemma_lex_lt_at(s, t, 4);
    } else if s[5] < t[5] {
        lemma_lex_lt_at(s, t, 5);
    } else if s[6] < t[6] {
        lemma_lex_lt_at(s, t, 6);
    } else {
        lemma_lex_lt_at(s, t, 7);
    }
}

pub proof fn lemma_u32_be_order(a: u32, b: u32)
    requires
        a < b,
    ensures
        lex_lt(u32_be_bytes(a), u32_be_bytes(b)),
{
    let s = u32_be_bytes(a);
    let t = u32_be_bytes(b);
    assert({
        let e0 = (a >> 24) as u8 == (b >> 24) as u8;
        let e1 = (a >> 16) as u8 == (b >> 16) as u8;
        let e2 = (a >> 8) as u8 == (b >> 8) as u8;
        ||| ((a >> 24) as u8) < ((b >> 24) as u8)
        ||| e0 && ((a >> 16) as u8) < ((b >> 16) as u8)
        ||| e0 && e1 && ((a >> 8) as u8) < ((b >> 8) as u8)
        ||| e0 && e1 && e2 && (a as u8) < (b as u8)
    }) by (bit_vector)
        requires
            a < b,
    ;
    if s[0] < t[0] {
        lemma_lex_lt_at(s, t, 0);
    } else if s[1] < t[1] {
        lemma_lex_lt_at(s, t, 1);
    } else if s[2] < t[2] {
        lemma_lex_lt_at(s, t, 2);
    } else {
        lemma_lex_lt_at(s, t, 3);
    }
}

pub fn encode_u64_be(v: u64) -> (r: Vec<u8>)
    ensures
        r@ == u64_be_bytes(v),
{
    let mut r: Vec<u8> = Vec::new();
    r.push((v >> 56) as u8);
    r.push((v >> 48) as u8);
    r.push((v >> 40) as u8);
    r.push((v >> 32) as u8);
    r.push((v >> 24) as u8);
    r.push((v >> 16) as u8);
    r.push((v >> 8) as u8);
    r.push(v as u8);
    proof {
        assert(r@ =~= u64_be_bytes(v));
    }
    r
}

pub fn encode_u32_be(v: u32) -> (r: Vec<u8>)
    ensures
        r@ == u32_be_bytes(v),
{
    let mut r: Vec<u8> = Vec::new();
    r.push((v >> 24) as u8);
    r.push((v >> 16) as u8);
    r.push((v >> 8) as u8);
    r.push(v as u8);
    proof {
        assert(r@ =~= u32_be_bytes(v));
    }
    r
}

pub fn decode_u64_be(s: &[u8]) -> (r: u64)
    requires
        s@.len() == 8,
    ensures
        r == u64_from_be(s@),
{
    let h0 = (s[0] as u64) << 56u64;
    let h1 = (s[1] as u64) << 48u64;
    let h2 = (s[2] as u64) << 40u64;
    let h3 = (s[3] as u64) << 32u64;
    let h4 = (s[4] as u64) << 24u64;
    let h5 = (s[5] as u64) << 16u64;
    let h6 = (s[6] as u64) << 8u64;
    let h7 = s[7] as u64;
    h0 | h1 | h2 | h3 | h4 | h5 | h6 | h7
}

pub fn decode_u64_be_at(s: &[u8], off: usize) -> (r: u64)
    requires
        off + 8 <= s@.len(),
    ensures
        r == u64_from_be(s@.subrange(off as int, off as int + 8)),
{
    let h0 = (s[off] as u64) << 56u64;
    let h1 = (s[off + 1] as u64) << 48u64;
    let h2 = (s[off + 2] as u64) << 40u64;
    let h3 = (s[off + 3] as u64) << 32u64;
    let h4 = (s[off + 4] as u64) << 24u64;
    let h5 = (s[off + 5] as u64) << 16u64;
    let h6 = (s[off + 6] as u64) << 8u64;
    let h7 = s[off + 7] as u64;
    proof {
        let w = s@.subrange(off as int, off as int + 8);
        assert(forall|j: int| 0 <= j < 8 ==> w[j] == s@[off + j]);
    }
    h0 | h1 | h2 | h3 | h4 | h5 | h6 | h7
}

pub fn decode_u32_be_at(s: &[u8], off: usize) -> (r: u32)
    requires
        off + 4 <= s@.len(),
    ensures
        r == u32_from_be(s@.subrange(off as int, off as int + 4)),
{
    let h0 = (s[off] as u32) << 24u32;
    let h1 = (s[off + 1] as u32) << 16u32;
    let h2 = (s[off + 2] as u32) << 8u32;
    let h3 = s[off + 3] as u32;
    proof {
        let w = s@.subrange(off as int, off as int + 4);
        assert(forall|j: int| 0 <= j < 4 ==> w[j] == s@[off + j]);
    }
    h0 | h1 | h2 | h3
}

// --- little-endian fixed-width specs (the compact-binary value codec) ---

pub open spec fn u64_le_bytes(v: u64) -> Seq<u8> {
    seq![
        v as u8,
        (v >> 8) as u8,
        (v >> 16) as u8,
        (v >> 24) as u8,
        (v >> 32) as u8,
        (v >> 40) as u8,
        (v >> 48) as u8,
        (v >> 56) as u8,
    ]
}

pub open spec fn u64_from_le(s: Seq<u8>) -> u64
    recommends
        s.len() == 8,
{
    let h0 = s[0] as u64;
    let h1 = (s[1] as u64) << 8;
    let h2 = (s[2] as u64) << 16;
    let h3 = (s[3] as u64) << 24;
    let h4 = (s[4] as u64) << 32;
    let h5 = (s[5] as u64) << 40;
    let h6 = (s[6] as u64) << 48;
    let h7 = (s[7] as u64) << 56;
    h0 | h1 | h2 | h3 | h4 | h5 | h6 | h7
}

pub proof fn lemma_u64_le_roundtrip(v: u64)
    ensures
        u64_from_le(u64_le_bytes(v)) == v,
{
    assert({
        let b0 = v as u8;
        let b1 = (v >> 8) as u8;
        let b2 = (v >> 16) as u8;
        let b3 = (v >> 24) as u8;
        let b4 = (v >> 32) as u8;
        let b5 = (v >> 40) as u8;
        let b6 = (v >> 48) as u8;
        let b7 = (v >> 56) as u8;
        let h0 = b0 as u64;
        let h1 = (b1 as u64) << 8;
        let h2 = (b2 as u64) << 16;
        let h3 = (b3 as u64) << 24;
        let h4 = (b4 as u64) << 32;
        let h5 = (b5 as u64) << 40;
        let h6 = (b6 as u64) << 48;
        let h7 = (b7 as u64) << 56;
        h0 | h1 | h2 | h3 | h4 | h5 | h6 | h7 == v
    }) by (bit_vector);
}

} // verus!
