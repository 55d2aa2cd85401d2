//! Column capabilities, layered as in the storage design: a key codec
//! (`Column`), an added compact-binary value codec (`TypedColumn`), and an
//! added schema-based value codec (`ProtobufColumn`). Concrete columns
//! implement the capabilities they need; slot-indexed columns prove that
//! their key encoding groups keys by slot, which is what makes slot-range
//! truncation act on contiguous key ranges.

use vstd::prelude::*;
use crate::byte_order::decode_u32_be_at;
use crate::byte_order::decode_u64_be_at;
use crate::byte_order::decode_u64_be;
use crate::byte_order::encode_u32_be;
use crate::byte_order::encode_u64_be;
use crate::byte_order::lemma_lex_concat;
use crate::byte_order::lemma_u32_be_order;
use crate::byte_order::lemma_u32_be_roundtrip;
use crate::byte_order::lemma_u64_be_order;
use crate::byte_order::lemma_u64_be_roundtrip;
use crate::byte_order::lex_le;
use crate::byte_order::lex_lt;
use crate::byte_order::u32_be_bytes;
use crate::byte_order::u32_from_be;
use crate::byte_order::u64_be_bytes;
use crate::byte_order::u64_from_be;
use crate::errors::LedgerError;
use crate::value_codecs::bincode_bytes_bytes;
use crate::value_codecs::bincode_bytes_of;
use crate::value_codecs::bincode_decode_bytes;
use crate::value_codecs::bincode_decode_u64;
use crate::value_codecs::bincode_encode_bytes;
use crate::value_codecs::bincode_encode_u64;
use crate::value_codecs::bincode_u64_bytes;
use crate::value_codecs::bincode_u64_of;
use crate::value_codecs::prost_bytes_dec;
use crate::value_codecs::prost_bytes_enc;
use crate::value_codecs::prost_decode_bytes;
use crate::value_codecs::prost_encode_bytes;
use crate::byte_order::lemma_u64_le_roundtrip;

verus! {

/// Reserved entry-counter value: the cached row count is unknown ("dirty")
/// and must be recomputed by a full scan.
pub const DIRTY_COUNT: i64 = -1;

/// The fixed set of column families.
#[derive(Clone, Copy, Debug, PartialEq, Eq, Structural)]
pub enum ColumnKind {
    Blocks,
    SlotSignatures,
    Transactions,
    TransactionStatus,
    CleanupMeta,
}

/// A column's stable name.
pub trait ColumnName {
    spec fn spec_name() -> Seq<char>;

    fn name() -> (r: &'static str)
        ensures
            r@ == Self::spec_name(),
    ;
}

/// The key-codec capability: a domain index and its deterministic,
/// order-preserving byte encoding.
pub trait Column: ColumnName {
    type Index;

    spec fn spec_kind() -> ColumnKind;

    /// The encoded key of an index.
    spec fn spec_key(i: Self::Index) -> Seq<u8>;

    /// Key decoding: `Some` exactly on well-formed keys.
    spec fn spec_index_of(k: Seq<u8>) -> Option<Self::Index>;

    /// The slot an index belongs to.
    spec fn spec_slot(i: Self::Index) -> u64;

    /// The least index of a slot.
    spec fn spec_slot_start(slot: u64) -> Self::Index;

    /// Decoding inverts encoding.
    proof fn lemma_key_roundtrip(i: Self::Index)
        ensures
            Self::spec_index_of(Self::spec_key(i)) == Some(i),
    ;

    /// Keys are grouped by slot: the key of a slot's least index is a lower
    /// bound for the keys of that and all later slots, and an upper bound
    /// for the keys of all earlier slots.
    proof fn lemma_slot_key_bounds(s: u64, i: Self::Index)
        ensures
            s <= Self::spec_slot(i) ==> lex_le(
                Self::spec_key(Self::spec_slot_start(s)),
                Self::spec_key(i),
            ),
            Self::spec_slot(i) < s ==> lex_lt(
                Self::spec_key(i),
                Self::spec_key(Self::spec_slot_start(s)),
            ),
    ;

    fn kind() -> (r: ColumnKind)
        ensures
            r == Self::spec_kind(),
    ;

    fn key(i: &Self::Index) -> (r: Vec<u8>)
        ensures
            r@ == Self::spec_key(*i),
    ;

    fn try_index(k: &[u8]) -> (r: Option<Self::Index>)
        ensures
            r == Self::spec_index_of(k@),
    ;

    fn slot_start(slot: u64) -> (r: Self::Index)
        ensures
            r == Self::spec_slot_start(slot),
    ;
}

/// The compact-binary value-codec capability.
pub trait TypedColumn: Column {
    type Type: View;

    /// The encoded bytes of a value.
    spec fn spec_value_bytes(v: <Self::Type as View>::V) -> Seq<u8>;

    /// Value decoding: `Some` exactly on well-formed bytes.
    spec fn spec_value_of(b: Seq<u8>) -> Option<<Self::Type as View>::V>;

    /// Abstract values the codec can represent; the view of every
    /// executable value is one.
    spec fn spec_value_wf(v: <Self::Type as View>::V) -> bool;

    /// Decoding inverts encoding on representable values.
    proof fn lemma_value_roundtrip(v: <Self::Type as View>::V)
        requires
            Self::spec_value_wf(v),
        ensures
            Self::spec_value_of(Self::spec_value_bytes(v)) == Some(v),
    ;

    /// Every executable value is representable.
    proof fn lemma_value_wf(v: &Self::Type)
        ensures
            Self::spec_value_wf(v@),
    ;

    fn encode_value(v: &Self::Type) -> (r: Result<Vec<u8>, LedgerError>)
        ensures
            r is Ok,
            r matches Ok(b) ==> b@ == Self::spec_value_bytes(v@),
    ;

    fn decode_value(b: &[u8]) -> (r: Result<Self::Type, LedgerError>)
        ensures
            r is Ok <==> Self::spec_value_of(b@) is Some,
            r matches Ok(v) ==> Self::spec_value_of(b@) == Some(v@),
            r matches Err(e) ==> e == LedgerError::Decode,
    ;
}

/// The schema-based value-codec capability. Its decoding is a function of
/// the bytes alone and inverts its encoding, but is not given by a closed
/// formula; reads of bytes the schema codec cannot parse may fall back to
/// the compact-binary codec where a column also implements `TypedColumn`.
pub trait ProtobufColumn: Column {
    type Type: View;

    /// The bytes the schema codec writes for a value.
    spec fn spec_proto_bytes(v: <Self::Type as View>::V) -> Seq<u8>;

    /// The value the schema codec reads back, if any.
    spec fn spec_proto_of(b: Seq<u8>) -> Option<<Self::Type as View>::V>;

    fn encode_proto(v: &Self::Type) -> (r: Result<Vec<u8>, LedgerError>)
        ensures
            r is Ok,
            r matches Ok(b) ==> b@ == Self::spec_proto_bytes(v@),
    ;

    fn decode_proto(b: &[u8]) -> (r: Result<Self::Type, LedgerError>)
        ensures
            r is Ok <==> Self::spec_proto_of(b@) is Some,
            r matches Ok(v) ==> Self::spec_proto_of(b@) == Some(v@),
            r matches Err(e) ==> e == LedgerError::Decode,
            r is Err ==> forall|w: <Self::Type as View>::V| b@ != Self::spec_proto_bytes(w),
            r matches Ok(v) ==> forall|w: <Self::Type as View>::V|
                b@ == Self::spec_proto_bytes(w) ==> v@ == w,
    ;
}

// --- composite (slot, sub-index) keys, shared by several columns ---

pub open spec fn composite_key(slot: u64, sub: u32) -> Seq<u8> {
    u64_be_bytes(slot) + u32_be_bytes(sub)
}

pub open spec fn composite_index_of(k: Seq<u8>) -> Option<(u64, u32)> {
    if k.len() == 12 {
        Some((u64_from_be(k.take(8)), u32_from_be(k.skip(8))))
    } else {
        None
    }
}

pub fn encode_composite_key(i: &(u64, u32)) -> (r: Vec<u8>)
    ensures
        r@ == composite_key(i.0, i.1),
{
    let mut r = encode_u64_be(i.0);
    let mut tail = encode_u32_be(i.1);
    r.append(&mut tail);
    r
}

pub fn try_composite_index(k: &[u8]) -> (r: Option<(u64, u32)>)
    ensures
        r == composite_index_of(k@),
{
    if k.len() == 12 {
        let slot = decode_u64_be_at(k, 0);
        let sub = decode_u32_be_at(k, 8);
        proof {
            assert(k@.subrange(0, 8) =~= k@.take(8));
            assert(k@.subrange(8, 12) =~= k@.skip(8));
        }
        Some((slot, sub))
    } else {
        None
    }
}

pub proof fn lemma_composite_key_roundtrip(slot: u64, sub: u32)
    ensures
        composite_index_of(composite_key(slot, sub)) == Some((slot, sub)),
{
    let k = composite_key(slot, sub);
    assert(k.len() == 12);
    assert(k.take(8) =~= u64_be_bytes(slot));
    assert(k.skip(8) =~= u32_be_bytes(sub));
    lemma_u64_be_roundtrip(slot);
    lemma_u32_be_roundtrip(sub);
}

pub proof fn lemma_composite_slot_bounds(s: u64, slot: u64, sub: u32)
    ensures
        s <= slot ==> lex_le(composite_key(s, 0), composite_key(slot, sub)),
        slot < s ==> lex_lt(composite_key(slot, sub), composite_key(s, 0)),
{
    lemma_lex_concat(u64_be_bytes(s), u64_be_bytes(slot), u32_be_bytes(0), u32_be_bytes(sub));
    lemma_lex_concat(u64_be_bytes(slot), u64_be_bytes(s), u32_be_bytes(sub), u32_be_bytes(0));
    if s < slot {
        lemma_u64_be_order(s, slot);
    } else if slot < s {
        lemma_u64_be_order(slot, s);
    } else {
        if sub > 0 {
            lemma_u32_be_order(0, sub);
        } else {
            assert(composite_key(s, 0) == composite_key(slot, sub));
        }
    }
}

// --- the concrete columns ---

/// Per-slot block metadata, keyed by slot; compact-binary values.
pub struct Blocks;

/// Per-slot transaction signatures, keyed by (slot, position);
/// compact-binary values.
pub struct SlotSignatures;

/// Transactions, keyed by (slot, position); schema-coded values with a
/// compact-binary fallback for data written before the schema codec.
pub struct Transactions;

/// Transaction statuses, keyed by (slot, position); schema-coded values
/// with a compact-binary fallback.
pub struct TransactionStatus;

/// A single-row column holding the persisted truncation low-watermark.
pub struct CleanupMeta;

impl ColumnName for Blocks {
    open spec fn spec_name() -> Seq<char> {
        "blocks"@
    }

    fn name() -> (r: &'static str) {
        "blocks"
    }
}

impl Column for Blocks {
    type Index = u64;

    open spec fn spec_kind() -> ColumnKind {
        ColumnKind::Blocks
    }

    open spec fn spec_key(i: u64) -> Seq<u8> {
        u64_be_bytes(i)
    }

    open spec fn spec_index_of(k: Seq<u8>) -> Option<u64> {
        if k.len() == 8 {
            Some(u64_from_be(k))
        } else {
            None
        }
    }

    open spec fn spec_slot(i: u64) -> u64 {
        i
    }

    open spec fn spec_slot_start(slot: u64) -> u64 {
        slot
    }

    proof fn lemma_key_roundtrip(i: u64) {
        lemma_u64_be_roundtrip(i);
    }

    proof fn lemma_slot_key_bounds(s: u64, i: u64) {
        if s < i {
            lemma_u64_be_order(s, i);
        } else if i < s {
            lemma_u64_be_order(i, s);
        }
    }

    fn kind() -> ColumnKind {
        ColumnKind::Blocks
    }

    fn key(i: &u64) -> Vec<u8> {
        encode_u64_be(*i)
    }

    fn try_index(k: &[u8]) -> Option<u64> {
        if k.len() == 8 {
            Some(decode_u64_be(k))
        } else {
            None
        }
    }

    fn slot_start(slot: u64) -> u64 {
        slot
    }
}

impl TypedColumn for Blocks {
    type Type = Vec<u8>;

    open spec fn spec_value_bytes(v: Seq<u8>) -> Seq<u8> {
        bincode_bytes_bytes(v)
    }

    open spec fn spec_value_of(b: Seq<u8>) -> Option<Seq<u8>> {
        bincode_bytes_of(b)
    }

    open spec fn spec_value_wf(v: Seq<u8>) -> bool {
        v.len() <= usize::MAX
    }

    proof fn lemma_value_roundtrip(v: Seq<u8>) {
        lemma_bincode_bytes_roundtrip(v);
    }

    proof fn lemma_value_wf(v: &Vec<u8>) {
        broadcast use vstd::std_specs::vec::axiom_spec_len;

        assert(v@.len() == v.len());
    }

    fn encode_value(v: &Vec<u8>) -> Result<Vec<u8>, LedgerError> {
        bincode_encode_bytes(v)
    }

    fn decode_value(b: &[u8]) -> Result<Vec<u8>, LedgerError> {
        bincode_decode_bytes(b)
    }
}

impl ColumnName for SlotSignatures {
    open spec fn spec_name() -> Seq<char> {
        "slot_signatures"@
    }

    fn name() -> (r: &'static str) {
        "slot_signatures"
    }
}

impl Column for SlotSignatures {
    type Index = (u64, u32);

    open spec fn spec_kind() -> ColumnKind {
        ColumnKind::SlotSignatures
    }

    open spec fn spec_key(i: (u64, u32)) -> Seq<u8> {
        composite_key(i.0, i.1)
    }

    open spec fn spec_index_of(k: Seq<u8>) -> Option<(u64, u32)> {
        composite_index_of(k)
    }

    open spec fn spec_slot(i: (u64, u32)) -> u64 {
        i.0
    }

    open spec fn spec_slot_start(slot: u64) -> (u64, u32) {
        (slot, 0u32)
    }

    proof fn lemma_key_roundtrip(i: (u64, u32)) {
        lemma_composite_key_roundtrip(i.0, i.1);
    }

    proof fn lemma_slot_key_bounds(s: u64, i: (u64, u32)) {
        lemma_composite_slot_bounds(s, i.0, i.1);
    }

    fn kind() -> ColumnKind {
        ColumnKind::SlotSignatures
    }

    fn key(i: &(u64, u32)) -> Vec<u8> {
        encode_composite_key(i)
    }

    fn try_index(k: &[u8]) -> Option<(u64, u32)> {
        try_composite_index(k)
    }

    fn slot_start(slot: u64) -> (u64, u32) {
        (slot, 0u32)
    }
}

impl TypedColumn for SlotSignatures {
    type Type = Vec<u8>;

    open spec fn spec_value_bytes(v: Seq<u8>) -> Seq<u8> {
        bincode_bytes_bytes(v)
    }

    open spec fn spec_value_of(b: Seq<u8>) -> Option<Seq<u8>> {
        bincode_bytes_of(b)
    }

    open spec fn spec_value_wf(v: Seq<u8>) -> bool {
        v.len() <= usize::MAX
    }

    proof fn lemma_value_roundtrip(v: Seq<u8>) {
        lemma_bincode_bytes_roundtrip(v);
    }

    proof fn lemma_value_wf(v: &Vec<u8>) {
        broadcast use vstd::std_specs::vec::axiom_spec_len;

        assert(v@.len() == v.len());
    }

    fn encode_value(v: &Vec<u8>) -> Result<Vec<u8>, LedgerError> {
        bincode_encode_bytes(v)
    }

    fn decode_value(b: &[u8]) -> Result<Vec<u8>, LedgerError> {
        bincode_decode_bytes(b)
    }
}

impl ColumnName for Transactions {
    open spec fn spec_name() -> Seq<char> {
        "transactions"@
    }

    fn name() -> (r: &'static str) {
        "transactions"
    }
}

impl Column for Transactions {
    type Index = (u64, u32);

    open spec fn spec_kind() -> ColumnKind {
        ColumnKind::Transactions
    }

    open spec fn spec_key(i: (u64, u32)) -> Seq<u8> {
        composite_key(i.0, i.1)
    }

    open spec fn spec_index_of(k: Seq<u8>) -> Option<(u64, u32)> {
        composite_index_of(k)
    }

    open spec fn spec_slot(i: (u64, u32)) -> u64 {
        i.0
    }

    open spec fn spec_slot_start(slot: u64) -> (u64, u32) {
        (slot, 0u32)
    }

    proof fn lemma_key_roundtrip(i: (u64, u32)) {
        lemma_composite_key_roundtrip(i.0, i.1);
    }

    proof fn lemma_slot_key_bounds(s: u64, i: (u64, u32)) {
        lemma_composite_slot_bounds(s, i.0, i.1);
    }

    fn kind() -> ColumnKind {
        ColumnKind::Transactions
    }

    fn key(i: &(u64, u32)) -> Vec<u8> {
        encode_composite_key(i)
    }

    fn try_index(k: &[u8]) -> Option<(u64, u32)> {
        try_composite_index(k)
    }

    fn slot_start(slot: u64) -> (u64, u32) {
        (slot, 0u32)
    }
}

impl TypedColumn for Transactions {
    type Type = Vec<u8>;

    open spec fn spec_value_bytes(v: Seq<u8>) -> Seq<u8> {
        bincode_bytes_bytes(v)
    }

    open spec fn spec_value_of(b: Seq<u8>) -> Option<Seq<u8>> {
        bincode_bytes_of(b)
    }

    open spec fn spec_value_wf(v: Seq<u8>) -> bool {
        v.len() <= usize::MAX
    }

    proof fn lemma_value_roundtrip(v: Seq<u8>) {
        lemma_bincode_bytes_roundtrip(v);
    }

    proof fn lemma_value_wf(v: &Vec<u8>) {
        broadcast use vstd::std_specs::vec::axiom_spec_len;

        assert(v@.len() == v.len());
    }

    fn encode_value(v: &Vec<u8>) -> Result<Vec<u8>, LedgerError> {
        bincode_encode_bytes(v)
    }

    fn decode_value(b: &[u8]) -> Result<Vec<u8>, LedgerError> {
        bincode_decode_bytes(b)
    }
}

impl ProtobufColumn for Transactions {
    type Type = Vec<u8>;

    open spec fn spec_proto_bytes(v: Seq<u8>) -> Seq<u8> {
        prost_bytes_enc(v)
    }

    open spec fn spec_proto_of(b: Seq<u8>) -> Option<Seq<u8>> {
        prost_bytes_dec(b)
    }

    fn encode_proto(v: &Vec<u8>) -> Result<Vec<u8>, LedgerError> {
        prost_encode_bytes(v)
    }

    fn decode_proto(b: &[u8]) -> Result<Vec<u8>, LedgerError> {
        prost_decode_bytes(b)
    }
}

impl ColumnName for TransactionStatus {
    open spec fn spec_name() -> Seq<char> {
        "transaction_status"@
    }

    fn name() -> (r: &'static str) {
        "transaction_status"
    }
}

impl Column for TransactionStatus {
    type Index = (u64, u32);

    open spec fn spec_kind() -> ColumnKind {
        ColumnKind::TransactionStatus
    }

    open spec fn spec_key(i: (u64, u32)) -> Seq<u8> {
        composite_key(i.0, i.1)
    }

    open spec fn spec_index_of(k: Seq<u8>) -> Option<(u64, u32)> {
        composite_index_of(k)
    }

    open spec fn spec_slot(i: (u64, u32)) -> u64 {
        i.0
    }

    open spec fn spec_slot_start(slot: u64) -> (u64, u32) {
        (slot, 0u32)
    }

    proof fn lemma_key_roundtrip(i: (u64, u32)) {
        lemma_composite_key_roundtrip(i.0, i.1);
    }

    proof fn lemma_slot_key_bounds(s: u64, i: (u64, u32)) {
        lemma_composite_slot_bounds(s, i.0, i.1);
    }

    fn kind() -> ColumnKind {
        ColumnKind::TransactionStatus
    }

    fn key(i: &(u64, u32)) -> Vec<u8> {
        encode_composite_key(i)
    }

    fn try_index(k: &[u8]) -> Option<(u64, u32)> {
        try_composite_index(k)
    }

    fn slot_start(slot: u64) -> (u64, u32) {
        (slot, 0u32)
    }
}

impl TypedColumn for TransactionStatus {
    type Type = Vec<u8>;

    open spec fn spec_value_bytes(v: Seq<u8>) -> Seq<u8> {
        bincode_bytes_bytes(v)
    }

    open spec fn spec_value_of(b: Seq<u8>) -> Option<Seq<u8>> {
        bincode_bytes_of(b)
    }

    open spec fn spec_value_wf(v: Seq<u8>) -> bool {
        v.len() <= usize::MAX
    }

    proof fn lemma_value_roundtrip(v: Seq<u8>) {
        lemma_bincode_bytes_roundtrip(v);
    }

    proof fn lemma_value_wf(v: &Vec<u8>) {
        broadcast use vstd::std_specs::vec::axiom_spec_len;

        assert(v@.len() == v.len());
    }

    fn encode_value(v: &Vec<u8>) -> Result<Vec<u8>, LedgerError> {
        bincode_encode_bytes(v)
    }

    fn decode_value(b: &[u8]) -> Result<Vec<u8>, LedgerError> {
        bincode_decode_bytes(b)
    }
}

impl ProtobufColumn for TransactionStatus {
    type Type = Vec<u8>;

    open spec fn spec_proto_bytes(v: Seq<u8>) -> Seq<u8> {
        prost_bytes_enc(v)
    }

    open spec fn spec_proto_of(b: Seq<u8>) -> Option<Seq<u8>> {
        prost_bytes_dec(b)
    }

    fn encode_proto(v: &Vec<u8>) -> Result<Vec<u8>, LedgerError> {
        prost_encode_bytes(v)
    }

    fn decode_proto(b: &[u8]) -> Result<Vec<u8>, LedgerError> {
        prost_decode_bytes(b)
    }
}

impl ColumnName for CleanupMeta {
    open spec fn spec_name() -> Seq<char> {
        "cleanup_meta"@
    }

    fn name() -> (r: &'static str) {
        "cleanup_meta"
    }
}

impl Column for CleanupMeta {
    type Index = u64;

    open spec fn spec_kind() -> ColumnKind {
        ColumnKind::CleanupMeta
    }

    open spec fn spec_key(i: u64) -> Seq<u8> {
        u64_be_bytes(i)
    }

    open spec fn spec_index_of(k: Seq<u8>) -> Option<u64> {
        if k.len() == 8 {
            Some(u64_from_be(k))
        } else {
            None
        }
    }

    open spec fn spec_slot(i: u64) -> u64 {
        i
    }

    open spec fn spec_slot_start(slot: u64) -> u64 {
        slot
    }

    proof fn lemma_key_roundtrip(i: u64) {
        lemma_u64_be_roundtrip(i);
    }

    proof fn lemma_slot_key_bounds(s: u64, i: u64) {
        if s < i {
            lemma_u64_be_order(s, i);
        } else if i < s {
            lemma_u64_be_order(i, s);
        }
    }

    fn kind() -> ColumnKind {
        ColumnKind::CleanupMeta
    }

    fn key(i: &u64) -> Vec<u8> {
        encode_u64_be(*i)
    }

    fn try_index(k: &[u8]) -> Option<u64> {
        if k.len() == 8 {
            Some(decode_u64_be(k))
        } else {
            None
        }
    }

    fn slot_start(slot: u64) -> u64 {
        slot
    }
}

impl TypedColumn for CleanupMeta {
    type Type = u64;

    open spec fn spec_value_bytes(v: u64) -> Seq<u8> {
        bincode_u64_bytes(v)
    }

    open spec fn spec_value_of(b: Seq<u8>) -> Option<u64> {
        bincode_u64_of(b)
    }

    open spec fn spec_value_wf(v: u64) -> bool {
        true
    }

    proof fn lemma_value_wf(v: &u64) {
    }

    proof fn lemma_value_roundtrip(v: u64) {
        assert(bincode_u64_bytes(v).take(8) =~= bincode_u64_bytes(v));
        lemma_u64_le_roundtrip(v);
    }

    fn encode_value(v: &u64) -> Result<Vec<u8>, LedgerError> {
        bincode_encode_u64(*v)
    }

    fn decode_value(b: &[u8]) -> Result<u64, LedgerError> {
        bincode_decode_u64(b)
    }
}

/// The compact-binary byte-string codec round-trips.
pub proof fn lemma_bincode_bytes_roundtrip(v: Seq<u8>)
    requires
        v.len() <= usize::MAX,
    ensures
        bincode_bytes_of(bincode_bytes_bytes(v)) == Some(v),
{
    let b = bincode_bytes_bytes(v);
    assert(b.len() == 8 + v.len());
    assert(b.take(8) =~= crate::byte_order::u64_le_bytes(v.len() as u64));
    lemma_u64_le_roundtrip(v.len() as u64);
    assert(b.subrange(8, 8 + v.len() as int) =~= v);
}

} // verus!
