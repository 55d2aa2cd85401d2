//! The persistent storage core of a slot-indexed ledger: a typed,
//! verified layer over an ordered key-value store organized into named
//! column families, plus the truncation policy that bounds the ledger's
//! footprint without ever removing data that is not yet final.
//!
//! The pieces, leaf to root:
//!
//! - [`byte_order`]: the lexicographic key order and the order-preserving
//!   big-endian key codecs, with the proofs that slot order and key order
//!   agree.
//! - [`kv_store`]: the ordered store itself, a key-sorted association
//!   vector with point reads and writes, half-open range deletes and
//!   ordered scans, all specified against the sorted association
//!   sequence.
//! - [`value_codecs`]: the compact-binary value codec (exact, fixed
//!   little-endian layouts) and the schema-based codec, called through
//!   outside serializers.
//! - [`columns`]: the layered column capabilities — key codec, added
//!   compact-binary value codec, added schema codec with legacy fallback —
//!   and the concrete column families.
//! - [`ledger_column`]: the operational handle of one column family:
//!   typed reads and writes, batched lookups, ordered iteration, the
//!   cached entry counter and its laws.
//! - [`write_batch`] and [`backend`]: staged cross-column mutations,
//!   committed as one unit.
//! - [`ledger`]: the assembled store, including the persisted truncation
//!   low-watermark kept as ordinary column data.
//! - [`ledger_truncator`]: the maintenance policy — what to delete, when,
//!   and how much — with the proofs that truncation stays strictly below
//!   the finality watermark, that zero finality forbids it entirely, and
//!   that finality alone authorizes it whatever the size budget says.

pub mod backend;
pub mod byte_order;
pub mod columns;
pub mod errors;
pub mod iterator;
pub mod kv_store;
pub mod ledger;
pub mod ledger_column;
pub mod ledger_truncator;
pub mod value_codecs;
pub mod write_batch;

use vstd::prelude::*;

verus! {

} // verus!
