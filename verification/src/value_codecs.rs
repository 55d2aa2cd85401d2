//! Value codecs over outside serializers: the compact-binary discipline
//! (fixed-width little-endian integers; a byte string framed by its 64-bit
//! length) and the schema-based discipline (protobuf wrapper values).

use vstd::prelude::*;
use crate::byte_order::u64_from_le;
use crate::byte_order::u64_le_bytes;
use crate::errors::LedgerError;

verus! {

/// Compact-binary layout of a 64-bit integer: eight little-endian bytes.
pub open spec fn bincode_u64_bytes(v: u64) -> Seq<u8> {
    u64_le_bytes(v)
}

/// Compact-binary decoding of a 64-bit integer: the first eight bytes,
/// little-endian; trailing bytes are ignored; shorter inputs are malformed.
pub open spec fn bincode_u64_of(b: Seq<u8>) -> Option<u64> {
    if b.len() >= 8 {
        Some(u64_from_le(b.take(8)))
    } else {
        None
    }
}

/// Compact-binary layout of a byte string: its length as eight
/// little-endian bytes, then the bytes themselves.
pub open spec fn bincode_bytes_bytes(v: Seq<u8>) -> Seq<u8> {
    u64_le_bytes(v.len() as u64) + v
}

/// Compact-binary decoding of a byte string; trailing bytes are ignored.
pub open spec fn bincode_bytes_of(b: Seq<u8>) -> Option<Seq<u8>> {
    if b.len() >= 8 {
        let l = u64_from_le(b.take(8));
        if 8 + l <= b.len() {
            Some(b.subrange(8, 8 + l))
        } else {
            None
        }
    } else {
        None
    }
}

/// Relies on `bincode::serialize` under its default configuration, which
/// writes a `u64` as eight little-endian bytes and cannot fail on a
/// growable buffer.
#[verifier::external_body]
pub fn bincode_encode_u64(v: u64) -> (r: Result<Vec<u8>, LedgerError>)
    ensures
        r is Ok,
        r matches Ok(b) ==> b@ == bincode_u64_bytes(v),
{
    bincode::serialize(&v).map_err(|_| LedgerError::Encode)
}

/// Relies on `bincode::deserialize` under its default configuration, which
/// reads a `u64` from the first eight bytes, little-endian, accepts
/// trailing bytes, and fails on shorter input.
#[verifier::external_body]
pub fn bincode_decode_u64(b: &[u8]) -> (r: Result<u64, LedgerError>)
    ensures
        r is Ok <==> bincode_u64_of(b@) is Some,
        r matches Ok(v) ==> bincode_u64_of(b@) == Some(v),
        r matches Err(e) ==> e == LedgerError::Decode,
{
    bincode::deserialize::<u64>(b).map_err(|_| LedgerError::Decode)
}

/// Relies on `bincode::serialize` under its default configuration, which
/// writes a byte vector as its 64-bit little-endian length followed by the
/// bytes, and cannot fail on a growable buffer.
#[verifier::external_body]
pub fn bincode_encode_bytes(v: &Vec<u8>) -> (r: Result<Vec<u8>, LedgerError>)
    ensures
        r is Ok,
        r matches Ok(b) ==> b@ == bincode_bytes_bytes(v@),
{
    bincode::serialize(v).map_err(|_| LedgerError::Encode)
}

/// Relies on `bincode::deserialize` under its default configuration, which
/// reads a 64-bit little-endian length and then that many bytes, accepts
/// trailing bytes, and fails on shorter input.
#[verifier::external_body]
pub fn bincode_decode_bytes(b: &[u8]) -> (r: Result<Vec<u8>, LedgerError>)
    ensures
        r is Ok <==> bincode_bytes_of(b@) is Some,
        r matches Ok(v) ==> bincode_bytes_of(b@) == Some(v@),
        r matches Err(e) ==> e == LedgerError::Decode,
{
    bincode::deserialize::<Vec<u8>>(b).map_err(|_| LedgerError::Decode)
}

/// The bytes that the schema codec produces for a byte-string value; a
/// function of the value alone.
pub uninterp spec fn prost_bytes_enc(v: Seq<u8>) -> Seq<u8>;

/// The value, if any, that the schema codec reads back from given bytes; a
/// function of the bytes alone.
pub uninterp spec fn prost_bytes_dec(b: Seq<u8>) -> Option<Seq<u8>>;

/// Relies on prost's protobuf encoding of a byte-string value
/// (`google.protobuf.BytesValue`): deterministic in the value, and
/// encoding into a growable buffer succeeds.
#[verifier::external_body]
pub fn prost_encode_bytes(v: &Vec<u8>) -> (r: Result<Vec<u8>, LedgerError>)
    ensures
        r is Ok,
        r matches Ok(b) ==> b@ == prost_bytes_enc(v@),
{
    let mut buf: Vec<u8> = Vec::with_capacity(<Vec<u8> as prost::Message>::encoded_len(v));
    match <Vec<u8> as prost::Message>::encode(v, &mut buf) {
        Ok(()) => Ok(buf),
        Err(_) => Err(LedgerError::Encode),
    }
}

/// Relies on prost's protobuf decoding of a byte-string value: a function
/// of the input bytes alone, and the inverse of the encoding.
#[verifier::external_body]
pub fn prost_decode_bytes(b: &[u8]) -> (r: Result<Vec<u8>, LedgerError>)
    ensures
        r is Ok <==> prost_bytes_dec(b@) is Some,
        r matches Ok(v) ==> prost_bytes_dec(b@) == Some(v@),
        r matches Err(e) ==> e == LedgerError::Decode,
        r is Err ==> forall|w: Seq<u8>| b@ != prost_bytes_enc(w),
        r matches Ok(v) ==> forall|w: Seq<u8>| b@ == prost_bytes_enc(w) ==> v@ == w,
{
    <Vec<u8> as prost::Message>::decode(b).map_err(|_| LedgerError::Decode)
}

} // verus!
