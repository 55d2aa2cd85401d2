//! Error taxonomy for the storage layer: per-operation failures that the
//! caller sees, split by origin.

use vstd::prelude::*;

verus! {

/// An error from one storage operation.
///
/// `Storage` is an engine-level failure (I/O, corruption) reported by the
/// backend; `Decode` means stored bytes could not be parsed by the column's
/// codec; `Encode` means a value could not be serialized.
#[derive(Clone, Copy, Debug, PartialEq, Eq, Structural)]
pub enum LedgerError {
    Storage,
    Decode,
    Encode,
}

impl LedgerError {
    /// A short description, usable by callers that log or display errors.
    pub fn describe(&self) -> (r: &'static str)
        ensures
            r@ == self.spec_describe(),
    {
        match self {
            LedgerError::Storage => "storage engine failure",
            LedgerError::Decode => "stored bytes could not be decoded",
            LedgerError::Encode => "value could not be encoded",
        }
    }

    pub open spec fn spec_describe(self) -> Seq<char> {
        match self {
            LedgerError::Storage => "storage engine failure"@,
            LedgerError::Decode => "stored bytes could not be decoded"@,
            LedgerError::Encode => "value could not be encoded"@,
        }
    }
}

} // verus!
