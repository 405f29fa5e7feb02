//! Verified codec for a MySQL-compatible binary-log payload: a binary-JSON
//! (JSONB) decoder and a row-event rollback rewriter.
use vstd::prelude::*;

pub mod bytes;
pub mod jsonb;
pub mod laws;
pub mod rollback;

verus! {

/// Failures either codec reports instead of aborting.
#[derive(Clone, Copy, Debug, PartialEq, Eq, Structural)]
pub enum BinlogError {
    /// A declared size exceeds the remaining budget, a variable-length
    /// integer overflows, or a read runs past the buffer while decoding JSONB.
    CorruptPayload,
    /// A JSONB tag or a column type outside the closed enumeration.
    UnknownType,
    /// A row event whose body does not parse into complete records.
    MalformedEvent,
}

} // verus!
