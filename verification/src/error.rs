//! The ways in which reading edges can fail.

use vstd::prelude::*;

verus! {

/// Why a stream of edges ended before its input did. Each kind names the
/// record at which reading stopped by its index, counted from 0 at the
/// start of the input: as many records were read without fault before it.
#[derive(Debug, Clone, Copy, PartialEq, Eq, Structural)]
pub enum IngestError {
    /// The source of the records failed while record `record` was read.
    IoError { record: u64 },
    /// Record `record` does not denote an edge: it has not exactly two
    /// fields, or one of them is not a 32-bit unsigned decimal number.
    ParseError { record: u64 },
    /// The input holds more records than a 64-bit index can number: record
    /// `u64::MAX` was asked for.
    RecordLimit,
}

} // verus!
