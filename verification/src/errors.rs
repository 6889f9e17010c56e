//! The closed set of typed errors that reading and writing a SIR0 container
//! can produce. Every fallible step reports one of these values; no operation
//! panics, whatever the input.

use vstd::prelude::*;

verus! {

/// Everything that can go wrong while parsing a SIR0 container from bytes.
#[derive(Debug, Clone, PartialEq, Eq)]
pub enum Sir0Error {
    /// The input does not open with the four magic bytes. Carries the bytes
    /// actually found, zero-padded when the input is shorter than four bytes.
    InvalidMagic([u8; 4]),
    /// The input ends before the fixed 12-byte header is complete. Carries
    /// the input length. This stands where a streaming reader would surface
    /// an end-of-input transport failure.
    TruncatedHeader(u64),
    /// The pointer-table offset is smaller than the header offset, so the
    /// payload block would have negative length. Carries
    /// `(header_offset, pointer_table_offset)`.
    PointerBeforeHeader(u32, u32),
    /// The payload block `[start, start + length)` runs past the end of the
    /// input, so it cannot be copied out. Carries `(start, length)`.
    CloneHeaderError(u64, u64),
    /// The pointer-table offset is at or past `file_length - 1`, leaving no
    /// room for even a one-byte table plus the assumed trailing byte. Carries
    /// `(pointer_table_offset, file_length)`.
    PointerOffsetPostOrAtFileEnd(u64, u64),
    /// Folding one more decoded value into the running 64-bit absolute
    /// position (or into the 64-bit group accumulator) would overflow.
    /// Carries `(absolute position so far, value that could not be taken in)`.
    AbsolutePointerOverflow(u64, u64),
}

/// Everything that can go wrong while writing a SIR0 pointer-table footer.
#[derive(Debug, Clone, PartialEq, Eq)]
pub enum Sir0WriteFooterError {
    /// A position smaller than its predecessor was supplied; the input must
    /// be non-decreasing. Carries `(previous position, offending position)`.
    NotSorted(u32, u32),
}

} // verus!
