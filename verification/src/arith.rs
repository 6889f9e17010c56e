//! Checked arithmetic over the container's offset fields: every subtraction
//! or addition that a hostile file could drive out of range returns a typed
//! error instead of wrapping or aborting.

use vstd::prelude::*;

use crate::errors::Sir0Error;

verus! {

/// Length of the payload block declared by the fixed header: the distance
/// from `header_offset` up to `pointer_offset`. Fails with
/// [`Sir0Error::PointerBeforeHeader`] when the pointer table is declared
/// before the header, which would make the length negative.
pub fn header_length(header_offset: u32, pointer_offset: u32) -> (r: Result<u32, Sir0Error>)
    ensures
        header_offset <= pointer_offset ==> r == Ok::<u32, Sir0Error>(
            (pointer_offset - header_offset) as u32,
        ),
        header_offset > pointer_offset ==> r == Err::<u32, Sir0Error>(
            Sir0Error::PointerBeforeHeader(header_offset, pointer_offset),
        ),
{
    if header_offset <= pointer_offset {
        Ok(pointer_offset - header_offset)
    } else {
        Err(Sir0Error::PointerBeforeHeader(header_offset, pointer_offset))
    }
}

/// Number of bytes available to the pointer-table decoder: everything from
/// `pointer_offset` up to, but not including, the last byte of the file.
/// Fails with [`Sir0Error::PointerOffsetPostOrAtFileEnd`] when the offset is
/// at or past `file_length - 1`, where no room remains for even a one-byte
/// table plus the assumed trailing byte.
pub fn table_budget(pointer_offset: u64, file_length: u64) -> (r: Result<u64, Sir0Error>)
    ensures
        pointer_offset + 1 < file_length ==> r == Ok::<u64, Sir0Error>(
            (file_length - pointer_offset - 1) as u64,
        ),
        pointer_offset + 1 >= file_length ==> r == Err::<u64, Sir0Error>(
            Sir0Error::PointerOffsetPostOrAtFileEnd(pointer_offset, file_length),
        ),
{
    if file_length >= 1 && pointer_offset < file_length - 1 {
        Ok(file_length - pointer_offset - 1)
    } else {
        Err(Sir0Error::PointerOffsetPostOrAtFileEnd(pointer_offset, file_length))
    }
}

/// Running absolute position plus one decoded delta. Fails with
/// [`Sir0Error::AbsolutePointerOverflow`] when the sum does not fit in 64
/// bits.
pub fn advance_position(position: u64, delta: u64) -> (r: Result<u64, Sir0Error>)
    ensures
        position + delta <= u64::MAX ==> r == Ok::<u64, Sir0Error>((position + delta) as u64),
        position + delta > u64::MAX ==> r == Err::<u64, Sir0Error>(
            Sir0Error::AbsolutePointerOverflow(position, delta),
        ),
{
    if delta <= u64::MAX - position {
        Ok(position + delta)
    } else {
        Err(Sir0Error::AbsolutePointerOverflow(position, delta))
    }
}

} // verus!
