//! Reader and writer for the SIR0 container format: a 12-byte fixed header
//! (magic plus two little-endian offsets), an opaque payload block, and a
//! delta-encoded table of absolute pointer positions.

mod arith;
mod codec;
mod errors;
mod sir0;

pub use arith::advance_position;
pub use arith::header_length;
pub use arith::table_budget;
pub use codec::decode_pointer_table;
pub use codec::lemma_decode_table_non_decreasing;
pub use codec::lemma_encode_decode_round_trip;
pub use codec::lemma_footer_err_iff_sorted;
pub use codec::lemma_leading_terminator;
pub use codec::lemma_strict_implies_sorted;
pub use codec::spec_decode_rec;
pub use codec::spec_decode_table;
pub use codec::spec_encode_cont;
pub use codec::spec_encode_delta;
pub use codec::spec_footer_bytes;
pub use codec::spec_footer_err;
pub use codec::spec_non_decreasing;
pub use codec::spec_prepend_decoded;
pub use codec::spec_sorted_from;
pub use codec::spec_strict_from;
pub use codec::write_sir0_footer;
pub use codec::ACC_LIMIT;
pub use errors::Sir0Error;
pub use errors::Sir0WriteFooterError;
pub use sir0::spec_header_offset;
pub use sir0::spec_le32_bytes;
pub use sir0::spec_magic_found;
pub use sir0::spec_magic_ok;
pub use sir0::spec_pointer_offset;
pub use sir0::spec_read_le32;
pub use sir0::write_sir0_header;
pub use sir0::Sir0;

use vstd::prelude::*;

verus! {

/// The four magic bytes that open every SIR0 file.
pub open spec fn spec_magic() -> Seq<u8> {
    seq![0x53u8, 0x49u8, 0x52u8, 0x30u8]
}

} // verus!
