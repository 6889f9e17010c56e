//! The SIR0 container: a fixed 12-byte header (four magic bytes plus two
//! little-endian 32-bit offsets), an opaque payload block, and the pointer
//! table that the codec decodes. Parsing validates the header fields with
//! checked arithmetic and never panics, whatever the input bytes.

use vstd::prelude::*;

use crate::arith::header_length;
use crate::arith::table_budget;
use crate::codec::decode_pointer_table;
use crate::codec::lemma_decode_table_non_decreasing;
use crate::codec::spec_decode_table;
use crate::codec::spec_non_decreasing;
use crate::errors::Sir0Error;
use crate::spec_magic;

verus! {

/// The little-endian 32-bit value stored at byte offset `i`.
pub open spec fn spec_read_le32(bytes: Seq<u8>, i: int) -> u32
    recommends
        0 <= i,
        i + 4 <= bytes.len(),
{
    (bytes[i] + bytes[i + 1] * 0x100 + bytes[i + 2] * 0x10000 + bytes[i + 3] * 0x1000000) as u32
}

/// The four bytes that encode `value` in little-endian order.
pub open spec fn spec_le32_bytes(value: u32) -> Seq<u8> {
    seq![
        (value % 0x100) as u8,
        ((value / 0x100) % 0x100) as u8,
        ((value / 0x10000) % 0x100) as u8,
        ((value / 0x1000000) % 0x100) as u8,
    ]
}

/// The input opens with the four magic bytes.
pub open spec fn spec_magic_ok(bytes: Seq<u8>) -> bool {
    bytes.len() >= 4 && bytes.subrange(0, 4) == spec_magic()
}

/// The first four bytes of the input, zero-padded when the input is
/// shorter: what [`Sir0Error::InvalidMagic`] carries.
pub open spec fn spec_magic_found(bytes: Seq<u8>) -> Seq<u8> {
    Seq::new(
        4,
        |i: int|
            if i < bytes.len() {
                bytes[i]
            } else {
                0u8
            },
    )
}

/// The `header_offset` field of the fixed header.
pub open spec fn spec_header_offset(bytes: Seq<u8>) -> u32 {
    spec_read_le32(bytes, 4)
}

/// The `pointer_table_offset` field of the fixed header.
pub open spec fn spec_pointer_offset(bytes: Seq<u8>) -> u32 {
    spec_read_le32(bytes, 8)
}

/// A parsed SIR0 container: the decoded absolute positions, the copied
/// payload block, and the full file bytes it was parsed from, kept so the
/// caller can read the data the positions point at.
#[derive(Debug)]
pub struct Sir0 {
    offsets: Vec<u64>,
    header: Vec<u8>,
    file: Vec<u8>,
}

impl Sir0 {
    /// The decoded absolute positions, in table order.
    pub closed spec fn spec_offsets(&self) -> Seq<u64> {
        self.offsets@
    }

    /// The copied payload block.
    pub closed spec fn spec_header(&self) -> Seq<u8> {
        self.header@
    }

    /// The full file bytes the container was parsed from.
    pub closed spec fn spec_file(&self) -> Seq<u8> {
        self.file@
    }

    /// Every parsed container satisfies this shape: the file is long enough
    /// for the fixed header, the payload block is exactly the declared range
    /// `[header_offset, pointer_table_offset)`, and the positions are what
    /// the codec decodes from the table region.
    pub open spec fn spec_wf(&self) -> bool {
        let file = self.spec_file();
        let h = spec_header_offset(file) as int;
        let p = spec_pointer_offset(file) as int;
        &&& spec_magic_ok(file)
        &&& file.len() >= 12
        &&& 0 <= h <= p
        &&& p + 1 < file.len()
        &&& self.spec_header() == file.subrange(h, p)
        &&& self.spec_header().len() == p - h
        &&& spec_decode_table(file.subrange(p, file.len() - 1)) == Ok::<Seq<u64>, Sir0Error>(
            self.spec_offsets(),
        )
        &&& spec_non_decreasing(self.spec_offsets())
    }

    /// Parse a SIR0 container out of the full bytes of a file. The magic,
    /// the two offset fields and the room left for the pointer table are
    /// validated with checked arithmetic; the payload block is copied out;
    /// the pointer table is decoded from `pointer_table_offset` up to, but
    /// not including, the last byte of the file. Every failure is one of the
    /// typed [`Sir0Error`] values; no input makes this panic.
    pub fn new(file: Vec<u8>) -> (r: Result<Sir0, Sir0Error>)
        ensures
            ({
                let n = file@.len() as int;
                let h = spec_header_offset(file@);
                let p = spec_pointer_offset(file@);
                &&& !spec_magic_ok(file@) ==> (r matches Err(e) && e matches
                    Sir0Error::InvalidMagic(m) && m@ == spec_magic_found(file@))
                &&& spec_magic_ok(file@) && n < 12 ==> r == Err::<Sir0, Sir0Error>(
                    Sir0Error::TruncatedHeader(n as u64),
                )
                &&& spec_magic_ok(file@) && n >= 12 && p < h ==> r == Err::<Sir0, Sir0Error>(
                    Sir0Error::PointerBeforeHeader(h, p),
                )
                &&& spec_magic_ok(file@) && n >= 12 && h < p && p > n ==> r == Err::<
                    Sir0,
                    Sir0Error,
                >(Sir0Error::CloneHeaderError(h as u64, (p - h) as u64))
                &&& spec_magic_ok(file@) && n >= 12 && h <= p && (h == p || p <= n) && p + 1 >= n
                    ==> r == Err::<Sir0, Sir0Error>(
                    Sir0Error::PointerOffsetPostOrAtFileEnd(p as u64, n as u64),
                )
                &&& spec_magic_ok(file@) && n >= 12 && h <= p && p + 1 < n ==> (match
                    spec_decode_table(file@.subrange(p as int, n - 1)) {
                    Ok(offsets) => r matches Ok(s) && s.spec_offsets() == offsets
                        && s.spec_header() == file@.subrange(h as int, p as int) && s.spec_file()
                        == file@ && s.spec_wf(),
                    Err(e) => r == Err::<Sir0, Sir0Error>(e),
                })
            }),
    {
        let n = file.len();
        let m0: u8 = if n > 0 {
            file[0]
        } else {
            0
        };
        let m1: u8 = if n > 1 {
            file[1]
        } else {
            0
        };
        let m2: u8 = if n > 2 {
            file[2]
        } else {
            0
        };
        let m3: u8 = if n > 3 {
            file[3]
        } else {
            0
        };
        if n < 4 || !(m0 == 0x53 && m1 == 0x49 && m2 == 0x52 && m3 == 0x30) {
            proof {
                if spec_magic_ok(file@) {
                    assert(file@.subrange(0, 4)[0] == file@[0]);
                    assert(file@.subrange(0, 4)[1] == file@[1]);
                    assert(file@.subrange(0, 4)[2] == file@[2]);
                    assert(file@.subrange(0, 4)[3] == file@[3]);
                }
                assert([m0, m1, m2, m3]@ =~= spec_magic_found(file@));
            }
            return Err(Sir0Error::InvalidMagic([m0, m1, m2, m3]));
        }
        proof {
            assert(file@.subrange(0, 4) =~= spec_magic());
        }
        if n < 12 {
            return Err(Sir0Error::TruncatedHeader(n as u64));
        }
        let header_offset = read_le32(&file, 4);
        let pointer_offset = read_le32(&file, 8);
        let header_len = match header_length(header_offset, pointer_offset) {
            Ok(l) => l,
            Err(e) => return Err(e),
        };
        if header_len > 0 && pointer_offset as u64 > n as u64 {
            return Err(
                Sir0Error::CloneHeaderError(header_offset as u64, header_len as u64),
            );
        }
        let remaining = match table_budget(pointer_offset as u64, n as u64) {
            Ok(b) => b,
            Err(e) => return Err(e),
        };
        let h = header_offset as usize;
        let p = pointer_offset as usize;
        let mut header: Vec<u8> = Vec::new();
        let mut j: usize = h;
        while j < p
            invariant
                h <= j <= p,
                p <= file@.len(),
                header@ == file@.subrange(h as int, j as int),
            decreases p - j,
        {
            header.push(file[j]);
            proof {
                assert(header@ =~= file@.subrange(h as int, j as int + 1));
            }
            j = j + 1;
        }
        let mut table: Vec<u8> = Vec::new();
        let mut k: usize = p;
        let table_end = n - 1;
        while k < table_end
            invariant
                p <= k <= table_end,
                table_end < file@.len(),
                table@ == file@.subrange(p as int, k as int),
            decreases table_end - k,
        {
            table.push(file[k]);
            proof {
                assert(table@ =~= file@.subrange(p as int, k as int + 1));
            }
            k = k + 1;
        }
        match decode_pointer_table(table.as_slice()) {
            Ok(offsets) => {
                proof {
                    lemma_decode_table_non_decreasing(table@);
                }
                Ok(Sir0 { offsets, header, file })
            },
            Err(e) => Err(e),
        }
    }

    /// How many absolute positions the pointer table decoded to.
    pub fn offsets_len(&self) -> (r: usize)
        ensures
            r == self.spec_offsets().len(),
    {
        self.offsets.len()
    }

    /// The position at `index`, in table order, or `None` when `index` is
    /// at or past [`Sir0::offsets_len`].
    pub fn offsets_get(&self, index: usize) -> (r: Option<&u64>)
        ensures
            index < self.spec_offsets().len() ==> (r matches Some(v) && *v
                == self.spec_offsets()[index as int]),
            index >= self.spec_offsets().len() ==> r is None,
    {
        if index < self.offsets.len() {
            Some(&self.offsets[index])
        } else {
            None
        }
    }

    /// The copied payload block, the bytes between the two declared offsets.
    /// Its contents are opaque to this crate.
    pub fn get_header(&self) -> (r: &Vec<u8>)
        ensures
            r@ == self.spec_header(),
    {
        &self.header
    }

    /// The full file the container was parsed from, with header and footer,
    /// handed out mutably so the caller can read the data the decoded
    /// positions point at. Whatever the caller does to it, the decoded
    /// positions and the copied payload block stay as they were.
    pub fn get_file(&mut self) -> (r: &mut Vec<u8>)
        ensures
            r@ == old(self).spec_file(),
            final(r)@ == final(self).spec_file(),
            final(self).spec_offsets() == old(self).spec_offsets(),
            final(self).spec_header() == old(self).spec_header(),
    {
        &mut self.file
    }
}

/// The little-endian 32-bit value stored at byte offset `i` of `bytes`.
fn read_le32(bytes: &Vec<u8>, i: usize) -> (r: u32)
    requires
        i + 4 <= bytes@.len(),
    ensures
        r == spec_read_le32(bytes@, i as int),
{
    let n = bytes.len();
    proof {
        assert(i + 4 <= n);
    }
    let b0 = bytes[i] as u32;
    let b1 = bytes[i + 1] as u32;
    let b2 = bytes[i + 2] as u32;
    let b3 = bytes[i + 3] as u32;
    b0 + b1 * 0x100 + b2 * 0x10000 + b3 * 0x1000000
}

/// Append the fixed 12-byte block that must stand at the start of every
/// SIR0 file: the four magic bytes, then `header_offset` and
/// `offset_offset` (the pointer-table offset), each as a little-endian
/// 32-bit value. The two values themselves are not validated; the caller
/// reserves these 12 bytes, writes header and footer behind them, and then
/// fills this block in once both offsets are known.
pub fn write_sir0_header(file: &mut Vec<u8>, header_offset: u32, offset_offset: u32)
    ensures
        final(file)@ == old(file)@ + spec_magic() + spec_le32_bytes(header_offset)
            + spec_le32_bytes(offset_offset),
{
    file.push(0x53);
    file.push(0x49);
    file.push(0x52);
    file.push(0x30);
    push_le32(file, header_offset);
    push_le32(file, offset_offset);
    proof {
        assert(file@ =~= old(file)@ + spec_magic() + spec_le32_bytes(header_offset)
            + spec_le32_bytes(offset_offset));
    }
}

/// Append the four little-endian bytes of `value`.
fn push_le32(file: &mut Vec<u8>, value: u32)
    ensures
        final(file)@ == old(file)@ + spec_le32_bytes(value),
{
    file.push((value % 0x100) as u8);
    file.push(((value / 0x100) % 0x100) as u8);
    file.push(((value / 0x10000) % 0x100) as u8);
    file.push(((value / 0x1000000) % 0x100) as u8);
    proof {
        assert(file@ =~= old(file)@ + spec_le32_bytes(value));
    }
}

} // verus!
