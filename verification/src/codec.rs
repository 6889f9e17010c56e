//! The pointer-table codec: decoding a stream of delta-encoded,
//! continuation-bit-tagged bytes into an ordered sequence of absolute
//! positions, and encoding such a sequence back into that byte stream.
//!
//! Each table entry is the delta from the previous absolute position,
//! decomposed into 7-bit groups. Every byte of a group except the last
//! carries the continuation bit (the high bit); a standalone byte in
//! `1..=127` is a complete one-byte delta; a standalone zero byte terminates
//! the table.

use vstd::prelude::*;

use crate::arith::advance_position;
use crate::errors::Sir0Error;
use crate::errors::Sir0WriteFooterError;

verus! {

/// Largest value the 64-bit group accumulator may hold before folding in
/// another 7-bit chunk; one more fold from any value at or above this limit
/// would lose high bits.
pub const ACC_LIMIT: u64 = 0x200_0000_0000_0000;

/// What decoding a byte stream yields, one byte at a time, starting from
/// running absolute position `position`, group accumulator `acc`, and flag
/// `in_group` saying whether a multi-byte group is under construction.
///
/// * a byte with the high bit set folds its low 7 bits into the accumulator
///   and marks a group as open;
/// * a byte with the high bit clear that closes an open group folds its low
///   7 bits in, then adds the accumulator to the running position, which is
///   appended to the output;
/// * a standalone zero byte terminates the table;
/// * any other standalone byte is a complete one-byte delta.
///
/// Folding into an accumulator at or above [`ACC_LIMIT`], or adding a delta
/// that overflows the 64-bit running position, is a typed error, never a
/// wraparound.
pub open spec fn spec_decode_rec(bytes: Seq<u8>, position: u64, acc: u64, in_group: bool) -> Result<
    Seq<u64>,
    Sir0Error,
>
    decreases bytes.len(),
{
    if bytes.len() == 0 {
        Ok(Seq::empty())
    } else {
        let b = bytes[0];
        let rest = bytes.skip(1);
        if b >= 128 {
            if acc >= ACC_LIMIT {
                Err(Sir0Error::AbsolutePointerOverflow(position, acc))
            } else {
                spec_decode_rec(rest, position, (acc * 128 + (b - 128)) as u64, true)
            }
        } else if in_group {
            if acc >= ACC_LIMIT {
                Err(Sir0Error::AbsolutePointerOverflow(position, acc))
            } else {
                let delta = (acc * 128 + b) as u64;
                if position + delta > u64::MAX {
                    Err(Sir0Error::AbsolutePointerOverflow(position, delta))
                } else {
                    match spec_decode_rec(rest, (position + delta) as u64, 0, false) {
                        Ok(tail) => Ok(seq![(position + delta) as u64] + tail),
                        Err(e) => Err(e),
                    }
                }
            }
        } else if b == 0 {
            Ok(Seq::empty())
        } else {
            if position + b > u64::MAX {
                Err(Sir0Error::AbsolutePointerOverflow(position, b as u64))
            } else {
                match spec_decode_rec(rest, (position + b) as u64, 0, false) {
                    Ok(tail) => Ok(seq![(position + b) as u64] + tail),
                    Err(e) => Err(e),
                }
            }
        }
    }
}

/// What decoding a whole pointer table yields: the scan of
/// [`spec_decode_rec`] started from position 0 with an empty accumulator.
pub open spec fn spec_decode_table(bytes: Seq<u8>) -> Result<Seq<u64>, Sir0Error> {
    spec_decode_rec(bytes, 0, 0, false)
}

/// `prefix` of already-decoded positions glued onto the outcome of decoding
/// the remaining bytes.
pub open spec fn spec_prepend_decoded(prefix: Seq<u64>, r: Result<Seq<u64>, Sir0Error>) -> Result<
    Seq<u64>,
    Sir0Error,
> {
    match r {
        Ok(tail) => Ok(prefix + tail),
        Err(e) => Err(e),
    }
}

/// Decode a pointer table from `bytes`, consuming at most the whole slice
/// and stopping early at a standalone zero byte. Returns the ordered
/// sequence of absolute positions, or the typed error that the scan runs
/// into; it never panics, whatever the input.
pub fn decode_pointer_table(bytes: &[u8]) -> (r: Result<Vec<u64>, Sir0Error>)
    ensures
        match r {
            Ok(v) => spec_decode_table(bytes@) == Ok::<Seq<u64>, Sir0Error>(v@),
            Err(e) => spec_decode_table(bytes@) == Err::<Seq<u64>, Sir0Error>(e),
        },
{
    let n = bytes.len();
    let mut out: Vec<u64> = Vec::new();
    let mut position: u64 = 0;
    let mut acc: u64 = 0;
    let mut in_group: bool = false;
    let mut i: usize = 0;
    proof {
        assert(bytes@.skip(0) =~= bytes@);
        let r0 = spec_decode_rec(bytes@, 0, 0, false);
        assert(spec_prepend_decoded(Seq::<u64>::empty(), r0) == r0) by {
            if r0 is Ok {
                assert(Seq::<u64>::empty() + r0->Ok_0 =~= r0->Ok_0);
            }
        };
    }
    while i < n
        invariant
            i <= n,
            n == bytes@.len(),
            !in_group ==> acc == 0,
            spec_decode_table(bytes@) == spec_prepend_decoded(
                out@,
                spec_decode_rec(bytes@.skip(i as int), position, acc, in_group),
            ),
        decreases n - i,
    {
        let ghost rest0 = bytes@.skip(i as int);
        let ghost rest1 = bytes@.skip(i as int + 1);
        let ghost a0 = acc;
        let ghost g0 = in_group;
        proof {
            assert(rest0.len() > 0);
            assert(rest0[0] == bytes@[i as int]);
            assert(rest0.skip(1) =~= rest1);
        }
        let b = bytes[i];
        if b >= 128 {
            if acc >= ACC_LIMIT {
                return Err(Sir0Error::AbsolutePointerOverflow(position, acc));
            }
            acc = acc * 128 + ((b - 128) as u64);
            in_group = true;
            proof {
                assert(spec_decode_rec(rest0, position, a0, g0) == spec_decode_rec(
                    rest1,
                    position,
                    acc,
                    true,
                ));
            }
        } else if in_group {
            if acc >= ACC_LIMIT {
                return Err(Sir0Error::AbsolutePointerOverflow(position, acc));
            }
            let delta = acc * 128 + (b as u64);
            let next = match advance_position(position, delta) {
                Ok(p) => p,
                Err(e) => return Err(e),
            };
            proof {
                assert(spec_decode_rec(rest0, position, a0, g0) == spec_prepend_decoded(
                    seq![next],
                    spec_decode_rec(rest1, next, 0, false),
                ));
                lemma_prepend_shifts(out@, next, spec_decode_rec(rest1, next, 0, false));
            }
            out.push(next);
            position = next;
            acc = 0;
            in_group = false;
        } else if b == 0 {
            proof {
                assert(out@ + Seq::<u64>::empty() =~= out@);
            }
            return Ok(out);
        } else {
            let next = match advance_position(position, b as u64) {
                Ok(p) => p,
                Err(e) => return Err(e),
            };
            proof {
                assert(spec_decode_rec(rest0, position, a0, g0) == spec_prepend_decoded(
                    seq![next],
                    spec_decode_rec(rest1, next, 0, false),
                ));
                lemma_prepend_shifts(out@, next, spec_decode_rec(rest1, next, 0, false));
            }
            out.push(next);
            position = next;
        }
        i = i + 1;
    }
    proof {
        assert(bytes@.skip(n as int) =~= Seq::<u8>::empty());
        assert(out@ + Seq::<u64>::empty() =~= out@);
    }
    Ok(out)
}

/// The bytes of the leading groups of one encoded delta: the base-128 digits
/// of `q`, most significant first, each carrying the continuation bit.
pub open spec fn spec_encode_cont(q: u32) -> Seq<u8>
    recommends
        q >= 1,
    decreases q,
{
    if q < 128 {
        seq![(q + 128) as u8]
    } else {
        spec_encode_cont(q / 128) + seq![((q % 128) + 128) as u8]
    }
}

/// The bytes that encode one delta: nothing for a zero delta, a single
/// standalone byte for a delta below 128, and otherwise the leading groups
/// with the continuation bit followed by the final group with the high bit
/// clear.
pub open spec fn spec_encode_delta(delta: u32) -> Seq<u8> {
    if delta == 0 {
        Seq::empty()
    } else if delta < 128 {
        seq![delta as u8]
    } else {
        spec_encode_cont(delta / 128) + seq![(delta % 128) as u8]
    }
}

/// The bytes that encoding the positions of `list` emits, starting from the
/// running value `previous`; emission stops at the first position that is
/// smaller than its predecessor.
pub open spec fn spec_footer_bytes(list: Seq<u32>, previous: u32) -> Seq<u8>
    decreases list.len(),
{
    if list.len() == 0 {
        Seq::empty()
    } else if list[0] < previous {
        Seq::empty()
    } else {
        spec_encode_delta((list[0] - previous) as u32) + spec_footer_bytes(list.skip(1), list[0])
    }
}

/// The error that encoding the positions of `list` reports, starting from
/// the running value `previous`: the first position smaller than its
/// predecessor, or nothing when the list is non-decreasing.
pub open spec fn spec_footer_err(list: Seq<u32>, previous: u32) -> Option<Sir0WriteFooterError>
    decreases list.len(),
{
    if list.len() == 0 {
        None
    } else if list[0] < previous {
        Some(Sir0WriteFooterError::NotSorted(previous, list[0]))
    } else {
        spec_footer_err(list.skip(1), list[0])
    }
}

/// `list` never goes below the running value `previous`, nor below any
/// earlier element: the footer writer accepts it whole.
pub open spec fn spec_sorted_from(list: Seq<u32>, previous: u32) -> bool
    decreases list.len(),
{
    list.len() == 0 || (previous <= list[0] && spec_sorted_from(list.skip(1), list[0]))
}

/// The footer writer reports no error exactly on the lists it accepts whole.
pub proof fn lemma_footer_err_iff_sorted(list: Seq<u32>, previous: u32)
    ensures
        spec_footer_err(list, previous) is None <==> spec_sorted_from(list, previous),
    decreases list.len(),
{
    if list.len() > 0 && list[0] >= previous {
        lemma_footer_err_iff_sorted(list.skip(1), list[0]);
    }
}

/// Append the continuation-bit bytes of the leading groups of one delta:
/// the base-128 digits of `q`, most significant first, each with the high
/// bit set.
fn push_cont(file: &mut Vec<u8>, q: u32)
    requires
        q >= 1,
    ensures
        final(file)@ == old(file)@ + spec_encode_cont(q),
    decreases q,
{
    if q < 128 {
        file.push((q as u8) + 128);
        proof {
            assert(file@ =~= old(file)@ + spec_encode_cont(q));
        }
    } else {
        push_cont(file, q / 128);
        file.push(((q % 128) as u8) + 128);
        proof {
            assert(file@ =~= old(file)@ + spec_encode_cont(q));
        }
    }
}

/// Append the bytes that encode one delta: nothing for zero, one standalone
/// byte below 128, and otherwise the leading groups followed by the final
/// group with the high bit clear.
fn push_delta(file: &mut Vec<u8>, delta: u32)
    ensures
        final(file)@ == old(file)@ + spec_encode_delta(delta),
{
    if delta == 0 {
        proof {
            assert(file@ =~= old(file)@ + spec_encode_delta(delta));
        }
    } else if delta < 128 {
        file.push(delta as u8);
        proof {
            assert(file@ =~= old(file)@ + spec_encode_delta(delta));
        }
    } else {
        push_cont(file, delta / 128);
        file.push((delta % 128) as u8);
        proof {
            assert(file@ =~= old(file)@ + spec_encode_delta(delta));
        }
    }
}

/// Write a SIR0 pointer-table footer to `file` for the given list of
/// absolute positions, each encoded as the delta from its predecessor
/// (starting from 0) in base-128 groups. The list must be non-decreasing;
/// at the first position smaller than its predecessor the writer stops,
/// leaving the bytes of the earlier positions written, and reports
/// [`Sir0WriteFooterError::NotSorted`] with that pair. A zero delta emits
/// nothing. No terminator byte is appended.
pub fn write_sir0_footer(file: &mut Vec<u8>, list: &[u32]) -> (r: Result<
    (),
    Sir0WriteFooterError,
>)
    ensures
        final(file)@ == old(file)@ + spec_footer_bytes(list@, 0),
        match spec_footer_err(list@, 0) {
            None => r == Ok::<(), Sir0WriteFooterError>(()),
            Some(e) => r == Err::<(), Sir0WriteFooterError>(e),
        },
        r is Ok <==> spec_sorted_from(list@, 0),
{
    let n = list.len();
    let mut previous: u32 = 0;
    let mut j: usize = 0;
    proof {
        assert(list@.skip(0) =~= list@);
    }
    while j < n
        invariant
            j <= n,
            n == list@.len(),
            previous == if j == 0 {
                0u32
            } else {
                list@[j as int - 1]
            },
            old(file)@ + spec_footer_bytes(list@, 0) == file@ + spec_footer_bytes(
                list@.skip(j as int),
                previous,
            ),
            spec_footer_err(list@, 0) == spec_footer_err(list@.skip(j as int), previous),
        decreases n - j,
    {
        let ghost restj = list@.skip(j as int);
        proof {
            assert(restj[0] == list@[j as int]);
            assert(restj.skip(1) =~= list@.skip(j as int + 1));
        }
        let position = list[j];
        if position < previous {
            proof {
                assert(spec_footer_bytes(restj, previous) == Seq::<u8>::empty());
                assert(file@ + Seq::<u8>::empty() =~= file@);
                lemma_footer_err_iff_sorted(list@, 0);
            }
            return Err(Sir0WriteFooterError::NotSorted(previous, position));
        }
        let delta = position - previous;
        let ghost fpre = file@;
        let ghost tail = spec_footer_bytes(list@.skip(j as int + 1), position);
        push_delta(file, delta);
        proof {
            assert(spec_footer_bytes(restj, previous) == spec_encode_delta(delta) + tail);
            assert(fpre + (spec_encode_delta(delta) + tail) =~= (fpre + spec_encode_delta(delta))
                + tail);
        }
        previous = position;
        j = j + 1;
    }
    proof {
        assert(list@.skip(n as int) =~= Seq::<u32>::empty());
        assert(file@ + Seq::<u8>::empty() =~= file@);
        lemma_footer_err_iff_sorted(list@, 0);
    }
    Ok(())
}

/// `list` climbs strictly from the running value `previous`: every delta the
/// encoder emits for it is at least 1, so no entry encodes to nothing.
pub open spec fn spec_strict_from(list: Seq<u32>, previous: u32) -> bool
    decreases list.len(),
{
    list.len() == 0 || (previous < list[0] && spec_strict_from(list.skip(1), list[0]))
}

/// A strictly climbing list is in particular non-decreasing, so the footer
/// writer accepts it whole.
pub proof fn lemma_strict_implies_sorted(list: Seq<u32>, previous: u32)
    requires
        spec_strict_from(list, previous),
    ensures
        spec_sorted_from(list, previous),
    decreases list.len(),
{
    if list.len() > 0 {
        lemma_strict_implies_sorted(list.skip(1), list[0]);
    }
}

/// Decoding the continuation-bit bytes of one delta folds their 7-bit
/// chunks into the accumulator: afterwards the scan stands on the remaining
/// bytes with the accumulator holding exactly `q` and a group open.
proof fn lemma_decode_cont(q: u32, position: u64, in_group: bool, rest: Seq<u8>)
    requires
        1 <= q,
    ensures
        spec_decode_rec(spec_encode_cont(q) + rest, position, 0, in_group) == spec_decode_rec(
            rest,
            position,
            q as u64,
            true,
        ),
    decreases q,
{
    if q < 128 {
        assert((spec_encode_cont(q) + rest).skip(1) =~= rest);
    } else {
        let b = (((q % 128) + 128) as u8);
        lemma_decode_cont(q / 128, position, in_group, seq![b] + rest);
        assert(spec_encode_cont(q) + rest =~= spec_encode_cont(q / 128) + (seq![b] + rest));
        assert((seq![b] + rest).skip(1) =~= rest);
        assert((q / 128) as u64 * 128 + (b - 128) == q as u64);
    }
}

/// Decoding the bytes of one encoded positive delta appends exactly the new
/// absolute position and leaves the scan on the remaining bytes, with the
/// accumulator empty and no group open.
proof fn lemma_decode_delta(delta: u32, position: u64, rest: Seq<u8>)
    requires
        1 <= delta,
        position + delta <= u64::MAX,
    ensures
        spec_decode_rec(spec_encode_delta(delta) + rest, position, 0, false)
            == spec_prepend_decoded(
            seq![(position + delta) as u64],
            spec_decode_rec(rest, (position + delta) as u64, 0, false),
        ),
{
    if delta < 128 {
        assert((spec_encode_delta(delta) + rest).skip(1) =~= rest);
    } else {
        let b = ((delta % 128) as u8);
        lemma_decode_cont(delta / 128, position, false, seq![b] + rest);
        assert(spec_encode_delta(delta) + rest =~= spec_encode_cont(delta / 128) + (seq![b]
            + rest));
        assert((seq![b] + rest).skip(1) =~= rest);
        assert((delta / 128) as u64 * 128 + b == delta as u64);
    }
}

/// Decoding what the encoder emitted for a strictly climbing list, starting
/// both sides from the same running value, yields exactly that list.
proof fn lemma_round_trip_rec(list: Seq<u32>, previous: u32)
    requires
        spec_strict_from(list, previous),
    ensures
        spec_decode_rec(spec_footer_bytes(list, previous), previous as u64, 0, false) == Ok::<
            Seq<u64>,
            Sir0Error,
        >(list.map_values(|x: u32| x as u64)),
    decreases list.len(),
{
    if list.len() == 0 {
        assert(Seq::<u32>::empty().map_values(|x: u32| x as u64) =~= Seq::<u64>::empty());
        assert(list.map_values(|x: u32| x as u64) =~= Seq::<u64>::empty());
    } else {
        let x = list[0];
        let delta = ((x - previous) as u32);
        let tail_bytes = spec_footer_bytes(list.skip(1), x);
        lemma_decode_delta(delta, previous as u64, tail_bytes);
        lemma_round_trip_rec(list.skip(1), x);
        assert(list.map_values(|x: u32| x as u64) =~= seq![x as u64] + list.skip(1).map_values(
            |x: u32| x as u64,
        ));
    }
}

/// Encoding a strictly climbing list of positions as a footer and decoding
/// the emitted bytes, with the whole byte run treated as the table,
/// reproduces exactly that list; and the footer writer accepts such a list
/// whole. Positions that repeat, and a first position of zero, are outside
/// this law: their delta is zero and encodes to no bytes at all.
pub proof fn lemma_encode_decode_round_trip(list: Seq<u32>)
    requires
        spec_strict_from(list, 0),
    ensures
        spec_footer_err(list, 0) is None,
        spec_decode_table(spec_footer_bytes(list, 0)) == Ok::<Seq<u64>, Sir0Error>(
            list.map_values(|x: u32| x as u64),
        ),
{
    lemma_strict_implies_sorted(list, 0);
    lemma_footer_err_iff_sorted(list, 0);
    lemma_round_trip_rec(list, 0);
}

/// `positions` never steps down: each entry is at least its predecessor.
pub open spec fn spec_non_decreasing(positions: Seq<u64>) -> bool {
    forall|i: int, j: int| 0 <= i <= j < positions.len() ==> positions[i] <= positions[j]
}

/// Whatever the decoder accepts is built as a running sum of non-negative
/// deltas: every decoded position is at least the starting position, and
/// the sequence never steps down.
proof fn lemma_decode_rec_non_decreasing(bytes: Seq<u8>, position: u64, acc: u64, in_group: bool)
    ensures
        spec_decode_rec(bytes, position, acc, in_group) matches Ok(s) ==> spec_non_decreasing(s)
            && (forall|i: int| 0 <= i < s.len() ==> position <= s[i]),
    decreases bytes.len(),
{
    if bytes.len() > 0 {
        let b = bytes[0];
        let rest = bytes.skip(1);
        if b >= 128 {
            if acc < ACC_LIMIT {
                lemma_decode_rec_non_decreasing(
                    rest,
                    position,
                    (acc * 128 + (b - 128)) as u64,
                    true,
                );
            }
        } else if in_group {
            if acc < ACC_LIMIT {
                let delta = (acc * 128 + b) as u64;
                if position + delta <= u64::MAX {
                    lemma_decode_rec_non_decreasing(rest, (position + delta) as u64, 0, false);
                }
            }
        } else if b != 0 {
            if position + b <= u64::MAX {
                lemma_decode_rec_non_decreasing(rest, (position + b) as u64, 0, false);
            }
        }
    }
}

/// The decoded sequence of absolute positions is non-decreasing: it is a
/// running sum, from zero, of the non-negative deltas the table encodes.
pub proof fn lemma_decode_table_non_decreasing(bytes: Seq<u8>)
    ensures
        spec_decode_table(bytes) matches Ok(s) ==> spec_non_decreasing(s),
{
    lemma_decode_rec_non_decreasing(bytes, 0, 0, false);
}

/// Decoding any byte stream that opens with a standalone zero byte — the
/// table terminator — yields the empty sequence of positions and succeeds.
pub proof fn lemma_leading_terminator(bytes: Seq<u8>)
    requires
        bytes.len() > 0,
        bytes[0] == 0,
    ensures
        spec_decode_table(bytes) == Ok::<Seq<u64>, Sir0Error>(Seq::empty()),
{
}

/// Gluing one more decoded position onto the prefix and then the tail is the
/// same as gluing the position onto the tail first.
proof fn lemma_prepend_shifts(prefix: Seq<u64>, value: u64, r: Result<Seq<u64>, Sir0Error>)
    ensures
        spec_prepend_decoded(prefix, spec_prepend_decoded(seq![value], r)) == spec_prepend_decoded(
            prefix.push(value),
            r,
        ),
{
    match r {
        Ok(tail) => {
            assert(prefix + (seq![value] + tail) =~= prefix.push(value) + tail);
        },
        Err(_) => {},
    }
}

} // verus!
