//! Winner derivation and sizing helpers.
//!
//! The winner index is derived from an opaque public entropy blob by a
//! fixed, side-effect-free algorithm, so that every evaluator that sees the
//! same blob and pool size computes the same index.

use vstd::prelude::*;
use vstd::bytes::{spec_u128_from_le_bytes, u128_from_le_bytes, u32_from_le_bytes,
    u64_from_le_bytes};
use vstd::arithmetic::div_mod::{lemma_fundamental_div_mod, lemma_mod_bound};
use vstd::slice::slice_subrange;
use crate::codec::{decode_spec, zero_bytes};
use crate::error::LotteryError;
use crate::state::LotteryState;

verus! {

/// Number of slices the entropy is cut into: one per whole 16-byte block,
/// or a single slice when the blob is shorter than one block.
pub open spec fn chunk_count(len: int) -> int {
    if len / 16 == 0 {
        1
    } else {
        len / 16
    }
}

/// Length of each slice.
pub open spec fn chunk_len(len: int) -> int {
    len / chunk_count(len)
}

/// Slice `i` of the entropy.
pub open spec fn chunk_at(b: Seq<u8>, i: int) -> Seq<u8> {
    b.subrange(i * chunk_len(b.len() as int), (i + 1) * chunk_len(b.len() as int))
}

/// Distance between the 4-byte windows drawn from a slice of 16 bytes or
/// more: a third of the spare length, and at least one.
pub open spec fn stride_of(len: int) -> int {
    if (len - 16) / 3 >= 1 {
        (len - 16) / 3
    } else {
        1
    }
}

/// The 16-byte digest of one slice.  A short slice is padded with zeros on
/// the right.  Otherwise the slice's first four bytes seed the digest and
/// three 4-byte windows, one stride apart, are appended to it when the
/// slice's index is even and prepended when it is odd.
pub open spec fn digest16(s: Seq<u8>, even: bool) -> Seq<u8> {
    if s.len() < 16 {
        s + zero_bytes((16 - s.len()) as nat)
    } else {
        let st = stride_of(s.len() as int);
        let seed = s.subrange(0, 4);
        let w1 = s.subrange(4 + st, 4 + st + 4);
        let w2 = s.subrange(4 + 2 * st, 4 + 2 * st + 4);
        let w3 = s.subrange(4 + 3 * st, 4 + 3 * st + 4);
        if even {
            seed + w1 + w2 + w3
        } else {
            w3 + w2 + w1 + seed
        }
    }
}

/// Slice `i`'s contribution: its digest read as a little-endian 128-bit
/// integer, reduced modulo the pool size.
pub open spec fn chunk_term(b: Seq<u8>, i: int, pool: u32) -> int {
    (spec_u128_from_le_bytes(digest16(chunk_at(b, i), i % 2 == 0)) as int) % (pool as int)
}

/// Sum of the contributions of the first `k` slices.
pub open spec fn term_sum(b: Seq<u8>, pool: u32, k: int) -> int
    decreases k,
{
    if k <= 0 {
        0
    } else {
        term_sum(b, pool, k - 1) + chunk_term(b, k - 1, pool)
    }
}

/// The derived winner index: the contribution sum, reduced modulo the pool
/// size once more.
pub open spec fn select_spec(b: Seq<u8>, pool: u32) -> int
    recommends
        pool > 0,
{
    term_sum(b, pool, chunk_count(b.len() as int)) % (pool as int)
}

fn push_window(d: &mut Vec<u8>, s: &[u8], off: usize) -> (r: ())
    requires
        off + 4 <= s@.len(),
    ensures
        final(d)@ == old(d)@ + s@.subrange(off as int, off as int + 4),
{
    let slen: usize = s.len();
    let w = slice_subrange(s, off, off + 4);
    d.extend_from_slice(w);
}

fn digest(slice: &[u8], even: bool) -> (d: Vec<u8>)
    ensures
        d@ == digest16(slice@, even),
        d@.len() == 16,
{
    let len: usize = slice.len();
    let mut d: Vec<u8> = Vec::new();
    if len < 16 {
        let mut k: usize = 0;
        while k < len
            invariant
                k <= len,
                len == slice@.len(),
                d@ == slice@.take(k as int),
            decreases len - k,
        {
            let byte = *vstd::slice::slice_index_get(slice, k);
            d.push(byte);
            proof {
                assert(d@ =~= slice@.take(k + 1));
            }
            k = k + 1;
        }
        proof {
            assert(slice@.take(len as int) =~= slice@);
        }
        while d.len() < 16
            invariant
                len == slice@.len() < 16,
                len <= d@.len() <= 16,
                d@ == slice@ + zero_bytes((d@.len() - len) as nat),
            decreases 16 - d@.len(),
        {
            d.push(0u8);
            proof {
                assert(d@ =~= slice@ + zero_bytes((d@.len() - len) as nat));
            }
        }
        proof {
            assert(d@ =~= digest16(slice@, even));
        }
    } else {
        proof {
            lemma_fundamental_div_mod(len - 16, 3);
            lemma_mod_bound(len - 16, 3);
        }
        let st: usize = if (len - 16) / 3 >= 1 {
            (len - 16) / 3
        } else {
            1
        };
        assert(4 + 3 * st + 4 <= len);
        if even {
            push_window(&mut d, slice, 0);
            push_window(&mut d, slice, 4 + st);
            push_window(&mut d, slice, 4 + 2 * st);
            push_window(&mut d, slice, 4 + 3 * st);
        } else {
            push_window(&mut d, slice, 4 + 3 * st);
            push_window(&mut d, slice, 4 + 2 * st);
            push_window(&mut d, slice, 4 + st);
            push_window(&mut d, slice, 0);
        }
        proof {
            assert(d@ =~= digest16(slice@, even));
        }
    }
    d
}

/// Derives the winner index from the entropy blob.  Free of side effects
/// and a function of its two arguments alone: identical `(input,
/// pool_size)` pairs yield the identical index on every evaluator.
pub fn calculate_random_number(input: &[u8], pool_size: u32) -> (winner: usize)
    requires
        pool_size > 0,
    ensures
        winner == select_spec(input@, pool_size),
        winner < pool_size,
{
    let len: usize = input.len();
    let chunks: usize = if len / 16 == 0 {
        1
    } else {
        len / 16
    };
    let single: usize = len / chunks;
    proof {
        lemma_fundamental_div_mod(len as int, chunks as int);
        lemma_mod_bound(len as int, chunks as int);
    }
    let mut sum: u128 = 0;
    let mut i: usize = 0;
    while i < chunks
        invariant
            i <= chunks,
            pool_size > 0,
            len == input@.len(),
            chunks == chunk_count(len as int),
            single == chunk_len(len as int),
            chunks * single <= len,
            sum == term_sum(input@, pool_size, i as int),
            sum <= (i as int) * 0xffff_ffff,
        decreases chunks - i,
    {
        proof {
            assert((i as int + 1) * single <= (chunks as int) * single) by (nonlinear_arith)
                requires
                    i as int + 1 <= chunks as int,
                    single >= 0,
            ;
            assert((i as int) * single <= (i as int + 1) * single) by (nonlinear_arith)
                requires
                    single >= 0,
            ;
        }
        let slice = slice_subrange(input, i * single, (i + 1) * single);
        let d = digest(slice, i % 2 == 0);
        let v = u128_from_le_bytes(d.as_slice());
        sum = sum + v % (pool_size as u128);
        i = i + 1;
    }
    (sum % (pool_size as u128)) as usize
}

/// Winner selection at its public boundary: refuses an empty pool.
pub fn select(entropy: &[u8], pool_size: u32) -> (r: Result<usize, LotteryError>)
    ensures
        match r {
            Ok(idx) => pool_size > 0 && idx == select_spec(entropy@, pool_size) && idx < pool_size,
            Err(e) => e == LotteryError::DegenerateInput && pool_size == 0,
        },
{
    if pool_size == 0 {
        return Err(LotteryError::DegenerateInput);
    }
    Ok(calculate_random_number(entropy, pool_size))
}

/// Bytes the backing region must offer for a round of `max_participants`
/// slots: the 45-byte header, the 4-byte entry count, and one 40-byte slot
/// per admissible participant.
pub fn calculate_lottery_account_size(max_participants: u32) -> (size: u64)
    ensures
        size == 49 + 40 * (max_participants as int),
{
    4 + 1 + 32 + 8 + 4 + (max_participants as u64) * 40
}

/// Whether one more participant could join the round stored in `data`: the
/// round must be in progress and must still have a free slot.
pub fn check_for_lottery_availability(data: &[u8]) -> (r: Result<(), LotteryError>)
    ensures
        match r {
            Ok(()) => {
                &&& decode_spec(data@) is Some
                &&& decode_spec(data@).unwrap().lottery_state == LotteryState::InProgress
                &&& decode_spec(data@).unwrap().participants.len() < decode_spec(
                    data@,
                ).unwrap().max_participants
            },
            Err(e) => match decode_spec(data@) {
                Some(l) => {
                    if l.lottery_state != LotteryState::InProgress {
                        e == LotteryError::InvalidState
                    } else {
                        e == LotteryError::CapacityExceeded && l.participants.len()
                            >= l.max_participants
                    }
                },
                None => e == LotteryError::InvalidEncoding,
            },
        },
{
    let account = match crate::codec::deserialize(data) {
        Ok(acc) => acc,
        Err(e) => { return Err(e) },
    };
    if !matches!(account.lottery_state, LotteryState::InProgress) {
        return Err(LotteryError::InvalidState);
    }
    if account.participants.len() as u64 >= account.max_participants as u64 {
        return Err(LotteryError::CapacityExceeded);
    }
    Ok(())
}

} // verus!
