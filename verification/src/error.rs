//! Error taxonomy of the lottery core.
//!
//! Every failure of an operation is terminal for that operation: the caller
//! gets one of these values and the stored ledger is untouched.

use vstd::prelude::*;

verus! {

/// Why an operation on the ledger was refused.
#[derive(Clone, Copy, Debug, PartialEq, Eq, Structural)]
pub enum LotteryError {
    /// The instruction payload had an unknown tag or a body of the wrong length.
    InvalidPayload,
    /// The operation is not legal in the ledger's current lifecycle stage.
    InvalidState,
    /// The round already holds as many distinct participants as it admits.
    CapacityExceeded,
    /// A winner cannot be drawn from an empty participant pool.
    EmptyPool,
    /// Winner selection was asked for a pool of size zero.
    DegenerateInput,
    /// Settlement was asked for while no winner is recorded.
    WinnerUnset,
    /// The externally reported balance cannot cover the next transfer.
    InsufficientBalance,
    /// The ledger buffer is truncated or malformed.
    InvalidEncoding,
    /// A contributed amount would no longer fit in 64 bits.
    AmountOverflow,
}

/// Legacy error of the embedding program.
#[derive(Clone, Copy, Debug, PartialEq, Eq, Structural)]
pub enum EscrowError {
    /// The instruction data could not be understood.
    InvalidInstruction,
}

/// Numeric value of a sequence of decimal digits.
pub open spec fn dec_value(s: Seq<char>) -> int
    decreases s.len(),
{
    if s.len() == 0 {
        0
    } else {
        dec_value(s.drop_last()) * 10 + (s.last() as int - '0' as int)
    }
}

/// Whether every character of `s` is a decimal digit.
pub open spec fn all_digits(s: Seq<char>) -> bool {
    forall|i: int| 0 <= i < s.len() ==> '0' <= #[trigger] s[i] <= '9'
}

proof fn lemma_dec_value_bounds(s: Seq<char>)
    requires
        all_digits(s),
    ensures
        0 <= dec_value(s),
    decreases s.len(),
{
    if s.len() > 0 {
        assert(all_digits(s.drop_last()));
        lemma_dec_value_bounds(s.drop_last());
    }
}

/// Turns a string of decimal digits into a numeric error code.
pub fn create_u32_error(string: &str) -> (code: u32)
    requires
        string@.len() > 0,
        all_digits(string@),
        dec_value(string@) <= u32::MAX,
    ensures
        code == dec_value(string@),
{
    let n: usize = string.unicode_len();
    let mut acc: u64 = 0;
    let mut i: usize = 0;
    while i < n
        invariant
            0 <= i <= n,
            n == string@.len(),
            all_digits(string@),
            dec_value(string@) <= u32::MAX,
            acc == dec_value(string@.take(i as int)),
            acc <= u32::MAX,
        decreases n - i,
    {
        let c: char = string.get_char(i);
        proof {
            assert(string@.take(i + 1).drop_last() =~= string@.take(i as int));
            assert(string@.take(i + 1).last() == string@[i as int]);
            lemma_dec_prefix_le(string@, i + 1);
        }
        acc = acc * 10 + (c as u64 - '0' as u64);
        i = i + 1;
    }
    proof {
        assert(string@.take(n as int) =~= string@);
    }
    acc as u32
}

/// The value of a prefix of a digit string never exceeds the whole string's value.
proof fn lemma_dec_prefix_le(s: Seq<char>, i: int)
    requires
        all_digits(s),
        0 <= i <= s.len(),
    ensures
        dec_value(s.take(i)) <= dec_value(s),
    decreases s.len() - i,
{
    if i < s.len() {
        lemma_dec_prefix_le(s, i + 1);
        assert(s.take(i + 1).drop_last() =~= s.take(i));
        assert(s.take(i + 1).last() == s[i]);
        lemma_dec_value_bounds(s.take(i));
    } else {
        assert(s.take(i) =~= s);
    }
}

} // verus!
