//! The four operations of a round, and the instruction wire format.
//!
//! Every operation takes the decoded ledger value, validates the lifecycle
//! stage, and either mutates the value or fails with a typed error and the
//! value untouched.  Settlement additionally produces the two ordered
//! transfer directives the host must execute: the winner's payout first,
//! then the fee.

use vstd::prelude::*;
use vstd::bytes::{spec_u32_from_le_bytes, spec_u64_from_le_bytes, u32_from_le_bytes,
    u64_from_le_bytes};
use vstd::slice::{slice_index_get, slice_subrange, slice_to_vec};
use crate::error::LotteryError;
use crate::state::{LedgerV, LotteryAccount, LotteryState, Participant, Pubkey, has_key,
    key_index, keys_unique, lemma_key_index_of, lemma_total_donations_prefix, no_sentinel_key,
    sentinel, total_donations};
use crate::utils::{calculate_random_number, select_spec};

verus! {

/// One instruction, as carried on the wire after its tag byte.
#[derive(Debug)]
pub enum LotteryInstructions {
    /// Reset the round: capacity and start timestamp.
    StartLottery(u32, u64),
    /// Record a contribution of so many lamports by the calling identity.
    DonateInstruction(u64),
    /// Draw the winner from the given entropy blob.
    LaunchLottery(Vec<u8>),
    /// Settle the round and emit the transfer directives.
    CompleteLottery,
}

/// Mathematical image of an instruction.
pub ghost enum InstructionV {
    Start(u32, u64),
    Donate(u64),
    Launch(Seq<u8>),
    Complete,
}

impl View for LotteryInstructions {
    type V = InstructionV;

    open spec fn view(&self) -> InstructionV {
        match self {
            LotteryInstructions::StartLottery(cap, ts) => InstructionV::Start(*cap, *ts),
            LotteryInstructions::DonateInstruction(amount) => InstructionV::Donate(*amount),
            LotteryInstructions::LaunchLottery(entropy) => InstructionV::Launch(entropy@),
            LotteryInstructions::CompleteLottery => InstructionV::Complete,
        }
    }
}

/// What an instruction payload denotes: a tag byte, then a body whose
/// length is fixed for the start and donate tags, free for the launch tag,
/// and ignored for the complete tag.
pub open spec fn unpack_spec(s: Seq<u8>) -> Option<InstructionV> {
    if s.len() == 0 {
        None
    } else if s[0] == 0 {
        if s.len() == 13 {
            Some(
                InstructionV::Start(
                    spec_u32_from_le_bytes(s.subrange(1, 5)),
                    spec_u64_from_le_bytes(s.subrange(5, 13)),
                ),
            )
        } else {
            None
        }
    } else if s[0] == 1 {
        if s.len() == 9 {
            Some(InstructionV::Donate(spec_u64_from_le_bytes(s.subrange(1, 9))))
        } else {
            None
        }
    } else if s[0] == 2 {
        Some(InstructionV::Launch(s.subrange(1, s.len() as int)))
    } else if s[0] == 3 {
        Some(InstructionV::Complete)
    } else {
        None
    }
}

impl LotteryInstructions {
    /// Parses an instruction payload; a payload that denotes nothing is
    /// refused.
    pub fn unpack(input: &[u8]) -> (r: Result<LotteryInstructions, LotteryError>)
        ensures
            match r {
                Ok(ins) => unpack_spec(input@) == Some(ins@),
                Err(e) => e == LotteryError::InvalidPayload && unpack_spec(input@) is None,
            },
    {
        let len: usize = input.len();
        if len == 0 {
            return Err(LotteryError::InvalidPayload);
        }
        let tag = *slice_index_get(input, 0);
        match tag {
            0u8 => {
                if len != 13 {
                    return Err(LotteryError::InvalidPayload);
                }
                let max_participants = u32_from_le_bytes(slice_subrange(input, 1, 5));
                let unix_timestamp = u64_from_le_bytes(slice_subrange(input, 5, 13));
                Ok(LotteryInstructions::StartLottery(max_participants, unix_timestamp))
            },
            1u8 => {
                if len != 9 {
                    return Err(LotteryError::InvalidPayload);
                }
                let amount = u64_from_le_bytes(slice_subrange(input, 1, 9));
                Ok(LotteryInstructions::DonateInstruction(amount))
            },
            2u8 => {
                let entropy = slice_to_vec(slice_subrange(input, 1, len));
                Ok(LotteryInstructions::LaunchLottery(entropy))
            },
            3u8 => Ok(LotteryInstructions::CompleteLottery),
            _ => Err(LotteryError::InvalidPayload),
        }
    }
}

/// One transfer the host must execute after settlement.
#[derive(Clone, Copy, Debug, PartialEq, Eq, Structural)]
pub enum TransferDirective {
    /// Credit the winner identity with so many lamports.
    Payout(Pubkey, u64),
    /// Credit the round's authority with the fee.
    Fee(u64),
}

/// The fee retained at settlement: one percent of the total, truncated
/// toward zero.
pub open spec fn fee_of(total: u64) -> int {
    (total as int) / 100
}

/// What the winner receives: the total minus the fee.
pub open spec fn payout_of(total: u64) -> int {
    total - fee_of(total)
}

/// Splits the total contributed amount into the winner's payout and the
/// fee.  Integer arithmetic only, and the two parts always rebuild the
/// total exactly.
pub fn settle(total: u64) -> (r: (u64, u64))
    ensures
        r.0 == payout_of(total),
        r.1 == fee_of(total),
        r.0 + r.1 == total,
{
    proof {
        assert((total as int) / 100 <= total as int) by (nonlinear_arith)
            requires
                total >= 0,
        ;
        assert((total as int) / 100 >= 0) by (nonlinear_arith)
            requires
                total >= 0,
        ;
    }
    let fee: u64 = total / 100;
    (total - fee, fee)
}

/// The ledger right after a (re)start: empty table, no winner, the given
/// capacity and start time, stage in-progress.
pub open spec fn start_spec(max_participants: u32, unix_timestamp: u64) -> LedgerV {
    LedgerV {
        max_participants,
        lottery_state: LotteryState::InProgress,
        winner: sentinel(),
        lottery_start: unix_timestamp,
        participants: Seq::empty(),
    }
}

/// What a donation does to the ledger.  Legal only in progress with a free
/// slot; a donor already present accumulates into its one entry; a new
/// donor fills a slot, and filling the last slot closes the betting.
pub open spec fn donate_spec(l: LedgerV, donor: Pubkey, amount: u64) -> Result<
    LedgerV,
    LotteryError,
>
    recommends
        donor != sentinel(),
{
    if l.lottery_state != LotteryState::InProgress {
        Err(LotteryError::InvalidState)
    } else if l.participants.len() >= l.max_participants {
        Err(LotteryError::CapacityExceeded)
    } else if has_key(l.participants, donor) {
        let j = key_index(l.participants, donor);
        if l.participants[j].amount + amount > u64::MAX {
            Err(LotteryError::AmountOverflow)
        } else {
            Ok(
                LedgerV {
                    participants: l.participants.update(
                        j,
                        Participant {
                            key: donor,
                            amount: (l.participants[j].amount + amount) as u64,
                        },
                    ),
                    ..l
                },
            )
        }
    } else {
        let grown = l.participants.push(Participant { key: donor, amount });
        Ok(
            LedgerV {
                participants: grown,
                lottery_state: if grown.len() >= l.max_participants {
                    LotteryState::BetsClosed
                } else {
                    LotteryState::InProgress
                },
                ..l
            },
        )
    }
}

/// What launching does to the ledger: legal only once betting is closed and
/// the pool is non-empty; the winner index is derived from the entropy and
/// mapped onto the table's stored order.
pub open spec fn launch_spec(l: LedgerV, entropy: Seq<u8>) -> Result<LedgerV, LotteryError> {
    if l.lottery_state != LotteryState::BetsClosed {
        Err(LotteryError::InvalidState)
    } else if l.participants.len() == 0 {
        Err(LotteryError::EmptyPool)
    } else {
        Ok(
            LedgerV {
                winner: l.participants[select_spec(
                    entropy,
                    l.participants.len() as u32,
                )].key,
                lottery_state: LotteryState::Launched,
                ..l
            },
        )
    }
}

/// What completing does: legal only once launched with a winner on record.
/// The settlement amounts come from the recorded total, but sufficiency is
/// judged against the externally reported balance — for the fee, against
/// that balance less the payout already directed.  On success the winner's
/// payout is directed first, the fee second.
pub open spec fn complete_spec(l: LedgerV, reported_balance: u64) -> Result<
    (LedgerV, Seq<TransferDirective>),
    LotteryError,
> {
    if l.lottery_state != LotteryState::Launched {
        Err(LotteryError::InvalidState)
    } else if l.winner == sentinel() {
        Err(LotteryError::WinnerUnset)
    } else if total_donations(l.participants) > u64::MAX {
        Err(LotteryError::AmountOverflow)
    } else {
        let total = total_donations(l.participants) as u64;
        if reported_balance < payout_of(total) {
            Err(LotteryError::InsufficientBalance)
        } else if reported_balance - payout_of(total) < fee_of(total) {
            Err(LotteryError::InsufficientBalance)
        } else {
            Ok(
                (
                    LedgerV { lottery_state: LotteryState::Completed, ..l },
                    seq![
                        TransferDirective::Payout(l.winner, payout_of(total) as u64),
                        TransferDirective::Fee(fee_of(total) as u64),
                    ],
                ),
            )
        }
    }
}

/// A donation that goes through leaves the ledger well formed.
pub proof fn lemma_donate_preserves_wf(l: LedgerV, donor: Pubkey, amount: u64)
    requires
        l.wf(),
        donor != sentinel(),
        donate_spec(l, donor, amount) is Ok,
    ensures
        donate_spec(l, donor, amount).unwrap().wf(),
{
    let parts = l.participants;
    let l2 = donate_spec(l, donor, amount).unwrap();
    if has_key(parts, donor) {
        let j = key_index(parts, donor);
        assert(parts[j].key == donor);
        assert forall|x: int, y: int| 0 <= x < y < l2.participants.len() implies l2.participants[x].key != l2.participants[y].key by {
            assert(parts[x].key != parts[y].key);
        }
        assert(no_sentinel_key(l2.participants));
    } else {
        assert forall|x: int, y: int| 0 <= x < y < l2.participants.len() implies l2.participants[x].key != l2.participants[y].key by {
            if y == l2.participants.len() - 1 {
                assert(l2.participants[x] == parts[x]);
            } else {
                assert(parts[x].key != parts[y].key);
            }
        }
        assert(no_sentinel_key(l2.participants));
    }
}

/// Repeated donation by one donor accumulates into that donor's single
/// entry: after a first and a second accepted donation the table has grown
/// by one entry in all, and the donor's entry records the two amounts'
/// sum.
pub proof fn lemma_donate_accumulates(l: LedgerV, donor: Pubkey, first: u64, second: u64)
    requires
        l.wf(),
        donor != sentinel(),
        !has_key(l.participants, donor),
        donate_spec(l, donor, first) is Ok,
        donate_spec(donate_spec(l, donor, first).unwrap(), donor, second) is Ok,
    ensures
        ({
            let l1 = donate_spec(l, donor, first).unwrap();
            let l2 = donate_spec(l1, donor, second).unwrap();
            &&& l1.participants.len() == l.participants.len() + 1
            &&& l2.participants.len() == l1.participants.len()
            &&& has_key(l2.participants, donor)
            &&& l2.participants[key_index(l2.participants, donor)].amount == first + second
        }),
{
    let l1 = donate_spec(l, donor, first).unwrap();
    let l2 = donate_spec(l1, donor, second).unwrap();
    let j = l.participants.len() as int;
    lemma_donate_preserves_wf(l, donor, first);
    assert(l1.participants[j].key == donor);
    lemma_key_index_of(l1.participants, donor, j);
    assert(has_key(l1.participants, donor));
    lemma_donate_preserves_wf(l1, donor, second);
    assert(l2.participants[j].key == donor);
    lemma_key_index_of(l2.participants, donor, j);
}

/// A donation that fills the last free slot closes the betting at once.
pub proof fn lemma_donate_closes_at_capacity(l: LedgerV, donor: Pubkey, amount: u64)
    requires
        l.wf(),
        donor != sentinel(),
        l.lottery_state == LotteryState::InProgress,
        !has_key(l.participants, donor),
        l.participants.len() + 1 == l.max_participants,
    ensures
        donate_spec(l, donor, amount) is Ok,
        donate_spec(l, donor, amount).unwrap().lottery_state == LotteryState::BetsClosed,
{
}

/// A donation is refused with the state error outside the in-progress
/// stage, and with the capacity error at full capacity.
pub proof fn lemma_donate_rejections(l: LedgerV, donor: Pubkey, amount: u64)
    ensures
        l.lottery_state != LotteryState::InProgress ==> donate_spec(l, donor, amount) == Err::<
            LedgerV,
            LotteryError,
        >(LotteryError::InvalidState),
        l.lottery_state == LotteryState::InProgress && l.participants.len()
            >= l.max_participants ==> donate_spec(l, donor, amount) == Err::<
            LedgerV,
            LotteryError,
        >(LotteryError::CapacityExceeded),
{
}

/// Launching a closed, non-empty round always goes through, advances the
/// round, and makes a currently present participant the winner; launching
/// an empty round is refused and changes nothing.
pub proof fn lemma_launch_picks_present_winner(l: LedgerV, entropy: Seq<u8>)
    requires
        l.wf(),
        l.lottery_state == LotteryState::BetsClosed,
    ensures
        l.participants.len() == 0 ==> launch_spec(l, entropy) == Err::<LedgerV, LotteryError>(
            LotteryError::EmptyPool,
        ),
        l.participants.len() > 0 ==> ({
            let l2 = launch_spec(l, entropy).unwrap();
            &&& launch_spec(l, entropy) is Ok
            &&& l2.lottery_state == LotteryState::Launched
            &&& l2.participants == l.participants
            &&& has_key(l2.participants, l2.winner)
        }),
{
    if l.participants.len() > 0 {
        let idx = select_spec(entropy, l.participants.len() as u32);
        assert(0 <= idx < l.participants.len());
        let l2 = launch_spec(l, entropy).unwrap();
        assert(l2.participants[idx].key == l2.winner);
    }
}

/// Settlement is refused, with nothing directed, when the reported balance
/// cannot cover the winner's payout.
pub proof fn lemma_complete_insufficient(l: LedgerV, reported_balance: u64)
    requires
        l.lottery_state == LotteryState::Launched,
        l.winner != sentinel(),
        total_donations(l.participants) <= u64::MAX,
        reported_balance < payout_of(total_donations(l.participants) as u64),
    ensures
        complete_spec(l, reported_balance) == Err::<
            (LedgerV, Seq<TransferDirective>),
            LotteryError,
        >(LotteryError::InsufficientBalance),
{
}

/// Completion is final: a settled round refuses a second completion, with
/// nothing directed and the ledger unchanged.
pub proof fn lemma_complete_is_final(l: LedgerV, reported_balance: u64, later_balance: u64)
    requires
        complete_spec(l, reported_balance) is Ok,
    ensures
        complete_spec(l, reported_balance).unwrap().0.lottery_state == LotteryState::Completed,
        complete_spec(complete_spec(l, reported_balance).unwrap().0, later_balance) == Err::<
            (LedgerV, Seq<TransferDirective>),
            LotteryError,
        >(LotteryError::InvalidState),
{
}

/// Resets the ledger for a fresh round.  Allowed from any stage.
pub fn start_lottery(account: &mut LotteryAccount, max_participants: u32, unix_timestamp: u64)
    ensures
        final(account)@ == start_spec(max_participants, unix_timestamp),
        final(account).wf(),
{
    account.max_participants = max_participants;
    account.lottery_state = LotteryState::InProgress;
    account.winner = Pubkey::none();
    account.lottery_start = unix_timestamp;
    account.participants = Vec::new();
}

/// Records one donation in the ledger.
pub fn update_main_acc_state(
    account: &mut LotteryAccount,
    participant: &Pubkey,
    lamports_amount: u64,
) -> (r: Result<(), LotteryError>)
    requires
        old(account).wf(),
        *participant != sentinel(),
    ensures
        match r {
            Ok(()) => donate_spec(old(account)@, *participant, lamports_amount) == Ok::<
                LedgerV,
                LotteryError,
            >(final(account)@) && final(account).wf(),
            Err(e) => donate_spec(old(account)@, *participant, lamports_amount) == Err::<
                LedgerV,
                LotteryError,
            >(e) && final(account)@ == old(account)@,
        },
{
    if !(matches!(account.lottery_state, LotteryState::InProgress)) {
        return Err(LotteryError::InvalidState);
    }
    if account.participants.len() as u64 >= account.max_participants as u64 {
        return Err(LotteryError::CapacityExceeded);
    }
    let n: usize = account.participants.len();
    let mut i: usize = 0;
    let mut hit: usize = n;
    while i < n
        invariant
            i <= n,
            n == account.participants@.len(),
            *account == *old(account),
            hit == n || (hit < i && account.participants@[hit as int].key == *participant),
            hit == n ==> forall|x: int|
                0 <= x < i ==> account.participants@[x].key != *participant,
        decreases n - i,
    {
        if hit == n && account.participants[i].key == *participant {
            hit = i;
        }
        i = i + 1;
    }
    let ghost parts = old(account).participants@;
    if hit < n {
        proof {
            lemma_key_index_of(parts, *participant, hit as int);
        }
        let old_amount = account.participants[hit].amount;
        if lamports_amount > u64::MAX - old_amount {
            return Err(LotteryError::AmountOverflow);
        }
        let updated = Participant { key: *participant, amount: old_amount + lamports_amount };
        account.participants[hit] = updated;
        proof {
            assert(final(account)@.participants =~= parts.update(
                key_index(parts, *participant),
                updated,
            ));
            assert(keys_unique(final(account)@.participants));
            assert(no_sentinel_key(final(account)@.participants));
        }
        Ok(())
    } else {
        let entry = Participant { key: *participant, amount: lamports_amount };
        account.participants.push(entry);
        if account.participants.len() as u64 >= account.max_participants as u64 {
            account.lottery_state = LotteryState::BetsClosed;
        }
        proof {
            assert(!has_key(parts, *participant));
            let grown = parts.push(entry);
            assert(final(account)@.participants =~= grown);
            assert forall|x: int, y: int| 0 <= x < y < grown.len() implies grown[x].key
                != grown[y].key by {
                if y == grown.len() - 1 {
                    assert(grown[x] == parts[x]);
                }
            }
            assert(no_sentinel_key(grown));
        }
        Ok(())
    }
}

/// Draws the winner for the round.
pub fn launch_lottery(account: &mut LotteryAccount, hashes: &[u8]) -> (r: Result<
    (),
    LotteryError,
>)
    requires
        old(account).wf(),
    ensures
        match r {
            Ok(()) => launch_spec(old(account)@, hashes@) == Ok::<LedgerV, LotteryError>(
                final(account)@,
            ) && final(account).wf(),
            Err(e) => launch_spec(old(account)@, hashes@) == Err::<LedgerV, LotteryError>(e)
                && final(account)@ == old(account)@,
        },
{
    if !(matches!(account.lottery_state, LotteryState::BetsClosed)) {
        return Err(LotteryError::InvalidState);
    }
    if account.participants.len() == 0 {
        return Err(LotteryError::EmptyPool);
    }
    let pool: u32 = account.participants.len() as u32;
    let winner_num: usize = calculate_random_number(hashes, pool);
    account.winner = account.participants[winner_num].key;
    account.lottery_state = LotteryState::Launched;
    Ok(())
}

/// Settles the round: marks it completed and directs the two transfers.
pub fn complete_lottery(account: &mut LotteryAccount, reported_balance: u64) -> (r: Result<
    Vec<TransferDirective>,
    LotteryError,
>)
    requires
        old(account).wf(),
    ensures
        match r {
            Ok(directives) => complete_spec(old(account)@, reported_balance) == Ok::<
                (LedgerV, Seq<TransferDirective>),
                LotteryError,
            >((final(account)@, directives@)) && final(account).wf(),
            Err(e) => complete_spec(old(account)@, reported_balance) == Err::<
                (LedgerV, Seq<TransferDirective>),
                LotteryError,
            >(e) && final(account)@ == old(account)@,
        },
{
    if !(matches!(account.lottery_state, LotteryState::Launched)) {
        return Err(LotteryError::InvalidState);
    }
    let no_winner = Pubkey::none();
    if account.winner == no_winner {
        return Err(LotteryError::WinnerUnset);
    }
    let ghost parts = old(account).participants@;
    let n: usize = account.participants.len();
    let mut total: u64 = 0;
    let mut i: usize = 0;
    while i < n
        invariant
            i <= n,
            n == account.participants@.len(),
            *account == *old(account),
            total == total_donations(parts.take(i as int)),
            parts == account.participants@,
            old(account).lottery_state == LotteryState::Launched,
            old(account).winner != sentinel(),
        decreases n - i,
    {
        let amount = account.participants[i].amount;
        proof {
            assert(parts.take(i + 1).drop_last() =~= parts.take(i as int));
            assert(parts.take(i + 1).last() == parts[i as int]);
        }
        if amount > u64::MAX - total {
            proof {
                lemma_total_donations_prefix(parts, i + 1);
            }
            return Err(LotteryError::AmountOverflow);
        }
        total = total + amount;
        i = i + 1;
    }
    proof {
        assert(parts.take(n as int) =~= parts);
    }
    let (payout, fee) = settle(total);
    if reported_balance < payout {
        return Err(LotteryError::InsufficientBalance);
    }
    if reported_balance - payout < fee {
        return Err(LotteryError::InsufficientBalance);
    }
    account.lottery_state = LotteryState::Completed;
    let mut directives: Vec<TransferDirective> = Vec::new();
    directives.push(TransferDirective::Payout(account.winner, payout));
    directives.push(TransferDirective::Fee(fee));
    proof {
        assert(directives@ =~= seq![
            TransferDirective::Payout(old(account).winner, payout),
            TransferDirective::Fee(fee),
        ]);
    }
    Ok(directives)
}

} // verus!
