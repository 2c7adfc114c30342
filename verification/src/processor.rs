//! One full invocation: decode, validate, mutate, re-encode.
//!
//! The host hands in the stored ledger bytes, the raw instruction payload,
//! the calling identity and the balance it actually holds; it gets back the
//! complete new ledger image and the transfers to execute, or a typed error
//! with nothing persisted and nothing to transfer.

use vstd::prelude::*;
use crate::codec::{decode_spec, deserialize, encode_spec, serialize};
use crate::error::LotteryError;
use crate::instructions::{InstructionV, LotteryInstructions, TransferDirective, complete_lottery,
    complete_spec, donate_spec, launch_lottery, launch_spec, start_lottery, start_spec,
    unpack_spec, update_main_acc_state};
use crate::state::{LedgerV, Pubkey, sentinel};

verus! {

/// What one invocation yields: the new ledger image and the directives, or
/// the error of whichever step refused first — an unreadable payload, then
/// an unreadable ledger, then the operation itself.
pub open spec fn handle_spec(
    ledger: Seq<u8>,
    instr: Seq<u8>,
    caller: Pubkey,
    reported_balance: u64,
) -> Result<(Seq<u8>, Seq<TransferDirective>), LotteryError> {
    match unpack_spec(instr) {
        None => Err(LotteryError::InvalidPayload),
        Some(iv) => match decode_spec(ledger) {
            None => Err(LotteryError::InvalidEncoding),
            Some(l) => match iv {
                InstructionV::Start(cap, ts) => Ok(
                    (encode_spec(start_spec(cap, ts)), Seq::empty()),
                ),
                InstructionV::Donate(amount) => match donate_spec(l, caller, amount) {
                    Ok(l2) => Ok((encode_spec(l2), Seq::empty())),
                    Err(e) => Err(e),
                },
                InstructionV::Launch(entropy) => match launch_spec(l, entropy) {
                    Ok(l2) => Ok((encode_spec(l2), Seq::empty())),
                    Err(e) => Err(e),
                },
                InstructionV::Complete => match complete_spec(l, reported_balance) {
                    Ok((l2, directives)) => Ok((encode_spec(l2), directives)),
                    Err(e) => Err(e),
                },
            },
        },
    }
}

/// Runs one instruction against the stored ledger.  All-or-nothing: on any
/// failure no byte image and no transfer directive is produced.  The caller
/// identity only matters for a donation, and a donor can never be the
/// sentinel.
pub fn process_instruction(
    ledger_data: &[u8],
    instruction_data: &[u8],
    caller: &Pubkey,
    reported_balance: u64,
) -> (r: Result<(Vec<u8>, Vec<TransferDirective>), LotteryError>)
    requires
        (unpack_spec(instruction_data@) matches Some(InstructionV::Donate(_))) ==> *caller
            != sentinel(),
    ensures
        match r {
            Ok(out) => handle_spec(ledger_data@, instruction_data@, *caller, reported_balance)
                == Ok::<(Seq<u8>, Seq<TransferDirective>), LotteryError>((out.0@, out.1@)),
            Err(e) => handle_spec(ledger_data@, instruction_data@, *caller, reported_balance)
                == Err::<(Seq<u8>, Seq<TransferDirective>), LotteryError>(e),
        },
{
    let instruction = match LotteryInstructions::unpack(instruction_data) {
        Ok(ins) => ins,
        Err(e) => { return Err(e) },
    };
    let mut account = match deserialize(ledger_data) {
        Ok(acc) => acc,
        Err(e) => { return Err(e) },
    };
    match instruction {
        LotteryInstructions::StartLottery(max_participants, unix_timestamp) => {
            start_lottery(&mut account, max_participants, unix_timestamp);
            let buffer = match serialize(&account) {
                Ok(b) => b,
                Err(e) => {
                    proof {
                        assert(false);
                    }
                    return Err(e);
                },
            };
            Ok((buffer, Vec::new()))
        },
        LotteryInstructions::DonateInstruction(amount) => {
            match update_main_acc_state(&mut account, caller, amount) {
                Ok(()) => (),
                Err(e) => { return Err(e) },
            }
            let buffer = match serialize(&account) {
                Ok(b) => b,
                Err(e) => {
                    proof {
                        assert(false);
                    }
                    return Err(e);
                },
            };
            Ok((buffer, Vec::new()))
        },
        LotteryInstructions::LaunchLottery(entropy) => {
            match launch_lottery(&mut account, entropy.as_slice()) {
                Ok(()) => (),
                Err(e) => { return Err(e) },
            }
            let buffer = match serialize(&account) {
                Ok(b) => b,
                Err(e) => {
                    proof {
                        assert(false);
                    }
                    return Err(e);
                },
            };
            Ok((buffer, Vec::new()))
        },
        LotteryInstructions::CompleteLottery => {
            let directives = match complete_lottery(&mut account, reported_balance) {
                Ok(d) => d,
                Err(e) => { return Err(e) },
            };
            let buffer = match serialize(&account) {
                Ok(b) => b,
                Err(e) => {
                    proof {
                        assert(false);
                    }
                    return Err(e);
                },
            };
            Ok((buffer, directives))
        },
    }
}

} // verus!
