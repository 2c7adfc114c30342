use lottery_core::codec::{deserialize, serialize};
use lottery_core::error::{create_u32_error, LotteryError};
use lottery_core::instructions::{LotteryInstructions, TransferDirective};
use lottery_core::processor::process_instruction;
use lottery_core::state::{LotteryAccount, LotteryState, Participant, Pubkey};
use lottery_core::utils::{
    calculate_lottery_account_size, calculate_random_number, check_for_lottery_availability,
    select,
};

fn pk(n: u64) -> Pubkey {
    Pubkey { w0: n, w1: 0, w2: 0, w3: 0 }
}

fn sample_account() -> LotteryAccount {
    LotteryAccount {
        max_participants: 4,
        lottery_state: LotteryState::InProgress,
        winner: Pubkey::none(),
        lottery_start: 99,
        participants: vec![
            Participant { key: pk(1), amount: 500 },
            Participant { key: pk(2), amount: 700 },
        ],
    }
}

#[test]
fn encode_then_decode_restores_the_ledger() {
    let account = sample_account();
    let bytes = serialize(&account).expect("within capacity");
    assert_eq!(bytes.len(), 49 + 4 * 40);
    let back = deserialize(&bytes).expect("own image decodes");
    assert_eq!(back.max_participants, account.max_participants);
    assert_eq!(back.lottery_state, account.lottery_state);
    assert_eq!(back.winner, account.winner);
    assert_eq!(back.lottery_start, account.lottery_start);
    assert_eq!(back.participants, account.participants);
}

#[test]
fn decode_then_encode_reproduces_the_buffer() {
    let bytes = serialize(&sample_account()).expect("within capacity");
    let back = deserialize(&bytes).expect("own image decodes");
    let again = serialize(&back).expect("still within capacity");
    assert_eq!(again, bytes);
}

#[test]
fn serialize_never_truncates() {
    let mut account = sample_account();
    account.max_participants = 1;
    assert!(matches!(serialize(&account), Err(LotteryError::CapacityExceeded)));
}

#[test]
fn deserialize_rejects_truncated_input() {
    assert!(matches!(deserialize(&[0u8; 48]), Err(LotteryError::InvalidEncoding)));
}

#[test]
fn deserialize_rejects_unknown_state_tag() {
    let mut bytes = vec![0u8; 49];
    bytes[4] = 7;
    assert!(matches!(deserialize(&bytes), Err(LotteryError::InvalidEncoding)));
}

#[test]
fn deserialize_rejects_wrong_entry_count() {
    let mut bytes = serialize(&sample_account()).unwrap();
    bytes[45] = 3;
    assert!(matches!(deserialize(&bytes), Err(LotteryError::InvalidEncoding)));
}

#[test]
fn deserialize_rejects_duplicate_identities() {
    let account = LotteryAccount {
        participants: vec![
            Participant { key: pk(1), amount: 500 },
            Participant { key: pk(1), amount: 700 },
        ],
        ..sample_account()
    };
    let bytes = serialize(&account).unwrap();
    assert!(matches!(deserialize(&bytes), Err(LotteryError::InvalidEncoding)));
}

#[test]
fn deserialize_rejects_table_beyond_capacity() {
    let mut account = sample_account();
    account.max_participants = 2;
    let mut bytes = serialize(&account).unwrap();
    // shrink the recorded capacity below the used table
    bytes[0] = 1;
    assert!(matches!(deserialize(&bytes), Err(LotteryError::InvalidEncoding)));
}

#[test]
fn deserialize_ignores_bytes_after_the_sentinel() {
    let mut bytes = serialize(&sample_account()).unwrap();
    // scribble into the last, unused slot's amount field
    let last = bytes.len() - 1;
    bytes[last] = 0xAB;
    let back = deserialize(&bytes).expect("unused slots are not part of the ledger");
    assert_eq!(back.participants.len(), 2);
}

#[test]
fn account_size_formula() {
    assert_eq!(calculate_lottery_account_size(0), 49);
    assert_eq!(calculate_lottery_account_size(10), 449);
    assert_eq!(
        calculate_lottery_account_size(u32::MAX),
        49 + 40 * u64::from(u32::MAX)
    );
}

#[test]
fn sixteen_zero_bytes_give_index_zero() {
    assert_eq!(calculate_random_number(&[0u8; 16], 5), 0);
    assert_eq!(select(&[0u8; 16], 5), Ok(0));
}

#[test]
fn selection_is_deterministic_and_in_range() {
    let entropy: Vec<u8> = (0u8..=255).collect();
    for pool in [1u32, 2, 3, 10, 97] {
        let first = calculate_random_number(&entropy, pool);
        let second = calculate_random_number(&entropy, pool);
        assert_eq!(first, second);
        assert!(first < pool as usize);
    }
}

#[test]
fn short_entropy_is_zero_padded() {
    // a single byte forms one slice, padded to sixteen bytes
    assert_eq!(calculate_random_number(&[2u8], 5), 2);
    assert_eq!(calculate_random_number(&[], 5), 0);
}

#[test]
fn one_full_slice_reads_little_endian() {
    let mut entropy = [0u8; 16];
    entropy[0] = 1;
    // seed [1,0,0,0]; all three windows fall on zero bytes
    assert_eq!(calculate_random_number(&entropy, 5), 1);
}

#[test]
fn select_refuses_empty_pool() {
    assert_eq!(select(&[1u8, 2, 3], 0), Err(LotteryError::DegenerateInput));
}

#[test]
fn unpack_start_instruction() {
    let mut payload = vec![0u8];
    payload.extend_from_slice(&8u32.to_le_bytes());
    payload.extend_from_slice(&1234u64.to_le_bytes());
    assert!(matches!(
        LotteryInstructions::unpack(&payload),
        Ok(LotteryInstructions::StartLottery(8, 1234))
    ));
    payload.push(0);
    assert!(matches!(
        LotteryInstructions::unpack(&payload),
        Err(LotteryError::InvalidPayload)
    ));
}

#[test]
fn unpack_donate_instruction() {
    let mut payload = vec![1u8];
    payload.extend_from_slice(&500u64.to_le_bytes());
    assert!(matches!(
        LotteryInstructions::unpack(&payload),
        Ok(LotteryInstructions::DonateInstruction(500))
    ));
    assert!(matches!(
        LotteryInstructions::unpack(&payload[..5]),
        Err(LotteryError::InvalidPayload)
    ));
}

#[test]
fn unpack_launch_and_complete_instructions() {
    let payload = [2u8, 9, 9, 9];
    match LotteryInstructions::unpack(&payload) {
        Ok(LotteryInstructions::LaunchLottery(entropy)) => assert_eq!(entropy, vec![9u8, 9, 9]),
        other => panic!("unexpected: {:?}", other),
    }
    assert!(matches!(
        LotteryInstructions::unpack(&[3u8]),
        Ok(LotteryInstructions::CompleteLottery)
    ));
    assert!(matches!(
        LotteryInstructions::unpack(&[4u8]),
        Err(LotteryError::InvalidPayload)
    ));
    assert!(matches!(
        LotteryInstructions::unpack(&[]),
        Err(LotteryError::InvalidPayload)
    ));
}

#[test]
fn availability_follows_state_and_capacity() {
    let open = serialize(&sample_account()).unwrap();
    assert_eq!(check_for_lottery_availability(&open), Ok(()));

    let mut closed_account = sample_account();
    closed_account.lottery_state = LotteryState::BetsClosed;
    let closed = serialize(&closed_account).unwrap();
    assert_eq!(check_for_lottery_availability(&closed), Err(LotteryError::InvalidState));

    let mut full_account = sample_account();
    full_account.max_participants = 2;
    let full = serialize(&full_account).unwrap();
    assert_eq!(
        check_for_lottery_availability(&full),
        Err(LotteryError::CapacityExceeded)
    );

    assert_eq!(
        check_for_lottery_availability(&[1u8, 2]),
        Err(LotteryError::InvalidEncoding)
    );
}

#[test]
fn error_code_parses_decimal_digits() {
    assert_eq!(create_u32_error("100"), 100);
    assert_eq!(create_u32_error("0"), 0);
    assert_eq!(create_u32_error("4294967295"), u32::MAX);
}

fn start_payload(capacity: u32, start_time: u64) -> Vec<u8> {
    let mut payload = vec![0u8];
    payload.extend_from_slice(&capacity.to_le_bytes());
    payload.extend_from_slice(&start_time.to_le_bytes());
    payload
}

fn donate_payload(amount: u64) -> Vec<u8> {
    let mut payload = vec![1u8];
    payload.extend_from_slice(&amount.to_le_bytes());
    payload
}

#[test]
fn whole_round_through_the_processor() {
    let authority = pk(9);
    // a freshly allocated region: all zeros decodes as an empty round
    let ledger = vec![0u8; 49];
    let (ledger, transfers) =
        process_instruction(&ledger, &start_payload(2, 77), &authority, 0).expect("start");
    assert!(transfers.is_empty());
    assert_eq!(ledger.len(), 49 + 2 * 40);

    let (ledger, _) =
        process_instruction(&ledger, &donate_payload(600), &pk(1), 0).expect("first donation");
    let (ledger, _) =
        process_instruction(&ledger, &donate_payload(400), &pk(2), 0).expect("second donation");
    let account = deserialize(&ledger).unwrap();
    assert_eq!(account.lottery_state, LotteryState::BetsClosed);

    let mut launch = vec![2u8];
    launch.extend_from_slice(&[0u8; 16]);
    let (ledger, _) = process_instruction(&ledger, &launch, &authority, 0).expect("launch");
    let account = deserialize(&ledger).unwrap();
    assert_eq!(account.lottery_state, LotteryState::Launched);
    assert_eq!(account.winner, pk(1));

    let (ledger, transfers) =
        process_instruction(&ledger, &[3u8], &authority, 1000).expect("complete");
    assert_eq!(
        transfers,
        vec![TransferDirective::Payout(pk(1), 990), TransferDirective::Fee(10)]
    );
    let account = deserialize(&ledger).unwrap();
    assert_eq!(account.lottery_state, LotteryState::Completed);
}

#[test]
fn processor_rejects_bad_inputs() {
    let ledger = vec![0u8; 49];
    assert!(matches!(
        process_instruction(&ledger, &[8u8], &pk(1), 0),
        Err(LotteryError::InvalidPayload)
    ));
    assert!(matches!(
        process_instruction(&[0u8; 10], &[3u8], &pk(1), 0),
        Err(LotteryError::InvalidEncoding)
    ));
    assert!(matches!(
        process_instruction(&ledger, &[3u8], &pk(1), 0),
        Err(LotteryError::InvalidState)
    ));
}
