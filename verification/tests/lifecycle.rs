use lottery_core::error::LotteryError;
use lottery_core::instructions::{
    complete_lottery, launch_lottery, settle, start_lottery, update_main_acc_state,
    TransferDirective,
};
use lottery_core::state::{LotteryAccount, LotteryState, Participant, Pubkey};

fn pk(n: u64) -> Pubkey {
    Pubkey { w0: n, w1: 0, w2: 0, w3: 0 }
}

fn fresh(capacity: u32) -> LotteryAccount {
    let mut account = LotteryAccount {
        max_participants: 0,
        lottery_state: LotteryState::BetsClosed,
        winner: Pubkey::none(),
        lottery_start: 0,
        participants: Vec::new(),
    };
    start_lottery(&mut account, capacity, 7);
    account
}

#[test]
fn start_resets_everything() {
    let mut account = LotteryAccount {
        max_participants: 9,
        lottery_state: LotteryState::Completed,
        winner: pk(3),
        lottery_start: 11,
        participants: vec![Participant { key: pk(1), amount: 5 }],
    };
    start_lottery(&mut account, 4, 1234);
    assert_eq!(account.max_participants, 4);
    assert_eq!(account.lottery_state, LotteryState::InProgress);
    assert_eq!(account.winner, Pubkey::none());
    assert_eq!(account.lottery_start, 1234);
    assert!(account.participants.is_empty());
}

#[test]
fn donate_accumulates_into_one_entry() {
    let mut account = fresh(3);
    assert_eq!(update_main_acc_state(&mut account, &pk(1), 5), Ok(()));
    assert_eq!(update_main_acc_state(&mut account, &pk(1), 3), Ok(()));
    assert_eq!(account.participants.len(), 1);
    assert_eq!(account.participants[0].key, pk(1));
    assert_eq!(account.participants[0].amount, 8);
}

#[test]
fn donate_keeps_distinct_donors_apart() {
    let mut account = fresh(3);
    assert_eq!(update_main_acc_state(&mut account, &pk(1), 5), Ok(()));
    assert_eq!(update_main_acc_state(&mut account, &pk(2), 7), Ok(()));
    assert_eq!(account.participants.len(), 2);
    assert_eq!(account.participants[0].amount, 5);
    assert_eq!(account.participants[1].amount, 7);
    assert_eq!(account.lottery_state, LotteryState::InProgress);
}

#[test]
fn donate_filling_last_slot_closes_bets() {
    let mut account = fresh(2);
    assert_eq!(update_main_acc_state(&mut account, &pk(1), 5), Ok(()));
    assert_eq!(account.lottery_state, LotteryState::InProgress);
    assert_eq!(update_main_acc_state(&mut account, &pk(2), 5), Ok(()));
    assert_eq!(account.lottery_state, LotteryState::BetsClosed);
}

#[test]
fn donate_fails_at_full_capacity() {
    let mut account = LotteryAccount {
        max_participants: 1,
        lottery_state: LotteryState::InProgress,
        winner: Pubkey::none(),
        lottery_start: 0,
        participants: vec![Participant { key: pk(1), amount: 5 }],
    };
    assert_eq!(
        update_main_acc_state(&mut account, &pk(2), 5),
        Err(LotteryError::CapacityExceeded)
    );
    assert_eq!(account.participants.len(), 1);
}

#[test]
fn donate_fails_outside_in_progress() {
    let mut account = fresh(2);
    assert_eq!(update_main_acc_state(&mut account, &pk(1), 5), Ok(()));
    assert_eq!(update_main_acc_state(&mut account, &pk(2), 5), Ok(()));
    assert_eq!(account.lottery_state, LotteryState::BetsClosed);
    assert_eq!(
        update_main_acc_state(&mut account, &pk(3), 5),
        Err(LotteryError::InvalidState)
    );
    assert_eq!(account.participants.len(), 2);
}

#[test]
fn donate_overflow_is_refused() {
    let mut account = fresh(3);
    assert_eq!(update_main_acc_state(&mut account, &pk(1), u64::MAX), Ok(()));
    assert_eq!(
        update_main_acc_state(&mut account, &pk(1), 1),
        Err(LotteryError::AmountOverflow)
    );
    assert_eq!(account.participants[0].amount, u64::MAX);
}

#[test]
fn launch_sets_present_winner_and_advances() {
    let mut account = fresh(2);
    assert_eq!(update_main_acc_state(&mut account, &pk(1), 5), Ok(()));
    assert_eq!(update_main_acc_state(&mut account, &pk(2), 5), Ok(()));
    let entropy = [0u8; 16];
    assert_eq!(launch_lottery(&mut account, &entropy), Ok(()));
    assert_eq!(account.lottery_state, LotteryState::Launched);
    // sixteen zero bytes derive index zero, so the first donor wins
    assert_eq!(account.winner, pk(1));
    assert!(account.participants.iter().any(|p| p.key == account.winner));
}

#[test]
fn launch_fails_on_empty_pool() {
    let mut account = fresh(2);
    account.lottery_state = LotteryState::BetsClosed;
    let entropy = [9u8; 32];
    assert_eq!(launch_lottery(&mut account, &entropy), Err(LotteryError::EmptyPool));
    assert_eq!(account.lottery_state, LotteryState::BetsClosed);
    assert_eq!(account.winner, Pubkey::none());
}

#[test]
fn launch_fails_outside_bets_closed() {
    let mut account = fresh(3);
    assert_eq!(update_main_acc_state(&mut account, &pk(1), 5), Ok(()));
    let entropy = [1u8; 16];
    assert_eq!(launch_lottery(&mut account, &entropy), Err(LotteryError::InvalidState));
}

#[test]
fn settle_splits_exactly() {
    assert_eq!(settle(1000), (990, 10));
    assert_eq!(settle(99), (99, 0));
    assert_eq!(settle(100), (99, 1));
    assert_eq!(settle(0), (0, 0));
    for total in [1u64, 7, 12345, u64::MAX] {
        let (payout, fee) = settle(total);
        assert_eq!(payout + fee, total);
        assert_eq!(fee, total / 100);
    }
}

fn launched(balances: &[(u64, u64)]) -> LotteryAccount {
    let participants = balances
        .iter()
        .map(|&(key, amount)| Participant { key: pk(key), amount })
        .collect::<Vec<_>>();
    LotteryAccount {
        max_participants: 4,
        lottery_state: LotteryState::Launched,
        winner: pk(balances[0].0),
        lottery_start: 0,
        participants,
    }
}

#[test]
fn complete_pays_winner_then_fee() {
    let mut account = launched(&[(1, 600), (2, 400)]);
    let directives = complete_lottery(&mut account, 1000).expect("settlement should go through");
    assert_eq!(
        directives,
        vec![TransferDirective::Payout(pk(1), 990), TransferDirective::Fee(10)]
    );
    assert_eq!(account.lottery_state, LotteryState::Completed);
}

#[test]
fn complete_fails_when_balance_below_payout() {
    let mut account = launched(&[(1, 600), (2, 400)]);
    assert_eq!(
        complete_lottery(&mut account, 989),
        Err(LotteryError::InsufficientBalance)
    );
    assert_eq!(account.lottery_state, LotteryState::Launched);
}

#[test]
fn complete_fails_when_remainder_below_fee() {
    let mut account = launched(&[(1, 600), (2, 400)]);
    // 995 covers the payout of 990 but leaves only 5 of the 10 fee
    assert_eq!(
        complete_lottery(&mut account, 995),
        Err(LotteryError::InsufficientBalance)
    );
    assert_eq!(account.lottery_state, LotteryState::Launched);
}

#[test]
fn complete_twice_is_refused() {
    let mut account = launched(&[(1, 600), (2, 400)]);
    assert!(complete_lottery(&mut account, 5000).is_ok());
    assert_eq!(account.lottery_state, LotteryState::Completed);
    assert_eq!(
        complete_lottery(&mut account, 5000),
        Err(LotteryError::InvalidState)
    );
    assert_eq!(account.lottery_state, LotteryState::Completed);
}

#[test]
fn complete_without_winner_is_refused() {
    let mut account = launched(&[(1, 600)]);
    account.winner = Pubkey::none();
    assert_eq!(complete_lottery(&mut account, 1000), Err(LotteryError::WinnerUnset));
}

#[test]
fn complete_with_overflowing_total_is_refused() {
    let mut account = launched(&[(1, u64::MAX), (2, 1)]);
    assert_eq!(complete_lottery(&mut account, 1000), Err(LotteryError::AmountOverflow));
    assert_eq!(account.lottery_state, LotteryState::Launched);
}
