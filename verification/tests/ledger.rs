use beton::BetOnSomething;
use beton::Config;
use beton::CurrencyError;
use beton::DispatchError;
use beton::Error;
use beton::Event;
use beton::Pallet;

const ESCROW: u64 = 999;
const ALICE: u64 = 1;
const BOB: u64 = 2;

fn setup() -> Pallet {
    let mut p = Pallet::new(Config { max_length: 16, escrow: ESCROW, force_origin: 0 });
    p.deposit(ALICE, 1_000);
    p.deposit(BOB, 500);
    p.deposit(ESCROW, 1_000);
    p
}

fn name() -> Vec<u8> {
    b"match1".to_vec()
}

#[test]
fn register_stores_unresolved_outcome() {
    let mut p = setup();
    assert_eq!(p.initialize_bet_on_game(ALICE, name()), Ok(()));
    assert_eq!(p.query(&name()), Some(0));
    match p.log_at(p.log_len() - 1) {
        Event::EventInitialized { who, name: stored } => {
            assert_eq!(*who, ALICE);
            assert_eq!(stored, &name());
        }
        _ => panic!("expected EventInitialized"),
    }
}

#[test]
fn register_twice_fails_and_keeps_outcome() {
    let mut p = setup();
    assert_eq!(p.initialize_bet_on_game(ALICE, name()), Ok(()));
    assert_eq!(
        p.initialize_bet_on_game(BOB, name()),
        Err(DispatchError::Module(Error::EventAlreadyExists))
    );
    assert_eq!(p.query(&name()), Some(0));
}

#[test]
fn register_rejects_over_long_name() {
    let mut p = setup();
    let long = b"a-name-longer-than-sixteen-bytes".to_vec();
    assert_eq!(
        p.initialize_bet_on_game(ALICE, long.clone()),
        Err(DispatchError::Module(Error::TooLongName))
    );
    assert_eq!(p.query(&long), None);
}

#[test]
fn record_outcome_requires_registered_event() {
    let mut p = setup();
    assert_eq!(
        p.set_game_result(name(), 3),
        Err(DispatchError::Module(Error::EventDoesNotExist))
    );
}

#[test]
fn record_outcome_overwrites_unconditionally() {
    let mut p = setup();
    assert_eq!(p.initialize_bet_on_game(ALICE, name()), Ok(()));
    assert_eq!(p.set_game_result(name(), 3), Ok(()));
    assert_eq!(p.query(&name()), Some(3));
    assert_eq!(p.set_game_result(name(), 5), Ok(()));
    assert_eq!(p.query(&name()), Some(5));
    match p.log_at(p.log_len() - 1) {
        Event::OutcomeRecorded { name: stored, outcome } => {
            assert_eq!(stored, &name());
            assert_eq!(*outcome, 5);
        }
        _ => panic!("expected OutcomeRecorded"),
    }
}

#[test]
fn bet_requires_registered_event() {
    let mut p = setup();
    assert_eq!(
        p.bet(ALICE, name(), 3, 100),
        Err(DispatchError::Module(Error::EventDoesNotExist))
    );
    assert_eq!(p.balance_of(ALICE), 1_000);
    assert_eq!(p.balance_of(ESCROW), 1_000);
}

#[test]
fn bet_rejected_after_resolution() {
    let mut p = setup();
    assert_eq!(p.initialize_bet_on_game(ALICE, name()), Ok(()));
    assert_eq!(p.set_game_result(name(), 3), Ok(()));
    assert_eq!(
        p.bet(ALICE, name(), 3, 100),
        Err(DispatchError::Module(Error::EventAlreadyEnded))
    );
    assert_eq!(p.balance_of(ALICE), 1_000);
}

#[test]
fn bet_rejects_team_zero() {
    let mut p = setup();
    assert_eq!(p.initialize_bet_on_game(ALICE, name()), Ok(()));
    assert_eq!(
        p.bet(ALICE, name(), 0, 100),
        Err(DispatchError::Module(Error::CanNotBetOnZero))
    );
    assert_eq!(p.balance_of(ALICE), 1_000);
}

#[test]
fn bet_rejects_second_stake_on_same_key() {
    let mut p = setup();
    assert_eq!(p.initialize_bet_on_game(ALICE, name()), Ok(()));
    assert_eq!(p.bet(ALICE, name(), 3, 100), Ok(()));
    assert_eq!(
        p.bet(ALICE, name(), 4, 50),
        Err(DispatchError::Module(Error::AlreadyBet))
    );
    assert_eq!(p.balance_of(ALICE), 900);
    assert_eq!(p.get_bet(ALICE, &name()), Some(BetOnSomething { team: 3, amount: 100 }));
}

#[test]
fn bet_fails_without_funds_and_changes_nothing() {
    let mut p = setup();
    let pauper: u64 = 7;
    assert_eq!(p.initialize_bet_on_game(ALICE, name()), Ok(()));
    assert_eq!(
        p.bet(pauper, name(), 3, 100),
        Err(DispatchError::Currency(CurrencyError::InsufficientFunds))
    );
    assert_eq!(p.get_bet(pauper, &name()), None);
    assert_eq!(p.balance_of(pauper), 0);
    assert_eq!(p.balance_of(ESCROW), 1_000);
}

#[test]
fn bet_moves_stake_to_escrow() {
    let mut p = setup();
    assert_eq!(p.initialize_bet_on_game(ALICE, name()), Ok(()));
    assert_eq!(p.bet(ALICE, name(), 3, 100), Ok(()));
    assert_eq!(p.balance_of(ALICE), 900);
    assert_eq!(p.balance_of(ESCROW), 1_100);
    assert_eq!(p.get_bet(ALICE, &name()), Some(BetOnSomething { team: 3, amount: 100 }));
    match p.log_at(p.log_len() - 1) {
        Event::Bet { who, amount, escrow } => {
            assert_eq!(*who, ALICE);
            assert_eq!(*amount, 100);
            assert_eq!(*escrow, ESCROW);
        }
        _ => panic!("expected Bet"),
    }
}

#[test]
fn winning_claim_pays_exactly_double() {
    let mut p = setup();
    assert_eq!(p.initialize_bet_on_game(ALICE, name()), Ok(()));
    assert_eq!(p.bet(ALICE, name(), 3, 100), Ok(()));
    assert_eq!(p.balance_of(ALICE), 900);
    assert_eq!(p.balance_of(ESCROW), 1_100);
    assert_eq!(p.set_game_result(name(), 3), Ok(()));
    assert_eq!(p.claim_reward(ALICE, name()), Ok(()));
    assert_eq!(p.balance_of(ALICE), 1_100);
    assert_eq!(p.balance_of(ESCROW), 900);
    assert_eq!(p.get_bet(ALICE, &name()), None);
    match p.log_at(p.log_len() - 1) {
        Event::RewardClaimed { who, amount } => {
            assert_eq!(*who, ALICE);
            assert_eq!(*amount, 200);
        }
        _ => panic!("expected RewardClaimed"),
    }
}

#[test]
fn second_claim_fails_with_did_not_bet() {
    let mut p = setup();
    assert_eq!(p.initialize_bet_on_game(ALICE, name()), Ok(()));
    assert_eq!(p.bet(ALICE, name(), 3, 100), Ok(()));
    assert_eq!(p.set_game_result(name(), 3), Ok(()));
    assert_eq!(p.claim_reward(ALICE, name()), Ok(()));
    assert_eq!(
        p.claim_reward(ALICE, name()),
        Err(DispatchError::Module(Error::DidNotBet))
    );
    assert_eq!(p.balance_of(ALICE), 1_100);
}

#[test]
fn losing_claim_moves_no_funds() {
    let mut p = setup();
    assert_eq!(p.initialize_bet_on_game(ALICE, name()), Ok(()));
    assert_eq!(p.bet(ALICE, name(), 2, 100), Ok(()));
    assert_eq!(p.set_game_result(name(), 3), Ok(()));
    assert_eq!(p.claim_reward(ALICE, name()), Ok(()));
    assert_eq!(p.balance_of(ALICE), 900);
    assert_eq!(p.balance_of(ESCROW), 1_100);
    assert_eq!(p.get_bet(ALICE, &name()), None);
    match p.log_at(p.log_len() - 1) {
        Event::BetLost { who } => assert_eq!(*who, ALICE),
        _ => panic!("expected BetLost"),
    }
}

#[test]
fn claim_before_resolution_fails() {
    let mut p = setup();
    assert_eq!(p.initialize_bet_on_game(ALICE, name()), Ok(()));
    assert_eq!(p.bet(ALICE, name(), 3, 100), Ok(()));
    assert_eq!(
        p.claim_reward(ALICE, name()),
        Err(DispatchError::Module(Error::EventHasNotEndedYet))
    );
    assert_eq!(p.get_bet(ALICE, &name()), Some(BetOnSomething { team: 3, amount: 100 }));
}

#[test]
fn claim_without_stake_fails() {
    let mut p = setup();
    assert_eq!(p.initialize_bet_on_game(ALICE, name()), Ok(()));
    assert_eq!(p.set_game_result(name(), 3), Ok(()));
    assert_eq!(
        p.claim_reward(BOB, name()),
        Err(DispatchError::Module(Error::DidNotBet))
    );
}

#[test]
fn claim_against_insolvent_escrow_changes_nothing() {
    let mut p = Pallet::new(Config { max_length: 16, escrow: ESCROW, force_origin: 0 });
    p.deposit(ALICE, 100);
    assert_eq!(p.initialize_bet_on_game(ALICE, name()), Ok(()));
    assert_eq!(p.bet(ALICE, name(), 3, 100), Ok(()));
    assert_eq!(p.set_game_result(name(), 3), Ok(()));
    // The escrow holds only the 100 staked, less than the 200 owed.
    assert_eq!(
        p.claim_reward(ALICE, name()),
        Err(DispatchError::Currency(CurrencyError::InsufficientFunds))
    );
    assert_eq!(p.get_bet(ALICE, &name()), Some(BetOnSomething { team: 3, amount: 100 }));
    assert_eq!(p.balance_of(ALICE), 0);
    assert_eq!(p.balance_of(ESCROW), 100);
}

#[test]
fn remove_bet_gives_no_refund() {
    let mut p = setup();
    assert_eq!(p.initialize_bet_on_game(ALICE, name()), Ok(()));
    assert_eq!(p.bet(ALICE, name(), 3, 100), Ok(()));
    assert_eq!(p.remove_bet(ALICE, name()), Ok(()));
    assert_eq!(p.get_bet(ALICE, &name()), None);
    // The escrowed stake is deliberately kept: no refund happens.
    assert_eq!(p.balance_of(ALICE), 900);
    assert_eq!(p.balance_of(ESCROW), 1_100);
    match p.log_at(p.log_len() - 1) {
        Event::BetRemoved { who } => assert_eq!(*who, ALICE),
        _ => panic!("expected BetRemoved"),
    }
}

#[test]
fn remove_bet_without_stake_fails() {
    let mut p = setup();
    assert_eq!(p.initialize_bet_on_game(ALICE, name()), Ok(()));
    assert_eq!(
        p.remove_bet(ALICE, name()),
        Err(DispatchError::Module(Error::DidNotBet))
    );
}

#[test]
fn escrow_account_is_the_configured_one() {
    let p = Pallet::new(Config { max_length: 8, escrow: 42, force_origin: 0 });
    assert_eq!(p.escrow_account(), 42);
    assert_eq!(p.log_len(), 0);
}

#[test]
fn register_accepts_name_of_exactly_max_length() {
    let mut p = setup();
    let exact = b"0123456789abcdef".to_vec();
    assert_eq!(exact.len(), 16);
    assert_eq!(p.initialize_bet_on_game(ALICE, exact.clone()), Ok(()));
    assert_eq!(p.query(&exact), Some(0));
}

#[test]
fn register_accepts_empty_name() {
    let mut p = setup();
    let empty: Vec<u8> = Vec::new();
    assert_eq!(p.initialize_bet_on_game(ALICE, empty.clone()), Ok(()));
    assert_eq!(p.query(&empty), Some(0));
}

#[test]
fn claim_whose_double_overflows_is_insufficient() {
    let mut p = Pallet::new(Config { max_length: 16, escrow: ESCROW, force_origin: 0 });
    p.deposit(ALICE, u64::MAX);
    assert_eq!(p.initialize_bet_on_game(ALICE, name()), Ok(()));
    assert_eq!(p.bet(ALICE, name(), 3, u64::MAX), Ok(()));
    assert_eq!(p.set_game_result(name(), 3), Ok(()));
    // Twice the stake exceeds u64::MAX, so no escrow could ever cover it.
    assert_eq!(
        p.claim_reward(ALICE, name()),
        Err(DispatchError::Currency(CurrencyError::InsufficientFunds))
    );
    assert_eq!(p.balance_of(ESCROW), u64::MAX);
    assert_eq!(p.get_bet(ALICE, &name()), Some(BetOnSomething { team: 3, amount: u64::MAX }));
}
