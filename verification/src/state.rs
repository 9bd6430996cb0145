//! The mathematical model of the whole ledger, and one transition function
//! per operation.
//!
//! Each transition takes the current state and the operation's arguments,
//! and returns the next state together with the operation's result.  The
//! checks run in order and the first failure wins; a failing operation
//! returns the state unchanged, so an operation either applies all of its
//! mutations or none.  The executable operations are proved equal to these
//! transitions, and the laws are proved about the transitions alone.

use vstd::prelude::*;

use crate::bets::BetOnSomething;
use crate::currency::spec_transfer;
use crate::currency::CurrencyError;
use crate::errors::DispatchError;
use crate::errors::Error;
use crate::notifications::EventView;

verus! {

/// The ledger's state: registered events with their outcomes, live stakes,
/// all account balances, and the notification log.
#[verifier::ext_equal]
pub struct State {
    pub events: Map<Seq<u8>, u8>,
    pub bets: Map<(u64, Seq<u8>), BetOnSomething>,
    pub balances: Map<u64, u64>,
    pub log: Seq<EventView>,
}

impl State {
    /// A freshly constructed ledger: no events, no stakes, every balance
    /// zero, nothing logged.
    pub open spec fn initial() -> State {
        State {
            events: Map::empty(),
            bets: Map::empty(),
            balances: Map::new(|a: u64| true, |a: u64| 0u64),
            log: Seq::empty(),
        }
    }
}

/// Registering a new event: rejected when the name is over the configured
/// maximum or already present; otherwise stored as unresolved (`0`).
pub open spec fn spec_initialize(s: State, max_length: nat, who: u64, name: Seq<u8>) -> (
    State,
    Result<(), DispatchError>,
) {
    if name.len() > max_length {
        (s, Err(DispatchError::Module(Error::TooLongName)))
    } else if s.events.contains_key(name) {
        (s, Err(DispatchError::Module(Error::EventAlreadyExists)))
    } else {
        (
            State {
                events: s.events.insert(name, 0),
                log: s.log.push(EventView::EventInitialized { who, name }),
                ..s
            },
            Ok(()),
        )
    }
}

/// Recording an outcome: rejected when the event is unknown; otherwise the
/// stored outcome is overwritten unconditionally, even if already set.
pub open spec fn spec_set_result(s: State, name: Seq<u8>, result: u8) -> (
    State,
    Result<(), DispatchError>,
) {
    if !s.events.contains_key(name) {
        (s, Err(DispatchError::Module(Error::EventDoesNotExist)))
    } else {
        (
            State {
                events: s.events.insert(name, result),
                log: s.log.push(EventView::OutcomeRecorded { name, outcome: result }),
                ..s
            },
            Ok(()),
        )
    }
}

/// Placing a stake: the event must exist and still be open, the team must
/// not be `0`, the key must hold no stake, and the caller must cover the
/// amount.  On success the amount moves to escrow and the stake is stored.
pub open spec fn spec_bet(
    s: State,
    escrow: u64,
    who: u64,
    name: Seq<u8>,
    team: u8,
    amount: u64,
) -> (State, Result<(), DispatchError>) {
    if !s.events.contains_key(name) {
        (s, Err(DispatchError::Module(Error::EventDoesNotExist)))
    } else if s.events[name] != 0 {
        (s, Err(DispatchError::Module(Error::EventAlreadyEnded)))
    } else if team == 0 {
        (s, Err(DispatchError::Module(Error::CanNotBetOnZero)))
    } else if s.bets.contains_key((who, name)) {
        (s, Err(DispatchError::Module(Error::AlreadyBet)))
    } else if s.balances[who] < amount {
        (s, Err(DispatchError::Currency(CurrencyError::InsufficientFunds)))
    } else {
        (
            State {
                bets: s.bets.insert((who, name), BetOnSomething { team, amount }),
                balances: spec_transfer(s.balances, who, escrow, amount),
                log: s.log.push(EventView::Bet { who, amount, escrow }),
                ..s
            },
            Ok(()),
        )
    }
}

/// Settling a stake: the key must hold one, the event must exist and be
/// resolved.  A losing stake is consumed with no fund movement; a winning
/// stake is consumed and pays exactly twice the staked amount from escrow,
/// provided the escrow can cover it — otherwise nothing changes and the
/// currency collaborator's failure is passed through.
pub open spec fn spec_claim(s: State, escrow: u64, who: u64, name: Seq<u8>) -> (
    State,
    Result<(), DispatchError>,
) {
    if !s.bets.contains_key((who, name)) {
        (s, Err(DispatchError::Module(Error::DidNotBet)))
    } else if !s.events.contains_key(name) {
        (s, Err(DispatchError::Module(Error::EventDoesNotExist)))
    } else if s.events[name] == 0 {
        (s, Err(DispatchError::Module(Error::EventHasNotEndedYet)))
    } else {
        let stake = s.bets[(who, name)];
        if stake.team != s.events[name] {
            (
                State {
                    bets: s.bets.remove((who, name)),
                    log: s.log.push(EventView::BetLost { who }),
                    ..s
                },
                Ok(()),
            )
        } else if s.balances[escrow] < 2 * stake.amount {
            (s, Err(DispatchError::Currency(CurrencyError::InsufficientFunds)))
        } else {
            (
                State {
                    bets: s.bets.remove((who, name)),
                    balances: spec_transfer(s.balances, escrow, who, (2 * stake.amount) as u64),
                    log: s.log.push(
                        EventView::RewardClaimed { who, amount: (2 * stake.amount) as u64 },
                    ),
                    ..s
                },
                Ok(()),
            )
        }
    }
}

/// Withdrawing a stake before settlement: the record is deleted, and the
/// escrowed amount is deliberately not refunded.
pub open spec fn spec_remove(s: State, who: u64, name: Seq<u8>) -> (
    State,
    Result<(), DispatchError>,
) {
    if !s.bets.contains_key((who, name)) {
        (s, Err(DispatchError::Module(Error::DidNotBet)))
    } else {
        (
            State { bets: s.bets.remove((who, name)), log: s.log.push(EventView::BetRemoved { who }), ..s },
            Ok(()),
        )
    }
}

} // verus!
