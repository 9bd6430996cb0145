//! The ledger service: configuration, storage, and the public operations.
//!
//! `Pallet` owns the event registry, the bet store, the balance ledger and
//! the notification log.  Callers arrive already authenticated: every
//! operation takes the caller's account identifier where it matters.  Each
//! operation is proved equal to its transition function in `state`, so a
//! failing operation provably changes nothing.

use vstd::prelude::*;

use crate::bets::BetOnSomething;
use crate::bets::BetStore;
use crate::currency::Balances;
use crate::currency::CurrencyError;
use crate::errors::DispatchError;
use crate::errors::Error;
use crate::notifications::Event;
use crate::notifications::EventView;
use crate::registry::EventRegistry;
use crate::state::spec_bet;
use crate::state::spec_claim;
use crate::state::spec_initialize;
use crate::state::spec_remove;
use crate::state::spec_set_result;
use crate::state::State;

verus! {

/// The configuration surface the ledger consumes.
#[derive(Clone, Copy, Debug, PartialEq, Eq, Structural)]
pub struct Config {
    /// The maximum length of a stored event name.
    pub max_length: usize,
    /// The well-known account that escrows every stake.
    pub escrow: u64,
    /// The authority for forced operations: a reserved extension point,
    /// consumed by no current operation.
    pub force_origin: u64,
}

/// The betting ledger service.
pub struct Pallet {
    config: Config,
    events: EventRegistry,
    bets: BetStore,
    balances: Balances,
    log: Vec<Event>,
}

impl View for Pallet {
    type V = State;

    closed spec fn view(&self) -> State {
        State {
            events: self.events@,
            bets: self.bets@,
            balances: self.balances@,
            log: self.log@.map_values(|e: Event| e@),
        }
    }
}

impl Pallet {
    /// The stores are well formed, every registered name respects the
    /// configured maximum, and every stake names a registered event.
    pub closed spec fn wf(self) -> bool {
        &&& self.events.wf()
        &&& self.bets.wf()
        &&& self.balances.wf()
        &&& forall|n: Seq<u8>| self@.events.contains_key(n) ==> n.len() <= self.config.max_length
        &&& forall|k: (u64, Seq<u8>)| self@.bets.contains_key(k) ==> self@.events.contains_key(k.1)
    }

    /// The configuration the ledger was built with.
    pub closed spec fn config_spec(self) -> Config {
        self.config
    }

    /// The configured maximum name length.
    pub open spec fn max_length_spec(self) -> nat {
        self.config_spec().max_length as nat
    }

    /// The escrow account's identifier.
    pub open spec fn escrow_spec(self) -> u64 {
        self.config_spec().escrow
    }

    /// The sum of all balances.
    pub closed spec fn total_issuance(self) -> int {
        self.balances.total_spec()
    }

    /// A fresh ledger in the initial state.
    pub fn new(config: Config) -> (r: Pallet)
        ensures
            r.wf(),
            r@ == State::initial(),
            r.config_spec() == config,
            r.total_issuance() == 0,
    {
        let r = Pallet {
            config,
            events: EventRegistry::new(),
            bets: BetStore::new(),
            balances: Balances::new(),
            log: Vec::new(),
        };
        proof {
            let m0 = State::initial().balances;
            assert forall|a: u64|
                r.balances@.dom().contains(a) == m0.dom().contains(a) && r.balances@[a]
                    == m0[a] by {
                assert(m0.dom().contains(a));
                assert(m0[a] == 0);
                assert(r.balances@[a] == 0);
                assert(r.balances@.dom().contains(a));
            }
            assert(r@.balances =~= State::initial().balances);
            assert(r@.log =~= State::initial().log);
            assert(r@ =~= State::initial());
        }
        r
    }

    /// Endows `account` with `amount`: the genesis hook of the currency
    /// collaborator, used to set up balances before any operation runs.
    pub fn deposit(&mut self, account: u64, amount: u64)
        requires
            old(self).wf(),
            old(self).total_issuance() + amount <= u64::MAX,
        ensures
            final(self).wf(),
            final(self).config_spec() == old(self).config_spec(),
            final(self).total_issuance() == old(self).total_issuance() + amount,
            final(self)@ == (State {
                balances: old(self)@.balances.insert(
                    account,
                    (old(self)@.balances[account] + amount) as u64,
                ),
                ..old(self)@
            }),
    {
        let ghost pre = *self;
        self.balances.deposit(account, amount);
        proof {
            assert(self@ =~= (State {
                balances: pre@.balances.insert(account, (pre@.balances[account] + amount) as u64),
                ..pre@
            }));
        }
    }

    /// Registers a new event for `caller`, with outcome `0` (unresolved).
    pub fn initialize_bet_on_game(&mut self, caller: u64, event: Vec<u8>) -> (r: Result<
        (),
        DispatchError,
    >)
        requires
            old(self).wf(),
        ensures
            final(self).wf(),
            final(self).config_spec() == old(self).config_spec(),
            final(self).total_issuance() == old(self).total_issuance(),
            ({
                let (s2, r2) = spec_initialize(
                    old(self)@,
                    old(self).max_length_spec(),
                    caller,
                    event@,
                );
                final(self)@ == s2 && r == r2
            }),
    {
        if event.len() > self.config.max_length {
            return Err(DispatchError::Module(Error::TooLongName));
        }
        if self.events.contains(&event) {
            return Err(DispatchError::Module(Error::EventAlreadyExists));
        }
        let ghost pre = *self;
        let stored_name = event.clone();
        proof {
            assert(stored_name@ =~= event@);
        }
        self.events.insert(stored_name, 0);
        self.log.push(Event::EventInitialized { who: caller, name: event });
        proof {
            assert(self@.log =~= pre@.log.push(
                EventView::EventInitialized { who: caller, name: event@ },
            ));
            assert(self@ =~= spec_initialize(pre@, pre.max_length_spec(), caller, event@).0);
        }
        Ok(())
    }

    /// Records (or overwrites) the outcome of a registered event.
    pub fn set_game_result(&mut self, event: Vec<u8>, result: u8) -> (r: Result<
        (),
        DispatchError,
    >)
        requires
            old(self).wf(),
        ensures
            final(self).wf(),
            final(self).config_spec() == old(self).config_spec(),
            final(self).total_issuance() == old(self).total_issuance(),
            ({
                let (s2, r2) = spec_set_result(old(self)@, event@, result);
                final(self)@ == s2 && r == r2
            }),
    {
        if !self.events.contains(&event) {
            return Err(DispatchError::Module(Error::EventDoesNotExist));
        }
        let ghost pre = *self;
        self.events.set_outcome(&event, result);
        self.log.push(Event::OutcomeRecorded { name: event, outcome: result });
        proof {
            assert(self@.log =~= pre@.log.push(
                EventView::OutcomeRecorded { name: event@, outcome: result },
            ));
            assert(self@ =~= spec_set_result(pre@, event@, result).0);
        }
        Ok(())
    }

    /// Places a stake of `amount` on `team` for the named event, moving the
    /// amount from `caller` to the escrow account.
    pub fn bet(&mut self, caller: u64, event: Vec<u8>, team: u8, amount: u64) -> (r: Result<
        (),
        DispatchError,
    >)
        requires
            old(self).wf(),
        ensures
            final(self).wf(),
            final(self).config_spec() == old(self).config_spec(),
            final(self).total_issuance() == old(self).total_issuance(),
            ({
                let (s2, r2) = spec_bet(
                    old(self)@,
                    old(self).escrow_spec(),
                    caller,
                    event@,
                    team,
                    amount,
                );
                final(self)@ == s2 && r == r2
            }),
    {
        match self.events.get(&event) {
            None => {
                return Err(DispatchError::Module(Error::EventDoesNotExist));
            },
            Some(outcome) => {
                if outcome != 0 {
                    return Err(DispatchError::Module(Error::EventAlreadyEnded));
                }
            },
        }
        if team == 0 {
            return Err(DispatchError::Module(Error::CanNotBetOnZero));
        }
        if self.bets.contains(caller, &event) {
            return Err(DispatchError::Module(Error::AlreadyBet));
        }
        let ghost pre = *self;
        match self.balances.transfer(caller, self.config.escrow, amount) {
            Err(failure) => {
                return Err(DispatchError::Currency(failure));
            },
            Ok(()) => {},
        }
        self.bets.insert(caller, event, BetOnSomething { team, amount });
        self.log.push(Event::Bet { who: caller, amount, escrow: self.config.escrow });
        proof {
            assert(self@.log =~= pre@.log.push(
                EventView::Bet { who: caller, amount, escrow: pre.config.escrow },
            ));
            assert(self@ =~= spec_bet(pre@, pre.escrow_spec(), caller, event@, team, amount).0);
        }
        Ok(())
    }

    /// Settles the caller's stake on a resolved event: the stake is
    /// consumed either way, and a winning stake pays exactly twice the
    /// staked amount from escrow.
    pub fn claim_reward(&mut self, caller: u64, event: Vec<u8>) -> (r: Result<(), DispatchError>)
        requires
            old(self).wf(),
        ensures
            final(self).wf(),
            final(self).config_spec() == old(self).config_spec(),
            final(self).total_issuance() == old(self).total_issuance(),
            ({
                let (s2, r2) = spec_claim(old(self)@, old(self).escrow_spec(), caller, event@);
                final(self)@ == s2 && r == r2
            }),
    {
        let stake = match self.bets.get(caller, &event) {
            None => {
                return Err(DispatchError::Module(Error::DidNotBet));
            },
            Some(b) => b,
        };
        let outcome = match self.events.get(&event) {
            None => {
                return Err(DispatchError::Module(Error::EventDoesNotExist));
            },
            Some(v) => v,
        };
        if outcome == 0 {
            return Err(DispatchError::Module(Error::EventHasNotEndedYet));
        }
        let ghost pre = *self;
        if stake.team != outcome {
            let _ = self.bets.take(caller, &event);
            self.log.push(Event::BetLost { who: caller });
            proof {
                assert(self@.log =~= pre@.log.push(EventView::BetLost { who: caller }));
                assert(self@ =~= spec_claim(pre@, pre.escrow_spec(), caller, event@).0);
            }
            return Ok(());
        }
        let payout = match stake.amount.checked_add(stake.amount) {
            Some(p) => p,
            None => {
                // Twice the stake exceeds what any account can hold, so the
                // escrow cannot cover it.
                return Err(DispatchError::Currency(CurrencyError::InsufficientFunds));
            },
        };
        match self.balances.transfer(self.config.escrow, caller, payout) {
            Err(failure) => {
                return Err(DispatchError::Currency(failure));
            },
            Ok(()) => {},
        }
        let _ = self.bets.take(caller, &event);
        self.log.push(Event::RewardClaimed { who: caller, amount: payout });
        proof {
            assert(self@.log =~= pre@.log.push(
                EventView::RewardClaimed { who: caller, amount: payout },
            ));
            assert(self@ =~= spec_claim(pre@, pre.escrow_spec(), caller, event@).0);
        }
        Ok(())
    }

    /// Withdraws the caller's stake before resolution.  The record is
    /// deleted; the escrowed amount is deliberately not refunded.
    pub fn remove_bet(&mut self, caller: u64, event: Vec<u8>) -> (r: Result<(), DispatchError>)
        requires
            old(self).wf(),
        ensures
            final(self).wf(),
            final(self).config_spec() == old(self).config_spec(),
            final(self).total_issuance() == old(self).total_issuance(),
            ({
                let (s2, r2) = spec_remove(old(self)@, caller, event@);
                final(self)@ == s2 && r == r2
            }),
    {
        if !self.bets.contains(caller, &event) {
            return Err(DispatchError::Module(Error::DidNotBet));
        }
        let ghost pre = *self;
        let _ = self.bets.take(caller, &event);
        self.log.push(Event::BetRemoved { who: caller });
        proof {
            assert(self@.log =~= pre@.log.push(EventView::BetRemoved { who: caller }));
            assert(self@ =~= spec_remove(pre@, caller, event@).0);
        }
        Ok(())
    }

    /// The stored outcome of the named event, if it is registered.
    pub fn query(&self, event: &Vec<u8>) -> (r: Option<u8>)
        requires
            self.wf(),
        ensures
            match r {
                Some(v) => self@.events.contains_key(event@) && v == self@.events[event@],
                None => !self@.events.contains_key(event@),
            },
    {
        self.events.get(event)
    }

    /// The stake held under `(account, event)`, if any.
    pub fn get_bet(&self, account: u64, event: &Vec<u8>) -> (r: Option<BetOnSomething>)
        requires
            self.wf(),
        ensures
            match r {
                Some(b) => self@.bets.contains_key((account, event@)) && b == self@.bets[(
                    account,
                    event@,
                )],
                None => !self@.bets.contains_key((account, event@)),
            },
    {
        self.bets.get(account, event)
    }

    /// The balance held by `account`.
    pub fn balance_of(&self, account: u64) -> (r: u64)
        requires
            self.wf(),
        ensures
            r == self@.balances[account],
    {
        self.balances.balance_of(account)
    }

    /// The escrow account's identifier.
    pub fn escrow_account(&self) -> (r: u64)
        ensures
            r == self.escrow_spec(),
    {
        self.config.escrow
    }

    /// How many notifications have been emitted.
    pub fn log_len(&self) -> (r: usize)
        ensures
            r == self@.log.len(),
    {
        self.log.len()
    }

    /// The `i`-th notification, oldest first.
    pub fn log_at(&self, i: usize) -> (r: &Event)
        requires
            i < self@.log.len(),
        ensures
            r@ == self@.log[i as int],
    {
        &self.log[i]
    }
}

} // verus!
