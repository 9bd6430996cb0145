//! Laws relating several operations, proved over the transition functions.
//!
//! Each law quantifies over every state its `requires` admits, so it covers
//! every history that reaches such a state, not just chosen examples.

use vstd::prelude::*;

use crate::errors::DispatchError;
use crate::errors::Error;
use crate::state::spec_bet;
use crate::state::spec_claim;
use crate::state::spec_initialize;
use crate::state::State;

verus! {

/// Registering the same name twice: the second registration fails with
/// `EventAlreadyExists`, changes nothing, and the outcome stored by the
/// first registration is still `0`.
pub proof fn lemma_register_twice(
    s: State,
    max_length: nat,
    first: u64,
    second: u64,
    name: Seq<u8>,
)
    requires
        spec_initialize(s, max_length, first, name).1 is Ok,
    ensures
        ({
            let s1 = spec_initialize(s, max_length, first, name).0;
            &&& s1.events[name] == 0
            &&& spec_initialize(s1, max_length, second, name).1 == Err::<(), DispatchError>(
                DispatchError::Module(Error::EventAlreadyExists),
            )
            &&& spec_initialize(s1, max_length, second, name).0 == s1
        }),
{
}

/// Placing a stake where none is held and the caller covers the amount
/// succeeds exactly when the event exists, is still open, and the team is
/// not `0`; each failing check reports its own kind, and a failed placement
/// changes nothing — in particular it moves no funds.
pub proof fn lemma_bet_conditions(
    s: State,
    escrow: u64,
    who: u64,
    name: Seq<u8>,
    team: u8,
    amount: u64,
)
    requires
        !s.bets.contains_key((who, name)),
        s.balances[who] >= amount,
    ensures
        spec_bet(s, escrow, who, name, team, amount).1 is Ok <==> (s.events.contains_key(name)
            && s.events[name] == 0 && team != 0),
        !s.events.contains_key(name) ==> spec_bet(s, escrow, who, name, team, amount).1
            == Err::<(), DispatchError>(DispatchError::Module(Error::EventDoesNotExist)),
        s.events.contains_key(name) && s.events[name] != 0 ==> spec_bet(
            s,
            escrow,
            who,
            name,
            team,
            amount,
        ).1 == Err::<(), DispatchError>(DispatchError::Module(Error::EventAlreadyEnded)),
        s.events.contains_key(name) && s.events[name] == 0 && team == 0 ==> spec_bet(
            s,
            escrow,
            who,
            name,
            team,
            amount,
        ).1 == Err::<(), DispatchError>(DispatchError::Module(Error::CanNotBetOnZero)),
        spec_bet(s, escrow, who, name, team, amount).1 is Err ==> spec_bet(
            s,
            escrow,
            who,
            name,
            team,
            amount,
        ).0 == s,
{
}

/// A stake is consumed by settlement: after any successful settlement, a
/// second settlement of the same key fails with `DidNotBet` and changes
/// nothing.
pub proof fn lemma_claim_twice(s: State, escrow: u64, who: u64, name: Seq<u8>)
    requires
        spec_claim(s, escrow, who, name).1 is Ok,
    ensures
        ({
            let s1 = spec_claim(s, escrow, who, name).0;
            &&& spec_claim(s1, escrow, who, name).1 == Err::<(), DispatchError>(
                DispatchError::Module(Error::DidNotBet),
            )
            &&& spec_claim(s1, escrow, who, name).0 == s1
        }),
{
}

/// Settling a winning stake consumes it and moves exactly twice the staked
/// amount from the escrow account to the winner, touching no other balance.
pub proof fn lemma_settlement_pays_double(s: State, escrow: u64, who: u64, name: Seq<u8>)
    requires
        s.bets.contains_key((who, name)),
        s.events.contains_key(name),
        s.events[name] != 0,
        s.bets[(who, name)].team == s.events[name],
        s.balances[escrow] >= 2 * s.bets[(who, name)].amount,
        s.balances[who] + 2 * s.bets[(who, name)].amount <= u64::MAX,
        who != escrow,
    ensures
        spec_claim(s, escrow, who, name).1 is Ok,
        ({
            let s1 = spec_claim(s, escrow, who, name).0;
            let staked = s.bets[(who, name)].amount;
            &&& s1.balances[who] == s.balances[who] + 2 * staked
            &&& s1.balances[escrow] == s.balances[escrow] - 2 * staked
            &&& forall|a: u64| a != who && a != escrow ==> s1.balances[a] == s.balances[a]
            &&& s1.bets == s.bets.remove((who, name))
            &&& s1.events == s.events
        }),
{
}

/// Settling a losing stake consumes it and moves no funds at all.
pub proof fn lemma_settlement_lost_moves_nothing(s: State, escrow: u64, who: u64, name: Seq<u8>)
    requires
        s.bets.contains_key((who, name)),
        s.events.contains_key(name),
        s.events[name] != 0,
        s.bets[(who, name)].team != s.events[name],
    ensures
        spec_claim(s, escrow, who, name).1 is Ok,
        ({
            let s1 = spec_claim(s, escrow, who, name).0;
            &&& s1.balances == s.balances
            &&& s1.bets == s.bets.remove((who, name))
            &&& s1.events == s.events
        }),
{
}

} // verus!
