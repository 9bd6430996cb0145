//! The ledger's error taxonomy.
//!
//! Every failure is a value, never a panic.  `AlreadyClaimedReward`,
//! `NotEnoughFunds` and `TooLongName` on betting operations are reserved
//! kinds of the taxonomy: the current operations never produce the first
//! two, and a stake operation never sees an over-long name because such a
//! name can never have been registered.

use vstd::prelude::*;

use crate::currency::CurrencyError;

verus! {

/// A failure of one of the ledger's own precondition checks.
#[derive(Clone, Copy, Debug, PartialEq, Eq, Structural)]
pub enum Error {
    /// A registration named an event that is already present.
    EventAlreadyExists,
    /// An operation named an event that was never registered.
    EventDoesNotExist,
    /// A stake was offered on an event whose outcome is already recorded.
    EventAlreadyEnded,
    /// A settlement was requested before the event's outcome was recorded.
    EventHasNotEndedYet,
    /// A stake was offered on team `0`, which stands for "unresolved".
    CanNotBetOnZero,
    /// A stake was offered where one is already held for the same key.
    AlreadyBet,
    /// A settlement or withdrawal named a key that holds no stake.
    DidNotBet,
    /// Reserved: no current operation produces it.
    AlreadyClaimedReward,
    /// Reserved: a currency failure is reported as the collaborator's own.
    NotEnoughFunds,
    /// A registration named an event longer than the configured maximum.
    TooLongName,
}

/// The outcome of dispatching an operation: either a failed check of the
/// ledger itself, or a failure reported by the currency collaborator and
/// passed through unmapped.
#[derive(Clone, Copy, Debug, PartialEq, Eq, Structural)]
pub enum DispatchError {
    /// One of the ledger's own checks failed.
    Module(Error),
    /// The currency collaborator refused a transfer.
    Currency(CurrencyError),
}

} // verus!
