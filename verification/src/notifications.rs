//! The domain notifications that operations append to the log.
//!
//! The log is fire-and-forget: the ledger appends and never reads it back.
//! `EventView` is the mathematical image of a notification, with names as
//! byte sequences, and is what the contracts and the state model speak of.

use vstd::prelude::*;

verus! {

/// A notification appended by a successful operation.
pub enum Event {
    /// A new event was registered by `who`.
    EventInitialized { who: u64, name: Vec<u8> },
    /// The outcome of `name` was recorded (or overwritten).
    OutcomeRecorded { name: Vec<u8>, outcome: u8 },
    /// `who` staked `amount`, now held by the escrow account.
    Bet { who: u64, amount: u64, escrow: u64 },
    /// `who` settled a stake whose team did not win; no funds moved.
    BetLost { who: u64 },
    /// `who` settled a winning stake and was paid `amount` from escrow.
    RewardClaimed { who: u64, amount: u64 },
    /// `who` withdrew a stake before resolution; the escrowed funds stay.
    BetRemoved { who: u64 },
}

/// The mathematical image of a notification.
pub enum EventView {
    EventInitialized { who: u64, name: Seq<u8> },
    OutcomeRecorded { name: Seq<u8>, outcome: u8 },
    Bet { who: u64, amount: u64, escrow: u64 },
    BetLost { who: u64 },
    RewardClaimed { who: u64, amount: u64 },
    BetRemoved { who: u64 },
}

impl View for Event {
    type V = EventView;

    open spec fn view(&self) -> EventView {
        match self {
            Event::EventInitialized { who, name } => EventView::EventInitialized {
                who: *who,
                name: name@,
            },
            Event::OutcomeRecorded { name, outcome } => EventView::OutcomeRecorded {
                name: name@,
                outcome: *outcome,
            },
            Event::Bet { who, amount, escrow } => EventView::Bet {
                who: *who,
                amount: *amount,
                escrow: *escrow,
            },
            Event::BetLost { who } => EventView::BetLost { who: *who },
            Event::RewardClaimed { who, amount } => EventView::RewardClaimed {
                who: *who,
                amount: *amount,
            },
            Event::BetRemoved { who } => EventView::BetRemoved { who: *who },
        }
    }
}

} // verus!
