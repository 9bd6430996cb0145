//! An event-outcome betting ledger.
//!
//! The crate models a small wagering system as an explicit state machine:
//! an event registry (named events, each with a single recorded outcome),
//! a bet ledger (at most one live stake per account and event), a balance
//! ledger with a designated escrow account, and an append-only notification
//! log.  Every operation is verified against a functional specification of
//! the whole transition, and the laws module proves the global properties
//! that relate several operations.

pub mod bets;
pub mod currency;
pub mod errors;
pub mod laws;
pub mod notifications;
pub mod pallet;
pub mod registry;
pub mod state;

pub use bets::BetOnSomething;
pub use bets::BetStore;
pub use currency::Balances;
pub use currency::CurrencyError;
pub use errors::DispatchError;
pub use errors::Error;
pub use notifications::Event;
pub use pallet::Config;
pub use pallet::Pallet;
pub use notifications::EventView;
pub use registry::EventRegistry;
pub use state::State;
