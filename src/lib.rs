//! A ledger-and-governance engine for a small data-contribution economy.
//!
//! Participants register to receive tokens, submit and cross-validate data
//! records for rewards, create and vote on proposals, and transfer tokens.
//! All state lives in one explicit [`ledger::Ledger`] value; every operation
//! takes the caller's identity and the current time as plain arguments.

pub mod types;
pub mod order;
pub mod model;
pub mod ledger;
pub mod laws;

pub use types::{ActionType, DataSubmission, EcoError, Identity, Proposal, User, VoteChoice};
