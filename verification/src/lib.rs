//! Heads-up No-Limit Texas Hold'em: verified game engine, server decisions and client helpers.

pub mod action;
pub mod audit;
pub mod betting;
pub mod card;
pub mod client;
pub mod clock;
pub mod config;
pub mod deck;
pub mod hand;
pub mod hand_evaluation;
pub mod handshake;
pub mod ids;
pub mod messages;
pub mod payout;
pub mod player;
pub mod pot;
pub mod table;
pub mod table_manager;
pub mod text;

pub use card::{Card, Rank, Suit};

use vstd::prelude::*;

verus! {

/// Number of chips.
pub type ChipCount = u64;

/// A seat at a heads-up table (0 or 1).
pub type Seat = u8;

/// Number of seats at a table.
pub const NUM_SEATS: usize = 2;

} // verus!
