//! Players seated at a table.

use crate::ids::ConnectionId;
use crate::text::{decimal, u64_to_decimal};
use crate::{ChipCount, Seat};
use vstd::prelude::*;

verus! {

/// A connected player at a table.
#[derive(Debug, Clone, Copy, PartialEq, Eq, Structural)]
pub struct Player {
    pub seat: Seat,
    pub stack: ChipCount,
    /// Ephemeral, not persisted.
    pub connection_id: ConnectionId,
    /// When the player disconnected, in milliseconds since the Unix epoch.
    pub disconnected_at: Option<i64>,
    pub is_sitting_out: bool,
}

impl Player {
    /// The seat must be 0 or 1; the stack may be zero (busted).
    pub fn validate(&self) -> (r: Result<(), String>)
        ensures
            self.seat < 2 ==> r is Ok,
            self.seat >= 2 ==> (r matches Err(m) && m@ == "invalid seat "@ + decimal(self.seat as nat)),
    {
        if !crate::hand::seat_is_valid(self.seat) {
            return Err(String::from_str("invalid seat ").concat(u64_to_decimal(self.seat as u64).as_str()));
        }
        Ok(())
    }
}

} // verus!
