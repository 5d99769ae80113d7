//! Player actions.

use crate::hand::seat_is_valid;
use crate::text::{decimal, u64_to_decimal};
use crate::Seat;
use vstd::prelude::*;

verus! {

/// What a player does on their turn.
#[non_exhaustive]
#[derive(Debug, Clone, Copy, PartialEq, Eq, Structural, Hash)]
pub enum ActionKind {
    Fold,
    Check,
    Call,
    Bet,
    Raise,
}

/// A player's decision at a given moment.
#[derive(Debug, Clone, Copy, PartialEq, Eq, Structural)]
pub struct Action {
    pub seat: Seat,
    pub kind: ActionKind,
    pub amount: Option<u64>,
    /// Milliseconds since the Unix epoch (UTC).
    pub timestamp: i64,
}

/// Why an action is malformed.
#[non_exhaustive]
#[derive(Debug, Clone, Copy, PartialEq, Eq, Structural)]
pub enum ActionError {
    InvalidSeat(Seat),
    UnexpectedAmount(ActionKind),
    MissingAmount(ActionKind),
    ZeroAmount(ActionKind),
}

/// The name of an action kind, as it is written in messages and logs.
pub open spec fn kind_name(k: ActionKind) -> Seq<char> {
    match k {
        ActionKind::Fold => "Fold"@,
        ActionKind::Check => "Check"@,
        ActionKind::Call => "Call"@,
        ActionKind::Bet => "Bet"@,
        ActionKind::Raise => "Raise"@,
    }
}

/// The outcome of checking an action's shape: the seat must be valid, Fold and Check carry no
/// amount, Call, Bet and Raise carry a positive one.
pub open spec fn action_check(a: Action) -> Result<(), ActionError> {
    if !(a.seat < 2) {
        Err(ActionError::InvalidSeat(a.seat))
    } else {
        match a.kind {
            ActionKind::Fold | ActionKind::Check => if a.amount is Some {
                Err(ActionError::UnexpectedAmount(a.kind))
            } else {
                Ok(())
            },
            _ => match a.amount {
                None => Err(ActionError::MissingAmount(a.kind)),
                Some(x) => if x == 0 {
                    Err(ActionError::ZeroAmount(a.kind))
                } else {
                    Ok(())
                },
            },
        }
    }
}

/// The action kind whose name is `s`, if any.
pub open spec fn kind_of_name(s: Seq<char>) -> Option<ActionKind> {
    if s == "Fold"@ {
        Some(ActionKind::Fold)
    } else if s == "Check"@ {
        Some(ActionKind::Check)
    } else if s == "Call"@ {
        Some(ActionKind::Call)
    } else if s == "Bet"@ {
        Some(ActionKind::Bet)
    } else if s == "Raise"@ {
        Some(ActionKind::Raise)
    } else {
        None
    }
}

/// The message of an action error, as it is shown to players.
pub open spec fn action_error_text(e: ActionError) -> Seq<char> {
    match e {
        ActionError::InvalidSeat(s) => "invalid seat: "@ + decimal(s as nat),
        ActionError::UnexpectedAmount(k) => kind_name(k) + " must not have amount"@,
        ActionError::MissingAmount(k) => kind_name(k) + " must have amount"@,
        ActionError::ZeroAmount(k) => kind_name(k) + " amount must be positive"@,
    }
}

impl ActionError {
    /// The message of the error (see `action_error_text`).
    pub fn to_text(&self) -> (s: String)
        ensures
            s@ == action_error_text(*self),
    {
        match self {
            ActionError::InvalidSeat(s) => String::from_str("invalid seat: ").concat(
                u64_to_decimal(*s as u64).as_str(),
            ),
            ActionError::UnexpectedAmount(k) => String::from_str(k.name()).concat(
                " must not have amount",
            ),
            ActionError::MissingAmount(k) => String::from_str(k.name()).concat(" must have amount"),
            ActionError::ZeroAmount(k) => String::from_str(k.name()).concat(
                " amount must be positive",
            ),
        }
    }
}

impl ActionKind {
    /// The name of the kind ("Fold", "Check", "Call", "Bet" or "Raise").
    pub fn name(&self) -> (s: &'static str)
        ensures
            s@ == kind_name(*self),
    {
        match self {
            ActionKind::Fold => "Fold",
            ActionKind::Check => "Check",
            ActionKind::Call => "Call",
            ActionKind::Bet => "Bet",
            ActionKind::Raise => "Raise",
        }
    }

    /// Reads an action kind from its name; anything else is refused with a message.
    pub fn parse(s: &str) -> (r: Result<ActionKind, String>)
        ensures
            kind_of_name(s@) matches Some(k) ==> r == Ok::<ActionKind, String>(k),
            kind_of_name(s@) is None ==> (r matches Err(msg) && msg@ == "invalid action kind: "@
                + s@),
    {
        if crate::text::str_eq(s, "Fold") {
            Ok(ActionKind::Fold)
        } else if crate::text::str_eq(s, "Check") {
            Ok(ActionKind::Check)
        } else if crate::text::str_eq(s, "Call") {
            Ok(ActionKind::Call)
        } else if crate::text::str_eq(s, "Bet") {
            Ok(ActionKind::Bet)
        } else if crate::text::str_eq(s, "Raise") {
            Ok(ActionKind::Raise)
        } else {
            Err(String::from_str("invalid action kind: ").concat(s))
        }
    }
}

impl Action {
    /// Checks the shape of the action (see `action_check`).
    pub fn validate(&self) -> (r: Result<(), ActionError>)
        ensures
            r == action_check(*self),
    {
        if !seat_is_valid(self.seat) {
            return Err(ActionError::InvalidSeat(self.seat));
        }
        match self.kind {
            ActionKind::Fold | ActionKind::Check => {
                if self.amount.is_some() {
                    return Err(ActionError::UnexpectedAmount(self.kind));
                }
            },
            ActionKind::Call | ActionKind::Bet | ActionKind::Raise => {
                let amount = match self.amount {
                    Some(a) => a,
                    None => {
                        return Err(ActionError::MissingAmount(self.kind));
                    },
                };
                if amount == 0 {
                    return Err(ActionError::ZeroAmount(self.kind));
                }
            },
        }
        Ok(())
    }
}

} // verus!
