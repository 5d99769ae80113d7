//! Betting within one street of a heads-up hand.

use crate::action::ActionKind;
use crate::text::{decimal, u64_to_decimal};
use crate::{ChipCount, Seat};
use vstd::prelude::*;

verus! {

/// Betting state of one street.
#[derive(Debug, Clone, Default)]
pub struct Betting {
    bets: [ChipCount; 2],
    current_high: ChipCount,
    min_raise: ChipCount,
    total_pot: ChipCount,
    round_complete: bool,
    stacks: [ChipCount; 2],
    acted_this_round: [bool; 2],
    all_in: [bool; 2],
    first_actor: Seat,
}

/// Mathematical picture of a `Betting`.
pub struct BettingState {
    /// Chips each seat has put in on this street.
    pub bets: Seq<u64>,
    /// Highest bet on this street.
    pub current_high: u64,
    /// Smallest allowed raise increment.
    pub min_raise: u64,
    /// Chips put in on this street by both seats.
    pub total_pot: u64,
    pub round_complete: bool,
    /// Chips each seat has behind.
    pub stacks: Seq<u64>,
    pub acted: Seq<bool>,
    pub all_in: Seq<bool>,
    /// Seat that acts first on this street.
    pub first_actor: u8,
}

/// Why a betting action was refused.
#[derive(Debug, Clone)]
pub enum BettingError {
    InvalidAmount,
    InsufficientStack(ChipCount, ChipCount),
    BelowMinRaise(ChipCount, ChipCount),
    OutOfTurn(Seat),
    IllegalAction(String),
    RoundComplete,
    CannotAffordSmallBlind(Seat, ChipCount, ChipCount),
    CannotAffordBigBlind(Seat, ChipCount, ChipCount),
}

/// Mathematical picture of a `BettingError`.
pub enum BettingErrorView {
    InvalidAmount,
    InsufficientStack(u64, u64),
    BelowMinRaise(u64, u64),
    OutOfTurn(u8),
    IllegalAction(Seq<char>),
    RoundComplete,
    CannotAffordSmallBlind(u8, u64, u64),
    CannotAffordBigBlind(u8, u64, u64),
}

impl View for BettingError {
    type V = BettingErrorView;

    open spec fn view(&self) -> BettingErrorView {
        match self {
            BettingError::InvalidAmount => BettingErrorView::InvalidAmount,
            BettingError::InsufficientStack(a, b) => BettingErrorView::InsufficientStack(*a, *b),
            BettingError::BelowMinRaise(a, b) => BettingErrorView::BelowMinRaise(*a, *b),
            BettingError::OutOfTurn(s) => BettingErrorView::OutOfTurn(*s),
            BettingError::IllegalAction(m) => BettingErrorView::IllegalAction(m@),
            BettingError::RoundComplete => BettingErrorView::RoundComplete,
            BettingError::CannotAffordSmallBlind(s, a, b) => BettingErrorView::CannotAffordSmallBlind(
                *s,
                *a,
                *b,
            ),
            BettingError::CannotAffordBigBlind(s, a, b) => BettingErrorView::CannotAffordBigBlind(
                *s,
                *a,
                *b,
            ),
        }
    }
}

impl View for Betting {
    type V = BettingState;

    closed spec fn view(&self) -> BettingState {
        BettingState {
            bets: self.bets@,
            current_high: self.current_high,
            min_raise: self.min_raise,
            total_pot: self.total_pot,
            round_complete: self.round_complete,
            stacks: self.stacks@,
            acted: self.acted_this_round@,
            all_in: self.all_in@,
            first_actor: self.first_actor,
        }
    }
}

/// The message of a betting error, as it is shown to players.
pub open spec fn betting_error_text(e: BettingErrorView) -> Seq<char> {
    match e {
        BettingErrorView::InvalidAmount => "invalid bet amount: amount must be provided for bet/raise/call actions"@,
        BettingErrorView::InsufficientStack(has, needs) => "insufficient stack: player has "@
            + decimal(has as nat) + " chips but needs "@ + decimal(needs as nat),
        BettingErrorView::BelowMinRaise(min, got) => "bet below minimum raise: total bet must be at least "@
            + decimal(min as nat) + ", got "@ + decimal(got as nat),
        BettingErrorView::OutOfTurn(s) => "action out of turn: it is seat "@ + decimal(s as nat)
            + "'s turn to act"@,
        BettingErrorView::IllegalAction(m) => "illegal action: "@ + m,
        BettingErrorView::RoundComplete => "betting round already complete"@,
        BettingErrorView::CannotAffordSmallBlind(s, has, needs) => "player at seat "@ + decimal(
            s as nat,
        ) + " cannot afford small blind: has "@ + decimal(has as nat) + ", needs "@ + decimal(
            needs as nat,
        ),
        BettingErrorView::CannotAffordBigBlind(s, has, needs) => "player at seat "@ + decimal(
            s as nat,
        ) + " cannot afford big blind: has "@ + decimal(has as nat) + ", needs "@ + decimal(
            needs as nat,
        ),
    }
}

impl BettingError {
    /// The message of the error (see `betting_error_text`).
    pub fn to_text(&self) -> (s: String)
        ensures
            s@ == betting_error_text(self@),
    {
        match self {
            BettingError::InvalidAmount => String::from_str(
                "invalid bet amount: amount must be provided for bet/raise/call actions",
            ),
            BettingError::InsufficientStack(has, needs) => String::from_str(
                "insufficient stack: player has ",
            ).concat(u64_to_decimal(*has).as_str()).concat(" chips but needs ").concat(
                u64_to_decimal(*needs).as_str(),
            ),
            BettingError::BelowMinRaise(min, got) => String::from_str(
                "bet below minimum raise: total bet must be at least ",
            ).concat(u64_to_decimal(*min).as_str()).concat(", got ").concat(
                u64_to_decimal(*got).as_str(),
            ),
            BettingError::OutOfTurn(s) => String::from_str("action out of turn: it is seat ").concat(
                u64_to_decimal(*s as u64).as_str(),
            ).concat("'s turn to act"),
            BettingError::IllegalAction(m) => String::from_str("illegal action: ").concat(m.as_str()),
            BettingError::RoundComplete => String::from_str("betting round already complete"),
            BettingError::CannotAffordSmallBlind(s, has, needs) => String::from_str(
                "player at seat ",
            ).concat(u64_to_decimal(*s as u64).as_str()).concat(
                " cannot afford small blind: has ",
            ).concat(u64_to_decimal(*has).as_str()).concat(", needs ").concat(
                u64_to_decimal(*needs).as_str(),
            ),
            BettingError::CannotAffordBigBlind(s, has, needs) => String::from_str(
                "player at seat ",
            ).concat(u64_to_decimal(*s as u64).as_str()).concat(" cannot afford big blind: has ").concat(
                u64_to_decimal(*has).as_str(),
            ).concat(", needs ").concat(u64_to_decimal(*needs).as_str()),
        }
    }
}

/// `a + b`, or `u64::MAX` when that overflows.
pub open spec fn sat_add(a: u64, b: u64) -> u64 {
    if a + b > u64::MAX {
        u64::MAX
    } else {
        (a + b) as u64
    }
}

/// `a - b`, or 0 when that would be negative.
pub open spec fn sat_sub(a: u64, b: u64) -> u64 {
    if a >= b {
        (a - b) as u64
    } else {
        0
    }
}

/// Every per-seat sequence has one entry per seat and the first actor is a seat.
pub open spec fn betting_shape(st: BettingState) -> bool {
    &&& st.bets.len() == 2
    &&& st.stacks.len() == 2
    &&& st.acted.len() == 2
    &&& st.all_in.len() == 2
    &&& st.first_actor < 2
}

/// Chips `seat` must add to match the highest bet.
pub open spec fn to_call(st: BettingState, seat: int) -> u64 {
    sat_sub(st.current_high, st.bets[seat])
}

/// `seat` puts `x` more chips in: its bet and the pot grow, its stack shrinks, and it is
/// all-in once its stack is empty.
pub open spec fn contribute(st: BettingState, seat: int, x: u64) -> BettingState {
    let new_stack = sat_sub(st.stacks[seat], x);
    BettingState {
        bets: st.bets.update(seat, sat_add(st.bets[seat], x)),
        total_pot: sat_add(st.total_pot, x),
        stacks: st.stacks.update(seat, new_stack),
        all_in: if new_stack == 0 {
            st.all_in.update(seat, true)
        } else {
            st.all_in
        },
        ..st
    }
}

/// `seat` has acted; the round completes when both seats are all-in, or both have acted and
/// either the bets are equal or a seat is all-in.
pub open spec fn marked(st: BettingState, seat: int) -> BettingState {
    let acted = st.acted.update(seat, true);
    let done = (st.all_in[0] && st.all_in[1]) || (acted[0] && acted[1] && (st.bets[0]
        == st.bets[1] || st.all_in[0] || st.all_in[1]));
    BettingState { acted, round_complete: st.round_complete || done, ..st }
}

/// Message refusing a check while `c` chips are to be called.
pub open spec fn check_refused_msg(c: u64) -> Seq<char> {
    "cannot check: must call "@ + decimal(c as nat) + " chips"@
}

/// Message refusing a call of more than the `c` chips to be called.
pub open spec fn overcall_refused_msg(c: u64) -> Seq<char> {
    "cannot call more than "@ + decimal(c as nat) + " chips (use raise to increase bet)"@
}

/// Message refusing a bet when a bet already stands.
pub open spec fn bet_refused_msg() -> Seq<char> {
    "cannot bet: there is already a bet in this round, use raise instead"@
}

/// Message refusing a raise when there is no bet.
pub open spec fn raise_refused_msg() -> Seq<char> {
    "cannot raise: no bet to raise, use bet instead"@
}

/// Inputs on which applying an action overflows `call + min_raise` (the bound of an overcall).
pub open spec fn apply_overflows(st: BettingState, seat: int, kind: ActionKind, amount: Option<u64>) -> bool {
    &&& !st.round_complete
    &&& kind == ActionKind::Call
    &&& to_call(st, seat) != 0
    &&& amount matches Some(a) && a <= st.stacks[seat] && a > to_call(st, seat) && to_call(st, seat)
        + st.min_raise > u64::MAX
}

/// The inputs `apply_action` accepts: a seat is needed unless the round is over or the action
/// is a fold, and the overcall bound must not overflow.
pub open spec fn apply_allowed(st: BettingState, seat: int, kind: ActionKind, amount: Option<u64>) -> bool {
    &&& (!st.round_complete && kind != ActionKind::Fold) ==> 0 <= seat < 2
    &&& !apply_overflows(st, seat, kind, amount)
}

/// The result of `seat` taking action `kind` with `amount` on state `st`.
pub open spec fn apply_outcome(st: BettingState, seat: int, kind: ActionKind, amount: Option<u64>) -> Result<BettingState, BettingErrorView> {
    if st.round_complete {
        Err(BettingErrorView::RoundComplete)
    } else {
        match kind {
            ActionKind::Fold => Ok(BettingState { round_complete: true, ..st }),
            ActionKind::Check => if to_call(st, seat) != 0 {
                Err(BettingErrorView::IllegalAction(check_refused_msg(to_call(st, seat))))
            } else {
                Ok(marked(st, seat))
            },
            ActionKind::Call => {
                let c = to_call(st, seat);
                if c == 0 {
                    Ok(marked(st, seat))
                } else {
                    match amount {
                        None => Err(BettingErrorView::InvalidAmount),
                        Some(a) => if a > st.stacks[seat] {
                            Err(BettingErrorView::InsufficientStack(st.stacks[seat], a))
                        } else if a > c && a < c + st.min_raise {
                            Err(BettingErrorView::IllegalAction(overcall_refused_msg(c)))
                        } else {
                            Ok(marked(contribute(st, seat, if a < c { a } else { c }), seat))
                        },
                    }
                }
            },
            ActionKind::Bet => if st.current_high != 0 {
                Err(BettingErrorView::IllegalAction(bet_refused_msg()))
            } else {
                match amount {
                    None => Err(BettingErrorView::InvalidAmount),
                    Some(a) => if a > st.stacks[seat] {
                        Err(BettingErrorView::InsufficientStack(st.stacks[seat], a))
                    } else if a < st.min_raise && a != st.stacks[seat] {
                        Err(BettingErrorView::BelowMinRaise(st.min_raise, a))
                    } else {
                        let s1 = contribute(st, seat, a);
                        Ok(
                            marked(
                                BettingState {
                                    current_high: a,
                                    min_raise: a,
                                    acted: seq![false, false],
                                    ..s1
                                },
                                seat,
                            ),
                        )
                    },
                }
            },
            ActionKind::Raise => if st.current_high == 0 {
                Err(BettingErrorView::IllegalAction(raise_refused_msg()))
            } else {
                match amount {
                    None => Err(BettingErrorView::InvalidAmount),
                    Some(a) => if a > st.stacks[seat] {
                        Err(BettingErrorView::InsufficientStack(st.stacks[seat], a))
                    } else {
                        let total_after = sat_add(st.bets[seat], a);
                        let min_total = sat_add(st.current_high, st.min_raise);
                        if total_after < min_total && a != st.stacks[seat] {
                            Err(BettingErrorView::BelowMinRaise(min_total, total_after))
                        } else {
                            let s1 = contribute(st, seat, a);
                            let s2 = if total_after > st.current_high {
                                BettingState {
                                    min_raise: sat_sub(total_after, st.current_high),
                                    current_high: total_after,
                                    acted: seq![false, false],
                                    ..s1
                                }
                            } else {
                                s1
                            };
                            Ok(marked(s2, seat))
                        }
                    },
                }
            },
        }
    }
}

/// Seat whose turn it is: none once the round is over or both have acted; otherwise the first
/// actor if nobody has acted, else the seat that has not.
pub open spec fn acting_spec(st: BettingState) -> Option<u8> {
    if st.round_complete {
        None
    } else if !st.acted[0] && !st.acted[1] {
        Some(st.first_actor)
    } else if st.acted[0] && !st.acted[1] {
        Some(1u8)
    } else if !st.acted[0] && st.acted[1] {
        Some(0u8)
    } else {
        None
    }
}

/// The betting state after the blinds are posted, or the reason they cannot be.
pub open spec fn blinds_outcome(small_blind: u64, big_blind: u64, stacks: Seq<u64>, button: u8) -> Result<BettingState, BettingErrorView> {
    let sb = button as int;
    let bb = 1 - button;
    if stacks[sb] < small_blind {
        Err(BettingErrorView::CannotAffordSmallBlind(button, stacks[sb], small_blind))
    } else if stacks[bb] < big_blind {
        Err(BettingErrorView::CannotAffordBigBlind((1 - button) as u8, stacks[bb], big_blind))
    } else {
        Ok(
            BettingState {
                bets: seq![0u64, 0u64].update(sb, small_blind).update(bb, big_blind),
                current_high: big_blind,
                min_raise: big_blind,
                total_pot: sat_add(small_blind, big_blind),
                round_complete: false,
                stacks: stacks.update(sb, sat_sub(stacks[sb], small_blind)).update(
                    bb,
                    sat_sub(stacks.update(sb, sat_sub(stacks[sb], small_blind))[bb], big_blind),
                ),
                acted: seq![false, false],
                all_in: seq![false, false],
                first_actor: button,
            },
        )
    }
}

/// The betting state at the start of a post-flop street.
pub open spec fn street_start(big_blind: u64, stacks: Seq<u64>, button: u8) -> BettingState {
    BettingState {
        bets: seq![0u64, 0u64],
        current_high: 0,
        min_raise: big_blind,
        total_pot: 0,
        round_complete: false,
        stacks,
        acted: seq![false, false],
        all_in: seq![false, false],
        first_actor: (1 - button) as u8,
    }
}

/// Chips are accounted for: the street's pot is the sum of the two bets, and stacks plus pot
/// fit in a `u64`.
pub open spec fn chips_ok(st: BettingState) -> bool {
    &&& betting_shape(st)
    &&& st.bets[0] + st.bets[1] == st.total_pot
    &&& st.stacks[0] + st.stacks[1] + st.total_pot <= u64::MAX
}

/// All chips of a betting state: both stacks plus the street's pot.
pub open spec fn chips_total(st: BettingState) -> int {
    st.stacks[0] + st.stacks[1] + st.total_pot
}

/// Posting the blinds moves chips from the stacks into the pot and loses none.
pub proof fn law_blinds_conserve_chips(small_blind: u64, big_blind: u64, stacks: Seq<u64>, button: u8, st: BettingState)
    requires
        stacks.len() == 2,
        button < 2,
        stacks[0] + stacks[1] <= u64::MAX,
        blinds_outcome(small_blind, big_blind, stacks, button) == Ok::<BettingState, BettingErrorView>(st),
    ensures
        chips_ok(st),
        chips_total(st) == stacks[0] + stacks[1],
{
}

/// A new street starts with an empty pot and the same stacks.
pub proof fn law_street_start_conserves_chips(big_blind: u64, stacks: Seq<u64>, button: u8)
    requires
        stacks.len() == 2,
        button < 2,
        stacks[0] + stacks[1] <= u64::MAX,
    ensures
        chips_ok(street_start(big_blind, stacks, button)),
        chips_total(street_start(big_blind, stacks, button)) == stacks[0] + stacks[1],
{
}

/// Every accepted action keeps the chips accounted for: what leaves a stack enters the pot.
pub proof fn law_apply_conserves_chips(st: BettingState, seat: int, kind: ActionKind, amount: Option<u64>, st2: BettingState)
    requires
        chips_ok(st),
        0 <= seat < 2,
        apply_outcome(st, seat, kind, amount) == Ok::<BettingState, BettingErrorView>(st2),
    ensures
        chips_ok(st2),
        chips_total(st2) == chips_total(st),
{
}

/// After an accepted action by `seat`, it is not `seat`'s turn: seats never act twice in a row.
pub proof fn law_no_double_turn(st: BettingState, seat: int, kind: ActionKind, amount: Option<u64>, st2: BettingState)
    requires
        betting_shape(st),
        0 <= seat < 2,
        apply_outcome(st, seat, kind, amount) == Ok::<BettingState, BettingErrorView>(st2),
    ensures
        acting_spec(st2) != Some(seat as u8),
{
}

/// A completed round is final: every further action is refused with `RoundComplete`.
pub proof fn law_complete_round_refuses(st: BettingState, seat: int, kind: ActionKind, amount: Option<u64>)
    requires
        st.round_complete,
    ensures
        apply_outcome(st, seat, kind, amount) == Err::<BettingState, BettingErrorView>(BettingErrorView::RoundComplete),
        acting_spec(st) is None,
{
}

/// A call of at least the amount to call (that is not refused) leaves nothing to call.
pub proof fn law_call_matches(st: BettingState, seat: int, amount: u64, st2: BettingState)
    requires
        chips_ok(st),
        0 <= seat < 2,
        amount >= to_call(st, seat),
        apply_outcome(st, seat, ActionKind::Call, Some(amount)) == Ok::<BettingState, BettingErrorView>(st2),
    ensures
        to_call(st2, seat) == 0,
{
}

/// The larger of two bets.
pub open spec fn max_bet(st: BettingState) -> u64 {
    if st.bets[0] >= st.bets[1] {
        st.bets[0]
    } else {
        st.bets[1]
    }
}

/// The chips of a betting state that started from stacks `start`: each seat's bet plus stack is
/// its starting stack, and the street's pot is the sum of the bets.
pub open spec fn seat_chips_from(st: BettingState, start: Seq<u64>) -> bool {
    &&& betting_shape(st)
    &&& start.len() == 2
    &&& start[0] + start[1] <= u64::MAX
    &&& st.bets[0] + st.stacks[0] == start[0]
    &&& st.bets[1] + st.stacks[1] == start[1]
    &&& st.total_pot == st.bets[0] + st.bets[1]
}

/// A betting state reached from starting stacks `start` (see `seat_chips_from`) whose highest
/// bet is also the larger of the two bets.
pub open spec fn kept_from(st: BettingState, start: Seq<u64>) -> bool {
    &&& seat_chips_from(st, start)
    &&& st.current_high == max_bet(st)
}

/// Posting any blinds starts with each seat's chips kept: what a seat posts leaves its stack.
pub proof fn law_blinds_keep_seat_chips(small_blind: u64, big_blind: u64, stacks: Seq<u64>, button: u8, st: BettingState)
    requires
        stacks.len() == 2,
        button < 2,
        stacks[0] + stacks[1] <= u64::MAX,
        blinds_outcome(small_blind, big_blind, stacks, button) == Ok::<BettingState, BettingErrorView>(st),
    ensures
        seat_chips_from(st, stacks),
{
}

/// Every accepted action keeps each seat's chips, whatever the blinds were: a seat's bet plus
/// stack stays its starting stack and the street's pot stays the sum of the bets.
pub proof fn law_apply_keeps_each_seat(st: BettingState, start: Seq<u64>, seat: int, kind: ActionKind, amount: Option<u64>, st2: BettingState)
    requires
        seat_chips_from(st, start),
        0 <= seat < 2,
        apply_outcome(st, seat, kind, amount) == Ok::<BettingState, BettingErrorView>(st2),
    ensures
        seat_chips_from(st2, start),
{
}

/// Posting blinds (the small blind not above the big one) starts a state reached from the
/// stacks.
pub proof fn law_blinds_start_kept(small_blind: u64, big_blind: u64, stacks: Seq<u64>, button: u8, st: BettingState)
    requires
        stacks.len() == 2,
        button < 2,
        stacks[0] + stacks[1] <= u64::MAX,
        small_blind <= big_blind,
        blinds_outcome(small_blind, big_blind, stacks, button) == Ok::<BettingState, BettingErrorView>(st),
    ensures
        kept_from(st, stacks),
{
}

/// A new street starts a state reached from the stacks.
pub proof fn law_street_start_kept(big_blind: u64, stacks: Seq<u64>, button: u8)
    requires
        stacks.len() == 2,
        button < 2,
        stacks[0] + stacks[1] <= u64::MAX,
    ensures
        kept_from(street_start(big_blind, stacks, button), stacks),
{
}

/// Every accepted action keeps a state reached from the starting stacks: chips only move from
/// a seat's stack to its bet, none are made or lost, and the highest bet stays the larger bet.
pub proof fn law_apply_keeps_seat_chips(st: BettingState, start: Seq<u64>, seat: int, kind: ActionKind, amount: Option<u64>, st2: BettingState)
    requires
        kept_from(st, start),
        0 <= seat < 2,
        apply_outcome(st, seat, kind, amount) == Ok::<BettingState, BettingErrorView>(st2),
    ensures
        kept_from(st2, start),
{
}

/// In a state reached from starting stacks, the amount to call is the larger bet minus the
/// seat's own bet.
pub proof fn law_amount_to_call(st: BettingState, start: Seq<u64>, seat: int)
    requires
        kept_from(st, start),
        0 <= seat < 2,
    ensures
        to_call(st, seat) == max_bet(st) - st.bets[seat],
{
}

/// An accepted bet or raise that lifts the highest bet from `h` to `t` sets the minimum raise
/// to its own size `t - h`; the highest bet never falls, and a call, check, fold or raise that
/// does not lift it leaves the minimum raise alone.
pub proof fn law_raise_sets_minimum(st: BettingState, seat: int, kind: ActionKind, amount: Option<u64>, st2: BettingState)
    requires
        betting_shape(st),
        0 <= seat < 2,
        apply_outcome(st, seat, kind, amount) == Ok::<BettingState, BettingErrorView>(st2),
    ensures
        st2.current_high > st.current_high ==> st2.min_raise == st2.current_high - st.current_high,
        st2.current_high >= st.current_high,
        kind != ActionKind::Bet && st2.current_high == st.current_high ==> st2.min_raise == st.min_raise,
{
}

/// After an accepted bet or raise that lifts the highest bet from `h` to `t`, the other seat
/// may raise again by the same size: a raise to `t + (t - h)` that its stack covers is accepted
/// while the round goes on.
pub proof fn law_reraise_of_same_size(st: BettingState, seat: int, kind: ActionKind, amount: Option<u64>, st2: BettingState, a2: u64)
    requires
        betting_shape(st),
        0 <= seat < 2,
        apply_outcome(st, seat, kind, amount) == Ok::<BettingState, BettingErrorView>(st2),
        st.current_high < st2.current_high,
        !st2.round_complete,
        a2 <= st2.stacks[1 - seat],
        st2.bets[1 - seat] + a2 == 2 * st2.current_high - st.current_high,
        2 * st2.current_high - st.current_high <= u64::MAX,
    ensures
        apply_outcome(st2, 1 - seat, ActionKind::Raise, Some(a2)) is Ok,
{
    law_raise_sets_minimum(st, seat, kind, amount, st2);
}

impl Betting {
    /// Posts the blinds: the button posts the small blind and acts first before the flop, the
    /// other seat posts the big blind.
    pub fn new(small_blind: ChipCount, big_blind: ChipCount, stacks: [ChipCount; 2], button_position: Seat) -> (r: Result<Self, BettingError>)
        requires
            button_position < 2,
        ensures
            match r {
                Ok(b) => blinds_outcome(small_blind, big_blind, stacks@, button_position) == Ok::<BettingState, BettingErrorView>(b@),
                Err(e) => blinds_outcome(small_blind, big_blind, stacks@, button_position) == Err::<BettingState, BettingErrorView>(e@),
            },
    {
        let small_blind_seat = button_position;
        let big_blind_seat = 1 - button_position;
        if stacks[small_blind_seat as usize] < small_blind {
            return Err(
                BettingError::CannotAffordSmallBlind(
                    small_blind_seat,
                    stacks[small_blind_seat as usize],
                    small_blind,
                ),
            );
        }
        if stacks[big_blind_seat as usize] < big_blind {
            return Err(
                BettingError::CannotAffordBigBlind(
                    big_blind_seat,
                    stacks[big_blind_seat as usize],
                    big_blind,
                ),
            );
        }
        let mut bets: [ChipCount; 2] = [0, 0];
        bets[small_blind_seat as usize] = small_blind;
        bets[big_blind_seat as usize] = big_blind;
        let current_high = big_blind;
        let min_raise = big_blind;
        let total_pot = small_blind.saturating_add(big_blind);
        let mut new_stacks = stacks;
        let s0 = new_stacks[small_blind_seat as usize].saturating_sub(small_blind);
        new_stacks[small_blind_seat as usize] = s0;
        let s1 = new_stacks[big_blind_seat as usize].saturating_sub(big_blind);
        new_stacks[big_blind_seat as usize] = s1;
        let r = Betting {
            bets,
            current_high,
            min_raise,
            total_pot,
            round_complete: false,
            stacks: new_stacks,
            acted_this_round: [false, false],
            all_in: [false, false],
            first_actor: button_position,
        };
        proof {
            let spec_st = blinds_outcome(small_blind, big_blind, stacks@, button_position);
            assert(r@.bets =~= seq![0u64, 0u64].update(small_blind_seat as int, small_blind).update(big_blind_seat as int, big_blind));
            assert(r@.acted =~= seq![false, false]);
            assert(r@.all_in =~= seq![false, false]);
        }
        Ok(r)
    }

    /// The betting state at the start of a post-flop street.
    pub fn new_street(big_blind: ChipCount, stacks: [ChipCount; 2], button_position: Seat) -> (r: Self)
        requires
            button_position < 2,
        ensures
            r@ == street_start(big_blind, stacks@, button_position),
    {
        let r = Betting {
            bets: [0, 0],
            current_high: 0,
            min_raise: big_blind,
            total_pot: 0,
            round_complete: false,
            stacks,
            acted_this_round: [false, false],
            all_in: [false, false],
            first_actor: 1 - button_position,
        };
        assert(r@.bets =~= seq![0u64, 0u64]);
        assert(r@.acted =~= seq![false, false]);
        assert(r@.all_in =~= seq![false, false]);
        r
    }

    /// Returns the amount a player must call to stay in the hand.
    pub fn amount_to_call(&self, seat: Seat) -> (c: ChipCount)
        requires
            seat < 2,
        ensures
            c == to_call(self@, seat as int),
    {
        self.current_high.saturating_sub(self.bets[seat as usize])
    }

    /// Returns true if the betting round is complete.
    pub fn is_round_complete(&self) -> (b: bool)
        ensures
            b == self@.round_complete,
    {
        self.round_complete
    }

    /// Returns the current bets for each seat.
    pub fn bets(&self) -> (b: [ChipCount; 2])
        ensures
            b@ == self@.bets,
    {
        self.bets
    }

    /// Returns the chips put in on this street.
    pub fn total_pot(&self) -> (p: ChipCount)
        ensures
            p == self@.total_pot,
    {
        self.total_pot
    }

    /// Returns player stacks after accounting for bets this round.
    pub fn stacks(&self) -> (s: [ChipCount; 2])
        ensures
            s@ == self@.stacks,
    {
        self.stacks
    }

    /// Applies `seat`'s action `kind` with `amount`; on refusal nothing changes.
    pub fn apply_action(&mut self, seat: Seat, kind: ActionKind, amount: Option<ChipCount>) -> (r: Result<(), BettingError>)
        requires
            apply_allowed(old(self)@, seat as int, kind, amount),
        ensures
            match r {
                Ok(()) => apply_outcome(old(self)@, seat as int, kind, amount) == Ok::<BettingState, BettingErrorView>(final(self)@),
                Err(e) => apply_outcome(old(self)@, seat as int, kind, amount) == Err::<BettingState, BettingErrorView>(e@) && *final(self) == *old(self),
            },
    {
        if self.round_complete {
            return Err(BettingError::RoundComplete);
        }
        let ghost st = self@;
        match kind {
            ActionKind::Fold => {
                self.round_complete = true;
                Ok(())
            },
            ActionKind::Check => {
                let amount_to_call = self.amount_to_call(seat);
                if amount_to_call != 0 {
                    let msg = String::from_str("cannot check: must call ").concat(
                        u64_to_decimal(amount_to_call).as_str(),
                    ).concat(" chips");
                    return Err(BettingError::IllegalAction(msg));
                }
                self.mark_action(seat);
                Ok(())
            },
            ActionKind::Call => {
                let call_amount = self.amount_to_call(seat);
                if call_amount == 0 {
                    self.mark_action(seat);
                    return Ok(());
                }
                let amount = match amount {
                    Some(a) => a,
                    None => {
                        return Err(BettingError::InvalidAmount);
                    },
                };
                if amount > self.stacks[seat as usize] {
                    return Err(BettingError::InsufficientStack(self.stacks[seat as usize], amount));
                }
                let actual_call = if amount < call_amount {
                    amount
                } else {
                    call_amount
                };
                if amount > call_amount && amount < call_amount + self.min_raise {
                    let msg = String::from_str("cannot call more than ").concat(
                        u64_to_decimal(call_amount).as_str(),
                    ).concat(" chips (use raise to increase bet)");
                    return Err(BettingError::IllegalAction(msg));
                }
                self.contribute(seat, actual_call);
                self.mark_action(seat);
                Ok(())
            },
            ActionKind::Bet => {
                if self.current_high != 0 {
                    return Err(
                        BettingError::IllegalAction(
                            String::from_str(
                                "cannot bet: there is already a bet in this round, use raise instead",
                            ),
                        ),
                    );
                }
                let bet_amount = match amount {
                    Some(a) => a,
                    None => {
                        return Err(BettingError::InvalidAmount);
                    },
                };
                if bet_amount > self.stacks[seat as usize] {
                    return Err(BettingError::InsufficientStack(self.stacks[seat as usize], bet_amount));
                }
                if bet_amount < self.min_raise && bet_amount != self.stacks[seat as usize] {
                    return Err(BettingError::BelowMinRaise(self.min_raise, bet_amount));
                }
                self.contribute(seat, bet_amount);
                self.current_high = bet_amount;
                self.min_raise = bet_amount;
                self.acted_this_round = [false, false];
                proof {
                    assert(self@.acted =~= seq![false, false]);
                }
                self.mark_action(seat);
                Ok(())
            },
            ActionKind::Raise => {
                if self.current_high == 0 {
                    return Err(
                        BettingError::IllegalAction(
                            String::from_str("cannot raise: no bet to raise, use bet instead"),
                        ),
                    );
                }
                let raise_amount = match amount {
                    Some(a) => a,
                    None => {
                        return Err(BettingError::InvalidAmount);
                    },
                };
                if raise_amount > self.stacks[seat as usize] {
                    return Err(
                        BettingError::InsufficientStack(self.stacks[seat as usize], raise_amount),
                    );
                }
                let total_bet_after = self.bets[seat as usize].saturating_add(raise_amount);
                let min_total_bet = self.current_high.saturating_add(self.min_raise);
                if total_bet_after < min_total_bet {
                    let is_all_in = raise_amount == self.stacks[seat as usize];
                    if !is_all_in {
                        return Err(BettingError::BelowMinRaise(min_total_bet, total_bet_after));
                    }
                }
                self.contribute(seat, raise_amount);
                if total_bet_after > self.current_high {
                    self.min_raise = total_bet_after.saturating_sub(self.current_high);
                    self.current_high = total_bet_after;
                    self.acted_this_round = [false, false];
                    proof {
                        assert(self@.acted =~= seq![false, false]);
                    }
                }
                self.mark_action(seat);
                Ok(())
            },
        }
    }

    /// `seat` puts `x` more chips in (see `contribute`).
    fn contribute(&mut self, seat: Seat, x: ChipCount)
        requires
            seat < 2,
        ensures
            final(self)@ == contribute(old(self)@, seat as int, x),
    {
        let s = seat as usize;
        let nb = self.bets[s].saturating_add(x);
        self.bets[s] = nb;
        self.total_pot = self.total_pot.saturating_add(x);
        let ns = self.stacks[s].saturating_sub(x);
        self.stacks[s] = ns;
        if self.stacks[s] == 0 {
            self.all_in[s] = true;
        }
    }

    /// Mark that a player has acted this round (see `marked`).
    fn mark_action(&mut self, seat: Seat)
        requires
            seat < 2,
        ensures
            final(self)@ == marked(old(self)@, seat as int),
    {
        self.acted_this_round[seat as usize] = true;
        let both_acted = self.acted_this_round[0] && self.acted_this_round[1];
        let both_all_in = self.all_in[0] && self.all_in[1];
        let one_all_in = self.all_in[0] || self.all_in[1];
        let bets_equal = self.bets[0] == self.bets[1];
        if both_all_in || (both_acted && (bets_equal || one_all_in)) {
            self.round_complete = true;
        }
    }

    /// Whether the first actor is a seat (0 or 1).
    pub fn first_actor_is_seat(&self) -> (b: bool)
        ensures
            b == (self@.first_actor < 2),
    {
        self.first_actor < 2
    }

    /// Whether applying `kind` with `amount` for `seat` would overflow the overcall bound (see
    /// `apply_overflows`).
    pub fn call_bound_overflows(&self, seat: Seat, kind: ActionKind, amount: Option<ChipCount>) -> (b: bool)
        requires
            seat < 2,
        ensures
            b == apply_overflows(self@, seat as int, kind, amount),
    {
        if self.round_complete || kind != ActionKind::Call {
            return false;
        }
        let c = self.current_high.saturating_sub(self.bets[seat as usize]);
        if c == 0 {
            return false;
        }
        match amount {
            Some(a) => a <= self.stacks[seat as usize] && a > c && c > u64::MAX - self.min_raise,
            None => false,
        }
    }

    /// Seat whose turn it is, if any (see `acting_spec`).
    pub fn acting_seat(&self) -> (s: Option<Seat>)
        ensures
            s == acting_spec(self@),
    {
        if self.round_complete {
            return None;
        }
        if !self.acted_this_round[0] && !self.acted_this_round[1] {
            Some(self.first_actor)
        } else if self.acted_this_round[0] && !self.acted_this_round[1] {
            Some(1)
        } else if !self.acted_this_round[0] && self.acted_this_round[1] {
            Some(0)
        } else {
            None
        }
    }
}

} // verus!
