//! Tables, their configuration and identifiers.

use crate::betting::{blinds_outcome, sat_add, BettingErrorView, BettingState};
use crate::deck::shuffled_deck;
use crate::hand::{dealt_order, hand_id_unavailable, freshly_dealt, hand_error_text, Hand, HandError, HandErrorView};
use crate::ids::HandId;
use crate::player::Player;
use crate::text::{decimal, u64_to_decimal};
use crate::{ChipCount, Seat};
use vstd::prelude::*;

verus! {

/// Identifier of a table, such as "table-0".
#[derive(Debug, PartialEq, Eq, Hash)]
pub struct TableId(String);

impl View for TableId {
    type V = Seq<char>;

    closed spec fn view(&self) -> Seq<char> {
        self.0@
    }
}

impl Clone for TableId {
    fn clone(&self) -> (r: Self)
        ensures
            r@ == self@,
    {
        TableId(self.0.clone())
    }
}

impl TableId {
    /// The table identifier with text `s`.
    pub fn new(s: String) -> (t: TableId)
        ensures
            t@ == s@,
    {
        TableId(s)
    }

    /// The text of the identifier.
    pub fn as_str(&self) -> (s: &str)
        ensures
            s@ == self@,
    {
        self.0.as_str()
    }

    /// Whether both identifiers have the same text.
    pub fn same_as(&self, other: &TableId) -> (b: bool)
        ensures
            b == (self@ == other@),
    {
        self.0 == other.0
    }

    /// Reads a table identifier; the empty text is refused.
    pub fn parse(s: &str) -> (r: Result<TableId, String>)
        ensures
            s@.len() > 0 ==> (r matches Ok(t) && t@ == s@),
            s@.len() == 0 ==> (r matches Err(m) && m@ == "table ID cannot be empty"@),
    {
        if s.is_empty() {
            return Err(String::from_str("table ID cannot be empty"));
        }
        Ok(TableId(String::from_str(s)))
    }
}

/// Table settings.
#[derive(Debug, Clone, Copy, PartialEq, Eq, Structural)]
pub struct TableConfig {
    pub small_blind: ChipCount,
    pub big_blind: ChipCount,
    pub starting_stack: ChipCount,
    pub action_timeout_secs: u64,
    pub reconnection_timeout_secs: u64,
}

/// `a * b`, or `u64::MAX` when that overflows.
pub open spec fn sat_mul(a: u64, b: u64) -> u64 {
    if a * b > u64::MAX {
        u64::MAX
    } else {
        (a * b) as u64
    }
}

/// What is wrong with a table configuration, if anything: the small blind must be below the big
/// blind, the starting stack at least twenty big blinds, the action timeout at least one second,
/// and the reconnection timeout at least the action timeout.
pub open spec fn config_problem(c: TableConfig) -> Option<Seq<char>> {
    let min_stack = sat_mul(c.big_blind, 20);
    if c.small_blind >= c.big_blind {
        Some(
            "small_blind ("@ + decimal(c.small_blind as nat) + ") must be less than big_blind ("@
                + decimal(c.big_blind as nat) + ")"@,
        )
    } else if c.starting_stack < min_stack {
        Some(
            "starting_stack ("@ + decimal(c.starting_stack as nat)
                + ") must be at least big_blind * 20 ("@ + decimal(min_stack as nat) + ")"@,
        )
    } else if c.action_timeout_secs == 0 {
        Some("action_timeout_secs must be at least 1"@)
    } else if c.reconnection_timeout_secs < c.action_timeout_secs {
        Some(
            "reconnection_timeout_secs ("@ + decimal(c.reconnection_timeout_secs as nat)
                + ") must be >= action_timeout_secs ("@ + decimal(c.action_timeout_secs as nat)
                + ")"@,
        )
    } else {
        None
    }
}

impl TableConfig {
    /// Checks the configuration (see `config_problem`).
    pub fn validate(&self) -> (r: Result<(), String>)
        ensures
            r is Ok <==> config_problem(*self) is None,
            r matches Err(m) ==> config_problem(*self) == Some(m@),
    {
        if self.small_blind >= self.big_blind {
            return Err(
                String::from_str("small_blind (").concat(u64_to_decimal(self.small_blind).as_str()).concat(
                    ") must be less than big_blind (",
                ).concat(u64_to_decimal(self.big_blind).as_str()).concat(")"),
            );
        }
        let min_stack: u64 = if self.big_blind > u64::MAX / 20 {
            u64::MAX
        } else {
            self.big_blind * 20
        };
        if self.starting_stack < min_stack {
            return Err(
                String::from_str("starting_stack (").concat(
                    u64_to_decimal(self.starting_stack).as_str(),
                ).concat(") must be at least big_blind * 20 (").concat(
                    u64_to_decimal(min_stack).as_str(),
                ).concat(")"),
            );
        }
        if self.action_timeout_secs == 0 {
            return Err(String::from_str("action_timeout_secs must be at least 1"));
        }
        if self.reconnection_timeout_secs < self.action_timeout_secs {
            return Err(
                String::from_str("reconnection_timeout_secs (").concat(
                    u64_to_decimal(self.reconnection_timeout_secs).as_str(),
                ).concat(") must be >= action_timeout_secs (").concat(
                    u64_to_decimal(self.action_timeout_secs).as_str(),
                ).concat(")"),
            );
        }
        Ok(())
    }
}


/// Why a table operation was refused.
#[non_exhaustive]
#[derive(Debug)]
pub enum TableError {
    InvalidConfig(String),
    InvalidButtonPosition(Seat),
    SeatMismatch(Seat, usize),
    HandWithoutPlayers,
    SittingOutDuringHand(usize),
    NotEnoughPlayers,
    HandInProgress,
    SeatNotOccupied(usize),
    HandError(HandError),
}

/// Mathematical picture of a `TableError`.
pub enum TableErrorView {
    InvalidConfig(Seq<char>),
    InvalidButtonPosition(u8),
    SeatMismatch(u8, usize),
    HandWithoutPlayers,
    SittingOutDuringHand(usize),
    NotEnoughPlayers,
    HandInProgress,
    SeatNotOccupied(usize),
    HandError(HandErrorView),
}

impl View for TableError {
    type V = TableErrorView;

    open spec fn view(&self) -> TableErrorView {
        match self {
            TableError::InvalidConfig(m) => TableErrorView::InvalidConfig(m@),
            TableError::InvalidButtonPosition(s) => TableErrorView::InvalidButtonPosition(*s),
            TableError::SeatMismatch(s, i) => TableErrorView::SeatMismatch(*s, *i),
            TableError::HandWithoutPlayers => TableErrorView::HandWithoutPlayers,
            TableError::SittingOutDuringHand(i) => TableErrorView::SittingOutDuringHand(*i),
            TableError::NotEnoughPlayers => TableErrorView::NotEnoughPlayers,
            TableError::HandInProgress => TableErrorView::HandInProgress,
            TableError::SeatNotOccupied(i) => TableErrorView::SeatNotOccupied(*i),
            TableError::HandError(e) => TableErrorView::HandError(e@),
        }
    }
}

/// The message of a table error, as it is shown to players.
pub open spec fn table_error_text(e: TableErrorView) -> Seq<char> {
    match e {
        TableErrorView::InvalidConfig(m) => "invalid table config: "@ + m,
        TableErrorView::InvalidButtonPosition(s) => "invalid next button position: "@ + decimal(
            s as nat,
        ),
        TableErrorView::SeatMismatch(s, i) => "player seat "@ + decimal(s as nat)
            + " does not match index "@ + decimal(i as nat),
        TableErrorView::HandWithoutPlayers => "current hand exists but not both seats occupied"@,
        TableErrorView::SittingOutDuringHand(i) => "seat "@ + decimal(i as nat)
            + " is sitting out but hand is in progress"@,
        TableErrorView::NotEnoughPlayers => "cannot start hand: both seats must be occupied"@,
        TableErrorView::HandInProgress => "cannot start hand: a hand is already in progress"@,
        TableErrorView::SeatNotOccupied(i) => "seat "@ + decimal(i as nat) + " should be occupied"@,
        TableErrorView::HandError(h) => "hand error: "@ + hand_error_text(h),
    }
}

impl TableError {
    /// The message of the error (see `table_error_text`).
    pub fn to_text(&self) -> (s: String)
        ensures
            s@ == table_error_text(self@),
    {
        match self {
            TableError::InvalidConfig(m) => String::from_str("invalid table config: ").concat(
                m.as_str(),
            ),
            TableError::InvalidButtonPosition(s) => String::from_str(
                "invalid next button position: ",
            ).concat(u64_to_decimal(*s as u64).as_str()),
            TableError::SeatMismatch(s, i) => String::from_str("player seat ").concat(
                u64_to_decimal(*s as u64).as_str(),
            ).concat(" does not match index ").concat(u64_to_decimal(*i as u64).as_str()),
            TableError::HandWithoutPlayers => String::from_str(
                "current hand exists but not both seats occupied",
            ),
            TableError::SittingOutDuringHand(i) => String::from_str("seat ").concat(
                u64_to_decimal(*i as u64).as_str(),
            ).concat(" is sitting out but hand is in progress"),
            TableError::NotEnoughPlayers => String::from_str(
                "cannot start hand: both seats must be occupied",
            ),
            TableError::HandInProgress => String::from_str(
                "cannot start hand: a hand is already in progress",
            ),
            TableError::SeatNotOccupied(i) => String::from_str("seat ").concat(
                u64_to_decimal(*i as u64).as_str(),
            ).concat(" should be occupied"),
            TableError::HandError(h) => String::from_str("hand error: ").concat(h.to_text().as_str()),
        }
    }
}

/// A heads-up table: two seats, the hand in progress and the button for the next hand.
#[derive(Debug)]
pub struct Table {
    pub id: TableId,
    pub seats: [Option<Player>; 2],
    pub current_hand: Option<Hand>,
    pub next_button_position: Seat,
    pub hand_count: u64,
    pub config: TableConfig,
    /// Milliseconds since the Unix epoch.
    pub created_at: i64,
}

/// The player in seat `i` of `t`, if any.
pub open spec fn seat_of(t: Table, i: int) -> Option<Player> {
    t.seats@[i]
}

/// Both seats of `t` are occupied.
pub open spec fn both_seated(t: Table) -> bool {
    seat_of(t, 0) is Some && seat_of(t, 1) is Some
}

/// The stacks of the two seated players.
pub open spec fn seated_stacks(t: Table) -> Seq<u64> {
    seq![seat_of(t, 0)->0.stack, seat_of(t, 1)->0.stack]
}

/// What is wrong with a table, if anything: its configuration, the next button, a player in a
/// seat other than its own, or a hand in progress without two active players.
pub open spec fn table_problem(t: Table) -> Option<Seq<char>> {
    if config_problem(t.config) is Some {
        config_problem(t.config)
    } else if !(t.next_button_position < 2) {
        Some("invalid next_button_position "@ + decimal(t.next_button_position as nat))
    } else if seat_of(t, 0) matches Some(p) && p.seat != 0 {
        Some("player seat "@ + decimal(seat_of(t, 0)->0.seat as nat) + " does not match index 0"@)
    } else if seat_of(t, 1) matches Some(p) && p.seat != 1 {
        Some("player seat "@ + decimal(seat_of(t, 1)->0.seat as nat) + " does not match index 1"@)
    } else if t.current_hand is Some && !both_seated(t) {
        Some("current_hand exists but not both seats occupied"@)
    } else if t.current_hand is Some && seat_of(t, 0)->0.is_sitting_out {
        Some("seat 0 is sitting out but hand is in progress"@)
    } else if t.current_hand is Some && seat_of(t, 1)->0.is_sitting_out {
        Some("seat 1 is sitting out but hand is in progress"@)
    } else {
        None
    }
}

/// `b` is `a` with a new hand dealt at the next button, with the blinds from the configuration
/// and the seated players' stacks; the button moves to the other seat and the hand count grows.
pub open spec fn hand_started(a: Table, b: Table) -> bool {
    &&& b.current_hand matches Some(h) && freshly_dealt(
        h,
        a.config.small_blind,
        a.config.big_blind,
        a.next_button_position,
        seated_stacks(a),
    )
    &&& b.next_button_position == 1 - a.next_button_position
    &&& b.hand_count == sat_add(a.hand_count, 1)
    &&& b.id == a.id
    &&& b.seats == a.seats
    &&& b.config == a.config
    &&& b.created_at == a.created_at
}

/// The refusal a table gives to starting a hand, if any: both seats must be taken, no hand may be
/// in progress, and the blinds must be affordable.
pub open spec fn start_refusal(t: Table) -> Option<TableErrorView> {
    if !both_seated(t) {
        Some(TableErrorView::NotEnoughPlayers)
    } else if t.current_hand is Some {
        Some(TableErrorView::HandInProgress)
    } else {
        match blinds_outcome(
            t.config.small_blind,
            t.config.big_blind,
            seated_stacks(t),
            t.next_button_position,
        ) {
            Err(be) => Some(TableErrorView::HandError(HandErrorView::BlindsFailed(be))),
            Ok(_) => None,
        }
    }
}

/// `x` is the failure to draw a random identifier for a new hand.
pub open spec fn id_unavailable(x: TableErrorView) -> bool {
    x matches TableErrorView::HandError(e) && hand_id_unavailable(e)
}

impl Table {
    /// Checks the table (see `table_problem`).
    pub fn validate(&self) -> (r: Result<(), String>)
        ensures
            r is Ok <==> table_problem(*self) is None,
            r matches Err(m) ==> table_problem(*self) == Some(m@),
    {
        self.config.validate()?;
        if !crate::hand::seat_is_valid(self.next_button_position) {
            return Err(
                String::from_str("invalid next_button_position ").concat(
                    u64_to_decimal(self.next_button_position as u64).as_str(),
                ),
            );
        }
        if let Some(p) = &self.seats[0] {
            if p.seat != 0 {
                return Err(
                    String::from_str("player seat ").concat(u64_to_decimal(p.seat as u64).as_str()).concat(
                        " does not match index 0",
                    ),
                );
            }
        }
        if let Some(p) = &self.seats[1] {
            if p.seat != 1 {
                return Err(
                    String::from_str("player seat ").concat(u64_to_decimal(p.seat as u64).as_str()).concat(
                        " does not match index 1",
                    ),
                );
            }
        }
        if self.current_hand.is_some() {
            if self.seats[0].is_none() || self.seats[1].is_none() {
                return Err(String::from_str("current_hand exists but not both seats occupied"));
            }
            if let Some(p) = &self.seats[0] {
                if p.is_sitting_out {
                    return Err(String::from_str("seat 0 is sitting out but hand is in progress"));
                }
            }
            if let Some(p) = &self.seats[1] {
                if p.is_sitting_out {
                    return Err(String::from_str("seat 1 is sitting out but hand is in progress"));
                }
            }
        }
        Ok(())
    }

    /// Starts a hand with a deck shuffled by `seed` and identifier `hand_id` (see
    /// `start_refusal` and `hand_started`); a refused start changes nothing.
    pub fn start_hand_with_id(&mut self, seed: [u8; 32], hand_id: HandId) -> (r: Result<
        HandId,
        TableError,
    >)
        requires
            both_seated(*old(self)) && old(self).current_hand is None ==> old(self).next_button_position < 2,
        ensures
            start_refusal(*old(self)) matches Some(e) ==> (r matches Err(x) && x@ == e) && *final(self) == *old(self),
            start_refusal(*old(self)) is None ==> r == Ok::<HandId, TableError>(hand_id)
                && hand_started(*old(self), *final(self)) && final(self).current_hand->0.id
                == hand_id,
            start_refusal(*old(self)) is None ==> dealt_order(final(self).current_hand->0) == shuffled_deck(seed@),
    {
        let stacks = match self.seated_stacks() {
            Some(s) => s,
            None => {
                return Err(TableError::NotEnoughPlayers);
            },
        };
        if self.current_hand.is_some() {
            return Err(TableError::HandInProgress);
        }
        let hand = match Hand::deal_with_id(
            self.config.small_blind,
            self.config.big_blind,
            self.next_button_position,
            stacks,
            seed,
            hand_id,
        ) {
            Ok(h) => h,
            Err(e) => {
                return Err(TableError::HandError(e));
            },
        };
        let id = hand.id;
        self.current_hand = Some(hand);
        self.next_button_position = 1 - self.next_button_position;
        self.hand_count = self.hand_count.saturating_add(1);
        Ok(id)
    }

    /// Starts a hand with a deck shuffled by `seed` and a fresh random identifier (see
    /// `start_hand_with_id`). When both seats are taken and no hand is in progress, the
    /// identifier is drawn first, and the start fails unchanged if none can be had.
    pub fn start_hand(&mut self, seed: [u8; 32]) -> (r: Result<HandId, TableError>)
        requires
            both_seated(*old(self)) && old(self).current_hand is None ==> old(self).next_button_position < 2,
        ensures
            !both_seated(*old(self)) ==> (r matches Err(x) && x@ == TableErrorView::NotEnoughPlayers)
                && *final(self) == *old(self),
            both_seated(*old(self)) && old(self).current_hand is Some ==> (r matches Err(x) && x@
                == TableErrorView::HandInProgress) && *final(self) == *old(self),
            start_refusal(*old(self)) matches Some(e) ==> (r matches Err(x) && (x@ == e || id_unavailable(x@)))
                && *final(self) == *old(self),
            start_refusal(*old(self)) is None ==> (r matches Err(x) && id_unavailable(x@) && *final(self)
                == *old(self)) || ((r matches Ok(id) && final(self).current_hand->0.id == id)
                && hand_started(*old(self), *final(self)) && dealt_order(final(self).current_hand->0)
                == shuffled_deck(seed@)),
    {
        if self.seated_stacks().is_none() {
            return Err(TableError::NotEnoughPlayers);
        }
        if self.current_hand.is_some() {
            return Err(TableError::HandInProgress);
        }
        let hand_id = match HandId::new_v4() {
            Ok(h) => h,
            Err(e) => {
                return Err(TableError::HandError(HandError::IdUnavailable(e)));
            },
        };
        self.start_hand_with_id(seed, hand_id)
    }

    /// The stacks of the two seated players, if both seats are taken.
    fn seated_stacks(&self) -> (s: Option<[ChipCount; 2]>)
        ensures
            s is Some <==> both_seated(*self),
            s matches Some(a) ==> a@ == seated_stacks(*self),
    {
        match (&self.seats[0], &self.seats[1]) {
            (Some(p0), Some(p1)) => {
                let a = [p0.stack, p1.stack];
                assert(a@ =~= seated_stacks(*self));
                Some(a)
            },
            _ => None,
        }
    }
}

} // verus!
