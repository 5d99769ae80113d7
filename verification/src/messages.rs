//! Messages of the JSON-over-TCP protocol between server and clients.

use crate::action::{Action, ActionKind};
use crate::card::Card;
use crate::clock::{millis_to_rfc3339, now_rfc3339, rfc3339_of_millis};
use crate::hand::{hole, seat_is_valid, Hand, Street};
use crate::ids::HandId;
use crate::player::Player;
use crate::pot::Pot;
use crate::table::{TableConfig, TableId};
use crate::text::{decimal, u64_to_decimal};
use crate::Seat;
use vstd::prelude::*;

verus! {

/// Version of the protocol this server speaks.
pub const PROTOCOL_VERSION: &'static str = "1.0";

/// Longest line a peer may send, in bytes (a line of this length or more is refused).
pub const MAX_MESSAGE_SIZE: usize = 65536;

/// Checks the length in bytes of a received line: lines of `MAX_MESSAGE_SIZE` bytes or more are
/// refused.
pub fn check_frame_len(len: usize) -> (r: Result<(), String>)
    ensures
        len < MAX_MESSAGE_SIZE ==> r is Ok,
        len >= MAX_MESSAGE_SIZE ==> (r matches Err(m) && m@ == "message exceeds maximum size of "@
            + decimal(MAX_MESSAGE_SIZE as nat) + " bytes"@),
{
    if len >= MAX_MESSAGE_SIZE {
        return Err(
            String::from_str("message exceeds maximum size of ").concat(
                u64_to_decimal(MAX_MESSAGE_SIZE as u64).as_str(),
            ).concat(" bytes"),
        );
    }
    Ok(())
}

/// All possible messages (client-to-server and server-to-client).
#[derive(Debug)]
pub enum Message {
    ClientHello { version: String, client_name: String, client_version: String },
    JoinTable { version: String, table_id: TableId, seat: u8 },
    Action { version: String, hand_id: HandId, kind: ActionKind, amount: Option<u64> },
    Heartbeat { version: String, timestamp: String },
    ServerHello { version: String, status: String, server_name: String, server_version: String },
    TableState {
        version: String,
        table_id: TableId,
        seats: Vec<TableSeat>,
        config: TableConfig,
        current_hand_id: Option<HandId>,
    },
    HandState {
        version: String,
        hand_id: HandId,
        table_id: TableId,
        /// Only the receiving player's own cards.
        hole_cards: Vec<Card>,
        community_cards: Vec<Card>,
        pot: Pot,
        current_street: Street,
        actions: Vec<Action>,
        player_stacks: [u64; 2],
        button_position: u8,
        /// RFC 3339 time of the last action.
        last_action_time: String,
        acting_seat: Option<u8>,
        time_remaining_ms: u64,
    },
    Error { version: String, code: String, message: String, original_type: String },
    Disconnected { version: String, reason: String },
}

/// Seat entry in a table state.
#[derive(Debug, Clone, Copy, PartialEq, Eq, Structural)]
pub struct TableSeat {
    pub seat: u8,
    pub player: Option<Player>,
}

/// Body of a client hello.
#[derive(Debug)]
pub struct ClientHello {
    pub client_name: String,
    pub client_version: String,
}

/// Body of a join request.
#[derive(Debug)]
pub struct JoinTable {
    pub table_id: TableId,
    pub seat: u8,
}

/// Body of an action message.
#[derive(Debug)]
pub struct ActionMessage {
    pub hand_id: HandId,
    pub kind: ActionKind,
    pub amount: Option<u64>,
}

/// Body of a heartbeat.
#[derive(Debug)]
pub struct Heartbeat {
    pub timestamp: String,
}

/// Body of a server hello.
#[derive(Debug)]
pub struct ServerHello {
    pub status: String,
    pub server_name: String,
    pub server_version: String,
}

/// Body of a table state.
#[derive(Debug)]
pub struct TableState {
    pub table_id: TableId,
    pub seats: Vec<TableSeat>,
    pub config: TableConfig,
    pub current_hand_id: Option<HandId>,
}

/// Body of a hand state.
#[derive(Debug)]
pub struct HandState {
    pub hand_id: HandId,
    pub table_id: TableId,
    pub hole_cards: Vec<Card>,
    pub community_cards: Vec<Card>,
    pub pot: Pot,
    pub current_street: Street,
    pub actions: Vec<Action>,
    pub player_stacks: [u64; 2],
    pub button_position: u8,
    pub last_action_time: String,
    pub acting_seat: Option<u8>,
    pub time_remaining_ms: u64,
}

/// Body of an error message.
#[derive(Debug)]
pub struct ErrorMessage {
    pub code: String,
    pub message: String,
    pub original_type: String,
}

/// Body of a disconnect notice.
#[derive(Debug)]
pub struct Disconnected {
    pub reason: String,
}

/// `m` is an error message with the given code, message and original type.
pub open spec fn is_error_msg(m: Message, code: Seq<char>, message: Seq<char>, original_type: Seq<char>) -> bool {
    m matches Message::Error { version, code: c, message: msg, original_type: o } && version@
        == "1.0"@ && c@ == code && msg@ == message && o@ == original_type
}

/// The table seats as a table state lists them: seat 0, then seat 1.
pub open spec fn seat_entries(seats: Seq<Option<Player>>) -> Seq<TableSeat> {
    seq![TableSeat { seat: 0, player: seats[0] }, TableSeat { seat: 1, player: seats[1] }]
}

/// `m` is the table state of table `table_id` with the given seats, configuration and hand.
pub open spec fn is_table_state_msg(
    m: Message,
    table_id: Seq<char>,
    seats: Seq<Option<Player>>,
    config: TableConfig,
    current_hand_id: Option<HandId>,
) -> bool {
    m matches Message::TableState { version, table_id: t, seats: s, config: c, current_hand_id: h }
        && version@ == "1.0"@ && t@ == table_id && s@ == seat_entries(seats) && c == config && h
        == current_hand_id
}

/// `m` is the state of `hand` at table `table_id` as seat `player_seat` sees it: its own hole
/// cards only (none for a seat other than 0 or 1), and everything public. The time of the last
/// action is the hand's, when it has one that can be written; otherwise it is the time of
/// writing, of which nothing is claimed.
pub open spec fn is_hand_state_msg(
    m: Message,
    hand: Hand,
    table_id: Seq<char>,
    player_seat: u8,
    acting_seat: Option<u8>,
    time_remaining_ms: u64,
) -> bool {
    &&& m matches Message::HandState {
        version,
        hand_id,
        table_id: t,
        hole_cards,
        community_cards,
        pot,
        current_street,
        actions,
        player_stacks,
        button_position,
        last_action_time,
        acting_seat: a,
        time_remaining_ms: ms,
    } && version@ == "1.0"@ && hand_id == hand.id && t@ == table_id && hole_cards@ == (if player_seat
        < 2 {
        hole(hand, player_seat as int)
    } else {
        seq![]
    }) && community_cards@ == hand.community_cards@ && pot@ == hand.pot@ && current_street
        == hand.current_street && actions@ == hand.actions@ && player_stacks == hand.player_stacks
        && button_position == hand.button_position && a == acting_seat && ms == time_remaining_ms
        && (hand.last_action_time matches Some(t0) ==> (rfc3339_of_millis(t0) matches Some(txt)
        ==> last_action_time@ == txt))
}

/// A copy of a list of cards.
pub fn copy_cards(v: &Vec<Card>) -> (r: Vec<Card>)
    ensures
        r@ == v@,
{
    let mut r: Vec<Card> = Vec::new();
    let mut i: usize = 0;
    while i < v.len()
        invariant
            i <= v@.len(),
            r@ == v@.take(i as int),
        decreases v@.len() - i,
    {
        r.push(v[i]);
        proof {
            assert(v@.take(i + 1) =~= v@.take(i as int).push(v@[i as int]));
        }
        i = i + 1;
    }
    assert(v@.take(i as int) =~= v@);
    r
}

/// A copy of a list of actions.
pub fn copy_actions(v: &Vec<Action>) -> (r: Vec<Action>)
    ensures
        r@ == v@,
{
    let mut r: Vec<Action> = Vec::new();
    let mut i: usize = 0;
    while i < v.len()
        invariant
            i <= v@.len(),
            r@ == v@.take(i as int),
        decreases v@.len() - i,
    {
        r.push(v[i]);
        proof {
            assert(v@.take(i + 1) =~= v@.take(i as int).push(v@[i as int]));
        }
        i = i + 1;
    }
    assert(v@.take(i as int) =~= v@);
    r
}

/// An error message with the given code, message and original message type.
pub fn make_error_msg(code: &str, message: &str, original_type: &str) -> (m: Message)
    ensures
        is_error_msg(m, code@, message@, original_type@),
{
    Message::Error {
        version: String::from_str(PROTOCOL_VERSION),
        code: String::from_str(code),
        message: String::from_str(message),
        original_type: String::from_str(original_type),
    }
}

/// The table state of table `table_id` (see `is_table_state_msg`).
pub fn create_table_state_message(
    table_id: &TableId,
    seats: &[Option<Player>; 2],
    config: &TableConfig,
    current_hand_id: Option<HandId>,
) -> (m: Message)
    ensures
        is_table_state_msg(m, table_id@, seats@, *config, current_hand_id),
{
    let mut entries: Vec<TableSeat> = Vec::new();
    entries.push(TableSeat { seat: 0, player: seats[0] });
    entries.push(TableSeat { seat: 1, player: seats[1] });
    assert(entries@ =~= seat_entries(seats@));
    Message::TableState {
        version: String::from_str(PROTOCOL_VERSION),
        table_id: table_id.clone(),
        seats: entries,
        config: *config,
        current_hand_id,
    }
}

/// The current time as RFC 3339 text (empty when it cannot be written).
fn now_text() -> String {
    match now_rfc3339() {
        Some(t) => t,
        None => String::new(),
    }
}

/// The state of `hand` as seat `player_seat` sees it (see `is_hand_state_msg`).
pub fn create_hand_state_message(
    hand: &Hand,
    table_id: TableId,
    player_seat: Seat,
    acting_seat: Option<Seat>,
    time_remaining_ms: u64,
) -> (m: Message)
    ensures
        is_hand_state_msg(m, *hand, table_id@, player_seat, acting_seat, time_remaining_ms),
{
    let hole_cards = if seat_is_valid(player_seat) {
        copy_cards(&hand.hole_cards[player_seat as usize])
    } else {
        Vec::new()
    };
    let last_action_time = match hand.last_action_time {
        Some(ms) => match millis_to_rfc3339(ms) {
            Some(text) => text,
            None => now_text(),
        },
        None => now_text(),
    };
    Message::HandState {
        version: String::from_str(PROTOCOL_VERSION),
        hand_id: hand.id,
        table_id,
        hole_cards,
        community_cards: copy_cards(&hand.community_cards),
        pot: hand.pot.duplicate(),
        current_street: hand.current_street,
        actions: copy_actions(&hand.actions),
        player_stacks: hand.player_stacks,
        button_position: hand.button_position,
        last_action_time,
        acting_seat,
        time_remaining_ms,
    }
}

} // verus!
