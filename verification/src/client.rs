//! The desktop client's logic: card and chip labels, the table view's state, the buttons it
//! offers, and the client's side of the protocol.

use crate::action::{ActionKind, Action};
use crate::card::{Card, Rank, Suit};
use crate::hand::Street;
use crate::ids::HandId;
use crate::messages::{copy_actions, copy_cards, HandState, Message, TableState, PROTOCOL_VERSION};
use crate::pot::Pot;
use crate::table::TableId;
use crate::text::{decimal, u64_to_decimal};
use vstd::prelude::*;

verus! {

/// The symbol of a rank on a card face.
pub open spec fn rank_text(r: Rank) -> Seq<char> {
    match r {
        Rank::Two => "2"@,
        Rank::Three => "3"@,
        Rank::Four => "4"@,
        Rank::Five => "5"@,
        Rank::Six => "6"@,
        Rank::Seven => "7"@,
        Rank::Eight => "8"@,
        Rank::Nine => "9"@,
        Rank::Ten => "10"@,
        Rank::Jack => "J"@,
        Rank::Queen => "Q"@,
        Rank::King => "K"@,
        Rank::Ace => "A"@,
    }
}

/// The symbol of a suit on a card face.
pub open spec fn suit_text(s: Suit) -> Seq<char> {
    match s {
        Suit::Clubs => "♣"@,
        Suit::Diamonds => "♦"@,
        Suit::Hearts => "♥"@,
        Suit::Spades => "♠"@,
    }
}

/// The symbol of `rank` (see `rank_text`).
pub fn rank_symbol(rank: Rank) -> (s: &'static str)
    ensures
        s@ == rank_text(rank),
{
    match rank {
        Rank::Two => "2",
        Rank::Three => "3",
        Rank::Four => "4",
        Rank::Five => "5",
        Rank::Six => "6",
        Rank::Seven => "7",
        Rank::Eight => "8",
        Rank::Nine => "9",
        Rank::Ten => "10",
        Rank::Jack => "J",
        Rank::Queen => "Q",
        Rank::King => "K",
        Rank::Ace => "A",
    }
}

/// The symbol of `suit` (see `suit_text`).
pub fn suit_symbol(suit: Suit) -> (s: &'static str)
    ensures
        s@ == suit_text(suit),
{
    match suit {
        Suit::Clubs => "♣",
        Suit::Diamonds => "♦",
        Suit::Hearts => "♥",
        Suit::Spades => "♠",
    }
}

/// Ink of a card face.
#[derive(Debug, Clone, Copy, PartialEq, Eq, Structural)]
pub enum CardColor {
    Black,
    Red,
}

/// Widget that renders a single card.
pub struct CardWidget;

impl CardWidget {
    /// The text on the face of `card`: its rank, a line break, its suit.
    pub fn label(card: &Card) -> (s: String)
        ensures
            s@ == rank_text(card.rank) + "\n"@ + suit_text(card.suit),
    {
        String::from_str(rank_symbol(card.rank)).concat("\n").concat(suit_symbol(card.suit))
    }

    /// The ink of `card`: black for clubs and spades, red for diamonds and hearts.
    pub fn color(card: &Card) -> (c: CardColor)
        ensures
            c == (if card.suit == Suit::Clubs || card.suit == Suit::Spades {
                CardColor::Black
            } else {
                CardColor::Red
            }),
    {
        match card.suit {
            Suit::Clubs | Suit::Spades => CardColor::Black,
            Suit::Diamonds | Suit::Hearts => CardColor::Red,
        }
    }
}

/// The label of a chip stack of `amount`: whole millions with "M" from a million on, whole
/// thousands with "K" from a thousand on, the number itself below.
pub open spec fn chip_text(amount: u64) -> Seq<char> {
    if amount >= 1_000_000 {
        decimal((amount / 1_000_000) as nat) + "M"@
    } else if amount >= 1_000 {
        decimal((amount / 1_000) as nat) + "K"@
    } else {
        decimal(amount as nat)
    }
}

/// Widget that renders a stack of chips.
pub struct ChipStackWidget;

impl ChipStackWidget {
    /// The label of a stack of `amount` chips (see `chip_text`).
    pub fn label(amount: u64) -> (s: String)
        ensures
            s@ == chip_text(amount),
    {
        if amount >= 1_000_000 {
            u64_to_decimal(amount / 1_000_000).concat("M")
        } else if amount >= 1_000 {
            u64_to_decimal(amount / 1_000).concat("K")
        } else {
            u64_to_decimal(amount)
        }
    }
}

/// State of the client's connection.
#[derive(Debug, Clone, Copy, PartialEq, Eq, Structural)]
pub enum ConnectionStatus {
    Disconnected,
    Connecting,
    Connected,
    Reconnecting,
}

impl Default for ConnectionStatus {
    fn default() -> (s: Self)
        ensures
            s == ConnectionStatus::Disconnected,
    {
        ConnectionStatus::Disconnected
    }
}

/// Chips a player is shown with before the first hand state arrives.
pub const DEFAULT_STACK_SIZE: u64 = 1500;

/// Chips the "Bet" button bets at most.
pub const DEFAULT_BET_AMOUNT: u64 = 100;

/// Chips the "Raise" button raises by at most.
pub const DEFAULT_RAISE_AMOUNT: u64 = 200;

/// What the table view shows, for the player in `player_seat`.
#[derive(Debug)]
pub struct TableViewState {
    pub player_seat: u8,
    pub table_id: TableId,
    pub hand_id: Option<HandId>,
    pub community_cards: Vec<Card>,
    pub pot: Pot,
    pub current_bets: [u64; 2],
    pub player_stacks: [u64; 2],
    pub button_position: u8,
    pub current_street: Street,
    pub acting_seat: Option<u8>,
    pub hole_cards: Vec<Card>,
    pub error_message: Option<String>,
    pub time_remaining_ms: Option<u64>,
    pub last_sent_action: Option<ActionKind>,
    pub notification: Option<String>,
}

/// The notice for a fold by `fold_seat` seen by the player in `player_seat`, given whether that
/// player had just sent a fold: a fold the player did not send is a timeout.
pub open spec fn fold_notice(fold_seat: u8, player_seat: u8, sent_fold: bool) -> Option<Seq<char>> {
    if fold_seat == player_seat {
        if sent_fold {
            None
        } else {
            Some("You folded due to timeout"@)
        }
    } else {
        Some("Player "@ + decimal(fold_seat as nat) + " folded due to timeout"@)
    }
}

/// `b` is view `a` updated from hand state `hs`: everything the hand state tells is taken over,
/// the bets shown are kept, and when the last action is a fold the notice of `fold_notice` is
/// shown and the remembered sent action is forgotten.
pub open spec fn view_updated(a: TableViewState, hs: HandState, b: TableViewState) -> bool {
    &&& b.player_seat == a.player_seat
    &&& b.table_id == a.table_id
    &&& b.hand_id == Some(hs.hand_id)
    &&& b.community_cards@ == hs.community_cards@
    &&& b.pot@ == hs.pot@
    &&& b.current_bets == a.current_bets
    &&& b.player_stacks == hs.player_stacks
    &&& b.button_position == hs.button_position
    &&& b.current_street == hs.current_street
    &&& b.acting_seat == hs.acting_seat
    &&& b.hole_cards@ == hs.hole_cards@
    &&& b.error_message == a.error_message
    &&& b.time_remaining_ms == Some(hs.time_remaining_ms)
    &&& if hs.actions@.len() > 0 && hs.actions@.last().kind == ActionKind::Fold {
        &&& b.last_sent_action is None
        &&& match fold_notice(
            hs.actions@.last().seat,
            a.player_seat,
            a.last_sent_action == Some(ActionKind::Fold),
        ) {
            Some(n) => b.notification matches Some(m) && m@ == n,
            None => b.notification is None,
        }
    } else {
        &&& b.last_sent_action == a.last_sent_action
        &&& b.notification is None
    }
}

/// The buttons the table view offers and what they send.
#[derive(Debug)]
pub struct ActionOptions {
    pub is_my_turn: bool,
    pub can_check: bool,
    /// Label of the call button: "Check" when there is nothing to call.
    pub call_label: String,
    /// What the call button sends.
    pub call_action: (ActionKind, Option<u64>),
    pub can_bet: bool,
    pub bet_amount: u64,
    pub can_raise: bool,
    pub raise_amount: u64,
}

/// `a - b`, or 0 when that would be negative.
pub open spec fn sub_or_zero(a: u64, b: u64) -> u64 {
    if a >= b {
        (a - b) as u64
    } else {
        0
    }
}

/// The smaller of `a` and `b`.
pub open spec fn min_u64(a: u64, b: u64) -> u64 {
    if a <= b {
        a
    } else {
        b
    }
}

/// The buttons of view `v` (its player in seat 0 or 1): the player may act on their turn, check
/// when nothing is to be called, call up to their stack, bet (at most 100) when neither seat
/// has bet and they have chips, and raise (by at most 200) when they can more than call.
pub open spec fn options_ok(v: TableViewState, o: ActionOptions) -> bool {
    let me = v.player_seat as int;
    let my_bet = v.current_bets@[me];
    let their_bet = v.current_bets@[1 - me];
    let call = sub_or_zero(their_bet, my_bet);
    let stack = v.player_stacks@[me];
    let max_call = min_u64(stack, call);
    &&& o.is_my_turn == (v.acting_seat == Some(v.player_seat))
    &&& o.can_check == (call == 0)
    &&& o.call_label@ == (if call == 0 {
        "Check"@
    } else {
        "Call ("@ + decimal(max_call as nat) + " chips)"@
    })
    &&& o.call_action == (if call == 0 {
        (ActionKind::Check, None::<u64>)
    } else {
        (ActionKind::Call, Some(max_call))
    })
    &&& o.can_bet == (my_bet == 0 && their_bet == 0 && stack > 0)
    &&& o.bet_amount == min_u64(stack, DEFAULT_BET_AMOUNT)
    &&& o.can_raise == (call > 0 && stack > call)
    &&& o.raise_amount == call + min_u64(DEFAULT_RAISE_AMOUNT, sub_or_zero(stack, call))
}

/// The buttons never offer more than the player has: the bet is the player's stack or 100
/// chips, whichever is less; the call is the amount to call or the whole stack, whichever is
/// less; a raise exceeds the call and stays within the stack. Check is offered exactly when
/// nothing is to be called, and Bet only when nobody has bet and the player has chips.
pub proof fn law_buttons_within_stack(v: TableViewState, o: ActionOptions)
    requires
        v.player_seat < 2,
        options_ok(v, o),
    ensures
        ({
            let me = v.player_seat as int;
            let stack = v.player_stacks@[me];
            let my_bet = v.current_bets@[me];
            let their_bet = v.current_bets@[1 - me];
            &&& o.bet_amount <= stack
            &&& o.bet_amount <= DEFAULT_BET_AMOUNT
            &&& (o.bet_amount == stack || o.bet_amount == DEFAULT_BET_AMOUNT)
            &&& o.can_check <==> their_bet <= my_bet
            &&& o.can_bet ==> my_bet == 0 && their_bet == 0 && stack > 0
            &&& their_bet > my_bet ==> o.call_action.0 == ActionKind::Call && (o.call_action.1 matches Some(x)
                && x <= stack && x <= their_bet - my_bet && (x == stack || x == their_bet - my_bet))
            &&& their_bet <= my_bet ==> o.call_action == (ActionKind::Check, None::<u64>)
            &&& o.can_raise ==> their_bet - my_bet < o.raise_amount <= stack
        }),
{
}

impl TableViewState {
    /// The view of a player in `player_seat` at table `table_id` before any hand state.
    pub fn new(player_seat: u8, table_id: TableId) -> (v: TableViewState)
        ensures
            v.player_seat == player_seat,
            v.table_id == table_id,
            v.hand_id is None,
            v.community_cards@.len() == 0,
            v.pot@.main == 0 && v.pot@.side_pots.len() == 0,
            v.current_bets@ == seq![0u64, 0u64],
            v.player_stacks@ == seq![DEFAULT_STACK_SIZE, DEFAULT_STACK_SIZE],
            v.button_position == 0,
            v.current_street == Street::PreFlop,
            v.acting_seat is None,
            v.hole_cards@.len() == 0,
            v.error_message is None,
            v.time_remaining_ms is None,
            v.last_sent_action is None,
            v.notification is None,
    {
        let v = TableViewState {
            player_seat,
            table_id,
            hand_id: None,
            community_cards: Vec::new(),
            pot: Pot::empty(),
            current_bets: [0, 0],
            player_stacks: [DEFAULT_STACK_SIZE, DEFAULT_STACK_SIZE],
            button_position: 0,
            current_street: Street::PreFlop,
            acting_seat: None,
            hole_cards: Vec::new(),
            error_message: None,
            time_remaining_ms: None,
            last_sent_action: None,
            notification: None,
        };
        assert(v.current_bets@ =~= seq![0u64, 0u64]);
        assert(v.player_stacks@ =~= seq![DEFAULT_STACK_SIZE, DEFAULT_STACK_SIZE]);
        v
    }

    /// Records that an action of `kind` is being sent: the last error is cleared.
    pub fn action_sent(&mut self, kind: ActionKind)
        ensures
            *final(self) == (TableViewState {
                error_message: None,
                last_sent_action: Some(kind),
                ..*old(self)
            }),
    {
        self.error_message = None;
        self.last_sent_action = Some(kind);
    }

    /// Takes over a hand state from the server (see `view_updated`).
    pub fn update_from_hand_state(&mut self, hand_state: &HandState)
        ensures
            view_updated(*old(self), *hand_state, *final(self)),
    {
        self.notification = None;
        self.hand_id = Some(hand_state.hand_id);
        self.community_cards = copy_cards(&hand_state.community_cards);
        self.pot = hand_state.pot.duplicate();
        self.current_street = hand_state.current_street;
        self.player_stacks = hand_state.player_stacks;
        self.button_position = hand_state.button_position;
        self.acting_seat = hand_state.acting_seat;
        self.hole_cards = copy_cards(&hand_state.hole_cards);
        self.time_remaining_ms = Some(hand_state.time_remaining_ms);
        let n = hand_state.actions.len();
        if n > 0 {
            let last: Action = hand_state.actions[n - 1];
            if last.kind == ActionKind::Fold {
                let fold_seat = last.seat;
                let is_our_fold = fold_seat == self.player_seat;
                let was_manual = match self.last_sent_action {
                    Some(k) => k == ActionKind::Fold,
                    None => false,
                };
                if is_our_fold && !was_manual {
                    self.notification = Some(String::from_str("You folded due to timeout"));
                } else if !is_our_fold {
                    self.notification = Some(
                        String::from_str("Player ").concat(
                            u64_to_decimal(fold_seat as u64).as_str(),
                        ).concat(" folded due to timeout"),
                    );
                }
                self.last_sent_action = None;
            }
        }
    }

    /// The buttons the view offers (see `options_ok`).
    pub fn action_options(&self) -> (o: ActionOptions)
        requires
            self.player_seat < 2,
        ensures
            options_ok(*self, o),
    {
        let is_my_turn = match self.acting_seat {
            Some(s) => s == self.player_seat,
            None => false,
        };
        let me = self.player_seat as usize;
        let my_bet = self.current_bets[me];
        let their_bet = self.current_bets[1 - me];
        let call_amount = if their_bet >= my_bet {
            their_bet - my_bet
        } else {
            0
        };
        let my_stack = self.player_stacks[me];
        let max_call = if my_stack <= call_amount {
            my_stack
        } else {
            call_amount
        };
        let call_label = if call_amount == 0 {
            String::from_str("Check")
        } else {
            String::from_str("Call (").concat(u64_to_decimal(max_call).as_str()).concat(" chips)")
        };
        let call_action = if call_amount == 0 {
            (ActionKind::Check, None)
        } else {
            (ActionKind::Call, Some(max_call))
        };
        let bet_amount = if my_stack <= DEFAULT_BET_AMOUNT {
            my_stack
        } else {
            DEFAULT_BET_AMOUNT
        };
        let room = if my_stack >= call_amount {
            my_stack - call_amount
        } else {
            0
        };
        let increment = if DEFAULT_RAISE_AMOUNT <= room {
            DEFAULT_RAISE_AMOUNT
        } else {
            room
        };
        ActionOptions {
            is_my_turn,
            can_check: call_amount == 0,
            call_label,
            call_action,
            can_bet: my_bet == 0 && their_bet == 0 && my_stack > 0,
            bet_amount,
            can_raise: call_amount > 0 && my_stack > call_amount,
            raise_amount: call_amount + increment,
        }
    }

    /// Takes in the server's answer to an action the player sent: a hand state is taken over,
    /// an error is shown and returned as "server error CODE: MESSAGE", anything else is an
    /// "unexpected response".
    pub fn apply_response(&mut self, response: Message) -> (r: Result<(), String>)
        ensures
            match response {
                Message::HandState {
                    version,
                    hand_id,
                    table_id,
                    hole_cards,
                    community_cards,
                    pot,
                    current_street,
                    actions,
                    player_stacks,
                    button_position,
                    last_action_time,
                    acting_seat,
                    time_remaining_ms,
                } => r is Ok && view_updated(
                    *old(self),
                    HandState {
                        hand_id,
                        table_id,
                        hole_cards,
                        community_cards,
                        pot,
                        current_street,
                        actions,
                        player_stacks,
                        button_position,
                        last_action_time,
                        acting_seat,
                        time_remaining_ms,
                    },
                    *final(self),
                ),
                Message::Error { code, message, .. } => {
                    let text = "server error "@ + code@ + ": "@ + message@;
                    &&& r matches Err(e) && e@ == text
                    &&& final(self).error_message matches Some(m) && m@ == text
                },
                _ => {
                    &&& r matches Err(e) && e@ == "unexpected response"@
                    &&& final(self).error_message matches Some(m) && m@ == "unexpected response"@
                },
            },
    {
        match response {
            Message::HandState {
                version: _,
                hand_id,
                table_id,
                hole_cards,
                community_cards,
                pot,
                current_street,
                actions,
                player_stacks,
                button_position,
                last_action_time,
                acting_seat,
                time_remaining_ms,
            } => {
                let hand_state = HandState {
                    hand_id,
                    table_id,
                    hole_cards,
                    community_cards,
                    pot,
                    current_street,
                    actions,
                    player_stacks,
                    button_position,
                    last_action_time,
                    acting_seat,
                    time_remaining_ms,
                };
                self.update_from_hand_state(&hand_state);
                Ok(())
            },
            Message::Error { code, message, .. } => {
                let text = String::from_str("server error ").concat(code.as_str()).concat(": ").concat(
                    message.as_str(),
                );
                self.error_message = Some(text.clone());
                Err(text)
            },
            _ => {
                self.error_message = Some(String::from_str("unexpected response"));
                Err(String::from_str("unexpected response"))
            },
        }
    }
}

/// The client's hello with its name and version.
pub fn client_hello(client_name: &str, client_version: &str) -> (m: Message)
    ensures
        m matches Message::ClientHello { version, client_name: n, client_version: v } && version@
            == "1.0"@ && n@ == client_name@ && v@ == client_version@,
{
    Message::ClientHello {
        version: String::from_str(PROTOCOL_VERSION),
        client_name: String::from_str(client_name),
        client_version: String::from_str(client_version),
    }
}

/// The answer a client gets from the server's reply to its hello: a server hello with a
/// version starting "1." and status "accepted" is fine; other versions, statuses, errors and
/// messages are refused with their messages.
pub open spec fn server_hello_answer(m: Message) -> Result<(), Seq<char>> {
    match m {
        Message::ServerHello { version, status, .. } => if !(version@.len() >= 2 && version@[0]
            == '1' && version@[1] == '.') {
            Err("unsupported server version: "@ + version@)
        } else if status@ != "accepted"@ {
            Err("server rejected connection: "@ + status@)
        } else {
            Ok(())
        },
        Message::Error { code, message, .. } => Err("server error "@ + code@ + ": "@ + message@),
        _ => Err("unexpected response to ClientHello"@),
    }
}

/// Checks the server's reply to the client's hello (see `server_hello_answer`).
pub fn check_server_hello(reply: &Message) -> (r: Result<(), String>)
    ensures
        match server_hello_answer(*reply) {
            Ok(()) => r is Ok,
            Err(m) => r matches Err(e) && e@ == m,
        },
{
    match reply {
        Message::ServerHello { version, status, .. } => {
            let v = version.as_str();
            let n = v.unicode_len();
            if !(n >= 2 && v.get_char(0) == '1' && v.get_char(1) == '.') {
                return Err(String::from_str("unsupported server version: ").concat(v));
            }
            if !crate::text::str_eq(status.as_str(), "accepted") {
                return Err(String::from_str("server rejected connection: ").concat(status.as_str()));
            }
            Ok(())
        },
        Message::Error { code, message, .. } => Err(
            String::from_str("server error ").concat(code.as_str()).concat(": ").concat(
                message.as_str(),
            ),
        ),
        _ => Err(String::from_str("unexpected response to ClientHello")),
    }
}

/// The client's request to join `seat` of table `table_id`.
pub fn join_request(table_id: TableId, seat: u8) -> (m: Message)
    ensures
        m matches Message::JoinTable { version, table_id: t, seat: s } && version@ == "1.0"@ && t
            == table_id && s == seat,
{
    Message::JoinTable { version: String::from_str(PROTOCOL_VERSION), table_id, seat }
}

/// The client's action `kind` with `amount` in hand `hand_id`.
pub fn action_request(hand_id: HandId, kind: ActionKind, amount: Option<u64>) -> (m: Message)
    ensures
        m matches Message::Action { version, hand_id: h, kind: k, amount: a } && version@ == "1.0"@
            && h == hand_id && k == kind && a == amount,
{
    Message::Action { version: String::from_str(PROTOCOL_VERSION), hand_id, kind, amount }
}

/// One step of waiting for the answer to a join request.
#[derive(Debug)]
pub enum JoinStep {
    /// The table state: the join is answered.
    Joined(TableState),
    /// A hand state that came first; keep waiting.
    Hand(HandState),
    /// The join failed with this message.
    Failed(String),
}

/// Reads one reply while waiting for the answer to a join request: a table state ends the wait,
/// a hand state is kept, an error fails with "join table error CODE: MESSAGE", anything else
/// with "unexpected response to JoinTable".
pub fn join_step(reply: Message) -> (s: JoinStep)
    ensures
        match reply {
            Message::TableState { table_id, seats, config, current_hand_id, .. } => s matches JoinStep::Joined(t)
                && t == (TableState { table_id, seats, config, current_hand_id }),
            Message::HandState {
                hand_id,
                table_id,
                hole_cards,
                community_cards,
                pot,
                current_street,
                actions,
                player_stacks,
                button_position,
                last_action_time,
                acting_seat,
                time_remaining_ms,
                ..
            } => s matches JoinStep::Hand(h) && h == (HandState {
                hand_id,
                table_id,
                hole_cards,
                community_cards,
                pot,
                current_street,
                actions,
                player_stacks,
                button_position,
                last_action_time,
                acting_seat,
                time_remaining_ms,
            }),
            Message::Error { code, message, .. } => s matches JoinStep::Failed(e) && e@
                == "join table error "@ + code@ + ": "@ + message@,
            _ => s matches JoinStep::Failed(e) && e@ == "unexpected response to JoinTable"@,
        },
{
    match reply {
        Message::TableState { version: _, table_id, seats, config, current_hand_id } => {
            JoinStep::Joined(TableState { table_id, seats, config, current_hand_id })
        },
        Message::HandState {
            version: _,
            hand_id,
            table_id,
            hole_cards,
            community_cards,
            pot,
            current_street,
            actions,
            player_stacks,
            button_position,
            last_action_time,
            acting_seat,
            time_remaining_ms,
        } => JoinStep::Hand(
            HandState {
                hand_id,
                table_id,
                hole_cards,
                community_cards,
                pot,
                current_street,
                actions,
                player_stacks,
                button_position,
                last_action_time,
                acting_seat,
                time_remaining_ms,
            },
        ),
        Message::Error { code, message, .. } => JoinStep::Failed(
            String::from_str("join table error ").concat(code.as_str()).concat(": ").concat(
                message.as_str(),
            ),
        ),
        _ => JoinStep::Failed(String::from_str("unexpected response to JoinTable")),
    }
}

/// Reconnection attempts made before the dialog gives up.
pub const MAX_RECONNECT_ATTEMPTS: u32 = 3;

/// Milliseconds to wait before the next reconnection attempt when `attempts` were made: 1 s,
/// then 2 s, then 4 s.
pub open spec fn backoff_ms(attempts: u32) -> u64 {
    if attempts == 0 {
        1000
    } else if attempts == 1 {
        2000
    } else {
        4000
    }
}

/// Milliseconds from `since` to `now` on a monotonic clock (0 if `now` is earlier).
pub open spec fn elapsed_ms(now: u64, since: u64) -> u64 {
    if now >= since {
        (now - since) as u64
    } else {
        0
    }
}

/// Milliseconds to wait before the next attempt (see `backoff_ms`).
fn reconnect_delay_ms(attempts: u32) -> (d: u64)
    ensures
        d == backoff_ms(attempts),
{
    if attempts == 0 {
        1000
    } else if attempts == 1 {
        2000
    } else {
        4000
    }
}

/// What the connection dialog remembers besides its connection and the states it received.
#[derive(Debug)]
pub struct DialogState {
    pub status: ConnectionStatus,
    pub error_message: Option<String>,
    pub reconnect_table_id: Option<TableId>,
    pub reconnect_seat: Option<u8>,
    pub reconnect_attempts: u32,
    /// Time of the last reconnection attempt, or of the start of reconnecting, in milliseconds
    /// of a monotonic clock.
    pub last_reconnect_attempt: Option<u64>,
}

/// What to do when the dialog is asked to reconnect.
#[derive(Debug)]
pub enum ReconnectDecision {
    /// The last attempt is too recent.
    Wait,
    /// Reconnecting is impossible; the dialog is disconnected with an error.
    Abandon,
    /// Try to join `seat` of this table again.
    Try(TableId, u8),
}

/// The dialog's error for a failed connection.
pub open spec fn connect_failed_text(e: Seq<char>) -> Seq<char> {
    "Connection failed: "@ + e
}

/// The dialog's error for a failed reconnection attempt.
pub open spec fn reconnect_failed_text(attempt: u32, e: Seq<char>) -> Seq<char> {
    "Reconnection failed (attempt "@ + decimal(attempt as nat) + "): "@ + e
}

/// The dialog's error when the last allowed reconnection attempt failed.
pub open spec fn gave_up_text(e: Seq<char>) -> Seq<char> {
    "Reconnection failed after 3 attempts: "@ + e
}

impl DialogState {
    /// A dialog that is not connected and has never been.
    pub fn new() -> (d: DialogState)
        ensures
            d.status == ConnectionStatus::Disconnected,
            d.error_message is None,
            d.reconnect_table_id is None,
            d.reconnect_seat is None,
            d.reconnect_attempts == 0,
            d.last_reconnect_attempt is None,
    {
        DialogState {
            status: ConnectionStatus::Disconnected,
            error_message: None,
            reconnect_table_id: None,
            reconnect_seat: None,
            reconnect_attempts: 0,
            last_reconnect_attempt: None,
        }
    }

    /// A connection attempt starts: the dialog is connecting and shows no error.
    pub fn begin_connect(&mut self)
        ensures
            final(self).status == ConnectionStatus::Connecting,
            final(self).error_message is None,
            final(self).reconnect_table_id == old(self).reconnect_table_id,
            final(self).reconnect_seat == old(self).reconnect_seat,
            final(self).reconnect_attempts == old(self).reconnect_attempts,
            final(self).last_reconnect_attempt == old(self).last_reconnect_attempt,
    {
        self.status = ConnectionStatus::Connecting;
        self.error_message = None;
    }

    /// The connection to table `table_id` (seat 0) succeeded: connected, and ready to come back
    /// to that seat.
    pub fn connect_succeeded(&mut self, table_id: TableId)
        ensures
            final(self).status == ConnectionStatus::Connected,
            final(self).error_message == old(self).error_message,
            final(self).reconnect_table_id == Some(table_id),
            final(self).reconnect_seat == Some(0u8),
            final(self).reconnect_attempts == 0,
            final(self).last_reconnect_attempt is None,
    {
        self.status = ConnectionStatus::Connected;
        self.reconnect_table_id = Some(table_id);
        self.reconnect_seat = Some(0);
        self.reconnect_attempts = 0;
        self.last_reconnect_attempt = None;
    }

    /// The connection failed with `error` at time `now`: the dialog reconnects if it knows where
    /// to, else it is disconnected; either way it shows the failure.
    pub fn connect_failed(&mut self, error: &str, now: u64)
        ensures
            final(self).status == (if old(self).reconnect_table_id is Some && old(self).reconnect_seat is Some {
                ConnectionStatus::Reconnecting
            } else {
                ConnectionStatus::Disconnected
            }),
            final(self).error_message matches Some(m) && m@ == connect_failed_text(error@),
            final(self).reconnect_table_id == old(self).reconnect_table_id,
            final(self).reconnect_seat == old(self).reconnect_seat,
            old(self).reconnect_table_id is Some && old(self).reconnect_seat is Some ==> final(self).reconnect_attempts == 0 && final(self).last_reconnect_attempt == Some(now),
            !(old(self).reconnect_table_id is Some && old(self).reconnect_seat is Some) ==> final(self).reconnect_attempts == old(self).reconnect_attempts && final(self).last_reconnect_attempt == old(self).last_reconnect_attempt,
    {
        if self.reconnect_table_id.is_some() && self.reconnect_seat.is_some() {
            self.start_reconnecting(None, now);
        } else {
            self.status = ConnectionStatus::Disconnected;
        }
        self.error_message = Some(String::from_str("Connection failed: ").concat(error));
    }

    /// The user disconnects.
    pub fn disconnect(&mut self)
        ensures
            final(self).status == ConnectionStatus::Disconnected,
            final(self).error_message == old(self).error_message,
            final(self).reconnect_table_id == old(self).reconnect_table_id,
            final(self).reconnect_seat == old(self).reconnect_seat,
            final(self).reconnect_attempts == old(self).reconnect_attempts,
            final(self).last_reconnect_attempt == old(self).last_reconnect_attempt,
    {
        self.status = ConnectionStatus::Disconnected;
    }

    /// Starts reconnecting at time `now`, to table `table_id` (seat 0) when the dialog holds a
    /// table state; the first attempt comes after the first back-off delay.
    pub fn start_reconnecting(&mut self, table_id: Option<TableId>, now: u64)
        ensures
            final(self).status == ConnectionStatus::Reconnecting,
            final(self).error_message == old(self).error_message,
            final(self).reconnect_table_id == (if table_id is Some {
                table_id
            } else {
                old(self).reconnect_table_id
            }),
            final(self).reconnect_seat == (if table_id is Some {
                Some(0u8)
            } else {
                old(self).reconnect_seat
            }),
            final(self).reconnect_attempts == 0,
            final(self).last_reconnect_attempt == Some(now),
    {
        if let Some(id) = table_id {
            self.reconnect_table_id = Some(id);
            self.reconnect_seat = Some(0);
        }
        self.status = ConnectionStatus::Reconnecting;
        self.reconnect_attempts = 0;
        self.last_reconnect_attempt = Some(now);
    }

    /// Asked to reconnect at time `now` (milliseconds of a monotonic clock): after three
    /// attempts the dialog gives up; otherwise it waits until the back-off delay (1 s, 2 s, 4 s)
    /// has passed since the last attempt (or the start of reconnecting), then counts an attempt
    /// and tries the remembered table and seat, or gives up when one of them is missing.
    pub fn reconnect_attempt(&mut self, now: u64) -> (d: ReconnectDecision)
        ensures
            ({
                let exhausted = old(self).reconnect_attempts >= MAX_RECONNECT_ATTEMPTS;
                let waiting = old(self).last_reconnect_attempt matches Some(l) && elapsed_ms(now, l)
                    < backoff_ms(old(self).reconnect_attempts);
                &&& exhausted ==> d is Abandon && *final(self) == (DialogState {
                    status: ConnectionStatus::Disconnected,
                    ..*old(self)
                })
                &&& !exhausted && waiting ==> d is Wait && *final(self) == *old(self)
                &&& !exhausted && !waiting ==> {
                    &&& final(self).last_reconnect_attempt == Some(now)
                    &&& final(self).reconnect_attempts == old(self).reconnect_attempts + 1
                    &&& final(self).reconnect_table_id == old(self).reconnect_table_id
                    &&& final(self).reconnect_seat == old(self).reconnect_seat
                    &&& if old(self).reconnect_table_id is None {
                        &&& d is Abandon
                        &&& final(self).status == ConnectionStatus::Disconnected
                        &&& final(self).error_message matches Some(m) && m@
                            == "Cannot reconnect: missing table"@
                    } else if old(self).reconnect_seat is None {
                        &&& d is Abandon
                        &&& final(self).status == ConnectionStatus::Disconnected
                        &&& final(self).error_message matches Some(m) && m@
                            == "Cannot reconnect: missing seat"@
                    } else {
                        &&& d matches ReconnectDecision::Try(t, s) && t@ == old(
                            self,
                        ).reconnect_table_id->0@ && s == old(self).reconnect_seat->0
                        &&& final(self).status == old(self).status
                        &&& final(self).error_message == old(self).error_message
                    }
                }
            }),
    {
        if self.reconnect_attempts >= MAX_RECONNECT_ATTEMPTS {
            self.status = ConnectionStatus::Disconnected;
            return ReconnectDecision::Abandon;
        }
        if let Some(last) = self.last_reconnect_attempt {
            let elapsed = if now >= last {
                now - last
            } else {
                0
            };
            if elapsed < reconnect_delay_ms(self.reconnect_attempts) {
                return ReconnectDecision::Wait;
            }
        }
        self.last_reconnect_attempt = Some(now);
        self.reconnect_attempts = self.reconnect_attempts + 1;
        let table_id = match &self.reconnect_table_id {
            Some(t) => t.clone(),
            None => {
                self.error_message = Some(String::from_str("Cannot reconnect: missing table"));
                self.status = ConnectionStatus::Disconnected;
                return ReconnectDecision::Abandon;
            },
        };
        let seat = match self.reconnect_seat {
            Some(s) => s,
            None => {
                self.error_message = Some(String::from_str("Cannot reconnect: missing seat"));
                self.status = ConnectionStatus::Disconnected;
                return ReconnectDecision::Abandon;
            },
        };
        ReconnectDecision::Try(table_id, seat)
    }

    /// The reconnection succeeded: connected, without error, attempts reset.
    pub fn reconnect_succeeded(&mut self)
        ensures
            final(self).status == ConnectionStatus::Connected,
            final(self).error_message is None,
            final(self).reconnect_attempts == 0,
            final(self).reconnect_table_id == old(self).reconnect_table_id,
            final(self).reconnect_seat == old(self).reconnect_seat,
            final(self).last_reconnect_attempt == old(self).last_reconnect_attempt,
    {
        self.status = ConnectionStatus::Connected;
        self.error_message = None;
        self.reconnect_attempts = 0;
    }

    /// The reconnection attempt failed with `error`: the dialog shows the attempt and keeps
    /// reconnecting, or, when that was the third attempt, gives up and is disconnected.
    pub fn reconnect_failed(&mut self, error: &str)
        ensures
            old(self).reconnect_attempts < MAX_RECONNECT_ATTEMPTS ==> final(self).status == old(self).status,
            old(self).reconnect_attempts < MAX_RECONNECT_ATTEMPTS ==> (final(self).error_message matches Some(m)
                && m@ == reconnect_failed_text(old(self).reconnect_attempts, error@)),
            old(self).reconnect_attempts >= MAX_RECONNECT_ATTEMPTS ==> final(self).status
                == ConnectionStatus::Disconnected,
            old(self).reconnect_attempts >= MAX_RECONNECT_ATTEMPTS ==> (final(self).error_message matches Some(m)
                && m@ == gave_up_text(error@)),
            final(self).reconnect_attempts == old(self).reconnect_attempts,
            final(self).reconnect_table_id == old(self).reconnect_table_id,
            final(self).reconnect_seat == old(self).reconnect_seat,
            final(self).last_reconnect_attempt == old(self).last_reconnect_attempt,
    {
        if self.reconnect_attempts >= MAX_RECONNECT_ATTEMPTS {
            self.status = ConnectionStatus::Disconnected;
            self.error_message = Some(
                String::from_str("Reconnection failed after 3 attempts: ").concat(error),
            );
        } else {
            self.error_message = Some(
                String::from_str("Reconnection failed (attempt ").concat(
                    u64_to_decimal(self.reconnect_attempts as u64).as_str(),
                ).concat("): ").concat(error),
            );
        }
    }
}

} // verus!
