//! A single poker hand: dealing, streets, actions and the winner.

use crate::action::{action_check, action_error_text, Action, ActionError, ActionKind};
use crate::betting::{
    apply_outcome, apply_overflows, blinds_outcome, chips_ok, chips_total,
    law_apply_conserves_chips, law_street_start_conserves_chips, sat_add, street_start, Betting,
    BettingError, BettingErrorView, BettingState, betting_error_text,
};
use crate::card::Card;
use crate::clock::now_millis;
use crate::deck::{is_full_deck, shuffled_deck, Deck};
use crate::hand_evaluation::{best_score, evaluate_hand_score};
use crate::ids::HandId;
use crate::text::{decimal, u64_to_decimal};
use crate::pot::{pot_problem_from, side_total, Pot, PotView};
use crate::{ChipCount, Seat};
use vstd::multiset::Multiset;
use vstd::prelude::*;

verus! {

/// Number of hole cards each seat receives.
pub const HOLE_CARDS_PER_SEAT: usize = 2;

/// Whether `seat` names one of the two seats.
pub fn seat_is_valid(seat: Seat) -> (b: bool)
    ensures
        b == (seat < 2),
{
    seat < 2
}

/// The streets of a hand, in order.
#[derive(Debug, Clone, Copy, PartialEq, Eq, Structural)]
pub enum Street {
    PreFlop,
    Flop,
    Turn,
    River,
    Showdown,
    Finished,
}

/// Why a hand operation was refused or a hand is malformed.
#[derive(Debug)]
pub enum HandError {
    BlindsFailed(BettingError),
    InvalidSeat(Seat),
    BettingIncomplete,
    AlreadyFinished,
    InvalidButtonPosition(Seat),
    InvalidBlinds(ChipCount, ChipCount),
    InvalidHoleCards(usize, usize, usize),
    InvalidCommunityCards(usize, Street, usize),
    PotValidation(String),
    InvalidAction(usize, ActionError),
    /// No random identifier could be drawn for a new hand.
    IdUnavailable(String),
}

/// Mathematical picture of a `HandError`.
pub enum HandErrorView {
    BlindsFailed(BettingErrorView),
    InvalidSeat(u8),
    BettingIncomplete,
    AlreadyFinished,
    InvalidButtonPosition(u8),
    InvalidBlinds(u64, u64),
    InvalidHoleCards(usize, usize, usize),
    InvalidCommunityCards(usize, Street, usize),
    PotValidation(Seq<char>),
    InvalidAction(usize, ActionError),
    IdUnavailable(Seq<char>),
}

impl View for HandError {
    type V = HandErrorView;

    open spec fn view(&self) -> HandErrorView {
        match self {
            HandError::BlindsFailed(e) => HandErrorView::BlindsFailed(e@),
            HandError::InvalidSeat(s) => HandErrorView::InvalidSeat(*s),
            HandError::BettingIncomplete => HandErrorView::BettingIncomplete,
            HandError::AlreadyFinished => HandErrorView::AlreadyFinished,
            HandError::InvalidButtonPosition(s) => HandErrorView::InvalidButtonPosition(*s),
            HandError::InvalidBlinds(a, b) => HandErrorView::InvalidBlinds(*a, *b),
            HandError::InvalidHoleCards(i, n, e) => HandErrorView::InvalidHoleCards(*i, *n, *e),
            HandError::InvalidCommunityCards(n, s, e) => HandErrorView::InvalidCommunityCards(
                *n,
                *s,
                *e,
            ),
            HandError::PotValidation(m) => HandErrorView::PotValidation(m@),
            HandError::InvalidAction(i, e) => HandErrorView::InvalidAction(*i, *e),
            HandError::IdUnavailable(m) => HandErrorView::IdUnavailable(m@),
        }
    }
}

/// `e` is the failure to draw a random identifier for a new hand.
pub open spec fn hand_id_unavailable(e: HandErrorView) -> bool {
    e matches HandErrorView::IdUnavailable(m) && exists|x: Seq<char>|
        m == "failed to generate random bytes: "@ + x
}

/// The name of a street, as debug output writes it.
pub open spec fn street_name(s: Street) -> Seq<char> {
    match s {
        Street::PreFlop => "PreFlop"@,
        Street::Flop => "Flop"@,
        Street::Turn => "Turn"@,
        Street::River => "River"@,
        Street::Showdown => "Showdown"@,
        Street::Finished => "Finished"@,
    }
}

impl Street {
    /// The name of the street (see `street_name`).
    pub fn name(&self) -> (s: &'static str)
        ensures
            s@ == street_name(*self),
    {
        match self {
            Street::PreFlop => "PreFlop",
            Street::Flop => "Flop",
            Street::Turn => "Turn",
            Street::River => "River",
            Street::Showdown => "Showdown",
            Street::Finished => "Finished",
        }
    }
}

/// The message of a hand error, as it is shown to players.
pub open spec fn hand_error_text(e: HandErrorView) -> Seq<char> {
    match e {
        HandErrorView::BlindsFailed(b) => "failed to post blinds: "@ + betting_error_text(b),
        HandErrorView::InvalidSeat(s) => "invalid seat: "@ + decimal(s as nat),
        HandErrorView::BettingIncomplete => "cannot advance street while betting round is incomplete"@,
        HandErrorView::AlreadyFinished => "hand already finished"@,
        HandErrorView::InvalidButtonPosition(s) => "invalid button position: "@ + decimal(s as nat),
        HandErrorView::InvalidBlinds(sb, bb) => "small blind ("@ + decimal(sb as nat)
            + ") must be strictly less than big blind ("@ + decimal(bb as nat) + ")"@,
        HandErrorView::InvalidHoleCards(i, n, e) => "hole_cards["@ + decimal(i as nat) + "] length "@
            + decimal(n as nat) + " != "@ + decimal(e as nat),
        HandErrorView::InvalidCommunityCards(n, st, e) => "community_cards length "@ + decimal(
            n as nat,
        ) + " does not match street "@ + street_name(st) + " (expected "@ + decimal(e as nat)
            + ")"@,
        HandErrorView::PotValidation(m) => "pot validation failed: "@ + m,
        HandErrorView::InvalidAction(i, a) => "action "@ + decimal(i as nat) + " invalid: "@
            + action_error_text(a),
        HandErrorView::IdUnavailable(m) => "failed to generate hand ID: "@ + m,
    }
}

impl HandError {
    /// The message of the error (see `hand_error_text`).
    pub fn to_text(&self) -> (s: String)
        ensures
            s@ == hand_error_text(self@),
    {
        match self {
            HandError::BlindsFailed(b) => String::from_str("failed to post blinds: ").concat(
                b.to_text().as_str(),
            ),
            HandError::InvalidSeat(s) => String::from_str("invalid seat: ").concat(
                u64_to_decimal(*s as u64).as_str(),
            ),
            HandError::BettingIncomplete => String::from_str(
                "cannot advance street while betting round is incomplete",
            ),
            HandError::AlreadyFinished => String::from_str("hand already finished"),
            HandError::InvalidButtonPosition(s) => String::from_str("invalid button position: ").concat(
                u64_to_decimal(*s as u64).as_str(),
            ),
            HandError::InvalidBlinds(sb, bb) => String::from_str("small blind (").concat(
                u64_to_decimal(*sb).as_str(),
            ).concat(") must be strictly less than big blind (").concat(
                u64_to_decimal(*bb).as_str(),
            ).concat(")"),
            HandError::InvalidHoleCards(i, n, e) => String::from_str("hole_cards[").concat(
                u64_to_decimal(*i as u64).as_str(),
            ).concat("] length ").concat(u64_to_decimal(*n as u64).as_str()).concat(" != ").concat(
                u64_to_decimal(*e as u64).as_str(),
            ),
            HandError::InvalidCommunityCards(n, st, e) => String::from_str("community_cards length ").concat(
                u64_to_decimal(*n as u64).as_str(),
            ).concat(" does not match street ").concat(st.name()).concat(" (expected ").concat(
                u64_to_decimal(*e as u64).as_str(),
            ).concat(")"),
            HandError::PotValidation(m) => String::from_str("pot validation failed: ").concat(
                m.as_str(),
            ),
            HandError::InvalidAction(i, a) => String::from_str("action ").concat(
                u64_to_decimal(*i as u64).as_str(),
            ).concat(" invalid: ").concat(a.to_text().as_str()),
            HandError::IdUnavailable(m) => String::from_str("failed to generate hand ID: ").concat(
                m.as_str(),
            ),
        }
    }
}

/// One hand of heads-up hold'em.
#[derive(Debug)]
pub struct Hand {
    pub id: HandId,
    /// Cards not dealt yet; the top card is the first one.
    pub deck: Deck,
    pub betting: Betting,
    pub small_blind: ChipCount,
    pub big_blind: ChipCount,
    pub hole_cards: [Vec<Card>; 2],
    pub community_cards: Vec<Card>,
    pub pot: Pot,
    pub current_street: Street,
    pub actions: Vec<Action>,
    /// Stacks of the seats when the hand started.
    pub player_stacks: [ChipCount; 2],
    pub button_position: Seat,
    /// Milliseconds since the Unix epoch of the last change.
    pub last_action_time: Option<i64>,
}

/// The hole cards of `seat` (0 or 1).
pub open spec fn hole(h: Hand, seat: int) -> Seq<Card> {
    h.hole_cards@[seat]@
}

/// The street after `s`; `Finished` stays `Finished`.
pub open spec fn next_street(s: Street) -> Street {
    match s {
        Street::PreFlop => Street::Flop,
        Street::Flop => Street::Turn,
        Street::Turn => Street::River,
        Street::River => Street::Showdown,
        Street::Showdown => Street::Finished,
        Street::Finished => Street::Finished,
    }
}

/// Community cards drawn when leaving street `s`: three for the flop, one for turn and river.
pub open spec fn cards_for_next(s: Street) -> nat {
    match s {
        Street::PreFlop => 3,
        Street::Flop => 1,
        Street::Turn => 1,
        _ => 0,
    }
}

/// Number of community cards a hand on street `s` shows.
pub open spec fn community_count(s: Street) -> usize {
    match s {
        Street::PreFlop => 0,
        Street::Flop => 3,
        Street::Turn => 4,
        _ => 5,
    }
}

/// The top `n` cards of `d`, in the order they are drawn (top card first).
pub open spec fn top_cards(d: Seq<Card>, n: nat) -> Seq<Card> {
    d.take(n as int)
}

/// The cards of `h` in the order the deck held them when the hand was dealt: the four hole
/// cards, dealt one at a time starting with seat 0, then the rest of the deck.
pub open spec fn dealt_order(h: Hand) -> Seq<Card> {
    seq![hole(h, 0)[0], hole(h, 1)[0], hole(h, 0)[1], hole(h, 1)[1]] + h.deck@
}

/// The smaller of `a` and `b`.
pub open spec fn min_nat(a: nat, b: nat) -> nat {
    if a <= b {
        a
    } else {
        b
    }
}

/// `b` is `a` with only the betting, stacks, actions and time possibly changed.
pub open spec fn same_cards_and_setup(a: Hand, b: Hand) -> bool {
    &&& b.id == a.id
    &&& b.deck@ == a.deck@
    &&& b.small_blind == a.small_blind
    &&& b.big_blind == a.big_blind
    &&& b.hole_cards@[0]@ == a.hole_cards@[0]@
    &&& b.hole_cards@[1]@ == a.hole_cards@[1]@
    &&& b.community_cards@ == a.community_cards@
    &&& b.pot@ == a.pot@
    &&& b.current_street == a.current_street
    &&& b.button_position == a.button_position
}

/// `h` is a hand just dealt with the given blinds, button, stacks and identifier: the blinds are
/// posted, each seat holds two cards, and the four dealt cards (in the order they were drawn)
/// followed by the 48 cards left form a full deck.
pub open spec fn freshly_dealt(
    h: Hand,
    small_blind: u64,
    big_blind: u64,
    button: u8,
    stacks: Seq<u64>,
) -> bool {
    &&& blinds_outcome(small_blind, big_blind, stacks, button) == Ok::<
        BettingState,
        BettingErrorView,
    >(h.betting@)
    &&& h.small_blind == small_blind
    &&& h.big_blind == big_blind
    &&& h.button_position == button
    &&& h.player_stacks@ == stacks
    &&& hole(h, 0).len() == 2
    &&& hole(h, 1).len() == 2
    &&& h.deck@.len() == 48
    &&& is_full_deck(dealt_order(h))
    &&& h.community_cards@.len() == 0
    &&& h.pot@.main == 0
    &&& h.pot@.side_pots.len() == 0
    &&& h.current_street == Street::PreFlop
    &&& h.actions@.len() == 0
    &&& h.last_action_time matches Some(t) && t >= 0
}

/// `b` is `a` after a completed betting round moved on: the street's bets join the main pot, a
/// fresh street starts with the same stacks, and the cards of the next street are drawn from
/// the top of the deck (as many as are left).
pub open spec fn street_advanced(a: Hand, b: Hand) -> bool {
    let n = min_nat(cards_for_next(a.current_street), a.deck@.len());
    &&& b.id == a.id
    &&& b.small_blind == a.small_blind
    &&& b.big_blind == a.big_blind
    &&& b.hole_cards@[0]@ == a.hole_cards@[0]@
    &&& b.hole_cards@[1]@ == a.hole_cards@[1]@
    &&& b.button_position == a.button_position
    &&& b.player_stacks@ == a.player_stacks@
    &&& b.actions@ == a.actions@
    &&& b.pot@ == PotView {
        main: sat_add(a.pot@.main, a.betting@.total_pot),
        side_pots: a.pot@.side_pots,
    }
    &&& b.betting@ == street_start(a.big_blind, a.betting@.stacks, a.button_position)
    &&& b.current_street == next_street(a.current_street)
    &&& b.deck@ == a.deck@.skip(n as int)
    &&& b.community_cards@ == a.community_cards@ + top_cards(a.deck@, n)
    &&& b.last_action_time matches Some(t) && t >= 0
}

/// `b` is `a` after `action` was accepted: the betting round took it, the action is recorded
/// and the time is updated; cards, pot and the stacks the hand started with are untouched.
pub open spec fn action_applied(a: Hand, action: Action, b: Hand) -> bool {
    &&& apply_outcome(a.betting@, action.seat as int, action.kind, action.amount) == Ok::<
        BettingState,
        BettingErrorView,
    >(b.betting@)
    &&& same_cards_and_setup(a, b)
    &&& b.player_stacks@ == a.player_stacks@
    &&& b.actions@ == a.actions@.push(action)
    &&& b.last_action_time matches Some(t) && t >= 0
}

/// `seat` has folded in `actions`.
pub open spec fn has_folded(actions: Seq<Action>, seat: u8) -> bool {
    exists|i: int|
        #![trigger actions[i]]
        0 <= i < actions.len() && actions[i].kind == ActionKind::Fold && actions[i].seat == seat
}

/// The seven (or fewer) cards `seat` plays with: its hole cards, then the board.
pub open spec fn seat_cards(h: Hand, seat: int) -> Seq<Card> {
    hole(h, seat) + h.community_cards@
}

/// The winners of the hand: the seat left if the other folded (nobody if both did); otherwise
/// the seat with the better best five-card score, or both on equal scores.
pub open spec fn winners_spec(h: Hand) -> Seq<u8> {
    let f0 = has_folded(h.actions@, 0);
    let f1 = has_folded(h.actions@, 1);
    if f0 && f1 {
        seq![]
    } else if f0 {
        seq![1u8]
    } else if f1 {
        seq![0u8]
    } else {
        let s0 = best_score(seat_cards(h, 0));
        let s1 = best_score(seat_cards(h, 1));
        if s0 > s1 {
            seq![0u8]
        } else if s1 > s0 {
            seq![1u8]
        } else {
            seq![0u8, 1u8]
        }
    }
}

/// At a showdown where neither seat folded, a seat wins exactly when no other seat's best
/// five-card score is higher: the better score wins alone, and the pot is split only on equal
/// scores.
pub proof fn law_showdown_winners(h: Hand)
    requires
        !has_folded(h.actions@, 0),
        !has_folded(h.actions@, 1),
    ensures
        forall|s: u8| s < 2 ==> (winners_spec(h).contains(s) <==> best_score(seat_cards(h, s as int))
            >= best_score(seat_cards(h, 1 - s))),
        forall|i: int| 0 <= i < winners_spec(h).len() ==> #[trigger] winners_spec(h)[i] < 2,
        winners_spec(h).no_duplicates(),
        best_score(seat_cards(h, 1)) > best_score(seat_cards(h, 0)) ==> winners_spec(h) == seq![1u8],
        best_score(seat_cards(h, 0)) > best_score(seat_cards(h, 1)) ==> winners_spec(h) == seq![0u8],
{
    let w = winners_spec(h);
    assert forall|s: u8| s < 2 implies (w.contains(s) <==> best_score(seat_cards(h, s as int))
        >= best_score(seat_cards(h, 1 - s))) by {
        if w.contains(s) {
            let k = choose|k: int| 0 <= k < w.len() && w[k] == s;
        }
        if best_score(seat_cards(h, s as int)) >= best_score(seat_cards(h, 1 - s)) {
            if s == 0 {
                assert(w[0] == 0u8);
            } else if best_score(seat_cards(h, 1)) > best_score(seat_cards(h, 0)) {
                assert(w[0] == 1u8);
            } else {
                assert(w[1] == 1u8);
            }
        }
    }
}

/// The first malformed action from position `i` on, if any.
pub open spec fn action_problem_from(actions: Seq<Action>, i: nat) -> Option<HandErrorView>
    decreases actions.len() - i,
{
    if i >= actions.len() {
        None
    } else {
        match action_check(actions[i as int]) {
            Err(e) => Some(HandErrorView::InvalidAction(i as usize, e)),
            Ok(_) => action_problem_from(actions, i + 1),
        }
    }
}

/// The first problem `validate` finds in `h`, if any.
pub open spec fn hand_problem(h: Hand) -> Option<HandErrorView> {
    if !(h.button_position < 2) {
        Some(HandErrorView::InvalidButtonPosition(h.button_position))
    } else if h.small_blind >= h.big_blind {
        Some(HandErrorView::InvalidBlinds(h.small_blind, h.big_blind))
    } else if hole(h, 0).len() != 2 {
        Some(HandErrorView::InvalidHoleCards(0, hole(h, 0).len() as usize, 2))
    } else if hole(h, 1).len() != 2 {
        Some(HandErrorView::InvalidHoleCards(1, hole(h, 1).len() as usize, 2))
    } else if h.community_cards@.len() != community_count(h.current_street) {
        Some(
            HandErrorView::InvalidCommunityCards(
                h.community_cards@.len() as usize,
                h.current_street,
                community_count(h.current_street),
            ),
        )
    } else if pot_problem_from(h.pot@.side_pots, 0) is Some {
        Some(HandErrorView::PotValidation(pot_problem_from(h.pot@.side_pots, 0)->0))
    } else {
        action_problem_from(h.actions@, 0)
    }
}

/// Draws a card from `deck` onto `cards` if the deck is not empty.
fn draw_onto(deck: &mut Deck, cards: &mut Vec<Card>)
    ensures
        old(deck)@.len() == 0 ==> final(deck)@ == old(deck)@ && final(cards)@ == old(cards)@,
        old(deck)@.len() > 0 ==> final(deck)@ == old(deck)@.drop_first() && final(cards)@ == old(
            cards,
        )@.push(old(deck)@[0]),
{
    if let Some(card) = deck.draw() {
        cards.push(card);
    }
}

impl Hand {
    /// Deals a new hand with identifier `hand_id`: shuffles a deck with `seed`, posts the blinds
    /// (the button posts the small blind) and gives each seat two cards, one at a time.
    pub fn deal_with_id(
        small_blind: ChipCount,
        big_blind: ChipCount,
        button_position: Seat,
        player_stacks: [ChipCount; 2],
        seed: [u8; 32],
        hand_id: HandId,
    ) -> (r: Result<Hand, HandError>)
        requires
            button_position < 2,
        ensures
            r is Ok <==> blinds_outcome(small_blind, big_blind, player_stacks@, button_position) is Ok,
            r matches Ok(h) ==> h.id == hand_id && freshly_dealt(
                h,
                small_blind,
                big_blind,
                button_position,
                player_stacks@,
            ),
            r matches Ok(h) ==> dealt_order(h) == shuffled_deck(seed@),
            r matches Err(e) ==> blinds_outcome(
                small_blind,
                big_blind,
                player_stacks@,
                button_position,
            ) matches Err(be) && e@ == HandErrorView::BlindsFailed(be),
    {
        let mut deck = Deck::new(seed);
        let betting = match Betting::new(small_blind, big_blind, player_stacks, button_position) {
            Ok(b) => b,
            Err(e) => {
                return Err(HandError::BlindsFailed(e));
            },
        };
        let ghost full = deck@;
        let mut first: Vec<Card> = Vec::new();
        let mut second: Vec<Card> = Vec::new();
        draw_onto(&mut deck, &mut first);
        draw_onto(&mut deck, &mut second);
        draw_onto(&mut deck, &mut first);
        draw_onto(&mut deck, &mut second);
        proof {
            assert(full =~= seq![first@[0], second@[0], first@[1], second@[1]] + deck@);
        }
        let hand = Hand {
            id: hand_id,
            deck,
            betting,
            small_blind,
            big_blind,
            hole_cards: [first, second],
            community_cards: Vec::new(),
            pot: Pot::empty(),
            current_street: Street::PreFlop,
            actions: Vec::new(),
            player_stacks,
            button_position,
            last_action_time: Some(now_millis()),
        };
        Ok(hand)
    }

    /// Deals a new hand (see `deal_with_id`) with a fresh random identifier; fails with
    /// `IdUnavailable` when no random identifier can be had.
    pub fn deal(
        small_blind: ChipCount,
        big_blind: ChipCount,
        button_position: Seat,
        player_stacks: [ChipCount; 2],
        seed: [u8; 32],
    ) -> (r: Result<Hand, HandError>)
        requires
            button_position < 2,
        ensures
            r is Ok ==> blinds_outcome(small_blind, big_blind, player_stacks@, button_position) is Ok,
            r matches Ok(h) ==> freshly_dealt(
                h,
                small_blind,
                big_blind,
                button_position,
                player_stacks@,
            ),
            r matches Ok(h) ==> dealt_order(h) == shuffled_deck(seed@),
            r matches Err(e) ==> hand_id_unavailable(e@) || (blinds_outcome(
                small_blind,
                big_blind,
                player_stacks@,
                button_position,
            ) matches Err(be) && e@ == HandErrorView::BlindsFailed(be)),
    {
        let hand_id = match HandId::new_v4() {
            Ok(h) => h,
            Err(e) => {
                return Err(HandError::IdUnavailable(e));
            },
        };
        Hand::deal_with_id(small_blind, big_blind, button_position, player_stacks, seed, hand_id)
    }

    /// Draws up to `n` cards from the top of the deck onto the board.
    fn draw_community(&mut self, n: usize)
        ensures
            final(self).deck@ == old(self).deck@.skip(
                min_nat(n as nat, old(self).deck@.len()) as int,
            ),
            final(self).community_cards@ == old(self).community_cards@ + top_cards(
                old(self).deck@,
                min_nat(n as nat, old(self).deck@.len()),
            ),
            final(self).id == old(self).id,
            final(self).betting == old(self).betting,
            final(self).small_blind == old(self).small_blind,
            final(self).big_blind == old(self).big_blind,
            final(self).hole_cards == old(self).hole_cards,
            final(self).pot == old(self).pot,
            final(self).current_street == old(self).current_street,
            final(self).actions == old(self).actions,
            final(self).player_stacks == old(self).player_stacks,
            final(self).button_position == old(self).button_position,
            final(self).last_action_time == old(self).last_action_time,
    {
        let ghost d = old(self).deck@;
        let ghost c = old(self).community_cards@;
        let mut k: usize = 0;
        while k < n
            invariant
                k <= n,
                self.deck@ == d.skip(min_nat(k as nat, d.len()) as int),
                self.community_cards@ == c + top_cards(d, min_nat(k as nat, d.len())),
                self.id == old(self).id,
                self.betting == old(self).betting,
                self.small_blind == old(self).small_blind,
                self.big_blind == old(self).big_blind,
                self.hole_cards == old(self).hole_cards,
                self.pot == old(self).pot,
                self.current_street == old(self).current_street,
                self.actions == old(self).actions,
                self.player_stacks == old(self).player_stacks,
                self.button_position == old(self).button_position,
                self.last_action_time == old(self).last_action_time,
            decreases n - k,
        {
            let ghost before_deck = self.deck@;
            let ghost before_comm = self.community_cards@;
            draw_onto(&mut self.deck, &mut self.community_cards);
            proof {
                let m = min_nat(k as nat, d.len());
                let m2 = min_nat((k + 1) as nat, d.len());
                if m < d.len() {
                    assert(m2 == m + 1);
                    assert(before_deck.len() == d.len() - m);
                    assert(self.deck@ =~= d.skip(m2 as int));
                    assert(before_deck[0] == d[m as int]);
                    assert(self.community_cards@ =~= c + top_cards(d, m2));
                } else {
                    assert(m2 == m);
                }
            }
            k = k + 1;
        }
    }

    /// Moves to the next street once the betting round is complete: the street's bets join the
    /// main pot, a fresh betting round starts, and the flop (three cards), turn or river (one
    /// card) is dealt. A finished hand is refused with `AlreadyFinished`, after the pot and
    /// betting have been updated.
    pub fn advance_street(&mut self) -> (r: Result<(), HandError>)
        requires
            old(self).button_position < 2,
        ensures
            !old(self).betting@.round_complete ==> (r matches Err(e) && e@
                == HandErrorView::BettingIncomplete) && *final(self) == *old(self),
            old(self).betting@.round_complete ==> street_advanced(*old(self), *final(self)),
            old(self).betting@.round_complete ==> (r is Err <==> old(self).current_street
                == Street::Finished),
            old(self).betting@.round_complete ==> (r matches Err(e) ==> e@
                == HandErrorView::AlreadyFinished),
    {
        if !self.betting.is_round_complete() {
            return Err(HandError::BettingIncomplete);
        }
        self.pot.main = self.pot.main.saturating_add(self.betting.total_pot());
        self.betting = Betting::new_street(self.big_blind, self.betting.stacks(), self.button_position);
        self.last_action_time = Some(now_millis());
        match self.current_street {
            Street::PreFlop => {
                self.draw_community(3);
                self.current_street = Street::Flop;
            },
            Street::Flop => {
                self.draw_community(1);
                self.current_street = Street::Turn;
            },
            Street::Turn => {
                self.draw_community(1);
                self.current_street = Street::River;
            },
            Street::River => {
                self.current_street = Street::Showdown;
            },
            Street::Showdown => {
                self.current_street = Street::Finished;
            },
            Street::Finished => {
                proof {
                    assert(self.deck@.skip(0) =~= self.deck@);
                    assert(self.community_cards@ + top_cards(self.deck@, 0) =~= self.community_cards@);
                }
                return Err(HandError::AlreadyFinished);
            },
        }
        proof {
            assert(old(self).deck@.skip(0) =~= old(self).deck@);
            assert(old(self).community_cards@ + top_cards(old(self).deck@, 0) =~= old(self).community_cards@);
        }
        Ok(())
    }

    /// Applies a player's action to the betting round and records it. A seat other than 0 or 1
    /// is refused with `InvalidSeat`; an action the betting round refuses is reported as
    /// `BlindsFailed` with the betting error. A refused action changes nothing.
    pub fn apply_action(&mut self, action: Action) -> (r: Result<(), HandError>)
        requires
            action.seat < 2 ==> !apply_overflows(
                old(self).betting@,
                action.seat as int,
                action.kind,
                action.amount,
            ),
        ensures
            action.seat >= 2 ==> (r matches Err(e) && e@ == HandErrorView::InvalidSeat(action.seat))
                && *final(self) == *old(self),
            action.seat < 2 ==> match apply_outcome(
                old(self).betting@,
                action.seat as int,
                action.kind,
                action.amount,
            ) {
                Ok(st) => r is Ok && action_applied(*old(self), action, *final(self)),
                Err(be) => (r matches Err(e) && e@ == HandErrorView::BlindsFailed(be)) && *final(self) == *old(self),
            },
    {
        if !seat_is_valid(action.seat) {
            return Err(HandError::InvalidSeat(action.seat));
        }
        match self.betting.apply_action(action.seat, action.kind, action.amount) {
            Ok(()) => {},
            Err(e) => {
                return Err(HandError::BlindsFailed(e));
            },
        }
        self.actions.push(action);
        self.last_action_time = Some(now_millis());
        Ok(())
    }

    /// The winning seats (see `winners_spec`): if one seat folded the other wins; otherwise the
    /// better best five-card hand from hole cards and board wins, both seats on a tie.
    pub fn evaluate_winner(&self) -> (winners: Vec<Seat>)
        requires
            forall|i: int|
                #![trigger self.actions@[i]]
                0 <= i < self.actions@.len() && self.actions@[i].kind == ActionKind::Fold
                    ==> self.actions@[i].seat < 2,
        ensures
            winners@ == winners_spec(*self),
    {
        let mut folded: [bool; 2] = [false, false];
        let mut i: usize = 0;
        while i < self.actions.len()
            invariant
                i <= self.actions@.len(),
                forall|j: int|
                    #![trigger self.actions@[j]]
                    0 <= j < self.actions@.len() && self.actions@[j].kind == ActionKind::Fold
                        ==> self.actions@[j].seat < 2,
                forall|s: u8|
                    s < 2 ==> (folded@[s as int] <==> has_folded(self.actions@.take(i as int), s)),
            decreases self.actions@.len() - i,
        {
            let a = self.actions[i];
            if a.kind == ActionKind::Fold {
                folded[a.seat as usize] = true;
            }
            proof {
                let t = self.actions@.take(i + 1);
                assert forall|s: u8| s < 2 implies (folded@[s as int] <==> has_folded(t, s)) by {
                    if has_folded(t, s) {
                        let w = choose|w: int|
                            #![trigger t[w]]
                            0 <= w < t.len() && t[w].kind == ActionKind::Fold && t[w].seat == s;
                        if w < i {
                            assert(self.actions@.take(i as int)[w] == t[w]);
                        }
                    }
                    if has_folded(self.actions@.take(i as int), s) {
                        let w = choose|w: int|
                            #![trigger self.actions@.take(i as int)[w]]
                            0 <= w < i && self.actions@.take(i as int)[w].kind == ActionKind::Fold
                                && self.actions@.take(i as int)[w].seat == s;
                        assert(t[w] == self.actions@.take(i as int)[w]);
                    }
                    if a.kind == ActionKind::Fold && a.seat == s {
                        assert(t[i as int] == a);
                    }
                }
            }
            i = i + 1;
        }
        assert(self.actions@.take(i as int) =~= self.actions@);
        if folded[0] && folded[1] {
            return Vec::new();
        }
        if folded[0] {
            return vec![1];
        }
        if folded[1] {
            return vec![0];
        }
        let s0 = self.seat_score(0);
        let s1 = self.seat_score(1);
        let mut best: u64 = 0;
        let mut winners: Vec<Seat> = Vec::new();
        if s0 > best {
            best = s0;
            winners.clear();
            winners.push(0);
        } else if s0 == best {
            winners.push(0);
        }
        if s1 > best {
            winners.clear();
            winners.push(1);
        } else if s1 == best {
            winners.push(1);
        }
        proof {
            if s1 > s0 {
                assert(winners@ =~= seq![1u8]);
            } else if s1 == s0 {
                assert(winners@ =~= seq![0u8, 1u8]);
            } else {
                assert(winners@ =~= seq![0u8]);
            }
        }
        winners
    }

    /// The best five-card score of `seat`'s hole cards with the board.
    fn seat_score(&self, seat: usize) -> (s: u64)
        requires
            seat < 2,
        ensures
            s == best_score(seat_cards(*self, seat as int)),
    {
        let mut cards: Vec<Card> = Vec::new();
        let hole_cards = &self.hole_cards[seat];
        let mut i: usize = 0;
        while i < hole_cards.len()
            invariant
                i <= hole_cards@.len(),
                hole_cards@ == hole(*self, seat as int),
                cards@ == hole_cards@.take(i as int),
            decreases hole_cards@.len() - i,
        {
            cards.push(hole_cards[i]);
            proof {
                assert(hole_cards@.take(i + 1) =~= hole_cards@.take(i as int).push(hole_cards@[i as int]));
            }
            i = i + 1;
        }
        let mut j: usize = 0;
        while j < self.community_cards.len()
            invariant
                j <= self.community_cards@.len(),
                cards@ == hole(*self, seat as int) + self.community_cards@.take(j as int),
            decreases self.community_cards@.len() - j,
        {
            cards.push(self.community_cards[j]);
            proof {
                assert(self.community_cards@.take(j + 1) =~= self.community_cards@.take(j as int).push(
                    self.community_cards@[j as int],
                ));
                assert(cards@ =~= hole(*self, seat as int) + self.community_cards@.take(j + 1));
            }
            j = j + 1;
        }
        proof {
            assert(hole_cards@.take(hole_cards@.len() as int) =~= hole_cards@);
            assert(self.community_cards@.take(j as int) =~= self.community_cards@);
        }
        evaluate_hand_score(cards.as_slice())
    }

    /// Checks the hand's shape (see `hand_problem`): a valid button, blinds in order, two hole
    /// cards per seat, as many board cards as the street shows, a valid pot and valid actions.
    pub fn validate(&self) -> (r: Result<(), HandError>)
        ensures
            r is Ok <==> hand_problem(*self) is None,
            r matches Err(e) ==> hand_problem(*self) == Some(e@),
    {
        if !seat_is_valid(self.button_position) {
            return Err(HandError::InvalidButtonPosition(self.button_position));
        }
        if self.small_blind >= self.big_blind {
            return Err(HandError::InvalidBlinds(self.small_blind, self.big_blind));
        }
        let n0 = self.hole_cards[0].len();
        if n0 != HOLE_CARDS_PER_SEAT {
            return Err(HandError::InvalidHoleCards(0, n0, HOLE_CARDS_PER_SEAT));
        }
        let n1 = self.hole_cards[1].len();
        if n1 != HOLE_CARDS_PER_SEAT {
            return Err(HandError::InvalidHoleCards(1, n1, HOLE_CARDS_PER_SEAT));
        }
        let expected: usize = match self.current_street {
            Street::PreFlop => 0,
            Street::Flop => 3,
            Street::Turn => 4,
            Street::River | Street::Showdown | Street::Finished => 5,
        };
        if self.community_cards.len() != expected {
            return Err(
                HandError::InvalidCommunityCards(
                    self.community_cards.len(),
                    self.current_street,
                    expected,
                ),
            );
        }
        match self.pot.validate() {
            Ok(()) => {},
            Err(m) => {
                return Err(HandError::PotValidation(m));
            },
        }
        let mut i: usize = 0;
        while i < self.actions.len()
            invariant
                i <= self.actions@.len(),
                hand_problem(*self) == action_problem_from(self.actions@, 0),
                action_problem_from(self.actions@, 0) == action_problem_from(
                    self.actions@,
                    i as nat,
                ),
            decreases self.actions@.len() - i,
        {
            match self.actions[i].validate() {
                Ok(()) => {},
                Err(e) => {
                    proof {
                        assert((i as nat) as usize == i);
                        assert(action_problem_from(self.actions@, i as nat) == Some(
                            HandErrorView::InvalidAction(i, e),
                        ));
                    }
                    return Err(HandError::InvalidAction(i, e));
                },
            }
            i = i + 1;
        }
        Ok(())
    }
}

/// Every card a hand holds: the deck, both seats' hole cards and the board.
pub open spec fn all_cards(h: Hand) -> Seq<Card> {
    h.deck@ + hole(h, 0) + hole(h, 1) + h.community_cards@
}

/// Every chip of a hand: the pots and what the betting round holds (stacks and street bets).
pub open spec fn hand_chips(h: Hand) -> int {
    h.pot@.main + side_total(h.pot@.side_pots) + chips_total(h.betting@)
}

proof fn lemma_take_and_top(d: Seq<Card>, n: nat)
    requires
        n <= d.len(),
    ensures
        d.skip(n as int).to_multiset().add(top_cards(d, n).to_multiset()) == d.to_multiset(),
{
    broadcast use vstd::seq_lib::group_to_multiset_ensures;
    broadcast use vstd::multiset::group_multiset_axioms;

    assert(d =~= top_cards(d, n) + d.skip(n as int));
    vstd::seq_lib::lemma_multiset_commutative(top_cards(d, n), d.skip(n as int));
    vstd::seq_lib::lemma_multiset_commutative(d.skip(n as int), top_cards(d, n));
}

/// A freshly dealt hand holds every card of the deck exactly once.
pub proof fn law_deal_holds_full_deck(
    h: Hand,
    small_blind: u64,
    big_blind: u64,
    button: u8,
    stacks: Seq<u64>,
)
    requires
        freshly_dealt(h, small_blind, big_blind, button, stacks),
    ensures
        is_full_deck(all_cards(h)),
{
    broadcast use vstd::seq_lib::group_to_multiset_ensures;
    broadcast use vstd::multiset::group_multiset_axioms;

    let h0 = hole(h, 0);
    let h1 = hole(h, 1);
    let dealt = seq![h0[0], h1[0], h0[1], h1[1]];
    let e = Seq::<Card>::empty();
    assert(dealt =~= e.push(h0[0]).push(h1[0]).push(h0[1]).push(h1[1]));
    assert(h0 + h1 =~= e.push(h0[0]).push(h0[1]).push(h1[0]).push(h1[1]));
    assert(dealt.to_multiset() =~= (h0 + h1).to_multiset());
    assert(dealt_order(h) =~= dealt + h.deck@);
    vstd::seq_lib::lemma_multiset_commutative(dealt, h.deck@);
    vstd::seq_lib::lemma_multiset_commutative(h.deck@, h0 + h1);
    assert(all_cards(h) =~= h.deck@ + (h0 + h1));
    assert(all_cards(h).to_multiset() =~= dealt_order(h).to_multiset());
}

/// Moving to the next street only moves cards from the top of the deck to the board: the hand
/// holds the same cards before and after.
pub proof fn law_advance_keeps_cards(a: Hand, b: Hand)
    requires
        street_advanced(a, b),
    ensures
        all_cards(b).to_multiset() == all_cards(a).to_multiset(),
{
    broadcast use vstd::seq_lib::group_to_multiset_ensures;
    broadcast use vstd::multiset::group_multiset_axioms;

    let n = min_nat(cards_for_next(a.current_street), a.deck@.len());
    let d = a.deck@;
    lemma_take_and_top(d, n);
    let holes = hole(a, 0) + hole(a, 1);
    assert(all_cards(a) =~= d + holes + a.community_cards@) by {
        assert(all_cards(a) =~= d + hole(a, 0) + hole(a, 1) + a.community_cards@);
    }
    assert(all_cards(b) =~= d.skip(n as int) + holes + (a.community_cards@ + top_cards(d, n)));
    vstd::seq_lib::lemma_multiset_commutative(d, holes);
    vstd::seq_lib::lemma_multiset_commutative(d + holes, a.community_cards@);
    vstd::seq_lib::lemma_multiset_commutative(d.skip(n as int), holes);
    vstd::seq_lib::lemma_multiset_commutative(a.community_cards@, top_cards(d, n));
    vstd::seq_lib::lemma_multiset_commutative(
        d.skip(n as int) + holes,
        a.community_cards@ + top_cards(d, n),
    );
    assert(all_cards(b).to_multiset() =~= all_cards(a).to_multiset());
}

/// An accepted action neither adds nor removes cards or chips: the pot is untouched and what
/// leaves a stack enters the street's bets.
pub proof fn law_action_conserves_chips_and_cards(a: Hand, action: Action, b: Hand)
    requires
        chips_ok(a.betting@),
        action.seat < 2,
        action_applied(a, action, b),
    ensures
        chips_ok(b.betting@),
        hand_chips(b) == hand_chips(a),
        all_cards(b) == all_cards(a),
{
    law_apply_conserves_chips(a.betting@, action.seat as int, action.kind, action.amount, b.betting@);
    assert(all_cards(b) =~= all_cards(a));
}

/// Moving to the next street puts the street's bets into the main pot without losing chips,
/// as long as the main pot does not saturate.
pub proof fn law_advance_conserves_chips(a: Hand, b: Hand)
    requires
        chips_ok(a.betting@),
        a.button_position < 2,
        a.pot@.main + a.betting@.total_pot <= u64::MAX,
        street_advanced(a, b),
    ensures
        chips_ok(b.betting@),
        hand_chips(b) == hand_chips(a),
{
    law_street_start_conserves_chips(a.big_blind, a.betting@.stacks, a.button_position);
}

/// When a seat folds and nobody had folded before, the other seat is the only winner.
pub proof fn law_fold_gives_other_seat(a: Hand, action: Action, b: Hand)
    requires
        action.kind == ActionKind::Fold,
        action.seat < 2,
        !has_folded(a.actions@, 0),
        !has_folded(a.actions@, 1),
        action_applied(a, action, b),
    ensures
        winners_spec(b) == seq![(1 - action.seat) as u8],
{
    let n = a.actions@.len() as int;
    assert(b.actions@[n] == action);
    let other = (1 - action.seat) as u8;
    if has_folded(b.actions@, other) {
        let w = choose|w: int|
            #![trigger b.actions@[w]]
            0 <= w < b.actions@.len() && b.actions@[w].kind == ActionKind::Fold
                && b.actions@[w].seat == other;
        assert(w < n);
        assert(a.actions@[w] == b.actions@[w]);
    }
    assert(has_folded(b.actions@, action.seat));
}

/// The board and deck of `h` fit its street: the board shows as many cards as the street has
/// (none before the flop, then three, four and five), and deck and board hold the 48 cards not
/// dealt to the seats.
pub open spec fn board_fits(h: Hand) -> bool {
    &&& h.community_cards@.len() == community_count(h.current_street)
    &&& h.deck@.len() + h.community_cards@.len() == 48
}

/// A freshly dealt hand shows no board and holds 48 cards in its deck.
pub proof fn law_deal_board_fits(h: Hand, small_blind: u64, big_blind: u64, button: u8, stacks: Seq<u64>)
    requires
        freshly_dealt(h, small_blind, big_blind, button, stacks),
    ensures
        board_fits(h),
{
}

/// Moving to the next street deals three cards for the flop and one each for the turn and the
/// river from the deck to the board, and none afterwards.
pub proof fn law_advance_board_fits(a: Hand, b: Hand)
    requires
        board_fits(a),
        street_advanced(a, b),
    ensures
        board_fits(b),
        b.community_cards@.len() == a.community_cards@.len() + cards_for_next(a.current_street),
{
}

/// An accepted action leaves the board and the deck as they were.
pub proof fn law_action_board_fits(a: Hand, action: Action, b: Hand)
    requires
        board_fits(a),
        action_applied(a, action, b),
    ensures
        board_fits(b),
{
}

} // verus!
