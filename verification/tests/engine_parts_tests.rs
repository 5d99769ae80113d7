use hupoker::action::{Action, ActionError, ActionKind};
use hupoker::betting::{Betting, BettingError};
use hupoker::card::{Card, Rank, Suit};
use hupoker::config::ServerConfig;
use hupoker::deck::Deck;
use hupoker::hand::{seat_is_valid, Hand, HandError, Street};
use hupoker::ids::{ConnectionId, HandId};
use hupoker::payout::award_pots_to_winners;
use hupoker::player::Player;
use hupoker::pot::{Pot, SidePot};
use hupoker::table::{Table, TableConfig, TableError, TableId};
use hupoker::text::u64_to_decimal;

fn config() -> TableConfig {
    TableConfig {
        small_blind: 10,
        big_blind: 20,
        starting_stack: 1500,
        action_timeout_secs: 30,
        reconnection_timeout_secs: 60,
    }
}

fn player(seat: u8, stack: u64) -> Player {
    Player {
        seat,
        stack,
        connection_id: ConnectionId::new(seat as u128 + 1),
        disconnected_at: None,
        is_sitting_out: false,
    }
}

fn table_with_players() -> Table {
    Table {
        id: TableId::new("table-0".to_string()),
        seats: [Some(player(0, 1500)), Some(player(1, 1500))],
        current_hand: None,
        next_button_position: 0,
        hand_count: 0,
        config: config(),
        created_at: 0,
    }
}

#[test]
fn seats_are_zero_and_one() {
    assert!(seat_is_valid(0));
    assert!(seat_is_valid(1));
    assert!(!seat_is_valid(2));
}

#[test]
fn decimal_rendering() {
    assert_eq!(u64_to_decimal(0), "0");
    assert_eq!(u64_to_decimal(1500), "1500");
    assert_eq!(u64_to_decimal(u64::MAX), "18446744073709551615");
}

#[test]
fn action_kind_names_round_trip() {
    for kind in [ActionKind::Fold, ActionKind::Check, ActionKind::Call, ActionKind::Bet, ActionKind::Raise] {
        assert_eq!(ActionKind::parse(kind.name()), Ok(kind));
    }
    assert_eq!(ActionKind::parse("Shove"), Err("invalid action kind: Shove".to_string()));
}

#[test]
fn action_validation_errors() {
    let a = |seat, kind, amount| Action { seat, kind, amount, timestamp: 0 };
    assert_eq!(a(2, ActionKind::Fold, None).validate(), Err(ActionError::InvalidSeat(2)));
    assert_eq!(a(0, ActionKind::Check, Some(5)).validate(), Err(ActionError::UnexpectedAmount(ActionKind::Check)));
    assert_eq!(a(0, ActionKind::Bet, None).validate(), Err(ActionError::MissingAmount(ActionKind::Bet)));
    assert_eq!(a(0, ActionKind::Raise, Some(0)).validate(), Err(ActionError::ZeroAmount(ActionKind::Raise)));
    assert_eq!(a(1, ActionKind::Call, Some(10)).validate(), Ok(()));
    assert_eq!(ActionError::ZeroAmount(ActionKind::Raise).to_text(), "Raise amount must be positive");
}

#[test]
fn blinds_are_posted_and_button_acts_first() {
    let b = Betting::new(10, 20, [1500, 1500], 1).unwrap();
    assert_eq!(b.bets(), [20, 10]);
    assert_eq!(b.stacks(), [1480, 1490]);
    assert_eq!(b.total_pot(), 30);
    assert_eq!(b.acting_seat(), Some(1));
    assert_eq!(b.amount_to_call(1), 10);
    assert_eq!(b.amount_to_call(0), 0);
}

#[test]
fn blinds_that_cannot_be_afforded_are_refused() {
    match Betting::new(10, 20, [5, 1500], 0) {
        Err(BettingError::CannotAffordSmallBlind(0, 5, 10)) => {}
        other => panic!("unexpected {:?}", other),
    }
    match Betting::new(10, 20, [1500, 19], 0) {
        Err(e) => assert_eq!(e.to_text(), "player at seat 1 cannot afford big blind: has 19, needs 20"),
        other => panic!("unexpected {:?}", other),
    }
}

#[test]
fn betting_errors() {
    let mut b = Betting::new(10, 20, [1500, 1500], 0).unwrap();
    match b.apply_action(0, ActionKind::Check, None) {
        Err(e) => assert_eq!(e.to_text(), "illegal action: cannot check: must call 10 chips"),
        Ok(()) => panic!("check must be refused"),
    }
    match b.apply_action(0, ActionKind::Call, Some(15)) {
        Err(e) => assert_eq!(e.to_text(), "illegal action: cannot call more than 10 chips (use raise to increase bet)"),
        Ok(()) => panic!("overcall must be refused"),
    }
    match b.apply_action(0, ActionKind::Bet, Some(40)) {
        Err(BettingError::IllegalAction(_)) => {}
        other => panic!("unexpected {:?}", other),
    }
    match b.apply_action(0, ActionKind::Raise, Some(20)) {
        Err(BettingError::BelowMinRaise(40, 30)) => {}
        other => panic!("unexpected {:?}", other),
    }
    match b.apply_action(0, ActionKind::Raise, Some(5000)) {
        Err(BettingError::InsufficientStack(1490, 5000)) => {}
        other => panic!("unexpected {:?}", other),
    }
    assert!(b.apply_action(0, ActionKind::Fold, None).is_ok());
    assert!(b.is_round_complete());
    match b.apply_action(1, ActionKind::Check, None) {
        Err(BettingError::RoundComplete) => {}
        other => panic!("unexpected {:?}", other),
    }
}

#[test]
fn chips_are_conserved_by_a_call() {
    let mut b = Betting::new(10, 20, [1500, 1500], 0).unwrap();
    b.apply_action(0, ActionKind::Call, Some(10)).unwrap();
    let s = b.stacks();
    assert_eq!(s[0] + s[1] + b.total_pot(), 3000);
    assert_eq!(b.amount_to_call(0), 0);
}

#[test]
fn new_street_resets_bets() {
    let b = Betting::new_street(20, [1000, 900], 0);
    assert_eq!(b.bets(), [0, 0]);
    assert_eq!(b.stacks(), [1000, 900]);
    assert_eq!(b.acting_seat(), Some(1));
}

#[test]
fn deck_is_a_permutation_of_the_full_deck() {
    let mut deck = Deck::new([3u8; 32]);
    assert_eq!(deck.remaining(), 52);
    let mut seen = std::collections::HashSet::new();
    while let Some(c) = deck.draw() {
        assert!(seen.insert((c.rank.value(), c.suit.index())));
    }
    assert_eq!(seen.len(), 52);
    assert_eq!(deck.remaining(), 0);
    assert!(deck.validate().is_ok());
}

#[test]
fn same_seed_same_deck() {
    let a = Deck::new([9u8; 32]);
    let b = Deck::new([9u8; 32]);
    assert_eq!(a.cards(), b.cards());
}

#[test]
fn oversized_deck_is_refused() {
    let card = Card { rank: Rank::Ace, suit: Suit::Spades };
    let deck = Deck::from_cards(vec![card; 53]);
    assert_eq!(deck.validate(), Err("deck has too many cards: 53".to_string()));
}

#[test]
fn pot_total_and_validation() {
    let pot = Pot {
        main: 100,
        side_pots: vec![SidePot { amount: 50, eligible_seats: vec![0] }],
    };
    assert_eq!(pot.total(), 150);
    assert!(pot.validate().is_ok());
    let zero = Pot { main: 0, side_pots: vec![SidePot { amount: 0, eligible_seats: vec![0] }] };
    assert_eq!(zero.validate(), Err("side pot 0 amount is zero".to_string()));
    let nobody = Pot { main: 0, side_pots: vec![SidePot { amount: 5, eligible_seats: vec![] }] };
    assert_eq!(nobody.validate(), Err("side pot 0 has no eligible seats".to_string()));
    let bad = Pot { main: 0, side_pots: vec![SidePot { amount: 5, eligible_seats: vec![0, 3] }] };
    assert_eq!(bad.validate(), Err("side pot 0 invalid seat 3".to_string()));
}

#[test]
fn player_and_config_validation() {
    assert_eq!(player(5, 10).validate(), Err("invalid seat 5".to_string()));
    assert!(player(1, 0).validate().is_ok());
    assert!(config().validate().is_ok());
    let mut c = config();
    c.small_blind = 20;
    assert_eq!(c.validate(), Err("small_blind (20) must be less than big_blind (20)".to_string()));
    let mut c = config();
    c.starting_stack = 399;
    assert_eq!(c.validate(), Err("starting_stack (399) must be at least big_blind * 20 (400)".to_string()));
    let mut c = config();
    c.action_timeout_secs = 0;
    assert_eq!(c.validate(), Err("action_timeout_secs must be at least 1".to_string()));
    let mut c = config();
    c.reconnection_timeout_secs = 10;
    assert_eq!(c.validate(), Err("reconnection_timeout_secs (10) must be >= action_timeout_secs (30)".to_string()));
}

#[test]
fn server_config_validation() {
    let good = ServerConfig {
        bind_address: "127.0.0.1:8080".to_string(),
        tables: vec![config()],
        audit_log_path: "audit.log".to_string(),
        encryption_key_env_var: "HUPOKER_ENCRYPTION_KEY".to_string(),
    };
    assert!(good.validate().is_ok());
    let mut no_port = good.clone();
    no_port.bind_address = "localhost".to_string();
    assert_eq!(no_port.validate(), Err("bind_address must be in format 'host:port'".to_string()));
    let mut bad_table = good.clone();
    bad_table.tables[0].action_timeout_secs = 0;
    assert_eq!(
        bad_table.validate(),
        Err("table config 0 invalid: action_timeout_secs must be at least 1".to_string())
    );
}

#[test]
fn table_id_parse_and_hand_id_text() {
    assert!(TableId::parse("").is_err());
    assert_eq!(TableId::parse("table-1").unwrap().as_str(), "table-1");
    let id = HandId::new(0x550e8400e29b41d4a716446655440000);
    assert_eq!(id.to_text(), "550e8400-e29b-41d4-a716-446655440000");
    assert_eq!(HandId::parse("550e8400-e29b-41d4-a716-446655440000").unwrap(), id);
    assert!(HandId::parse("not-a-uuid").unwrap_err().starts_with("invalid hand ID: "));
}

#[test]
fn table_starts_hands_and_moves_the_button() {
    let mut t = table_with_players();
    assert!(t.validate().is_ok());
    let id = t.start_hand_with_id([1u8; 32], HandId::new(42)).unwrap();
    assert_eq!(id, HandId::new(42));
    assert_eq!(t.next_button_position, 1);
    assert_eq!(t.hand_count, 1);
    let hand = t.current_hand.as_ref().unwrap();
    assert_eq!(hand.button_position, 0);
    assert_eq!(hand.deck.remaining(), 48);
    match t.start_hand([2u8; 32]) {
        Err(e) => assert_eq!(e.to_text(), "cannot start hand: a hand is already in progress"),
        Ok(_) => panic!("second hand must be refused"),
    }
}

#[test]
fn table_needs_two_players() {
    let mut t = table_with_players();
    t.seats[1] = None;
    match t.start_hand([1u8; 32]) {
        Err(TableError::NotEnoughPlayers) => {}
        other => panic!("unexpected {:?}", other.map(|_| ())),
    }
}

#[test]
fn table_validation_messages() {
    let mut t = table_with_players();
    t.seats[0] = Some(player(1, 100));
    assert_eq!(t.validate(), Err("player seat 1 does not match index 0".to_string()));
    let mut t = table_with_players();
    t.next_button_position = 2;
    assert_eq!(t.validate(), Err("invalid next_button_position 2".to_string()));
    let mut t = table_with_players();
    t.start_hand([1u8; 32]).unwrap();
    t.seats[1] = None;
    assert_eq!(t.validate(), Err("current_hand exists but not both seats occupied".to_string()));
}

#[test]
fn hand_errors_and_validation() {
    let mut hand = Hand::deal(10, 20, 1, [1500, 1500], [4u8; 32]).unwrap();
    assert!(hand.validate().is_ok());
    let bad = Action { seat: 3, kind: ActionKind::Fold, amount: None, timestamp: 0 };
    match hand.apply_action(bad) {
        Err(e) => assert_eq!(e.to_text(), "invalid seat: 3"),
        Ok(()) => panic!("seat 3 must be refused"),
    }
    match hand.advance_street() {
        Err(HandError::BettingIncomplete) => {}
        other => panic!("unexpected {:?}", other),
    }
    hand.community_cards.push(Card { rank: Rank::Two, suit: Suit::Clubs });
    match hand.validate() {
        Err(e) => assert_eq!(e.to_text(), "community_cards length 1 does not match street PreFlop (expected 0)"),
        Ok(()) => panic!("board must be refused"),
    }
}

#[test]
fn advancing_moves_bets_to_the_pot_and_deals_from_the_top() {
    let mut hand = Hand::deal(10, 20, 0, [1500, 1500], [8u8; 32]).unwrap();
    hand.apply_action(Action { seat: 0, kind: ActionKind::Call, amount: Some(10), timestamp: 0 }).unwrap();
    hand.apply_action(Action { seat: 1, kind: ActionKind::Check, amount: None, timestamp: 0 }).unwrap();
    let top: Vec<Card> = hand.deck.cards().iter().take(3).copied().collect();
    hand.advance_street().unwrap();
    assert_eq!(hand.pot.main, 40);
    assert_eq!(hand.community_cards, top);
    assert_eq!(hand.deck.remaining(), 45);
    assert_eq!(hand.betting.total_pot(), 0);
    assert_eq!(hand.betting.acting_seat(), Some(1));
}

#[test]
fn finished_hand_cannot_advance() {
    let mut hand = Hand::deal(10, 20, 0, [1500, 1500], [8u8; 32]).unwrap();
    hand.apply_action(Action { seat: 0, kind: ActionKind::Fold, amount: None, timestamp: 0 }).unwrap();
    for _ in 0..5 {
        hand.advance_street().unwrap();
        hand.apply_action(Action { seat: 0, kind: ActionKind::Fold, amount: None, timestamp: 0 }).unwrap();
    }
    assert_eq!(hand.current_street, Street::Finished);
    match hand.advance_street() {
        Err(HandError::AlreadyFinished) => {}
        other => panic!("unexpected {:?}", other),
    }
}

#[test]
fn showdown_winner_has_the_better_hand() {
    let mut hand = Hand::deal(10, 20, 0, [1500, 1500], [0u8; 32]).unwrap();
    let c = |rank, suit| Card { rank, suit };
    hand.hole_cards = [
        vec![c(Rank::Ace, Suit::Spades), c(Rank::Ace, Suit::Hearts)],
        vec![c(Rank::Seven, Suit::Clubs), c(Rank::Two, Suit::Diamonds)],
    ];
    hand.community_cards = vec![
        c(Rank::King, Suit::Clubs),
        c(Rank::Nine, Suit::Diamonds),
        c(Rank::Four, Suit::Spades),
        c(Rank::Three, Suit::Hearts),
        c(Rank::Jack, Suit::Clubs),
    ];
    assert_eq!(hand.evaluate_winner(), vec![0]);
    hand.hole_cards = [
        vec![c(Rank::Two, Suit::Spades), c(Rank::Five, Suit::Hearts)],
        vec![c(Rank::Two, Suit::Clubs), c(Rank::Five, Suit::Diamonds)],
    ];
    assert_eq!(hand.evaluate_winner(), vec![0, 1]);
}

#[test]
fn pots_are_split_with_the_odd_chip_to_the_button() {
    let mut hand = Hand::deal(10, 20, 1, [1500, 1500], [0u8; 32]).unwrap();
    // The blinds still on the street belong to the main pot.
    assert_eq!(award_pots_to_winners(&hand, &[0]), [30, 0]);
    hand.pot.main = 101;
    assert_eq!(award_pots_to_winners(&hand, &[0, 1]), [65, 66]);
    hand.betting = Betting::new_street(20, [1490, 1480], 1);
    assert_eq!(award_pots_to_winners(&hand, &[0, 1]), [50, 51]);
    assert_eq!(award_pots_to_winners(&hand, &[0]), [101, 0]);
    assert_eq!(award_pots_to_winners(&hand, &[]), [0, 0]);
    hand.pot.side_pots = vec![SidePot { amount: 30, eligible_seats: vec![1] }];
    assert_eq!(award_pots_to_winners(&hand, &[0, 1]), [50, 81]);
    assert_eq!(award_pots_to_winners(&hand, &[0]), [101, 0]);
}

#[test]
fn all_in_bet_below_the_minimum_is_accepted() {
    let mut b = Betting::new_street(20, [1500, 10], 0);
    assert!(b.apply_action(1, ActionKind::Bet, Some(10)).is_ok());
    assert_eq!(b.bets(), [0, 10]);
    assert_eq!(b.stacks(), [1500, 0]);
    assert_eq!(b.total_pot(), 10);
    let mut b = Betting::new_street(20, [1500, 30], 0);
    match b.apply_action(1, ActionKind::Bet, Some(10)) {
        Err(BettingError::BelowMinRaise(20, 10)) => {}
        other => panic!("unexpected {:?}", other),
    }
}

#[test]
fn amount_to_call_is_the_bet_difference() {
    let b = Betting::new(10, 20, [1500, 1500], 0).unwrap();
    assert_eq!(b.amount_to_call(0), 10);
    assert_eq!(b.amount_to_call(1), 0);
    assert_eq!(b.bets()[0] + b.stacks()[0], 1500);
    assert_eq!(b.bets()[1] + b.stacks()[1], 1500);
}

#[test]
fn bind_address_needs_host_and_port() {
    let with = |a: &str| ServerConfig {
        bind_address: a.to_string(),
        tables: vec![],
        audit_log_path: "audit.log".to_string(),
        encryption_key_env_var: "HUPOKER_ENCRYPTION_KEY".to_string(),
    };
    assert!(with("localhost:8080").validate().is_ok());
    assert!(with("[::1]:65535").validate().is_ok());
    assert_eq!(with("localhost:notaport").validate(), Err("bind_address port must be a number from 0 to 65535".to_string()));
    assert_eq!(with("localhost:65536").validate(), Err("bind_address port must be a number from 0 to 65535".to_string()));
    assert_eq!(with("localhost:").validate(), Err("bind_address port must be a number from 0 to 65535".to_string()));
    assert_eq!(with(":8080").validate(), Err("bind_address must be in format 'host:port'".to_string()));
    assert_eq!(with("localhost").validate(), Err("bind_address must be in format 'host:port'".to_string()));
}

#[test]
fn hand_keeps_starting_stacks_after_actions() {
    let mut h = Hand::deal(10, 20, 0, [1500, 1500], [0u8; 32]).unwrap();
    let call = Action { seat: 0, kind: ActionKind::Call, amount: Some(10), timestamp: 0 };
    assert!(h.apply_action(call).is_ok());
    assert_eq!(h.actions.len(), 1);
    assert_eq!(h.player_stacks, [1500, 1500]);
    assert_eq!(h.betting.stacks(), [1480, 1480]);
}

#[test]
fn the_top_card_is_the_first() {
    let a = Card { rank: Rank::Ace, suit: Suit::Spades };
    let b = Card { rank: Rank::Two, suit: Suit::Hearts };
    let mut deck = Deck::from_cards(vec![a, b]);
    assert_eq!(deck.draw(), Some(a));
    assert_eq!(deck.cards(), &vec![b]);
    assert_eq!(deck.draw(), Some(b));
    assert_eq!(deck.draw(), None);
}

#[test]
fn hole_cards_come_from_the_top_of_the_seeded_deck() {
    let deck = Deck::new([4u8; 32]);
    let h = Hand::deal(10, 20, 0, [1500, 1500], [4u8; 32]).unwrap();
    let c = deck.cards();
    assert_eq!(h.hole_cards[0], vec![c[0], c[2]]);
    assert_eq!(h.hole_cards[1], vec![c[1], c[3]]);
    assert_eq!(h.deck.cards()[..], c[4..]);
}
