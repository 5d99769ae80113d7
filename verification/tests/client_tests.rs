use hupoker::action::{Action, ActionKind};
use hupoker::card::{Card, Rank, Suit};
use hupoker::client::{
    check_server_hello, join_step, rank_symbol, suit_symbol, CardColor, CardWidget, ChipStackWidget,
    ConnectionStatus, DialogState, JoinStep, ReconnectDecision, TableViewState,
};
use hupoker::hand::Street;
use hupoker::ids::HandId;
use hupoker::messages::{make_error_msg, HandState, Message};
use hupoker::pot::Pot;
use hupoker::table::TableId;

fn hand_state(actions: Vec<Action>) -> HandState {
    HandState {
        hand_id: HandId::new(3),
        table_id: TableId::new("table-0".to_string()),
        hole_cards: vec![Card { rank: Rank::Ace, suit: Suit::Spades }],
        community_cards: vec![],
        pot: Pot { main: 40, side_pots: vec![] },
        current_street: Street::Flop,
        actions,
        player_stacks: [1480, 1480],
        button_position: 1,
        last_action_time: "2025-01-01T00:00:00+00:00".to_string(),
        acting_seat: Some(1),
        time_remaining_ms: 25_000,
    }
}

#[test]
fn symbols_and_labels() {
    assert_eq!(rank_symbol(Rank::Ten), "10");
    assert_eq!(rank_symbol(Rank::Queen), "Q");
    assert_eq!(suit_symbol(Suit::Hearts), "♥");
    let c = Card { rank: Rank::Ace, suit: Suit::Diamonds };
    assert_eq!(CardWidget::label(&c), "A\n♦");
    assert_eq!(CardWidget::color(&c), CardColor::Red);
    assert_eq!(CardWidget::color(&Card { rank: Rank::Two, suit: Suit::Clubs }), CardColor::Black);
    assert_eq!(ChipStackWidget::label(999), "999");
    assert_eq!(ChipStackWidget::label(1_500), "1K");
    assert_eq!(ChipStackWidget::label(2_750_000), "2M");
    assert_eq!(ConnectionStatus::default(), ConnectionStatus::Disconnected);
}

#[test]
fn view_takes_over_hand_state_and_notices_timeouts() {
    let mut v = TableViewState::new(0, TableId::new("table-0".to_string()));
    assert_eq!(v.player_stacks, [1500, 1500]);
    v.update_from_hand_state(&hand_state(vec![]));
    assert_eq!(v.hand_id, Some(HandId::new(3)));
    assert_eq!(v.current_street, Street::Flop);
    assert_eq!(v.acting_seat, Some(1));
    assert_eq!(v.time_remaining_ms, Some(25_000));
    assert!(v.notification.is_none());
    let fold = |seat| Action { seat, kind: ActionKind::Fold, amount: None, timestamp: 0 };
    v.update_from_hand_state(&hand_state(vec![fold(0)]));
    assert_eq!(v.notification.as_deref(), Some("You folded due to timeout"));
    v.last_sent_action = Some(ActionKind::Fold);
    v.update_from_hand_state(&hand_state(vec![fold(0)]));
    assert!(v.notification.is_none());
    assert!(v.last_sent_action.is_none());
    v.update_from_hand_state(&hand_state(vec![fold(1)]));
    assert_eq!(v.notification.as_deref(), Some("Player 1 folded due to timeout"));
}

#[test]
fn buttons_follow_the_bets() {
    let mut v = TableViewState::new(0, TableId::new("table-0".to_string()));
    v.acting_seat = Some(0);
    let o = v.action_options();
    assert!(o.is_my_turn && o.can_check && o.can_bet && !o.can_raise);
    assert_eq!(o.call_label, "Check");
    assert_eq!(o.call_action, (ActionKind::Check, None));
    assert_eq!(o.bet_amount, 100);
    v.current_bets = [10, 20];
    v.player_stacks = [50, 1500];
    let o = v.action_options();
    assert!(!o.can_check && !o.can_bet && o.can_raise);
    assert_eq!(o.call_label, "Call (10 chips)");
    assert_eq!(o.call_action, (ActionKind::Call, Some(10)));
    assert_eq!(o.raise_amount, 50);
    v.player_stacks = [5, 1500];
    let o = v.action_options();
    assert_eq!(o.call_action, (ActionKind::Call, Some(5)));
    assert!(!o.can_raise);
}

#[test]
fn responses_to_actions() {
    let mut v = TableViewState::new(0, TableId::new("table-0".to_string()));
    assert_eq!(
        v.apply_response(make_error_msg("not_your_turn", "it is not your turn to act", "action")),
        Err("server error not_your_turn: it is not your turn to act".to_string())
    );
    assert_eq!(v.error_message.as_deref(), Some("server error not_your_turn: it is not your turn to act"));
    assert_eq!(
        v.apply_response(Message::Disconnected { version: "1.0".to_string(), reason: "x".to_string() }),
        Err("unexpected response".to_string())
    );
}

#[test]
fn server_hello_checks() {
    let hello = |version: &str, status: &str| Message::ServerHello {
        version: version.to_string(),
        status: status.to_string(),
        server_name: "s".to_string(),
        server_version: "0.1.0".to_string(),
    };
    assert_eq!(check_server_hello(&hello("1.0", "accepted")), Ok(()));
    assert_eq!(check_server_hello(&hello("2.0", "accepted")), Err("unsupported server version: 2.0".to_string()));
    assert_eq!(check_server_hello(&hello("1.1", "rejected")), Err("server rejected connection: rejected".to_string()));
    assert_eq!(
        check_server_hello(&make_error_msg("unsupported_version", "no", "client_hello")),
        Err("server error unsupported_version: no".to_string())
    );
}

#[test]
fn join_steps() {
    match join_step(make_error_msg("seat_taken", "seat already occupied", "join_table")) {
        JoinStep::Failed(e) => assert_eq!(e, "join table error seat_taken: seat already occupied"),
        other => panic!("unexpected {:?}", other),
    }
    match join_step(Message::Heartbeat { version: "1.0".to_string(), timestamp: "t".to_string() }) {
        JoinStep::Failed(e) => assert_eq!(e, "unexpected response to JoinTable"),
        other => panic!("unexpected {:?}", other),
    }
}

#[test]
fn sending_an_action_clears_the_error() {
    let mut v = TableViewState::new(1, TableId::new("table-0".to_string()));
    v.error_message = Some("server error x: y".to_string());
    v.action_sent(ActionKind::Call);
    assert_eq!(v.error_message, None);
    assert_eq!(v.last_sent_action, Some(ActionKind::Call));
    assert_eq!(v.player_seat, 1);
}

#[test]
fn bet_is_disabled_while_the_opponent_has_bet() {
    let mut v = TableViewState::new(0, TableId::new("table-0".to_string()));
    v.acting_seat = Some(0);
    v.current_bets = [0, 40];
    let o = v.action_options();
    assert!(!o.can_bet);
    assert!(o.can_raise);
}

#[test]
fn reconnection_backs_off_and_gives_up_after_three_attempts() {
    let mut d = DialogState::new();
    d.connect_succeeded(TableId::new("table-0".to_string()));
    d.connect_failed("down", 0);
    assert_eq!(d.status, ConnectionStatus::Reconnecting);
    assert!(matches!(d.reconnect_attempt(999), ReconnectDecision::Wait));
    assert!(matches!(d.reconnect_attempt(1000), ReconnectDecision::Try(_, 0)));
    d.reconnect_failed("x");
    assert_eq!(d.error_message.as_deref(), Some("Reconnection failed (attempt 1): x"));
    assert_eq!(d.status, ConnectionStatus::Reconnecting);
    assert!(matches!(d.reconnect_attempt(2999), ReconnectDecision::Wait));
    assert!(matches!(d.reconnect_attempt(3000), ReconnectDecision::Try(_, 0)));
    d.reconnect_failed("x");
    assert!(matches!(d.reconnect_attempt(6999), ReconnectDecision::Wait));
    assert!(matches!(d.reconnect_attempt(7000), ReconnectDecision::Try(_, 0)));
    d.reconnect_failed("x");
    assert_eq!(d.status, ConnectionStatus::Disconnected);
    assert_eq!(d.error_message.as_deref(), Some("Reconnection failed after 3 attempts: x"));
    assert!(matches!(d.reconnect_attempt(100_000), ReconnectDecision::Abandon));
    assert_eq!(d.reconnect_attempts, 3);
}
