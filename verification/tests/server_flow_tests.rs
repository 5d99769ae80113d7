use hupoker::action::ActionKind;
use hupoker::audit::AuditEvent;
use hupoker::handshake::{accept_client_hello, is_valid_client_string, is_valid_version, server_hello};
use hupoker::ids::{ConnectionId, HandId};
use hupoker::messages::{make_error_msg, Message};
use hupoker::table::{TableConfig, TableId};
use hupoker::table_manager::{JoinOutcome, TableManager};

fn config() -> TableConfig {
    TableConfig {
        small_blind: 10,
        big_blind: 20,
        starting_stack: 1500,
        action_timeout_secs: 30,
        reconnection_timeout_secs: 60,
    }
}

fn manager() -> TableManager {
    TableManager::from_configs(&vec![config(), config()], 0)
}

fn table0() -> TableId {
    TableId::new("table-0".to_string())
}

fn error_code(m: &Message) -> (String, String) {
    match m {
        Message::Error { code, message, .. } => (code.clone(), message.clone()),
        other => panic!("expected an error, got {:?}", other),
    }
}

fn seated_manager() -> TableManager {
    let mut tm = manager();
    match tm.join_table(&table0(), 0, ConnectionId::new(1)) {
        JoinOutcome::Seated { seats, .. } => assert!(seats[0].is_some()),
        other => panic!("unexpected {:?}", other),
    }
    match tm.join_table(&table0(), 1, ConnectionId::new(2)) {
        JoinOutcome::Seated { seats, config } => {
            assert!(seats[1].is_some());
            assert_eq!(config.starting_stack, 1500);
        }
        other => panic!("unexpected {:?}", other),
    }
    tm
}

#[test]
fn versions() {
    assert!(is_valid_version("1.0"));
    assert!(is_valid_version(" 1.2.3\n"));
    assert!(!is_valid_version("2.0"));
    assert!(!is_valid_version("1"));
    assert!(!is_valid_version("1..0"));
    assert!(!is_valid_version("1.0.0.0"));
    assert!(!is_valid_version("1.a"));
    assert!(!is_valid_version(""));
    assert!(!is_valid_version("   "));
    assert!(!is_valid_version(&format!("1.{}", "0".repeat(31))));
    assert!(is_valid_version(&format!("1.{}", "0".repeat(30))));
}

#[test]
fn client_strings() {
    assert!(is_valid_client_string("test"));
    assert!(is_valid_client_string("hupoker-client_0.1"));
    assert!(is_valid_client_string(""));
    assert!(!is_valid_client_string("bad name"));
    assert!(!is_valid_client_string("naïve"));
    assert!(!is_valid_client_string(&"x".repeat(65)));
    assert!(is_valid_client_string(&"x".repeat(64)));
}

#[test]
fn hello_exchange() {
    let hello = Message::ClientHello {
        version: "1.0".to_string(),
        client_name: "test".to_string(),
        client_version: "0.1.0".to_string(),
    };
    assert!(accept_client_hello(&hello));
    let bad = Message::ClientHello {
        version: "1.0".to_string(),
        client_name: "te st".to_string(),
        client_version: "0.1.0".to_string(),
    };
    assert!(!accept_client_hello(&bad));
    assert!(!accept_client_hello(&make_error_msg("x", "y", "z")));
    match server_hello("0.1.0") {
        Message::ServerHello { version, status, server_name, server_version } => {
            assert_eq!(version, "1.0");
            assert_eq!(status, "accepted");
            assert_eq!(server_name, "hupoker-server");
            assert_eq!(server_version, "0.1.0");
        }
        other => panic!("unexpected {:?}", other),
    }
}

#[test]
fn tables_are_named_by_index() {
    let tm = manager();
    assert!(tm.get_table(&TableId::new("table-1".to_string())).is_some());
    assert!(tm.get_table(&TableId::new("table-2".to_string())).is_none());
    assert!(tm.is_sound());
}

#[test]
fn join_refusals() {
    let mut tm = manager();
    match tm.join_table(&table0(), 2, ConnectionId::new(1)) {
        JoinOutcome::Refused { reply, close } => {
            assert!(close);
            assert_eq!(error_code(&reply), ("invalid_seat".to_string(), "seat must be between 0 and 1".to_string()));
        }
        other => panic!("unexpected {:?}", other),
    }
    match tm.join_table(&TableId::new("nope".to_string()), 0, ConnectionId::new(1)) {
        JoinOutcome::Refused { reply, close } => {
            assert!(!close);
            assert_eq!(error_code(&reply), ("table_not_found".to_string(), "table not found".to_string()));
        }
        other => panic!("unexpected {:?}", other),
    }
    tm.join_table(&table0(), 0, ConnectionId::new(1));
    match tm.join_table(&table0(), 0, ConnectionId::new(2)) {
        JoinOutcome::Refused { reply, .. } => {
            assert_eq!(error_code(&reply), ("seat_taken".to_string(), "seat already occupied".to_string()));
        }
        other => panic!("unexpected {:?}", other),
    }
}

#[test]
fn reconnection_keeps_the_stack() {
    let mut tm = seated_manager();
    assert!(tm.mark_disconnected(&table0(), 0));
    assert!(!tm.mark_disconnected(&table0(), 3));
    match tm.join_table(&table0(), 0, ConnectionId::new(9)) {
        JoinOutcome::Seated { seats, .. } => {
            let p = seats[0].unwrap();
            assert_eq!(p.connection_id, ConnectionId::new(9));
            assert_eq!(p.disconnected_at, None);
            assert_eq!(p.stack, 1500);
        }
        other => panic!("unexpected {:?}", other),
    }
}

#[test]
fn expired_reconnection_frees_the_seat() {
    let mut tm = seated_manager();
    assert!(tm.mark_disconnected_at(&table0(), 1, 0));
    let player = hupoker::player::Player {
        seat: 0,
        stack: 1,
        connection_id: ConnectionId::new(5),
        disconnected_at: None,
        is_sitting_out: false,
    };
    // Long after the 60 s window, with a mismatched seat: the seat is freed but refused.
    assert_eq!(tm.occupy_seat_at(&table0(), 1, player, 1_000_000), Err("player seat does not match".to_string()));
    assert!(tm.get_table(&table0()).unwrap().seats[1].is_none());
}

#[test]
fn a_hand_starts_and_a_fold_ends_it() {
    let mut tm = seated_manager();
    assert!(tm.can_start_hand(&table0()));
    let id = tm.start_hand_with_id(&table0(), [5u8; 32], HandId::new(77)).unwrap();
    assert_eq!(id, HandId::new(77));
    assert!(!tm.can_start_hand(&table0()));
    let states = tm.current_hand_states(&table0()).unwrap();
    assert_eq!(states.len(), 2);
    match (&states[0], &states[1]) {
        (Message::HandState { hole_cards: a, acting_seat, time_remaining_ms, .. }, Message::HandState { hole_cards: b, .. }) => {
            assert_eq!(a.len(), 2);
            assert_eq!(b.len(), 2);
            assert_ne!(a, b);
            assert_eq!(*acting_seat, Some(0));
            assert_eq!(*time_remaining_ms, 30_000);
        }
        other => panic!("unexpected {:?}", other),
    }
    // Seat 1 may not act first.
    let o = tm.play_action(&Some(table0()), Some(1), id, ActionKind::Check, None);
    assert_eq!(error_code(o.reply.as_ref().unwrap()), ("not_your_turn".to_string(), "it is not your turn to act".to_string()));
    // Wrong hand.
    let o = tm.play_action(&Some(table0()), Some(0), HandId::new(1), ActionKind::Fold, None);
    assert_eq!(error_code(o.reply.as_ref().unwrap()).0, "hand_not_found");
    // Not at a table.
    let o = tm.play_action(&None, None, id, ActionKind::Fold, None);
    assert_eq!(error_code(o.reply.as_ref().unwrap()).0, "not_at_table");
    // An illegal check.
    let o = tm.play_action(&Some(table0()), Some(0), id, ActionKind::Check, None);
    assert_eq!(
        error_code(o.reply.as_ref().unwrap()),
        ("illegal_action".to_string(), "failed to post blinds: illegal action: cannot check: must call 10 chips".to_string())
    );
    // The button folds: seat 1 wins the blinds.
    let o = tm.play_action(&Some(table0()), Some(0), id, ActionKind::Fold, None);
    assert!(o.reply.is_none());
    match o.action_record.as_ref().unwrap() {
        AuditEvent::Action { seat, kind, amount, .. } => {
            assert_eq!(*seat, 0);
            assert_eq!(kind, "Fold");
            assert_eq!(*amount, None);
        }
        other => panic!("unexpected {:?}", other),
    }
    assert_eq!(o.after_action.len(), 2);
    assert!(o.after_advance.is_empty());
    match o.hand_end.as_ref().unwrap() {
        AuditEvent::HandEnd { winner_seats, pot_amount, .. } => {
            assert_eq!(winner_seats, &vec![1]);
            assert_eq!(*pot_amount, 30);
        }
        other => panic!("unexpected {:?}", other),
    }
    assert_eq!(o.table_states.len(), 2);
    let t = tm.get_table(&table0()).unwrap();
    assert!(t.current_hand.is_none());
    assert_eq!(t.seats[0].unwrap().stack, 1490);
    assert_eq!(t.seats[1].unwrap().stack, 1510);
    assert_eq!(t.next_button_position, 1);
    assert!(tm.can_start_hand(&table0()));
}

#[test]
fn a_checked_down_hand_reaches_the_showdown() {
    let mut tm = seated_manager();
    let id = tm.start_hand_with_id(&table0(), [6u8; 32], HandId::new(5)).unwrap();
    let o = tm.play_action(&Some(table0()), Some(0), id, ActionKind::Call, Some(10));
    assert!(o.reply.is_none());
    assert!(o.after_advance.is_empty());
    let o = tm.play_action(&Some(table0()), Some(1), id, ActionKind::Check, None);
    assert_eq!(o.after_advance.len(), 2);
    match &o.after_advance[0] {
        Message::HandState { community_cards, pot, acting_seat, .. } => {
            assert_eq!(community_cards.len(), 3);
            assert_eq!(pot.main, 40);
            assert_eq!(*acting_seat, Some(1));
        }
        other => panic!("unexpected {:?}", other),
    }
    let mut last = None;
    for _street in 0..3 {
        let o = tm.play_action(&Some(table0()), Some(1), id, ActionKind::Check, None);
        assert!(o.reply.is_none());
        let o = tm.play_action(&Some(table0()), Some(0), id, ActionKind::Check, None);
        assert!(o.reply.is_none());
        last = Some(o);
    }
    let o = last.unwrap();
    match o.hand_end.as_ref().unwrap() {
        AuditEvent::HandEnd { winner_seats, pot_amount, .. } => {
            assert!(!winner_seats.is_empty());
            assert_eq!(*pot_amount, 40);
        }
        other => panic!("unexpected {:?}", other),
    }
    let t = tm.get_table(&table0()).unwrap();
    assert!(t.current_hand.is_none());
    let total: u64 = t.seats.iter().map(|s| s.unwrap().stack).sum();
    assert_eq!(total, 3000);
}

#[test]
fn timeouts_and_auto_fold() {
    let mut tm = seated_manager();
    let id = tm.start_hand_with_id(&table0(), [7u8; 32], HandId::new(9)).unwrap();
    let started = match &tm.current_hand_states(&table0()).unwrap()[0] {
        Message::HandState { .. } => tm.get_table(&table0()).unwrap().current_hand.as_ref().unwrap().last_action_time.unwrap(),
        other => panic!("unexpected {:?}", other),
    };
    assert!(tm.check_action_timeouts_at(started + 30_000).is_empty());
    let late = tm.check_action_timeouts_at(started + 30_001);
    assert_eq!(late.len(), 1);
    assert_eq!(late[0].0.as_str(), "table-0");
    assert_eq!(late[0].1, 0);
    // Only the acting seat can be auto-folded.
    let o = tm.auto_fold(&table0(), 1);
    assert!(o.reply.is_none() && o.action_record.is_none());
    let o = tm.auto_fold(&table0(), 0);
    assert!(o.reply.is_none());
    assert!(o.hand_end.is_some());
    assert!(tm.get_table(&table0()).unwrap().current_hand.is_none());
    let _ = id;
}

#[test]
fn hand_state_hides_the_other_seat() {
    let mut tm = seated_manager();
    tm.start_hand_with_id(&table0(), [7u8; 32], HandId::new(9)).unwrap();
    match tm.hand_state_for(&table0(), 5).unwrap() {
        Message::HandState { hole_cards, .. } => assert!(hole_cards.is_empty()),
        other => panic!("unexpected {:?}", other),
    }
    assert!(tm.hand_state_for(&TableId::new("x".to_string()), 0).is_none());
}

#[test]
fn reconnection_window_decides_the_stack() {
    let newcomer = hupoker::player::Player {
        seat: 1,
        stack: 7,
        connection_id: ConnectionId::new(8),
        disconnected_at: None,
        is_sitting_out: false,
    };
    // Back after 59.999 s: the old stack stays with the seat.
    let mut tm = seated_manager();
    assert!(tm.mark_disconnected_at(&table0(), 1, 1_000));
    assert_eq!(tm.occupy_seat_at(&table0(), 1, newcomer, 60_999), Ok(()));
    let p = tm.get_table(&table0()).unwrap().seats[1].unwrap();
    assert_eq!((p.stack, p.connection_id, p.disconnected_at), (1500, ConnectionId::new(8), None));
    // Back after exactly 60 s: the newcomer sits with its own stack.
    let mut tm = seated_manager();
    assert!(tm.mark_disconnected_at(&table0(), 1, 1_000));
    assert_eq!(tm.occupy_seat_at(&table0(), 1, newcomer, 61_000), Ok(()));
    assert_eq!(tm.get_table(&table0()).unwrap().seats[1], Some(newcomer));
}

#[test]
fn default_manager_has_no_tables() {
    let tm = TableManager::default();
    assert!(tm.get_table(&table0()).is_none());
}

#[test]
fn a_refused_hello_is_answered_rejected() {
    match hupoker::handshake::server_hello_rejected("0.1.0") {
        Message::ServerHello { version, status, server_name, server_version } => {
            assert_eq!((version.as_str(), status.as_str(), server_name.as_str(), server_version.as_str()), ("1.0", "rejected", "hupoker-server", "0.1.0"));
        }
        other => panic!("unexpected {:?}", other),
    }
}
