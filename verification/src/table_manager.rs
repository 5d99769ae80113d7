//! The server's tables, looked up by identifier.

use crate::action::{kind_name, Action, ActionKind};
use crate::audit::AuditEvent;
use crate::betting::{acting_spec, apply_outcome, apply_overflows, law_blinds_conserve_chips, sat_add};
use crate::clock::now_millis;
use crate::deck::shuffled_deck;
use crate::hand::{
    action_applied, dealt_order, hand_chips, hand_error_text, street_advanced, winners_spec, Hand, HandErrorView, Street,
};
use crate::ids::HandId;
use crate::messages::{
    create_hand_state_message, create_table_state_message, is_error_msg, is_hand_state_msg,
    is_table_state_msg, make_error_msg, Message,
};
use crate::payout::{
    all_seats, award_pots_to_winners, awards_for, eligible_in, law_pots_paid_in_full, pot_list,
    pots_total,
};
use crate::player::Player;
use crate::pot::{lemma_side_total_nonneg, side_total};
use crate::table::{
    both_seated, hand_started, id_unavailable, sat_mul, seated_stacks, start_refusal, table_error_text, Table, TableConfig,
    TableErrorView, TableId,
};
use crate::ids::ConnectionId;
use crate::text::{decimal, lemma_decimal_injective, lemma_prefix_cancel, u64_to_decimal};
use crate::Seat;
use vstd::prelude::*;

verus! {

/// Largest number of seconds a timeout may have (`chrono` refuses longer durations).
pub const MAX_TIMEOUT_SECS: u64 = 9223372036854775;

/// Smallest setting that `as i64` turns into a negative timeout `chrono` still accepts.
pub const MIN_WRAPPED_TIMEOUT_SECS: u64 = 18437520701672696841;

/// A timeout setting that can be turned into a duration: at most `MAX_TIMEOUT_SECS` seconds,
/// or a setting so large that it wraps to a small negative number of seconds.
pub open spec fn timeout_secs_ok(secs: u64) -> bool {
    secs <= MAX_TIMEOUT_SECS || secs >= MIN_WRAPPED_TIMEOUT_SECS
}

/// The timeout of a setting of `secs` seconds, in milliseconds (settings above `i64::MAX` wrap
/// to negative durations).
pub open spec fn timeout_ms(secs: u64) -> int {
    if secs <= i64::MAX {
        secs * 1000
    } else {
        (secs - 18446744073709551616int) * 1000
    }
}

/// Whether a timeout setting can be turned into a duration (see `timeout_secs_ok`).
pub fn timeout_setting_ok(secs: u64) -> (b: bool)
    ensures
        b == timeout_secs_ok(secs),
{
    secs <= MAX_TIMEOUT_SECS || secs >= MIN_WRAPPED_TIMEOUT_SECS
}

/// The timeout of a setting of `secs` seconds, in milliseconds.
fn timeout_millis(secs: u64) -> (ms: i128)
    requires
        timeout_secs_ok(secs),
    ensures
        ms == timeout_ms(secs),
{
    if secs <= MAX_TIMEOUT_SECS {
        (secs as i128) * 1000
    } else {
        ((secs as i128) - 18446744073709551616i128) * 1000
    }
}

/// No two tables share an identifier.
pub open spec fn ids_distinct(ts: Seq<Table>) -> bool {
    forall|i: int, j: int|
        0 <= i < ts.len() && 0 <= j < ts.len() && i != j ==> #[trigger] ts[i].id@ != #[trigger] ts[j].id@
}

/// Some table has identifier `id`.
pub open spec fn has_id(ts: Seq<Table>, id: Seq<char>) -> bool {
    exists|i: int| 0 <= i < ts.len() && #[trigger] ts[i].id@ == id
}

/// The position of the table with identifier `id` (meaningful when `has_id`).
pub open spec fn position_of(ts: Seq<Table>, id: Seq<char>) -> int {
    choose|i: int| 0 <= i < ts.len() && #[trigger] ts[i].id@ == id
}

/// `b` is `a` with at most the table at position `i` changed.
pub open spec fn others_unchanged(a: Seq<Table>, b: Seq<Table>, i: int) -> bool {
    &&& b.len() == a.len()
    &&& forall|j: int| 0 <= j < a.len() && j != i ==> #[trigger] b[j] == a[j]
}

/// `b` is table `a` with seat `seat` holding `p`.
pub open spec fn seat_set(a: Table, b: Table, seat: int, p: Option<Player>) -> bool {
    &&& b.seats@ == a.seats@.update(seat, p)
    &&& b.id == a.id
    &&& b.current_hand == a.current_hand
    &&& b.next_button_position == a.next_button_position
    &&& b.hand_count == a.hand_count
    &&& b.config == a.config
    &&& b.created_at == a.created_at
}

/// A disconnected player `p` may still come back at time `now` (milliseconds).
pub open spec fn within_reconnect(p: Player, now: i64, reconnection_timeout_secs: u64) -> bool {
    p.disconnected_at matches Some(d) && now - d < timeout_ms(reconnection_timeout_secs)
}

/// Message refusing a player whose seat field differs from the requested seat.
pub open spec fn mismatch_msg() -> Seq<char> {
    "player seat does not match"@
}

/// What taking `seat` (currently holding `current`) does at time `now`: the new content of the
/// seat, and the answer. A connected player keeps the seat; a disconnected one within the
/// reconnection window is replaced by the newcomer with the old stack; after the window the
/// seat is freed (even if the request is then refused).
pub open spec fn occupy_outcome(
    current: Option<Player>,
    seat: u8,
    player: Player,
    now: i64,
    reconnection_timeout_secs: u64,
) -> (Option<Player>, Result<(), Seq<char>>) {
    match current {
        Some(p) => if p.disconnected_at is None {
            (current, Err("seat already occupied"@))
        } else if within_reconnect(p, now, reconnection_timeout_secs) {
            if player.seat != seat {
                (current, Err(mismatch_msg()))
            } else {
                (Some(Player { stack: p.stack, disconnected_at: None, ..player }), Ok(()))
            }
        } else if player.seat != seat {
            (None, Err(mismatch_msg()))
        } else {
            (Some(player), Ok(()))
        },
        None => if player.seat != seat {
            (None, Err(mismatch_msg()))
        } else {
            (Some(player), Ok(()))
        },
    }
}

/// The inputs on which taking a seat needs the reconnection timeout as a duration.
pub open spec fn occupy_needs_timeout(ts: Seq<Table>, id: Seq<char>, seat: u8) -> bool {
    &&& has_id(ts, id)
    &&& seat < 2
    &&& ts[position_of(ts, id)].seats@[seat as int] matches Some(p) && p.disconnected_at is Some
}

/// The seat that must act at table `t` if it has been idle longer than its action timeout at
/// time `now`.
pub open spec fn timed_out_seat(t: Table, now: i64) -> Option<u8> {
    match t.current_hand {
        Some(h) => match acting_spec(h.betting@) {
            Some(s) => match h.last_action_time {
                Some(l) => if now - l > timeout_ms(t.config.action_timeout_secs) {
                    Some(s)
                } else {
                    None
                },
                None => None,
            },
            None => None,
        },
        None => None,
    }
}

/// Table `t` has a hand waiting on a seat since a known time, so its action timeout is used.
pub open spec fn waits_on_action(t: Table) -> bool {
    t.current_hand matches Some(h) && acting_spec(h.betting@) is Some && h.last_action_time is Some
}

/// The (table, seat) pairs, in table order, whose action timeout has passed at `now`.
pub open spec fn timeouts_of(ts: Seq<Table>, now: i64) -> Seq<(Seq<char>, u8)>
    decreases ts.len(),
{
    if ts.len() == 0 {
        seq![]
    } else {
        let rest = timeouts_of(ts.drop_last(), now);
        match timed_out_seat(ts.last(), now) {
            Some(s) => rest.push((ts.last().id@, s)),
            None => rest,
        }
    }
}

/// The pairs as identifier texts and seats.
pub open spec fn pair_views(v: Seq<(TableId, Seat)>) -> Seq<(Seq<char>, u8)> {
    v.map_values(|p: (TableId, Seat)| (p.0@, p.1))
}

/// The answer of a seat request as text.
pub open spec fn answer_view(r: Result<(), String>) -> Result<(), Seq<char>> {
    match r {
        Ok(()) => Ok(()),
        Err(m) => Err(m@),
    }
}

/// `b` is `a` after seating `player` in `seat` (0 or 1) of the table with identifier `id` at
/// time `now`, with answer `answer` (see `occupy_outcome`).
pub open spec fn seat_taken_at(
    a: Seq<Table>,
    b: Seq<Table>,
    id: Seq<char>,
    seat: u8,
    player: Player,
    now: i64,
    answer: Result<(), Seq<char>>,
) -> bool {
    let i = position_of(a, id);
    let t = a[i];
    let (content, expected) = occupy_outcome(
        t.seats@[seat as int],
        seat,
        player,
        now,
        t.config.reconnection_timeout_secs,
    );
    &&& others_unchanged(a, b, i)
    &&& seat_set(t, b[i], seat as int, content)
    &&& answer == expected
}

/// `b` is `a` after the player in `seat` of the table with identifier `id` was marked as
/// disconnected at time `now`.
pub open spec fn marked_at(a: Seq<Table>, b: Seq<Table>, id: Seq<char>, seat: u8, now: i64) -> bool {
    let i = position_of(a, id);
    let t = a[i];
    &&& others_unchanged(a, b, i)
    &&& seat_set(
        t,
        b[i],
        seat as int,
        Some(Player { disconnected_at: Some(now), ..t.seats@[seat as int]->0 }),
    )
}

/// A hand the server's operations can run on: seats for the button, the first actor and every
/// recorded action, and side pots whose total fits in a `u64`.
pub open spec fn hand_sound(h: Hand) -> bool {
    &&& h.button_position < 2
    &&& h.betting@.first_actor < 2
    &&& forall|i: int| 0 <= i < h.actions@.len() ==> #[trigger] h.actions@[i].seat < 2
    &&& side_total(h.pot@.side_pots) <= u64::MAX
}

/// A table the server's operations can run on: a seat for the next button and a sound hand.
pub open spec fn table_sound(t: Table) -> bool {
    &&& t.next_button_position < 2
    &&& (t.current_hand matches Some(h) ==> hand_sound(h))
}

/// Every table is sound.
pub open spec fn tables_sound(ts: Seq<Table>) -> bool {
    forall|i: int| 0 <= i < ts.len() ==> table_sound(#[trigger] ts[i])
}

/// Milliseconds a player has to act at a table with configuration `c`.
pub open spec fn action_window_ms(c: TableConfig) -> u64 {
    sat_mul(c.action_timeout_secs, 1000)
}

/// `ms` are the states of `hand` at table `id` for seat 0 and seat 1.
pub open spec fn hand_states_of(ms: Seq<Message>, hand: Hand, id: Seq<char>, c: TableConfig) -> bool {
    &&& ms.len() == 2
    &&& is_hand_state_msg(ms[0], hand, id, 0, acting_spec(hand.betting@), action_window_ms(c))
    &&& is_hand_state_msg(ms[1], hand, id, 1, acting_spec(hand.betting@), action_window_ms(c))
}

/// `ms` are the states of table `t` (without a hand) for seat 0 and seat 1.
pub open spec fn table_states_of(ms: Seq<Message>, t: Table) -> bool {
    &&& ms.len() == 2
    &&& is_table_state_msg(ms[0], t.id@, t.seats@, t.config, None)
    &&& is_table_state_msg(ms[1], t.id@, t.seats@, t.config, None)
}

/// What each seat receives when `hand` ends with `winners` (nothing without winners).
pub open spec fn hand_awards(hand: Hand, winners: Seq<u8>) -> Seq<u64> {
    if winners.len() == 0 {
        seq![0u64, 0u64]
    } else {
        awards_for(pot_list(hand), winners, hand.button_position)
    }
}

/// The seat `p` holding `stack` (what it has left behind its bets) plus `x` won chips.
pub open spec fn credited(p: Option<Player>, stack: u64, x: u64) -> Option<Player> {
    match p {
        Some(q) => Some(Player { stack: sat_add(stack, x), ..q }),
        None => None,
    }
}

/// `b` is table `a` after `hand` ended with `winners`: each seated player holds the stack the
/// hand left it plus its awards, and no hand is in progress.
pub open spec fn hand_finished(a: Table, b: Table, hand: Hand, winners: Seq<u8>) -> bool {
    let aw = hand_awards(hand, winners);
    let st = hand.betting@.stacks;
    &&& b.seats@ == seq![credited(a.seats@[0], st[0], aw[0]), credited(a.seats@[1], st[1], aw[1])]
    &&& b.current_hand is None
    &&& b.id == a.id
    &&& b.next_button_position == a.next_button_position
    &&& b.hand_count == a.hand_count
    &&& b.config == a.config
    &&& b.created_at == a.created_at
}

/// The chips in the pots of `hand` (with the current street's bets), as the end-of-hand record
/// gives them.
pub open spec fn pot_amount_of(hand: Hand) -> u64 {
    sat_add(sat_add(hand.pot.main, hand.betting@.total_pot), side_total(hand.pot@.side_pots) as u64)
}

/// `e` records `seat`'s action `kind` with `amount` in hand `hand_id`.
pub open spec fn is_action_record(e: AuditEvent, hand_id: HandId, seat: u8, kind: ActionKind, amount: Option<u64>) -> bool {
    e matches AuditEvent::Action { hand_id: h, seat: s, kind: k, amount: a, timestamp } && h
        == hand_id && s == seat && k@ == kind_name(kind) && a == amount && timestamp >= 0
}

/// `e` records the end of `hand` at table `table_id` with `winners`.
pub open spec fn is_hand_end_record(e: AuditEvent, hand: Hand, table_id: Seq<char>, winners: Seq<u8>) -> bool {
    e matches AuditEvent::HandEnd { hand_id, table_id: t, winner_seats, pot_amount, timestamp }
        && hand_id == hand.id && t@ == table_id && winner_seats@ == winners && pot_amount
        == pot_amount_of(hand) && timestamp >= 0
}

/// What the server does after a player's action, in this order: reply to the player, record
/// the action, send the hand state after it, send the hand state after the street moved on,
/// record the end of the hand, send the table state after it.
#[derive(Debug)]
pub struct ActionOutcome {
    pub reply: Option<Message>,
    pub action_record: Option<AuditEvent>,
    pub after_action: Vec<Message>,
    pub after_advance: Vec<Message>,
    pub hand_end: Option<AuditEvent>,
    pub table_states: Vec<Message>,
}

/// Nothing is recorded or sent to the table.
pub open spec fn nothing_done(o: ActionOutcome) -> bool {
    &&& o.action_record is None
    &&& o.after_action@.len() == 0
    &&& o.after_advance@.len() == 0
    &&& o.hand_end is None
    &&& o.table_states@.len() == 0
}

/// No further messages after the state sent at the current step.
pub open spec fn no_hand_end(o: ActionOutcome) -> bool {
    &&& o.hand_end is None
    &&& o.table_states@.len() == 0
}

/// `b` is `a` after `hand` ended with `winners`, recorded in `o`.
pub open spec fn ends_with(a: Table, b: Table, hand: Hand, o: ActionOutcome) -> bool {
    &&& o.hand_end matches Some(e) && is_hand_end_record(e, hand, a.id@, winners_spec(hand))
    &&& hand_finished(a, b, hand, winners_spec(hand))
    &&& table_states_of(o.table_states@, b)
}

/// After `action` was accepted on table `a`'s hand (giving `h1`): a fold ends the hand; else a
/// completed betting round moves to the next street (giving `h2`, refused but with the pot and
/// betting moved on for a finished hand), and reaching the showdown ends the hand. `b` is the
/// table afterwards and `o` what the server does.
pub open spec fn play_continues(a: Table, action: Action, h1: Hand, h2: Hand, b: Table, o: ActionOutcome) -> bool {
    let h = a.current_hand->0;
    &&& action_applied(h, action, h1)
    &&& o.reply is None
    &&& o.action_record matches Some(e) && is_action_record(
        e,
        h.id,
        action.seat,
        action.kind,
        action.amount,
    )
    &&& hand_states_of(o.after_action@, h1, a.id@, a.config)
    &&& if action.kind == ActionKind::Fold {
        &&& o.after_advance@.len() == 0
        &&& ends_with(a, b, h1, o)
    } else if !h1.betting@.round_complete {
        &&& o.after_advance@.len() == 0
        &&& no_hand_end(o)
        &&& b == Table { current_hand: Some(h1), ..a }
    } else if h1.current_street == Street::Finished {
        &&& street_advanced(h1, h2)
        &&& o.after_advance@.len() == 0
        &&& no_hand_end(o)
        &&& b == Table { current_hand: Some(h2), ..a }
    } else {
        &&& street_advanced(h1, h2)
        &&& hand_states_of(o.after_advance@, h2, a.id@, a.config)
        &&& if h2.current_street == Street::Showdown {
            ends_with(a, b, h2, o)
        } else {
            &&& no_hand_end(o)
            &&& b == Table { current_hand: Some(h2), ..a }
        }
    }
}

/// Why a player's action at table `table_id` from `seat` for hand `hand_id` is refused before
/// it reaches the hand, as (code, message): the connection must be at a table, the table must
/// exist, the hand must be its current one, and it must be the seat's turn.
pub open spec fn play_refusal(ts: Seq<Table>, table_id: Option<Seq<char>>, seat: Option<u8>, hand_id: HandId) -> Option<(Seq<char>, Seq<char>)> {
    if table_id is None || seat is None {
        Some(("not_at_table"@, "must join a table before acting"@))
    } else if !has_id(ts, table_id->0) {
        Some(("table_not_found"@, "table no longer exists"@))
    } else {
        let t = ts[position_of(ts, table_id->0)];
        if !(t.current_hand matches Some(h) && h.id == hand_id) {
            Some(("hand_not_found"@, "hand not found or not active"@))
        } else if acting_spec(t.current_hand->0.betting@) != Some(seat->0) {
            Some(("not_your_turn"@, "it is not your turn to act"@))
        } else {
            None
        }
    }
}

/// `b` is the tables `a` after `seat`'s accepted `kind` with `amount` at table position `i`.
pub open spec fn played_at(a: Seq<Table>, b: Seq<Table>, i: int, seat: u8, kind: ActionKind, amount: Option<u64>, o: ActionOutcome) -> bool {
    &&& others_unchanged(a, b, i)
    &&& exists|ts: i64, h1: Hand, h2: Hand|
        #[trigger] play_continues(
            a[i],
            Action { seat, kind, amount, timestamp: ts },
            h1,
            h2,
            b[i],
            o,
        )
}


/// Milliseconds a player has to act (see `action_window_ms`).
fn action_window(c: &TableConfig) -> (ms: u64)
    ensures
        ms == action_window_ms(*c),
{
    if c.action_timeout_secs > u64::MAX / 1000 {
        u64::MAX
    } else {
        c.action_timeout_secs * 1000
    }
}

/// The states of `hand` at table `table_id` for seat 0 and seat 1.
fn hand_states(hand: &Hand, table_id: &TableId, c: &TableConfig) -> (ms: Vec<Message>)
    ensures
        hand_states_of(ms@, *hand, table_id@, *c),
{
    let acting = hand.betting.acting_seat();
    let window = action_window(c);
    let mut ms: Vec<Message> = Vec::new();
    ms.push(create_hand_state_message(hand, table_id.clone(), 0, acting, window));
    ms.push(create_hand_state_message(hand, table_id.clone(), 1, acting, window));
    ms
}

/// The states of table `t` (without a hand) for seat 0 and seat 1.
fn table_states(t: &Table) -> (ms: Vec<Message>)
    ensures
        table_states_of(ms@, *t),
{
    let mut ms: Vec<Message> = Vec::new();
    ms.push(create_table_state_message(&t.id, &t.seats, &t.config, None));
    ms.push(create_table_state_message(&t.id, &t.seats, &t.config, None));
    ms
}

/// Ends `hand` at `table` (whose hand has been taken out): the winners are paid and the end of
/// the hand is recorded in `o`.
fn conclude(table: &mut Table, hand: &Hand, o: &mut ActionOutcome)
    requires
        old(table).current_hand is None,
        hand_sound(*hand),
    ensures
        final(o).reply == old(o).reply,
        final(o).action_record == old(o).action_record,
        final(o).after_action == old(o).after_action,
        final(o).after_advance == old(o).after_advance,
        final(o).hand_end matches Some(e) && is_hand_end_record(
            e,
            *hand,
            old(table).id@,
            winners_spec(*hand),
        ),
        hand_finished(*old(table), *final(table), *hand, winners_spec(*hand)),
        table_states_of(final(o).table_states@, *final(table)),
{
    let winners = hand.evaluate_winner();
    let awards: [u64; 2] = if winners.len() > 0 {
        award_pots_to_winners(hand, winners.as_slice())
    } else {
        [0, 0]
    };
    let ghost before = table.seats@;
    let left = hand.betting.stacks();
    if let Some(p) = table.seats[0] {
        let mut q = p;
        q.stack = left[0].saturating_add(awards[0]);
        table.seats[0] = Some(q);
    }
    if let Some(p) = table.seats[1] {
        let mut q = p;
        q.stack = left[1].saturating_add(awards[1]);
        table.seats[1] = Some(q);
    }
    proof {
        let aw = hand_awards(*hand, winners@);
        let st = hand.betting@.stacks;
        assert(awards@ =~= aw);
        assert(table.seats@ =~= seq![credited(before[0], st[0], aw[0]), credited(before[1], st[1], aw[1])]);
    }
    let side = hand.pot.side_pots_total();
    let pot_amount = hand.pot.main.saturating_add(hand.betting.total_pot()).saturating_add(side);
    o.hand_end = Some(
        AuditEvent::HandEnd {
            hand_id: hand.id,
            table_id: table.id.clone(),
            winner_seats: winners,
            pot_amount,
            timestamp: now_millis(),
        },
    );
    o.table_states = table_states(table);
}

/// `seat` takes action `kind` with `amount` in the hand of `table`, and the hand goes on as far
/// as it can (see `play_continues`); a refused action is answered and changes nothing.
fn act_on(table: &mut Table, seat: Seat, kind: ActionKind, amount: Option<u64>) -> (o: ActionOutcome)
    requires
        table_sound(*old(table)),
        old(table).current_hand is Some,
        acting_spec(old(table).current_hand->0.betting@) == Some(seat),
        !apply_overflows(old(table).current_hand->0.betting@, seat as int, kind, amount),
    ensures
        table_sound(*final(table)),
        match apply_outcome(old(table).current_hand->0.betting@, seat as int, kind, amount) {
            Err(be) => (o.reply matches Some(m) && is_error_msg(
                m,
                "illegal_action"@,
                hand_error_text(HandErrorView::BlindsFailed(be)),
                "action"@,
            )) && nothing_done(o) && *final(table) == *old(table),
            Ok(_) => exists|ts: i64, h1: Hand, h2: Hand|
                #[trigger] play_continues(
                    *old(table),
                    Action { seat, kind, amount, timestamp: ts },
                    h1,
                    h2,
                    *final(table),
                    o,
                ),
        },
{
    let ghost t0 = *table;
    let mut hand = match table.current_hand.take() {
        Some(h) => h,
        None => {
            return ActionOutcome {
                reply: None,
                action_record: None,
                after_action: Vec::new(),
                after_advance: Vec::new(),
                hand_end: None,
                table_states: Vec::new(),
            };
        },
    };
    let ghost h0 = hand;
    let timestamp = now_millis();
    let action = Action { seat, kind, amount, timestamp };
    match hand.apply_action(action) {
        Ok(()) => {},
        Err(e) => {
            let text = e.to_text();
            table.current_hand = Some(hand);
            assert(*table == t0);
            return ActionOutcome {
                reply: Some(make_error_msg("illegal_action", text.as_str(), "action")),
                action_record: None,
                after_action: Vec::new(),
                after_advance: Vec::new(),
                hand_end: None,
                table_states: Vec::new(),
            };
        },
    }
    let ghost h1 = hand;
    proof {
        assert(action.seat < 2);
        assert(hand_sound(h1)) by {
            assert forall|i: int| 0 <= i < h1.actions@.len() implies #[trigger] h1.actions@[i].seat
                < 2 by {
                if i < h0.actions@.len() {
                    assert(h1.actions@[i] == h0.actions@[i]);
                }
            }
        }
    }
    let mut o = ActionOutcome {
        reply: None,
        action_record: Some(
            AuditEvent::Action {
                hand_id: hand.id,
                seat,
                kind: String::from_str(kind.name()),
                amount,
                timestamp: now_millis(),
            },
        ),
        after_action: hand_states(&hand, &table.id, &table.config),
        after_advance: Vec::new(),
        hand_end: None,
        table_states: Vec::new(),
    };
    if kind == ActionKind::Fold {
        conclude(table, &hand, &mut o);
        assert(play_continues(t0, action, h1, h1, *table, o));
        return o;
    }
    if !hand.betting.is_round_complete() {
        table.current_hand = Some(hand);
        assert(play_continues(t0, action, h1, h1, *table, o));
        return o;
    }
    let advanced = hand.advance_street();
    let ghost h2 = hand;
    proof {
        assert(hand_sound(h2)) by {
            assert forall|i: int| 0 <= i < h2.actions@.len() implies #[trigger] h2.actions@[i].seat
                < 2 by {
                assert(h2.actions@[i] == h1.actions@[i]);
            }
        }
    }
    match advanced {
        Ok(()) => {},
        Err(_) => {
            table.current_hand = Some(hand);
            assert(play_continues(t0, action, h1, h2, *table, o));
            return o;
        },
    }
    o.after_advance = hand_states(&hand, &table.id, &table.config);
    if hand.current_street == Street::Showdown {
        conclude(table, &hand, &mut o);
    } else {
        table.current_hand = Some(hand);
    }
    assert(play_continues(t0, action, h1, h2, *table, o));
    o
}

/// The text of an optional table identifier.
pub open spec fn id_view(t: Option<TableId>) -> Option<Seq<char>> {
    match t {
        Some(x) => Some(x@),
        None => None,
    }
}

/// An auto-fold of `seat` at table `id` does nothing: the table is unknown, has no hand, or it
/// is not `seat`'s turn.
pub open spec fn fold_refused(ts: Seq<Table>, id: Seq<char>, seat: u8) -> bool {
    ||| !has_id(ts, id)
    ||| ts[position_of(ts, id)].current_hand is None
    ||| acting_spec(ts[position_of(ts, id)].current_hand->0.betting@) != Some(seat)
}

/// An action from `seat` at table `table_id` for hand `hand_id` would reach the betting round
/// with an overcall bound that overflows.
pub open spec fn action_overflows(ts: Seq<Table>, table_id: Option<Seq<char>>, seat: Option<u8>, hand_id: HandId, kind: ActionKind, amount: Option<u64>) -> bool {
    &&& play_refusal(ts, table_id, seat, hand_id) is None
    &&& apply_overflows(
        ts[position_of(ts, table_id->0)].current_hand->0.betting@,
        seat->0 as int,
        kind,
        amount,
    )
}

/// Whether every recorded action of `h` names a seat (0 or 1).
fn actions_seated(h: &Hand) -> (b: bool)
    ensures
        b == (forall|i: int| 0 <= i < h.actions@.len() ==> #[trigger] h.actions@[i].seat < 2),
{
    let mut j: usize = 0;
    while j < h.actions.len()
        invariant
            j <= h.actions@.len(),
            forall|k: int| 0 <= k < j ==> #[trigger] h.actions@[k].seat < 2,
        decreases h.actions@.len() - j,
    {
        if h.actions[j].seat >= 2 {
            return false;
        }
        j = j + 1;
    }
    true
}

/// The identifier text of the `i`-th configured table: "table-" and the index.
pub open spec fn table_name(i: nat) -> Seq<char> {
    "table-"@ + decimal(i)
}

/// `t` is the table created from configuration `c` as the `i`-th configured table at time
/// `created_at`: empty seats, no hand, the button on seat 0.
pub open spec fn is_new_table(t: Table, i: nat, c: TableConfig, created_at: i64) -> bool {
    &&& t.id@ == table_name(i)
    &&& t.seats@ == seq![None::<Player>, None::<Player>]
    &&& t.current_hand is None
    &&& t.next_button_position == 0
    &&& t.hand_count == 0
    &&& t.config == c
    &&& t.created_at == created_at
}

/// Chips a player brings to a table that cannot be found.
pub const DEFAULT_STACK_SIZE: u64 = 1500;

/// The answer to a request to join a table.
#[derive(Debug)]
pub enum JoinOutcome {
    /// Refused; the connection is closed afterwards when `close` is set.
    Refused { reply: Message, close: bool },
    /// Seated; the table's seats and configuration right after.
    Seated { seats: [Option<Player>; 2], config: TableConfig },
}

/// The player a connection brings to `seat` of a table configured with `config` (if found).
pub open spec fn joining_player(config: Option<TableConfig>, seat: u8, connection_id: ConnectionId) -> Player {
    Player {
        seat,
        stack: match config {
            Some(c) => c.starting_stack,
            None => DEFAULT_STACK_SIZE,
        },
        connection_id,
        disconnected_at: None,
        is_sitting_out: false,
    }
}

/// The configuration of the table with identifier `id`, if any.
pub open spec fn config_of(ts: Seq<Table>, id: Seq<char>) -> Option<TableConfig> {
    if has_id(ts, id) {
        Some(ts[position_of(ts, id)].config)
    } else {
        None
    }
}

/// `o` answers a join request that led to the tables `b`, with `answer` the seat request's.
pub open spec fn join_answer(b: Seq<Table>, id: Seq<char>, answer: Result<(), Seq<char>>, o: JoinOutcome) -> bool {
    match answer {
        Ok(()) => o matches JoinOutcome::Seated { seats, config } && seats@ == b[position_of(
            b,
            id,
        )].seats@ && config == b[position_of(b, id)].config,
        Err(m) => o matches JoinOutcome::Refused { reply, close } && !close && is_error_msg(
            reply,
            "seat_taken"@,
            m,
            "join_table"@,
        ),
    }
}

/// The server's tables, each with its own identifier.
pub struct TableManager {
    tables: Vec<Table>,
}

impl View for TableManager {
    type V = Seq<Table>;

    closed spec fn view(&self) -> Seq<Table> {
        self.tables@
    }
}

impl Default for TableManager {
    /// A manager without tables.
    fn default() -> (m: Self)
        ensures
            m@ == Seq::<Table>::empty(),
            m.wf(),
    {
        TableManager::new()
    }
}

impl TableManager {
    /// The manager is well formed: no two tables share an identifier.
    pub open spec fn wf(&self) -> bool {
        ids_distinct(self@)
    }

    /// A manager without tables.
    pub fn new() -> (m: TableManager)
        ensures
            m@ == Seq::<Table>::empty(),
            m.wf(),
    {
        TableManager { tables: Vec::new() }
    }

    /// The position of the table with identifier `id`, if there is one.
    fn find(&self, id: &TableId) -> (r: Option<usize>)
        requires
            self.wf(),
        ensures
            r is Some <==> has_id(self@, id@),
            r matches Some(i) ==> i == position_of(self@, id@) && i < self@.len(),
    {
        let mut i: usize = 0;
        while i < self.tables.len()
            invariant
                self.wf(),
                i <= self.tables@.len(),
                forall|k: int| 0 <= k < i ==> #[trigger] self.tables@[k].id@ != id@,
            decreases self.tables@.len() - i,
        {
            if self.tables[i].id.same_as(id) {
                proof {
                    let p = position_of(self@, id@);
                    assert(self.tables@[i as int].id@ == id@);
                    assert(self.tables@[p].id@ == id@);
                }
                return Some(i);
            }
            i = i + 1;
        }
        None
    }

    /// Adds `table`, replacing a table with the same identifier.
    pub fn add_table(&mut self, table: Table)
        requires
            old(self).wf(),
        ensures
            final(self).wf(),
            tables_sound(old(self)@) && table_sound(table) ==> tables_sound(final(self)@),
            has_id(old(self)@, table.id@) ==> final(self)@ == old(self)@.update(
                position_of(old(self)@, table.id@),
                table,
            ),
            !has_id(old(self)@, table.id@) ==> final(self)@ == old(self)@.push(table),
    {
        match self.find(&table.id) {
            Some(i) => {
                self.tables.set(i, table);
            },
            None => {
                self.tables.push(table);
            },
        }
    }

    /// The table with identifier `id`, if any.
    pub fn get_table(&self, id: &TableId) -> (r: Option<&Table>)
        requires
            self.wf(),
        ensures
            r is Some <==> has_id(self@, id@),
            r matches Some(t) ==> *t == self@[position_of(self@, id@)],
    {
        match self.find(id) {
            Some(i) => Some(&self.tables[i]),
            None => None,
        }
    }

    /// Seats `player` in `seat` of table `table_id` at time `now` (milliseconds), following
    /// `occupy_outcome`; an unknown table or a seat other than 0 or 1 is refused.
    pub fn occupy_seat_at(&mut self, table_id: &TableId, seat: u8, player: Player, now: i64) -> (r:
        Result<(), String>)
        requires
            old(self).wf(),
            occupy_needs_timeout(old(self)@, table_id@, seat) ==> timeout_secs_ok(
                old(self)@[position_of(old(self)@, table_id@)].config.reconnection_timeout_secs,
            ),
        ensures
            final(self).wf(),
            tables_sound(old(self)@) ==> tables_sound(final(self)@),
            !has_id(old(self)@, table_id@) ==> (r matches Err(m) && m@ == "table not found"@)
                && final(self)@ == old(self)@,
            has_id(old(self)@, table_id@) && seat >= 2 ==> (r matches Err(m) && m@
                == "seat must be 0..1"@) && final(self)@ == old(self)@,
            has_id(old(self)@, table_id@) && seat < 2 ==> seat_taken_at(
                old(self)@,
                final(self)@,
                table_id@,
                seat,
                player,
                now,
                answer_view(r),
            ),
    {
        let i = match self.find(table_id) {
            Some(i) => i,
            None => {
                return Err(String::from_str("table not found"));
            },
        };
        if seat >= 2 {
            return Err(String::from_str("seat must be 0..1"));
        }
        let s = seat as usize;
        let ghost t = self.tables@[i as int];
        let mut table = self.tables.remove(i);
        let result = Self::occupy_in(&mut table, s, player, now);
        self.tables.insert(i, table);
        proof {
            assert forall|j: int| 0 <= j < old(self)@.len() && j != i implies #[trigger] self@[j]
                == old(self)@[j] by {}
            assert forall|a: int, b: int|
                0 <= a < self@.len() && 0 <= b < self@.len() && a != b implies #[trigger] self@[a].id@
                != #[trigger] self@[b].id@ by {
                assert(old(self)@[a].id@ == self@[a].id@);
                assert(old(self)@[b].id@ == self@[b].id@);
            }
        }
        result
    }

    /// Seat `s` of `table` at time `now` (see `occupy_outcome`).
    fn occupy_in(table: &mut Table, s: usize, player: Player, now: i64) -> (r: Result<(), String>)
        requires
            s < 2,
            old(table).seats@[s as int] matches Some(p) && p.disconnected_at is Some
                ==> timeout_secs_ok(old(table).config.reconnection_timeout_secs),
        ensures
            ({
                let (content, answer) = occupy_outcome(
                    old(table).seats@[s as int],
                    s as u8,
                    player,
                    now,
                    old(table).config.reconnection_timeout_secs,
                );
                &&& seat_set(*old(table), *final(table), s as int, content)
                &&& match answer {
                    Ok(()) => r is Ok,
                    Err(m) => r matches Err(x) && x@ == m,
                }
            }),
    {
        let seat = s as u8;
        proof {
            assert(table.seats@.update(s as int, table.seats@[s as int]) =~= table.seats@);
        }
        if let Some(existing) = table.seats[s] {
            if let Some(disconnected_at) = existing.disconnected_at {
                let elapsed: i128 = (now as i128) - (disconnected_at as i128);
                let timeout = timeout_millis(table.config.reconnection_timeout_secs);
                if elapsed < timeout {
                    if player.seat != seat {
                        return Err(String::from_str("player seat does not match"));
                    }
                    let mut new_player = player;
                    new_player.stack = existing.stack;
                    new_player.disconnected_at = None;
                    table.seats[s] = Some(new_player);
                    return Ok(());
                }
                table.seats[s] = None;
            } else {
                return Err(String::from_str("seat already occupied"));
            }
        }
        if player.seat != seat {
            return Err(String::from_str("player seat does not match"));
        }
        table.seats[s] = Some(player);
        assert(table.seats@ =~= old(table).seats@.update(s as int, Some(player)));
        Ok(())
    }

    /// Seats `player` in `seat` of table `table_id` now (see `occupy_seat_at`; the time is the
    /// machine's clock, so which branch of `occupy_outcome` applies is not claimed).
    pub fn occupy_seat(&mut self, table_id: &TableId, seat: u8, player: Player) -> (r: Result<(), String>)
        requires
            old(self).wf(),
            occupy_needs_timeout(old(self)@, table_id@, seat) ==> timeout_secs_ok(
                old(self)@[position_of(old(self)@, table_id@)].config.reconnection_timeout_secs,
            ),
        ensures
            final(self).wf(),
            tables_sound(old(self)@) ==> tables_sound(final(self)@),
            !has_id(old(self)@, table_id@) ==> (r matches Err(m) && m@ == "table not found"@)
                && final(self)@ == old(self)@,
            has_id(old(self)@, table_id@) && seat >= 2 ==> (r matches Err(m) && m@
                == "seat must be 0..1"@) && final(self)@ == old(self)@,
            has_id(old(self)@, table_id@) && seat < 2 ==> exists|now: i64|
                #[trigger] seat_taken_at(
                    old(self)@,
                    final(self)@,
                    table_id@,
                    seat,
                    player,
                    now,
                    answer_view(r),
                ),
    {
        let now = now_millis();
        self.occupy_seat_at(table_id, seat, player, now)
    }

    /// Marks the player in `seat` of table `table_id` as disconnected at time `now`; tells
    /// whether there was such a player.
    pub fn mark_disconnected_at(&mut self, table_id: &TableId, seat: u8, now: i64) -> (marked:
        bool)
        requires
            old(self).wf(),
        ensures
            final(self).wf(),
            tables_sound(old(self)@) ==> tables_sound(final(self)@),
            marked <==> has_id(old(self)@, table_id@) && seat < 2 && old(self)@[position_of(
                old(self)@,
                table_id@,
            )].seats@[seat as int] is Some,
            !marked ==> final(self)@ == old(self)@,
            marked ==> marked_at(old(self)@, final(self)@, table_id@, seat, now),
    {
        if seat >= 2 {
            return false;
        }
        let i = match self.find(table_id) {
            Some(i) => i,
            None => {
                return false;
            },
        };
        let s = seat as usize;
        match self.tables[i].seats[s] {
            Some(p) => {
                let mut table = self.tables.remove(i);
                let mut q = p;
                q.disconnected_at = Some(now);
                table.seats[s] = Some(q);
                self.tables.insert(i, table);
                proof {
                    assert forall|j: int| 0 <= j < old(self)@.len() && j != i implies #[trigger] self@[j]
                        == old(self)@[j] by {}
                    assert forall|a: int, b: int|
                        0 <= a < self@.len() && 0 <= b < self@.len() && a != b implies #[trigger] self@[a].id@
                        != #[trigger] self@[b].id@ by {
                        assert(old(self)@[a].id@ == self@[a].id@);
                        assert(old(self)@[b].id@ == self@[b].id@);
                    }
                }
                true
            },
            None => false,
        }
    }

    /// Marks the player in `seat` of table `table_id` as disconnected now (see
    /// `mark_disconnected_at`; the time is the machine's clock).
    pub fn mark_disconnected(&mut self, table_id: &TableId, seat: u8) -> (marked: bool)
        requires
            old(self).wf(),
        ensures
            final(self).wf(),
            tables_sound(old(self)@) ==> tables_sound(final(self)@),
            marked <==> has_id(old(self)@, table_id@) && seat < 2 && old(self)@[position_of(
                old(self)@,
                table_id@,
            )].seats@[seat as int] is Some,
            !marked ==> final(self)@ == old(self)@,
            marked ==> exists|now: i64| #[trigger] marked_at(old(self)@, final(self)@, table_id@, seat, now),
    {
        let now = now_millis();
        self.mark_disconnected_at(table_id, seat, now)
    }

    /// Starts a hand at table `table_id` with identifier `hand_id` and a deck shuffled by `seed`
    /// (see `Table::start_hand_with_id`); refusals are given as text.
    pub fn start_hand_with_id(&mut self, table_id: &TableId, seed: [u8; 32], hand_id: HandId) -> (r:
        Result<HandId, String>)
        requires
            old(self).wf(),
            has_id(old(self)@, table_id@) ==> {
                let t = old(self)@[position_of(old(self)@, table_id@)];
                both_seated(t) && t.current_hand is None ==> t.next_button_position < 2
            },
        ensures
            final(self).wf(),
            tables_sound(old(self)@) ==> tables_sound(final(self)@),
            !has_id(old(self)@, table_id@) ==> (r matches Err(m) && m@ == "table not found"@)
                && final(self)@ == old(self)@,
            has_id(old(self)@, table_id@) ==> {
                let i = position_of(old(self)@, table_id@);
                let t = old(self)@[i];
                &&& start_refusal(t) matches Some(e) ==> (r matches Err(m) && m@
                    == table_error_text(e)) && final(self)@ == old(self)@
                &&& start_refusal(t) is None ==> r == Ok::<HandId, String>(hand_id)
                    && others_unchanged(old(self)@, final(self)@, i) && hand_started(
                    t,
                    final(self)@[i],
                ) && final(self)@[i].current_hand->0.id == hand_id
                &&& start_refusal(t) is None ==> dealt_order(final(self)@[i].current_hand->0)
                    == shuffled_deck(seed@)
            },
    {
        let i = match self.find(table_id) {
            Some(i) => i,
            None => {
                return Err(String::from_str("table not found"));
            },
        };
        let mut table = self.tables.remove(i);
        let result = table.start_hand_with_id(seed, hand_id);
        self.tables.insert(i, table);
        proof {
            assert forall|j: int| 0 <= j < old(self)@.len() && j != i implies #[trigger] self@[j]
                == old(self)@[j] by {}
            assert forall|a: int, b: int|
                0 <= a < self@.len() && 0 <= b < self@.len() && a != b implies #[trigger] self@[a].id@
                != #[trigger] self@[b].id@ by {
                assert(old(self)@[a].id@ == self@[a].id@);
                assert(old(self)@[b].id@ == self@[b].id@);
            }
            if table == old(self)@[i as int] {
                assert(self@ =~= old(self)@);
            }
        }
        match result {
            Ok(id) => Ok(id),
            Err(e) => Err(e.to_text()),
        }
    }

    /// Starts a hand at table `table_id` with a fresh random identifier (see
    /// `start_hand_with_id`).
    pub fn start_hand(&mut self, table_id: &TableId, seed: [u8; 32]) -> (r: Result<HandId, String>)
        requires
            old(self).wf(),
            has_id(old(self)@, table_id@) ==> {
                let t = old(self)@[position_of(old(self)@, table_id@)];
                both_seated(t) && t.current_hand is None ==> t.next_button_position < 2
            },
        ensures
            final(self).wf(),
            tables_sound(old(self)@) ==> tables_sound(final(self)@),
            !has_id(old(self)@, table_id@) ==> (r matches Err(m) && m@ == "table not found"@)
                && final(self)@ == old(self)@,
            has_id(old(self)@, table_id@) ==> {
                let i = position_of(old(self)@, table_id@);
                let t = old(self)@[i];
                &&& start_refusal(t) matches Some(e) ==> (r matches Err(m) && (m@ == table_error_text(e)
                    || exists|x: TableErrorView| id_unavailable(x) && m@ == table_error_text(x)))
                    && final(self)@ == old(self)@
                &&& start_refusal(t) is None ==> ((r matches Err(m) && exists|x: TableErrorView|
                    id_unavailable(x) && m@ == table_error_text(x)) && final(self)@ == old(self)@)
                    || ((r matches Ok(id) && final(self)@[i].current_hand->0.id == id)
                    && others_unchanged(old(self)@, final(self)@, i) && hand_started(
                    t,
                    final(self)@[i],
                ) && dealt_order(final(self)@[i].current_hand->0) == shuffled_deck(seed@))
            },
    {
        let i = match self.find(table_id) {
            Some(i) => i,
            None => {
                return Err(String::from_str("table not found"));
            },
        };
        let mut table = self.tables.remove(i);
        let result = table.start_hand(seed);
        self.tables.insert(i, table);
        proof {
            assert forall|j: int| 0 <= j < old(self)@.len() && j != i implies #[trigger] self@[j]
                == old(self)@[j] by {}
            assert forall|a: int, b: int|
                0 <= a < self@.len() && 0 <= b < self@.len() && a != b implies #[trigger] self@[a].id@
                != #[trigger] self@[b].id@ by {
                assert(old(self)@[a].id@ == self@[a].id@);
                assert(old(self)@[b].id@ == self@[b].id@);
            }
            if table == old(self)@[i as int] {
                assert(self@ =~= old(self)@);
            }
        }
        match result {
            Ok(id) => Ok(id),
            Err(e) => Err(e.to_text()),
        }
    }

    /// The tables whose acting seat has been idle longer than the table's action timeout at
    /// time `now`, with that seat, in table order (see `timeouts_of`).
    pub fn check_action_timeouts_at(&self, now: i64) -> (r: Vec<(TableId, Seat)>)
        requires
            forall|i: int|
                0 <= i < self@.len() && waits_on_action(#[trigger] self@[i]) ==> timeout_secs_ok(
                    self@[i].config.action_timeout_secs,
                ),
        ensures
            pair_views(r@) == timeouts_of(self@, now),
    {
        let mut out: Vec<(TableId, Seat)> = Vec::new();
        let mut i: usize = 0;
        while i < self.tables.len()
            invariant
                i <= self@.len(),
                forall|k: int|
                    0 <= k < self@.len() && waits_on_action(#[trigger] self@[k]) ==> timeout_secs_ok(
                        self@[k].config.action_timeout_secs,
                    ),
                pair_views(out@) == timeouts_of(self@.take(i as int), now),
            decreases self@.len() - i,
        {
            let table = &self.tables[i];
            let ghost before = out@;
            proof {
                assert(self@.take(i + 1).drop_last() =~= self@.take(i as int));
                assert(self@.take(i + 1).last() == self@[i as int]);
            }
            if let Some(hand) = &table.current_hand {
                if let Some(seat) = hand.betting.acting_seat() {
                    if let Some(last) = hand.last_action_time {
                        let elapsed: i128 = (now as i128) - (last as i128);
                        assert(waits_on_action(self@[i as int]));
                        let timeout = timeout_millis(table.config.action_timeout_secs);
                        if elapsed > timeout {
                            out.push((table.id.clone(), seat));
                            proof {
                                assert(pair_views(out@) =~= pair_views(before).push(
                                    (table.id@, seat),
                                ));
                            }
                        }
                    }
                }
            }
            i = i + 1;
        }
        assert(self@.take(i as int) =~= self@);
        out
    }

    /// The timed-out (table, seat) pairs now (see `check_action_timeouts_at`; the time is the
    /// machine's clock).
    pub fn check_action_timeouts(&self) -> (r: Vec<(TableId, Seat)>)
        requires
            forall|i: int|
                0 <= i < self@.len() && waits_on_action(#[trigger] self@[i]) ==> timeout_secs_ok(
                    self@[i].config.action_timeout_secs,
                ),
        ensures
            exists|now: i64| pair_views(r@) == #[trigger] timeouts_of(self@, now),
    {
        let now = now_millis();
        self.check_action_timeouts_at(now)
    }

    /// Whether every table is sound (see `tables_sound`).
    pub fn is_sound(&self) -> (b: bool)
        ensures
            b == tables_sound(self@),
    {
        let mut i: usize = 0;
        while i < self.tables.len()
            invariant
                i <= self@.len(),
                forall|k: int| 0 <= k < i ==> table_sound(#[trigger] self@[k]),
            decreases self@.len() - i,
        {
            let t = &self.tables[i];
            if t.next_button_position >= 2 {
                assert(!table_sound(self@[i as int]));
                return false;
            }
            if let Some(h) = &t.current_hand {
                if h.button_position >= 2 {
                    assert(!table_sound(self@[i as int]));
                    return false;
                }
                if !h.betting.first_actor_is_seat() {
                    assert(!table_sound(self@[i as int]));
                    return false;
                }
                if !actions_seated(h) {
                    assert(!table_sound(self@[i as int]));
                    return false;
                }
                if !h.pot.side_pots_fit() {
                    assert(!table_sound(self@[i as int]));
                    return false;
                }
            }
            i = i + 1;
        }
        true
    }

    /// Whether an action would hit the overcall bound overflow (see `action_overflows`).
    pub fn action_overflows(&self, table_id: &Option<TableId>, seat: Option<Seat>, hand_id: HandId, kind: ActionKind, amount: Option<u64>) -> (b: bool)
        requires
            self.wf(),
            tables_sound(self@),
        ensures
            b == action_overflows(self@, id_view(*table_id), seat, hand_id, kind, amount),
    {
        let (tid, s) = match (table_id, seat) {
            (Some(t), Some(s)) => (t, s),
            _ => {
                return false;
            },
        };
        let i = match self.find(tid) {
            Some(i) => i,
            None => {
                return false;
            },
        };
        match &self.tables[i].current_hand {
            Some(h) => {
                if !(h.id == hand_id) {
                    return false;
                }
                match h.betting.acting_seat() {
                    Some(a) => {
                        if a != s {
                            return false;
                        }
                    },
                    None => {
                        return false;
                    },
                }
                proof {
                    assert(table_sound(self@[i as int]));
                }
                h.betting.call_bound_overflows(s, kind, amount)
            },
            None => false,
        }
    }

    /// Handles a player's action (see `play_refusal`, `play_continues`): a refusal is answered
    /// with an error; an accepted action is recorded and played on, the hand ending on a fold or
    /// at the showdown.
    pub fn play_action(&mut self, table_id: &Option<TableId>, seat: Option<Seat>, hand_id: HandId, kind: ActionKind, amount: Option<u64>) -> (o: ActionOutcome)
        requires
            old(self).wf(),
            tables_sound(old(self)@),
            !action_overflows(old(self)@, id_view(*table_id), seat, hand_id, kind, amount),
        ensures
            final(self).wf(),
            tables_sound(final(self)@),
            play_refusal(old(self)@, id_view(*table_id), seat, hand_id) matches Some(why) ==> (
            o.reply matches Some(m) && is_error_msg(m, why.0, why.1, "action"@)) && nothing_done(o)
                && final(self)@ == old(self)@,
            play_refusal(old(self)@, id_view(*table_id), seat, hand_id) is None ==> {
                let i = position_of(old(self)@, table_id->0@);
                let h = old(self)@[i].current_hand->0;
                match apply_outcome(h.betting@, seat->0 as int, kind, amount) {
                    Err(be) => (o.reply matches Some(m) && is_error_msg(
                        m,
                        "illegal_action"@,
                        hand_error_text(HandErrorView::BlindsFailed(be)),
                        "action"@,
                    )) && nothing_done(o) && final(self)@ == old(self)@,
                    Ok(_) => played_at(old(self)@, final(self)@, i, seat->0, kind, amount, o),
                }
            },
    {
        let (tid, s) = match (table_id, seat) {
            (Some(t), Some(s)) => (t, s),
            _ => {
                return Self::refused("not_at_table", "must join a table before acting");
            },
        };
        let i = match self.find(tid) {
            Some(i) => i,
            None => {
                return Self::refused("table_not_found", "table no longer exists");
            },
        };
        let acting = match &self.tables[i].current_hand {
            Some(h) => {
                if !(h.id == hand_id) {
                    return Self::refused("hand_not_found", "hand not found or not active");
                }
                h.betting.acting_seat()
            },
            None => {
                return Self::refused("hand_not_found", "hand not found or not active");
            },
        };
        match acting {
            Some(a) => {
                if a != s {
                    return Self::refused("not_your_turn", "it is not your turn to act");
                }
            },
            None => {
                return Self::refused("not_your_turn", "it is not your turn to act");
            },
        }
        proof {
            assert(table_sound(self@[i as int]));
        }
        let mut table = self.tables.remove(i);
        let ghost before = table;
        let o = act_on(&mut table, s, kind, amount);
        let ghost after = table;
        self.tables.insert(i, table);
        proof {
            assert(before == old(self)@[i as int]);
            assert(after == self@[i as int]);
            if apply_outcome(before.current_hand->0.betting@, s as int, kind, amount) is Ok {
                let (ts, h1, h2) = choose|ts: i64, h1: Hand, h2: Hand|
                    #[trigger] play_continues(
                        before,
                        Action { seat: s, kind, amount, timestamp: ts },
                        h1,
                        h2,
                        after,
                        o,
                    );
                assert(play_continues(
                    old(self)@[i as int],
                    Action { seat: s, kind, amount, timestamp: ts },
                    h1,
                    h2,
                    self@[i as int],
                    o,
                ));
            }
            assert forall|j: int| 0 <= j < old(self)@.len() && j != i implies #[trigger] self@[j]
                == old(self)@[j] by {}
            assert forall|a: int, b: int|
                0 <= a < self@.len() && 0 <= b < self@.len() && a != b implies #[trigger] self@[a].id@
                != #[trigger] self@[b].id@ by {
                assert(old(self)@[a].id@ == self@[a].id@);
                assert(old(self)@[b].id@ == self@[b].id@);
            }
            assert forall|j: int| 0 <= j < self@.len() implies table_sound(#[trigger] self@[j]) by {
                if j != i {
                    assert(self@[j] == old(self)@[j]);
                }
            }
            if apply_outcome(old(self)@[i as int].current_hand->0.betting@, s as int, kind, amount) is Err {
                assert(self@ =~= old(self)@);
            }
        }
        o
    }

    /// An action refused before it reaches a hand, answered with `code` and `message`.
    fn refused(code: &str, message: &str) -> (o: ActionOutcome)
        ensures
            o.reply matches Some(m) && is_error_msg(m, code@, message@, "action"@),
            nothing_done(o),
    {
        ActionOutcome {
            reply: Some(make_error_msg(code, message, "action")),
            action_record: None,
            after_action: Vec::new(),
            after_advance: Vec::new(),
            hand_end: None,
            table_states: Vec::new(),
        }
    }

    /// Folds for `seat` at table `table_id` when its time ran out (see `fold_refused`): the fold
    /// is recorded and ends the hand; nothing is answered.
    pub fn auto_fold(&mut self, table_id: &TableId, seat: Seat) -> (o: ActionOutcome)
        requires
            old(self).wf(),
            tables_sound(old(self)@),
        ensures
            final(self).wf(),
            tables_sound(final(self)@),
            fold_refused(old(self)@, table_id@, seat) ==> o.reply is None && nothing_done(o)
                && final(self)@ == old(self)@,
            !fold_refused(old(self)@, table_id@, seat) ==> played_at(
                old(self)@,
                final(self)@,
                position_of(old(self)@, table_id@),
                seat,
                ActionKind::Fold,
                None,
                o,
            ),
    {
        let empty = ActionOutcome {
            reply: None,
            action_record: None,
            after_action: Vec::new(),
            after_advance: Vec::new(),
            hand_end: None,
            table_states: Vec::new(),
        };
        let i = match self.find(table_id) {
            Some(i) => i,
            None => {
                return empty;
            },
        };
        let acting = match &self.tables[i].current_hand {
            Some(h) => h.betting.acting_seat(),
            None => {
                return empty;
            },
        };
        match acting {
            Some(a) => {
                if a != seat {
                    return empty;
                }
            },
            None => {
                return empty;
            },
        }
        proof {
            assert(table_sound(self@[i as int]));
        }
        let mut table = self.tables.remove(i);
        let ghost before = table;
        let o = act_on(&mut table, seat, ActionKind::Fold, None);
        let ghost after = table;
        self.tables.insert(i, table);
        proof {
            assert(before == old(self)@[i as int]);
            assert(after == self@[i as int]);
            assert(apply_outcome(before.current_hand->0.betting@, seat as int, ActionKind::Fold, None) is Ok);
            let (ts, h1, h2) = choose|ts: i64, h1: Hand, h2: Hand|
                #[trigger] play_continues(
                    before,
                    Action { seat, kind: ActionKind::Fold, amount: None, timestamp: ts },
                    h1,
                    h2,
                    after,
                    o,
                );
            assert(play_continues(
                old(self)@[i as int],
                Action { seat, kind: ActionKind::Fold, amount: None, timestamp: ts },
                h1,
                h2,
                self@[i as int],
                o,
            ));
            assert forall|j: int| 0 <= j < old(self)@.len() && j != i implies #[trigger] self@[j]
                == old(self)@[j] by {}
            assert forall|a: int, b: int|
                0 <= a < self@.len() && 0 <= b < self@.len() && a != b implies #[trigger] self@[a].id@
                != #[trigger] self@[b].id@ by {
                assert(old(self)@[a].id@ == self@[a].id@);
                assert(old(self)@[b].id@ == self@[b].id@);
            }
            assert forall|j: int| 0 <= j < self@.len() implies table_sound(#[trigger] self@[j]) by {
                if j != i {
                    assert(self@[j] == old(self)@[j]);
                }
            }
        }
        o
    }

    /// One table per configuration, named "table-0", "table-1", ... in order, created at time
    /// `created_at`.
    pub fn from_configs(configs: &Vec<TableConfig>, created_at: i64) -> (m: TableManager)
        ensures
            m.wf(),
            tables_sound(m@),
            m@.len() == configs@.len(),
            forall|i: int| 0 <= i < configs@.len() ==> is_new_table(#[trigger] m@[i], i as nat, configs@[i], created_at),
    {
        let mut tables: Vec<Table> = Vec::new();
        let mut i: usize = 0;
        while i < configs.len()
            invariant
                i <= configs@.len(),
                tables@.len() == i,
                forall|k: int| 0 <= k < i ==> is_new_table(#[trigger] tables@[k], k as nat, configs@[k], created_at),
            decreases configs@.len() - i,
        {
            let id = TableId::new(String::from_str("table-").concat(u64_to_decimal(i as u64).as_str()));
            let t = Table {
                id,
                seats: [None, None],
                current_hand: None,
                next_button_position: 0,
                hand_count: 0,
                config: configs[i],
                created_at,
            };
            proof {
                assert(t.seats@ =~= seq![None::<Player>, None::<Player>]);
            }
            tables.push(t);
            i = i + 1;
        }
        let m = TableManager { tables };
        proof {
            assert forall|a: int, b: int|
                0 <= a < m@.len() && 0 <= b < m@.len() && a != b implies #[trigger] m@[a].id@
                != #[trigger] m@[b].id@ by {
                assert(is_new_table(m@[a], a as nat, configs@[a], created_at));
                assert(is_new_table(m@[b], b as nat, configs@[b], created_at));
                if m@[a].id@ == m@[b].id@ {
                    lemma_prefix_cancel("table-"@, decimal(a as nat), decimal(b as nat));
                    lemma_decimal_injective(a as nat, b as nat);
                }
            }
            assert forall|k: int| 0 <= k < m@.len() implies table_sound(#[trigger] m@[k]) by {
                assert(is_new_table(m@[k], k as nat, configs@[k], created_at));
            }
        }
        m
    }

    /// Whether a hand can start at table `table_id`: it exists, both seats are taken and no hand
    /// is in progress.
    pub fn can_start_hand(&self, table_id: &TableId) -> (b: bool)
        requires
            self.wf(),
        ensures
            b == (has_id(self@, table_id@) && both_seated(self@[position_of(self@, table_id@)])
                && self@[position_of(self@, table_id@)].current_hand is None),
    {
        match self.find(table_id) {
            Some(i) => {
                let t = &self.tables[i];
                t.seats[0].is_some() && t.seats[1].is_some() && t.current_hand.is_none()
            },
            None => false,
        }
    }

    /// The states of the hand in progress at table `table_id` for seat 0 and seat 1, if any.
    pub fn current_hand_states(&self, table_id: &TableId) -> (r: Option<Vec<Message>>)
        requires
            self.wf(),
        ensures
            r is Some <==> has_id(self@, table_id@) && self@[position_of(
                self@,
                table_id@,
            )].current_hand is Some,
            r matches Some(ms) ==> {
                let t = self@[position_of(self@, table_id@)];
                hand_states_of(ms@, t.current_hand->0, table_id@, t.config)
            },
    {
        match self.find(table_id) {
            Some(i) => {
                let t = &self.tables[i];
                match &t.current_hand {
                    Some(h) => Some(hand_states(h, table_id, &t.config)),
                    None => None,
                }
            },
            None => None,
        }
    }

    /// The state of the hand in progress at table `table_id` as `seat` sees it, if any.
    pub fn hand_state_for(&self, table_id: &TableId, seat: Seat) -> (r: Option<Message>)
        requires
            self.wf(),
        ensures
            r is Some <==> has_id(self@, table_id@) && self@[position_of(
                self@,
                table_id@,
            )].current_hand is Some,
            r matches Some(m) ==> {
                let t = self@[position_of(self@, table_id@)];
                let h = t.current_hand->0;
                is_hand_state_msg(
                    m,
                    h,
                    table_id@,
                    seat,
                    acting_spec(h.betting@),
                    action_window_ms(t.config),
                )
            },
    {
        match self.find(table_id) {
            Some(i) => {
                let t = &self.tables[i];
                match &t.current_hand {
                    Some(h) => Some(
                        create_hand_state_message(
                            h,
                            table_id.clone(),
                            seat,
                            h.betting.acting_seat(),
                            action_window(&t.config),
                        ),
                    ),
                    None => None,
                }
            },
            None => None,
        }
    }

    /// Handles a request from connection `connection_id` to join `seat` of table `table_id` at
    /// time `now`: a seat other than 0 or 1 is refused and closes the connection; otherwise the
    /// connection's player (with the table's starting stack) asks for the seat (see
    /// `occupy_outcome`), and a refusal is answered as "seat_taken"; an unknown table is
    /// answered as "table_not_found".
    pub fn join_table_at(&mut self, table_id: &TableId, seat: Seat, connection_id: ConnectionId, now: i64) -> (o: JoinOutcome)
        requires
            old(self).wf(),
            occupy_needs_timeout(old(self)@, table_id@, seat) ==> timeout_secs_ok(
                old(self)@[position_of(old(self)@, table_id@)].config.reconnection_timeout_secs,
            ),
        ensures
            final(self).wf(),
            tables_sound(old(self)@) ==> tables_sound(final(self)@),
            seat >= 2 ==> (o matches JoinOutcome::Refused { reply, close } && close && is_error_msg(
                reply,
                "invalid_seat"@,
                "seat must be between 0 and 1"@,
                "join_table"@,
            )) && final(self)@ == old(self)@,
            seat < 2 && !has_id(old(self)@, table_id@) ==> (o matches JoinOutcome::Refused {
                reply,
                close,
            } && !close && is_error_msg(reply, "table_not_found"@, "table not found"@, "join_table"@))
                && final(self)@ == old(self)@,
            seat < 2 && has_id(old(self)@, table_id@) ==> exists|answer: Result<(), Seq<char>>|
                #[trigger] seat_taken_at(
                    old(self)@,
                    final(self)@,
                    table_id@,
                    seat,
                    joining_player(config_of(old(self)@, table_id@), seat, connection_id),
                    now,
                    answer,
                ) && join_answer(final(self)@, table_id@, answer, o),
    {
        if seat >= 2 {
            return JoinOutcome::Refused {
                reply: make_error_msg("invalid_seat", "seat must be between 0 and 1", "join_table"),
                close: true,
            };
        }
        let starting_stack = match self.get_table(table_id) {
            Some(t) => t.config.starting_stack,
            None => {
                return JoinOutcome::Refused {
                    reply: make_error_msg("table_not_found", "table not found", "join_table"),
                    close: false,
                };
            },
        };
        let player = Player {
            seat,
            stack: starting_stack,
            connection_id,
            disconnected_at: None,
            is_sitting_out: false,
        };
        let ghost before = self@;
        match self.occupy_seat_at(table_id, seat, player, now) {
            Ok(()) => {
                let i = match self.find(table_id) {
                    Some(i) => i,
                    None => {
                        return JoinOutcome::Refused {
                            reply: make_error_msg("seat_taken", "table not found", "join_table"),
                            close: false,
                        };
                    },
                };
                proof {
                    assert(has_id(before, table_id@));
                    let p = position_of(before, table_id@);
                    assert(self@[p].id@ == table_id@);
                }
                let t = &self.tables[i];
                JoinOutcome::Seated { seats: t.seats, config: t.config }
            },
            Err(e) => {
                proof {
                    if has_id(before, table_id@) {
                        let p = position_of(before, table_id@);
                        assert(self@[p].id@ == table_id@);
                        assert(position_of(self@, table_id@) == p);
                    }
                }
                JoinOutcome::Refused {
                    reply: make_error_msg("seat_taken", e.as_str(), "join_table"),
                    close: false,
                }
            },
        }
    }

    /// Handles a join request now (see `join_table_at`; the time is the machine's clock).
    pub fn join_table(&mut self, table_id: &TableId, seat: Seat, connection_id: ConnectionId) -> (o: JoinOutcome)
        requires
            old(self).wf(),
            occupy_needs_timeout(old(self)@, table_id@, seat) ==> timeout_secs_ok(
                old(self)@[position_of(old(self)@, table_id@)].config.reconnection_timeout_secs,
            ),
        ensures
            final(self).wf(),
            tables_sound(old(self)@) ==> tables_sound(final(self)@),
            seat >= 2 ==> (o matches JoinOutcome::Refused { reply, close } && close && is_error_msg(
                reply,
                "invalid_seat"@,
                "seat must be between 0 and 1"@,
                "join_table"@,
            )) && final(self)@ == old(self)@,
            seat < 2 && !has_id(old(self)@, table_id@) ==> (o matches JoinOutcome::Refused {
                reply,
                close,
            } && !close && is_error_msg(reply, "table_not_found"@, "table not found"@, "join_table"@))
                && final(self)@ == old(self)@,
            seat < 2 && has_id(old(self)@, table_id@) ==> exists|now: i64, answer: Result<(), Seq<char>>|
                #[trigger] seat_taken_at(
                    old(self)@,
                    final(self)@,
                    table_id@,
                    seat,
                    joining_player(config_of(old(self)@, table_id@), seat, connection_id),
                    now,
                    answer,
                ) && join_answer(final(self)@, table_id@, answer, o),
    {
        let now = now_millis();
        self.join_table_at(table_id, seat, connection_id, now)
    }
}

proof fn lemma_pots_total_front(m: (u64, Seq<u8>), s: Seq<(u64, Seq<u8>)>)
    ensures
        pots_total(seq![m] + s) == m.0 + side_total(s),
    decreases s.len(),
{
    if s.len() > 0 {
        lemma_pots_total_front(m, s.drop_last());
        assert((seq![m] + s).drop_last() =~= seq![m] + s.drop_last());
        assert((seq![m] + s).last() == s.last());
    } else {
        assert(seq![m] + s =~= seq![m]);
        assert(seq![m].drop_last() =~= Seq::<(u64, Seq<u8>)>::empty());
        assert(pots_total(Seq::<(u64, Seq<u8>)>::empty()) == 0);
        assert(seq![m].last() == m);
    }
}

/// Chips are conserved to the end of a hand: when both seats are taken, every winner is a seat,
/// each pot has a winner eligible for it and the hand's chips fit in a `u64`, the two seats
/// together hold after the hand exactly what the hand held: the stacks behind the bets, the
/// current street's bets and every pot.
pub proof fn law_hand_end_conserves_chips(a: Table, b: Table, hand: Hand, winners: Seq<u8>)
    requires
        hand_finished(a, b, hand, winners),
        a.seats@[0] is Some,
        a.seats@[1] is Some,
        winners.len() > 0,
        winners.len() <= u64::MAX,
        all_seats(winners),
        forall|j: int|
            0 <= j < pot_list(hand).len() ==> #[trigger] eligible_in(winners, pot_list(hand)[j].1).len() > 0,
        hand_chips(hand) <= u64::MAX,
    ensures
        b.seats@[0]->0.stack + b.seats@[1]->0.stack == hand_chips(hand),
{
    let main = (sat_add(hand.pot.main, hand.betting@.total_pot), seq![0u8, 1u8]);
    lemma_side_total_nonneg(hand.pot@.side_pots);
    lemma_pots_total_front(main, hand.pot@.side_pots);
    law_pots_paid_in_full(pot_list(hand), winners, hand.button_position);
}

/// A hand dealt at table `t` holds exactly the chips the two seats had: the blinds only move
/// from the stacks into the street's pot.
pub proof fn law_deal_holds_table_chips(t: Table, t2: Table)
    requires
        hand_started(t, t2),
        t.next_button_position < 2,
        seated_stacks(t)[0] + seated_stacks(t)[1] <= u64::MAX,
    ensures
        hand_chips(t2.current_hand->0) == seated_stacks(t)[0] + seated_stacks(t)[1],
{
    let h = t2.current_hand->0;
    law_blinds_conserve_chips(
        t.config.small_blind,
        t.config.big_blind,
        seated_stacks(t),
        t.next_button_position,
        h.betting@,
    );
    assert(h.pot@.side_pots =~= Seq::<(u64, Seq<u8>)>::empty());
}

/// Chips are conserved over a whole hand: when a hand was dealt at table `t` (to `t2`), its
/// actions and streets kept its chips (as `law_action_conserves_chips_and_cards` and
/// `law_advance_conserves_chips` show each step does), and it ended as `hand` on table `a`
/// (giving `b`) with payable pots, the two seats end holding what they had at the deal.
pub proof fn law_hand_returns_table_chips(t: Table, t2: Table, a: Table, b: Table, hand: Hand, winners: Seq<u8>)
    requires
        hand_started(t, t2),
        t.next_button_position < 2,
        seated_stacks(t)[0] + seated_stacks(t)[1] <= u64::MAX,
        hand_chips(hand) == hand_chips(t2.current_hand->0),
        hand_finished(a, b, hand, winners),
        a.seats@[0] is Some,
        a.seats@[1] is Some,
        winners.len() > 0,
        winners.len() <= u64::MAX,
        all_seats(winners),
        forall|j: int|
            0 <= j < pot_list(hand).len() ==> #[trigger] eligible_in(winners, pot_list(hand)[j].1).len() > 0,
    ensures
        b.seats@[0]->0.stack + b.seats@[1]->0.stack == seated_stacks(t)[0] + seated_stacks(t)[1],
{
    law_deal_holds_table_chips(t, t2);
    law_hand_end_conserves_chips(a, b, hand, winners);
}

/// With distinct table identifiers, the table with identifier `id` keeps its position when at
/// most that table changes.
proof fn lemma_position_kept(a: Seq<Table>, b: Seq<Table>, id: Seq<char>)
    requires
        ids_distinct(a),
        has_id(a, id),
        others_unchanged(a, b, position_of(a, id)),
        b[position_of(a, id)].id == a[position_of(a, id)].id,
    ensures
        has_id(b, id),
        ids_distinct(b),
        position_of(b, id) == position_of(a, id),
{
    let i = position_of(a, id);
    assert(b[i].id@ == id);
    let j = position_of(b, id);
    if j != i {
        assert(a[j].id@ == id);
    }
    assert forall|k: int, l: int|
        0 <= k < b.len() && 0 <= l < b.len() && k != l implies #[trigger] b[k].id@ != #[trigger] b[l].id@ by {
        assert(a[k].id@ != a[l].id@);
    }
}

/// A player who was marked as disconnected at `left` and whose seat is taken again at `back`
/// by a request for that seat: within the table's reconnection timeout the request succeeds and
/// the seat holds the newcomer, connected, with the stack the player had, while the hand in
/// progress is untouched; once the timeout has passed the newcomer takes the seat with its own
/// stack.
pub proof fn law_reconnect_keeps_stack(
    a: Seq<Table>,
    b: Seq<Table>,
    c: Seq<Table>,
    id: Seq<char>,
    seat: u8,
    player: Player,
    left: i64,
    back: i64,
    answer: Result<(), Seq<char>>,
)
    requires
        ids_distinct(a),
        has_id(a, id),
        seat < 2,
        a[position_of(a, id)].seats@[seat as int] is Some,
        player.seat == seat,
        marked_at(a, b, id, seat, left),
        seat_taken_at(b, c, id, seat, player, back, answer),
    ensures
        has_id(c, id),
        answer is Ok,
        c[position_of(c, id)].current_hand == a[position_of(a, id)].current_hand,
        back - left < timeout_ms(a[position_of(a, id)].config.reconnection_timeout_secs) ==> c[position_of(
            c,
            id,
        )].seats@[seat as int] == Some(
            Player {
                stack: a[position_of(a, id)].seats@[seat as int]->0.stack,
                disconnected_at: None,
                ..player
            },
        ),
        back - left >= timeout_ms(a[position_of(a, id)].config.reconnection_timeout_secs) ==> c[position_of(
            c,
            id,
        )].seats@[seat as int] == Some(player),
{
    let i = position_of(a, id);
    lemma_position_kept(a, b, id);
    lemma_position_kept(b, c, id);
}

} // verus!
