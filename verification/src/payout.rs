//! Paying the pots of a finished hand to its winners.

use crate::betting::sat_add;
use crate::hand::Hand;
use crate::pot::SidePot;
use crate::Seat;
use vstd::prelude::*;

verus! {

/// The pots of a hand as (amount, eligible seats): the main pot with the bets of the current
/// street, open to both seats, then the side pots.
pub open spec fn pot_list(h: Hand) -> Seq<(u64, Seq<u8>)> {
    seq![(sat_add(h.pot.main, h.betting@.total_pot), seq![0u8, 1u8])] + h.pot@.side_pots
}

/// The seats that occur in `seats`.
pub open spec fn among(seats: Seq<u8>) -> spec_fn(u8) -> bool {
    |s: u8| seats.contains(s)
}

/// The seat `b`.
pub open spec fn is_seat(b: u8) -> spec_fn(u8) -> bool {
    |s: u8| s == b
}

/// The seats other than `b`.
pub open spec fn other_than(b: u8) -> spec_fn(u8) -> bool {
    |s: u8| s != b
}

/// The winners that may win a pot open to `eligible`, in the winners' order.
pub open spec fn eligible_in(winners: Seq<u8>, eligible: Seq<u8>) -> Seq<u8> {
    winners.filter(among(eligible))
}

/// `ws` with the button seat moved to the front, the others keeping their order.
pub open spec fn button_first(ws: Seq<u8>, button: u8) -> Seq<u8> {
    ws.filter(is_seat(button)) + ws.filter(other_than(button))
}

proof fn lemma_filter_empty(p: spec_fn(u8) -> bool)
    ensures
        Seq::<u8>::empty().filter(p) == Seq::<u8>::empty(),
{
    reveal(Seq::filter);
}

proof fn lemma_filter_push(s: Seq<u8>, p: spec_fn(u8) -> bool, x: u8)
    ensures
        s.push(x).filter(p) == (if p(x) {
            s.filter(p).push(x)
        } else {
            s.filter(p)
        }),
{
    reveal(Seq::filter);
    assert(s.push(x).drop_last() =~= s);
}

/// The order in which a pot of `amount` is paid to the winners `ws`: the button first when the
/// pot does not split evenly (the first paid takes the odd chips).
pub open spec fn paid_order(amount: u64, ws: Seq<u8>, button: u8) -> Seq<u8> {
    if amount % (ws.len() as u64) > 0 {
        button_first(ws, button)
    } else {
        ws
    }
}

/// `awards` with `x` more chips for `seat` (seats other than 0 and 1 get nothing).
pub open spec fn credit(awards: Seq<u64>, seat: u8, x: u64) -> Seq<u64> {
    if seat < 2 {
        awards.update(seat as int, sat_add(awards[seat as int], x))
    } else {
        awards
    }
}

/// `awards` after paying `share` to each seat of `order`, the first one also taking `rem`.
pub open spec fn pay_shares(awards: Seq<u64>, order: Seq<u8>, share: u64, rem: u64) -> Seq<u64>
    decreases order.len(),
{
    if order.len() == 0 {
        awards
    } else {
        credit(
            pay_shares(awards, order.drop_last(), share, rem),
            order.last(),
            if order.len() == 1 && rem > 0 {
                sat_add(share, rem)
            } else {
                share
            },
        )
    }
}

/// `awards` after paying a pot of `amount` open to `eligible`: split evenly among the eligible
/// winners, the odd chips to the first paid; a pot no winner may win is not paid.
pub open spec fn pay_pot(awards: Seq<u64>, amount: u64, eligible: Seq<u8>, winners: Seq<u8>, button: u8) -> Seq<u64> {
    let ws = eligible_in(winners, eligible);
    if ws.len() == 0 {
        awards
    } else {
        let k = ws.len() as u64;
        pay_shares(awards, paid_order(amount, ws, button), amount / k, amount % k)
    }
}

/// What each seat wins from `pots`, paid in order.
pub open spec fn awards_for(pots: Seq<(u64, Seq<u8>)>, winners: Seq<u8>, button: u8) -> Seq<u64>
    decreases pots.len(),
{
    if pots.len() == 0 {
        seq![0u64, 0u64]
    } else {
        pay_pot(
            awards_for(pots.drop_last(), winners, button),
            pots.last().0,
            pots.last().1,
            winners,
            button,
        )
    }
}

/// Whether `s` occurs in `v`.
fn contains_seat(v: &Vec<Seat>, s: Seat) -> (b: bool)
    ensures
        b == v@.contains(s),
{
    let mut i: usize = 0;
    while i < v.len()
        invariant
            i <= v@.len(),
            forall|k: int| 0 <= k < i ==> v@[k] != s,
        decreases v@.len() - i,
    {
        if v[i] == s {
            assert(v@[i as int] == s);
            return true;
        }
        i = i + 1;
    }
    false
}

/// The winners that may win a pot open to `eligible`, in order.
fn eligible_winners(winners: &[Seat], eligible: &Vec<Seat>) -> (ws: Vec<Seat>)
    ensures
        ws@ == eligible_in(winners@, eligible@),
{
    let mut ws: Vec<Seat> = Vec::new();
    let mut i: usize = 0;
    while i < winners.len()
        invariant
            i <= winners@.len(),
            ws@ == eligible_in(winners@.take(i as int), eligible@),
        decreases winners@.len() - i,
    {
        let s = winners[i];
        proof {
            assert(winners@.take(i + 1) =~= winners@.take(i as int).push(s));
            lemma_filter_push(winners@.take(i as int), among(eligible@), s);
        }
        if contains_seat(eligible, s) {
            ws.push(s);
        }
        i = i + 1;
    }
    assert(winners@.take(i as int) =~= winners@);
    ws
}

/// `ws` with the button seat moved to the front (a stable sort on "is not the button").
fn put_button_first(ws: &Vec<Seat>, button: Seat) -> (r: Vec<Seat>)
    ensures
        r@ == button_first(ws@, button),
{
    let mut first: Vec<Seat> = Vec::new();
    let mut rest: Vec<Seat> = Vec::new();
    let mut i: usize = 0;
    while i < ws.len()
        invariant
            i <= ws@.len(),
            first@ == ws@.take(i as int).filter(is_seat(button)),
            rest@ == ws@.take(i as int).filter(other_than(button)),
        decreases ws@.len() - i,
    {
        let s = ws[i];
        proof {
            assert(ws@.take(i + 1) =~= ws@.take(i as int).push(s));
            lemma_filter_push(ws@.take(i as int), is_seat(button), s);
            lemma_filter_push(ws@.take(i as int), other_than(button), s);
        }
        if s == button {
            first.push(s);
        } else {
            rest.push(s);
        }
        i = i + 1;
    }
    assert(ws@.take(i as int) =~= ws@);
    let mut j: usize = 0;
    let ghost f = first@;
    while j < rest.len()
        invariant
            j <= rest@.len(),
            first@ == f + rest@.take(j as int),
        decreases rest@.len() - j,
    {
        first.push(rest[j]);
        proof {
            assert(rest@.take(j + 1) =~= rest@.take(j as int).push(rest@[j as int]));
            assert(first@ =~= f + rest@.take(j + 1));
        }
        j = j + 1;
    }
    assert(rest@.take(j as int) =~= rest@);
    first
}

/// Pays a pot of `amount` open to `eligible` into `awards` (see `pay_pot`).
fn pay_one_pot(awards: &mut [u64; 2], amount: u64, eligible: &Vec<Seat>, winners: &[Seat], button: Seat)
    ensures
        final(awards)@ == pay_pot(old(awards)@, amount, eligible@, winners@, button),
{
    let ws = eligible_winners(winners, eligible);
    if ws.len() == 0 {
        return;
    }
    let k = ws.len() as u64;
    let share = amount / k;
    let rem = amount % k;
    let order = if rem > 0 {
        put_button_first(&ws, button)
    } else {
        ws
    };
    let ghost start = awards@;
    let mut idx: usize = 0;
    while idx < order.len()
        invariant
            idx <= order@.len(),
            awards@ == pay_shares(start, order@.take(idx as int), share, rem),
        decreases order@.len() - idx,
    {
        let seat = order[idx];
        let award = if idx == 0 && rem > 0 {
            share.saturating_add(rem)
        } else {
            share
        };
        proof {
            assert(order@.take(idx + 1).drop_last() =~= order@.take(idx as int));
        }
        if seat < 2 {
            awards[seat as usize] = awards[seat as usize].saturating_add(award);
        }
        idx = idx + 1;
    }
    assert(order@.take(idx as int) =~= order@);
}

/// What each seat wins from the pots of `hand` (see `awards_for`; the bets of the current street
/// belong to the main pot): each pot, main first, is
/// split evenly among the winners eligible for it, the odd chips going to the button when it is
/// one of them (else to the first such winner).
pub fn award_pots_to_winners(hand: &Hand, winners: &[Seat]) -> (awards: [u64; 2])
    ensures
        awards@ == awards_for(pot_list(*hand), winners@, hand.button_position),
{
    let button = hand.button_position;
    let mut awards: [u64; 2] = [0, 0];
    let all_seats: Vec<Seat> = vec![0, 1];
    let ghost pots = pot_list(*hand);
    proof {
        assert(all_seats@ =~= seq![0u8, 1u8]);
        assert(pots.take(0) =~= Seq::<(u64, Seq<u8>)>::empty());
        assert(awards@ =~= seq![0u64, 0u64]);
        assert(pots.take(1).drop_last() =~= pots.take(0));
    }
    let main = hand.pot.main.saturating_add(hand.betting.total_pot());
    pay_one_pot(&mut awards, main, &all_seats, winners, button);
    proof {
        assert(pots.take(1).last() == (main, seq![0u8, 1u8]));
        assert(awards_for(pots.take(0), winners@, button) == seq![0u64, 0u64]);
        assert(awards@ == awards_for(pots.take(1), winners@, button));
    }
    let mut i: usize = 0;
    while i < hand.pot.side_pots.len()
        invariant
            i <= hand.pot.side_pots@.len(),
            pots == pot_list(*hand),
            awards@ == awards_for(pots.take(i + 1), winners@, button),
            button == hand.button_position,
        decreases hand.pot.side_pots@.len() - i,
    {
        let side: &SidePot = &hand.pot.side_pots[i];
        proof {
            assert(pots.take(i + 2).drop_last() =~= pots.take(i + 1));
            assert(pots[i + 1] == side@);
        }
        pay_one_pot(&mut awards, side.amount, &side.eligible_seats, winners, button);
        i = i + 1;
    }
    assert(pots.take(i + 1) =~= pots);
    awards
}

/// Sum of the amounts of `pots`.
pub open spec fn pots_total(pots: Seq<(u64, Seq<u8>)>) -> int
    decreases pots.len(),
{
    if pots.len() == 0 {
        0
    } else {
        pots_total(pots.drop_last()) + pots.last().0
    }
}

/// Every entry of `s` is a seat (0 or 1).
pub open spec fn all_seats(s: Seq<u8>) -> bool {
    forall|i: int| 0 <= i < s.len() ==> #[trigger] s[i] < 2
}

proof fn lemma_filter_seats(s: Seq<u8>, p: spec_fn(u8) -> bool)
    requires
        all_seats(s),
    ensures
        all_seats(s.filter(p)),
        s.filter(p).len() <= s.len(),
    decreases s.len(),
{
    if s.len() > 0 {
        let t = s.drop_last();
        assert(s =~= t.push(s.last()));
        lemma_filter_seats(t, p);
        lemma_filter_push(t, p, s.last());
    } else {
        reveal(Seq::filter);
    }
}

proof fn lemma_button_first(ws: Seq<u8>, b: u8)
    ensures
        button_first(ws, b).len() == ws.len(),
        all_seats(ws) ==> all_seats(button_first(ws, b)),
    decreases ws.len(),
{
    if ws.len() == 0 {
        reveal(Seq::filter);
    } else {
        let t = ws.drop_last();
        assert(ws =~= t.push(ws.last()));
        lemma_button_first(t, b);
        lemma_filter_push(t, is_seat(b), ws.last());
        lemma_filter_push(t, other_than(b), ws.last());
        if all_seats(ws) {
            lemma_filter_seats(ws, is_seat(b));
            lemma_filter_seats(ws, other_than(b));
        }
    }
}

proof fn lemma_pay_shares_total(awards: Seq<u64>, order: Seq<u8>, share: u64, rem: u64)
    requires
        awards.len() == 2,
        all_seats(order),
        awards[0] + awards[1] + share * order.len() + rem <= u64::MAX,
    ensures
        pay_shares(awards, order, share, rem).len() == 2,
        pay_shares(awards, order, share, rem)[0] + pay_shares(awards, order, share, rem)[1]
            == awards[0] + awards[1] + share * order.len() + (if order.len() > 0 {
            rem as int
        } else {
            0
        }),
    decreases order.len(),
{
    if order.len() > 0 {
        let t = order.drop_last();
        assert(all_seats(t)) by {
            assert forall|i: int| 0 <= i < t.len() implies #[trigger] t[i] < 2 by {
                assert(t[i] == order[i]);
            }
        }
        assert(share * t.len() <= share * order.len()) by (nonlinear_arith)
            requires
                t.len() <= order.len(),
        ;
        assert(share * order.len() == share * t.len() + share) by (nonlinear_arith)
            requires
                t.len() + 1 == order.len(),
        ;
        lemma_pay_shares_total(awards, t, share, rem);
        assert(order.last() == order[order.len() - 1]);
    }
}

proof fn lemma_pay_pot_total(awards: Seq<u64>, amount: u64, eligible: Seq<u8>, winners: Seq<u8>, button: u8)
    requires
        winners.len() <= u64::MAX,
        awards.len() == 2,
        all_seats(winners),
        eligible_in(winners, eligible).len() > 0,
        awards[0] + awards[1] + amount <= u64::MAX,
    ensures
        pay_pot(awards, amount, eligible, winners, button).len() == 2,
        pay_pot(awards, amount, eligible, winners, button)[0] + pay_pot(
            awards,
            amount,
            eligible,
            winners,
            button,
        )[1] == awards[0] + awards[1] + amount,
{
    let ws = eligible_in(winners, eligible);
    lemma_filter_seats(winners, among(eligible));
    lemma_button_first(ws, button);
    let k = ws.len() as u64;
    let order = paid_order(amount, ws, button);
    assert(order.len() == k);
    assert(all_seats(order));
    vstd::arithmetic::div_mod::lemma_fundamental_div_mod(amount as int, k as int);
    assert(amount as int == k * (amount / k) + amount % k);
    assert((amount / k) * order.len() == k * (amount / k)) by (nonlinear_arith)
        requires
            order.len() == k,
    ;
    lemma_pay_shares_total(awards, order, amount / k, amount % k);
}

proof fn lemma_awards_total(pots: Seq<(u64, Seq<u8>)>, winners: Seq<u8>, button: u8)
    requires
        winners.len() <= u64::MAX,
        all_seats(winners),
        forall|j: int| 0 <= j < pots.len() ==> #[trigger] eligible_in(winners, pots[j].1).len() > 0,
        pots_total(pots) <= u64::MAX,
    ensures
        awards_for(pots, winners, button).len() == 2,
        awards_for(pots, winners, button)[0] + awards_for(pots, winners, button)[1] == pots_total(
            pots,
        ),
    decreases pots.len(),
{
    if pots.len() > 0 {
        let t = pots.drop_last();
        assert forall|j: int| 0 <= j < t.len() implies #[trigger] eligible_in(winners, t[j].1).len()
            > 0 by {
            assert(t[j] == pots[j]);
            assert(eligible_in(winners, pots[j].1).len() > 0);
        }
        lemma_pots_total_nonneg(t);
        lemma_awards_total(t, winners, button);
        assert(eligible_in(winners, pots[pots.len() - 1].1).len() > 0);
        lemma_pay_pot_total(
            awards_for(t, winners, button),
            pots.last().0,
            pots.last().1,
            winners,
            button,
        );
    }
}

proof fn lemma_pots_total_nonneg(pots: Seq<(u64, Seq<u8>)>)
    ensures
        pots_total(pots) >= 0,
    decreases pots.len(),
{
    if pots.len() > 0 {
        lemma_pots_total_nonneg(pots.drop_last());
    }
}

/// When every winner is a seat and each pot has a winner eligible for it, the pots are paid out
/// in full: the two seats together receive exactly what the pots hold (as long as that fits in
/// a `u64`).
pub proof fn law_pots_paid_in_full(pots: Seq<(u64, Seq<u8>)>, winners: Seq<u8>, button: u8)
    requires
        winners.len() <= u64::MAX,
        all_seats(winners),
        forall|j: int| 0 <= j < pots.len() ==> #[trigger] eligible_in(winners, pots[j].1).len() > 0,
        pots_total(pots) <= u64::MAX,
    ensures
        awards_for(pots, winners, button)[0] + awards_for(pots, winners, button)[1] == pots_total(
            pots,
        ),
{
    lemma_awards_total(pots, winners, button);
}


proof fn lemma_pay_two(x: u8, y: u8, share: u64, rem: u64)
    requires
        x < 2,
        y < 2,
        x != y,
        share + rem <= u64::MAX,
    ensures
        pay_shares(seq![0u64, 0u64], seq![x, y], share, rem)[x as int] == share + rem,
        pay_shares(seq![0u64, 0u64], seq![x, y], share, rem)[y as int] == share,
{
    let z = seq![0u64, 0u64];
    let o = seq![x, y];
    assert(o.drop_last() =~= seq![x]);
    assert(seq![x].drop_last() =~= Seq::<u8>::empty());
    assert(pay_shares(z, Seq::<u8>::empty(), share, rem) == z);
    assert(seq![x].last() == x && seq![x].len() == 1);
    let first = pay_shares(z, seq![x], share, rem);
    assert(first == credit(z, x, if rem > 0 { sat_add(share, rem) } else { share }));
    assert(o.last() == y && o.len() == 2);
    assert(first[x as int] == share + rem);
    assert(first[y as int] == 0);
}

/// A main pot split between both seats: each gets half, and the odd chip goes to the button.
pub proof fn law_odd_chip_to_button(amount: u64, button: u8)
    requires
        button < 2,
    ensures
        awards_for(seq![(amount, seq![0u8, 1u8])], seq![0u8, 1u8], button)[button as int] == amount
            / 2 + amount % 2,
        awards_for(seq![(amount, seq![0u8, 1u8])], seq![0u8, 1u8], button)[1 - button] == amount
            / 2,
{
    let both = seq![0u8, 1u8];
    let pots = seq![(amount, both)];
    assert(pots.drop_last() =~= Seq::<(u64, Seq<u8>)>::empty());
    assert(awards_for(pots.drop_last(), both, button) == seq![0u64, 0u64]);
    let e = Seq::<u8>::empty();
    let one = e.push(0u8);
    assert(both =~= one.push(1u8));
    assert(one.drop_last() =~= e);
    assert(both[0] == 0u8 && both[1] == 1u8);
    assert(among(both)(0u8) && among(both)(1u8));
    lemma_filter_empty(among(both));
    lemma_filter_push(e, among(both), 0u8);
    lemma_filter_push(one, among(both), 1u8);
    assert(eligible_in(both, both) =~= both);
    let share = amount / 2;
    let rem = amount % 2;
    assert(share + rem <= amount);
    let other = (1 - button) as u8;
    if rem > 0 {
        lemma_filter_empty(is_seat(button));
        lemma_filter_empty(other_than(button));
        lemma_filter_push(e, is_seat(button), 0u8);
        lemma_filter_push(one, is_seat(button), 1u8);
        lemma_filter_push(e, other_than(button), 0u8);
        lemma_filter_push(one, other_than(button), 1u8);
        if button == 0 {
            assert(both.filter(is_seat(button)) =~= seq![0u8]);
            assert(both.filter(other_than(button)) =~= seq![1u8]);
        } else {
            assert(both.filter(is_seat(button)) =~= seq![1u8]);
            assert(both.filter(other_than(button)) =~= seq![0u8]);
        }
        assert(paid_order(amount, both, button) =~= seq![button, other]);
        lemma_pay_two(button, other, share, rem);
    } else {
        assert(paid_order(amount, both, button) == seq![0u8, 1u8]);
        lemma_pay_two(0u8, 1u8, share, rem);
    }
    assert(awards_for(pots, both, button) == pay_pot(seq![0u64, 0u64], amount, both, both, button));
}

} // verus!
