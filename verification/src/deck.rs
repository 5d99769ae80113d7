//! A shuffled 52-card deck.

use crate::card::{
    lemma_rank_val, lemma_val_rank, rank_of_val, rank_val, suit_idx, suit_of_idx, Card, Rank, Suit,
};
use crate::text::{decimal, u64_to_decimal};
use rand::Rng;
use rand_chacha::ChaCha12Rng;
use rand_core::SeedableRng;
use vstd::prelude::*;

verus! {

/// Number of cards in a full deck.
pub const DECK_SIZE: usize = 52;

#[verifier::external_type_specification]
#[verifier::external_body]
pub struct ExChaCha12Rng(ChaCha12Rng);

/// What `rand`'s `Rng::gen_range(0..=b)` returns on a `rand_chacha` `ChaCha12Rng` made by
/// `from_seed(seed)`, for `b` the last of `bounds`, after one earlier `gen_range(0..=c)` call
/// for each earlier entry `c` of `bounds`, on a machine whose `usize` has `word_bits` bits.
pub uninterp spec fn chacha_draw(seed: Seq<u8>, bounds: Seq<usize>, word_bits: u32) -> usize;

/// A `ChaCha12Rng` with the seed it was made from and the upper bounds of the draws made from
/// it so far.
struct ShuffleRng {
    rng: ChaCha12Rng,
    seed: Ghost<Seq<u8>>,
    bounds: Ghost<Seq<usize>>,
}

/// `rand_chacha`'s `ChaCha12Rng::from_seed`: a generator seeded with `seed`, with no draws made.
#[verifier::external_body]
fn seeded_rng(seed: [u8; 32]) -> (r: ShuffleRng)
    ensures
        r.seed@ == seed@,
        r.bounds@ == Seq::<usize>::empty(),
{
    ShuffleRng { rng: ChaCha12Rng::from_seed(seed), seed: Ghost(seed@), bounds: Ghost(Seq::empty()) }
}

/// `rand`'s `Rng::gen_range(0..=upper)` on the generator: a number in `0..=upper` (the range is
/// never empty, so the call does not panic), the one `chacha_draw` names for the generator's
/// seed and its draws so far followed by this one.
#[verifier::external_body]
fn draw_at_most(rng: &mut ShuffleRng, upper: usize) -> (j: usize)
    ensures
        j <= upper,
        j == chacha_draw(old(rng).seed@, old(rng).bounds@.push(upper), usize::BITS),
        final(rng).seed@ == old(rng).seed@,
        final(rng).bounds@ == old(rng).bounds@.push(upper),
{
    let j = rng.rng.gen_range(0..=upper);
    rng.bounds = Ghost(rng.bounds@.push(upper));
    j
}

/// `s` with the cards at positions `i` and `j` exchanged.
pub open spec fn swapped(s: Seq<Card>, i: int, j: int) -> Seq<Card> {
    s.update(i, s[j]).update(j, s[i])
}

/// The Fisher-Yates shuffle of `cards` from position `i` down to position 1: position `k` is
/// exchanged with the position drawn up to `k` from the generator seeded with `seed`, after the
/// draws whose bounds are `bounds`.
pub open spec fn shuffle_from(cards: Seq<Card>, seed: Seq<u8>, bounds: Seq<usize>, i: nat) -> Seq<Card>
    decreases i,
{
    if i == 0 {
        cards
    } else {
        let b = bounds.push(i as usize);
        shuffle_from(
            swapped(cards, i as int, chacha_draw(seed, b, usize::BITS) as int),
            seed,
            b,
            (i - 1) as nat,
        )
    }
}

/// The deck that `seed` gives: the unshuffled deck shuffled from its last position down.
pub open spec fn shuffled_deck(seed: Seq<u8>) -> Seq<Card> {
    shuffle_from(standard_deck(), seed, Seq::empty(), 51)
}

/// The unshuffled deck: ranks Two to Ace, each in Clubs, Diamonds, Hearts, Spades.
pub open spec fn standard_deck() -> Seq<Card> {
    Seq::new(52, |i: int| Card { rank: rank_of_val(i / 4 + 2), suit: suit_of_idx(i % 4) })
}

/// `cards` holds every card of the standard deck exactly once, in some order.
pub open spec fn is_full_deck(cards: Seq<Card>) -> bool {
    cards.to_multiset() == standard_deck().to_multiset()
}

/// Every draw from the generator seeded with `seed` lies within its bound, as `gen_range`
/// guarantees for each draw it makes.
pub open spec fn draws_in_range(seed: Seq<u8>) -> bool {
    forall|b: Seq<usize>| b.len() > 0 ==> #[trigger] chacha_draw(seed, b, usize::BITS) <= b.last()
}

/// Shuffling from position `i` down leaves the positions above `i` as they were.
proof fn lemma_shuffle_keeps_above(cards: Seq<Card>, seed: Seq<u8>, bounds: Seq<usize>, i: nat, p: int)
    requires
        draws_in_range(seed),
        i < cards.len() <= usize::MAX,
        i < p < cards.len(),
    ensures
        shuffle_from(cards, seed, bounds, i)[p] == cards[p],
        shuffle_from(cards, seed, bounds, i).len() == cards.len(),
    decreases i,
{
    if i > 0 {
        let b = bounds.push(i as usize);
        let j = chacha_draw(seed, b, usize::BITS);
        assert(b.last() == i as usize);
        let c2 = swapped(cards, i as int, j as int);
        lemma_shuffle_keeps_above(c2, seed, b, (i - 1) as nat, p);
    }
}

/// Each step of the shuffle settles a position for good: shuffling from position `i` down
/// leaves at position `i` the card that stood at the position the generator draws for `i`.
pub proof fn law_shuffle_step(cards: Seq<Card>, seed: Seq<u8>, bounds: Seq<usize>, i: nat)
    requires
        draws_in_range(seed),
        1 <= i < cards.len() <= usize::MAX,
    ensures
        shuffle_from(cards, seed, bounds, i)[i as int] == cards[chacha_draw(
            seed,
            bounds.push(i as usize),
            usize::BITS,
        ) as int],
{
    let b = bounds.push(i as usize);
    let j = chacha_draw(seed, b, usize::BITS);
    assert(b.last() == i as usize);
    let c2 = swapped(cards, i as int, j as int);
    lemma_shuffle_keeps_above(c2, seed, b, (i - 1) as nat, i as int);
}

/// The Fisher-Yates shuffle puts at the bottom of the deck (its last position) the card of the
/// unshuffled deck at the position of the seed's first draw, and never moves it again: the
/// deck is driven by the seed's draws.
pub proof fn law_shuffle_last_card(seed: Seq<u8>)
    requires
        draws_in_range(seed),
    ensures
        shuffled_deck(seed).len() == 52,
        shuffled_deck(seed)[51] == standard_deck()[chacha_draw(seed, seq![51usize], usize::BITS) as int],
{
    let b = Seq::<usize>::empty().push(51usize);
    assert(b =~= seq![51usize]);
    let j = chacha_draw(seed, b, usize::BITS);
    assert(j <= 51);
    let c2 = swapped(standard_deck(), 51, j as int);
    lemma_shuffle_keeps_above(c2, seed, b, 50, 51);
}

/// A deck of cards; the top card is the first one.
#[derive(Debug, Clone)]
pub struct Deck {
    cards: Vec<Card>,
}

impl View for Deck {
    type V = Seq<Card>;

    closed spec fn view(&self) -> Seq<Card> {
        self.cards@
    }
}

/// Message for a deck holding `n` cards, more than a full deck.
pub open spec fn too_many_cards_msg(n: nat) -> Seq<char> {
    "deck has too many cards: "@ + decimal(n)
}

impl Deck {
    /// A deck holding exactly `cards`, top card first.
    pub fn from_cards(cards: Vec<Card>) -> (d: Deck)
        ensures
            d@ == cards@,
    {
        Deck { cards }
    }

    /// The cards of the deck, top card first.
    pub fn cards(&self) -> (c: &Vec<Card>)
        ensures
            c@ == self@,
    {
        &self.cards
    }

    /// A full deck shuffled (Fisher-Yates) with a generator seeded by `seed`: the deck
    /// `shuffled_deck` names for the seed.
    pub fn new(seed: [u8; 32]) -> (d: Deck)
        ensures
            d@ == shuffled_deck(seed@),
            is_full_deck(d@),
            d@.len() == 52,
    {
        let mut rng = seeded_rng(seed);
        let suits = [Suit::Clubs, Suit::Diamonds, Suit::Hearts, Suit::Spades];
        let ranks = [
            Rank::Two,
            Rank::Three,
            Rank::Four,
            Rank::Five,
            Rank::Six,
            Rank::Seven,
            Rank::Eight,
            Rank::Nine,
            Rank::Ten,
            Rank::Jack,
            Rank::Queen,
            Rank::King,
            Rank::Ace,
        ];
        let mut cards: Vec<Card> = Vec::new();
        let mut r: usize = 0;
        while r < 13
            invariant
                r <= 13,
                cards@ == standard_deck().take(4 * r as int),
                forall|k: int| 0 <= k < 13 ==> rank_val(#[trigger] ranks@[k]) == k + 2,
                forall|k: int| 0 <= k < 4 ==> suit_idx(#[trigger] suits@[k]) == k,
            decreases 13 - r,
        {
            let mut s: usize = 0;
            while s < 4
                invariant
                    r < 13,
                    s <= 4,
                    cards@ == standard_deck().take(4 * r + s),
                    forall|k: int| 0 <= k < 13 ==> rank_val(#[trigger] ranks@[k]) == k + 2,
                    forall|k: int| 0 <= k < 4 ==> suit_idx(#[trigger] suits@[k]) == k,
                decreases 4 - s,
            {
                let card = Card { rank: ranks[r], suit: suits[s] };
                proof {
                    let i = 4 * r + s;
                    assert(i / 4 == r && i % 4 == s);
                    crate::card::lemma_rank_val(ranks@[r as int]);
                    assert(rank_of_val(i / 4 + 2) == ranks@[r as int]);
                    assert(suit_of_idx(i % 4) == suits@[s as int]);
                    assert(standard_deck().take(i + 1) =~= standard_deck().take(i).push(card));
                }
                cards.push(card);
                s = s + 1;
            }
            r = r + 1;
        }
        assert(cards@ =~= standard_deck());
        let n = cards.len();
        let mut i: usize = n - 1;
        while i >= 1
            invariant
                cards@.len() == 52,
                i < 52,
                cards@.to_multiset() == standard_deck().to_multiset(),
                rng.seed@ == seed@,
                shuffle_from(cards@, seed@, rng.bounds@, i as nat) == shuffled_deck(seed@),
            decreases i,
        {
            let ghost bounds_before = rng.bounds@;
            let j = draw_at_most(&mut rng, i);
            let ci = cards[i];
            let cj = cards[j];
            let ghost before = cards@;
            cards.set(i, cj);
            cards.set(j, ci);
            proof {
                broadcast use vstd::seq_lib::group_to_multiset_ensures;
                broadcast use vstd::multiset::group_multiset_axioms;
                let mid = before.update(i as int, cj);
                assert(mid.to_multiset() =~= before.to_multiset().insert(cj).remove(ci));
                assert(mid[j as int] == cj);
                assert(cards@.to_multiset() =~= mid.to_multiset().insert(ci).remove(mid[j as int]));
                assert(cards@ == swapped(before, i as int, j as int));
                assert(rng.bounds@ == bounds_before.push(i));
            }
            i = i - 1;
        }
        Deck { cards }
    }

    /// Takes the top card (the first one), if any.
    pub fn draw(&mut self) -> (c: Option<Card>)
        ensures
            old(self)@.len() == 0 ==> c is None && final(self)@ == old(self)@,
            old(self)@.len() > 0 ==> c == Some(old(self)@[0]) && final(self)@
                == old(self)@.drop_first(),
    {
        if self.cards.len() == 0 {
            None
        } else {
            Some(self.cards.remove(0))
        }
    }

    /// Number of cards left.
    pub fn remaining(&self) -> (n: usize)
        ensures
            n == self@.len(),
    {
        self.cards.len()
    }

    /// A deck may not hold more than 52 cards.
    pub fn validate(&self) -> (r: Result<(), String>)
        ensures
            self@.len() <= 52 ==> r is Ok,
            self@.len() > 52 ==> (r matches Err(m) && m@ == too_many_cards_msg(self@.len())),
    {
        if self.cards.len() > DECK_SIZE {
            return Err(
                String::from_str("deck has too many cards: ").concat(
                    u64_to_decimal(self.cards.len() as u64).as_str(),
                ),
            );
        }
        Ok(())
    }
}

/// The unshuffled deck holds no card twice.
proof fn lemma_standard_deck_distinct()
    ensures
        standard_deck().no_duplicates(),
{
    let d = standard_deck();
    assert forall|i: int, j: int| 0 <= i < d.len() && 0 <= j < d.len() && i != j implies d[i]
        != d[j] by {
        lemma_val_rank(i / 4 + 2);
        lemma_val_rank(j / 4 + 2);
        if i / 4 == j / 4 {
            assert(i % 4 != j % 4);
        }
    }
}

/// Every full deck, such as the one `Deck::new` makes, holds each of the 52 cards exactly once:
/// no card twice, and every rank in every suit.
pub proof fn law_full_deck_has_each_card_once(cards: Seq<Card>)
    requires
        is_full_deck(cards),
    ensures
        cards.len() == 52,
        cards.no_duplicates(),
        forall|c: Card| #[trigger] cards.contains(c),
{
    broadcast use vstd::multiset::group_multiset_axioms;

    let d = standard_deck();
    lemma_standard_deck_distinct();
    d.lemma_multiset_has_no_duplicates();
    cards.lemma_multiset_has_no_duplicates_conv();
    vstd::seq_lib::to_multiset_len(cards);
    vstd::seq_lib::to_multiset_len(d);
    assert forall|c: Card| #[trigger] cards.contains(c) by {
        lemma_rank_val(c.rank);
        let k = 4 * (rank_val(c.rank) - 2) + suit_idx(c.suit);
        assert(k / 4 == rank_val(c.rank) - 2 && k % 4 == suit_idx(c.suit));
        assert(d[k] == c);
        assert(d.contains(c));
        vstd::seq_lib::to_multiset_contains(d, c);
        vstd::seq_lib::to_multiset_contains(cards, c);
    }
}

} // verus!
