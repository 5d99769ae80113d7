//! Poker hand evaluation: categories and comparable scores.

use crate::card::{Card, Rank, rank_val, suit_idx, lemma_rank_val, lemma_val_rank, rank_of_val};
use vstd::prelude::*;
use vstd::relations::*;

verus! {

/// Category of a five-card poker hand, from weakest to strongest.
#[derive(Debug, Clone, Copy, PartialEq, Eq, Structural, PartialOrd, Ord, Hash)]
pub enum HandRank {
    HighCard,
    OnePair,
    TwoPair,
    ThreeOfAKind,
    Straight,
    Flush,
    FullHouse,
    FourOfAKind,
    StraightFlush,
    RoyalFlush,
}

/// Comparable strength of a hand: a higher score is a stronger hand.
pub type HandScore = u64;

/// Position of a category in the ranking (HighCard 0, ..., RoyalFlush 9).
pub open spec fn hand_rank_val(r: HandRank) -> int {
    match r {
        HandRank::HighCard => 0,
        HandRank::OnePair => 1,
        HandRank::TwoPair => 2,
        HandRank::ThreeOfAKind => 3,
        HandRank::Straight => 4,
        HandRank::Flush => 5,
        HandRank::FullHouse => 6,
        HandRank::FourOfAKind => 7,
        HandRank::StraightFlush => 8,
        HandRank::RoyalFlush => 9,
    }
}

/// The category at position `v` of the ranking (HighCard for anything outside 1..=9).
pub open spec fn hand_rank_of_val(v: int) -> HandRank {
    if v == 1 {
        HandRank::OnePair
    } else if v == 2 {
        HandRank::TwoPair
    } else if v == 3 {
        HandRank::ThreeOfAKind
    } else if v == 4 {
        HandRank::Straight
    } else if v == 5 {
        HandRank::Flush
    } else if v == 6 {
        HandRank::FullHouse
    } else if v == 7 {
        HandRank::FourOfAKind
    } else if v == 8 {
        HandRank::StraightFlush
    } else if v == 9 {
        HandRank::RoyalFlush
    } else {
        HandRank::HighCard
    }
}

impl HandRank {
    /// Position of the category in the ranking (HighCard 0, ..., RoyalFlush 9).
    pub fn value(&self) -> (v: u8)
        ensures
            v == hand_rank_val(*self),
    {
        match self {
            HandRank::HighCard => 0,
            HandRank::OnePair => 1,
            HandRank::TwoPair => 2,
            HandRank::ThreeOfAKind => 3,
            HandRank::Straight => 4,
            HandRank::Flush => 5,
            HandRank::FullHouse => 6,
            HandRank::FourOfAKind => 7,
            HandRank::StraightFlush => 8,
            HandRank::RoyalFlush => 9,
        }
    }
}

/// Number of cards in `cards` whose rank has value `v`.
pub open spec fn count_val(cards: Seq<Card>, v: int) -> nat
    decreases cards.len(),
{
    if cards.len() == 0 {
        0
    } else {
        count_val(cards.drop_last(), v) + if rank_val(cards.last().rank) == v {
            1nat
        } else {
            0nat
        }
    }
}

/// Number of cards in `cards` whose suit has index `i`.
pub open spec fn count_suit(cards: Seq<Card>, i: int) -> nat
    decreases cards.len(),
{
    if cards.len() == 0 {
        0
    } else {
        count_suit(cards.drop_last(), i) + if suit_idx(cards.last().suit) == i {
            1nat
        } else {
            0nat
        }
    }
}

/// Some card of `cards` has a rank of value `v`.
pub open spec fn has_val(cards: Seq<Card>, v: int) -> bool {
    count_val(cards, v) > 0
}

/// At least five cards, and at least five of them share a suit.
pub open spec fn is_flush_spec(cards: Seq<Card>) -> bool {
    &&& cards.len() >= 5
    &&& exists|i: int| 0 <= i < 4 && #[trigger] count_suit(cards, i) >= 5
}

/// All five values `lo, ..., lo + 4` occur in `cards`.
pub open spec fn has_run_from(cards: Seq<Card>, lo: int) -> bool {
    forall|v: int| lo <= v < lo + 5 ==> #[trigger] has_val(cards, v)
}

/// Ace, Two, Three, Four and Five all occur in `cards` (the "wheel").
pub open spec fn has_wheel(cards: Seq<Card>) -> bool {
    has_val(cards, 14) && has_val(cards, 2) && has_val(cards, 3) && has_val(cards, 4) && has_val(
        cards,
        5,
    )
}

/// At least five cards, and five consecutive values occur (Ace counts high, or low in the wheel).
pub open spec fn is_straight_spec(cards: Seq<Card>) -> bool {
    &&& cards.len() >= 5
    &&& (exists|lo: int| 2 <= lo <= 10 && #[trigger] has_run_from(cards, lo)) || has_wheel(cards)
}

proof fn lemma_count_val_push(s: Seq<Card>, c: Card, v: int)
    ensures
        count_val(s.push(c), v) == count_val(s, v) + if rank_val(c.rank) == v {
            1nat
        } else {
            0nat
        },
{
    assert(s.push(c).drop_last() =~= s);
}

proof fn lemma_count_suit_push(s: Seq<Card>, c: Card, i: int)
    ensures
        count_suit(s.push(c), i) == count_suit(s, i) + if suit_idx(c.suit) == i {
            1nat
        } else {
            0nat
        },
{
    assert(s.push(c).drop_last() =~= s);
}

proof fn lemma_count_val_bounds(s: Seq<Card>, v: int)
    ensures
        count_val(s, v) <= s.len(),
        (v < 2 || v > 14) ==> count_val(s, v) == 0,
    decreases s.len(),
{
    if s.len() > 0 {
        lemma_count_val_bounds(s.drop_last(), v);
        lemma_rank_val(s.last().rank);
    }
}

/// Per-value rank counts: entry `v` is the number of cards of value `v` (entries 0..=14).
fn value_counts(cards: &[Card]) -> (counts: Vec<usize>)
    ensures
        counts@.len() == 15,
        forall|v: int| 0 <= v < 15 ==> #[trigger] counts@[v] == count_val(cards@, v),
{
    let mut counts: Vec<usize> = vec![0usize; 15];
    let n = cards.len();
    let mut i: usize = 0;
    while i < n
        invariant
            n == cards@.len(),
            i <= n,
            counts@.len() == 15,
            forall|v: int| 0 <= v < 15 ==> #[trigger] counts@[v] == count_val(cards@.take(i as int), v),
        decreases n - i,
    {
        let c = cards[i];
        let v = c.rank.value() as usize;
        proof {
            lemma_rank_val(c.rank);
            assert forall|w: int| 0 <= w < 15 implies count_val(cards@.take(i as int), w) <= i by {
                lemma_count_val_bounds(cards@.take(i as int), w);
            }
            assert(cards@.take(i + 1) =~= cards@.take(i as int).push(c));
            assert forall|w: int| 0 <= w < 15 implies count_val(cards@.take(i + 1), w)
                == count_val(cards@.take(i as int), w) + if rank_val(c.rank) == w {
                1nat
            } else {
                0nat
            } by {
                lemma_count_val_push(cards@.take(i as int), c, w);
            }
        }
        let old_count = counts[v];
        counts.set(v, old_count + 1);
        i = i + 1;
    }
    assert(cards@.take(n as int) =~= cards@);
    counts
}

/// True when at least five of the cards share a suit (and there are at least five cards).
fn is_flush(cards: &[Card]) -> (b: bool)
    ensures
        b == is_flush_spec(cards@),
{
    if cards.len() < 5 {
        return false;
    }
    let mut suit_counts: Vec<usize> = vec![0usize; 4];
    let n = cards.len();
    let mut i: usize = 0;
    while i < n
        invariant
            n == cards@.len(),
            i <= n,
            suit_counts@.len() == 4,
            forall|s: int| 0 <= s < 4 ==> #[trigger] suit_counts@[s] == count_suit(cards@.take(i as int), s),
            forall|s: int| 0 <= s < 4 ==> #[trigger] suit_counts@[s] <= i,
        decreases n - i,
    {
        let c = cards[i];
        let s = c.suit.index();
        proof {
            assert(cards@.take(i + 1) =~= cards@.take(i as int).push(c));
            assert forall|t: int| 0 <= t < 4 implies count_suit(cards@.take(i + 1), t)
                == count_suit(cards@.take(i as int), t) + if suit_idx(c.suit) == t {
                1nat
            } else {
                0nat
            } by {
                lemma_count_suit_push(cards@.take(i as int), c, t);
            }
        }
        let old_count = suit_counts[s];
        suit_counts.set(s, old_count + 1);
        i = i + 1;
    }
    assert(cards@.take(n as int) =~= cards@);
    let any = suit_counts[0] >= 5 || suit_counts[1] >= 5 || suit_counts[2] >= 5 || suit_counts[3] >= 5;
    proof {
        if any {
            if suit_counts@[0] >= 5 {
                assert(count_suit(cards@, 0) >= 5);
            } else if suit_counts@[1] >= 5 {
                assert(count_suit(cards@, 1) >= 5);
            } else if suit_counts@[2] >= 5 {
                assert(count_suit(cards@, 2) >= 5);
            } else {
                assert(count_suit(cards@, 3) >= 5);
            }
        }
    }
    any
}

/// True when five consecutive values occur among the cards (Ace high, or the A-2-3-4-5 wheel).
fn is_straight(cards: &[Card]) -> (b: bool)
    ensures
        b == is_straight_spec(cards@),
{
    if cards.len() < 5 {
        return false;
    }
    let counts = value_counts(cards);
    let mut consecutive: usize = 0;
    let mut v: usize = 2;
    while v <= 14
        invariant
            2 <= v <= 15,
            cards@.len() >= 5,
            counts@.len() == 15,
            forall|w: int| 0 <= w < 15 ==> #[trigger] counts@[w] == count_val(cards@, w),
            consecutive < 5,
            consecutive <= v - 2,
            forall|k: int| v - consecutive <= k < v ==> #[trigger] has_val(cards@, k),
            v - consecutive - 1 >= 2 ==> !has_val(cards@, v - consecutive - 1),
            forall|lo: int| 2 <= lo && lo + 5 <= v ==> !#[trigger] has_run_from(cards@, lo),
        decreases 15 - v,
    {
        let old_v = v;
        if counts[v] > 0 {
            consecutive = consecutive + 1;
            if consecutive >= 5 {
                proof {
                    let lo = v - 4;
                    assert forall|w: int| lo <= w < lo + 5 implies #[trigger] has_val(cards@, w) by {
                        if w < v {
                        }
                    }
                    assert(has_run_from(cards@, lo));
                }
                return true;
            }
        } else {
            consecutive = 0;
        }
        v = v + 1;
        proof {
            assert forall|lo: int| 2 <= lo && lo + 5 <= v implies !#[trigger] has_run_from(cards@, lo) by {
                if lo + 5 == v {
                    if counts@[old_v as int] > 0 {
                        let m = v - consecutive - 1;
                        assert(!has_val(cards@, m));
                    } else {
                        assert(!has_val(cards@, old_v as int));
                    }
                }
            }
        }
    }
    let wheel = counts[14] > 0 && counts[2] > 0 && counts[3] > 0 && counts[4] > 0 && counts[5] > 0;
    proof {
        assert forall|lo: int| 2 <= lo <= 10 implies !#[trigger] has_run_from(cards@, lo) by {}
    }
    wheel
}

/// Candidate (count, value) keys `16 * count + value`, in decreasing order, for hands of `n` cards.
pub open spec fn group_keys(n: int) -> Seq<int> {
    Seq::new((16 * (n + 1)) as nat, |i: int| 16 * (n + 1) - 1 - i)
}

/// Key `k` stands for a value `k % 16` that occurs exactly `k / 16` (at least once) times.
pub open spec fn is_group_key(cards: Seq<Card>, k: int) -> bool {
    let v = k % 16;
    let c = k / 16;
    2 <= v <= 14 && c >= 1 && count_val(cards, v) == c
}

/// The (rank, multiplicity) pair that key `k` stands for.
pub open spec fn group_of_key(k: int) -> (Rank, u8) {
    (rank_of_val(k % 16), (k / 16) as u8)
}

/// The ranks that occur in `cards` with their multiplicities, most frequent first and, among
/// equally frequent ranks, highest first.
pub open spec fn rank_groups(cards: Seq<Card>) -> Seq<(Rank, u8)> {
    group_keys(cards.len() as int).filter(|k: int| is_group_key(cards, k)).map_values(
        |k: int| group_of_key(k),
    )
}

/// The values of the cards, in the order of the cards.
pub open spec fn card_values(cards: Seq<Card>) -> Seq<int> {
    cards.map_values(|c: Card| rank_val(c.rank))
}

/// "Greater than or equal": the order of a descending sort.
pub open spec fn geq() -> spec_fn(int, int) -> bool {
    |a: int, b: int| a >= b
}

/// The values of the cards sorted from highest to lowest.
pub open spec fn desc_values(cards: Seq<Card>) -> Seq<int> {
    card_values(cards).sort_by(geq())
}

proof fn lemma_geq_total()
    ensures
        total_ordering(geq()),
{
}

/// The order key of a (rank, multiplicity) group: multiplicity first, then rank value.
pub open spec fn group_key(g: (Rank, u8)) -> int {
    g.1 as int * 16 + rank_val(g.0)
}

proof fn lemma_count_val_contains(cards: Seq<Card>, v: int)
    requires
        count_val(cards, v) >= 1,
    ensures
        card_values(cards).contains(v),
    decreases cards.len(),
{
    if rank_val(cards.last().rank) == v {
        assert(card_values(cards)[cards.len() - 1] == v);
    } else {
        lemma_count_val_contains(cards.drop_last(), v);
        let k = choose|k: int| 0 <= k < card_values(cards.drop_last()).len() && card_values(cards.drop_last())[k] == v;
        assert(card_values(cards)[k] == v);
    }
}

proof fn lemma_distinct_values_bound(gv: Seq<int>, cv: Seq<int>)
    requires
        gv.no_duplicates(),
        forall|i: int| 0 <= i < gv.len() ==> cv.contains(#[trigger] gv[i]),
    ensures
        gv.len() <= cv.len(),
{
    broadcast use vstd::set::group_set_axioms;
    gv.unique_seq_to_set();
    cv.lemma_cardinality_of_set();
    assert(gv.to_set().subset_of(cv.to_set())) by {
        assert forall|x: int| gv.to_set().contains(x) implies cv.to_set().contains(x) by {
            let i = choose|i: int| 0 <= i < gv.len() && gv[i] == x;
            assert(cv.contains(gv[i]));
        }
    }
    vstd::set_lib::lemma_len_subset(gv.to_set(), cv.to_set());
}

/// Groups each rank with its multiplicity, most frequent first, then highest first.
fn count_ranks(cards: &[Card]) -> (groups: Vec<(Rank, u8)>)
    requires
        cards@.len() <= 255,
    ensures
        groups@ == rank_groups(cards@),
        groups@.len() <= cards@.len(),
        forall|i: int|
            0 <= i < groups@.len() ==> #[trigger] groups@[i].1 >= 1 && groups@[i].1 as int
                == count_val(cards@, rank_val(groups@[i].0)),
        forall|i: int, j: int|
            0 <= i < j < groups@.len() ==> group_key(#[trigger] groups@[i]) > group_key(
                #[trigger] groups@[j],
            ),
{
    let counts = value_counts(cards);
    let n = cards.len();
    let total: usize = 16 * (n + 1);
    let ghost keys = group_keys(n as int);
    let ghost p = |k: int| is_group_key(cards@, k);
    let ghost g = |k: int| group_of_key(k);
    let mut result: Vec<(Rank, u8)> = Vec::new();
    let mut idx: usize = 0;
    assert(keys.take(0) =~= Seq::<int>::empty());
    assert(keys.take(0).filter(p) =~= Seq::<int>::empty()) by {
        reveal(Seq::filter);
    }
    while idx < total
        invariant
            n == cards@.len(),
            n <= 255,
            total == 16 * (n + 1),
            keys == group_keys(n as int),
            keys.len() == total,
            p == (|k: int| is_group_key(cards@, k)),
            g == (|k: int| group_of_key(k)),
            idx <= total,
            counts@.len() == 15,
            forall|w: int| 0 <= w < 15 ==> #[trigger] counts@[w] == count_val(cards@, w),
            result@ == keys.take(idx as int).filter(p).map_values(g),
            forall|i: int|
                0 <= i < result@.len() ==> #[trigger] result@[i].1 >= 1 && result@[i].1 as int
                    == count_val(cards@, rank_val(result@[i].0)) && 2 <= rank_val(result@[i].0)
                    <= 14 && group_key(result@[i]) > total - 1 - idx,
            forall|i: int, j: int|
                0 <= i < j < result@.len() ==> group_key(#[trigger] result@[i]) > group_key(
                    #[trigger] result@[j],
                ),
        decreases total - idx,
    {
        let k: usize = total - 1 - idx;
        let v: usize = k % 16;
        let c: usize = k / 16;
        assert(keys[idx as int] == k);
        assert(keys.take(idx + 1) =~= keys.take(idx as int).push(k as int));
        proof {
            keys.take(idx as int).lemma_filter_push(k as int, p);
        }
        if 2 <= v && v <= 14 && c >= 1 && counts[v] == c {
            proof {
                lemma_count_val_bounds(cards@, v as int);
                keys.take(idx as int).filter(p).lemma_push_map_commute(g, k as int);
                lemma_val_rank(v as int);
            }
            let rank = match Rank::from_value(v as u8) {
                Some(r) => r,
                None => Rank::Two,
            };
            result.push((rank, c as u8));
        }
        idx = idx + 1;
    }
    assert(keys.take(total as int) =~= keys);
    proof {
        let gv = result@.map_values(|gr: (Rank, u8)| rank_val(gr.0));
        assert forall|i: int, j: int| 0 <= i < gv.len() && 0 <= j < gv.len() && i != j implies gv[i]
            != gv[j] by {
            if i < j {
                assert(group_key(result@[i]) > group_key(result@[j]));
            } else {
                assert(group_key(result@[j]) > group_key(result@[i]));
            }
        }
        assert forall|i: int| 0 <= i < gv.len() implies card_values(cards@).contains(gv[i]) by {
            assert(result@[i].1 >= 1);
            lemma_count_val_contains(cards@, gv[i]);
        }
        lemma_distinct_values_bound(gv, card_values(cards@));
    }
    result
}

/// A sequence of bytes read as integers.
pub open spec fn ints(s: Seq<u8>) -> Seq<int> {
    s.map_values(|x: u8| x as int)
}

/// The values of the cards sorted from highest to lowest.
fn sorted_values_desc(cards: &[Card]) -> (values: Vec<u8>)
    ensures
        ints(values@) == desc_values(cards@),
        values@.len() == cards@.len(),
{
    let n = cards.len();
    let mut sorted: Vec<u8> = Vec::new();
    let ghost vals = card_values(cards@);
    let mut i: usize = 0;
    proof {
        broadcast use vstd::seq_lib::group_to_multiset_ensures;
        assert(ints(sorted@) =~= Seq::<int>::empty());
        assert(vals.take(0) =~= Seq::<int>::empty());
    }
    while i < n
        invariant
            n == cards@.len(),
            vals == card_values(cards@),
            i <= n,
            sorted@.len() == i,
            sorted_by(ints(sorted@), geq()),
            ints(sorted@).to_multiset() == vals.take(i as int).to_multiset(),
        decreases n - i,
    {
        let x = cards[i].rank.value();
        let mut p: usize = 0;
        while p < sorted.len() && sorted[p] >= x
            invariant
                p <= sorted@.len(),
                forall|q: int| 0 <= q < p ==> sorted@[q] >= x,
            decreases sorted@.len() - p,
        {
            p = p + 1;
        }
        let ghost before = sorted@;
        sorted.insert(p, x);
        proof {
            let bm = ints(before);
            assert(ints(sorted@) =~= bm.insert(p as int, x as int));
            vstd::seq_lib::to_multiset_insert(bm, p as int, x as int);
            assert(vals.take(i + 1) =~= vals.take(i as int).push(x as int));
            vstd::seq_lib::to_multiset_build(vals.take(i as int), x as int);
            assert forall|a: int, b: int| 0 <= a < b < sorted@.len() implies #[trigger] geq()(
                ints(sorted@)[a],
                ints(sorted@)[b],
            ) by {
                if b < p {
                    assert(geq()(bm[a], bm[b]));
                } else if b == p {
                    assert(before[a] >= x);
                } else if a < p {
                    if p < before.len() {
                        assert(geq()(bm[a], bm[p as int]));
                    }
                    assert(geq()(bm[a], bm[b - 1]));
                } else if a == p {
                    assert(geq()(bm[p as int], bm[b - 1]) || p == b - 1);
                } else {
                    assert(geq()(bm[a - 1], bm[b - 1]));
                }
            }
        }
        i = i + 1;
    }
    proof {
        assert(vals.take(n as int) =~= vals);
        lemma_geq_total();
        vals.lemma_sort_by_ensures(geq());
        vstd::seq_lib::lemma_sorted_unique(
            ints(sorted@),
            vals.sort_by(geq()),
            geq(),
        );
    }
    sorted
}

/// Values packed four bits each, first value in the most significant position.
pub open spec fn pack(vals: Seq<int>) -> int
    decreases vals.len(),
{
    if vals.len() == 0 {
        0
    } else {
        pack(vals.drop_last()) * 16 + vals.last()
    }
}

/// Top card of a straight given its values sorted from highest to lowest: Five for the wheel.
pub open spec fn straight_high(vals: Seq<int>) -> int {
    if vals.contains(14) && vals.contains(5) {
        5
    } else {
        vals[0]
    }
}

/// Value of the rank of group `i`.
pub open spec fn gval(g: Seq<(Rank, u8)>, i: int) -> int {
    rank_val(g[i].0)
}

/// Values of the groups from index `from` on.
pub open spec fn gvals_from(g: Seq<(Rank, u8)>, from: int) -> Seq<int> {
    g.subrange(from, g.len() as int).map_values(|gr: (Rank, u8)| rank_val(gr.0))
}

/// The category of a five-card hand (HighCard when there are not exactly five cards).
pub open spec fn rank5(cards: Seq<Card>) -> HandRank {
    let g = rank_groups(cards);
    let fl = is_flush_spec(cards);
    let st = is_straight_spec(cards);
    if cards.len() != 5 {
        HandRank::HighCard
    } else if fl && st {
        if desc_values(cards) == seq![14int, 13, 12, 11, 10] {
            HandRank::RoyalFlush
        } else {
            HandRank::StraightFlush
        }
    } else if g.len() == 0 {
        HandRank::HighCard
    } else if g[0].1 == 4 {
        HandRank::FourOfAKind
    } else if g[0].1 == 3 {
        if g.len() > 1 && g[1].1 >= 2 {
            HandRank::FullHouse
        } else {
            HandRank::ThreeOfAKind
        }
    } else if g[0].1 == 2 {
        if g.len() > 1 && g[1].1 == 2 {
            HandRank::TwoPair
        } else {
            HandRank::OnePair
        }
    } else if fl {
        HandRank::Flush
    } else if st {
        HandRank::Straight
    } else {
        HandRank::HighCard
    }
}

/// Weight of the category digit of a score.
pub open spec fn cat_w() -> int {
    0x100000
}

/// The score of a five-card hand (0 when there are not exactly five cards): the category times
/// 2^20, plus the ranks that break ties within the category, most significant first.
pub open spec fn score5(cards: Seq<Card>) -> int {
    let g = rank_groups(cards);
    let fl = is_flush_spec(cards);
    let st = is_straight_spec(cards);
    let vals = desc_values(cards);
    if cards.len() != 5 {
        0
    } else if fl && st {
        if vals == seq![14int, 13, 12, 11, 10] {
            9 * cat_w()
        } else {
            8 * cat_w() + straight_high(vals) * 0x10000
        }
    } else if g.len() == 0 {
        0
    } else if g[0].1 == 4 {
        7 * cat_w() + gval(g, 0) * 0x10000 + (if g.len() > 1 {
            gval(g, 1)
        } else {
            0
        }) * 0x1000
    } else if g[0].1 == 3 && g.len() > 1 && g[1].1 >= 2 {
        6 * cat_w() + gval(g, 0) * 0x10000 + gval(g, 1) * 0x1000
    } else if fl {
        5 * cat_w() + pack(vals)
    } else if st {
        4 * cat_w() + straight_high(vals) * 0x10000
    } else if g[0].1 == 3 {
        3 * cat_w() + gval(g, 0) * 0x10000 + pack(gvals_from(g, 1))
    } else if g[0].1 == 2 && g.len() > 1 && g[1].1 == 2 {
        let hi = if gval(g, 0) >= gval(g, 1) {
            gval(g, 0)
        } else {
            gval(g, 1)
        };
        let lo = if gval(g, 0) >= gval(g, 1) {
            gval(g, 1)
        } else {
            gval(g, 0)
        };
        2 * cat_w() + hi * 0x10000 + lo * 0x1000 + (if g.len() > 2 {
            gval(g, 2)
        } else {
            0
        }) * 0x100
    } else if g[0].1 == 2 {
        1 * cat_w() + gval(g, 0) * 0x10000 + pack(gvals_from(g, 1))
    } else {
        pack(vals)
    }
}

/// Whether `x` occurs in `values`.
fn contains_value(values: &Vec<u8>, x: u8) -> (b: bool)
    ensures
        b == ints(values@).contains(x as int),
{
    let mut i: usize = 0;
    while i < values.len()
        invariant
            i <= values@.len(),
            forall|j: int| 0 <= j < i ==> values@[j] != x,
        decreases values@.len() - i,
    {
        if values[i] == x {
            assert(ints(values@)[i as int] == x as int);
            return true;
        }
        i = i + 1;
    }
    proof {
        if ints(values@).contains(x as int) {
            let j = choose|j: int| 0 <= j < ints(values@).len() && ints(values@)[j] == x as int;
            assert(values@[j] == x);
        }
    }
    false
}

/// Whether `values` is exactly 14, 13, 12, 11, 10.
fn is_broadway_desc(values: &Vec<u8>) -> (b: bool)
    ensures
        b == (ints(values@) == seq![14int, 13, 12, 11, 10]),
{
    let b = values.len() == 5 && values[0] == 14 && values[1] == 13 && values[2] == 12 && values[3]
        == 11 && values[4] == 10;
    proof {
        if b {
            assert(ints(values@) =~= seq![14int, 13, 12, 11, 10]);
        }
        if ints(values@) == seq![14int, 13, 12, 11, 10] {
            assert(ints(values@).len() == 5);
            assert(ints(values@)[0] == 14 && ints(values@)[4] == 10);
            assert(ints(values@)[1] == 13 && ints(values@)[2] == 12 && ints(values@)[3] == 11);
        }
    }
    b
}

/// Packs the given values four bits each, first value most significant.
fn pack_values(values: &Vec<u8>) -> (packed: u64)
    requires
        values@.len() <= 5,
        forall|i: int| 0 <= i < values@.len() ==> #[trigger] values@[i] < 16,
    ensures
        packed == pack(ints(values@)),
        packed < 0x100000,
{
    let mut acc: u64 = 0;
    let mut i: usize = 0;
    while i < values.len()
        invariant
            i <= values@.len() <= 5,
            forall|j: int| 0 <= j < values@.len() ==> #[trigger] values@[j] < 16,
            acc == pack(ints(values@).take(i as int)),
            acc < pow16(i as nat),
        decreases values@.len() - i,
    {
        proof {
            assert(ints(values@).take(i + 1).drop_last() =~= ints(values@).take(i as int));
            lemma_pow16_bound(i as nat);
        }
        acc = acc * 16 + values[i] as u64;
        i = i + 1;
    }
    assert(ints(values@).take(i as int) =~= ints(values@));
    proof {
        lemma_pow16_bound(i as nat);
    }
    acc
}

/// 16 to the power `k`.
pub open spec fn pow16(k: nat) -> int
    decreases k,
{
    if k == 0 {
        1
    } else {
        16 * pow16((k - 1) as nat)
    }
}

proof fn lemma_pow16_bound(k: nat)
    requires
        k <= 5,
    ensures
        pow16(k) <= 0x100000,
        1 <= pow16(k),
{
    reveal_with_fuel(pow16, 6);
}

/// Values of the groups from index `from` on, in group order.
fn group_values_from(groups: &Vec<(Rank, u8)>, from: usize) -> (values: Vec<u8>)
    requires
        from <= groups@.len(),
    ensures
        ints(values@) == gvals_from(groups@, from as int),
        values@.len() == groups@.len() - from,
        forall|i: int| 0 <= i < values@.len() ==> #[trigger] values@[i] < 16,
{
    let mut values: Vec<u8> = Vec::new();
    let mut i: usize = from;
    while i < groups.len()
        invariant
            from <= i <= groups@.len(),
            values@.len() == i - from,
            forall|j: int| 0 <= j < values@.len() ==> #[trigger] values@[j] < 16,
            forall|j: int|
                0 <= j < values@.len() ==> #[trigger] values@[j] as int == rank_val(groups@[from + j].0),
        decreases groups@.len() - i,
    {
        let v = groups[i].0.value();
        proof {
            lemma_rank_val(groups@[i as int].0);
        }
        values.push(v);
        i = i + 1;
    }
    assert(ints(values@) =~= gvals_from(groups@, from as int));
    values
}

/// The category of exactly five cards; HighCard for any other number of cards.
fn evaluate_5card_hand(cards: &[Card]) -> (rank: HandRank)
    ensures
        rank == rank5(cards@),
{
    if cards.len() != 5 {
        return HandRank::HighCard;
    }
    let counts = count_ranks(cards);
    let flush = is_flush(cards);
    let straight = is_straight(cards);
    if flush && straight {
        let values = sorted_values_desc(cards);
        if is_broadway_desc(&values) {
            return HandRank::RoyalFlush;
        }
        return HandRank::StraightFlush;
    }
    if counts.len() == 0 {
        return HandRank::HighCard;
    }
    let top = counts[0].1;
    if top == 4 {
        HandRank::FourOfAKind
    } else if top == 3 {
        if counts.len() > 1 && counts[1].1 >= 2 {
            HandRank::FullHouse
        } else {
            HandRank::ThreeOfAKind
        }
    } else if top == 2 {
        if counts.len() > 1 && counts[1].1 == 2 {
            HandRank::TwoPair
        } else {
            HandRank::OnePair
        }
    } else if flush {
        HandRank::Flush
    } else if straight {
        HandRank::Straight
    } else {
        HandRank::HighCard
    }
}

/// Numeric value of a rank (Two = 2, ..., Ace = 14), widened for score arithmetic.
fn rank_value(rank: Rank) -> (v: u64)
    ensures
        v == rank_val(rank),
{
    rank.value() as u64
}

/// The score of exactly five cards; 0 for any other number of cards.
fn evaluate_5card_score(cards: &[Card]) -> (score: HandScore)
    ensures
        score == score5(cards@),
        score < 10 * cat_w(),
{
    if cards.len() != 5 {
        return 0;
    }
    let counts = count_ranks(cards);
    let flush = is_flush(cards);
    let straight = is_straight(cards);
    let values = sorted_values_desc(cards);
    proof {
        assert forall|i: int| 0 <= i < values@.len() implies #[trigger] values@[i] < 16 by {
            let cv = card_values(cards@);
            lemma_geq_total();
            cv.lemma_sort_by_ensures(geq());
            assert(cv.sort_by(geq())[i] == ints(values@)[i]);
            vstd::seq_lib::to_multiset_contains(cv.sort_by(geq()), ints(values@)[i]);
            vstd::seq_lib::to_multiset_contains(cv, ints(values@)[i]);
            let k = choose|k: int| 0 <= k < cv.len() && cv[k] == ints(values@)[i];
            lemma_rank_val(cards@[k].rank);
        }
    }
    let high: u64 = if contains_value(&values, 14) && contains_value(&values, 5) {
        5
    } else {
        values[0] as u64
    };
    if flush && straight {
        if is_broadway_desc(&values) {
            return 9 * 0x100000;
        }
        return 8 * 0x100000 + high * 0x10000;
    }
    if counts.len() == 0 {
        return 0;
    }
    proof {
        assert forall|i: int| 0 <= i < counts@.len() implies 2 <= #[trigger] rank_val(counts@[i].0) <= 14 by {
            lemma_rank_val(counts@[i].0);
        }
    }
    let top_count = counts[0].1;
    let top_value = rank_value(counts[0].0);
    if top_count == 4 {
        let kicker: u64 = if counts.len() > 1 {
            rank_value(counts[1].0)
        } else {
            0
        };
        return 7 * 0x100000 + top_value * 0x10000 + kicker * 0x1000;
    }
    if top_count == 3 && counts.len() > 1 && counts[1].1 >= 2 {
        let pair_value = rank_value(counts[1].0);
        return 6 * 0x100000 + top_value * 0x10000 + pair_value * 0x1000;
    }
    if flush {
        let packed = pack_values(&values);
        return 5 * 0x100000 + packed;
    }
    if straight {
        return 4 * 0x100000 + high * 0x10000;
    }
    if top_count == 3 {
        let kickers = group_values_from(&counts, 1);
        let packed = pack_values(&kickers);
        return 3 * 0x100000 + top_value * 0x10000 + packed;
    }
    if top_count == 2 && counts.len() > 1 && counts[1].1 == 2 {
        let second_value = rank_value(counts[1].0);
        let high_pair = if top_value >= second_value {
            top_value
        } else {
            second_value
        };
        let low_pair = if top_value >= second_value {
            second_value
        } else {
            top_value
        };
        let kicker: u64 = if counts.len() > 2 {
            rank_value(counts[2].0)
        } else {
            0
        };
        return 2 * 0x100000 + high_pair * 0x10000 + low_pair * 0x1000 + kicker * 0x100;
    }
    if top_count == 2 {
        let kickers = group_values_from(&counts, 1);
        let packed = pack_values(&kickers);
        return 1 * 0x100000 + top_value * 0x10000 + packed;
    }
    pack_values(&values)
}

/// The five cards at positions `i, j, k, l, m`.
pub open spec fn combo(cards: Seq<Card>, i: int, j: int, k: int, l: int, m: int) -> Seq<Card> {
    seq![cards[i], cards[j], cards[k], cards[l], cards[m]]
}

/// The score (`by_score`) or the category position of the five cards at `i, j, k, l, m`.
pub open spec fn combo_value(
    cards: Seq<Card>,
    i: int,
    j: int,
    k: int,
    l: int,
    m: int,
    by_score: bool,
) -> int {
    if by_score {
        score5(combo(cards, i, j, k, l, m))
    } else {
        hand_rank_val(rank5(combo(cards, i, j, k, l, m)))
    }
}

/// `r` is the best value over all five-card choices `i < j < k < l < m` from `cards`
/// (and 0 when fewer than five cards are given).
pub open spec fn is_best_value(cards: Seq<Card>, r: int, by_score: bool) -> bool {
    let n = cards.len() as int;
    &&& forall|i: int, j: int, k: int, l: int, m: int|
        0 <= i < j < k < l < m < n ==> #[trigger] combo_value(cards, i, j, k, l, m, by_score) <= r
    &&& n < 5 ==> r == 0
    &&& n >= 5 ==> exists|i: int, j: int, k: int, l: int, m: int|
        0 <= i < j < k < l < m < n && #[trigger] combo_value(cards, i, j, k, l, m, by_score) == r
}

fn combo_value_exec(
    cards: &[Card],
    i: usize,
    j: usize,
    k: usize,
    l: usize,
    m: usize,
    by_score: bool,
) -> (v: u64)
    requires
        i < j < k < l < m < cards@.len(),
    ensures
        v == combo_value(cards@, i as int, j as int, k as int, l as int, m as int, by_score),
{
    let hand = vec![cards[i], cards[j], cards[k], cards[l], cards[m]];
    assert(hand@ =~= combo(cards@, i as int, j as int, k as int, l as int, m as int));
    if by_score {
        evaluate_5card_score(hand.as_slice())
    } else {
        evaluate_5card_hand(hand.as_slice()).value() as u64
    }
}

fn best_over_m(cards: &[Card], i: usize, j: usize, k: usize, l: usize, by_score: bool, best: u64) -> (r: u64)
    requires
        i < j < k < l < cards@.len(),
    ensures
        r >= best,
        forall|m: int|
            l < m < cards@.len() ==> #[trigger] combo_value(cards@, i as int, j as int, k as int, l as int, m, by_score) <= r,
        r == best || exists|m: int|
            l < m < cards@.len() && #[trigger] combo_value(cards@, i as int, j as int, k as int, l as int, m, by_score) == r,
{
    let n = cards.len();
    let mut b = best;
    let mut m = l + 1;
    while m < n
        invariant
            n == cards@.len(),
            i < j < k < l < m <= n,
            b >= best,
            forall|mm: int|
                l < mm < m ==> #[trigger] combo_value(cards@, i as int, j as int, k as int, l as int, mm, by_score) <= b,
            b == best || exists|mm: int|
                l < mm < m && #[trigger] combo_value(cards@, i as int, j as int, k as int, l as int, mm, by_score) == b,
        decreases n - m,
    {
        let v = combo_value_exec(cards, i, j, k, l, m, by_score);
        if v > b {
            b = v;
        }
        m = m + 1;
    }
    b
}

fn best_over_l(cards: &[Card], i: usize, j: usize, k: usize, by_score: bool, best: u64) -> (r: u64)
    requires
        i < j < k < cards@.len(),
    ensures
        r >= best,
        forall|l: int, m: int|
            k < l < m < cards@.len() ==> #[trigger] combo_value(cards@, i as int, j as int, k as int, l, m, by_score) <= r,
        r == best || exists|l: int, m: int|
            k < l < m < cards@.len() && #[trigger] combo_value(cards@, i as int, j as int, k as int, l, m, by_score) == r,
{
    let n = cards.len();
    let mut b = best;
    let mut l = k + 1;
    while l < n
        invariant
            n == cards@.len(),
            i < j < k < l <= n,
            b >= best,
            forall|ll: int, mm: int|
                k < ll < l && ll < mm < n ==> #[trigger] combo_value(cards@, i as int, j as int, k as int, ll, mm, by_score) <= b,
            b == best || exists|ll: int, mm: int|
                k < ll < l && ll < mm < n && #[trigger] combo_value(cards@, i as int, j as int, k as int, ll, mm, by_score) == b,
        decreases n - l,
    {
        let prev = b;
        b = best_over_m(cards, i, j, k, l, by_score, b);
        proof {
            if b != prev {
                let mm = choose|mm: int|
                    l < mm < n && #[trigger] combo_value(cards@, i as int, j as int, k as int, l as int, mm, by_score) == b;
                assert(combo_value(cards@, i as int, j as int, k as int, l as int, mm, by_score) == b);
            } else if b != best {
                let (ll, mm) = choose|ll: int, mm: int|
                    k < ll < l && ll < mm < n && #[trigger] combo_value(cards@, i as int, j as int, k as int, ll, mm, by_score) == prev;
                assert(combo_value(cards@, i as int, j as int, k as int, ll, mm, by_score) == b);
            }
        }
        l = l + 1;
    }
    b
}

fn best_over_k(cards: &[Card], i: usize, j: usize, by_score: bool, best: u64) -> (r: u64)
    requires
        i < j < cards@.len(),
    ensures
        r >= best,
        forall|k: int, l: int, m: int|
            j < k < l < m < cards@.len() ==> #[trigger] combo_value(cards@, i as int, j as int, k, l, m, by_score) <= r,
        r == best || exists|k: int, l: int, m: int|
            j < k < l < m < cards@.len() && #[trigger] combo_value(cards@, i as int, j as int, k, l, m, by_score) == r,
{
    let n = cards.len();
    let mut b = best;
    let mut k = j + 1;
    while k < n
        invariant
            n == cards@.len(),
            i < j < k <= n,
            b >= best,
            forall|kk: int, ll: int, mm: int|
                j < kk < k && kk < ll < mm < n ==> #[trigger] combo_value(cards@, i as int, j as int, kk, ll, mm, by_score) <= b,
            b == best || exists|kk: int, ll: int, mm: int|
                j < kk < k && kk < ll < mm < n && #[trigger] combo_value(cards@, i as int, j as int, kk, ll, mm, by_score) == b,
        decreases n - k,
    {
        let prev = b;
        b = best_over_l(cards, i, j, k, by_score, b);
        proof {
            if b != prev {
                let (ll, mm) = choose|ll: int, mm: int|
                    k < ll < mm < n && #[trigger] combo_value(cards@, i as int, j as int, k as int, ll, mm, by_score) == b;
                assert(combo_value(cards@, i as int, j as int, k as int, ll, mm, by_score) == b);
            } else if b != best {
                let (kk, ll, mm) = choose|kk: int, ll: int, mm: int|
                    j < kk < k && kk < ll < mm < n && #[trigger] combo_value(cards@, i as int, j as int, kk, ll, mm, by_score) == prev;
                assert(combo_value(cards@, i as int, j as int, kk, ll, mm, by_score) == b);
            }
        }
        k = k + 1;
    }
    b
}

fn best_over_j(cards: &[Card], i: usize, by_score: bool, best: u64) -> (r: u64)
    requires
        i < cards@.len(),
    ensures
        r >= best,
        forall|j: int, k: int, l: int, m: int|
            i < j < k < l < m < cards@.len() ==> #[trigger] combo_value(cards@, i as int, j, k, l, m, by_score) <= r,
        r == best || exists|j: int, k: int, l: int, m: int|
            i < j < k < l < m < cards@.len() && #[trigger] combo_value(cards@, i as int, j, k, l, m, by_score) == r,
{
    let n = cards.len();
    let mut b = best;
    let mut j = i + 1;
    while j < n
        invariant
            n == cards@.len(),
            i < j <= n,
            b >= best,
            forall|jj: int, kk: int, ll: int, mm: int|
                i < jj < j && jj < kk < ll < mm < n ==> #[trigger] combo_value(cards@, i as int, jj, kk, ll, mm, by_score) <= b,
            b == best || exists|jj: int, kk: int, ll: int, mm: int|
                i < jj < j && jj < kk < ll < mm < n && #[trigger] combo_value(cards@, i as int, jj, kk, ll, mm, by_score) == b,
        decreases n - j,
    {
        let prev = b;
        b = best_over_k(cards, i, j, by_score, b);
        proof {
            if b != prev {
                let (kk, ll, mm) = choose|kk: int, ll: int, mm: int|
                    j < kk < ll < mm < n && #[trigger] combo_value(cards@, i as int, j as int, kk, ll, mm, by_score) == b;
                assert(combo_value(cards@, i as int, j as int, kk, ll, mm, by_score) == b);
            } else if b != best {
                let (jj, kk, ll, mm) = choose|jj: int, kk: int, ll: int, mm: int|
                    i < jj < j && jj < kk < ll < mm < n && #[trigger] combo_value(cards@, i as int, jj, kk, ll, mm, by_score) == prev;
                assert(combo_value(cards@, i as int, jj, kk, ll, mm, by_score) == b);
            }
        }
        j = j + 1;
    }
    b
}

/// The best value over all five-card choices, by score or by category position.
fn best_value(cards: &[Card], by_score: bool) -> (r: u64)
    ensures
        is_best_value(cards@, r as int, by_score),
{
    let n = cards.len();
    if n < 5 {
        return 0;
    }
    let mut b: u64 = 0;
    let mut i: usize = 0;
    while i < n
        invariant
            n == cards@.len(),
            n >= 5,
            i <= n,
            forall|ii: int, jj: int, kk: int, ll: int, mm: int|
                0 <= ii < i && ii < jj < kk < ll < mm < n ==> #[trigger] combo_value(cards@, ii, jj, kk, ll, mm, by_score) <= b,
            b == 0 || exists|ii: int, jj: int, kk: int, ll: int, mm: int|
                0 <= ii < i && ii < jj < kk < ll < mm < n && #[trigger] combo_value(cards@, ii, jj, kk, ll, mm, by_score) == b,
        decreases n - i,
    {
        let prev = b;
        b = best_over_j(cards, i, by_score, b);
        proof {
            if b != prev {
                let (jj, kk, ll, mm) = choose|jj: int, kk: int, ll: int, mm: int|
                    i < jj < kk < ll < mm < n && #[trigger] combo_value(cards@, i as int, jj, kk, ll, mm, by_score) == b;
                assert(combo_value(cards@, i as int, jj, kk, ll, mm, by_score) == b);
            } else if b != 0 {
                let (ii, jj, kk, ll, mm) = choose|ii: int, jj: int, kk: int, ll: int, mm: int|
                    0 <= ii < i && ii < jj < kk < ll < mm < n && #[trigger] combo_value(cards@, ii, jj, kk, ll, mm, by_score) == prev;
                assert(combo_value(cards@, ii, jj, kk, ll, mm, by_score) == b);
            }
        }
        i = i + 1;
    }
    proof {
        if b == 0 {
            lemma_combo_value_nonneg(cards@, 0, 1, 2, 3, 4, by_score);
            assert(combo_value(cards@, 0, 1, 2, 3, 4, by_score) <= b);
            assert(combo_value(cards@, 0, 1, 2, 3, 4, by_score) == b);
        }
    }
    b
}

proof fn lemma_pack_nonneg(vals: Seq<int>)
    requires
        forall|i: int| 0 <= i < vals.len() ==> vals[i] >= 0,
    ensures
        pack(vals) >= 0,
    decreases vals.len(),
{
    if vals.len() > 0 {
        lemma_pack_nonneg(vals.drop_last());
    }
}

proof fn lemma_combo_value_nonneg(cards: Seq<Card>, i: int, j: int, k: int, l: int, m: int, by_score: bool)
    ensures
        combo_value(cards, i, j, k, l, m, by_score) >= 0,
{
    let c = combo(cards, i, j, k, l, m);
    let g = rank_groups(c);
    let vals = desc_values(c);
    assert forall|x: int| 0 <= x < g.len() implies #[trigger] rank_val(g[x].0) >= 2 by {
        lemma_rank_val(g[x].0);
    }
    if g.len() >= 1 {
        assert forall|x: int| 0 <= x < gvals_from(g, 1).len() implies #[trigger] gvals_from(g, 1)[x] >= 0 by {
            assert(gvals_from(g, 1)[x] == rank_val(g[x + 1].0));
            lemma_rank_val(g[x + 1].0);
        }
        lemma_pack_nonneg(gvals_from(g, 1));
    }
    let cv = card_values(c);
    lemma_geq_total();
    cv.lemma_sort_by_ensures(geq());
    assert forall|x: int| 0 <= x < vals.len() implies vals[x] >= 0 by {
        vstd::seq_lib::to_multiset_contains(vals, vals[x]);
        vstd::seq_lib::to_multiset_contains(cv, vals[x]);
        let y = choose|y: int| 0 <= y < cv.len() && cv[y] == vals[x];
        lemma_rank_val(c[y].rank);
    }
    lemma_pack_nonneg(vals);
    vstd::seq_lib::to_multiset_len(vals);
    vstd::seq_lib::to_multiset_len(cv);
    assert(vals.len() == 5);
    assert(vals[0] >= 0);
    assert(straight_high(vals) >= 0);
}

/// The best value over all five-card choices from `cards` (see `is_best_value`).
pub open spec fn best_value_of(cards: Seq<Card>, by_score: bool) -> int {
    choose|r: int| is_best_value(cards, r, by_score)
}

/// The best score over all five-card choices from `cards`.
pub open spec fn best_score(cards: Seq<Card>) -> int {
    best_value_of(cards, true)
}

/// At most one value is the best one.
pub proof fn lemma_best_value_unique(cards: Seq<Card>, r1: int, r2: int, by_score: bool)
    requires
        is_best_value(cards, r1, by_score),
        is_best_value(cards, r2, by_score),
    ensures
        r1 == r2,
{
    let n = cards.len() as int;
    if n >= 5 {
        let (i, j, k, l, m) = choose|i: int, j: int, k: int, l: int, m: int|
            0 <= i < j < k < l < m < n && #[trigger] combo_value(cards, i, j, k, l, m, by_score) == r1;
        let (i2, j2, k2, l2, m2) = choose|i: int, j: int, k: int, l: int, m: int|
            0 <= i < j < k < l < m < n && #[trigger] combo_value(cards, i, j, k, l, m, by_score) == r2;
        assert(combo_value(cards, i, j, k, l, m, by_score) <= r2);
        assert(combo_value(cards, i2, j2, k2, l2, m2, by_score) <= r1);
    }
}

/// A value that is the best one is the value `best_value_of` picks.
pub proof fn lemma_best_value_is(cards: Seq<Card>, r: int, by_score: bool)
    requires
        is_best_value(cards, r, by_score),
    ensures
        best_value_of(cards, by_score) == r,
{
    lemma_best_value_unique(cards, r, best_value_of(cards, by_score), by_score);
}

/// The best category among all five-card choices from `cards` (HighCard for fewer than five).
pub fn evaluate_hand(cards: &[Card]) -> (rank: HandRank)
    ensures
        is_best_value(cards@, hand_rank_val(rank), false),
{
    let v = best_value(cards, false);
    proof {
        if cards@.len() >= 5 {
            let (i, j, k, l, m) = choose|i: int, j: int, k: int, l: int, m: int|
                0 <= i < j < k < l < m < cards@.len() && #[trigger] combo_value(cards@, i, j, k, l, m, false) == v;
            assert(combo_value(cards@, i, j, k, l, m, false) == v);
        }
    }
    rank_from_value(v)
}

/// The best score among all five-card choices from `cards` (0 for fewer than five).
pub fn evaluate_hand_score(cards: &[Card]) -> (score: HandScore)
    ensures
        is_best_value(cards@, score as int, true),
        score == best_score(cards@),
{
    let s = best_value(cards, true);
    proof {
        lemma_best_value_is(cards@, s as int, true);
    }
    s
}

/// The category with position `v` in the ranking; `v` must be at most 9.
fn rank_from_value(v: u64) -> (r: HandRank)
    requires
        v <= 9,
    ensures
        hand_rank_val(r) == v,
{
    match v {
        0 => HandRank::HighCard,
        1 => HandRank::OnePair,
        2 => HandRank::TwoPair,
        3 => HandRank::ThreeOfAKind,
        4 => HandRank::Straight,
        5 => HandRank::Flush,
        6 => HandRank::FullHouse,
        7 => HandRank::FourOfAKind,
        8 => HandRank::StraightFlush,
        _ => HandRank::RoyalFlush,
    }
}

/// The category encoded in a score: its bits from position 20 up (HighCard if they exceed 9).
pub fn score_to_rank(score: HandScore) -> (rank: HandRank)
    ensures
        rank == hand_rank_of_val((score / 0x100000) as int % 256),
{
    assert(score >> 20u64 == score / 0x100000) by (bit_vector);
    let top = score >> 20u64;
    let cat = (top % 256) as u8;
    match cat {
        0 => HandRank::HighCard,
        1 => HandRank::OnePair,
        2 => HandRank::TwoPair,
        3 => HandRank::ThreeOfAKind,
        4 => HandRank::Straight,
        5 => HandRank::Flush,
        6 => HandRank::FullHouse,
        7 => HandRank::FourOfAKind,
        8 => HandRank::StraightFlush,
        9 => HandRank::RoyalFlush,
        _ => HandRank::HighCard,
    }
}

/// Two positions of `cards` hold cards of value `w` when `w` occurs at least twice.
proof fn lemma_count_two(cards: Seq<Card>, w: int) -> (ij: (int, int))
    requires
        count_val(cards, w) >= 2,
    ensures
        0 <= ij.0 < ij.1 < cards.len(),
        rank_val(cards[ij.0].rank) == w,
        rank_val(cards[ij.1].rank) == w,
    decreases cards.len(),
{
    let d = cards.drop_last();
    if rank_val(cards.last().rank) == w {
        lemma_count_val_contains(d, w);
        let k = choose|k: int| 0 <= k < card_values(d).len() && card_values(d)[k] == w;
        assert(d[k] == cards[k]);
        (k, cards.len() - 1)
    } else {
        let (i, j) = lemma_count_two(d, w);
        assert(d[i] == cards[i] && d[j] == cards[j]);
        (i, j)
    }
}

/// At most all of the cards have suit `s`, and when all do, each card has suit `s`.
proof fn lemma_count_suit_all(cards: Seq<Card>, s: int)
    ensures
        count_suit(cards, s) <= cards.len(),
        count_suit(cards, s) == cards.len() ==> forall|k: int|
            0 <= k < cards.len() ==> suit_idx(#[trigger] cards[k].suit) == s,
    decreases cards.len(),
{
    if cards.len() > 0 {
        let d = cards.drop_last();
        lemma_count_suit_all(d, s);
        if count_suit(cards, s) == cards.len() {
            assert forall|k: int| 0 <= k < cards.len() implies suit_idx(#[trigger] cards[k].suit) == s by {
                if k < cards.len() - 1 {
                    assert(cards[k] == d[k]);
                }
            }
        }
    }
}

/// Five distinct cards, two of them of value `w`, are no flush.
proof fn lemma_pair_not_flush(cards: Seq<Card>, w: int)
    requires
        cards.len() == 5,
        cards.no_duplicates(),
        count_val(cards, w) >= 2,
    ensures
        !is_flush_spec(cards),
{
    let (i, j) = lemma_count_two(cards, w);
    if is_flush_spec(cards) {
        let s = choose|s: int| 0 <= s < 4 && #[trigger] count_suit(cards, s) >= 5;
        lemma_count_suit_all(cards, s);
        assert(suit_idx(cards[i].suit) == s && suit_idx(cards[j].suit) == s);
        lemma_rank_val(cards[i].rank);
        lemma_rank_val(cards[j].rank);
        assert(cards[i].rank == cards[j].rank);
        assert(cards[i].suit == cards[j].suit);
        assert(cards[i] == cards[j]);
    }
}

/// Five cards, two of them of value `w`, hold at most four distinct values, so no straight.
proof fn lemma_pair_not_straight(cards: Seq<Card>, w: int)
    requires
        cards.len() == 5,
        count_val(cards, w) >= 2,
    ensures
        !is_straight_spec(cards),
{
    let (i, j) = lemma_count_two(cards, w);
    let cv = card_values(cards);
    let rest = cv.remove(j);
    if is_straight_spec(cards) {
        let run: Seq<int> = if exists|lo: int| 2 <= lo <= 10 && #[trigger] has_run_from(cards, lo) {
            let lo = choose|lo: int| 2 <= lo <= 10 && #[trigger] has_run_from(cards, lo);
            seq![lo, lo + 1, lo + 2, lo + 3, lo + 4]
        } else {
            seq![14int, 2, 3, 4, 5]
        };
        assert(run.no_duplicates());
        assert forall|k: int| 0 <= k < run.len() implies rest.contains(#[trigger] run[k]) by {
            assert(has_val(cards, run[k]));
            lemma_count_val_contains(cards, run[k]);
            let p = choose|p: int| 0 <= p < cv.len() && cv[p] == run[k];
            if p == j {
                assert(rest[i] == cv[i]);
            } else if p < j {
                assert(rest[p] == cv[p]);
            } else {
                assert(rest[p - 1] == cv[p]);
            }
        }
        lemma_distinct_values_bound(run, rest);
    }
}

/// Filtering keeps a strictly decreasing sequence strictly decreasing.
proof fn lemma_filter_decreasing(s: Seq<int>, p: spec_fn(int) -> bool)
    requires
        forall|i: int, j: int| 0 <= i < j < s.len() ==> s[i] > s[j],
    ensures
        forall|i: int, j: int| 0 <= i < j < s.filter(p).len() ==> s.filter(p)[i] > s.filter(p)[j],
    decreases s.len(),
{
    reveal(Seq::filter);
    if s.len() > 0 {
        let d = s.drop_last();
        lemma_filter_decreasing(d, p);
        let fd = d.filter(p);
        assert(s.filter(p) == if p(s.last()) {
            fd.push(s.last())
        } else {
            fd
        });
        assert forall|i: int| 0 <= i < fd.len() implies fd[i] > s.last() by {
            assert(fd.contains(fd[i]));
            d.lemma_filter_contains_rev(p, fd[i]);
            let k = choose|k: int| 0 <= k < d.len() && d[k] == fd[i];
            assert(s[k] > s[s.len() - 1]);
        }
    }
}

/// What the rank groups of at most 255 cards hold: each group's multiplicity is the count of
/// its value, which lies in 2..=14; the values are distinct, so there are at most as many groups
/// as cards.
proof fn lemma_rank_groups_facts(cards: Seq<Card>)
    requires
        cards.len() <= 255,
    ensures
        rank_groups(cards).len() <= cards.len(),
        forall|x: int|
            0 <= x < rank_groups(cards).len() ==> #[trigger] rank_groups(cards)[x].1 as int
                == count_val(cards, rank_val(rank_groups(cards)[x].0)) && rank_groups(cards)[x].1 >= 1,
{
    let n = cards.len() as int;
    let keys = group_keys(n);
    let p = |k: int| is_group_key(cards, k);
    let f = keys.filter(p);
    let g = rank_groups(cards);
    assert(g == f.map_values(|k: int| group_of_key(k)));
    lemma_filter_decreasing(keys, p);
    assert forall|x: int| 0 <= x < f.len() implies #[trigger] p(f[x]) by {
        keys.lemma_filter_pred(p, x);
    }
    assert forall|x: int| 0 <= x < g.len() implies #[trigger] g[x].1 as int == count_val(
        cards,
        rank_val(g[x].0),
    ) && g[x].1 >= 1 && rank_val(g[x].0) == f[x] % 16 && g[x].1 as int == f[x] / 16 by {
        assert(p(f[x]));
        lemma_count_val_bounds(cards, f[x] % 16);
        lemma_val_rank(f[x] % 16);
    }
    let gv = g.map_values(|gr: (Rank, u8)| rank_val(gr.0));
    assert forall|a: int, b: int| 0 <= a < gv.len() && 0 <= b < gv.len() && a != b implies gv[a]
        != gv[b] by {
        if gv[a] == gv[b] {
            assert(g[a].1 == g[b].1);
            if a < b {
                assert(f[a] > f[b]);
            } else {
                assert(f[b] > f[a]);
            }
        }
    }
    assert forall|a: int| 0 <= a < gv.len() implies card_values(cards).contains(gv[a]) by {
        assert(g[a].1 >= 1);
        lemma_count_val_contains(cards, gv[a]);
    }
    lemma_distinct_values_bound(gv, card_values(cards));
}

/// The values of the cards sorted from highest to lowest are as many as the cards, each in
/// 2..=14.
proof fn lemma_desc_values_range(cards: Seq<Card>)
    ensures
        desc_values(cards).len() == cards.len(),
        forall|x: int|
            0 <= x < desc_values(cards).len() ==> 2 <= #[trigger] desc_values(cards)[x] <= 14,
{
    let vals = desc_values(cards);
    let cv = card_values(cards);
    lemma_geq_total();
    cv.lemma_sort_by_ensures(geq());
    assert forall|x: int| 0 <= x < vals.len() implies 2 <= #[trigger] vals[x] <= 14 by {
        vstd::seq_lib::to_multiset_contains(vals, vals[x]);
        vstd::seq_lib::to_multiset_contains(cv, vals[x]);
        let y = choose|y: int| 0 <= y < cv.len() && cv[y] == vals[x];
        lemma_rank_val(cards[y].rank);
    }
    vstd::seq_lib::to_multiset_len(vals);
    vstd::seq_lib::to_multiset_len(cv);
}

/// Values below 16 pack into fewer than `16^len` possibilities.
proof fn lemma_pack_lt(vals: Seq<int>)
    requires
        forall|i: int| 0 <= i < vals.len() ==> 0 <= #[trigger] vals[i] < 16,
    ensures
        0 <= pack(vals) < pow16(vals.len()),
    decreases vals.len(),
{
    if vals.len() > 0 {
        lemma_pack_lt(vals.drop_last());
    }
}

/// Five distinct cards: the category digit of their score is the position of their category.
proof fn lemma_score_category5(c: Seq<Card>)
    requires
        c.len() == 5,
        c.no_duplicates(),
    ensures
        hand_rank_val(rank5(c)) * cat_w() <= score5(c) < (hand_rank_val(rank5(c)) + 1) * cat_w(),
{
    let g = rank_groups(c);
    let vals = desc_values(c);
    lemma_desc_values_range(c);
    lemma_pack_lt(vals);
    lemma_pow16_bound(5);
    assert(vals[0] <= 14);
    lemma_rank_groups_facts(c);
    if g.len() > 0 {
        lemma_rank_val(g[0].0);
        if g.len() > 1 {
            lemma_rank_val(g[1].0);
        }
        if g.len() > 2 {
            lemma_rank_val(g[2].0);
        }
        let rest = gvals_from(g, 1);
        assert forall|x: int| 0 <= x < rest.len() implies 0 <= #[trigger] rest[x] < 16 by {
            assert(rest[x] == rank_val(g[x + 1].0));
            lemma_rank_val(g[x + 1].0);
        }
        lemma_pack_lt(rest);
        reveal_with_fuel(pow16, 5);
        assert(pow16(rest.len()) <= 0x10000);
        if g[0].1 == 2 || g[0].1 == 3 {
            lemma_pair_not_flush(c, rank_val(g[0].0));
            lemma_pair_not_straight(c, rank_val(g[0].0));
        }
    }
}

/// The five cards at increasing positions of a hand of distinct cards are distinct.
proof fn lemma_combo_distinct(cards: Seq<Card>, i: int, j: int, k: int, l: int, m: int)
    requires
        cards.no_duplicates(),
        0 <= i < j < k < l < m < cards.len(),
    ensures
        combo(cards, i, j, k, l, m).len() == 5,
        combo(cards, i, j, k, l, m).no_duplicates(),
{
    let c = combo(cards, i, j, k, l, m);
    let idx = seq![i, j, k, l, m];
    assert forall|a: int, b: int| 0 <= a < c.len() && 0 <= b < c.len() && a != b implies c[a]
        != c[b] by {
        assert(c[a] == cards[idx[a]] && c[b] == cards[idx[b]]);
    }
}

/// For a hand of distinct cards and its best score (what `evaluate_hand_score` returns), the
/// category that `score_to_rank` reads from the score is the hand's best category (what
/// `evaluate_hand` returns).
pub proof fn law_score_category(cards: Seq<Card>, score: int)
    requires
        cards.no_duplicates(),
        is_best_value(cards, score, true),
    ensures
        is_best_value(cards, hand_rank_val(hand_rank_of_val((score / cat_w()) % 256)), false),
{
    let n = cards.len() as int;
    if n >= 5 {
        let (i, j, k, l, m) = choose|i: int, j: int, k: int, l: int, m: int|
            0 <= i < j < k < l < m < n && #[trigger] combo_value(cards, i, j, k, l, m, true) == score;
        let best = combo(cards, i, j, k, l, m);
        lemma_combo_distinct(cards, i, j, k, l, m);
        lemma_score_category5(best);
        let top = hand_rank_val(rank5(best));
        assert(score / cat_w() == top);
        assert(hand_rank_of_val(top) == rank5(best));
        assert(combo_value(cards, i, j, k, l, m, false) == top);
        assert forall|i2: int, j2: int, k2: int, l2: int, m2: int|
            0 <= i2 < j2 < k2 < l2 < m2 < n implies #[trigger] combo_value(
            cards,
            i2,
            j2,
            k2,
            l2,
            m2,
            false,
        ) <= top by {
            lemma_combo_distinct(cards, i2, j2, k2, l2, m2);
            lemma_score_category5(combo(cards, i2, j2, k2, l2, m2));
            assert(combo_value(cards, i2, j2, k2, l2, m2, true) <= score);
        }
    }
}

/// Between two hands of five distinct cards each, the one of the higher category has the higher
/// score, whatever the ranks that break ties within a category.
pub proof fn law_category_orders_scores(a: Seq<Card>, b: Seq<Card>)
    requires
        a.len() == 5,
        b.len() == 5,
        a.no_duplicates(),
        b.no_duplicates(),
        hand_rank_val(rank5(a)) > hand_rank_val(rank5(b)),
    ensures
        score5(a) > score5(b),
{
    lemma_score_category5(a);
    lemma_score_category5(b);
}

/// Mapping keeps equal multisets equal.
proof fn lemma_map_multiset<A, B>(x: Seq<A>, y: Seq<A>, f: spec_fn(A) -> B)
    requires
        x.to_multiset() == y.to_multiset(),
    ensures
        x.map_values(f).to_multiset() == y.map_values(f).to_multiset(),
    decreases x.len(),
{
    broadcast use vstd::seq_lib::group_to_multiset_ensures;
    broadcast use vstd::multiset::group_multiset_axioms;

    vstd::seq_lib::to_multiset_len(x);
    vstd::seq_lib::to_multiset_len(y);
    if x.len() == 0 {
        assert(x.map_values(f) =~= Seq::<B>::empty());
        assert(y.map_values(f) =~= Seq::<B>::empty());
    } else {
        let a = x.last();
        let d = x.drop_last();
        assert(x =~= d.push(a));
        vstd::seq_lib::to_multiset_build(d, a);
        vstd::seq_lib::to_multiset_contains(y, a);
        let k = choose|k: int| 0 <= k < y.len() && y[k] == a;
        vstd::seq_lib::to_multiset_remove(y, k);
        assert(d.to_multiset() =~= y.remove(k).to_multiset());
        lemma_map_multiset(d, y.remove(k), f);
        assert(x.map_values(f) =~= d.map_values(f).push(f(a)));
        assert(y.remove(k).map_values(f) =~= y.map_values(f).remove(k));
        vstd::seq_lib::to_multiset_build(d.map_values(f), f(a));
        vstd::seq_lib::to_multiset_remove(y.map_values(f), k);
        assert(y.map_values(f)[k] == f(a));
        vstd::seq_lib::to_multiset_contains(y.map_values(f), f(a));
        assert(y.map_values(f).to_multiset() =~= y.map_values(f).to_multiset().remove(f(a)).insert(f(a)));
    }
}

/// The suit indices of the cards, in the order of the cards.
pub open spec fn card_suits(cards: Seq<Card>) -> Seq<int> {
    cards.map_values(|c: Card| suit_idx(c.suit))
}

/// The number of cards of value `v` is how often `v` occurs among the card values.
proof fn lemma_count_val_multiset(cards: Seq<Card>, v: int)
    ensures
        count_val(cards, v) == card_values(cards).to_multiset().count(v),
    decreases cards.len(),
{
    broadcast use vstd::seq_lib::group_to_multiset_ensures;
    broadcast use vstd::multiset::group_multiset_axioms;

    if cards.len() == 0 {
        assert(card_values(cards) =~= Seq::<int>::empty());
    } else {
        let d = cards.drop_last();
        lemma_count_val_multiset(d, v);
        assert(card_values(cards) =~= card_values(d).push(rank_val(cards.last().rank)));
    }
}

/// The number of cards of suit `i` is how often `i` occurs among the suit indices.
proof fn lemma_count_suit_multiset(cards: Seq<Card>, i: int)
    ensures
        count_suit(cards, i) == card_suits(cards).to_multiset().count(i),
    decreases cards.len(),
{
    broadcast use vstd::seq_lib::group_to_multiset_ensures;
    broadcast use vstd::multiset::group_multiset_axioms;

    if cards.len() == 0 {
        assert(card_suits(cards) =~= Seq::<int>::empty());
    } else {
        let d = cards.drop_last();
        lemma_count_suit_multiset(d, i);
        assert(card_suits(cards) =~= card_suits(d).push(suit_idx(cards.last().suit)));
    }
}

/// Five-card categories and scores depend only on which cards there are, not on their order.
proof fn lemma_score_reorder(x: Seq<Card>, y: Seq<Card>)
    requires
        x.to_multiset() == y.to_multiset(),
    ensures
        score5(x) == score5(y),
        rank5(x) == rank5(y),
{
    vstd::seq_lib::to_multiset_len(x);
    vstd::seq_lib::to_multiset_len(y);
    lemma_map_multiset(x, y, |c: Card| rank_val(c.rank));
    lemma_map_multiset(x, y, |c: Card| suit_idx(c.suit));
    assert(x.map_values(|c: Card| rank_val(c.rank)) == card_values(x));
    assert(y.map_values(|c: Card| rank_val(c.rank)) == card_values(y));
    assert(x.map_values(|c: Card| suit_idx(c.suit)) == card_suits(x));
    assert(y.map_values(|c: Card| suit_idx(c.suit)) == card_suits(y));
    assert forall|v: int| #[trigger] count_val(x, v) == count_val(y, v) by {
        lemma_count_val_multiset(x, v);
        lemma_count_val_multiset(y, v);
    }
    assert forall|i: int| #[trigger] count_suit(x, i) == count_suit(y, i) by {
        lemma_count_suit_multiset(x, i);
        lemma_count_suit_multiset(y, i);
    }
    assert forall|v: int| #[trigger] has_val(x, v) == has_val(y, v) by {
        assert(count_val(x, v) == count_val(y, v));
    }
    assert(is_flush_spec(x) == is_flush_spec(y)) by {
        if is_flush_spec(x) {
            let i = choose|i: int| 0 <= i < 4 && #[trigger] count_suit(x, i) >= 5;
            assert(count_suit(y, i) == count_suit(x, i));
        }
        if is_flush_spec(y) {
            let i = choose|i: int| 0 <= i < 4 && #[trigger] count_suit(y, i) >= 5;
            assert(count_suit(y, i) == count_suit(x, i));
        }
    }
    assert forall|lo: int| #[trigger] has_run_from(x, lo) == has_run_from(y, lo) by {
        if has_run_from(x, lo) {
            assert forall|v: int| lo <= v < lo + 5 implies #[trigger] has_val(y, v) by {
                assert(has_val(x, v));
            }
        }
        if has_run_from(y, lo) {
            assert forall|v: int| lo <= v < lo + 5 implies #[trigger] has_val(x, v) by {
                assert(has_val(y, v));
            }
        }
    }
    assert(has_wheel(x) == has_wheel(y)) by {
        assert(has_val(x, 14) == has_val(y, 14));
        assert(has_val(x, 2) == has_val(y, 2));
        assert(has_val(x, 3) == has_val(y, 3));
        assert(has_val(x, 4) == has_val(y, 4));
        assert(has_val(x, 5) == has_val(y, 5));
    }
    assert(is_straight_spec(x) == is_straight_spec(y)) by {
        if exists|lo: int| 2 <= lo <= 10 && #[trigger] has_run_from(x, lo) {
            let lo = choose|lo: int| 2 <= lo <= 10 && #[trigger] has_run_from(x, lo);
            assert(has_run_from(y, lo));
        }
        if exists|lo: int| 2 <= lo <= 10 && #[trigger] has_run_from(y, lo) {
            let lo = choose|lo: int| 2 <= lo <= 10 && #[trigger] has_run_from(y, lo);
            assert(has_run_from(x, lo));
        }
    }
    let px = |k: int| is_group_key(x, k);
    let py = |k: int| is_group_key(y, k);
    assert(px =~= py);
    assert(rank_groups(x) == rank_groups(y));
    lemma_geq_total();
    card_values(x).lemma_sort_by_ensures(geq());
    card_values(y).lemma_sort_by_ensures(geq());
    vstd::seq_lib::lemma_sorted_unique(desc_values(x), desc_values(y), geq());
    assert(desc_values(x) == desc_values(y));
}

/// The ascending order on integers.
pub open spec fn leq_int() -> spec_fn(int, int) -> bool {
    |a: int, b: int| a <= b
}

proof fn lemma_leq_total()
    ensures
        total_ordering(leq_int()),
{
}

/// The five cards at positions `i < j < k < l < m` of distinct cards `a` stand, in some order,
/// at five increasing positions of any reordering `b` of `a`.
proof fn lemma_reindex(a: Seq<Card>, b: Seq<Card>, i: int, j: int, k: int, l: int, m: int) -> (t: (int, int, int, int, int))
    requires
        a.no_duplicates(),
        a.to_multiset() == b.to_multiset(),
        0 <= i < j < k < l < m < a.len(),
    ensures
        0 <= t.0 < t.1 < t.2 < t.3 < t.4 < b.len(),
        combo(b, t.0, t.1, t.2, t.3, t.4).to_multiset() == combo(a, i, j, k, l, m).to_multiset(),
{
    broadcast use vstd::seq_lib::group_to_multiset_ensures;
    broadcast use vstd::multiset::group_multiset_axioms;

    vstd::seq_lib::to_multiset_len(a);
    vstd::seq_lib::to_multiset_len(b);
    let idx = seq![i, j, k, l, m];
    let f = |q: int| choose|r: int| 0 <= r < b.len() && b[r] == a[q];
    assert forall|q: int| 0 <= q < a.len() implies 0 <= #[trigger] f(q) < b.len() && b[f(q)] == a[q] by {
        assert(a.contains(a[q]));
        vstd::seq_lib::to_multiset_contains(a, a[q]);
        vstd::seq_lib::to_multiset_contains(b, a[q]);
    }
    let p = idx.map_values(f);
    assert forall|u: int| 0 <= u < 5 implies 0 <= #[trigger] idx[u] < a.len() by {}
    assert(p.no_duplicates()) by {
        assert forall|u: int, w: int| 0 <= u < p.len() && 0 <= w < p.len() && u != w implies p[u]
            != p[w] by {
            assert(idx[u] != idx[w]);
            assert(a[idx[u]] != a[idx[w]]);
            assert(b[p[u]] == a[idx[u]]);
            assert(b[p[w]] == a[idx[w]]);
        }
    }
    let t = p.sort_by(leq_int());
    lemma_leq_total();
    p.lemma_sort_by_ensures(leq_int());
    vstd::seq_lib::to_multiset_len(t);
    vstd::seq_lib::to_multiset_len(p);
    p.lemma_multiset_has_no_duplicates();
    t.lemma_multiset_has_no_duplicates_conv();
    assert forall|u: int| 0 <= u < 5 implies 0 <= #[trigger] t[u] < b.len() by {
        assert(t.contains(t[u]));
        vstd::seq_lib::to_multiset_contains(t, t[u]);
        vstd::seq_lib::to_multiset_contains(p, t[u]);
        let w = choose|w: int| 0 <= w < p.len() && p[w] == t[u];
        assert(p[w] == f(idx[w]));
    }
    assert forall|u: int, w: int| 0 <= u < w < 5 implies t[u] < t[w] by {
        assert(leq_int()(t[u], t[w]));
        assert(t[u] != t[w]);
    }
    let g = |x: int| b[x];
    lemma_map_multiset(t, p, g);
    assert(combo(b, t[0], t[1], t[2], t[3], t[4]) =~= t.map_values(g));
    assert forall|u: int| 0 <= u < 5 implies #[trigger] p.map_values(g)[u] == combo(a, i, j, k, l, m)[u] by {
        assert(b[p[u]] == a[idx[u]]);
    }
    assert(combo(a, i, j, k, l, m) =~= p.map_values(g));
    (t[0], t[1], t[2], t[3], t[4])
}

/// Reordering the cards does not change the best score: for a hand of distinct cards and any
/// reordering of it, the best score of one is the best score of the other.
pub proof fn law_best_score_reorder(cards: Seq<Card>, other: Seq<Card>, r: int)
    requires
        cards.no_duplicates(),
        other.to_multiset() == cards.to_multiset(),
        is_best_value(cards, r, true),
    ensures
        is_best_value(other, r, true),
{
    broadcast use vstd::multiset::group_multiset_axioms;

    vstd::seq_lib::to_multiset_len(cards);
    vstd::seq_lib::to_multiset_len(other);
    cards.lemma_multiset_has_no_duplicates();
    other.lemma_multiset_has_no_duplicates_conv();
    let n = cards.len() as int;
    assert forall|i2: int, j2: int, k2: int, l2: int, m2: int|
        0 <= i2 < j2 < k2 < l2 < m2 < n implies #[trigger] combo_value(
        other,
        i2,
        j2,
        k2,
        l2,
        m2,
        true,
    ) <= r by {
        let t = lemma_reindex(other, cards, i2, j2, k2, l2, m2);
        lemma_score_reorder(combo(other, i2, j2, k2, l2, m2), combo(cards, t.0, t.1, t.2, t.3, t.4));
        assert(combo_value(cards, t.0, t.1, t.2, t.3, t.4, true) <= r);
    }
    if n >= 5 {
        let (i, j, k, l, m) = choose|i: int, j: int, k: int, l: int, m: int|
            0 <= i < j < k < l < m < n && #[trigger] combo_value(cards, i, j, k, l, m, true) == r;
        let t = lemma_reindex(cards, other, i, j, k, l, m);
        lemma_score_reorder(combo(cards, i, j, k, l, m), combo(other, t.0, t.1, t.2, t.3, t.4));
        assert(combo_value(other, t.0, t.1, t.2, t.3, t.4, true) == r);
    }
}

/// The rank groups of at most 255 cards come in strictly decreasing order of (multiplicity,
/// value), and every value that occurs has its group.
proof fn lemma_rank_groups_order(cards: Seq<Card>)
    requires
        cards.len() <= 255,
    ensures
        forall|x: int, y: int|
            0 <= x < y < rank_groups(cards).len() ==> group_key(#[trigger] rank_groups(cards)[x])
                > group_key(#[trigger] rank_groups(cards)[y]),
        forall|v: int|
            2 <= v <= 14 && #[trigger] count_val(cards, v) >= 1 ==> exists|x: int|
                0 <= x < rank_groups(cards).len() && rank_val(#[trigger] rank_groups(cards)[x].0) == v,
{
    let n = cards.len() as int;
    let keys = group_keys(n);
    let p = |k: int| is_group_key(cards, k);
    let f = keys.filter(p);
    let g = rank_groups(cards);
    assert(g == f.map_values(|k: int| group_of_key(k)));
    lemma_filter_decreasing(keys, p);
    assert forall|x: int| 0 <= x < f.len() implies #[trigger] p(f[x]) by {
        keys.lemma_filter_pred(p, x);
    }
    assert forall|x: int| 0 <= x < g.len() implies #[trigger] group_key(g[x]) == f[x] by {
        assert(p(f[x]));
        lemma_count_val_bounds(cards, f[x] % 16);
        lemma_val_rank(f[x] % 16);
    }
    assert forall|x: int, y: int| 0 <= x < y < g.len() implies group_key(#[trigger] g[x])
        > group_key(#[trigger] g[y]) by {
        assert(group_key(g[x]) == f[x]);
        assert(group_key(g[y]) == f[y]);
    }
    assert forall|v: int| 2 <= v <= 14 && #[trigger] count_val(cards, v) >= 1 implies exists|x: int|
        0 <= x < g.len() && rank_val(#[trigger] g[x].0) == v by {
        lemma_count_val_bounds(cards, v);
        let k = 16 * count_val(cards, v) + v;
        let idx = 16 * (n + 1) - 1 - k;
        assert(0 <= idx < keys.len());
        assert(keys[idx] == k);
        assert(k % 16 == v && k / 16 == count_val(cards, v));
        assert(p(keys[idx]));
        keys.lemma_filter_contains(p, idx);
        assert(f.contains(k));
        let x = choose|x: int| 0 <= x < f.len() && f[x] == k;
        lemma_val_rank(v);
        assert(g[x] == group_of_key(k));
        assert(rank_val(g[x].0) == v);
    }
}

/// Two different values together occur at most as often as there are cards.
proof fn lemma_count_two_values(cards: Seq<Card>, a: int, b: int)
    requires
        a != b,
    ensures
        count_val(cards, a) + count_val(cards, b) <= cards.len(),
    decreases cards.len(),
{
    if cards.len() > 0 {
        lemma_count_two_values(cards.drop_last(), a, b);
    }
}

/// Three different values together occur at most as often as there are cards.
proof fn lemma_count_three_values(cards: Seq<Card>, a: int, b: int, c: int)
    requires
        a != b,
        a != c,
        b != c,
    ensures
        count_val(cards, a) + count_val(cards, b) + count_val(cards, c) <= cards.len(),
    decreases cards.len(),
{
    if cards.len() > 0 {
        lemma_count_three_values(cards.drop_last(), a, b, c);
    }
}

/// Facts about the groups of a five-card hand used below.
proof fn lemma_groups5(c: Seq<Card>)
    requires
        c.len() == 5,
    ensures
        rank_groups(c).len() <= 5,
        forall|x: int|
            0 <= x < rank_groups(c).len() ==> #[trigger] rank_groups(c)[x].1 as int == count_val(
                c,
                gval(rank_groups(c), x),
            ) && rank_groups(c)[x].1 >= 1 && 2 <= gval(rank_groups(c), x) <= 14,
        forall|x: int, y: int|
            0 <= x < y < rank_groups(c).len() ==> group_key(#[trigger] rank_groups(c)[x]) > group_key(
                #[trigger] rank_groups(c)[y],
            ),
        forall|v: int|
            2 <= v <= 14 && #[trigger] count_val(c, v) >= 1 ==> exists|x: int|
                0 <= x < rank_groups(c).len() && gval(rank_groups(c), x) == v,
        forall|v: int| #[trigger] count_val(c, v) >= 1 ==> 2 <= v <= 14,
{
    let g = rank_groups(c);
    lemma_rank_groups_facts(c);
    lemma_rank_groups_order(c);
    assert forall|x: int| 0 <= x < g.len() implies 2 <= #[trigger] gval(g, x) <= 14 by {
        lemma_rank_val(g[x].0);
    }
    assert forall|v: int| #[trigger] count_val(c, v) >= 1 implies 2 <= v <= 14 by {
        lemma_count_val_bounds(c, v);
    }
    assert forall|v: int| 2 <= v <= 14 && #[trigger] count_val(c, v) >= 1 implies exists|x: int|
        0 <= x < g.len() && gval(g, x) == v by {
        let x = choose|x: int| 0 <= x < g.len() && rank_val(#[trigger] g[x].0) == v;
        assert(gval(g, x) == v);
    }
}

/// In a five-card hand, the group of a value occurring `k >= 3` times comes first.
proof fn lemma_big_group_first(c: Seq<Card>, v: int)
    requires
        c.len() == 5,
        count_val(c, v) >= 3,
    ensures
        rank_groups(c).len() > 0,
        gval(rank_groups(c), 0) == v,
        rank_groups(c)[0].1 as int == count_val(c, v),
{
    let g = rank_groups(c);
    lemma_groups5(c);
    let x = choose|x: int| 0 <= x < g.len() && gval(g, x) == v;
    if x > 0 {
        assert(group_key(g[0]) > group_key(g[x]));
        assert(g[x].1 as int == count_val(c, v));
        let v0 = gval(g, 0);
        assert(g[0].1 as int == count_val(c, v0));
        if v0 == v {
            assert(group_key(g[0]) == group_key(g[x]));
        }
        lemma_count_two_values(c, v0, v);
    }
}

/// Bounds on the leading value of a five-card hand's score for the categories keyed by their
/// largest group: the score lies in `[cat * 2^20 + v * 2^16, cat * 2^20 + (v + 1) * 2^16)`
/// where `v` is the value of that group.
#[verifier::rlimit(100)]
#[verifier::spinoff_prover]
proof fn lemma_grouped_score(c: Seq<Card>, v: int)
    requires
        c.len() == 5,
        c.no_duplicates(),
        rank_groups(c).len() > 0,
        gval(rank_groups(c), 0) == v,
        2 <= rank_groups(c)[0].1 <= 4,
        !(rank_groups(c)[0].1 == 2 && rank_groups(c).len() > 1 && rank_groups(c)[1].1 == 2),
    ensures
        hand_rank_val(rank5(c)) * cat_w() + v * 0x10000 <= score5(c) < hand_rank_val(rank5(c))
            * cat_w() + (v + 1) * 0x10000,
{
    let g = rank_groups(c);
    lemma_groups5(c);
    lemma_pair_not_flush(c, v);
    lemma_pair_not_straight(c, v);
    assert(count_val(c, v) >= 2);
    if g.len() > 1 {
        assert(2 <= gval(g, 1) <= 14);
    }
    let rest = gvals_from(g, 1);
    assert forall|x: int| 0 <= x < rest.len() implies 0 <= #[trigger] rest[x] < 16 by {
        assert(rest[x] == gval(g, x + 1));
        assert(2 <= gval(g, x + 1) <= 14);
    }
    lemma_pack_lt(rest);
    reveal_with_fuel(pow16, 5);
    assert(pow16(rest.len()) <= 0x10000);
}

/// Of two four-of-a-kind hands, the one with the higher four has the higher score; with equal
/// fours, the higher kicker scores higher.
#[verifier::rlimit(50)]
#[verifier::spinoff_prover]
pub proof fn law_four_of_a_kind_order(a: Seq<Card>, b: Seq<Card>, qa: int, qb: int, ka: int, kb: int)
    requires
        a.len() == 5,
        b.len() == 5,
        a.no_duplicates(),
        b.no_duplicates(),
        rank5(a) == HandRank::FourOfAKind,
        rank5(b) == HandRank::FourOfAKind,
        count_val(a, qa) == 4,
        count_val(b, qb) == 4,
        count_val(a, ka) == 1,
        count_val(b, kb) == 1,
    ensures
        qa > qb ==> score5(a) > score5(b),
        qa == qb && ka > kb ==> score5(a) > score5(b),
{
    lemma_big_group_first(a, qa);
    lemma_big_group_first(b, qb);
    lemma_second_group(a, qa, ka);
    lemma_second_group(b, qb, kb);
    lemma_grouped_score(a, qa);
    lemma_grouped_score(b, qb);
}

/// In a five-card hand whose leading group has value `v`, a different value `w` that occurs
/// often enough that no third value can occur as often is the value of the second group.
proof fn lemma_second_group(c: Seq<Card>, v: int, w: int)
    requires
        c.len() == 5,
        rank_groups(c).len() > 0,
        gval(rank_groups(c), 0) == v,
        count_val(c, v) >= 3,
        count_val(c, w) >= 1,
        count_val(c, v) + 2 * count_val(c, w) > 5,
        w != v,
    ensures
        rank_groups(c).len() > 1,
        gval(rank_groups(c), 1) == w,
        rank_groups(c)[1].1 as int == count_val(c, w),
{
    let g = rank_groups(c);
    lemma_groups5(c);
    let x = choose|x: int| 0 <= x < g.len() && gval(g, x) == w;
    assert(x != 0);
    let v1 = gval(g, 1);
    assert(g[1].1 as int == count_val(c, v1));
    if v1 == v {
        assert(group_key(g[0]) > group_key(g[1]));
        assert(g[0].1 as int == count_val(c, v));
    }
    if x > 1 {
        assert(group_key(g[1]) > group_key(g[x]));
        assert(g[x].1 as int == count_val(c, w));
        if v1 == w {
            assert(group_key(g[1]) == group_key(g[x]));
        }
        assert(g[1].1 >= g[x].1);
        lemma_count_three_values(c, v, w, v1);
    }
}

/// Of two full houses, the one with the higher three of a kind has the higher score, whatever
/// the pairs; with equal threes, the higher pair scores higher.
#[verifier::rlimit(50)]
#[verifier::spinoff_prover]
pub proof fn law_full_house_order(a: Seq<Card>, b: Seq<Card>, ta: int, tb: int, pa: int, pb: int)
    requires
        a.len() == 5,
        b.len() == 5,
        a.no_duplicates(),
        b.no_duplicates(),
        rank5(a) == HandRank::FullHouse,
        rank5(b) == HandRank::FullHouse,
        count_val(a, ta) == 3,
        count_val(b, tb) == 3,
        count_val(a, pa) == 2,
        count_val(b, pb) == 2,
    ensures
        ta > tb ==> score5(a) > score5(b),
        ta == tb && pa > pb ==> score5(a) > score5(b),
{
    lemma_big_group_first(a, ta);
    lemma_big_group_first(b, tb);
    lemma_second_group(a, ta, pa);
    lemma_second_group(b, tb, pb);
    lemma_grouped_score(a, ta);
    lemma_grouped_score(b, tb);
}

/// Of two hands of three of a kind (five distinct cards each), the one with the higher three
/// has the higher score, whatever the kickers.
pub proof fn law_three_of_a_kind_order(a: Seq<Card>, b: Seq<Card>, ta: int, tb: int)
    requires
        a.len() == 5,
        b.len() == 5,
        a.no_duplicates(),
        b.no_duplicates(),
        rank5(a) == HandRank::ThreeOfAKind,
        rank5(b) == HandRank::ThreeOfAKind,
        count_val(a, ta) == 3,
        count_val(b, tb) == 3,
        ta > tb,
    ensures
        score5(a) > score5(b),
{
    lemma_big_group_first(a, ta);
    lemma_big_group_first(b, tb);
    lemma_grouped_score(a, ta);
    lemma_grouped_score(b, tb);
}

/// In a one-pair hand of five cards, the pair's group comes first.
#[verifier::rlimit(50)]
#[verifier::spinoff_prover]
proof fn lemma_pair_first(c: Seq<Card>, p: int)
    requires
        c.len() == 5,
        rank5(c) == HandRank::OnePair,
        count_val(c, p) == 2,
    ensures
        rank_groups(c).len() > 0,
        gval(rank_groups(c), 0) == p,
        rank_groups(c)[0].1 == 2,
        !(rank_groups(c).len() > 1 && rank_groups(c)[1].1 == 2),
{
    let g = rank_groups(c);
    lemma_groups5(c);
    let x = choose|x: int| 0 <= x < g.len() && gval(g, x) == p;
    assert(g[x].1 as int == count_val(c, p));
    if x > 0 {
        if x > 1 {
            assert(group_key(g[1]) > group_key(g[x]));
        }
        assert(group_key(g[0]) > group_key(g[1]));
        assert(g[1].1 >= 2);
    }
}

/// Of two one-pair hands (five distinct cards each), the one with the higher pair has the
/// higher score, whatever the kickers.
pub proof fn law_one_pair_order(a: Seq<Card>, b: Seq<Card>, pa: int, pb: int)
    requires
        a.len() == 5,
        b.len() == 5,
        a.no_duplicates(),
        b.no_duplicates(),
        rank5(a) == HandRank::OnePair,
        rank5(b) == HandRank::OnePair,
        count_val(a, pa) == 2,
        count_val(b, pb) == 2,
        pa > pb,
    ensures
        score5(a) > score5(b),
{
    lemma_pair_first(a, pa);
    lemma_pair_first(b, pb);
    lemma_grouped_score(a, pa);
    lemma_grouped_score(b, pb);
}

/// In a two-pair hand of five cards with pairs `hi > lo`, the groups of `hi` and `lo` come
/// first and second.
#[verifier::rlimit(100)]
#[verifier::spinoff_prover]
proof fn lemma_two_pairs_first(c: Seq<Card>, hi: int, lo: int)
    requires
        c.len() == 5,
        rank5(c) == HandRank::TwoPair,
        count_val(c, hi) == 2,
        count_val(c, lo) == 2,
        hi > lo,
    ensures
        rank_groups(c).len() > 1,
        gval(rank_groups(c), 0) == hi,
        gval(rank_groups(c), 1) == lo,
        rank_groups(c)[0].1 == 2,
        rank_groups(c)[1].1 == 2,
{
    let g = rank_groups(c);
    lemma_groups5(c);
    let v0 = gval(g, 0);
    let v1 = gval(g, 1);
    assert(group_key(g[0]) > group_key(g[1]));
    assert(v0 > v1);
    assert(count_val(c, v0) == 2 && count_val(c, v1) == 2);
    if hi != v0 && hi != v1 {
        lemma_count_three_values(c, hi, v0, v1);
    }
    if lo != v0 && lo != v1 {
        lemma_count_three_values(c, lo, v0, v1);
    }
}

/// Of two two-pair hands (five distinct cards each), the one with the higher top pair has the
/// higher score; with equal top pairs, the higher second pair scores higher; the kicker only
/// decides between equal pairs.
#[verifier::rlimit(50)]
#[verifier::spinoff_prover]
pub proof fn law_two_pair_order(a: Seq<Card>, b: Seq<Card>, ha: int, la: int, hb: int, lb: int)
    requires
        a.len() == 5,
        b.len() == 5,
        a.no_duplicates(),
        b.no_duplicates(),
        rank5(a) == HandRank::TwoPair,
        rank5(b) == HandRank::TwoPair,
        count_val(a, ha) == 2,
        count_val(a, la) == 2,
        count_val(b, hb) == 2,
        count_val(b, lb) == 2,
        ha > la,
        hb > lb,
    ensures
        ha > hb ==> score5(a) > score5(b),
        ha == hb && la > lb ==> score5(a) > score5(b),
{
    lemma_two_pairs_first(a, ha, la);
    lemma_two_pairs_first(b, hb, lb);
    lemma_groups5(a);
    lemma_groups5(b);
    lemma_pair_not_flush(a, ha);
    lemma_pair_not_straight(a, ha);
    lemma_pair_not_flush(b, hb);
    lemma_pair_not_straight(b, hb);
    if rank_groups(a).len() > 2 {
        assert(2 <= gval(rank_groups(a), 2) <= 14);
    }
    if rank_groups(b).len() > 2 {
        assert(2 <= gval(rank_groups(b), 2) <= 14);
    }
}

/// `a` comes before `b` in the order that compares values from the first on: they agree before
/// position `i`, and at `i` the value of `a` is higher.
pub open spec fn first_higher_at(a: Seq<int>, b: Seq<int>, i: int) -> bool {
    &&& 0 <= i < a.len()
    &&& a.len() == b.len()
    &&& forall|k: int| 0 <= k < i ==> #[trigger] a[k] == b[k]
    &&& a[i] > b[i]
}

/// Packing values below 16 keeps the order that compares values from the first on.
proof fn lemma_pack_order(a: Seq<int>, b: Seq<int>, i: int)
    requires
        first_higher_at(a, b, i),
        forall|k: int| 0 <= k < a.len() ==> 0 <= #[trigger] a[k] < 16,
        forall|k: int| 0 <= k < b.len() ==> 0 <= #[trigger] b[k] < 16,
    ensures
        pack(a) > pack(b),
    decreases a.len(),
{
    let n = a.len() as int;
    let a1 = a.drop_last();
    let b1 = b.drop_last();
    if i < n - 1 {
        assert forall|k: int| 0 <= k < i implies #[trigger] a1[k] == b1[k] by {
            assert(a[k] == b[k]);
        }
        lemma_pack_order(a1, b1, i);
        lemma_pack_lt(b1);
    } else {
        assert(a1 =~= b1) by {
            assert forall|k: int| 0 <= k < n - 1 implies a1[k] == b1[k] by {
                assert(a[k] == b[k]);
            }
        }
    }
}

/// Of two flushes that are not straights (five distinct cards each), or of two high-card hands,
/// the score compares the card values from the highest down: the first higher value wins.
pub proof fn law_flush_and_high_card_order(a: Seq<Card>, b: Seq<Card>, i: int)
    requires
        a.len() == 5,
        b.len() == 5,
        a.no_duplicates(),
        b.no_duplicates(),
        (rank5(a) == HandRank::Flush && rank5(b) == HandRank::Flush) || (rank5(a) == HandRank::HighCard
            && rank5(b) == HandRank::HighCard),
        first_higher_at(desc_values(a), desc_values(b), i),
    ensures
        score5(a) > score5(b),
{
    lemma_desc_values_range(a);
    lemma_desc_values_range(b);
    lemma_pack_order(desc_values(a), desc_values(b), i);
    lemma_groups5(a);
    lemma_groups5(b);
    lemma_high_group_single(a);
    lemma_high_group_single(b);
}

/// A five-card hand of category Flush or HighCard has groups, the first of neither two, three
/// nor four cards.
proof fn lemma_high_group_single(c: Seq<Card>)
    requires
        c.len() == 5,
        rank5(c) == HandRank::Flush || rank5(c) == HandRank::HighCard,
    ensures
        rank_groups(c).len() > 0,
        rank_groups(c)[0].1 != 2 && rank_groups(c)[0].1 != 3 && rank_groups(c)[0].1 != 4,
{
    let g = rank_groups(c);
    lemma_groups5(c);
    let v = rank_val(c[0].rank);
    lemma_rank_val(c[0].rank);
    lemma_count_val_contains_rev(c, 0);
    assert(count_val(c, v) >= 1);
    let x = choose|x: int| 0 <= x < g.len() && gval(g, x) == v;
    assert(g.len() > 0);
}

/// A card's value occurs in the hand.
proof fn lemma_count_val_contains_rev(c: Seq<Card>, k: int)
    requires
        0 <= k < c.len(),
    ensures
        count_val(c, rank_val(c[k].rank)) >= 1,
    decreases c.len(),
{
    if k < c.len() - 1 {
        lemma_count_val_contains_rev(c.drop_last(), k);
        assert(c.drop_last()[k] == c[k]);
    }
}

/// `t` is the top card of a straight in `cards`: the five values `t - 4, ..., t` occur (the top
/// is at least Six), or the wheel Ace-Two-Three-Four-Five occurs and the top is Five.
pub open spec fn straight_top(cards: Seq<Card>, t: int) -> bool {
    ||| 6 <= t <= 14 && has_run_from(cards, t - 4)
    ||| t == 5 && has_wheel(cards)
}

/// The values of a straight's five cards, lowest first (Ace first for the wheel).
pub open spec fn run_values(t: int) -> Seq<int> {
    if t == 5 {
        seq![14int, 2, 3, 4, 5]
    } else {
        seq![t - 4, t - 3, t - 2, t - 1, t]
    }
}

/// In a five-card straight with top `t`, every card's value is one of the straight's values.
proof fn lemma_straight_only_run(c: Seq<Card>, t: int, k: int)
    requires
        c.len() == 5,
        straight_top(c, t),
        0 <= k < 5,
    ensures
        run_values(t).contains(rank_val(c[k].rank)),
{
    let run = run_values(t);
    let cv = card_values(c);
    let rest = cv.remove(k);
    assert(run.no_duplicates());
    if !run.contains(cv[k]) {
        assert forall|q: int| 0 <= q < run.len() implies rest.contains(#[trigger] run[q]) by {
            assert(has_val(c, run[q]));
            lemma_count_val_contains(c, run[q]);
            let p = choose|p: int| 0 <= p < cv.len() && cv[p] == run[q];
            assert(p != k);
            if p < k {
                assert(rest[p] == cv[p]);
            } else {
                assert(rest[p - 1] == cv[p]);
            }
        }
        lemma_distinct_values_bound(run, rest);
    }
    assert(cv[k] == rank_val(c[k].rank));
}

/// The top card of a five-card straight is what the score reads as its high card.
proof fn lemma_straight_high(c: Seq<Card>, t: int)
    requires
        c.len() == 5,
        straight_top(c, t),
    ensures
        straight_high(desc_values(c)) == t,
{
    broadcast use vstd::seq_lib::group_to_multiset_ensures;

    let vals = desc_values(c);
    let cv = card_values(c);
    let run = run_values(t);
    lemma_geq_total();
    cv.lemma_sort_by_ensures(geq());
    vstd::seq_lib::to_multiset_len(vals);
    vstd::seq_lib::to_multiset_len(cv);
    assert forall|x: int| 0 <= x < vals.len() implies run.contains(#[trigger] vals[x]) by {
        vstd::seq_lib::to_multiset_contains(vals, vals[x]);
        vstd::seq_lib::to_multiset_contains(cv, vals[x]);
        let y = choose|y: int| 0 <= y < cv.len() && cv[y] == vals[x];
        lemma_straight_only_run(c, t, y);
    }
    assert forall|q: int| 0 <= q < 5 implies vals.contains(#[trigger] run[q]) by {
        assert(has_val(c, run[q]));
        lemma_count_val_contains(c, run[q]);
        vstd::seq_lib::to_multiset_contains(cv, run[q]);
        vstd::seq_lib::to_multiset_contains(vals, run[q]);
    }
    assert(vals.contains(run[4]));
    assert(vals.contains(run[0]));
    if t != 5 {
        let x = choose|x: int| 0 <= x < vals.len() && vals[x] == t;
        if x > 0 {
            assert(geq()(vals[0], vals[x]));
        }
        assert(run.contains(vals[0]));
        if vals.contains(14) && vals.contains(5) {
            let a = choose|a: int| 0 <= a < vals.len() && vals[a] == 14;
            let b = choose|b: int| 0 <= b < vals.len() && vals[b] == 5;
            assert(run.contains(vals[a]));
            assert(run.contains(vals[b]));
        }
    }
}

/// Of two straights, or of two straight flushes, the one with the higher top card has the
/// higher score (the wheel's top card is the Five).
pub proof fn law_straight_order(a: Seq<Card>, b: Seq<Card>, ta: int, tb: int)
    requires
        a.len() == 5,
        b.len() == 5,
        (rank5(a) == HandRank::Straight && rank5(b) == HandRank::Straight) || (rank5(a)
            == HandRank::StraightFlush && rank5(b) == HandRank::StraightFlush),
        straight_top(a, ta),
        straight_top(b, tb),
        ta > tb,
    ensures
        score5(a) > score5(b),
{
    lemma_straight_high(a, ta);
    lemma_straight_high(b, tb);
}

} // verus!
