use hupoker::card::Rank::{Ace, Eight, Five, Four, Jack, King, Nine, Queen, Seven, Six, Ten, Three, Two};
use hupoker::card::Suit::{Clubs, Diamonds, Hearts, Spades};
use hupoker::card::{Card, Rank, Suit};
use hupoker::hand_evaluation::{evaluate_hand, evaluate_hand_score, score_to_rank, HandRank};

fn card(rank: Rank, suit: Suit) -> Card {
    Card { rank, suit }
}

#[test]
fn test_high_card() {
    let cards = vec![
        card(Two, Clubs),
        card(Four, Diamonds),
        card(Six, Hearts),
        card(Eight, Spades),
        card(Ten, Clubs),
        card(King, Diamonds),
        card(Ace, Hearts),
    ];
    assert_eq!(evaluate_hand(&cards), HandRank::HighCard);
}

#[test]
fn test_one_pair() {
    let cards = vec![
        card(Two, Clubs),
        card(Two, Diamonds),
        card(Seven, Hearts),
        card(Eight, Spades),
        card(Ten, Clubs),
        card(Jack, Diamonds),
        card(King, Hearts),
    ];
    assert_eq!(evaluate_hand(&cards), HandRank::OnePair);
}

#[test]
fn test_two_pair() {
    let cards = vec![
        card(Two, Clubs),
        card(Two, Diamonds),
        card(Three, Hearts),
        card(Three, Spades),
        card(Seven, Clubs),
        card(Eight, Diamonds),
        card(Ten, Hearts),
    ];
    assert_eq!(evaluate_hand(&cards), HandRank::TwoPair);
}

#[test]
fn test_three_of_a_kind() {
    let cards = vec![
        card(Two, Clubs),
        card(Two, Diamonds),
        card(Two, Hearts),
        card(Seven, Spades),
        card(Eight, Clubs),
        card(Ten, Diamonds),
        card(Jack, Hearts),
    ];
    assert_eq!(evaluate_hand(&cards), HandRank::ThreeOfAKind);
}

#[test]
fn test_straight() {
    let cards = vec![
        card(Two, Clubs),
        card(Three, Diamonds),
        card(Four, Hearts),
        card(Five, Spades),
        card(Six, Clubs),
        card(King, Diamonds),
        card(Ace, Hearts),
    ];
    assert_eq!(evaluate_hand(&cards), HandRank::Straight);
}

#[test]
fn test_wheel_straight() {
    let cards = vec![
        card(Ace, Clubs),
        card(Two, Diamonds),
        card(Three, Hearts),
        card(Four, Spades),
        card(Five, Clubs),
        card(King, Diamonds),
        card(Queen, Hearts),
    ];
    assert_eq!(evaluate_hand(&cards), HandRank::Straight);
}

#[test]
fn test_wheel_straight_beats_nothing() {
    let wheel = vec![
        card(Ace, Clubs),
        card(Two, Diamonds),
        card(Three, Hearts),
        card(Four, Spades),
        card(Five, Clubs),
    ];
    let high_card = vec![
        card(Ace, Clubs),
        card(King, Diamonds),
        card(Queen, Hearts),
        card(Jack, Spades),
        card(Nine, Clubs),
    ];
    assert!(evaluate_hand_score(&wheel) > evaluate_hand_score(&high_card));
}

#[test]
fn test_flush() {
    let cards = vec![
        card(Two, Clubs),
        card(Four, Clubs),
        card(Six, Clubs),
        card(Eight, Clubs),
        card(Ten, Clubs),
        card(King, Diamonds),
        card(Ace, Hearts),
    ];
    assert_eq!(evaluate_hand(&cards), HandRank::Flush);
}

#[test]
fn test_full_house() {
    let cards = vec![
        card(Two, Clubs),
        card(Two, Diamonds),
        card(Two, Hearts),
        card(Three, Spades),
        card(Three, Clubs),
        card(King, Diamonds),
        card(Ace, Hearts),
    ];
    assert_eq!(evaluate_hand(&cards), HandRank::FullHouse);
}

#[test]
fn test_four_of_a_kind() {
    let cards = vec![
        card(Two, Clubs),
        card(Two, Diamonds),
        card(Two, Hearts),
        card(Two, Spades),
        card(Three, Clubs),
        card(King, Diamonds),
        card(Ace, Hearts),
    ];
    assert_eq!(evaluate_hand(&cards), HandRank::FourOfAKind);
}

#[test]
fn test_straight_flush() {
    let cards = vec![
        card(Two, Clubs),
        card(Three, Clubs),
        card(Four, Clubs),
        card(Five, Clubs),
        card(Six, Clubs),
        card(King, Diamonds),
        card(Ace, Hearts),
    ];
    assert_eq!(evaluate_hand(&cards), HandRank::StraightFlush);
}

#[test]
fn test_royal_flush() {
    let cards = vec![
        card(Ten, Clubs),
        card(Jack, Clubs),
        card(Queen, Clubs),
        card(King, Clubs),
        card(Ace, Clubs),
        card(Two, Diamonds),
        card(Three, Hearts),
    ];
    assert_eq!(evaluate_hand(&cards), HandRank::RoyalFlush);
}

#[test]
fn fewer_than_five_cards_score_nothing() {
    let cards = vec![card(Ace, Clubs), card(Ace, Diamonds), card(Ace, Hearts), card(Ace, Spades)];
    assert_eq!(evaluate_hand_score(&cards), 0);
    assert_eq!(evaluate_hand(&cards), HandRank::HighCard);
}

#[test]
fn score_encodes_category_and_ranks() {
    // Four deuces with a king kicker: category 7, quad rank 2, kicker 13.
    let cards = vec![
        card(Two, Clubs),
        card(Two, Diamonds),
        card(Two, Hearts),
        card(Two, Spades),
        card(King, Clubs),
    ];
    assert_eq!(evaluate_hand_score(&cards), 7 * 0x100000 + 2 * 0x10000 + 13 * 0x1000);
    // A royal flush scores exactly its category.
    let royal = vec![
        card(Ten, Hearts),
        card(Jack, Hearts),
        card(Queen, Hearts),
        card(King, Hearts),
        card(Ace, Hearts),
    ];
    assert_eq!(evaluate_hand_score(&royal), 9 * 0x100000);
    // The wheel straight is five-high.
    let wheel = vec![
        card(Ace, Clubs),
        card(Two, Diamonds),
        card(Three, Hearts),
        card(Four, Spades),
        card(Five, Clubs),
    ];
    assert_eq!(evaluate_hand_score(&wheel), 4 * 0x100000 + 5 * 0x10000);
}

#[test]
fn score_to_rank_reads_the_category() {
    assert_eq!(score_to_rank(0), HandRank::HighCard);
    assert_eq!(score_to_rank(7 * 0x100000 + 2 * 0x10000), HandRank::FourOfAKind);
    assert_eq!(score_to_rank(9 * 0x100000), HandRank::RoyalFlush);
    assert_eq!(score_to_rank(10 * 0x100000), HandRank::HighCard);
}

#[test]
fn best_five_of_seven_is_chosen() {
    let flush_and_pair = vec![
        card(Two, Hearts),
        card(Two, Clubs),
        card(Five, Hearts),
        card(Nine, Hearts),
        card(Jack, Hearts),
        card(King, Hearts),
        card(Three, Spades),
    ];
    assert_eq!(evaluate_hand(&flush_and_pair), HandRank::Flush);
    let score = evaluate_hand_score(&flush_and_pair);
    assert_eq!(score_to_rank(score), HandRank::Flush);
}

#[test]
fn category_of_best_score_is_best_category() {
    let hands = vec![
        vec![card(Two, Clubs), card(Two, Diamonds), card(Two, Hearts), card(Nine, Clubs), card(Jack, Clubs), card(Queen, Clubs), card(Ace, Clubs)],
        vec![card(Five, Spades), card(Six, Hearts), card(Seven, Clubs), card(Eight, Diamonds), card(Nine, Spades), card(Nine, Hearts), card(Two, Clubs)],
        vec![card(King, Spades), card(King, Hearts), card(Four, Clubs), card(Four, Diamonds), card(Four, Spades), card(Ace, Hearts), card(Three, Clubs)],
        vec![card(Ten, Hearts), card(Jack, Hearts), card(Queen, Hearts), card(King, Hearts), card(Ace, Hearts), card(Two, Spades), card(Three, Spades)],
    ];
    for cards in hands {
        assert_eq!(score_to_rank(evaluate_hand_score(&cards)), evaluate_hand(&cards));
    }
}

#[test]
fn repeated_cards_can_split_category_and_score() {
    // The same card twice makes a pair and a flush at once: the category sees the pair first,
    // the score the flush.
    let cards = vec![card(Ace, Spades), card(Ace, Spades), card(King, Spades), card(Queen, Spades), card(Nine, Spades)];
    assert_eq!(evaluate_hand(&cards), HandRank::OnePair);
    assert_eq!(score_to_rank(evaluate_hand_score(&cards)), HandRank::Flush);
}

#[test]
fn reordering_the_cards_keeps_the_best_score() {
    let cards = vec![card(Five, Spades), card(Six, Hearts), card(Seven, Clubs), card(Eight, Diamonds), card(Nine, Spades), card(Nine, Hearts), card(Two, Clubs)];
    let mut reversed = cards.clone();
    reversed.reverse();
    let mut rotated = cards.clone();
    rotated.rotate_left(3);
    assert_eq!(evaluate_hand_score(&cards), evaluate_hand_score(&reversed));
    assert_eq!(evaluate_hand_score(&cards), evaluate_hand_score(&rotated));
}

#[test]
fn a_higher_category_scores_higher() {
    let trips = vec![card(Two, Clubs), card(Two, Diamonds), card(Two, Hearts), card(Four, Clubs), card(Five, Clubs)];
    let two_pair = vec![card(Ace, Clubs), card(Ace, Diamonds), card(King, Hearts), card(King, Clubs), card(Queen, Clubs)];
    assert!(evaluate_hand_score(&trips) > evaluate_hand_score(&two_pair));
}
