use poker::card::{Card, Suit, Value};
use poker::rank::Rank;

#[test]
fn correct_rank_order() {
    assert!(Rank::HighCard(Value::Ace) < Rank::OnePair(Value::Ace));
    assert!(Rank::OnePair(Value::Ace) < Rank::TwoPair(Value::Ace, Value::Eight));
    assert!(Rank::TwoPair(Value::Ace, Value::Eight) < Rank::ThreeOfAKind(Value::Ace));
    assert!(Rank::ThreeOfAKind(Value::Ace) < Rank::Straight(Value::Ace));
    assert!(Rank::Straight(Value::Ace) < Rank::Flush(Value::Ace, Suit::Club));
    assert!(Rank::Flush(Value::Ace, Suit::Club) < Rank::FullHouse(Value::Ace, Value::Eight));
    assert!(Rank::FullHouse(Value::Ace, Value::Eight) < Rank::FourOfAKind(Value::Ace));
    assert!(Rank::FourOfAKind(Value::Ace) < Rank::StraightFlush(Value::Ace, Suit::Diamond));
}

#[test]
fn two_pair_cmp() {
    assert!(Rank::TwoPair(Value::Ace, Value::Eight) > Rank::TwoPair(Value::Ace, Value::Six));
    assert!(Rank::TwoPair(Value::Ten, Value::Eight) < Rank::TwoPair(Value::Ace, Value::Six));
}

#[test]
fn flush_eq() {
    assert_eq!(
        Rank::Flush(Value::Ace, Suit::Club),
        Rank::Flush(Value::Ace, Suit::Diamond)
    );
}

#[test]
fn category_beats_value() {
    assert!(Rank::OnePair(Value::Ace) < Rank::TwoPair(Value::Two, Value::Three));
}

#[test]
fn straight_flush_eq_ignores_suit() {
    assert_eq!(
        Rank::StraightFlush(Value::Nine, Suit::Heart),
        Rank::StraightFlush(Value::Nine, Suit::Spade)
    );
    assert_ne!(
        Rank::StraightFlush(Value::Nine, Suit::Heart),
        Rank::StraightFlush(Value::Ten, Suit::Heart)
    );
}

#[test]
fn category_numbers() {
    assert_eq!(Rank::HighCard(Value::Two).to_i32(), 1);
    assert_eq!(Rank::OnePair(Value::Two).to_i32(), 2);
    assert_eq!(Rank::TwoPair(Value::Four, Value::Two).to_i32(), 3);
    assert_eq!(Rank::ThreeOfAKind(Value::Two).to_i32(), 4);
    assert_eq!(Rank::Straight(Value::Six).to_i32(), 5);
    assert_eq!(Rank::Flush(Value::Ten, Suit::Club).to_i32(), 6);
    assert_eq!(Rank::FullHouse(Value::Two, Value::Three).to_i32(), 7);
    assert_eq!(Rank::FourOfAKind(Value::Two).to_i32(), 8);
    assert_eq!(Rank::StraightFlush(Value::Six, Suit::Club).to_i32(), 9);
}

#[test]
fn detectors_report_the_highest_witness() {
    // Three pairs on the table: only the two highest make the two pair.
    let cards = vec![
        Card::new(Suit::Club, Value::Two),
        Card::new(Suit::Heart, Value::Two),
        Card::new(Suit::Club, Value::Five),
        Card::new(Suit::Heart, Value::Five),
        Card::new(Suit::Club, Value::Nine),
        Card::new(Suit::Heart, Value::Nine),
        Card::new(Suit::Spade, Value::King),
    ];
    assert_eq!(
        poker::rank::rank_two_pair(&cards),
        Some(Rank::TwoPair(Value::Nine, Value::Five))
    );
    assert_eq!(poker::rank::rank_one_pair(&cards), Some(Rank::OnePair(Value::Nine)));
    assert_eq!(poker::rank::rank_three_of_a_kind(&cards), None);
    assert_eq!(poker::rank::rank_four_of_a_kind(&cards), None);
    assert_eq!(poker::rank::rank_straight(&cards), None);
    assert_eq!(poker::rank::rank_flush(&cards), None);
    assert_eq!(poker::rank::rank_straight_flush(&cards), None);
    assert_eq!(poker::rank::rank_full_house(&cards), None);
}

#[test]
fn full_house_prefers_highest_triple_and_pair() {
    let cards = vec![
        Card::new(Suit::Club, Value::Three),
        Card::new(Suit::Heart, Value::Three),
        Card::new(Suit::Spade, Value::Three),
        Card::new(Suit::Club, Value::Queen),
        Card::new(Suit::Heart, Value::Queen),
        Card::new(Suit::Spade, Value::Queen),
        Card::new(Suit::Diamond, Value::Ace),
    ];
    assert_eq!(
        poker::rank::rank_full_house(&cards),
        Some(Rank::FullHouse(Value::Queen, Value::Three))
    );
}

#[test]
fn no_cards_have_no_highest_card() {
    let cards: Vec<Card> = vec![];
    assert_eq!(
        poker::rank::compute_rank(&cards),
        Err(poker::error::EngineError::HighestCardNotAvailable)
    );
}
