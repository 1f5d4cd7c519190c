use poker::card::{Card, Suit, Value};
use poker::hand::{Hand, Rankable};
use poker::rank::Rank;

#[test]
fn high_card_rank() {
    let hand = Hand::new_from_cards(vec![
        Card::new(Suit::Club, Value::Ace),
        Card::new(Suit::Spade, Value::Ten),
        Card::new(Suit::Diamond, Value::Two),
        Card::new(Suit::Heart, Value::Three),
        Card::new(Suit::Club, Value::Jack),
        Card::new(Suit::Club, Value::King),
        Card::new(Suit::Club, Value::Six),
    ]);

    let rank = hand.rank().unwrap();
    assert_eq!(rank, Rank::HighCard(Value::Ace))
}

#[test]
fn one_pair_rank() {
    let hand = Hand::new_from_cards(vec![
        Card::new(Suit::Club, Value::Ace),
        Card::new(Suit::Spade, Value::Ten),
        Card::new(Suit::Diamond, Value::Two),
        Card::new(Suit::Heart, Value::Jack),
        Card::new(Suit::Club, Value::Jack),
        Card::new(Suit::Club, Value::King),
        Card::new(Suit::Club, Value::Six),
    ]);

    let rank = hand.rank().unwrap();
    assert_eq!(rank, Rank::OnePair(Value::Jack))
}

#[test]
fn two_pair_rank() {
    let hand = Hand::new_from_cards(vec![
        Card::new(Suit::Club, Value::Three),
        Card::new(Suit::Spade, Value::Ten),
        Card::new(Suit::Diamond, Value::Two),
        Card::new(Suit::Club, Value::Six),
        Card::new(Suit::Club, Value::Six),
        Card::new(Suit::Heart, Value::Ace),
        Card::new(Suit::Club, Value::Ace),
    ]);

    let rank = hand.rank().unwrap();
    assert_eq!(rank, Rank::TwoPair(Value::Ace, Value::Six))
}

#[test]
fn three_of_a_kind_rank() {
    let hand = Hand::new_from_cards(vec![
        Card::new(Suit::Club, Value::Three),
        Card::new(Suit::Spade, Value::Ten),
        Card::new(Suit::Diamond, Value::Two),
        Card::new(Suit::Club, Value::Six),
        Card::new(Suit::Club, Value::Ace),
        Card::new(Suit::Heart, Value::Ace),
        Card::new(Suit::Diamond, Value::Ace),
    ]);

    let rank = hand.rank().unwrap();
    assert_eq!(rank, Rank::ThreeOfAKind(Value::Ace))
}

#[test]
fn four_of_a_kind_rank() {
    let hand = Hand::new_from_cards(vec![
        Card::new(Suit::Club, Value::Three),
        Card::new(Suit::Spade, Value::Ten),
        Card::new(Suit::Diamond, Value::Two),
        Card::new(Suit::Spade, Value::Ace),
        Card::new(Suit::Club, Value::Ace),
        Card::new(Suit::Heart, Value::Ace),
        Card::new(Suit::Diamond, Value::Ace),
    ]);

    let rank = hand.rank().unwrap();
    assert_eq!(rank, Rank::FourOfAKind(Value::Ace))
}

#[test]
fn flush_rank() {
    let hand = Hand::new_from_cards(vec![
        Card::new(Suit::Spade, Value::Ace),
        Card::new(Suit::Spade, Value::King),
        Card::new(Suit::Spade, Value::Three),
        Card::new(Suit::Spade, Value::Two),
        Card::new(Suit::Spade, Value::Jack),
        Card::new(Suit::Club, Value::Ace),
        Card::new(Suit::Club, Value::Six),
    ]);

    let rank = hand.rank().unwrap();
    assert_eq!(rank, Rank::Flush(Value::Ace, Suit::Spade))
}

#[test]
fn full_house_rank() {
    let hand = Hand::new_from_cards(vec![
        Card::new(Suit::Club, Value::Three),
        Card::new(Suit::Spade, Value::Ace),
        Card::new(Suit::Diamond, Value::Ace),
        Card::new(Suit::Club, Value::Six),
        Card::new(Suit::Club, Value::Ten),
        Card::new(Suit::Heart, Value::Ten),
        Card::new(Suit::Diamond, Value::Ten),
    ]);

    let rank = hand.rank().unwrap();
    assert_eq!(rank, Rank::FullHouse(Value::Ten, Value::Ace))
}

#[test]
fn straight_rank() {
    let hand = Hand::new_from_cards(vec![
        Card::new(Suit::Club, Value::Ace),
        Card::new(Suit::Spade, Value::King),
        Card::new(Suit::Diamond, Value::Queen),
        Card::new(Suit::Heart, Value::Jack),
        Card::new(Suit::Club, Value::Ten),
        Card::new(Suit::Club, Value::King),
        Card::new(Suit::Club, Value::Six),
    ]);

    let rank = hand.rank().unwrap();
    assert_eq!(rank, Rank::Straight(Value::Ace))
}

#[test]
fn straight_corner_case_rank() {
    let hand = Hand::new_from_cards(vec![
        Card::new(Suit::Club, Value::Ace),
        Card::new(Suit::Spade, Value::Two),
        Card::new(Suit::Diamond, Value::Three),
        Card::new(Suit::Heart, Value::Four),
        Card::new(Suit::Club, Value::Five),
        Card::new(Suit::Club, Value::King),
        Card::new(Suit::Club, Value::Jack),
    ]);

    let rank = hand.rank().unwrap();
    assert_eq!(rank, Rank::Straight(Value::Five))
}

#[test]
fn straight_flush_rank() {
    let hand = Hand::new_from_cards(vec![
        Card::new(Suit::Diamond, Value::Ace),
        Card::new(Suit::Diamond, Value::King),
        Card::new(Suit::Diamond, Value::Queen),
        Card::new(Suit::Diamond, Value::Jack),
        Card::new(Suit::Diamond, Value::Ten),
        Card::new(Suit::Club, Value::King),
        Card::new(Suit::Club, Value::Six),
    ]);

    let rank = hand.rank().unwrap();
    assert_eq!(rank, Rank::StraightFlush(Value::Ace, Suit::Diamond))
}

#[test]
fn small_hand_is_rejected() {
    let hand = Hand::new_from_cards(vec![
        Card::new(Suit::Club, Value::Ace),
        Card::new(Suit::Spade, Value::King),
        Card::new(Suit::Diamond, Value::Queen),
        Card::new(Suit::Heart, Value::Jack),
    ]);

    assert_eq!(hand.rank(), Err(poker::error::EngineError::SmallHandError));
}

#[test]
fn pushed_cards_are_ranked() {
    let mut hand = Hand::new();
    hand.push(Card::new(Suit::Club, Value::Nine));
    hand.push(Card::new(Suit::Spade, Value::Nine));
    hand.push(Card::new(Suit::Diamond, Value::Two));
    hand.push(Card::new(Suit::Heart, Value::Five));
    hand.push(Card::new(Suit::Club, Value::King));

    assert_eq!(hand.rank().unwrap(), Rank::OnePair(Value::Nine));
}

#[test]
fn hole_and_community_cards_are_ranked_together() {
    let community = vec![
        Card::new(Suit::Diamond, Value::Seven),
        Card::new(Suit::Heart, Value::Seven),
        Card::new(Suit::Spade, Value::Queen),
        Card::new(Suit::Club, Value::Four),
        Card::new(Suit::Diamond, Value::Nine),
    ];
    let hand = Hand::new_from_hand(
        (Card::new(Suit::Club, Value::Seven), Card::new(Suit::Spade, Value::Four)),
        &community,
    );

    assert_eq!(hand.rank().unwrap(), Rank::FullHouse(Value::Seven, Value::Four));
}
