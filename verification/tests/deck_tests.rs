use poker::card::{Card, Suit, Value};
use poker::deck::Deck;

#[test]
fn cards() {
    let c = vec![
        Card { suit: Suit::Club, value: Value::Ace },
        Card { suit: Suit::Diamond, value: Value::Ace },
    ];
    let deck = Deck::new_without_cards(&c);
    println!("{:?}", deck);
}

#[test]
fn full_deck_holds_every_card_once() {
    let mut deck = Deck::default();
    assert_eq!(deck.len(), 52);

    let mut seen: Vec<Card> = Vec::new();
    while let Some(c) = deck.take() {
        assert!(!seen.contains(&c), "card dealt twice");
        seen.push(c);
    }
    assert_eq!(seen.len(), 52);
}

#[test]
fn excluded_cards_are_never_dealt() {
    let excluded = vec![
        Card::new(Suit::Club, Value::Ace),
        Card::new(Suit::Diamond, Value::Ace),
        Card::new(Suit::Heart, Value::Two),
    ];
    let mut deck = Deck::new_without_cards(&excluded);
    assert_eq!(deck.len(), 52 - excluded.len());

    let mut seen: Vec<Card> = Vec::new();
    while let Some(c) = deck.take() {
        assert!(!excluded.contains(&c), "an excluded card was dealt");
        assert!(!seen.contains(&c), "card dealt twice");
        seen.push(c);
    }
    assert_eq!(seen.len(), 49);
}

#[test]
fn empty_deck_yields_nothing() {
    let mut deck = Deck::default();
    for _ in 0..52 {
        assert!(deck.take().is_some());
    }
    assert_eq!(deck.take(), None);
    assert_eq!(deck.len(), 0);
}
