use std::sync::mpsc;

use poker::action::game_action::GameAction;
use poker::card::{Card, Suit, Value};
use poker::action::mpsc_queue::MpscQueue;
use poker::action::test_queue::TestQueue;
use poker::action::{GameActionQueue, GameMessage};
use poker::engine::Engine;
use poker::player::scripted::ScriptedPlayer;
use poker::player::{PlayerAction, SeatPlayer};
use poker::state::{GameState, Round};

fn caller() -> SeatPlayer {
    SeatPlayer::Scripted(ScriptedPlayer::new(vec![
        PlayerAction::Call(1),
        PlayerAction::Call(0),
        PlayerAction::Call(0),
        PlayerAction::Call(0),
    ]))
}

#[test]
fn game_message_keeps_action_and_state() {
    let msg = GameMessage::new(
        GameAction::RoundChanged { round: Round::Preflop },
        empty_state(),
    );
    assert!(matches!(msg.action, GameAction::RoundChanged { round: Round::Preflop }));
    assert_eq!(msg.state.round, Round::Starting);
}

fn empty_state() -> GameState {
    GameState {
        round: Round::Starting,
        community: vec![],
        players_bet: vec![],
        players_money: vec![],
        bet_amount: 0,
        players_all_in: vec![],
        folded_players: vec![],
        num_active_players: 0,
        active_players: vec![],
    }
}

#[test]
fn test_queue_records_messages_and_dealt_hands() {
    let mut q = TestQueue::default();
    let hand = (
        Card::new(Suit::Club, Value::Ace),
        Card::new(Suit::Spade, Value::Two),
    );
    q.add(GameMessage::new(GameAction::DealStartHand { hand, i: 0 }, empty_state()));
    q.add(GameMessage::new(
        GameAction::RoundChanged { round: Round::Preflop },
        empty_state(),
    ));
    assert_eq!(q.queue.len(), 2);
    assert_eq!(q.cards, vec![hand]);
}

#[test]
fn channel_queue_delivers_messages_in_causal_order() {
    let (tx, rx) = mpsc::channel();
    let players = vec![caller(), caller()];
    let engine = Engine::new(players, MpscQueue::new(tx)).unwrap();
    let stacks = engine.run(vec![100, 100], 1).unwrap();
    assert_eq!(stacks.iter().sum::<i32>(), 200);

    let messages: Vec<GameMessage> = rx.try_iter().collect();
    // Two deals, five round changes, five community cards, the betting
    // and showdown messages: the stream is never empty.
    assert!(messages.len() >= 12);
    assert!(matches!(messages[0].action, GameAction::DealStartHand { i: 0, .. }));
    assert!(matches!(messages[1].action, GameAction::DealStartHand { i: 1, .. }));
    assert!(matches!(
        messages.last().unwrap().action,
        GameAction::WinGame { .. }
    ));
    // The final message carries the completed state.
    assert_eq!(messages.last().unwrap().state.round, Round::Showdown);
}

#[test]
fn closed_channel_does_not_stop_the_hand() {
    let (tx, rx) = mpsc::channel();
    drop(rx);
    let players = vec![caller(), caller()];
    let engine = Engine::new(players, MpscQueue::new(tx)).unwrap();
    let stacks = engine.run(vec![100, 100], 1).unwrap();
    assert_eq!(stacks.iter().sum::<i32>(), 200);
}

#[test]
fn seat_rank_reconstructs_commentary_from_the_stream() {
    let mut q = TestQueue::default();
    let hand = (
        Card::new(Suit::Club, Value::Nine),
        Card::new(Suit::Heart, Value::Nine),
    );
    q.add(GameMessage::new(GameAction::DealStartHand { hand, i: 0 }, empty_state()));
    assert_eq!(q.seat_rank(0), None);
    assert_eq!(q.seat_rank(1), None);

    let mut state = empty_state();
    state.community = vec![
        Card::new(Suit::Diamond, Value::Nine),
        Card::new(Suit::Spade, Value::Two),
        Card::new(Suit::Club, Value::King),
    ];
    q.add(GameMessage::new(
        GameAction::DealCommunity { card: state.community[2] },
        state,
    ));
    assert_eq!(
        q.seat_rank(0),
        Some(poker::rank::Rank::ThreeOfAKind(Value::Nine))
    );
}
