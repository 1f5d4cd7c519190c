use poker::action::test_queue::TestQueue;
use poker::card::{Card, Suit, Value};
use poker::engine::Engine;
use poker::error::EngineError;
use poker::player::dummy::DummyPlayer;
use poker::player::scripted::ScriptedPlayer;
use poker::player::{PlayerAction, SeatPlayer};
use poker::state::{GameState, Round};

fn dummies(n: usize) -> Vec<SeatPlayer> {
    let mut players = Vec::new();
    for _ in 0..n {
        players.push(SeatPlayer::Dummy(DummyPlayer::default()));
    }
    players
}

/// A seat that calls the blind and then checks every street.
fn caller() -> SeatPlayer {
    SeatPlayer::Scripted(ScriptedPlayer::new(vec![
        PlayerAction::Call(1),
        PlayerAction::Call(0),
        PlayerAction::Call(0),
        PlayerAction::Call(0),
    ]))
}

#[test]
#[should_panic]
fn so_many_players() {
    let n = 24;
    let players = dummies(n);
    let old_stacks = vec![100; n];

    let engine = Engine::new(players, TestQueue::default()).unwrap();

    let new_stacks = engine.run(old_stacks.clone(), 1).unwrap();

    println!("{:?}", old_stacks);
    println!("{:?}", new_stacks);
}

#[test]
fn debug_engine() -> Result<(), EngineError> {
    let n = 23;
    let players = dummies(n);
    let old_stacks = vec![1000; n];

    let engine = Engine::new(players, TestQueue::default())?;

    let new_stacks = engine.run(old_stacks.clone(), 1)?;

    println!("{:?}", old_stacks);
    println!("{:?}", new_stacks);

    Ok(())
}

#[test]
fn run_from_started_game() {
    let state = GameState {
        round: Round::Preflop,
        community: vec![],
        players_bet: vec![1, 0, 0, 0],
        players_money: vec![0, 100, 100, 100],
        bet_amount: 1,
        players_all_in: vec![0],
        folded_players: vec![],
        num_active_players: 3,
        active_players: vec![1, 2, 3],
    };
    let players = dummies(4);
    let hand = (
        Card { suit: Suit::Club, value: Value::Ace },
        Card { suit: Suit::Spade, value: Value::Ace },
    );
    let player_idx = 1;

    let stacks = Engine::run_from_game_state(
        players,
        TestQueue::default(),
        state,
        hand,
        player_idx,
    )
    .unwrap();
    println!("{stacks:?}");
}

#[test]
fn scripted_hand_conserves_the_chips() {
    let players = vec![caller(), caller(), caller(), caller()];
    let engine = Engine::new(players, TestQueue::default()).unwrap();

    let stacks = engine.run(vec![100, 100, 100, 100], 1).unwrap();

    assert_eq!(stacks.len(), 4);
    assert_eq!(stacks.iter().sum::<i32>(), 400);
    // One seat won the four blinds, the others paid one each.
    assert_eq!(stacks.iter().filter(|&&s| s == 103).count(), 1);
    assert_eq!(stacks.iter().filter(|&&s| s == 99).count(), 3);
}

#[test]
fn mismatched_money_vector_fails_setup() {
    let players = dummies(3);
    let engine = Engine::new(players, TestQueue::default()).unwrap();

    let r = engine.run(vec![100, 100], 1);
    assert_eq!(r, Err(EngineError::BadGameError));
}

#[test]
fn non_positive_blind_fails_setup() {
    let players = dummies(3);
    let engine = Engine::new(players, TestQueue::default()).unwrap();
    assert_eq!(engine.run(vec![100, 100, 100], 0), Err(EngineError::SmallBlindError));

    let players = dummies(3);
    let engine = Engine::new(players, TestQueue::default()).unwrap();
    assert_eq!(engine.run(vec![100, 100, 100], -5), Err(EngineError::SmallBlindError));
}

#[test]
fn preflop_raise_is_fatal() {
    let players = vec![
        caller(),
        SeatPlayer::Scripted(ScriptedPlayer::new(vec![PlayerAction::Raise(5)])),
        caller(),
        caller(),
    ];
    let engine = Engine::new(players, TestQueue::default()).unwrap();

    let r = engine.run(vec![100, 100, 100, 100], 1);
    assert_eq!(r, Err(EngineError::NoRaiseAllowedError));
}

#[test]
fn failing_seat_is_folded_not_fatal() {
    // The second seat's script runs out immediately: the engine folds it
    // and the hand still completes.
    let players = vec![
        caller(),
        SeatPlayer::Scripted(ScriptedPlayer::new(vec![])),
        caller(),
        caller(),
    ];
    let engine = Engine::new(players, TestQueue::default()).unwrap();

    let stacks = engine.run(vec![100, 100, 100, 100], 1).unwrap();
    assert_eq!(stacks.iter().sum::<i32>(), 400);
    // The folded seat paid nothing.
    assert_eq!(stacks[1], 100);
}

#[test]
fn raising_reopens_the_betting() {
    // Seat 0 raises on the flop; the other seats then owe another call.
    let players = vec![
        SeatPlayer::Scripted(ScriptedPlayer::new(vec![
            PlayerAction::Call(1),
            PlayerAction::Raise(10),
            PlayerAction::Call(0),
            PlayerAction::Call(0),
            PlayerAction::Call(0),
        ])),
        SeatPlayer::Scripted(ScriptedPlayer::new(vec![
            PlayerAction::Call(1),
            PlayerAction::Call(0),
            PlayerAction::Call(10),
            PlayerAction::Call(0),
            PlayerAction::Call(0),
        ])),
    ];
    let engine = Engine::new(players, TestQueue::default()).unwrap();

    let stacks = engine.run(vec![100, 100], 1).unwrap();
    assert_eq!(stacks.iter().sum::<i32>(), 200);
    // The pot was two blinds and two matched raises of ten.
    assert!(stacks.contains(&111) && stacks.contains(&89));
}

#[test]
fn too_many_seats_exhaust_the_deck() {
    let players = dummies(24);
    let engine = Engine::new(players, TestQueue::default()).unwrap();
    assert_eq!(engine.run(vec![100; 24], 1), Err(EngineError::BadDeckError));
}

#[test]
fn showdown_without_contenders_cannot_complete() {
    let state = GameState {
        round: Round::Showdown,
        community: vec![],
        players_bet: vec![1, 1],
        players_money: vec![99, 99],
        bet_amount: 1,
        players_all_in: vec![],
        folded_players: vec![0, 1],
        num_active_players: 0,
        active_players: vec![],
    };
    let hand = (
        Card { suit: Suit::Club, value: Value::Ace },
        Card { suit: Suit::Spade, value: Value::Ace },
    );
    let r = Engine::run_from_game_state(dummies(2), TestQueue::default(), state, hand, 0);
    assert_eq!(r, Err(EngineError::GameNotCompletedSuccessfully));
}
