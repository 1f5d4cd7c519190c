use std::time::Instant;

use poker::action::test_queue::TestQueue;
use poker::card::{Card, Suit, Value};
use poker::engine::Engine;
use poker::error::EngineError;
use poker::player::montecarlo::MontecarloPlayer;
use poker::player::{Player, SeatPlayer};
use poker::state::{GameState, Round};

fn flop_state() -> GameState {
    GameState {
        round: Round::Flop,
        community: vec![
            Card { suit: Suit::Diamond, value: Value::Ten },
            Card { suit: Suit::Spade, value: Value::Two },
            Card { suit: Suit::Heart, value: Value::King },
        ],
        players_bet: vec![1, 1, 1, 1],
        players_money: vec![0, 99, 99, 99],
        bet_amount: 1,
        players_all_in: vec![0],
        folded_players: vec![],
        num_active_players: 3,
        active_players: vec![1, 2, 3],
    }
}

fn simulating_player() -> MontecarloPlayer {
    let mut m = MontecarloPlayer::default();
    m.give_cards((
        Card { suit: Suit::Club, value: Value::Two },
        Card { suit: Suit::Diamond, value: Value::Ace },
    ));
    m
}

#[test]
fn montecarlo_game() -> Result<(), EngineError> {
    let mut players: Vec<SeatPlayer> = Vec::new();
    let n = 8;

    for _ in 0..n {
        players.push(SeatPlayer::Montecarlo(MontecarloPlayer::default()));
    }
    let old_stacks = vec![1000; n];

    let engine = Engine::new(players, TestQueue::default())?;

    let new_stacks = engine.run(old_stacks.clone(), 1)?;

    println!("{:?}", old_stacks);
    println!("{:?}", new_stacks);
    assert_eq!(new_stacks.iter().sum::<i32>(), 8000);

    Ok(())
}

#[test]
fn montecarlo_simulation() {
    let state = flop_state();
    let player_idx = 1;
    let m = simulating_player();

    for i in 0..6 {
        let r = 10i32.pow(i);
        let t = Instant::now();
        let w = m.montecarlo_sim(&state, player_idx, r);
        let d = t.elapsed();
        let p = w as f64 / r as f64;
        println!("{r} rounds: {d:?} => ({p:?}, {:?})", 1.0 - p);
        assert!(0 <= w && w <= r);
    }
}

#[test]
fn loop_montecarlo() {
    let rounds = 2000;

    let mut v = 0;

    for _ in 0..rounds {
        let state = flop_state();
        let player_idx = 1;
        let m = simulating_player();

        let diff = m.play_montecarlo_game(&state, player_idx).unwrap();

        if diff > 0 {
            v += 1;
        }
    }

    println!("{}", v as f64 / rounds as f64 * 100.0);
}
