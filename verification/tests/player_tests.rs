use std::sync::mpsc;

use poker::card::{Card, Suit, Value};
use poker::error::EngineError;
use poker::player::dummy::DummyPlayer;
use poker::player::myself::{translate, MyselfPlayer};
use poker::player::scripted::ScriptedPlayer;
use poker::player::{Player, PlayerAction};
use poker::player_state;
use poker::state::{GameState, Round};

fn table_state() -> GameState {
    GameState {
        round: Round::Preflop,
        community: vec![],
        players_bet: vec![0, 2],
        players_money: vec![50, 50],
        bet_amount: 5,
        players_all_in: vec![],
        folded_players: vec![],
        num_active_players: 2,
        active_players: vec![0, 1],
    }
}

#[test]
fn dummy_folds_weak_hole_cards_on_the_blind() {
    let mut p = DummyPlayer::default();
    p.give_cards((
        Card::new(Suit::Club, Value::Two),
        Card::new(Suit::Heart, Value::Five),
    ));
    let state = table_state();
    assert_eq!(p.blind(&state, 0), Ok(PlayerAction::Fold));
}

#[test]
fn dummy_calls_the_blind_with_strong_cards() {
    let mut p = DummyPlayer::default();
    p.give_cards((
        Card::new(Suit::Club, Value::Ace),
        Card::new(Suit::Heart, Value::King),
    ));
    let state = table_state();
    assert_eq!(p.blind(&state, 0), Ok(PlayerAction::Call(5)));
}

#[test]
fn dummy_folds_when_it_cannot_cover_the_blind() {
    let mut p = DummyPlayer::default();
    p.give_cards((
        Card::new(Suit::Club, Value::Ace),
        Card::new(Suit::Heart, Value::King),
    ));
    let mut state = table_state();
    state.players_money[0] = 3;
    assert_eq!(p.blind(&state, 0), Ok(PlayerAction::Fold));
}

#[test]
fn dummy_play_needs_a_flop() {
    let mut p = DummyPlayer::default();
    p.give_cards((
        Card::new(Suit::Club, Value::Ace),
        Card::new(Suit::Heart, Value::King),
    ));
    let state = table_state();
    assert_eq!(p.play(&state, 0), Err(EngineError::SmallHandError));
}

#[test]
fn dummy_play_stays_within_its_stack() {
    let mut p = DummyPlayer::default();
    p.give_cards((
        Card::new(Suit::Club, Value::Ace),
        Card::new(Suit::Heart, Value::King),
    ));
    let mut state = table_state();
    state.round = Round::Flop;
    state.community = vec![
        Card::new(Suit::Diamond, Value::Ace),
        Card::new(Suit::Spade, Value::King),
        Card::new(Suit::Club, Value::Nine),
    ];
    for _ in 0..200 {
        match p.play(&state, 0).unwrap() {
            PlayerAction::Fold => {},
            PlayerAction::Call(a) => assert_eq!(a, 5),
            PlayerAction::Raise(a) => assert!(5 < a && a <= 50),
        }
    }
}

#[test]
fn scripted_player_replays_its_script() {
    let mut p = ScriptedPlayer::new(vec![PlayerAction::Call(1), PlayerAction::Fold]);
    let state = table_state();
    assert_eq!(p.blind(&state, 0), Ok(PlayerAction::Call(1)));
    assert_eq!(p.play(&state, 0), Ok(PlayerAction::Fold));
    assert_eq!(p.play(&state, 0), Err(EngineError::RecvMyselfError));
}

#[test]
fn human_blind_rejects_a_raise_intent() {
    let (tx, rx) = mpsc::channel();
    let mut p = MyselfPlayer::new(rx);
    tx.send(player_state::PlayerAction::Raise(10)).unwrap();
    let state = table_state();
    assert_eq!(p.blind(&state, 1), Err(EngineError::NoRaiseAllowedError));
}

#[test]
fn human_intents_become_amount_relative_actions() {
    let (tx, rx) = mpsc::channel();
    let mut p = MyselfPlayer::new(rx);
    let state = table_state();

    tx.send(player_state::PlayerAction::Call).unwrap();
    // Seat 1 has bet 2 of the table-high 5, so calling costs 3.
    assert_eq!(p.play(&state, 1), Ok(PlayerAction::Call(3)));

    tx.send(player_state::PlayerAction::Raise(10)).unwrap();
    assert_eq!(p.play(&state, 1), Ok(PlayerAction::Raise(13)));

    tx.send(player_state::PlayerAction::Fold).unwrap();
    assert_eq!(p.play(&state, 1), Ok(PlayerAction::Fold));
}

#[test]
fn closed_channel_is_a_fatal_decision_error() {
    let (tx, rx) = mpsc::channel::<player_state::PlayerAction>();
    drop(tx);
    let mut p = MyselfPlayer::new(rx);
    let state = table_state();
    assert_eq!(p.play(&state, 1), Err(EngineError::RecvMyselfError));
}

#[test]
fn update_turn_skips_folded_and_all_in_seats() {
    let mut players = vec![
        player_state::PlayerState::default(),
        player_state::PlayerState::default(),
        player_state::PlayerState::default(),
        player_state::PlayerState::default(),
    ];
    players[0].turn = true;
    let mut state = table_state();
    state.players_money = vec![50, 50, 50, 50];
    state.players_bet = vec![0, 0, 0, 0];
    state.active_players = vec![0, 3];
    state.num_active_players = 2;
    state.folded_players = vec![1];
    state.players_all_in = vec![2];

    let mut turn: usize = 0;
    player_state::update_turn(&mut turn, &state, &mut players);

    assert_eq!(turn, 3);
    assert!(!players[0].turn);
    assert!(players[3].turn);
}

#[test]
fn intent_translation_is_exact() {
    assert_eq!(translate(player_state::PlayerAction::Fold, 7), PlayerAction::Fold);
    assert_eq!(translate(player_state::PlayerAction::Call, 7), PlayerAction::Call(7));
    assert_eq!(
        translate(player_state::PlayerAction::Raise(10), 7),
        PlayerAction::Raise(17)
    );
    assert_eq!(
        translate(player_state::PlayerAction::Raise(i32::MAX), 7),
        PlayerAction::Raise(i32::MAX)
    );
}
