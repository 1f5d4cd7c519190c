use poker::card::{Card, Suit, Value};
use poker::error::EngineError;
use poker::state::{GameState, Round};

fn fresh_state() -> GameState {
    GameState {
        round: Round::Preflop,
        community: vec![],
        players_bet: vec![0, 0, 0, 0],
        players_money: vec![100, 100, 100, 100],
        bet_amount: 1,
        players_all_in: vec![],
        folded_players: vec![],
        num_active_players: 4,
        active_players: vec![0, 1, 2, 3],
    }
}

#[test]
fn rounds_advance_in_order() {
    assert_eq!(Round::Starting.next(), Round::Preflop);
    assert_eq!(Round::Preflop.next(), Round::Flop);
    assert_eq!(Round::Flop.next(), Round::Turn);
    assert_eq!(Round::Turn.next(), Round::River);
    assert_eq!(Round::River.next(), Round::Showdown);
    assert_eq!(Round::Showdown.next(), Round::Complete);
    assert_eq!(Round::Complete.next(), Round::Complete);
}

#[test]
fn chips_are_conserved_through_bets_and_award() {
    let mut state = fresh_state();
    let before: i32 =
        state.players_money.iter().sum::<i32>() + state.players_bet.iter().sum::<i32>();

    state.bet(1, 0, false).unwrap();
    state.bet(5, 1, false).unwrap();
    state.bet(0, 2, true).unwrap();
    state.bet(5, 3, false).unwrap();

    let mid: i32 =
        state.players_money.iter().sum::<i32>() + state.players_bet.iter().sum::<i32>();
    assert_eq!(before, mid);

    let pot = state.award(1);
    assert_eq!(pot, 1 + 5 + 100 + 5);
    let after: i32 = state.players_money.iter().sum();
    assert_eq!(before, after);
    assert!(state.players_bet.is_empty());
}

#[test]
fn bet_tracks_the_table_high_bet() {
    let mut state = fresh_state();
    state.bet(7, 2, false).unwrap();
    assert_eq!(state.bet_amount, 7);
    assert_eq!(state.players_bet, vec![0, 0, 7, 0]);
    assert_eq!(state.players_money, vec![100, 100, 93, 100]);

    state.bet(12, 0, false).unwrap();
    assert_eq!(state.bet_amount, 12);
}

#[test]
fn bet_without_funds_is_rejected_unchanged() {
    let mut state = fresh_state();
    let r = state.bet(101, 0, false);
    assert_eq!(r, Err(EngineError::NotEnoughMoney));
    assert_eq!(state.players_money, vec![100, 100, 100, 100]);
    assert_eq!(state.players_bet, vec![0, 0, 0, 0]);
}

#[test]
fn all_in_moves_the_whole_stack() {
    let mut state = fresh_state();
    state.bet(3, 1, true).unwrap();
    assert_eq!(state.players_money[1], 0);
    assert_eq!(state.players_bet[1], 100);
    assert!(state.players_all_in.contains(&1));
    assert!(!state.active_players.contains(&1));
    assert_eq!(state.num_active_players, 3);
}

#[test]
fn active_players_exclude_folded_and_all_in() {
    let mut state = fresh_state();
    state.folded_players.push(2);
    state.remove_inactive_players();
    state.bet(0, 3, true).unwrap();

    for seat in &state.active_players {
        assert!(!state.folded_players.contains(seat));
        assert!(!state.players_all_in.contains(seat));
    }
    assert_eq!(state.active_players, vec![0, 1]);
    assert_eq!(state.num_active_players, 2);
}

#[test]
fn cloned_state_matches_the_original() {
    let mut state = fresh_state();
    state.community.push(Card::new(Suit::Club, Value::Nine));
    let copy = state.clone();
    assert_eq!(copy.round, state.round);
    assert_eq!(copy.community, state.community);
    assert_eq!(copy.players_bet, state.players_bet);
    assert_eq!(copy.players_money, state.players_money);
    assert_eq!(copy.bet_amount, state.bet_amount);
    assert_eq!(copy.active_players, state.active_players);
}

#[test]
fn error_messages_name_the_failure() {
    assert_eq!(EngineError::NoRaiseAllowedError.message(), "You cannot raise in this round");
    assert_eq!(
        EngineError::BadGameError.message(),
        "The initial parameters of this game aren't correct"
    );
}
