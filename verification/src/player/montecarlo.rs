use vstd::prelude::*;

use rayon::iter::{IntoParallelIterator, ParallelIterator};

use crate::action::empty_queue::EmptyQueue;
use crate::engine::Engine;
use crate::error::EngineError;
use crate::state::{lemma_sum_element_bound, lemma_sum_nonneg, GameState, Round};

use super::dummy::DummyPlayer;
use super::{random_u64, Player, PlayerAction, PlayerHand, SeatPlayer};

verus! {

/// How many simulated hands back one decision.
const SIM_ROUNDS: i32 = 10000;

/// A strategy that estimates its winning odds by playing many random
/// completions of the current hand against cheap heuristic opponents,
/// each on a private engine of its own, and bets accordingly.
#[derive(Debug)]
pub struct MontecarloPlayer {
    hand: Option<PlayerHand>,
}

impl Default for MontecarloPlayer {
    /// A simulating seat that has not been dealt cards yet.
    fn default() -> (r: Self)
        ensures
            !r.ready(),
    {
        MontecarloPlayer { hand: None }
    }
}

impl MontecarloPlayer {
    /// One random completion of the hand: a fresh engine with heuristic
    /// opponents resumes from the supplied state and plays to the end.
    /// Returns how many chips the seat gained, which is never more than
    /// the whole table holds.
    pub fn play_montecarlo_game(&self, state: &GameState, i: usize) -> (r: Result<
        i32,
        EngineError,
    >)
        requires
            self.ready(),
            state.wf(),
            state.seats_bet(),
            state.round != Round::Starting,
            state.round != Round::Complete,
            i < state.players_money@.len(),
        ensures
            r matches Ok(d) ==> -state.players_money@[i as int] <= d,
    {
        let initial_cash = state.players_money[i];

        let mut players: Vec<SeatPlayer> = Vec::new();
        let players_length = state.players_money.len();
        let mut k: usize = 0;
        while k < players_length
            invariant
                players@.len() == k,
                k <= players_length,
            decreases players_length - k,
        {
            players.push(SeatPlayer::Dummy(DummyPlayer::default()));
            k += 1;
        }

        let hand = self.hand.unwrap();
        let res = Engine::run_from_game_state(
            players,
            EmptyQueue::default(),
            state.clone(),
            hand,
            i,
        );
        let stacks = match res {
            Ok(v) => v,
            Err(e) => {
                return Err(e);
            },
        };

        let end_cash = stacks[i];
        proof {
            lemma_sum_nonneg(state.players_money@);
            lemma_sum_element_bound(stacks@, i as int);
        }
        Ok(end_cash - initial_cash)
    }

    /// Whether one random completion of the hand ends with this seat ahead;
    /// a failed simulation counts as no win.
    pub fn simulate_once(&self, state: &GameState, i: usize) -> bool
        requires
            self.ready(),
            state.wf(),
            state.seats_bet(),
            state.round != Round::Starting,
            state.round != Round::Complete,
            i < state.players_money@.len(),
    {
        match self.play_montecarlo_game(state, i) {
            Ok(d) => d > 0,
            Err(_) => false,
        }
    }

    /// Relies on rayon's parallel iterators: the closure runs
    /// `simulate_once` independently `rounds` times on worker threads and
    /// the one-per-win counts are added, so the total lies between zero
    /// and `rounds`.
    #[verifier::external_body]
    fn parallel_wins(&self, state: &GameState, i: usize, rounds: i32) -> (w: i32)
        requires
            self.ready(),
            state.wf(),
            state.seats_bet(),
            state.round != Round::Starting,
            state.round != Round::Complete,
            i < state.players_money@.len(),
            rounds >= 0,
        ensures
            0 <= w <= rounds,
    {
        (0..rounds).into_par_iter().map(
            |_k|
                if self.simulate_once(state, i) {
                    1i32
                } else {
                    0i32
                },
        ).sum()
    }

    /// How many of `rounds` independent random completions of the hand
    /// this seat wins.
    pub fn montecarlo_sim(&self, state: &GameState, i: usize, rounds: i32) -> (w: i32)
        requires
            self.ready(),
            state.wf(),
            state.seats_bet(),
            state.round != Round::Starting,
            state.round != Round::Complete,
            i < state.players_money@.len(),
            rounds >= 0,
        ensures
            0 <= w <= rounds,
    {
        self.parallel_wins(state, i, rounds)
    }
}

impl MontecarloPlayer {
    /// The combined strength of the two hole cards, as value indices.
    pub closed spec fn hole_sum(&self) -> int {
        (self.hand->0).0.value.index_spec() + (self.hand->0).1.value.index_spec()
    }
}

/// The strength the blind decision reads is exactly that of the stored
/// hole pair.
pub proof fn lemma_montecarlo_hole_sum(p: MontecarloPlayer)
    requires
        p.hole() is Some,
    ensures
        p.hole_sum() == (p.hole()->0).0.value.index_spec() + (p.hole()->0).1.value.index_spec(),
{
}

impl Player for MontecarloPlayer {
    closed spec fn ready(&self) -> bool {
        self.hand is Some
    }

    closed spec fn hole(&self) -> Option<PlayerHand> {
        self.hand
    }

    fn cards(&self) -> Option<PlayerHand> {
        self.hand
    }

    fn give_cards(&mut self, hand: PlayerHand) {
        self.hand = Some(hand);
    }

    /// Folds weak hole cards, folds when it cannot cover the blind, and
    /// otherwise calls the blind; no simulation is spent on the blind.
    fn blind(&mut self, state: &GameState, i: usize) -> (r: Result<PlayerAction, EngineError>)
        ensures
            *final(self) == *old(self),
            ({
                let weak = old(self).hole_sum() < 10;
                if weak || state.players_money@[i as int] < state.bet_amount {
                    r == Ok::<PlayerAction, EngineError>(PlayerAction::Fold)
                } else {
                    r == Ok::<PlayerAction, EngineError>(PlayerAction::Call(state.bet_amount))
                }
            }),
    {
        let cash = state.players_money[i];
        let h = self.hand.unwrap();

        let fold = h.0.value.index() + h.1.value.index() < 10;

        if fold || cash < state.bet_amount {
            Ok(PlayerAction::Fold)
        } else {
            Ok(PlayerAction::Call(state.bet_amount))
        }
    }

    /// Simulates many completions of the hand; folds when the winning odds
    /// fall short of an even share over the active seats, raises a share
    /// of its spare chips with probability growing in the surplus, and
    /// otherwise calls the margin.
    fn play(&mut self, state: &GameState, i: usize) -> (r: Result<PlayerAction, EngineError>)
        ensures
            *final(self) == *old(self),
            r is Ok,
            ({
                let diff = state.bet_amount - state.players_bet@[i as int];
                r matches Ok(a) ==> (a == PlayerAction::Fold || a == PlayerAction::Call(
                    diff as i32,
                ) || (a matches PlayerAction::Raise(amt) && diff < amt
                    <= state.players_money@[i as int]))
            }),
    {
        let cash = state.players_money[i];
        let my_bet = state.players_bet[i];
        let diff = state.bet_amount - my_bet;

        let w = self.montecarlo_sim(state, i, SIM_ROUNDS);
        let na = state.num_active_players;

        proof {
            assert((w as u128) * (na as u128) <= 10000u128 * 0x80000000u128) by (nonlinear_arith)
                requires
                    0 <= w <= 10000 && 0 <= na <= 0x80000000,
            ;
        }
        let wna = (w as u128) * (na as u128);
        if wna < 10000u128 {
            return Ok(PlayerAction::Fold);
        }

        let surplus = wna - 10000u128;
        let rna = 10000u128 * (na as u128);
        let draw = random_u64();
        proof {
            assert((draw as u128) * rna <= 0xffffffffffffffffu128 * (10000u128 * 0x80000000u128))
                by (nonlinear_arith)
                requires
                    0 <= draw as u128 <= 0xffffffffffffffffu128 && 0 <= rna <= 10000u128
                        * 0x80000000u128,
            ;
            assert(surplus * 0x10000000000000000u128 <= (10000u128 * 0x80000000u128)
                * 0x10000000000000000u128) by (nonlinear_arith)
                requires
                    0 <= surplus <= 10000u128 * 0x80000000u128,
            ;
        }
        let hit = (draw as u128) * rna < surplus * 0x10000000000000000u128;

        if hit && cash > diff {
            let spare = cash - diff;
            let u = (random_u64() % 65536) as u128;
            // x = (u / 2^16 + 2 w / R) / 4 as the fraction num / (2^18 R).
            let num = u * 10000u128 + 131072u128 * (w as u128);
            let den = 2621440000u128;  // 2^18 * 10000
            proof {
                assert(num < den) by (nonlinear_arith)
                    requires
                        0 <= u < 65536 && 0 <= w <= 10000 && num == u * 10000u128 + 131072u128 * (
                        w as u128) && den == 2621440000u128,
                ;
                assert(num * num < den * den) by (nonlinear_arith)
                    requires
                        0 <= num < den,
                ;
                assert(num * num * num < den * den * den) by (nonlinear_arith)
                    requires
                        0 <= num < den && num * num < den * den,
                ;
                assert((spare as u128) * (num * num * num) < (spare as u128) * (den * den * den))
                    by (nonlinear_arith)
                    requires
                        1 <= spare as u128 && num * num * num < den * den * den,
                ;
                assert((spare as u128) * (num * num * num) <= 0x80000000u128 * (2621440000u128
                    * 2621440000u128 * 2621440000u128)) by (nonlinear_arith)
                    requires
                        0 <= spare as u128 <= 0x80000000u128 && 0 <= num * num * num
                            <= 2621440000u128 * 2621440000u128 * 2621440000u128,
                ;
            }
            let cubic = num * num * num;
            let dcube = den * den * den;
            proof {
                assert((spare as int) * (cubic as int) / (dcube as int) < spare as int)
                    by (nonlinear_arith)
                    requires
                        (spare as int) * (cubic as int) < (spare as int) * (dcube as int),
                        1 <= spare as int,
                        0 < dcube as int,
                ;
            }
            let d = (spare as u128) * cubic / dcube;
            let raised: i32 = if d <= 1 {
                1
            } else {
                d as i32
            };
            Ok(PlayerAction::Raise(diff + raised))
        } else {
            Ok(PlayerAction::Call(diff))
        }
    }
}

} // verus!
