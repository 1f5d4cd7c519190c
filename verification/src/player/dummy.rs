use vstd::prelude::*;

use crate::error::EngineError;
use crate::hand::{Hand, Rankable};
use crate::state::GameState;

use super::{random_u64, Player, PlayerAction, PlayerHand};

verus! {

/// A cheap probabilistic strategy: it folds or raises with fixed odds
/// scaled by how strong its cards look, and otherwise calls.
#[derive(Debug)]
pub struct DummyPlayer {
    hand: Option<PlayerHand>,
}

impl Default for DummyPlayer {
    /// A dummy seat that has not been dealt cards yet.
    fn default() -> (r: Self)
        ensures
            !r.ready(),
    {
        DummyPlayer { hand: None }
    }
}

/// Five to the given power; the hand-strength scale of the fold odds.
fn pow5(k: u32) -> (r: u64)
    requires
        k <= 9,
    ensures
        1 <= r <= 1953125,
{
    let mut r: u64 = 1;
    let mut i: u32 = 0;
    while i < k
        invariant
            i <= k <= 9,
            1 <= r,
            r <= 1953125,
        decreases k - i,
    {
        proof {
            assert(r * 5 <= 1953125 * 5) by (nonlinear_arith)
                requires
                    1 <= r <= 1953125,
            ;
        }
        if r <= 390625 {
            r = r * 5;
        }
        i += 1;
    }
    r
}

impl DummyPlayer {
    /// The combined strength of the two hole cards, as value indices.
    pub closed spec fn hole_sum(&self) -> int {
        (self.hand->0).0.value.index_spec() + (self.hand->0).1.value.index_spec()
    }
}

/// The strength the blind decision reads is exactly that of the stored
/// hole pair.
pub proof fn lemma_dummy_hole_sum(p: DummyPlayer)
    requires
        p.hole() is Some,
    ensures
        p.hole_sum() == (p.hole()->0).0.value.index_spec() + (p.hole()->0).1.value.index_spec(),
{
}

impl Player for DummyPlayer {
    closed spec fn ready(&self) -> bool {
        self.hand is Some
    }

    closed spec fn hole(&self) -> Option<PlayerHand> {
        self.hand
    }

    fn cards(&self) -> Option<PlayerHand> {
        self.hand
    }

    fn give_cards(&mut self, hand: PlayerHand) {
        self.hand = Some(hand);
    }

    /// Folds weak hole cards, folds when it cannot cover the blind, and
    /// otherwise calls the blind.
    fn blind(&mut self, state: &GameState, i: usize) -> (r: Result<PlayerAction, EngineError>)
        ensures
            *final(self) == *old(self),
            ({
                let weak = old(self).hole_sum() < 10;
                if weak || state.players_money@[i as int] < state.bet_amount {
                    r == Ok::<PlayerAction, EngineError>(PlayerAction::Fold)
                } else {
                    r == Ok::<PlayerAction, EngineError>(PlayerAction::Call(state.bet_amount))
                }
            }),
    {
        let cash = state.players_money[i];
        let h = self.hand.unwrap();

        let fold = h.0.value.index() + h.1.value.index() < 10;

        if fold || cash < state.bet_amount {
            Ok(PlayerAction::Fold)
        } else {
            Ok(PlayerAction::Call(state.bet_amount))
        }
    }

    /// Ranks its seven cards, then folds with probability shrinking in the
    /// rank, raises a cubic-skewed share of its spare chips with
    /// probability growing in the rank, and otherwise calls the margin.
    fn play(&mut self, state: &GameState, i: usize) -> (r: Result<PlayerAction, EngineError>)
        ensures
            *final(self) == *old(self),
            r is Err <==> state.community@.len() < 3,
            r is Err ==> r == Err::<PlayerAction, EngineError>(EngineError::SmallHandError),
            ({
                let diff = state.bet_amount - state.players_bet@[i as int];
                r matches Ok(a) ==> (a == PlayerAction::Fold || a == PlayerAction::Call(
                    diff as i32,
                ) || (a matches PlayerAction::Raise(amt) && diff < amt
                    <= state.players_money@[i as int]))
            }),
    {
        let cash = state.players_money[i];
        let my_bet = state.players_bet[i];
        let diff = state.bet_amount - my_bet;

        let hand = Hand::new_from_hand(self.hand.unwrap(), &state.community);
        let rank = match hand.rank() {
            Ok(rk) => rk,
            Err(e) => {
                return Err(e);
            },
        };
        let k = rank.to_i32();

        let fold_threshold = u64::MAX / pow5(k as u32);
        if random_u64() < fold_threshold {
            return Ok(PlayerAction::Fold);
        }

        let raise_draw = random_u64();
        let raise_hit = (raise_draw as u128) * 10 < (k as u128) * 0x10000000000000000u128;
        if raise_hit && cash > diff {
            let spare = cash - diff;
            let x = (random_u64() % 65536) as u128;
            proof {
                assert(x < 65536);
                assert(x * x < 0x100000000) by (nonlinear_arith)
                    requires
                        0 <= x < 65536,
                ;
                assert(x * x * x < 0x1000000000000) by (nonlinear_arith)
                    requires
                        0 <= x < 65536,
                ;
                assert((spare as u128) * (x * x * x) < (spare as u128) * 0x1000000000000)
                    by (nonlinear_arith)
                    requires
                        1 <= spare as u128 <= 0x7fffffff && x * x * x < 0x1000000000000,
                ;
            }
            let cubic = x * x * x;
            proof {
                assert((spare as int) * (cubic as int) / 0x1000000000000 < spare as int)
                    by (nonlinear_arith)
                    requires
                        (spare as int) * (cubic as int) < (spare as int) * 0x1000000000000,
                        1 <= spare as int,
                ;
            }
            let d = (spare as u128) * cubic / 0x1000000000000u128;
            let raised: i32 = if d <= 1 {
                1
            } else {
                d as i32
            };
            Ok(PlayerAction::Raise(diff + raised))
        } else {
            Ok(PlayerAction::Call(diff))
        }
    }
}

} // verus!
