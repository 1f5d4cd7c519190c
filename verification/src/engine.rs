use vstd::prelude::*;

use crate::action::game_action::GameAction;
use crate::action::{GameActionQueue, GameMessage};
use crate::card::{Card, Value};
use crate::deck::{excluded_below, Deck};
use crate::error::EngineError;
use crate::hand::{Hand, Rankable};
use crate::player::{all_dummy, Player, PlayerAction, PlayerHand, SeatPlayer};
use crate::rank::{
    lemma_rank_spec_beats_floor, rank_lt_spec, rank_spec, Rank,
};
use crate::state::{
    active_clean, active_filter, lemma_active_filter_fold_one, lemma_active_filter_identity,
    lemma_active_filter_membership, lemma_active_filter_no_dup, lemma_sum_nonneg,
    lemma_sum_update, max_i32, mirrors, rounds_left, someone_left, sum_i32, GameState, Round,
};
use crate::util::copy_vec;

verus! {

/// The orchestrator of one hand: it deals, drives the betting phases,
/// asks each seat for decisions, keeps the ledger and resolves the
/// showdown, emitting a message at every observable step.
pub struct Engine<Q: GameActionQueue> {
    pub action_queue: Q,
    pub deck: Deck,
    pub state: GameState,
    pub players_hands: Vec<PlayerHand>,
    pub players: Vec<SeatPlayer>,
}

/// How many community cards the remaining phases will deal, starting at
/// the given round.
pub open spec fn board_cards_to_come(r: Round) -> int {
    match r {
        Round::Starting => 5,
        Round::Preflop => 5,
        Round::Flop => 5,
        Round::Turn => 2,
        Round::River => 1,
        Round::Showdown => 0,
        Round::Complete => 0,
    }
}

/// How many community cards a hand resumed at the given round still deals
/// after its in-progress street is settled.
pub open spec fn resume_board_cards(r: Round) -> int {
    match r {
        Round::Preflop => 5,
        Round::Flop => 2,
        Round::Turn => 1,
        _ => 0,
    }
}

/// The seven cards a seat shows at the showdown: its two hole cards
/// followed by the community cards.
pub open spec fn seven_cards(hand: PlayerHand, community: Seq<Card>) -> Seq<Card> {
    seq![hand.0, hand.1] + community
}

/// The showdown winner over the first `k` contenders: the seat and rank of
/// the first contender whose rank strictly exceeds every earlier one; the
/// sentinel pair while no contender has been seen.
pub open spec fn showdown_scan(
    hands: Seq<PlayerHand>,
    community: Seq<Card>,
    pos: Seq<usize>,
    k: int,
) -> (usize, Rank)
    decreases k,
{
    if k <= 0 {
        (usize::MAX, Rank::HighCard(Value::Two))
    } else {
        let prev = showdown_scan(hands, community, pos, k - 1);
        let i = pos[k - 1];
        let rk = rank_spec(seven_cards(hands[i as int], community));
        if rank_lt_spec(prev.1, rk) {
            (i, rk)
        } else {
            prev
        }
    }
}

/// What one applied decision does to the three seat lists, as the
/// decision handlers promise it.
pub open spec fn seat_lists_step(pre: GameState, post: GameState, i: usize, folded: bool, went_all_in: bool) -> bool {
    if folded {
        &&& post.folded_players@ == pre.folded_players@.push(i)
        &&& post.players_all_in@ == pre.players_all_in@
        &&& post.active_players@ == active_filter(
            pre.active_players@,
            pre.folded_players@.push(i),
            pre.players_all_in@,
        )
        &&& post.num_active_players == post.active_players@.len()
    } else if went_all_in {
        &&& post.folded_players@ == pre.folded_players@
        &&& post.players_all_in@ == pre.players_all_in@.push(i)
        &&& post.active_players@ == active_filter(
            pre.active_players@,
            pre.folded_players@,
            pre.players_all_in@.push(i),
        )
        &&& post.num_active_players == post.active_players@.len()
    } else {
        &&& post.folded_players@ == pre.folded_players@
        &&& post.players_all_in@ == pre.players_all_in@
        &&& post.active_players@ == pre.active_players@
        &&& post.num_active_players == pre.num_active_players
    }
}

/// One applied decision keeps the active list duplicate-free and clean,
/// and never empties the table while more than one seat was active.
pub proof fn lemma_seat_lists_step_keeps_table(
    pre: GameState,
    post: GameState,
    i: usize,
    folded: bool,
    went_all_in: bool,
)
    requires
        pre.active_players@.no_duplicates(),
        active_clean(pre),
        pre.num_active_players == pre.active_players@.len(),
        seat_lists_step(pre, post, i, folded, went_all_in),
    ensures
        post.active_players@.no_duplicates(),
        active_clean(post),
        pre.num_active_players > 1 ==> someone_left(post),
{
    if folded {
        lemma_active_filter_no_dup(
            pre.active_players@,
            pre.folded_players@.push(i),
            pre.players_all_in@,
        );
        assert forall|k: int| 0 <= k < post.active_players@.len() implies (!post
            .folded_players@.contains(#[trigger] post.active_players@[k]) && !post
            .players_all_in@.contains(post.active_players@[k])) by {
            let x = post.active_players@[k];
            assert(post.active_players@.contains(x));
            lemma_active_filter_membership(
                pre.active_players@,
                pre.folded_players@.push(i),
                pre.players_all_in@,
                x,
            );
        }
        lemma_active_filter_identity(
            pre.active_players@,
            pre.folded_players@,
            pre.players_all_in@,
        );
        lemma_active_filter_fold_one(
            pre.active_players@,
            pre.folded_players@,
            pre.players_all_in@,
            i,
        );
    } else if went_all_in {
        lemma_active_filter_no_dup(
            pre.active_players@,
            pre.folded_players@,
            pre.players_all_in@.push(i),
        );
        assert forall|k: int| 0 <= k < post.active_players@.len() implies (!post
            .folded_players@.contains(#[trigger] post.active_players@[k]) && !post
            .players_all_in@.contains(post.active_players@[k])) by {
            let x = post.active_players@[k];
            assert(post.active_players@.contains(x));
            lemma_active_filter_membership(
                pre.active_players@,
                pre.folded_players@,
                pre.players_all_in@.push(i),
                x,
            );
        }
        assert(post.players_all_in@.len() >= 1);
    }
}

/// How a successful showdown settles the table: the whole pot goes to the
/// scan winner, the bet column empties, the all-in list drains and the
/// hand completes; nothing else of the ledger moves.
pub open spec fn showdown_settles(pre: GameState, hands: Seq<PlayerHand>, post: GameState) -> bool {
    let pos = pre.active_players@ + pre.players_all_in@;
    let w = showdown_scan(hands, pre.community@, pos, pos.len() as int);
    &&& w.0 < pre.players_money@.len()
    &&& post.players_money@ == pre.players_money@.update(
        w.0 as int,
        (pre.players_money@[w.0 as int] + sum_i32(pre.players_bet@)) as i32,
    )
    &&& post.players_bet@.len() == 0
    &&& post.players_all_in@.len() == 0
    &&& post.round == Round::Complete
    &&& post.community@ == pre.community@
    &&& post.folded_players@ == pre.folded_players@
    &&& sum_i32(post.players_money@) == pre.total_chips()
}

impl<Q: GameActionQueue> Engine<Q> {
    /// The standing relation while a hand is under way: the ledger is well
    /// formed, every seat has a bet entry and dealt cards, and every
    /// strategy is ready to act.
    pub open spec fn inv(self) -> bool {
        &&& self.state.wf()
        &&& self.state.seats_bet()
        &&& self.players@.len() == self.state.players_money@.len()
        &&& self.players_hands@.len() == self.players@.len()
        &&& forall|i: int| 0 <= i < self.players@.len() ==> self.players@[i].ready()
    }

    /// A freshly built table: nothing dealt, no chips placed, every seat
    /// active, and a full deck waiting.
    pub open spec fn fresh(self) -> bool {
        &&& self.state.round == Round::Starting
        &&& self.state.community@.len() == 0
        &&& self.state.players_bet@.len() == 0
        &&& self.state.players_money@.len() == 0
        &&& self.state.bet_amount == 0
        &&& self.state.players_all_in@.len() == 0
        &&& self.state.folded_players@.len() == 0
        &&& self.state.num_active_players == self.players@.len()
        &&& self.state.active_players@.len() == self.players@.len()
        &&& forall|j: int|
            0 <= j < self.state.active_players@.len() ==> self.state.active_players@[j] == j
        &&& self.players_hands@.len() == 0
        &&& self.players@.len() <= i32::MAX
        &&& self.deck@.len() == 52
        &&& self.deck@.no_duplicates()
        &&& forall|c: Card| self.deck@.contains(c)
    }

    /// A table over the given seats, reporting to the given sink.
    pub fn new(players: Vec<SeatPlayer>, action_queue: Q) -> (r: Result<Engine<Q>, EngineError>)
        requires
            players@.len() <= i32::MAX,
        ensures
            r matches Ok(e) && e.fresh() && e.players == players && e.action_queue == action_queue,
    {
        let deck = Deck::default();
        let n = players.len();

        let mut active: Vec<usize> = Vec::new();
        let mut i: usize = 0;
        while i < n
            invariant
                i <= n,
                active@.len() == i,
                forall|j: int| 0 <= j < i ==> active@[j] == j,
            decreases n - i,
        {
            active.push(i);
            i += 1;
        }

        let state = GameState {
            round: Round::Starting,
            community: Vec::new(),
            players_bet: Vec::new(),
            players_money: Vec::new(),
            bet_amount: 0,
            players_all_in: Vec::new(),
            folded_players: Vec::new(),
            num_active_players: n as i32,
            active_players: active,
        };

        Ok(Engine { action_queue, deck, state, players_hands: Vec::new(), players })
    }

    /// Emits exactly one message to the sink, carrying the action and a
    /// snapshot of the state as it stands right after it; nothing else of
    /// the engine moves.
    fn add_action(&mut self, action: GameAction)
        ensures
            final(self).state == old(self).state,
            final(self).deck == old(self).deck,
            final(self).players == old(self).players,
            final(self).players_hands == old(self).players_hands,
            final(self).action_queue.log().len() == old(self).action_queue.log().len() + 1,
            final(self).action_queue.log().drop_last() == old(self).action_queue.log(),
            final(self).action_queue.log().last().action == action,
            mirrors(final(self).action_queue.log().last().state, old(self).state),
    {
        let ghost log0 = self.action_queue.log();
        let msg = GameMessage::new(action, self.state.clone());
        self.action_queue.add(msg);
        proof {
            assert(log0.push(msg).drop_last() =~= log0);
        }
    }

    /// Deals two hole cards to every seat, or fails when the deck runs
    /// out; each deal is announced. Afterwards the blind phase begins.
    #[verifier::loop_isolation(false)]
    fn start(&mut self) -> (r: Result<(), EngineError>)
        requires
            old(self).state.wf(),
            old(self).state.players_bet@.len() == 0,
            old(self).players_hands@.len() == 0,
            old(self).players@.len() == old(self).state.players_money@.len(),
            old(self).state.round == Round::Starting,
        ensures
            final(self).state.players_money@ == old(self).state.players_money@,
            final(self).state.total_chips() == old(self).state.total_chips(),
            final(self).players@.len() == old(self).players@.len(),
            r is Ok <==> old(self).deck@.len() >= 2 * old(self).players@.len(),
            r is Err ==> r == Err::<(), EngineError>(EngineError::BadDeckError),
            all_dummy(old(self).players@) ==> all_dummy(final(self).players@),
            old(self).action_queue.log().len() <= final(self).action_queue.log().len()
                && forall|k: int|
                0 <= k < old(self).action_queue.log().len() ==> final(self).action_queue.log()[k] == old(self).action_queue.log()[k],
            r is Ok ==> (final(self).inv() && final(self).state.round == Round::Preflop && ({
                let n = old(self).players@.len() as int;
                let deck0 = old(self).deck@;
                &&& final(self).state.players_bet@.len() == n
                &&& forall|j: int| 0 <= j < n ==> final(self).state.players_bet@[j] == 0i32
                &&& final(self).deck@ == deck0.take(deck0.len() - 2 * n)
                &&& final(self).players_hands@.len() == n
                &&& forall|j: int|
                    0 <= j < n ==> final(self).players_hands@[j] == (
                    deck0[deck0.len() - 1 - 2 * j],
                    deck0[deck0.len() - 2 - 2 * j],
                )
                &&& final(self).state.community@ == old(self).state.community@
                &&& final(self).state.bet_amount == old(self).state.bet_amount
                &&& final(self).state.active_players@ == old(self).state.active_players@
                &&& final(self).state.folded_players@ == old(self).state.folded_players@
                &&& final(self).state.players_all_in@ == old(self).state.players_all_in@
                &&& final(self).state.num_active_players == old(self).state.num_active_players
                &&& forall|j: int|
                    0 <= j < n ==> final(self).players@[j].hole() == Some(
                        final(self).players_hands@[j],
                    )
            })),
    {
        let n = self.players.len();
        let ghost deck0 = self.deck@;
        proof {
            assert(deck0.take(deck0.len() as int) =~= deck0);
        }
        let mut i: usize = 0;
        while i < n
            invariant
                i <= n,
                self.players@.len() == n,
                self.state.players_money@ == old(self).state.players_money@,
                self.state.players_bet@.len() == i,
                forall|j: int| 0 <= j < i ==> self.state.players_bet@[j] == 0i32,
                self.players_hands@.len() == i,
                forall|j: int| 0 <= j < i ==> self.players@[j].ready(),
                forall|j: int|
                    0 <= j < i ==> self.players@[j].hole() == Some(self.players_hands@[j]),
                all_dummy(old(self).players@) ==> all_dummy(self.players@),
                2 * i <= deck0.len(),
                self.deck@ == deck0.take(deck0.len() - 2 * i),
                old(self).action_queue.log().len() <= self.action_queue.log().len()
                    && forall|k: int|
                    0 <= k < old(self).action_queue.log().len() ==> self.action_queue.log()[k]
                        == old(self).action_queue.log()[k],
                forall|j: int|
                    0 <= j < i ==> self.players_hands@[j] == (
                    deck0[deck0.len() - 1 - 2 * j],
                    deck0[deck0.len() - 2 - 2 * j],
                ),
                self.state.wf(),
                self.state.round == old(self).state.round,
                self.state.bet_amount == old(self).state.bet_amount,
                self.state.community@ == old(self).state.community@,
                self.state.active_players@ == old(self).state.active_players@,
                self.state.folded_players@ == old(self).state.folded_players@,
                self.state.players_all_in@ == old(self).state.players_all_in@,
                self.state.num_active_players == old(self).state.num_active_players,
                self.state.total_chips() == old(self).state.total_chips(),
            decreases n - i,
        {
            let ghost bets0 = self.state.players_bet@;
            self.state.players_bet.push(0);
            proof {
                assert(bets0.push(0i32).drop_last() =~= bets0);
            }

            let c1 = match self.deck.take() {
                Some(c) => c,
                None => {
                    proof {
                        assert(deck0.take(deck0.len() - 2 * i).len() == 0);
                    }
                    return Err(EngineError::BadDeckError);
                },
            };
            proof {
                assert(deck0.take(deck0.len() - 2 * i).drop_last() =~= deck0.take(
                    deck0.len() - 2 * i - 1,
                ));
            }
            let c2 = match self.deck.take() {
                Some(c) => c,
                None => {
                    proof {
                        assert(deck0.take(deck0.len() - 2 * i - 1).len() == 0);
                    }
                    return Err(EngineError::BadDeckError);
                },
            };
            proof {
                assert(deck0.take(deck0.len() - 2 * i - 1).drop_last() =~= deck0.take(
                    deck0.len() - 2 * (i + 1),
                ));
            }
            let hand = (c1, c2);
            self.players_hands.push(hand);
            self.players[i].give_cards(hand);

            self.add_action(GameAction::DealStartHand { hand, i });

            i += 1;
        }

        self.state.round = self.state.round.next();
        Ok(())
    }

    /// Carries out one blind-phase decision for a seat: a call places the
    /// chips, a fold removes the seat, a failed decision folds the seat
    /// without ending the hand, and a raise is illegal here: it folds the
    /// seat and ends the whole hand with the no-raise error.
    fn apply_blind_action(&mut self, i: usize, action: Result<PlayerAction, EngineError>) -> (r:
        Result<(), EngineError>)
        requires
            old(self).inv(),
            i < old(self).players@.len(),
        ensures
            final(self).inv(),
            final(self).state.total_chips() == old(self).state.total_chips(),
            final(self).state.round == old(self).state.round,
            final(self).state.community@ == old(self).state.community@,
            final(self).players == old(self).players,
            final(self).players_hands == old(self).players_hands,
            final(self).state.players_money@.len() == old(self).state.players_money@.len(),
            action matches Ok(PlayerAction::Raise(n)) ==> r == Err::<(), EngineError>(
                EngineError::NoRaiseAllowedError,
            ),
            action matches Ok(PlayerAction::Raise(n)) ==> (final(self).action_queue.log().len()
                == old(self).action_queue.log().len() + 1 && final(self).action_queue.log().last().action == (GameAction::ErroredPlay {
                error: EngineError::NoRaiseAllowedError,
                i,
            })),
            action matches Ok(PlayerAction::Fold) ==> (final(self).action_queue.log().len() == old(self).action_queue.log().len() + 1 && final(self).action_queue.log().last().action == (
            GameAction::PlayedFolded { action: PlayerAction::Fold, i })),
            action matches Err(e) ==> (final(self).action_queue.log().len() == old(self).action_queue.log().len() + 1 && final(self).action_queue.log().last().action == (
            GameAction::ErroredPlay { error: e, i })),
            action matches Ok(PlayerAction::Call(a)) ==> r is Ok ==> (final(self).action_queue.log().len() == old(self).action_queue.log().len() + 1 && final(self).action_queue.log().last().action == (GameAction::PlayedBet {
                action: PlayerAction::Call(a),
                i,
                all_in: old(self).state.bet_amount >= old(self).state.players_money@[i as int]
                    + old(self).state.players_bet@[i as int],
            })),
            (action matches Ok(PlayerAction::Fold) || action is Err) ==> r is Ok,
            action matches Ok(PlayerAction::Call(a)) ==> ((r is Err <==> (a < 0 || (old(self).state.bet_amount < old(self).state.players_money@[i as int] + old(self).state.players_bet@[i as int] && old(self).state.players_money@[i as int] < a)))
                && (r is Err ==> r == Err::<(), EngineError>(EngineError::NotEnoughMoney))),
            r is Err ==> (r == Err::<(), EngineError>(EngineError::NoRaiseAllowedError) || r
                == Err::<(), EngineError>(EngineError::NotEnoughMoney)),
            final(self).deck == old(self).deck,
            old(self).action_queue.log().len() <= final(self).action_queue.log().len()
                && forall|k: int|
                0 <= k < old(self).action_queue.log().len() ==> final(self).action_queue.log()[k] == old(self).action_queue.log()[k],
            action matches Ok(PlayerAction::Call(a)) ==> (r is Err ==> *final(self) == *old(self)),
            (action matches Ok(PlayerAction::Fold) || action matches Ok(PlayerAction::Raise(_))
                || action is Err) ==> ({
                &&& final(self).state.folded_players@ == old(self).state.folded_players@.push(i)
                &&& final(self).state.players_all_in@ == old(self).state.players_all_in@
                &&& final(self).state.players_bet@ == old(self).state.players_bet@
                &&& final(self).state.players_money@ == old(self).state.players_money@
                &&& final(self).state.bet_amount == old(self).state.bet_amount
                &&& final(self).state.active_players@ == active_filter(
                    old(self).state.active_players@,
                    old(self).state.folded_players@.push(i),
                    old(self).state.players_all_in@,
                )
                &&& final(self).state.num_active_players == final(self).state.active_players@.len()
            }),
            action matches Ok(PlayerAction::Call(a)) ==> r is Ok ==> ({
                let all_in = old(self).state.bet_amount >= old(self).state.players_money@[i as int]
                    + old(self).state.players_bet@[i as int];
                let placed = if all_in {
                    old(self).state.players_money@[i as int] as int
                } else {
                    a as int
                };
                &&& final(self).state.players_bet@ == old(self).state.players_bet@.update(
                    i as int,
                    (old(self).state.players_bet@[i as int] + placed) as i32,
                )
                &&& final(self).state.players_money@ == old(self).state.players_money@.update(
                    i as int,
                    (old(self).state.players_money@[i as int] - placed) as i32,
                )
                &&& final(self).state.bet_amount == max_i32(final(self).state.players_bet@)
                &&& final(self).state.folded_players@ == old(self).state.folded_players@
                &&& (all_in ==> (final(self).state.players_all_in@ == old(self).state.players_all_in@.push(i) && final(self).state.active_players@
                    == active_filter(
                    old(self).state.active_players@,
                    old(self).state.folded_players@,
                    old(self).state.players_all_in@.push(i),
                ) && final(self).state.num_active_players == final(self).state.active_players@.len()))
                &&& (!all_in ==> (final(self).state.players_all_in@ == old(self).state.players_all_in@ && final(self).state.active_players@ == old(self).state.active_players@ && final(self).state.num_active_players == old(self).state.num_active_players))
            }),
    {
        match action {
            Ok(PlayerAction::Call(amount)) => {
                let all_in = (self.state.bet_amount as i64) >= (self.state.players_money[i] as i64)
                    + (self.state.players_bet[i] as i64);
                if amount < 0 {
                    return Err(EngineError::NotEnoughMoney);
                }
                if let Err(e) = self.state.bet(amount, i, all_in) {
                    return Err(e);
                }
                self.add_action(
                    GameAction::PlayedBet { action: PlayerAction::Call(amount), i, all_in },
                );
                Ok(())
            },
            Ok(PlayerAction::Fold) => {
                self.state.folded_players.push(i);
                self.state.remove_inactive_players();
                self.add_action(GameAction::PlayedFolded { action: PlayerAction::Fold, i });
                Ok(())
            },
            Ok(PlayerAction::Raise(_)) => {
                self.state.folded_players.push(i);
                self.state.remove_inactive_players();
                self.add_action(
                    GameAction::ErroredPlay { error: EngineError::NoRaiseAllowedError, i },
                );
                Err(EngineError::NoRaiseAllowedError)
            },
            Err(e) => {
                self.state.folded_players.push(i);
                self.state.remove_inactive_players();
                self.add_action(GameAction::ErroredPlay { error: e, i });
                Ok(())
            },
        }
    }

    /// Offers the blind to each seat from `start` on, while more than one
    /// seat is still active, then moves to the flop.
    #[verifier::loop_isolation(false)]
    fn preflop(&mut self, start: usize) -> (r: Result<(), EngineError>)
        requires
            old(self).inv(),
            old(self).state.round == Round::Preflop,
        ensures
            final(self).inv(),
            final(self).state.total_chips() == old(self).state.total_chips(),
            final(self).players@.len() == old(self).players@.len(),
            final(self).state.players_money@.len() == old(self).state.players_money@.len(),
            final(self).deck == old(self).deck,
            final(self).players_hands == old(self).players_hands,
            final(self).state.community@ == old(self).state.community@,
            old(self).action_queue.log().len() <= final(self).action_queue.log().len()
                && forall|k: int|
                0 <= k < old(self).action_queue.log().len() ==> final(self).action_queue.log()[k] == old(self).action_queue.log()[k],
            old(self).state.folded_players@.len() <= final(self).state.folded_players@.len()
                && forall|k: int|
                0 <= k < old(self).state.folded_players@.len() ==> final(self).state.folded_players@[k] == old(self).state.folded_players@[k],
            old(self).state.players_all_in@.len() <= final(self).state.players_all_in@.len()
                && forall|k: int|
                0 <= k < old(self).state.players_all_in@.len() ==> final(self).state.players_all_in@[k] == old(self).state.players_all_in@[k],
            old(self).state.num_active_players <= 1 ==> (r is Ok && final(self).state.round
                == Round::Flop && final(self).state.players_money@ == old(self).state.players_money@ && final(self).state.players_bet@ == old(self).state.players_bet@ && final(self).state.bet_amount == old(self).state.bet_amount
                && final(self).state.folded_players@ == old(self).state.folded_players@ && final(self).state.players_all_in@ == old(self).state.players_all_in@ && final(self).state.active_players@ == old(self).state.active_players@ && final(self).state.num_active_players == old(self).state.num_active_players),
            r is Ok ==> final(self).state.round == Round::Flop,
            r is Err ==> (r == Err::<(), EngineError>(EngineError::NoRaiseAllowedError) || r
                == Err::<(), EngineError>(EngineError::NotEnoughMoney)),
            all_dummy(old(self).players@) ==> (r is Ok && final(self).players@ == old(self).players@),
            (old(self).state.active_players@.no_duplicates() && active_clean(old(self).state))
                ==> (final(self).state.active_players@.no_duplicates() && active_clean(
                final(self).state,
            ) && (someone_left(old(self).state) ==> someone_left(final(self).state))),
            final(self).action_queue.log().len() > old(self).action_queue.log().len()
                && final(self).action_queue.log()[old(self).action_queue.log().len() as int].action
                == (GameAction::RoundChanged { round: old(self).state.round }),
    {
        self.add_action(GameAction::RoundChanged { round: self.state.round });

        let n = self.players.len();
        let mut i: usize = if start > n {
            n
        } else {
            start
        };
        while i < n && self.state.num_active_players > 1
            invariant
                i <= n,
                self.players@.len() == n,
                self.inv(),
                self.state.total_chips() == old(self).state.total_chips(),
                self.state.round == Round::Preflop,
                self.deck == old(self).deck,
                self.players_hands == old(self).players_hands,
                self.state.community@ == old(self).state.community@,
                old(self).action_queue.log().len() <= self.action_queue.log().len()
                    && forall|k: int|
                    0 <= k < old(self).action_queue.log().len() ==> self.action_queue.log()[k]
                        == old(self).action_queue.log()[k],
                self.action_queue.log().len() > old(self).action_queue.log().len()
                    && self.action_queue.log()[old(self).action_queue.log().len() as int].action
                    == (GameAction::RoundChanged { round: old(self).state.round }),
                old(self).state.folded_players@.len() <= self.state.folded_players@.len()
                    && forall|k: int|
                    0 <= k < old(self).state.folded_players@.len()
                        ==> self.state.folded_players@[k] == old(self).state.folded_players@[k],
                old(self).state.players_all_in@.len() <= self.state.players_all_in@.len()
                    && forall|k: int|
                    0 <= k < old(self).state.players_all_in@.len()
                        ==> self.state.players_all_in@[k] == old(self).state.players_all_in@[k],
                old(self).state.num_active_players <= 1 ==> (self.state.players_money@ == old(self).state.players_money@ && self.state.players_bet@ == old(self).state.players_bet@
                    && self.state.bet_amount == old(self).state.bet_amount
                    && self.state.folded_players@ == old(self).state.folded_players@
                    && self.state.players_all_in@ == old(self).state.players_all_in@
                    && self.state.active_players@ == old(self).state.active_players@
                    && self.state.num_active_players == old(self).state.num_active_players),
                all_dummy(old(self).players@) ==> self.players@ == old(self).players@,
                (old(self).state.active_players@.no_duplicates() && active_clean(old(self).state))
                    ==> (self.state.active_players@.no_duplicates() && active_clean(self.state)
                    && (someone_left(old(self).state) ==> someone_left(self.state))),
            decreases n - i,
        {
            let ghost st0 = self.state;
            let action = self.players[i].blind(&self.state, i);
            proof {
                if all_dummy(old(self).players@) {
                    assert((old(self).players@[i as int]) is Dummy);
                }
            }
            let r_step = self.apply_blind_action(i, action);
            proof {
                if all_dummy(old(self).players@) {
                    assert(self.players@ =~= old(self).players@);
                }
                if old(self).state.active_players@.no_duplicates() && active_clean(
                    old(self).state,
                ) {
                    match action {
                        Ok(PlayerAction::Call(a)) => {
                            if r_step is Ok {
                                let went = st0.bet_amount >= st0.players_money@[i as int]
                                    + st0.players_bet@[i as int];
                                assert(seat_lists_step(st0, self.state, i, false, went));
                                lemma_seat_lists_step_keeps_table(st0, self.state, i, false, went);
                            }
                        },
                        _ => {
                            assert(seat_lists_step(st0, self.state, i, true, false));
                            lemma_seat_lists_step_keeps_table(st0, self.state, i, true, false);
                        },
                    }
                }
            }
            if let Err(e) = r_step {
                return Err(e);
            }
            i += 1;
        }

        self.state.round = self.state.round.next();
        Ok(())
    }

    /// Carries out one open-phase decision for a seat: calls and raises
    /// place chips, folds and failed decisions remove the seat. Returns
    /// whether the action was a raise that moved chips, which keeps the
    /// betting open for another pass.
    fn apply_play_action(&mut self, i: usize, action: Result<PlayerAction, EngineError>) -> (r:
        Result<bool, EngineError>)
        requires
            old(self).inv(),
            i < old(self).players@.len(),
        ensures
            final(self).inv(),
            final(self).state.total_chips() == old(self).state.total_chips(),
            final(self).state.round == old(self).state.round,
            final(self).state.community@ == old(self).state.community@,
            final(self).players == old(self).players,
            final(self).players_hands == old(self).players_hands,
            final(self).state.players_money@.len() == old(self).state.players_money@.len(),
            sum_i32(final(self).state.players_money@) <= sum_i32(old(self).state.players_money@),
            r == Ok::<bool, EngineError>(true) ==> sum_i32(final(self).state.players_money@)
                < sum_i32(old(self).state.players_money@),
            r is Err ==> r == Err::<bool, EngineError>(EngineError::NotEnoughMoney),
            (action matches Ok(PlayerAction::Fold) || action is Err) ==> r is Ok,
            action matches Ok(PlayerAction::Fold) ==> (final(self).action_queue.log().len() == old(self).action_queue.log().len() + 1 && final(self).action_queue.log().last().action == (
            GameAction::PlayedFolded { action: PlayerAction::Fold, i })),
            action matches Err(e) ==> (final(self).action_queue.log().len() == old(self).action_queue.log().len() + 1 && final(self).action_queue.log().last().action == (
            GameAction::ErroredPlay { error: e, i })),
            action matches Ok(PlayerAction::Call(a)) ==> r is Ok ==> (final(self).action_queue.log().len() == old(self).action_queue.log().len() + 1 && final(self).action_queue.log().last().action == (GameAction::PlayedBet {
                action: PlayerAction::Call(a),
                i,
                all_in: old(self).state.bet_amount >= old(self).state.players_money@[i as int]
                    + old(self).state.players_bet@[i as int],
            })),
            action matches Ok(PlayerAction::Raise(a)) ==> r is Ok ==> (final(self).action_queue.log().len() == old(self).action_queue.log().len() + 1 && final(self).action_queue.log().last().action == (GameAction::PlayedBet {
                action: PlayerAction::Raise(a),
                i,
                all_in: old(self).state.bet_amount == old(self).state.players_money@[i as int]
                    + old(self).state.players_bet@[i as int],
            })),
            action matches Ok(PlayerAction::Call(a)) ==> (r is Err <==> (a < 0 || (old(self).state.bet_amount < old(self).state.players_money@[i as int] + old(self).state.players_bet@[i as int] && old(self).state.players_money@[i as int] < a))),
            action matches Ok(PlayerAction::Raise(a)) ==> (r is Err <==> (a < 0 || (old(self).state.bet_amount != old(self).state.players_money@[i as int] + old(self).state.players_bet@[i as int] && old(self).state.players_money@[i as int] < a))),
            final(self).deck == old(self).deck,
            old(self).action_queue.log().len() <= final(self).action_queue.log().len()
                && forall|k: int|
                0 <= k < old(self).action_queue.log().len() ==> final(self).action_queue.log()[k] == old(self).action_queue.log()[k],
            action matches Ok(PlayerAction::Call(a)) ==> (r is Err ==> *final(self) == *old(self)),
            action matches Ok(PlayerAction::Raise(a)) ==> (r is Err ==> *final(self) == *old(self)),
            (action matches Ok(PlayerAction::Fold) || action is Err) ==> ({
                &&& final(self).state.folded_players@ == old(self).state.folded_players@.push(i)
                &&& final(self).state.players_all_in@ == old(self).state.players_all_in@
                &&& final(self).state.players_bet@ == old(self).state.players_bet@
                &&& final(self).state.players_money@ == old(self).state.players_money@
                &&& final(self).state.bet_amount == old(self).state.bet_amount
                &&& final(self).state.active_players@ == active_filter(
                    old(self).state.active_players@,
                    old(self).state.folded_players@.push(i),
                    old(self).state.players_all_in@,
                )
                &&& final(self).state.num_active_players == final(self).state.active_players@.len()
            }),
            action matches Ok(PlayerAction::Call(a)) ==> r is Ok ==> ({
                let all_in = old(self).state.bet_amount >= old(self).state.players_money@[i as int]
                    + old(self).state.players_bet@[i as int];
                let placed = if all_in {
                    old(self).state.players_money@[i as int] as int
                } else {
                    a as int
                };
                &&& final(self).state.players_bet@ == old(self).state.players_bet@.update(
                    i as int,
                    (old(self).state.players_bet@[i as int] + placed) as i32,
                )
                &&& final(self).state.players_money@ == old(self).state.players_money@.update(
                    i as int,
                    (old(self).state.players_money@[i as int] - placed) as i32,
                )
                &&& final(self).state.bet_amount == max_i32(final(self).state.players_bet@)
                &&& final(self).state.folded_players@ == old(self).state.folded_players@
                &&& (all_in ==> (final(self).state.players_all_in@ == old(self).state.players_all_in@.push(i) && final(self).state.active_players@
                    == active_filter(
                    old(self).state.active_players@,
                    old(self).state.folded_players@,
                    old(self).state.players_all_in@.push(i),
                ) && final(self).state.num_active_players == final(self).state.active_players@.len()))
                &&& (!all_in ==> (final(self).state.players_all_in@ == old(self).state.players_all_in@ && final(self).state.active_players@ == old(self).state.active_players@ && final(self).state.num_active_players == old(self).state.num_active_players))
            }),
            action matches Ok(PlayerAction::Raise(a)) ==> r is Ok ==> ({
                let all_in = old(self).state.bet_amount == old(self).state.players_money@[i as int]
                    + old(self).state.players_bet@[i as int];
                let placed = if all_in {
                    old(self).state.players_money@[i as int] as int
                } else {
                    a as int
                };
                &&& final(self).state.players_bet@ == old(self).state.players_bet@.update(
                    i as int,
                    (old(self).state.players_bet@[i as int] + placed) as i32,
                )
                &&& final(self).state.players_money@ == old(self).state.players_money@.update(
                    i as int,
                    (old(self).state.players_money@[i as int] - placed) as i32,
                )
                &&& final(self).state.bet_amount == max_i32(final(self).state.players_bet@)
                &&& final(self).state.folded_players@ == old(self).state.folded_players@
                &&& (all_in ==> (final(self).state.players_all_in@ == old(self).state.players_all_in@.push(i) && final(self).state.active_players@
                    == active_filter(
                    old(self).state.active_players@,
                    old(self).state.folded_players@,
                    old(self).state.players_all_in@.push(i),
                ) && final(self).state.num_active_players == final(self).state.active_players@.len()))
                &&& (!all_in ==> (final(self).state.players_all_in@ == old(self).state.players_all_in@ && final(self).state.active_players@ == old(self).state.active_players@ && final(self).state.num_active_players == old(self).state.num_active_players))
                &&& (r == Ok::<bool, EngineError>(true) <==> placed > 0)
            }),
    {
        match action {
            Ok(PlayerAction::Raise(amount)) => {
                let all_in = (self.state.bet_amount as i64) == (self.state.players_money[i] as i64)
                    + (self.state.players_bet[i] as i64);
                if amount < 0 {
                    return Err(EngineError::NotEnoughMoney);
                }
                let stack = self.state.players_money[i];
                let ghost money0 = self.state.players_money@;
                if let Err(e) = self.state.bet(amount, i, all_in) {
                    return Err(e);
                }
                proof {
                    if all_in {
                        lemma_sum_update(money0, i as int, 0i32);
                    } else {
                        lemma_sum_update(money0, i as int, (money0[i as int] - amount) as i32);
                    }
                }
                let moved = if all_in {
                    stack > 0
                } else {
                    amount > 0
                };
                self.add_action(
                    GameAction::PlayedBet { action: PlayerAction::Raise(amount), i, all_in },
                );
                Ok(moved)
            },
            Ok(PlayerAction::Call(amount)) => {
                let all_in = (self.state.bet_amount as i64) >= (self.state.players_money[i] as i64)
                    + (self.state.players_bet[i] as i64);
                if amount < 0 {
                    return Err(EngineError::NotEnoughMoney);
                }
                let ghost money0 = self.state.players_money@;
                if let Err(e) = self.state.bet(amount, i, all_in) {
                    return Err(e);
                }
                proof {
                    if all_in {
                        lemma_sum_update(money0, i as int, 0i32);
                    } else {
                        lemma_sum_update(money0, i as int, (money0[i as int] - amount) as i32);
                    }
                }
                self.add_action(
                    GameAction::PlayedBet { action: PlayerAction::Call(amount), i, all_in },
                );
                Ok(false)
            },
            Ok(PlayerAction::Fold) => {
                self.state.folded_players.push(i);
                self.state.remove_inactive_players();
                self.add_action(GameAction::PlayedFolded { action: PlayerAction::Fold, i });
                Ok(false)
            },
            Err(e) => {
                self.state.folded_players.push(i);
                self.state.remove_inactive_players();
                self.add_action(GameAction::ErroredPlay { error: e, i });
                Ok(false)
            },
        }
    }

    /// Repeats passes over the active seats while the previous pass held a
    /// chip-moving raise and more than one seat is active; each pass asks
    /// every seat that was active when it began.
    #[verifier::loop_isolation(false)]
    fn betting_round(&mut self) -> (r: Result<(), EngineError>)
        requires
            old(self).inv(),
            old(self).state.round != Round::Starting,
            old(self).state.round != Round::Complete,
        ensures
            final(self).inv(),
            final(self).state.total_chips() == old(self).state.total_chips(),
            final(self).state.round == old(self).state.round,
            final(self).players@.len() == old(self).players@.len(),
            final(self).players_hands == old(self).players_hands,
            final(self).state.players_money@.len() == old(self).state.players_money@.len(),
            final(self).deck == old(self).deck,
            final(self).state.community@ == old(self).state.community@,
            old(self).action_queue.log().len() <= final(self).action_queue.log().len()
                && forall|k: int|
                0 <= k < old(self).action_queue.log().len() ==> final(self).action_queue.log()[k] == old(self).action_queue.log()[k],
            old(self).state.folded_players@.len() <= final(self).state.folded_players@.len()
                && forall|k: int|
                0 <= k < old(self).state.folded_players@.len() ==> final(self).state.folded_players@[k] == old(self).state.folded_players@[k],
            old(self).state.players_all_in@.len() <= final(self).state.players_all_in@.len()
                && forall|k: int|
                0 <= k < old(self).state.players_all_in@.len() ==> final(self).state.players_all_in@[k] == old(self).state.players_all_in@[k],
            old(self).state.num_active_players <= 1 ==> (r is Ok && *final(self) == *old(self)),
            r is Err ==> r == Err::<(), EngineError>(EngineError::NotEnoughMoney),
            (all_dummy(old(self).players@) && old(self).state.community@.len() >= 3) ==> (r is Ok
                && final(self).players@ == old(self).players@),
            (old(self).state.active_players@.no_duplicates() && active_clean(old(self).state))
                ==> (final(self).state.active_players@.no_duplicates() && active_clean(
                final(self).state,
            ) && (someone_left(old(self).state) ==> someone_left(final(self).state))),
    {
        let mut raising = true;
        proof {
            lemma_sum_nonneg(self.state.players_money@);
        }
        while raising && self.state.num_active_players > 1
            invariant
                self.inv(),
                self.state.total_chips() == old(self).state.total_chips(),
                self.state.round == old(self).state.round,
                self.players@.len() == old(self).players@.len(),
                self.players_hands == old(self).players_hands,
                self.state.players_money@.len() == old(self).state.players_money@.len(),
                self.deck == old(self).deck,
                self.state.community@ == old(self).state.community@,
                old(self).action_queue.log().len() <= self.action_queue.log().len()
                    && forall|k: int|
                    0 <= k < old(self).action_queue.log().len() ==> self.action_queue.log()[k]
                        == old(self).action_queue.log()[k],
                old(self).state.folded_players@.len() <= self.state.folded_players@.len()
                    && forall|k: int|
                    0 <= k < old(self).state.folded_players@.len()
                        ==> self.state.folded_players@[k] == old(self).state.folded_players@[k],
                old(self).state.players_all_in@.len() <= self.state.players_all_in@.len()
                    && forall|k: int|
                    0 <= k < old(self).state.players_all_in@.len()
                        ==> self.state.players_all_in@[k] == old(self).state.players_all_in@[k],
                old(self).state.num_active_players <= 1 ==> *self == *old(self),
                all_dummy(old(self).players@) ==> self.players@ == old(self).players@,
                (old(self).state.active_players@.no_duplicates() && active_clean(old(self).state))
                    ==> (self.state.active_players@.no_duplicates() && active_clean(self.state)
                    && (someone_left(old(self).state) ==> someone_left(self.state))),
                sum_i32(self.state.players_money@) >= 0,
            decreases sum_i32(self.state.players_money@) + if raising {
                1int
            } else {
                0int
            },
        {
            raising = false;
            let ghost pass0 = sum_i32(self.state.players_money@);

            let order = copy_vec(&self.state.active_players);
            let mut j: usize = 0;
            while j < order.len()
                invariant
                    j <= order@.len(),
                    self.inv(),
                    self.state.total_chips() == old(self).state.total_chips(),
                    self.state.round == old(self).state.round,
                    self.players@.len() == old(self).players@.len(),
                    self.players_hands == old(self).players_hands,
                    self.state.players_money@.len() == old(self).state.players_money@.len(),
                    self.deck == old(self).deck,
                    self.state.community@ == old(self).state.community@,
                    old(self).action_queue.log().len() <= self.action_queue.log().len()
                        && forall|k: int|
                        0 <= k < old(self).action_queue.log().len() ==> self.action_queue.log()[k]
                            == old(self).action_queue.log()[k],
                    old(self).state.folded_players@.len() <= self.state.folded_players@.len()
                        && forall|k: int|
                        0 <= k < old(self).state.folded_players@.len()
                            ==> self.state.folded_players@[k] == old(self).state.folded_players@[k],
                    old(self).state.players_all_in@.len() <= self.state.players_all_in@.len()
                        && forall|k: int|
                        0 <= k < old(self).state.players_all_in@.len()
                            ==> self.state.players_all_in@[k] == old(self).state.players_all_in@[k],
                    old(self).state.num_active_players > 1,
                    all_dummy(old(self).players@) ==> self.players@ == old(self).players@,
                    (old(self).state.active_players@.no_duplicates() && active_clean(
                        old(self).state,
                    )) ==> (self.state.active_players@.no_duplicates() && active_clean(self.state)
                        && (someone_left(old(self).state) ==> someone_left(self.state))),
                    forall|k: int|
                        0 <= k < order@.len() ==> order@[k] < self.state.players_money@.len(),
                    sum_i32(self.state.players_money@) <= pass0,
                    raising ==> sum_i32(self.state.players_money@) < pass0,
                decreases order@.len() - j,
            {
                if self.state.num_active_players <= 1 {
                    let ghost stq = self.state;
                    self.state.remove_inactive_players();
                    proof {
                        lemma_sum_nonneg(self.state.players_money@);
                        if old(self).state.active_players@.no_duplicates() && active_clean(
                            old(self).state,
                        ) {
                            lemma_active_filter_identity(
                                stq.active_players@,
                                stq.folded_players@,
                                stq.players_all_in@,
                            );
                        }
                    }
                    return Ok(());
                }

                let i = order[j];
                let ghost st0 = self.state;
                let action = self.players[i].play(&self.state, i);
                proof {
                    if all_dummy(old(self).players@) {
                        assert((old(self).players@[i as int]) is Dummy);
                    }
                }
                let r_step = self.apply_play_action(i, action);
                proof {
                    if all_dummy(old(self).players@) {
                        assert(self.players@ =~= old(self).players@);
                    }
                    if old(self).state.active_players@.no_duplicates() && active_clean(
                        old(self).state,
                    ) {
                        match action {
                            Ok(PlayerAction::Call(a)) => {
                                if r_step is Ok {
                                    let went = st0.bet_amount >= st0.players_money@[i as int]
                                        + st0.players_bet@[i as int];
                                    assert(seat_lists_step(st0, self.state, i, false, went));
                                    lemma_seat_lists_step_keeps_table(
                                        st0,
                                        self.state,
                                        i,
                                        false,
                                        went,
                                    );
                                }
                            },
                            Ok(PlayerAction::Raise(a)) => {
                                if r_step is Ok {
                                    let went = st0.bet_amount == st0.players_money@[i as int]
                                        + st0.players_bet@[i as int];
                                    assert(seat_lists_step(st0, self.state, i, false, went));
                                    lemma_seat_lists_step_keeps_table(
                                        st0,
                                        self.state,
                                        i,
                                        false,
                                        went,
                                    );
                                }
                            },
                            _ => {
                                assert(seat_lists_step(st0, self.state, i, true, false));
                                lemma_seat_lists_step_keeps_table(st0, self.state, i, true, false);
                            },
                        }
                    }
                }
                match r_step {
                    Ok(stepped) => {
                        if stepped {
                            raising = true;
                        }
                    },
                    Err(e) => {
                        return Err(e);
                    },
                }
                j += 1;
            }
            proof {
                lemma_sum_nonneg(self.state.players_money@);
            }
        }
        Ok(())
    }

    /// Deals `n` community cards, announcing each, or fails when the deck
    /// runs out; the cards move from the top of the deck to the end of the
    /// board in the order drawn.
    #[verifier::loop_isolation(false)]
    fn deal_community(&mut self, n: i32) -> (r: Result<(), EngineError>)
        requires
            old(self).inv(),
            n >= 0,
        ensures
            final(self).inv(),
            final(self).state.total_chips() == old(self).state.total_chips(),
            final(self).state.round == old(self).state.round,
            final(self).players@.len() == old(self).players@.len(),
            final(self).players_hands == old(self).players_hands,
            final(self).state.players_money@.len() == old(self).state.players_money@.len(),
            final(self).state.players_money@ == old(self).state.players_money@,
            final(self).state.players_bet@ == old(self).state.players_bet@,
            final(self).state.bet_amount == old(self).state.bet_amount,
            final(self).state.active_players@ == old(self).state.active_players@,
            final(self).state.folded_players@ == old(self).state.folded_players@,
            final(self).state.players_all_in@ == old(self).state.players_all_in@,
            final(self).state.num_active_players == old(self).state.num_active_players,
            r is Ok <==> old(self).deck@.len() >= n,
            r is Err ==> r == Err::<(), EngineError>(EngineError::BadDeckError),
            final(self).players == old(self).players,
            old(self).action_queue.log().len() <= final(self).action_queue.log().len()
                && forall|k: int|
                0 <= k < old(self).action_queue.log().len() ==> final(self).action_queue.log()[k] == old(self).action_queue.log()[k],
            r is Ok ==> ({
                let deck0 = old(self).deck@;
                let board0 = old(self).state.community@;
                &&& final(self).deck@ == deck0.take(deck0.len() - n)
                &&& final(self).state.community@.len() == board0.len() + n
                &&& forall|j: int|
                    0 <= j < board0.len() ==> final(self).state.community@[j] == board0[j]
                &&& forall|j: int|
                    0 <= j < n ==> #[trigger] final(self).state.community@[board0.len() + j]
                        == deck0[deck0.len() - 1 - j]
            }),
    {
        let ghost deck0 = self.deck@;
        let ghost board0 = self.state.community@;
        proof {
            assert(deck0.take(deck0.len() as int) =~= deck0);
        }
        let mut k: i32 = 0;
        while k < n
            invariant
                0 <= k <= n,
                k <= deck0.len(),
                self.deck@ == deck0.take(deck0.len() - k),
                self.players == old(self).players,
                old(self).action_queue.log().len() <= self.action_queue.log().len()
                    && forall|k: int|
                    0 <= k < old(self).action_queue.log().len() ==> self.action_queue.log()[k]
                        == old(self).action_queue.log()[k],
                self.state.community@.len() == board0.len() + k,
                forall|j: int| 0 <= j < board0.len() ==> self.state.community@[j] == board0[j],
                forall|j: int|
                    0 <= j < k ==> #[trigger] self.state.community@[board0.len() + j] == deck0[
                    deck0.len() - 1 - j],
                self.inv(),
                self.state.total_chips() == old(self).state.total_chips(),
                self.state.round == old(self).state.round,
                self.players@.len() == old(self).players@.len(),
                self.players_hands == old(self).players_hands,
                self.state.players_money@ == old(self).state.players_money@,
                self.state.players_bet@ == old(self).state.players_bet@,
                self.state.bet_amount == old(self).state.bet_amount,
                self.state.active_players@ == old(self).state.active_players@,
                self.state.folded_players@ == old(self).state.folded_players@,
                self.state.players_all_in@ == old(self).state.players_all_in@,
                self.state.num_active_players == old(self).state.num_active_players,
            decreases n - k,
        {
            let c = match self.deck.take() {
                Some(c) => c,
                None => {
                    proof {
                        assert(deck0.take(deck0.len() - k).len() == 0);
                    }
                    return Err(EngineError::BadDeckError);
                },
            };
            proof {
                assert(deck0.take(deck0.len() - k).drop_last() =~= deck0.take(
                    deck0.len() - (k + 1),
                ));
            }
            self.state.community.push(c);
            self.add_action(GameAction::DealCommunity { card: c });
            k += 1;
        }
        Ok(())
    }

    /// Announces the flop, deals its three community cards and runs a
    /// betting round.
    fn flop(&mut self) -> (r: Result<(), EngineError>)
        requires
            old(self).inv(),
            old(self).state.round == Round::Flop,
        ensures
            final(self).inv(),
            final(self).state.total_chips() == old(self).state.total_chips(),
            final(self).players@.len() == old(self).players@.len(),
            final(self).state.players_money@.len() == old(self).state.players_money@.len(),
            final(self).players_hands == old(self).players_hands,
            r == Err::<(), EngineError>(EngineError::BadDeckError) <==> old(self).deck@.len() < 3,
            r is Ok ==> final(self).deck@.len() == old(self).deck@.len() - 3,
            r is Ok ==> final(self).state.community@.len() == old(self).state.community@.len()
                + 3,
            all_dummy(old(self).players@) ==> ((r is Ok <==> old(self).deck@.len() >= 3) && (r is Ok ==> final(self).players@ == old(self).players@)),
            (old(self).state.active_players@.no_duplicates() && active_clean(old(self).state))
                ==> (final(self).state.active_players@.no_duplicates() && active_clean(
                final(self).state,
            ) && (someone_left(old(self).state) ==> someone_left(final(self).state))),
            r is Ok ==> final(self).state.round == Round::Turn,
            r is Err ==> (r == Err::<(), EngineError>(EngineError::BadDeckError) || r == Err::<
                (),
                EngineError,
            >(EngineError::NotEnoughMoney)),
            old(self).action_queue.log().len() <= final(self).action_queue.log().len()
                && forall|k: int|
                0 <= k < old(self).action_queue.log().len() ==> final(self).action_queue.log()[k] == old(self).action_queue.log()[k],
            final(self).action_queue.log().len() > old(self).action_queue.log().len()
                && final(self).action_queue.log()[old(self).action_queue.log().len() as int].action
                == (GameAction::RoundChanged { round: old(self).state.round }),
    {
        self.add_action(GameAction::RoundChanged { round: self.state.round });
        if let Err(e) = self.deal_community(3) {
            return Err(e);
        }
        if let Err(e) = self.betting_round() {
            return Err(e);
        }
        self.state.round = self.state.round.next();
        Ok(())
    }

    /// Announces the turn, deals its community card and runs a betting
    /// round.
    fn turn(&mut self) -> (r: Result<(), EngineError>)
        requires
            old(self).inv(),
            old(self).state.round == Round::Turn,
        ensures
            final(self).inv(),
            final(self).state.total_chips() == old(self).state.total_chips(),
            final(self).players@.len() == old(self).players@.len(),
            final(self).state.players_money@.len() == old(self).state.players_money@.len(),
            final(self).players_hands == old(self).players_hands,
            r == Err::<(), EngineError>(EngineError::BadDeckError) <==> old(self).deck@.len() < 1,
            r is Ok ==> final(self).deck@.len() == old(self).deck@.len() - 1,
            r is Ok ==> final(self).state.community@.len() == old(self).state.community@.len()
                + 1,
            (all_dummy(old(self).players@) && old(self).state.community@.len() >= 2) ==> ((r is Ok <==> old(self).deck@.len() >= 1) && (r is Ok ==> final(self).players@ == old(self).players@)),
            (old(self).state.active_players@.no_duplicates() && active_clean(old(self).state))
                ==> (final(self).state.active_players@.no_duplicates() && active_clean(
                final(self).state,
            ) && (someone_left(old(self).state) ==> someone_left(final(self).state))),
            r is Ok ==> final(self).state.round == Round::River,
            r is Err ==> (r == Err::<(), EngineError>(EngineError::BadDeckError) || r == Err::<
                (),
                EngineError,
            >(EngineError::NotEnoughMoney)),
            old(self).action_queue.log().len() <= final(self).action_queue.log().len()
                && forall|k: int|
                0 <= k < old(self).action_queue.log().len() ==> final(self).action_queue.log()[k] == old(self).action_queue.log()[k],
            final(self).action_queue.log().len() > old(self).action_queue.log().len()
                && final(self).action_queue.log()[old(self).action_queue.log().len() as int].action
                == (GameAction::RoundChanged { round: old(self).state.round }),
    {
        self.add_action(GameAction::RoundChanged { round: self.state.round });
        if let Err(e) = self.deal_community(1) {
            return Err(e);
        }
        if let Err(e) = self.betting_round() {
            return Err(e);
        }
        self.state.round = self.state.round.next();
        Ok(())
    }

    /// Announces the river, deals its community card and runs a betting
    /// round.
    fn river(&mut self) -> (r: Result<(), EngineError>)
        requires
            old(self).inv(),
            old(self).state.round == Round::River,
        ensures
            final(self).inv(),
            final(self).state.total_chips() == old(self).state.total_chips(),
            final(self).players@.len() == old(self).players@.len(),
            final(self).state.players_money@.len() == old(self).state.players_money@.len(),
            final(self).players_hands == old(self).players_hands,
            r == Err::<(), EngineError>(EngineError::BadDeckError) <==> old(self).deck@.len() < 1,
            r is Ok ==> final(self).deck@.len() == old(self).deck@.len() - 1,
            r is Ok ==> final(self).state.community@.len() == old(self).state.community@.len()
                + 1,
            (all_dummy(old(self).players@) && old(self).state.community@.len() >= 2) ==> ((r is Ok <==> old(self).deck@.len() >= 1) && (r is Ok ==> final(self).players@ == old(self).players@)),
            (old(self).state.active_players@.no_duplicates() && active_clean(old(self).state))
                ==> (final(self).state.active_players@.no_duplicates() && active_clean(
                final(self).state,
            ) && (someone_left(old(self).state) ==> someone_left(final(self).state))),
            r is Ok ==> final(self).state.round == Round::Showdown,
            r is Err ==> (r == Err::<(), EngineError>(EngineError::BadDeckError) || r == Err::<
                (),
                EngineError,
            >(EngineError::NotEnoughMoney)),
            old(self).action_queue.log().len() <= final(self).action_queue.log().len()
                && forall|k: int|
                0 <= k < old(self).action_queue.log().len() ==> final(self).action_queue.log()[k] == old(self).action_queue.log()[k],
            final(self).action_queue.log().len() > old(self).action_queue.log().len()
                && final(self).action_queue.log()[old(self).action_queue.log().len() as int].action
                == (GameAction::RoundChanged { round: old(self).state.round }),
    {
        self.add_action(GameAction::RoundChanged { round: self.state.round });
        if let Err(e) = self.deal_community(1) {
            return Err(e);
        }
        if let Err(e) = self.betting_round() {
            return Err(e);
        }
        self.state.round = self.state.round.next();
        Ok(())
    }

    /// Ranks the seven cards of every seat still in the hand, keeps the
    /// first seat reaching the strictly best rank, pays it the whole pot
    /// and completes the hand. Later seats with an equal rank never take
    /// the pot over. Succeeds exactly when someone is still in the hand
    /// and the board is long enough to rank.
    #[verifier::loop_isolation(false)]
    fn showdown(&mut self) -> (r: Result<(), EngineError>)
        requires
            old(self).inv(),
            old(self).state.round == Round::Showdown,
        ensures
            final(self).state.players_money@.len() == old(self).state.players_money@.len(),
            final(self).players@.len() == old(self).players@.len(),
            final(self).players == old(self).players,
            final(self).deck == old(self).deck,
            old(self).action_queue.log().len() <= final(self).action_queue.log().len()
                && forall|k: int|
                0 <= k < old(self).action_queue.log().len() ==> final(self).action_queue.log()[k] == old(self).action_queue.log()[k],
            ({
                let pos = old(self).state.active_players@ + old(self).state.players_all_in@;
                let community = old(self).state.community@;
                &&& (r is Ok <==> (pos.len() > 0 && community.len() >= 3))
                &&& (r == Err::<(), EngineError>(EngineError::GameNotCompletedSuccessfully) <==> pos.len() == 0)
                &&& (r == Err::<(), EngineError>(EngineError::SmallHandError) <==> (pos.len() > 0
                    && community.len() < 3))
            }),
            r is Ok ==> showdown_settles(
                old(self).state,
                old(self).players_hands@,
                final(self).state,
            ),
            r is Ok ==> forall|j: int|
                0 <= j < final(self).state.players_money@.len() ==> final(self).state.players_money@[j] >= 0,
            final(self).action_queue.log().len() > old(self).action_queue.log().len()
                && final(self).action_queue.log()[old(self).action_queue.log().len() as int].action
                == (GameAction::RoundChanged { round: old(self).state.round }),
    {
        self.add_action(GameAction::RoundChanged { round: self.state.round });

        let mut winner_rank = Rank::HighCard(Value::Two);
        let mut winner_idx: usize = usize::MAX;

        let ghost hands0 = self.players_hands@;
        let ghost community0 = self.state.community@;
        let mut pos = copy_vec(&self.state.active_players);
        pos.append(&mut self.state.players_all_in);
        let ghost pos0 = pos@;

        let mut j: usize = 0;
        while j < pos.len()
            invariant
                j <= pos@.len(),
                pos@ == pos0,
                self.players == old(self).players,
                self.players_hands@ == hands0,
                self.inv(),
                self.state.players_all_in@.len() == 0,
                self.state.total_chips() == old(self).state.total_chips(),
                self.state.players_money@ == old(self).state.players_money@,
                self.state.players_bet@ == old(self).state.players_bet@,
                self.state.community@ == community0,
                self.state.folded_players@ == old(self).state.folded_players@,
                self.state.round == old(self).state.round,
                self.deck == old(self).deck,
                old(self).action_queue.log().len() <= self.action_queue.log().len()
                    && forall|k: int|
                    0 <= k < old(self).action_queue.log().len() ==> self.action_queue.log()[k]
                        == old(self).action_queue.log()[k],
                self.action_queue.log().len() > old(self).action_queue.log().len()
                    && self.action_queue.log()[old(self).action_queue.log().len() as int].action
                    == (GameAction::RoundChanged { round: old(self).state.round }),
                forall|k: int| 0 <= k < pos@.len() ==> pos@[k] < self.players@.len(),
                (winner_idx, winner_rank) == showdown_scan(hands0, community0, pos0, j as int),
                j >= 1 ==> community0.len() >= 3,
                j >= 1 && community0.len() >= 3 ==> winner_idx != usize::MAX,
                winner_idx == usize::MAX || winner_idx < self.players@.len(),
            decreases pos@.len() - j,
        {
            let i = pos[j];
            let hand = Hand::new_from_hand(self.players_hands[i], &self.state.community);
            proof {
                assert(hand@ == seven_cards(hands0[i as int], community0));
            }
            let rank = match hand.rank() {
                Ok(rk) => rk,
                Err(e) => {
                    return Err(e);
                },
            };
            proof {
                lemma_rank_spec_beats_floor(seven_cards(hands0[i as int], community0));
            }
            if winner_rank < rank {
                winner_idx = i;
                winner_rank = rank;
            }
            self.add_action(GameAction::ShowdownHand { hand: self.players_hands[i], rank, i });
            j += 1;
        }

        if winner_idx >= self.players.len() {
            // Every seat folded before the showdown: there is nobody to
            // pay, which a legal hand never reaches.
            return Err(EngineError::GameNotCompletedSuccessfully);
        }

        let pot = self.state.award(winner_idx);
        self.add_action(GameAction::WinGame { rank: winner_rank, i: winner_idx, pot });

        self.state.round = self.state.round.next();
        Ok(())
    }

    /// Plays one whole hand: seats are funded with `players_money`, the
    /// blind is posted, and the phases run to completion. Fails up front
    /// when the money list does not match the seats or the blind is not
    /// positive; the final stacks hold exactly the chips the table began
    /// with. Up to 23 seats the deck never runs out, and a table seated
    /// entirely with heuristic players always completes.
    #[verifier::loop_isolation(false)]
    pub fn run(self, players_money: Vec<i32>, blind: i32) -> (r: Result<Vec<i32>, EngineError>)
        requires
            self.fresh(),
            forall|i: int| 0 <= i < players_money@.len() ==> players_money@[i] >= 0,
            sum_i32(players_money@) <= i32::MAX,
        ensures
            (r == Err::<Vec<i32>, EngineError>(EngineError::BadGameError)) <==> (self.players@.len()
                != players_money@.len()),
            (r == Err::<Vec<i32>, EngineError>(EngineError::SmallBlindError)) <==> (
            self.players@.len() == players_money@.len() && blind <= 0),
            r matches Ok(v) ==> (v@.len() == players_money@.len() && sum_i32(v@) == sum_i32(
                players_money@,
            ) && forall|j: int| 0 <= j < v@.len() ==> v@[j] >= 0),
            self.players@.len() <= 23 ==> r != Err::<Vec<i32>, EngineError>(
                EngineError::BadDeckError,
            ),
            (all_dummy(self.players@) && 1 <= self.players@.len() && self.players@.len() <= 23
                && self.players@.len() == players_money@.len() && blind > 0) ==> r is Ok,
    {
        let ghost p0 = self.players@;
        let ghost happy = all_dummy(p0) && 1 <= p0.len() && p0.len() <= 23 && p0.len()
            == players_money@.len() && blind > 0;
        let mut eng = self;
        if eng.players.len() != players_money.len() {
            return Err(EngineError::BadGameError);
        }
        let ghost total0 = sum_i32(players_money@);
        let ghost n = players_money@.len() as int;
        eng.state.players_money = players_money;

        if blind <= 0 {
            return Err(EngineError::SmallBlindError);
        }
        eng.state.bet_amount = blind;

        proof {
            lemma_sum_nonneg(eng.state.players_money@);
        }

        while eng.state.round != Round::Complete
            invariant
                eng.players@.len() == n,
                eng.state.players_money@.len() == n,
                eng.state.round == Round::Starting ==> (eng.state.wf()
                    && eng.state.players_bet@.len() == 0 && eng.players_hands@.len() == 0
                    && eng.state.total_chips() == total0),
                (eng.state.round != Round::Starting && eng.state.round != Round::Complete) ==> (
                eng.inv() && eng.state.total_chips() == total0),
                eng.state.round == Round::Complete ==> (sum_i32(eng.state.players_money@)
                    == total0 && forall|j: int|
                    0 <= j < eng.state.players_money@.len() ==> eng.state.players_money@[j] >= 0),
                eng.state.round == Round::Starting ==> eng.deck@.len() == 52,
                eng.state.round == Round::Preflop ==> eng.deck@.len() == 52 - 2 * n,
                eng.state.round == Round::Flop ==> eng.deck@.len() == 52 - 2 * n,
                eng.state.round == Round::Turn ==> eng.deck@.len() == 52 - 2 * n - 3,
                eng.state.round == Round::River ==> eng.deck@.len() == 52 - 2 * n - 4,
                eng.state.round == Round::Starting ==> eng.state.community@.len() == 0,
                eng.state.round == Round::Preflop ==> eng.state.community@.len() == 0,
                eng.state.round == Round::Flop ==> eng.state.community@.len() == 0,
                eng.state.round == Round::Turn ==> eng.state.community@.len() == 3,
                eng.state.round == Round::River ==> eng.state.community@.len() == 4,
                eng.state.round == Round::Showdown ==> eng.state.community@.len() == 5,
                happy ==> all_dummy(eng.players@),
                happy && eng.state.round != Round::Complete ==> (
                eng.state.active_players@.no_duplicates() && active_clean(eng.state)
                    && someone_left(eng.state)),
            decreases rounds_left(eng.state.round),
        {
            match eng.state.round {
                Round::Starting => {
                    if let Err(e) = eng.start() {
                        return Err(e);
                    }
                },
                Round::Preflop => {
                    if let Err(e) = eng.preflop(0) {
                        return Err(e);
                    }
                },
                Round::Flop => {
                    if let Err(e) = eng.flop() {
                        return Err(e);
                    }
                },
                Round::Turn => {
                    if let Err(e) = eng.turn() {
                        return Err(e);
                    }
                },
                Round::River => {
                    if let Err(e) = eng.river() {
                        return Err(e);
                    }
                },
                Round::Showdown => {
                    if let Err(e) = eng.showdown() {
                        return Err(e);
                    }
                },
                Round::Complete => {
                    proof {
                        assert(false);
                    }
                },
            }
        }

        Ok(eng.state.players_money)
    }

    /// Resumes a hand from an externally supplied mid-hand state: the deck
    /// is rebuilt without the known cards, every other seat is dealt fresh
    /// hole cards, any in-progress betting street is completed, and the
    /// remaining phases run to completion. The final stacks hold exactly
    /// the chips the supplied state held.
    #[verifier::loop_isolation(false)]
    pub fn run_from_game_state(
        players: Vec<SeatPlayer>,
        action_queue: Q,
        state: GameState,
        hand: PlayerHand,
        player_idx: usize,
    ) -> (r: Result<Vec<i32>, EngineError>)
        requires
            state.wf(),
            state.seats_bet(),
            players@.len() == state.players_money@.len(),
            player_idx < players@.len(),
            state.round != Round::Starting,
            state.round != Round::Complete,
        ensures
            r matches Ok(v) ==> (v@.len() == state.players_money@.len() && sum_i32(v@)
                == state.total_chips() && forall|j: int| 0 <= j < v@.len() ==> v@[j] >= 0),
            52 - excluded_below(seq![hand.0, hand.1] + state.community@, 52) >= 2 * (
            players@.len() - 1) + resume_board_cards(state.round) ==> r != Err::<
                Vec<i32>,
                EngineError,
            >(EngineError::BadDeckError),
            state.round == Round::Showdown && 52 - excluded_below(
                seq![hand.0, hand.1] + state.community@,
                52,
            ) >= 2 * (players@.len() - 1) ==> (r is Ok <==> ((state.active_players@
                + state.players_all_in@).len() > 0 && state.community@.len() >= 3)),
    {
        let mut excluded: Vec<Card> = Vec::new();
        excluded.push(hand.0);
        excluded.push(hand.1);
        let mut ci: usize = 0;
        while ci < state.community.len()
            invariant
                ci <= state.community@.len(),
                excluded@ == seq![hand.0, hand.1] + state.community@.take(ci as int),
            decreases state.community@.len() - ci,
        {
            excluded.push(state.community[ci]);
            proof {
                assert(seq![hand.0, hand.1] + state.community@.take(ci as int + 1) =~= (
                seq![hand.0, hand.1] + state.community@.take(ci as int)).push(
                    state.community@[ci as int],
                ));
            }
            ci += 1;
        }
        proof {
            assert(seq![hand.0, hand.1] + state.community@.take(state.community@.len() as int)
                =~= seq![hand.0, hand.1] + state.community@);
            assert(excluded@ == seq![hand.0, hand.1] + state.community@);
        }
        let deck = Deck::new_without_cards(&excluded);
        let ghost d0 = 52 - excluded_below(seq![hand.0, hand.1] + state.community@, 52);
        let ghost enough = d0 >= 2 * (state.players_money@.len() - 1) + resume_board_cards(
            state.round,
        );

        let ghost total0 = state.total_chips();
        let ghost n = state.players_money@.len() as int;

        let mut engine = Engine { action_queue, deck, state, players_hands: Vec::new(), players };

        let np = engine.players.len();
        let mut i: usize = 0;
        while i < np
            invariant
                i <= np,
                engine.players@.len() == np,
                engine.players_hands@.len() == i,
                forall|j: int| 0 <= j < i ==> engine.players@[j].ready(),
                engine.state.wf(),
                engine.state.seats_bet(),
                engine.state.players_money@.len() == n,
                engine.state.round == state.round,
                engine.state.community@ == state.community@,
                engine.state.active_players@ == state.active_players@,
                engine.state.players_all_in@ == state.players_all_in@,
                engine.state.folded_players@ == state.folded_players@,
                engine.state.players_bet@ == state.players_bet@,
                engine.state.round != Round::Starting,
                engine.state.round != Round::Complete,
                engine.state.total_chips() == total0,
                engine.deck@.len() == d0 - 2 * i + (if player_idx < i {
                    2int
                } else {
                    0int
                }),
            decreases np - i,
        {
            if i == player_idx {
                engine.players_hands.push(hand);
                engine.players[i].give_cards(hand);
                engine.add_action(GameAction::DealStartHand { hand, i });
            } else {
                proof {
                    if enough {
                        assert(engine.deck@.len() >= 2);
                    }
                }
                let c1 = match engine.deck.take() {
                    Some(c) => c,
                    None => {
                        return Err(EngineError::BadDeckError);
                    },
                };
                let c2 = match engine.deck.take() {
                    Some(c) => c,
                    None => {
                        return Err(EngineError::BadDeckError);
                    },
                };
                let h = (c1, c2);
                engine.players_hands.push(h);
                engine.players[i].give_cards(h);
                engine.add_action(GameAction::DealStartHand { hand: h, i });
            }
            i += 1;
        }

        match engine.state.round {
            Round::Flop | Round::Turn | Round::River => {
                if let Err(e) = engine.betting_round() {
                    return Err(e);
                }
                engine.state.round = engine.state.round.next();
            },
            _ => {},
        }

        proof {
            lemma_sum_nonneg(engine.state.players_money@);
        }

        while engine.state.round != Round::Complete
            invariant
                engine.players@.len() == n,
                engine.state.players_money@.len() == n,
                engine.state.round != Round::Starting,
                engine.state.round != Round::Complete ==> (engine.inv()
                    && engine.state.total_chips() == total0),
                engine.state.round == Round::Complete ==> (sum_i32(engine.state.players_money@)
                    == total0 && forall|j: int|
                    0 <= j < engine.state.players_money@.len() ==> engine.state.players_money@[j]
                        >= 0),
                enough ==> engine.deck@.len() >= board_cards_to_come(engine.state.round),
                state.round == Round::Showdown ==> (engine.state.round == Round::Showdown
                    || engine.state.round == Round::Complete),
                state.round == Round::Showdown && engine.state.round == Round::Showdown ==> (
                engine.state.active_players@ == state.active_players@
                    && engine.state.players_all_in@ == state.players_all_in@
                    && engine.state.community@ == state.community@),
                state.round == Round::Showdown && engine.state.round == Round::Complete ==> ((
                state.active_players@ + state.players_all_in@).len() > 0
                    && state.community@.len() >= 3),
            decreases rounds_left(engine.state.round),
        {
            match engine.state.round {
                Round::Starting => {
                    proof {
                        assert(false);
                    }
                },
                Round::Preflop => {
                    if let Err(e) = engine.preflop(player_idx) {
                        return Err(e);
                    }
                },
                Round::Flop => {
                    if let Err(e) = engine.flop() {
                        return Err(e);
                    }
                },
                Round::Turn => {
                    if let Err(e) = engine.turn() {
                        return Err(e);
                    }
                },
                Round::River => {
                    if let Err(e) = engine.river() {
                        return Err(e);
                    }
                },
                Round::Showdown => {
                    if let Err(e) = engine.showdown() {
                        return Err(e);
                    }
                },
                Round::Complete => {
                    proof {
                        assert(false);
                    }
                },
            }
        }

        Ok(engine.state.players_money)
    }
}

} // verus!
