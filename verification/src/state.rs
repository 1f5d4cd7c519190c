use vstd::prelude::*;

use crate::card::Card;
use crate::error::EngineError;
use crate::util::{contains_seat, copy_vec};

verus! {

/// The betting phases of one hand, advanced strictly in this order.
#[derive(Copy, Clone, Debug, PartialEq, Eq, Structural, Hash)]
pub enum Round {
    Starting,
    Preflop,
    Flop,
    Turn,
    River,
    Showdown,
    Complete,
}

/// What follows a round; `Complete` stays where it is.
pub open spec fn next_round_spec(r: Round) -> Round {
    match r {
        Round::Starting => Round::Preflop,
        Round::Preflop => Round::Flop,
        Round::Flop => Round::Turn,
        Round::Turn => Round::River,
        Round::River => Round::Showdown,
        Round::Showdown => Round::Complete,
        Round::Complete => Round::Complete,
    }
}

/// How many rounds are left before the hand is complete; used to show that
/// a hand always finishes.
pub open spec fn rounds_left(r: Round) -> int {
    match r {
        Round::Starting => 6,
        Round::Preflop => 5,
        Round::Flop => 4,
        Round::Turn => 3,
        Round::River => 2,
        Round::Showdown => 1,
        Round::Complete => 0,
    }
}

impl Round {
    /// The round that follows this one.
    pub fn next(&self) -> (r: Self)
        ensures
            r == next_round_spec(*self),
    {
        match *self {
            Round::Starting => Round::Preflop,
            Round::Preflop => Round::Flop,
            Round::Flop => Round::Turn,
            Round::Turn => Round::River,
            Round::River => Round::Showdown,
            Round::Showdown => Round::Complete,
            Round::Complete => Round::Complete,
        }
    }
}

/// The sum of a ledger column, as an unbounded integer.
pub open spec fn sum_i32(s: Seq<i32>) -> int
    decreases s.len(),
{
    if s.len() == 0 {
        0
    } else {
        sum_i32(s.drop_last()) + s.last()
    }
}

/// The largest entry of a ledger column; zero when it is empty.
pub open spec fn max_i32(s: Seq<i32>) -> int
    decreases s.len(),
{
    if s.len() == 0 {
        0
    } else if s.len() == 1 {
        s[0] as int
    } else if s.last() > max_i32(s.drop_last()) {
        s.last() as int
    } else {
        max_i32(s.drop_last())
    }
}

/// A sum of non-negative entries is non-negative.
pub proof fn lemma_sum_nonneg(s: Seq<i32>)
    requires
        forall|i: int| 0 <= i < s.len() ==> s[i] >= 0,
    ensures
        sum_i32(s) >= 0,
    decreases s.len(),
{
    if s.len() > 0 {
        lemma_sum_nonneg(s.drop_last());
    }
}

/// Replacing one entry moves the sum by the difference.
pub proof fn lemma_sum_update(s: Seq<i32>, i: int, v: i32)
    requires
        0 <= i < s.len(),
    ensures
        sum_i32(s.update(i, v)) == sum_i32(s) - s[i] + v,
    decreases s.len(),
{
    if i == s.len() - 1 {
        assert(s.update(i, v).drop_last() =~= s.drop_last());
    } else {
        assert(s.update(i, v).drop_last() =~= s.drop_last().update(i, v));
        lemma_sum_update(s.drop_last(), i, v);
    }
}

/// In a column of non-negative entries, each entry is at most the sum.
pub proof fn lemma_sum_element_bound(s: Seq<i32>, i: int)
    requires
        forall|j: int| 0 <= j < s.len() ==> s[j] >= 0,
        0 <= i < s.len(),
    ensures
        s[i] <= sum_i32(s),
    decreases s.len(),
{
    if i == s.len() - 1 {
        lemma_sum_nonneg(s.drop_last());
    } else {
        lemma_sum_element_bound(s.drop_last(), i);
    }
}

/// A prefix sum of non-negative entries never exceeds the whole sum.
pub proof fn lemma_sum_take_le(s: Seq<i32>, i: int)
    requires
        forall|j: int| 0 <= j < s.len() ==> s[j] >= 0,
        0 <= i <= s.len(),
    ensures
        sum_i32(s.take(i)) <= sum_i32(s),
    decreases s.len() - i,
{
    if i == s.len() {
        assert(s.take(i) =~= s);
    } else {
        assert(s.take(i + 1).drop_last() =~= s.take(i));
        lemma_sum_take_le(s, i + 1);
    }
}

/// Every entry is at most the maximum of its column.
pub proof fn lemma_max_ge_all(s: Seq<i32>, i: int)
    requires
        0 <= i < s.len(),
    ensures
        s[i] <= max_i32(s),
    decreases s.len(),
{
    if s.len() > 1 && i < s.len() - 1 {
        lemma_max_ge_all(s.drop_last(), i);
    }
}

/// The seats of `active` that sit in neither `folded` nor `all_in`,
/// in their original order.
pub open spec fn active_filter(active: Seq<usize>, folded: Seq<usize>, all_in: Seq<usize>) -> Seq<
    usize,
>
    decreases active.len(),
{
    if active.len() == 0 {
        Seq::empty()
    } else {
        let rest = active_filter(active.drop_last(), folded, all_in);
        if !folded.contains(active.last()) && !all_in.contains(active.last()) {
            rest.push(active.last())
        } else {
            rest
        }
    }
}

/// Filtering never grows the list of active seats.
pub proof fn lemma_active_filter_len(active: Seq<usize>, folded: Seq<usize>, all_in: Seq<usize>)
    ensures
        active_filter(active, folded, all_in).len() <= active.len(),
    decreases active.len(),
{
    if active.len() > 0 {
        lemma_active_filter_len(active.drop_last(), folded, all_in);
    }
}

/// A seat survives the filter exactly when it was active and sits in
/// neither of the two excluded lists.
pub proof fn lemma_active_filter_membership(
    active: Seq<usize>,
    folded: Seq<usize>,
    all_in: Seq<usize>,
    x: usize,
)
    ensures
        active_filter(active, folded, all_in).contains(x) <==> (active.contains(x)
            && !folded.contains(x) && !all_in.contains(x)),
    decreases active.len(),
{
    if active.len() > 0 {
        lemma_active_filter_membership(active.drop_last(), folded, all_in, x);
        assert(active.drop_last().contains(x) || active.last() == x ==> active.contains(x));
        if active.contains(x) && !(active.drop_last().contains(x) || active.last() == x) {
            let j = choose|j: int| 0 <= j < active.len() && active[j] == x;
            assert(j < active.len() - 1 ==> active.drop_last()[j] == x);
        }
        let rest = active_filter(active.drop_last(), folded, all_in);
        if !folded.contains(active.last()) && !all_in.contains(active.last()) {
            assert(active_filter(active, folded, all_in) == rest.push(active.last()));
            if active_filter(active, folded, all_in).contains(x) {
                let k = choose|k: int|
                    0 <= k < rest.push(active.last()).len() && rest.push(active.last())[k] == x;
                assert(k < rest.len() ==> rest[k] == x);
            }
            if rest.contains(x) {
                let k = choose|k: int| 0 <= k < rest.len() && rest[k] == x;
                assert(rest.push(active.last())[k] == x);
            }
            if active.last() == x {
                assert(rest.push(active.last())[rest.len() as int] == x);
            }
        }
    }
}

/// A push extends the members of a list by exactly the pushed element.
proof fn lemma_push_contains(s: Seq<usize>, x: usize, y: usize)
    ensures
        s.push(x).contains(y) <==> (s.contains(y) || x == y),
{
    if s.contains(y) {
        let j = choose|j: int| 0 <= j < s.len() && s[j] == y;
        assert(s.push(x)[j] == y);
    }
    assert(s.push(x)[s.len() as int] == x);
    if s.push(x).contains(y) {
        let j = choose|j: int| 0 <= j < s.push(x).len() && s.push(x)[j] == y;
        if j < s.len() {
            assert(s[j] == y);
        }
    }
}

/// Filtering a duplicate-free active list leaves it duplicate-free.
pub proof fn lemma_active_filter_no_dup(active: Seq<usize>, folded: Seq<usize>, all_in: Seq<usize>)
    requires
        active.no_duplicates(),
    ensures
        active_filter(active, folded, all_in).no_duplicates(),
    decreases active.len(),
{
    if active.len() > 0 {
        assert(active.drop_last().no_duplicates());
        lemma_active_filter_no_dup(active.drop_last(), folded, all_in);
        let rest = active_filter(active.drop_last(), folded, all_in);
        lemma_active_filter_membership(active.drop_last(), folded, all_in, active.last());
        if active.drop_last().contains(active.last()) {
            let j = choose|j: int|
                0 <= j < active.drop_last().len() && active.drop_last()[j] == active.last();
            assert(active[j] == active[active.len() - 1]);
        }
        if !folded.contains(active.last()) && !all_in.contains(active.last()) {
            assert(!rest.contains(active.last()));
            assert forall|a: int, b: int|
                0 <= a < b < rest.push(active.last()).len() implies rest.push(active.last())[a]
                != rest.push(active.last())[b] by {
                if b < rest.len() {
                } else {
                    assert(rest[a] != active.last()) by {
                        assert(rest.contains(rest[a]));
                    }
                }
            }
        }
    }
}

/// Excluding a seat that was never active changes nothing.
proof fn lemma_active_filter_absent(
    active: Seq<usize>,
    folded: Seq<usize>,
    all_in: Seq<usize>,
    x: usize,
)
    requires
        !active.contains(x),
    ensures
        active_filter(active, folded.push(x), all_in) == active_filter(active, folded, all_in),
    decreases active.len(),
{
    if active.len() > 0 {
        assert(!active.drop_last().contains(x)) by {
            if active.drop_last().contains(x) {
                let j = choose|j: int|
                    0 <= j < active.drop_last().len() && active.drop_last()[j] == x;
                assert(active[j] == x);
            }
        }
        lemma_active_filter_absent(active.drop_last(), folded, all_in, x);
        assert(active.contains(active.last())) by {
            assert(active[active.len() - 1] == active.last());
        }
        lemma_push_contains(folded, x, active.last());
    }
}

/// Folding one seat of a duplicate-free active list removes at most one
/// active seat.
pub proof fn lemma_active_filter_fold_one(
    active: Seq<usize>,
    folded: Seq<usize>,
    all_in: Seq<usize>,
    x: usize,
)
    requires
        active.no_duplicates(),
    ensures
        active_filter(active, folded.push(x), all_in).len() >= active_filter(
            active,
            folded,
            all_in,
        ).len() - 1,
    decreases active.len(),
{
    if active.len() > 0 {
        assert(active.drop_last().no_duplicates());
        lemma_push_contains(folded, x, active.last());
        if active.last() == x {
            assert(!active.drop_last().contains(x)) by {
                if active.drop_last().contains(x) {
                    let j = choose|j: int|
                        0 <= j < active.drop_last().len() && active.drop_last()[j] == x;
                    assert(active[j] == active[active.len() - 1]);
                }
            }
            lemma_active_filter_absent(active.drop_last(), folded, all_in, x);
        } else {
            lemma_active_filter_fold_one(active.drop_last(), folded, all_in, x);
        }
    }
}

/// Somebody can still win the pot: a seat is active or already all in.
pub open spec fn someone_left(s: GameState) -> bool {
    s.num_active_players >= 1 || s.players_all_in@.len() >= 1
}

/// No active seat sits in either excluded list; what every recompute of
/// the active list establishes.
pub open spec fn active_clean(s: GameState) -> bool {
    forall|k: int|
        0 <= k < s.active_players@.len() ==> (!s.folded_players@.contains(
            #[trigger] s.active_players@[k],
        ) && !s.players_all_in@.contains(s.active_players@[k]))
}

/// Filtering a list whose members are all still in the hand changes
/// nothing.
pub proof fn lemma_active_filter_identity(
    active: Seq<usize>,
    folded: Seq<usize>,
    all_in: Seq<usize>,
)
    requires
        forall|k: int|
            0 <= k < active.len() ==> (!folded.contains(#[trigger] active[k])
                && !all_in.contains(active[k])),
    ensures
        active_filter(active, folded, all_in) == active,
    decreases active.len(),
{
    if active.len() > 0 {
        assert(forall|k: int|
            0 <= k < active.drop_last().len() ==> (!folded.contains(
                #[trigger] active.drop_last()[k],
            ) && !all_in.contains(active.drop_last()[k])));
        lemma_active_filter_identity(active.drop_last(), folded, all_in);
        assert(!folded.contains(active[active.len() - 1]) && !all_in.contains(
            active[active.len() - 1],
        ));
        assert(active.drop_last().push(active.last()) =~= active);
    }
}

/// The per-hand betting ledger: how much each seat holds and has bet, who
/// is still in the hand, and how far the hand has advanced.
#[derive(Debug)]
pub struct GameState {
    pub round: Round,
    pub community: Vec<Card>,
    pub players_bet: Vec<i32>,
    pub players_money: Vec<i32>,
    pub bet_amount: i32,
    pub players_all_in: Vec<usize>,
    pub folded_players: Vec<usize>,
    pub num_active_players: i32,
    pub active_players: Vec<usize>,
}

impl GameState {
    /// All chips on the table: everything still held plus everything bet.
    pub open spec fn total_chips(self) -> int {
        sum_i32(self.players_money@) + sum_i32(self.players_bet@)
    }

    /// The ledger is well formed: amounts are non-negative, no bet exceeds
    /// the table-high bet, the chip total fits the machine, and the seat
    /// lists point at real seats with the active count kept in step.
    pub open spec fn wf(self) -> bool {
        &&& self.players_money@.len() <= i32::MAX
        &&& forall|i: int|
            0 <= i < self.players_money@.len() ==> self.players_money@[i] >= 0
        &&& forall|i: int|
            0 <= i < self.players_bet@.len() ==> 0 <= #[trigger] self.players_bet@[i]
                <= self.bet_amount
        &&& self.bet_amount >= 0
        &&& self.total_chips() <= i32::MAX
        &&& forall|i: int|
            0 <= i < self.active_players@.len() ==> self.active_players@[i]
                < self.players_money@.len()
        &&& forall|i: int|
            0 <= i < self.players_all_in@.len() ==> self.players_all_in@[i]
                < self.players_money@.len()
        &&& self.num_active_players == self.active_players@.len()
    }

    /// One bet entry per seat, as every mid-hand state has.
    pub open spec fn seats_bet(self) -> bool {
        self.players_bet@.len() == self.players_money@.len()
    }
}

/// Two ledgers that agree field by field; what a snapshot of the state
/// carries into an emitted message.
pub open spec fn mirrors(a: GameState, b: GameState) -> bool {
    &&& a.round == b.round
    &&& a.community@ == b.community@
    &&& a.players_bet@ == b.players_bet@
    &&& a.players_money@ == b.players_money@
    &&& a.bet_amount == b.bet_amount
    &&& a.players_all_in@ == b.players_all_in@
    &&& a.folded_players@ == b.folded_players@
    &&& a.num_active_players == b.num_active_players
    &&& a.active_players@ == b.active_players@
}

impl Clone for GameState {
    /// A copy of the ledger that agrees with the original field by field.
    fn clone(&self) -> (r: Self)
        ensures
            r.round == self.round,
            r.community@ == self.community@,
            r.players_bet@ == self.players_bet@,
            r.players_money@ == self.players_money@,
            r.bet_amount == self.bet_amount,
            r.players_all_in@ == self.players_all_in@,
            r.folded_players@ == self.folded_players@,
            r.num_active_players == self.num_active_players,
            r.active_players@ == self.active_players@,
            self.wf() ==> r.wf(),
            self.seats_bet() ==> r.seats_bet(),
            r.total_chips() == self.total_chips(),
    {
        GameState {
            round: self.round,
            community: copy_vec(&self.community),
            players_bet: copy_vec(&self.players_bet),
            players_money: copy_vec(&self.players_money),
            bet_amount: self.bet_amount,
            players_all_in: copy_vec(&self.players_all_in),
            folded_players: copy_vec(&self.folded_players),
            num_active_players: self.num_active_players,
            active_players: copy_vec(&self.active_players),
        }
    }
}

/// The largest bet of a non-empty ledger column.
fn max_of(v: &Vec<i32>) -> (m: i32)
    requires
        v@.len() >= 1,
    ensures
        m == max_i32(v@),
{
    let mut m = v[0];
    let mut i: usize = 1;
    proof {
        assert(v@.take(1) =~= seq![v@[0]]);
    }
    while i < v.len()
        invariant
            1 <= i <= v@.len(),
            m == max_i32(v@.take(i as int)),
        decreases v@.len() - i,
    {
        proof {
            assert(v@.take(i as int + 1).drop_last() =~= v@.take(i as int));
        }
        if v[i] > m {
            m = v[i];
        }
        i += 1;
    }
    proof {
        assert(v@.take(v@.len() as int) =~= v@);
    }
    m
}

/// The sum of a non-negative ledger column whose total fits the machine.
fn sum_of(v: &Vec<i32>) -> (s: i32)
    requires
        forall|j: int| 0 <= j < v@.len() ==> v@[j] >= 0,
        sum_i32(v@) <= i32::MAX,
    ensures
        s == sum_i32(v@),
{
    let mut s: i32 = 0;
    let mut i: usize = 0;
    while i < v.len()
        invariant
            0 <= i <= v@.len(),
            s == sum_i32(v@.take(i as int)),
            forall|j: int| 0 <= j < v@.len() ==> v@[j] >= 0,
            sum_i32(v@) <= i32::MAX,
        decreases v@.len() - i,
    {
        proof {
            assert(v@.take(i as int + 1).drop_last() =~= v@.take(i as int));
            lemma_sum_take_le(v@, i as int + 1);
            lemma_sum_nonneg(v@.take(i as int));
        }
        s = s + v[i];
        i += 1;
    }
    proof {
        assert(v@.take(v@.len() as int) =~= v@);
    }
    s
}

impl GameState {
    /// Checks that the seat can afford the amount unless it goes all in.
    fn validate_bet(&self, amount: i32, player_idx: usize, all_in: bool) -> (r: Result<
        (),
        EngineError,
    >)
        requires
            player_idx < self.players_money@.len(),
        ensures
            r is Ok <==> (all_in || self.players_money@[player_idx as int] >= amount),
            r is Err ==> r == Err::<(), EngineError>(EngineError::NotEnoughMoney),
    {
        if self.players_money[player_idx] < amount && !all_in {
            Err(EngineError::NotEnoughMoney)
        } else {
            Ok(())
        }
    }

    /// Moves chips of one seat into its bet. Fails, changing nothing, when
    /// the seat cannot afford the amount and is not going all in. Going all
    /// in moves the whole stack, marks the seat and recomputes the active
    /// list; otherwise exactly `amount` moves. Either way the table-high
    /// bet becomes the largest bet and the chip total is conserved.
    pub fn bet(&mut self, amount: i32, player_idx: usize, all_in: bool) -> (r: Result<
        (),
        EngineError,
    >)
        requires
            old(self).wf(),
            old(self).seats_bet(),
            player_idx < old(self).players_money@.len(),
            amount >= 0,
        ensures
            final(self).wf(),
            final(self).seats_bet(),
            final(self).round == old(self).round,
            final(self).community@ == old(self).community@,
            final(self).folded_players@ == old(self).folded_players@,
            final(self).players_money@.len() == old(self).players_money@.len(),
            final(self).total_chips() == old(self).total_chips(),
            !all_in && old(self).players_money@[player_idx as int] < amount ==> (r == Err::<
                (),
                EngineError,
            >(EngineError::NotEnoughMoney) && *final(self) == *old(self)),
            all_in ==> (r == Ok::<(), EngineError>(()) && final(self).players_bet@ == old(self).players_bet@.update(
                player_idx as int,
                (old(self).players_bet@[player_idx as int]
                    + old(self).players_money@[player_idx as int]) as i32,
            ) && final(self).players_money@ == old(self).players_money@.update(
                player_idx as int,
                0i32,
            ) && final(self).players_all_in@ == old(self).players_all_in@.push(player_idx)
                && final(self).active_players@ == active_filter(
                old(self).active_players@,
                old(self).folded_players@,
                old(self).players_all_in@.push(player_idx),
            ) && final(self).bet_amount == max_i32(final(self).players_bet@)),
            !all_in && old(self).players_money@[player_idx as int] >= amount ==> (r == Ok::<
                (),
                EngineError,
            >(()) && final(self).players_bet@ == old(self).players_bet@.update(
                player_idx as int,
                (old(self).players_bet@[player_idx as int] + amount) as i32,
            ) && final(self).players_money@ == old(self).players_money@.update(
                player_idx as int,
                (old(self).players_money@[player_idx as int] - amount) as i32,
            ) && final(self).players_all_in@ == old(self).players_all_in@
                && final(self).active_players@ == old(self).active_players@
                && final(self).num_active_players == old(self).num_active_players
                && final(self).bet_amount == max_i32(final(self).players_bet@)),
    {
        if let Err(e) = self.validate_bet(amount, player_idx, all_in) {
            return Err(e);
        }
        assert(all_in || self.players_money@[player_idx as int] >= amount);
        proof {
            lemma_sum_element_bound(self.players_bet@, player_idx as int);
            lemma_sum_element_bound(self.players_money@, player_idx as int);
            lemma_sum_nonneg(self.players_bet@);
            lemma_sum_nonneg(self.players_money@);
        }
        if all_in {
            self.players_all_in.push(player_idx);

            let stack = self.players_money[player_idx];
            let cur = self.players_bet[player_idx];
            proof {
                lemma_sum_update(self.players_bet@, player_idx as int, (cur + stack) as i32);
                lemma_sum_update(self.players_money@, player_idx as int, 0i32);
            }
            self.players_bet.set(player_idx, cur + stack);
            self.players_money.set(player_idx, 0);

            self.remove_inactive_players();
        } else {
            let cur = self.players_bet[player_idx];
            let stack = self.players_money[player_idx];
            proof {
                lemma_sum_update(self.players_bet@, player_idx as int, (cur + amount) as i32);
                lemma_sum_update(self.players_money@, player_idx as int, (stack - amount) as i32);
            }
            self.players_bet.set(player_idx, cur + amount);
            self.players_money.set(player_idx, stack - amount);
        }

        let m = max_of(&self.players_bet);
        proof {
            assert forall|i: int| 0 <= i < self.players_bet@.len() implies self.players_bet@[i]
                <= m by {
                lemma_max_ge_all(self.players_bet@, i);
            }
            lemma_max_ge_all(self.players_bet@, 0);
        }
        self.bet_amount = m;

        Ok(())
    }

    /// Pays every bet on the table to the winner, empties the bet column
    /// and returns the size of the pot. All chips end up in the stacks.
    pub fn award(&mut self, player: usize) -> (pot: i32)
        requires
            old(self).wf(),
            old(self).seats_bet(),
            player < old(self).players_money@.len(),
        ensures
            final(self).wf(),
            pot == sum_i32(old(self).players_bet@),
            pot >= 0,
            final(self).players_money@ == old(self).players_money@.update(
                player as int,
                (old(self).players_money@[player as int] + pot) as i32,
            ),
            final(self).players_bet@.len() == 0,
            final(self).round == old(self).round,
            final(self).community@ == old(self).community@,
            final(self).folded_players@ == old(self).folded_players@,
            final(self).players_all_in@ == old(self).players_all_in@,
            final(self).active_players@ == old(self).active_players@,
            final(self).num_active_players == old(self).num_active_players,
            sum_i32(final(self).players_money@) == old(self).total_chips(),
    {
        proof {
            lemma_sum_nonneg(self.players_money@);
            lemma_sum_nonneg(self.players_bet@);
            lemma_sum_element_bound(self.players_money@, player as int);
        }
        let pot = sum_of(&self.players_bet);

        let cur = self.players_money[player];
        proof {
            lemma_sum_update(self.players_money@, player as int, (cur + pot) as i32);
        }
        self.players_money.set(player, cur + pot);

        self.players_bet.clear();

        pot
    }

    /// Recomputes the active seats: those neither folded nor all in, with
    /// the cached count kept in step. Afterwards no active seat sits in
    /// either excluded list.
    pub fn remove_inactive_players(&mut self)
        requires
            old(self).active_players@.len() <= i32::MAX,
            forall|i: int|
                0 <= i < old(self).active_players@.len() ==> old(self).active_players@[i] < old(
                    self,
                ).players_money@.len(),
        ensures
            old(self).wf() ==> final(self).wf(),
            forall|i: int|
                0 <= i < final(self).active_players@.len() ==> final(self).active_players@[i]
                    < final(self).players_money@.len(),
            final(self).active_players@ == active_filter(
                old(self).active_players@,
                old(self).folded_players@,
                old(self).players_all_in@,
            ),
            final(self).num_active_players == final(self).active_players@.len(),
            final(self).round == old(self).round,
            final(self).community@ == old(self).community@,
            final(self).players_bet@ == old(self).players_bet@,
            final(self).players_money@ == old(self).players_money@,
            final(self).bet_amount == old(self).bet_amount,
            final(self).players_all_in@ == old(self).players_all_in@,
            final(self).folded_players@ == old(self).folded_players@,
            forall|x: usize|
                final(self).active_players@.contains(x) ==> (!final(self).folded_players@.contains(
                    x,
                ) && !final(self).players_all_in@.contains(x)),
    {
        let mut kept: Vec<usize> = Vec::new();
        let mut i: usize = 0;
        while i < self.active_players.len()
            invariant
                i <= self.active_players@.len(),
                kept@ == active_filter(
                    self.active_players@.take(i as int),
                    self.folded_players@,
                    self.players_all_in@,
                ),
            decreases self.active_players@.len() - i,
        {
            let seat = self.active_players[i];
            let f = contains_seat(&self.folded_players, seat);
            let a = contains_seat(&self.players_all_in, seat);
            proof {
                assert(self.active_players@.take(i as int + 1).drop_last()
                    =~= self.active_players@.take(i as int));
                assert(self.active_players@.take(i as int + 1).last()
                    == self.active_players@[i as int]);
            }
            if !f && !a {
                kept.push(seat);
            }
            i += 1;
        }
        proof {
            assert(self.active_players@.take(self.active_players@.len() as int)
                =~= self.active_players@);
            lemma_active_filter_len(
                self.active_players@,
                self.folded_players@,
                self.players_all_in@,
            );
        }
        let n = kept.len();
        self.active_players = kept;
        self.num_active_players = n as i32;
        proof {
            assert forall|x: usize| self.active_players@.contains(x) implies !self
                .folded_players@.contains(x) && !self.players_all_in@.contains(x) by {
                lemma_active_filter_membership(
                    old(self).active_players@,
                    old(self).folded_players@,
                    old(self).players_all_in@,
                    x,
                );
            }
            assert forall|i: int| 0 <= i < self.active_players@.len() implies self
                .active_players@[i] < self.players_money@.len() by {
                let x = self.active_players@[i];
                assert(self.active_players@.contains(x));
                lemma_active_filter_membership(
                    old(self).active_players@,
                    old(self).folded_players@,
                    old(self).players_all_in@,
                    x,
                );
                let j = choose|j: int|
                    0 <= j < old(self).active_players@.len() && old(self).active_players@[j] == x;
            }
        }
    }
}

} // verus!
