use vstd::prelude::*;

use crate::card::{lemma_suit_from_index_roundtrip, lemma_suit_index_roundtrip, lemma_value_from_index_roundtrip, Card, Suit, Value};
use crate::error::EngineError;
use vstd::std_specs::cmp::PartialOrdSpec;

verus! {

/// The strength of a poker hand: the nine categories in increasing order,
/// each carrying the value(s) that decide ties inside the category. The suit
/// carried by `Flush` and `StraightFlush` is kept only for display and takes
/// no part in equality or ordering.
#[derive(Eq, Debug, Clone, Copy, Hash)]
pub enum Rank {
    /// The highest card in the hand.
    HighCard(Value),
    /// Two cards with the same value.
    OnePair(Value),
    /// Two different pairs, the bigger pair first.
    TwoPair(Value, Value),
    /// Three cards with the same value.
    ThreeOfAKind(Value),
    /// Five values that follow each other; carries the top value.
    Straight(Value),
    /// Five cards of one suit; carries the top suited value and the suit.
    Flush(Value, Suit),
    /// A three of a kind and a pair; carries the triple value, then the pair.
    FullHouse(Value, Value),
    /// Four cards with the same value.
    FourOfAKind(Value),
    /// A straight within one suit; carries the top value and the suit.
    StraightFlush(Value, Suit),
}

/// The category of a rank, from 1 (high card) up to 9 (straight flush).
pub open spec fn category_spec(r: Rank) -> int {
    match r {
        Rank::HighCard(_) => 1,
        Rank::OnePair(_) => 2,
        Rank::TwoPair(_, _) => 3,
        Rank::ThreeOfAKind(_) => 4,
        Rank::Straight(_) => 5,
        Rank::Flush(_, _) => 6,
        Rank::FullHouse(_, _) => 7,
        Rank::FourOfAKind(_) => 8,
        Rank::StraightFlush(_, _) => 9,
    }
}

/// The first deciding value of a rank, as a value index.
pub open spec fn primary_spec(r: Rank) -> int {
    match r {
        Rank::HighCard(v) => v.index_spec(),
        Rank::OnePair(v) => v.index_spec(),
        Rank::TwoPair(v, _) => v.index_spec(),
        Rank::ThreeOfAKind(v) => v.index_spec(),
        Rank::Straight(v) => v.index_spec(),
        Rank::Flush(v, _) => v.index_spec(),
        Rank::FullHouse(v, _) => v.index_spec(),
        Rank::FourOfAKind(v) => v.index_spec(),
        Rank::StraightFlush(v, _) => v.index_spec(),
    }
}

/// The second deciding value of a rank, as a value index; zero for the
/// categories that carry a single value.
pub open spec fn secondary_spec(r: Rank) -> int {
    match r {
        Rank::TwoPair(_, v) => v.index_spec(),
        Rank::FullHouse(_, v) => v.index_spec(),
        _ => 0,
    }
}

/// What `==` means on ranks: same category and same deciding values,
/// with the suit of a flush ignored.
pub open spec fn rank_eq_spec(a: Rank, b: Rank) -> bool {
    &&& category_spec(a) == category_spec(b)
    &&& primary_spec(a) == primary_spec(b)
    &&& secondary_spec(a) == secondary_spec(b)
}

/// What `<` means on ranks: category first, then the deciding values,
/// with the suit of a flush ignored.
pub open spec fn rank_lt_spec(a: Rank, b: Rank) -> bool {
    ||| category_spec(a) < category_spec(b)
    ||| (category_spec(a) == category_spec(b) && primary_spec(a) < primary_spec(b))
    ||| (category_spec(a) == category_spec(b) && primary_spec(a) == primary_spec(b)
        && secondary_spec(a) < secondary_spec(b))
}

impl Rank {
    /// The category of this rank as a number from 1 to 9.
    pub fn to_i32(&self) -> (r: i32)
        ensures
            r == category_spec(*self),
    {
        match self {
            Rank::HighCard(_) => 1,
            Rank::OnePair(_) => 2,
            Rank::TwoPair(_, _) => 3,
            Rank::ThreeOfAKind(_) => 4,
            Rank::Straight(_) => 5,
            Rank::Flush(_, _) => 6,
            Rank::FullHouse(_, _) => 7,
            Rank::FourOfAKind(_) => 8,
            Rank::StraightFlush(_, _) => 9,
        }
    }

    /// The first deciding value of this rank.
    fn primary(&self) -> (r: usize)
        ensures
            r == primary_spec(*self),
    {
        match self {
            Rank::HighCard(v) => v.index(),
            Rank::OnePair(v) => v.index(),
            Rank::TwoPair(v, _) => v.index(),
            Rank::ThreeOfAKind(v) => v.index(),
            Rank::Straight(v) => v.index(),
            Rank::Flush(v, _) => v.index(),
            Rank::FullHouse(v, _) => v.index(),
            Rank::FourOfAKind(v) => v.index(),
            Rank::StraightFlush(v, _) => v.index(),
        }
    }

    /// The second deciding value of this rank, zero when there is none.
    fn secondary(&self) -> (r: usize)
        ensures
            r == secondary_spec(*self),
    {
        match self {
            Rank::TwoPair(_, v) => v.index(),
            Rank::FullHouse(_, v) => v.index(),
            _ => 0,
        }
    }
}

impl PartialEq for Rank {
    /// Equality that does not depend on the suit.
    fn eq(&self, other: &Self) -> (r: bool) {
        let c = self.to_i32() == other.to_i32();
        let p = self.primary() == other.primary();
        let s = self.secondary() == other.secondary();
        c && p && s
    }
}

impl vstd::std_specs::cmp::PartialEqSpecImpl for Rank {
    open spec fn obeys_eq_spec() -> bool {
        true
    }

    open spec fn eq_spec(&self, other: &Self) -> bool {
        rank_eq_spec(*self, *other)
    }
}

impl PartialOrd for Rank {
    /// Total order by category, then by the deciding values; the suit of a
    /// flush never breaks a tie.
    fn partial_cmp(&self, other: &Self) -> (r: Option<core::cmp::Ordering>) {
        let ca = self.to_i32();
        let cb = other.to_i32();
        if ca < cb {
            Some(core::cmp::Ordering::Less)
        } else if ca > cb {
            Some(core::cmp::Ordering::Greater)
        } else {
            let pa = self.primary();
            let pb = other.primary();
            if pa < pb {
                Some(core::cmp::Ordering::Less)
            } else if pa > pb {
                Some(core::cmp::Ordering::Greater)
            } else {
                let sa = self.secondary();
                let sb = other.secondary();
                if sa < sb {
                    Some(core::cmp::Ordering::Less)
                } else if sa > sb {
                    Some(core::cmp::Ordering::Greater)
                } else {
                    Some(core::cmp::Ordering::Equal)
                }
            }
        }
    }
}

impl vstd::std_specs::cmp::PartialOrdSpecImpl for Rank {
    open spec fn obeys_partial_cmp_spec() -> bool {
        true
    }

    open spec fn partial_cmp_spec(&self, other: &Self) -> Option<core::cmp::Ordering> {
        if rank_lt_spec(*self, *other) {
            Some(core::cmp::Ordering::Less)
        } else if rank_eq_spec(*self, *other) {
            Some(core::cmp::Ordering::Equal)
        } else {
            Some(core::cmp::Ordering::Greater)
        }
    }
}

/// Category precedence dominates the embedded values: a rank of a lower
/// category is below every rank of a higher category, whatever values the
/// two carry.
pub proof fn lemma_category_dominates(a: Rank, b: Rank)
    requires
        category_spec(a) < category_spec(b),
    ensures
        rank_lt_spec(a, b),
        a.partial_cmp_spec(&b) == Some(core::cmp::Ordering::Less),
{
}

/// Equality of ranks ignores the suit: two flushes, or two straight
/// flushes, with the same top value are equal whatever their suits.
pub proof fn lemma_eq_ignores_suit(v: Value, s1: Suit, s2: Suit)
    ensures
        rank_eq_spec(Rank::Flush(v, s1), Rank::Flush(v, s2)),
        rank_eq_spec(Rank::StraightFlush(v, s1), Rank::StraightFlush(v, s2)),
{
}

/// How many cards of the sequence carry the value with index `t`.
pub open spec fn count_value(s: Seq<Card>, t: int) -> int
    decreases s.len(),
{
    if s.len() == 0 {
        0
    } else {
        count_value(s.drop_last(), t) + if s.last().value.index_spec() == t {
            1int
        } else {
            0int
        }
    }
}

/// How many cards of the sequence carry the suit with index `u`.
pub open spec fn count_suit(s: Seq<Card>, u: int) -> int
    decreases s.len(),
{
    if s.len() == 0 {
        0
    } else {
        count_suit(s.drop_last(), u) + if s.last().suit.index_spec() == u {
            1int
        } else {
            0int
        }
    }
}

/// How many cards of the sequence carry both the suit `u` and the value `t`.
pub open spec fn count_suited_value(s: Seq<Card>, u: int, t: int) -> int
    decreases s.len(),
{
    if s.len() == 0 {
        0
    } else {
        count_suited_value(s.drop_last(), u, t) + if s.last().suit.index_spec() == u
            && s.last().value.index_spec() == t {
            1int
        } else {
            0int
        }
    }
}

/// The value `t` occurs somewhere in the sequence.
pub open spec fn has_value(s: Seq<Card>, t: int) -> bool {
    count_value(s, t) >= 1
}

/// The card with suit `u` and value `t` occurs somewhere in the sequence.
pub open spec fn has_suited_value(s: Seq<Card>, u: int, t: int) -> bool {
    count_suited_value(s, u, t) >= 1
}

/// The highest value index not above `t` whose count reaches `n`, or -1.
pub open spec fn top_value_with_count(s: Seq<Card>, n: int, t: int) -> int
    decreases t + 1,
{
    if t < 0 {
        -1
    } else if count_value(s, t) >= n {
        t
    } else {
        top_value_with_count(s, n, t - 1)
    }
}

/// The highest value index not above `t`, other than `ex`, that occurs at
/// least twice, or -1.
pub open spec fn top_pair_excluding(s: Seq<Card>, ex: int, t: int) -> int
    decreases t + 1,
{
    if t < 0 {
        -1
    } else if t != ex && count_value(s, t) >= 2 {
        t
    } else {
        top_pair_excluding(s, ex, t - 1)
    }
}

/// `t` tops a straight: the five values down from `t` are all present, with
/// the ace-low wheel counted as a straight topped by Five (index 3).
pub open spec fn is_straight_top(s: Seq<Card>, t: int) -> bool {
    if t == 3 {
        has_value(s, 12) && has_value(s, 3) && has_value(s, 2) && has_value(s, 1) && has_value(
            s,
            0,
        )
    } else {
        &&& 4 <= t <= 12
        &&& has_value(s, t)
        &&& has_value(s, t - 1)
        &&& has_value(s, t - 2)
        &&& has_value(s, t - 3)
        &&& has_value(s, t - 4)
    }
}

/// The highest straight top not above `t`, or -1.
pub open spec fn top_straight(s: Seq<Card>, t: int) -> int
    decreases t + 1,
{
    if t < 3 {
        -1
    } else if is_straight_top(s, t) {
        t
    } else {
        top_straight(s, t - 1)
    }
}

/// `t` tops a straight within the single suit `u`, wheel included.
pub open spec fn is_suited_straight_top(s: Seq<Card>, u: int, t: int) -> bool {
    if t == 3 {
        has_suited_value(s, u, 12) && has_suited_value(s, u, 3) && has_suited_value(s, u, 2)
            && has_suited_value(s, u, 1) && has_suited_value(s, u, 0)
    } else {
        &&& 4 <= t <= 12
        &&& has_suited_value(s, u, t)
        &&& has_suited_value(s, u, t - 1)
        &&& has_suited_value(s, u, t - 2)
        &&& has_suited_value(s, u, t - 3)
        &&& has_suited_value(s, u, t - 4)
    }
}

/// The highest suited straight top not above `t` for suit `u`, or -1.
pub open spec fn top_suited_straight(s: Seq<Card>, u: int, t: int) -> int
    decreases t + 1,
{
    if t < 3 {
        -1
    } else if is_suited_straight_top(s, u, t) {
        t
    } else {
        top_suited_straight(s, u, t - 1)
    }
}

/// The first suit index at or above `u` holding five or more cards, or -1.
pub open spec fn flush_suit(s: Seq<Card>, u: int) -> int
    decreases 4 - u,
{
    if u >= 4 {
        -1
    } else if count_suit(s, u) >= 5 {
        u
    } else {
        flush_suit(s, u + 1)
    }
}

/// The highest value index not above `t` present within suit `u`, or -1.
pub open spec fn top_suited_value(s: Seq<Card>, u: int, t: int) -> int
    decreases t + 1,
{
    if t < 0 {
        -1
    } else if has_suited_value(s, u, t) {
        t
    } else {
        top_suited_value(s, u, t - 1)
    }
}

/// The rank of a set of cards: the categories are tried from the strongest
/// down, and the deciding values are the highest that witness the category.
/// A flush is looked for first; a straight inside it upgrades it to a
/// straight flush. A full house takes the highest triple and the highest
/// other paired value; the two pairs of a two pair are the two highest.
pub open spec fn rank_spec(s: Seq<Card>) -> Rank {
    let fu = flush_suit(s, 0);
    let four = top_value_with_count(s, 4, 12);
    let three = top_value_with_count(s, 3, 12);
    let pair = top_value_with_count(s, 2, 12);
    let straight = top_straight(s, 12);
    if fu >= 0 {
        let sft = top_suited_straight(s, fu, 12);
        if sft >= 0 {
            Rank::StraightFlush(Value::from_index_spec(sft), Suit::from_index_spec(fu))
        } else {
            Rank::Flush(
                Value::from_index_spec(top_suited_value(s, fu, 12)),
                Suit::from_index_spec(fu),
            )
        }
    } else if four >= 0 {
        Rank::FourOfAKind(Value::from_index_spec(four))
    } else if three >= 0 && top_pair_excluding(s, three, 12) >= 0 {
        Rank::FullHouse(
            Value::from_index_spec(three),
            Value::from_index_spec(top_pair_excluding(s, three, 12)),
        )
    } else if straight >= 0 {
        Rank::Straight(Value::from_index_spec(straight))
    } else if three >= 0 {
        Rank::ThreeOfAKind(Value::from_index_spec(three))
    } else if pair >= 0 {
        let second = top_pair_excluding(s, pair, pair - 1);
        if second >= 0 {
            Rank::TwoPair(Value::from_index_spec(pair), Value::from_index_spec(second))
        } else {
            Rank::OnePair(Value::from_index_spec(pair))
        }
    } else {
        Rank::HighCard(Value::from_index_spec(top_value_with_count(s, 1, 12)))
    }
}

pub proof fn lemma_count_value_bounds(s: Seq<Card>, t: int)
    ensures
        0 <= count_value(s, t) <= s.len(),
    decreases s.len(),
{
    if s.len() > 0 {
        lemma_count_value_bounds(s.drop_last(), t);
    }
}

pub proof fn lemma_count_suit_bounds(s: Seq<Card>, u: int)
    ensures
        0 <= count_suit(s, u) <= s.len(),
    decreases s.len(),
{
    if s.len() > 0 {
        lemma_count_suit_bounds(s.drop_last(), u);
    }
}

pub proof fn lemma_count_suited_value_bounds(s: Seq<Card>, u: int, t: int)
    ensures
        0 <= count_suited_value(s, u, t) <= s.len(),
    decreases s.len(),
{
    if s.len() > 0 {
        lemma_count_suited_value_bounds(s.drop_last(), u, t);
    }
}

/// A found top value carries its promised count and stays in range.
pub proof fn lemma_top_value_found(s: Seq<Card>, n: int, t: int)
    ensures
        top_value_with_count(s, n, t) == -1 || (0 <= top_value_with_count(s, n, t) <= t
            && count_value(s, top_value_with_count(s, n, t)) >= n),
    decreases t + 1,
{
    if t >= 0 && count_value(s, t) < n {
        lemma_top_value_found(s, n, t - 1);
    }
}

/// A found excluded pair value really is a pair of another value.
pub proof fn lemma_top_pair_excluding_found(s: Seq<Card>, ex: int, t: int)
    ensures
        top_pair_excluding(s, ex, t) == -1 || (0 <= top_pair_excluding(s, ex, t) <= t
            && top_pair_excluding(s, ex, t) != ex && count_value(s, top_pair_excluding(s, ex, t))
            >= 2),
    decreases t + 1,
{
    if t >= 0 && !(t != ex && count_value(s, t) >= 2) {
        lemma_top_pair_excluding_found(s, ex, t - 1);
    }
}

/// A found straight top really tops a straight and stays in range.
pub proof fn lemma_top_straight_found(s: Seq<Card>, t: int)
    ensures
        top_straight(s, t) == -1 || (3 <= top_straight(s, t) <= t && is_straight_top(
            s,
            top_straight(s, t),
        )),
    decreases t + 1,
{
    if t >= 3 && !is_straight_top(s, t) {
        lemma_top_straight_found(s, t - 1);
    }
}

/// A found suited straight top really tops a suited straight.
pub proof fn lemma_top_suited_straight_found(s: Seq<Card>, u: int, t: int)
    ensures
        top_suited_straight(s, u, t) == -1 || (3 <= top_suited_straight(s, u, t) <= t
            && is_suited_straight_top(s, u, top_suited_straight(s, u, t))),
    decreases t + 1,
{
    if t >= 3 && !is_suited_straight_top(s, u, t) {
        lemma_top_suited_straight_found(s, u, t - 1);
    }
}

/// A found flush suit really holds five cards and stays in range.
pub proof fn lemma_flush_suit_found(s: Seq<Card>, u: int)
    ensures
        flush_suit(s, u) == -1 || (u <= flush_suit(s, u) <= 3 && count_suit(s, flush_suit(s, u))
            >= 5),
    decreases 4 - u,
{
    if u < 4 && count_suit(s, u) < 5 {
        lemma_flush_suit_found(s, u + 1);
    }
}

/// A found top suited value really occurs in that suit.
pub proof fn lemma_top_suited_value_found(s: Seq<Card>, u: int, t: int)
    ensures
        top_suited_value(s, u, t) == -1 || (0 <= top_suited_value(s, u, t) <= t
            && has_suited_value(s, u, top_suited_value(s, u, t))),
    decreases t + 1,
{
    if t >= 0 && !has_suited_value(s, u, t) {
        lemma_top_suited_value_found(s, u, t - 1);
    }
}

/// If some value at or below `t` reaches the count, the scan finds one.
pub proof fn lemma_top_value_exists(s: Seq<Card>, n: int, t: int, w: int)
    requires
        0 <= w <= t,
        count_value(s, w) >= n,
    ensures
        top_value_with_count(s, n, t) >= w,
    decreases t + 1,
{
    if count_value(s, t) < n {
        lemma_top_value_exists(s, n, t - 1, w);
    }
}

/// If some value at or below `t` occurs in suit `u`, the scan finds one.
pub proof fn lemma_top_suited_value_exists(s: Seq<Card>, u: int, t: int, w: int)
    requires
        0 <= w <= t,
        has_suited_value(s, u, w),
    ensures
        top_suited_value(s, u, t) >= w,
    decreases t + 1,
{
    if !has_suited_value(s, u, t) {
        lemma_top_suited_value_exists(s, u, t - 1, w);
    }
}

/// A nonempty sequence contains the value of its last card.
pub proof fn lemma_last_value_present(s: Seq<Card>)
    requires
        s.len() >= 1,
    ensures
        0 <= s.last().value.index_spec() < 13,
        has_value(s, s.last().value.index_spec()),
{
    lemma_count_value_bounds(s.drop_last(), s.last().value.index_spec());
}

/// A suit that occurs at all holds at least one suited value.
pub proof fn lemma_count_suit_exists_value(s: Seq<Card>, u: int)
    requires
        count_suit(s, u) >= 1,
    ensures
        exists|t: int| 0 <= t < 13 && has_suited_value(s, u, t),
    decreases s.len(),
{
    if s.len() > 0 {
        if s.last().suit.index_spec() == u {
            let t = s.last().value.index_spec();
            lemma_count_suited_value_bounds(s.drop_last(), u, t);
            assert(0 <= t < 13 && has_suited_value(s, u, t));
        } else {
            lemma_count_suit_exists_value(s.drop_last(), u);
            let t = choose|t: int| 0 <= t < 13 && has_suited_value(s.drop_last(), u, t);
            assert(0 <= t < 13 && has_suited_value(s, u, t));
        }
    }
}

/// A table of the thirteen per-value counts of a set of cards.
fn value_counts(cards: &Vec<Card>) -> (h: Vec<usize>)
    ensures
        h@.len() == 13,
        forall|t: int| 0 <= t < 13 ==> h@[t] == count_value(cards@, t),
{
    let mut h: Vec<usize> = vec![0; 13];
    let mut i: usize = 0;
    while i < cards.len()
        invariant
            h@.len() == 13,
            i <= cards@.len(),
            forall|t: int| 0 <= t < 13 ==> h@[t] == count_value(cards@.take(i as int), t),
        decreases cards@.len() - i,
    {
        let idx = cards[i].value.index();
        let cur = h[idx];
        proof {
            lemma_count_value_bounds(cards@.take(i as int), idx as int);
        }
        h.set(idx, cur + 1);
        proof {
            assert(cards@.take(i as int + 1).drop_last() =~= cards@.take(i as int));
            assert(cards@.take(i as int + 1).last() == cards@[i as int]);
        }
        i += 1;
    }
    proof {
        assert(cards@.take(cards@.len() as int) =~= cards@);
    }
    h
}

/// A table of the four per-suit counts of a set of cards.
fn suit_counts(cards: &Vec<Card>) -> (h: Vec<usize>)
    ensures
        h@.len() == 4,
        forall|u: int| 0 <= u < 4 ==> h@[u] == count_suit(cards@, u),
{
    let mut h: Vec<usize> = vec![0; 4];
    let mut i: usize = 0;
    while i < cards.len()
        invariant
            h@.len() == 4,
            i <= cards@.len(),
            forall|u: int| 0 <= u < 4 ==> h@[u] == count_suit(cards@.take(i as int), u),
        decreases cards@.len() - i,
    {
        let idx = cards[i].suit.index();
        let cur = h[idx];
        proof {
            lemma_count_suit_bounds(cards@.take(i as int), idx as int);
        }
        h.set(idx, cur + 1);
        proof {
            assert(cards@.take(i as int + 1).drop_last() =~= cards@.take(i as int));
            assert(cards@.take(i as int + 1).last() == cards@[i as int]);
        }
        i += 1;
    }
    proof {
        assert(cards@.take(cards@.len() as int) =~= cards@);
    }
    h
}

/// A table of the thirteen per-value counts within one suit.
fn suited_value_counts(cards: &Vec<Card>, u: usize) -> (h: Vec<usize>)
    requires
        u < 4,
    ensures
        h@.len() == 13,
        forall|t: int| 0 <= t < 13 ==> h@[t] == count_suited_value(cards@, u as int, t),
{
    let mut h: Vec<usize> = vec![0; 13];
    let mut i: usize = 0;
    while i < cards.len()
        invariant
            u < 4,
            h@.len() == 13,
            i <= cards@.len(),
            forall|t: int|
                0 <= t < 13 ==> h@[t] == count_suited_value(cards@.take(i as int), u as int, t),
        decreases cards@.len() - i,
    {
        let su = cards[i].suit.index();
        if su == u {
            let idx = cards[i].value.index();
            let cur = h[idx];
            proof {
                lemma_count_suited_value_bounds(cards@.take(i as int), u as int, idx as int);
            }
            h.set(idx, cur + 1);
        }
        proof {
            assert(cards@.take(i as int + 1).drop_last() =~= cards@.take(i as int));
            assert(cards@.take(i as int + 1).last() == cards@[i as int]);
        }
        i += 1;
    }
    proof {
        assert(cards@.take(cards@.len() as int) =~= cards@);
    }
    h
}

/// Returns the four of a kind over the highest value, if any.
pub fn rank_four_of_a_kind(cards: &Vec<Card>) -> (r: Option<Rank>)
    ensures
        ({
            let top = top_value_with_count(cards@, 4, 12);
            if top >= 0 {
                r == Some(Rank::FourOfAKind(Value::from_index_spec(top)))
            } else {
                r == None::<Rank>
            }
        }),
{
    let h = value_counts(cards);
    let mut t: usize = 13;
    while t > 0
        invariant
            h@.len() == 13,
            forall|x: int| 0 <= x < 13 ==> h@[x] == count_value(cards@, x),
            t <= 13,
            top_value_with_count(cards@, 4, 12) == top_value_with_count(cards@, 4, t as int - 1),
        decreases t,
    {
        t -= 1;
        if h[t] >= 4 {
            return Some(Rank::FourOfAKind(Value::from_index(t)));
        }
    }
    None
}

/// Returns the three of a kind over the highest value, if any.
pub fn rank_three_of_a_kind(cards: &Vec<Card>) -> (r: Option<Rank>)
    ensures
        ({
            let top = top_value_with_count(cards@, 3, 12);
            if top >= 0 {
                r == Some(Rank::ThreeOfAKind(Value::from_index_spec(top)))
            } else {
                r == None::<Rank>
            }
        }),
{
    let h = value_counts(cards);
    let mut t: usize = 13;
    while t > 0
        invariant
            h@.len() == 13,
            forall|x: int| 0 <= x < 13 ==> h@[x] == count_value(cards@, x),
            t <= 13,
            top_value_with_count(cards@, 3, 12) == top_value_with_count(cards@, 3, t as int - 1),
        decreases t,
    {
        t -= 1;
        if h[t] >= 3 {
            return Some(Rank::ThreeOfAKind(Value::from_index(t)));
        }
    }
    None
}

/// Returns the pair over the highest paired value, if any.
pub fn rank_one_pair(cards: &Vec<Card>) -> (r: Option<Rank>)
    ensures
        ({
            let top = top_value_with_count(cards@, 2, 12);
            if top >= 0 {
                r == Some(Rank::OnePair(Value::from_index_spec(top)))
            } else {
                r == None::<Rank>
            }
        }),
{
    let h = value_counts(cards);
    let mut t: usize = 13;
    while t > 0
        invariant
            h@.len() == 13,
            forall|x: int| 0 <= x < 13 ==> h@[x] == count_value(cards@, x),
            t <= 13,
            top_value_with_count(cards@, 2, 12) == top_value_with_count(cards@, 2, t as int - 1),
        decreases t,
    {
        t -= 1;
        if h[t] >= 2 {
            return Some(Rank::OnePair(Value::from_index(t)));
        }
    }
    None
}

/// Returns the two highest distinct paired values, if two exist.
pub fn rank_two_pair(cards: &Vec<Card>) -> (r: Option<Rank>)
    ensures
        ({
            let p1 = top_value_with_count(cards@, 2, 12);
            let p2 = top_pair_excluding(cards@, p1, p1 - 1);
            if p1 >= 0 && p2 >= 0 {
                r == Some(
                    Rank::TwoPair(Value::from_index_spec(p1), Value::from_index_spec(p2)),
                )
            } else {
                r == None::<Rank>
            }
        }),
{
    let h = value_counts(cards);
    let mut t: usize = 13;
    while t > 0
        invariant
            h@.len() == 13,
            forall|x: int| 0 <= x < 13 ==> h@[x] == count_value(cards@, x),
            t <= 13,
            top_value_with_count(cards@, 2, 12) == top_value_with_count(cards@, 2, t as int - 1),
        decreases t,
    {
        t -= 1;
        if h[t] >= 2 {
            let mut q: usize = t;
            while q > 0
                invariant
                    h@.len() == 13,
                    forall|x: int| 0 <= x < 13 ==> h@[x] == count_value(cards@, x),
                    q <= t < 13,
                    top_value_with_count(cards@, 2, 12) == t as int,
                    top_pair_excluding(cards@, t as int, t as int - 1) == top_pair_excluding(
                        cards@,
                        t as int,
                        q as int - 1,
                    ),
                decreases q,
            {
                q -= 1;
                if h[q] >= 2 {
                    return Some(Rank::TwoPair(Value::from_index(t), Value::from_index(q)));
                }
            }
            return None;
        }
    }
    None
}

/// Returns the full house from the highest triple and the highest other
/// paired value, if both exist.
pub fn rank_full_house(cards: &Vec<Card>) -> (r: Option<Rank>)
    ensures
        ({
            let t3 = top_value_with_count(cards@, 3, 12);
            let p = top_pair_excluding(cards@, t3, 12);
            if t3 >= 0 && p >= 0 {
                r == Some(
                    Rank::FullHouse(Value::from_index_spec(t3), Value::from_index_spec(p)),
                )
            } else {
                r == None::<Rank>
            }
        }),
{
    let h = value_counts(cards);
    let mut t: usize = 13;
    while t > 0
        invariant
            h@.len() == 13,
            forall|x: int| 0 <= x < 13 ==> h@[x] == count_value(cards@, x),
            t <= 13,
            top_value_with_count(cards@, 3, 12) == top_value_with_count(cards@, 3, t as int - 1),
        decreases t,
    {
        t -= 1;
        if h[t] >= 3 {
            let mut q: usize = 13;
            while q > 0
                invariant
                    h@.len() == 13,
                    forall|x: int| 0 <= x < 13 ==> h@[x] == count_value(cards@, x),
                    q <= 13,
                    t < 13,
                    top_value_with_count(cards@, 3, 12) == t as int,
                    top_pair_excluding(cards@, t as int, 12) == top_pair_excluding(
                        cards@,
                        t as int,
                        q as int - 1,
                    ),
                decreases q,
            {
                q -= 1;
                if q != t && h[q] >= 2 {
                    return Some(Rank::FullHouse(Value::from_index(t), Value::from_index(q)));
                }
            }
            return None;
        }
    }
    None
}

/// Returns the straight with the highest top value, if any; the ace-low
/// wheel counts as a straight topped by Five.
#[verifier::loop_isolation(false)]
pub fn rank_straight(cards: &Vec<Card>) -> (r: Option<Rank>)
    ensures
        ({
            let ts = top_straight(cards@, 12);
            if ts >= 0 {
                r == Some(Rank::Straight(Value::from_index_spec(ts)))
            } else {
                r == None::<Rank>
            }
        }),
{
    let h = value_counts(cards);
    let mut t: usize = 13;
    while t > 4
        invariant
            h@.len() == 13,
            forall|x: int| 0 <= x < 13 ==> h@[x] == count_value(cards@, x),
            4 <= t <= 13,
            top_straight(cards@, 12) == top_straight(cards@, t as int - 1),
        decreases t,
    {
        t -= 1;
        if h[t] >= 1 && h[t - 1] >= 1 && h[t - 2] >= 1 && h[t - 3] >= 1 && h[t - 4] >= 1 {
            return Some(Rank::Straight(Value::from_index(t)));
        }
    }
    if h[12] >= 1 && h[3] >= 1 && h[2] >= 1 && h[1] >= 1 && h[0] >= 1 {
        return Some(Rank::Straight(Value::from_index(3)));
    }
    proof {
        assert(top_straight(cards@, 2) == -1);
    }
    None
}

/// Returns the flush of the first suit holding five cards, topped by its
/// highest suited value, if any suit does.
pub fn rank_flush(cards: &Vec<Card>) -> (r: Option<Rank>)
    ensures
        ({
            let fu = flush_suit(cards@, 0);
            if fu >= 0 {
                r == Some(
                    Rank::Flush(
                        Value::from_index_spec(top_suited_value(cards@, fu, 12)),
                        Suit::from_index_spec(fu),
                    ),
                )
            } else {
                r == None::<Rank>
            }
        }),
{
    let cs = suit_counts(cards);
    let mut u: usize = 0;
    while u < 4
        invariant
            cs@.len() == 4,
            forall|x: int| 0 <= x < 4 ==> cs@[x] == count_suit(cards@, x),
            u <= 4,
            flush_suit(cards@, 0) == flush_suit(cards@, u as int),
        decreases 4 - u,
    {
        if cs[u] >= 5 {
            let hs = suited_value_counts(cards, u);
            let mut t: usize = 13;
            while t > 0
                invariant
                    hs@.len() == 13,
                    forall|x: int|
                        0 <= x < 13 ==> hs@[x] == count_suited_value(cards@, u as int, x),
                    t <= 13,
                    u < 4,
                    flush_suit(cards@, 0) == u as int,
                    count_suit(cards@, u as int) >= 5,
                    top_suited_value(cards@, u as int, 12) == top_suited_value(
                        cards@,
                        u as int,
                        t as int - 1,
                    ),
                decreases t,
            {
                t -= 1;
                if hs[t] >= 1 {
                    return Some(Rank::Flush(Value::from_index(t), Suit::from_index(u)));
                }
            }
            // A suit with five cards always holds at least one value.
            proof {
                lemma_count_suit_exists_value(cards@, u as int);
                let w = choose|w: int| 0 <= w < 13 && has_suited_value(cards@, u as int, w);
                lemma_top_suited_value_exists(cards@, u as int, 12, w);
                assert(false);
            }
            return None;
        }
        u += 1;
    }
    None
}

/// Returns the straight flush if the flush suit holds a straight, the
/// plain flush if one exists without it, and nothing otherwise.
#[verifier::loop_isolation(false)]
pub fn rank_straight_flush(cards: &Vec<Card>) -> (r: Option<Rank>)
    ensures
        ({
            let fu = flush_suit(cards@, 0);
            if fu >= 0 {
                let sft = top_suited_straight(cards@, fu, 12);
                if sft >= 0 {
                    r == Some(
                        Rank::StraightFlush(
                            Value::from_index_spec(sft),
                            Suit::from_index_spec(fu),
                        ),
                    )
                } else {
                    r == Some(
                        Rank::Flush(
                            Value::from_index_spec(top_suited_value(cards@, fu, 12)),
                            Suit::from_index_spec(fu),
                        ),
                    )
                }
            } else {
                r == None::<Rank>
            }
        }),
{
    let f = rank_flush(cards);
    match f {
        None => None,
        Some(flush_rank) => {
            match flush_rank {
                Rank::Flush(fv, su) => {
                    proof {
                        lemma_flush_suit_found(cards@, 0);
                        lemma_suit_index_roundtrip(su);
                    }
                    let u = su.index();
                    let hs = suited_value_counts(cards, u);
                    let mut t: usize = 13;
                    while t > 4
                        invariant
                            hs@.len() == 13,
                            forall|x: int|
                                0 <= x < 13 ==> hs@[x] == count_suited_value(cards@, u as int, x),
                            4 <= t <= 13,
                            u < 4,
                            flush_suit(cards@, 0) == u as int,
                            top_suited_straight(cards@, u as int, 12) == top_suited_straight(
                                cards@,
                                u as int,
                                t as int - 1,
                            ),
                        decreases t,
                    {
                        t -= 1;
                        if hs[t] >= 1 && hs[t - 1] >= 1 && hs[t - 2] >= 1 && hs[t - 3] >= 1 && hs[t
                            - 4] >= 1 {
                            return Some(Rank::StraightFlush(Value::from_index(t), su));
                        }
                    }
                    if hs[12] >= 1 && hs[3] >= 1 && hs[2] >= 1 && hs[1] >= 1 && hs[0] >= 1 {
                        return Some(Rank::StraightFlush(Value::from_index(3), su));
                    }
                    proof {
                        assert(top_suited_straight(cards@, u as int, 2) == -1);
                    }
                    Some(Rank::Flush(fv, su))
                },
                _ => {
                    // rank_flush returns a flush or nothing.
                    proof {
                        assert(false);
                    }
                    None
                },
            }
        },
    }
}

/// No category can be found in an empty set of cards.
proof fn lemma_empty_rank_scans(s: Seq<Card>)
    requires
        s.len() == 0,
    ensures
        flush_suit(s, 0) == -1,
        top_value_with_count(s, 4, 12) == -1,
        top_value_with_count(s, 3, 12) == -1,
        top_value_with_count(s, 2, 12) == -1,
        top_straight(s, 12) == -1,
{
    lemma_flush_suit_found(s, 0);
    if flush_suit(s, 0) >= 0 {
        lemma_count_suit_bounds(s, flush_suit(s, 0));
    }
    lemma_top_value_found(s, 4, 12);
    if top_value_with_count(s, 4, 12) >= 0 {
        lemma_count_value_bounds(s, top_value_with_count(s, 4, 12));
    }
    lemma_top_value_found(s, 3, 12);
    if top_value_with_count(s, 3, 12) >= 0 {
        lemma_count_value_bounds(s, top_value_with_count(s, 3, 12));
    }
    lemma_top_value_found(s, 2, 12);
    if top_value_with_count(s, 2, 12) >= 0 {
        lemma_count_value_bounds(s, top_value_with_count(s, 2, 12));
    }
    lemma_top_straight_found(s, 12);
    if top_straight(s, 12) >= 0 {
        lemma_count_value_bounds(s, top_straight(s, 12));
    }
}

/// The rank of a set of cards, tried from the strongest category down; an
/// empty set has no rank at all.
#[verifier::loop_isolation(false)]
pub fn compute_rank(cards: &Vec<Card>) -> (r: Result<Rank, EngineError>)
    ensures
        cards@.len() >= 1 ==> r == Ok::<Rank, EngineError>(rank_spec(cards@)),
        cards@.len() == 0 ==> r == Err::<Rank, EngineError>(EngineError::HighestCardNotAvailable),
{
    proof {
        if cards@.len() == 0 {
            lemma_empty_rank_scans(cards@);
        }
    }
    if let Some(a) = rank_straight_flush(cards) {
        return Ok(a);
    }
    if let Some(a) = rank_four_of_a_kind(cards) {
        return Ok(a);
    }
    if let Some(a) = rank_full_house(cards) {
        return Ok(a);
    }
    if let Some(a) = rank_straight(cards) {
        return Ok(a);
    }
    if let Some(a) = rank_three_of_a_kind(cards) {
        return Ok(a);
    }
    if let Some(a) = rank_two_pair(cards) {
        return Ok(a);
    }
    if let Some(a) = rank_one_pair(cards) {
        return Ok(a);
    }
    if cards.len() == 0 {
        return Err(EngineError::HighestCardNotAvailable);
    }
    let h = value_counts(cards);
    let mut t: usize = 13;
    while t > 0
        invariant
            h@.len() == 13,
            forall|x: int| 0 <= x < 13 ==> h@[x] == count_value(cards@, x),
            t <= 13,
            cards@.len() >= 1,
            top_value_with_count(cards@, 1, 12) == top_value_with_count(cards@, 1, t as int - 1),
        decreases t,
    {
        t -= 1;
        if h[t] >= 1 {
            return Ok(Rank::HighCard(Value::from_index(t)));
        }
    }
    // A nonempty set of cards always holds some value.
    proof {
        lemma_last_value_present(cards@);
        lemma_top_value_exists(cards@, 1, 12, cards@.last().value.index_spec());
        assert(false);
    }
    Err(EngineError::HighestCardNotAvailable)
}

/// Every value embedded in the rank of a nonempty set of cards is drawn
/// from the cards themselves: a pair value occurs at least twice, a triple
/// three times, a straight top really tops five present values, and a
/// flush suit really holds five cards. The category is always at least
/// a high card.
pub proof fn lemma_rank_values_from_hand(s: Seq<Card>)
    requires
        s.len() >= 1,
    ensures
        category_spec(rank_spec(s)) >= 1,
        match rank_spec(s) {
            Rank::HighCard(v) => has_value(s, v.index_spec()),
            Rank::OnePair(v) => count_value(s, v.index_spec()) >= 2,
            Rank::TwoPair(v1, v2) => count_value(s, v1.index_spec()) >= 2 && count_value(
                s,
                v2.index_spec(),
            ) >= 2 && v1.index_spec() > v2.index_spec(),
            Rank::ThreeOfAKind(v) => count_value(s, v.index_spec()) >= 3,
            Rank::Straight(v) => is_straight_top(s, v.index_spec()),
            Rank::Flush(v, u) => count_suit(s, u.index_spec()) >= 5 && has_suited_value(
                s,
                u.index_spec(),
                v.index_spec(),
            ),
            Rank::FullHouse(v3, v2) => count_value(s, v3.index_spec()) >= 3 && count_value(
                s,
                v2.index_spec(),
            ) >= 2 && v3.index_spec() != v2.index_spec(),
            Rank::FourOfAKind(v) => count_value(s, v.index_spec()) >= 4,
            Rank::StraightFlush(v, u) => count_suit(s, u.index_spec()) >= 5
                && is_suited_straight_top(s, u.index_spec(), v.index_spec()),
        },
{
    let fu = flush_suit(s, 0);
    lemma_flush_suit_found(s, 0);
    if fu >= 0 {
        lemma_suit_from_index_roundtrip(fu);
        let sft = top_suited_straight(s, fu, 12);
        lemma_top_suited_straight_found(s, fu, 12);
        if sft >= 0 {
            lemma_value_from_index_roundtrip(sft);
        } else {
            let tv = top_suited_value(s, fu, 12);
            lemma_top_suited_value_found(s, fu, 12);
            lemma_count_suit_exists_value(s, fu);
            let w = choose|w: int| 0 <= w < 13 && has_suited_value(s, fu, w);
            lemma_top_suited_value_exists(s, fu, 12, w);
            lemma_value_from_index_roundtrip(tv);
        }
    } else {
        let four = top_value_with_count(s, 4, 12);
        let three = top_value_with_count(s, 3, 12);
        let pair = top_value_with_count(s, 2, 12);
        let straight = top_straight(s, 12);
        lemma_top_value_found(s, 4, 12);
        lemma_top_value_found(s, 3, 12);
        lemma_top_value_found(s, 2, 12);
        lemma_top_straight_found(s, 12);
        if four >= 0 {
            lemma_value_from_index_roundtrip(four);
        } else if three >= 0 && top_pair_excluding(s, three, 12) >= 0 {
            lemma_top_pair_excluding_found(s, three, 12);
            lemma_value_from_index_roundtrip(three);
            lemma_value_from_index_roundtrip(top_pair_excluding(s, three, 12));
        } else if straight >= 0 {
            lemma_value_from_index_roundtrip(straight);
        } else if three >= 0 {
            lemma_value_from_index_roundtrip(three);
        } else if pair >= 0 {
            lemma_value_from_index_roundtrip(pair);
            let second = top_pair_excluding(s, pair, pair - 1);
            lemma_top_pair_excluding_found(s, pair, pair - 1);
            if second >= 0 {
                lemma_value_from_index_roundtrip(second);
            }
        } else {
            let top = top_value_with_count(s, 1, 12);
            lemma_last_value_present(s);
            lemma_top_value_exists(s, 1, 12, s.last().value.index_spec());
            lemma_top_value_found(s, 1, 12);
            lemma_value_from_index_roundtrip(top);
        }
    }
}

/// Every value above a found top (for the given count) falls short of it.
pub proof fn lemma_top_value_above(s: Seq<Card>, n: int, t: int, w: int)
    requires
        top_value_with_count(s, n, t) < w <= t,
    ensures
        count_value(s, w) < n,
    decreases t + 1,
{
    if t >= 0 && count_value(s, t) < n && w < t {
        lemma_top_value_above(s, n, t - 1, w);
    }
}

/// Each card's own value occurs in the sequence.
pub proof fn lemma_count_value_of_element(s: Seq<Card>, k: int)
    requires
        0 <= k < s.len(),
    ensures
        count_value(s, s[k].value.index_spec()) >= 1,
    decreases s.len(),
{
    lemma_count_value_bounds(s.drop_last(), s[k].value.index_spec());
    if k < s.len() - 1 {
        lemma_count_value_of_element(s.drop_last(), k);
    }
}

/// When every card carries the same value, that value's count is the
/// whole length.
proof fn lemma_count_all_value(s: Seq<Card>, t: int)
    requires
        forall|k: int| 0 <= k < s.len() ==> s[k].value.index_spec() == t,
    ensures
        count_value(s, t) == s.len(),
    decreases s.len(),
{
    if s.len() > 0 {
        lemma_count_all_value(s.drop_last(), t);
    }
}

/// Five or more cards always rank strictly above a lone Two: five cards
/// cannot all be Twos without making at least a pair.
pub proof fn lemma_rank_spec_beats_floor(s: Seq<Card>)
    requires
        s.len() >= 5,
    ensures
        rank_lt_spec(Rank::HighCard(Value::Two), rank_spec(s)),
{
    if category_spec(rank_spec(s)) == 1 {
        let pair = top_value_with_count(s, 2, 12);
        let top = top_value_with_count(s, 1, 12);
        lemma_last_value_present(s);
        lemma_top_value_exists(s, 1, 12, s.last().value.index_spec());
        lemma_top_value_found(s, 1, 12);
        lemma_value_from_index_roundtrip(top);
        if top == 0 {
            assert forall|k: int| 0 <= k < s.len() implies s[k].value.index_spec() == 0 by {
                lemma_count_value_of_element(s, k);
                if s[k].value.index_spec() > 0 {
                    lemma_top_value_above(s, 1, 12, s[k].value.index_spec());
                }
            }
            lemma_count_all_value(s, 0);
            lemma_top_value_exists(s, 2, 12, 0);
            lemma_top_value_found(s, 2, 12);
            lemma_value_from_index_roundtrip(pair);
            assert(category_spec(rank_spec(s)) >= 2);
        }
    }
}

} // verus!
