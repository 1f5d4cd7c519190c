use vstd::prelude::*;

use crate::card::{
    lemma_suit_from_index_roundtrip, lemma_value_from_index_roundtrip, Card, Suit, Value,
};
use rand::seq::SliceRandom;

verus! {

/// A stable numbering of the 52 cards: thirteen values inside each suit.
pub open spec fn card_id(c: Card) -> int {
    c.suit.index_spec() * 13 + c.value.index_spec()
}

/// The card sitting at a given position of the numbering.
pub open spec fn card_of_id(k: int) -> Card {
    Card { suit: Suit::from_index_spec(k / 13), value: Value::from_index_spec(k % 13) }
}

/// The numbering is a bijection between the cards and 0..52.
pub proof fn lemma_card_id_roundtrip(c: Card)
    ensures
        0 <= card_id(c) < 52,
        card_of_id(card_id(c)) == c,
{
    let u = c.suit.index_spec();
    let t = c.value.index_spec();
    assert(0 <= u < 4 && 0 <= t < 13);
    assert((u * 13 + t) / 13 == u && (u * 13 + t) % 13 == t) by (nonlinear_arith)
        requires
            0 <= u < 4 && 0 <= t < 13,
    ;
}

/// Positions of the numbering round-trip through `card_of_id`.
pub proof fn lemma_card_of_id_roundtrip(k: int)
    requires
        0 <= k < 52,
    ensures
        card_id(card_of_id(k)) == k,
{
    lemma_suit_from_index_roundtrip(k / 13);
    lemma_value_from_index_roundtrip(k % 13);
}

/// How many positions below `k` hold a card of the `ex` list.
pub open spec fn excluded_below(ex: Seq<Card>, k: int) -> int
    decreases k,
{
    if k <= 0 {
        0
    } else {
        excluded_below(ex, k - 1) + if ex.contains(card_of_id(k - 1)) {
            1int
        } else {
            0int
        }
    }
}

/// A card sits in a list exactly when it sits before the last spot or at it.
proof fn lemma_contains_split(s: Seq<Card>, c: Card)
    requires
        s.len() >= 1,
    ensures
        s.contains(c) <==> (s.drop_last().contains(c) || s.last() == c),
{
    if s.contains(c) {
        let j = choose|j: int| 0 <= j < s.len() && s[j] == c;
        if j < s.len() - 1 {
            assert(s.drop_last()[j] == c);
        }
    }
    if s.drop_last().contains(c) {
        let j = choose|j: int| 0 <= j < s.drop_last().len() && s.drop_last()[j] == c;
        assert(s[j] == c);
    }
}

/// Dropping the last entry of the excluded list lowers each prefix count
/// by one exactly from that entry's position on, provided the entry is new.
proof fn lemma_excluded_below_drop(ex: Seq<Card>, k: int)
    requires
        ex.len() >= 1,
        !ex.drop_last().contains(ex.last()),
        k <= 52,
    ensures
        excluded_below(ex, k) == excluded_below(ex.drop_last(), k) + if card_id(ex.last()) < k {
            1int
        } else {
            0int
        },
    decreases k,
{
    lemma_card_id_roundtrip(ex.last());
    if k > 0 {
        lemma_excluded_below_drop(ex, k - 1);
        lemma_contains_split(ex, card_of_id(k - 1));
        if card_of_id(k - 1) == ex.last() {
            assert(card_id(ex.last()) == k - 1) by {
                lemma_card_of_id_roundtrip(k - 1);
            }
        } else {
            if card_id(ex.last()) == k - 1 {
                assert(card_of_id(k - 1) == ex.last());
            }
        }
    }
}

/// For a duplicate-free excluded list, the whole numbering meets it exactly
/// once per entry.
pub proof fn lemma_excluded_below_distinct(ex: Seq<Card>)
    requires
        ex.no_duplicates(),
    ensures
        excluded_below(ex, 52) == ex.len(),
    decreases ex.len(),
{
    if ex.len() == 0 {
        assert(excluded_below(ex, 52) == 0) by {
            lemma_excluded_below_empty(ex, 52);
        }
    } else {
        assert(!ex.drop_last().contains(ex.last())) by {
            if ex.drop_last().contains(ex.last()) {
                let j = choose|j: int|
                    0 <= j < ex.drop_last().len() && ex.drop_last()[j] == ex.last();
                assert(ex[j] == ex[ex.len() - 1]);
            }
        }
        lemma_excluded_below_drop(ex, 52);
        lemma_card_id_roundtrip(ex.last());
        assert(ex.drop_last().no_duplicates());
        lemma_excluded_below_distinct(ex.drop_last());
    }
}

/// A list containing no card excludes nothing.
proof fn lemma_excluded_below_empty(ex: Seq<Card>, k: int)
    requires
        forall|c: Card| !ex.contains(c),
    ensures
        excluded_below(ex, k) == 0,
    decreases k,
{
    if k > 0 {
        lemma_excluded_below_empty(ex, k - 1);
    }
}

/// Whether a list of cards contains the given card.
fn contains_card(v: &Vec<Card>, c: Card) -> (b: bool)
    ensures
        b == v@.contains(c),
{
    let mut i: usize = 0;
    while i < v.len()
        invariant
            i <= v@.len(),
            forall|j: int| 0 <= j < i ==> v@[j] != c,
        decreases v@.len() - i,
    {
        if v[i].suit == c.suit && v[i].value == c.value {
            return true;
        }
        i += 1;
    }
    false
}

/// A shuffled source of cards: created with the full 52 cards, or with a
/// caller-supplied set left out, and drawn from the top.
#[derive(Debug)]
pub struct Deck {
    cards: Vec<Card>,
}

impl View for Deck {
    type V = Seq<Card>;

    closed spec fn view(&self) -> Seq<Card> {
        self.cards@
    }
}

/// Relies on `rand`: `SliceRandom::shuffle` with `thread_rng` permutes the
/// slice in place (a Fisher-Yates walk of swaps), so the cards afterwards
/// are the same cards in some order.
#[verifier::external_body]
fn shuffle_cards(v: &mut Vec<Card>)
    ensures
        final(v)@.to_multiset() == old(v)@.to_multiset(),
{
    v.shuffle(&mut rand::thread_rng());
}

/// The 52 cards minus the excluded ones, ordered by the card numbering.
fn build_cards(excluded: &Vec<Card>) -> (v: Vec<Card>)
    ensures
        v@.no_duplicates(),
        v@.len() == 52 - excluded_below(excluded@, 52),
        forall|c: Card| v@.contains(c) <==> (0 <= card_id(c) < 52 && !excluded@.contains(c)),
{
    let mut v: Vec<Card> = Vec::new();
    let mut k: usize = 0;
    while k < 52
        invariant
            k <= 52,
            v@.len() == k - excluded_below(excluded@, k as int),
            forall|c: Card| v@.contains(c) <==> (0 <= card_id(c) < k && !excluded@.contains(c)),
            forall|i: int, j: int|
                0 <= i < j < v@.len() ==> card_id(v@[i]) < card_id(v@[j]),
            forall|i: int| 0 <= i < v@.len() ==> card_id(v@[i]) < k,
        decreases 52 - k,
    {
        let suit = Suit::from_index(k / 13);
        let value = Value::from_index(k % 13);
        let c = Card { suit, value };
        proof {
            assert(c == card_of_id(k as int));
            lemma_card_id_roundtrip(c);
            assert(card_id(c) == k as int) by {
                assert(card_id(card_of_id(k as int)) == k as int) by {
                    lemma_card_id_roundtrip(c);
                }
            }
        }
        if !contains_card(excluded, c) {
            let ghost v0 = v@;
            v.push(c);
            proof {
                assert(v@ == v0.push(c));
                assert(v@.drop_last() =~= v0);
                assert forall|x: Card| v@.contains(x) implies (0 <= card_id(x) < k + 1
                    && !excluded@.contains(x)) by {
                    lemma_contains_split(v@, x);
                }
                assert forall|x: Card| (0 <= card_id(x) < k + 1 && !excluded@.contains(x))
                    implies v@.contains(x) by {
                    if card_id(x) == k as int {
                        lemma_card_id_roundtrip(x);
                        assert(x == c);
                        assert(v@.last() == c);
                    } else {
                        assert(v0.contains(x));
                        lemma_contains_split(v@, x);
                    }
                }
            }
        } else {
            proof {
                assert forall|x: Card| (0 <= card_id(x) < k + 1 && !excluded@.contains(x))
                    implies v@.contains(x) by {
                    if card_id(x) == k as int {
                        lemma_card_id_roundtrip(x);
                        assert(x == c);
                    }
                }
            }
        }
        k += 1;
    }
    proof {
        assert forall|i: int, j: int| 0 <= i < j < v@.len() implies v@[i] != v@[j] by {
            assert(card_id(v@[i]) < card_id(v@[j]));
        }
    }
    v
}

impl Deck {
    /// A full 52-card deck, shuffled: every card occurs exactly once.
    pub fn default() -> (d: Self)
        ensures
            d@.len() == 52,
            d@.no_duplicates(),
            forall|c: Card| d@.contains(c),
    {
        let none: Vec<Card> = Vec::new();
        let mut v = build_cards(&none);
        proof {
            lemma_excluded_below_empty(none@, 52);
            v@.to_multiset_ensures();
        }
        let ghost before = v@;
        shuffle_cards(&mut v);
        proof {
            v@.to_multiset_ensures();
            before.lemma_multiset_has_no_duplicates();
            v@.lemma_multiset_has_no_duplicates_conv();
            assert forall|c: Card| v@.contains(c) by {
                lemma_card_id_roundtrip(c);
                assert(before.contains(c));
                assert(before.to_multiset().count(c) > 0);
                assert(v@.to_multiset().count(c) > 0);
            }
        }
        Deck { cards: v }
    }

    /// A shuffled deck holding exactly the cards outside the given list:
    /// none of the listed cards is dealt, every other card occurs exactly
    /// once, and for a duplicate-free list exactly `52 - len` cards remain.
    pub fn new_without_cards(cards: &Vec<Card>) -> (d: Self)
        ensures
            d@.no_duplicates(),
            d@.len() == 52 - excluded_below(cards@, 52),
            forall|c: Card| d@.contains(c) <==> (0 <= card_id(c) < 52 && !cards@.contains(c)),
            cards@.no_duplicates() ==> d@.len() == 52 - cards@.len(),
    {
        let mut v = build_cards(cards);
        proof {
            if cards@.no_duplicates() {
                lemma_excluded_below_distinct(cards@);
            }
            v@.to_multiset_ensures();
        }
        let ghost before = v@;
        shuffle_cards(&mut v);
        proof {
            v@.to_multiset_ensures();
            before.lemma_multiset_has_no_duplicates();
            v@.lemma_multiset_has_no_duplicates_conv();
            assert forall|c: Card| v@.contains(c) <==> (0 <= card_id(c) < 52
                && !cards@.contains(c)) by {
                assert(before.to_multiset().count(c) == v@.to_multiset().count(c));
                assert(before.contains(c) <==> before.to_multiset().count(c) > 0);
                assert(v@.contains(c) <==> v@.to_multiset().count(c) > 0);
            }
        }
        Deck { cards: v }
    }

    /// Removes and returns the top card, or nothing once the deck is empty.
    pub fn take(&mut self) -> (r: Option<Card>)
        ensures
            old(self)@.len() == 0 ==> (r == None::<Card> && final(self)@ == old(self)@),
            old(self)@.len() > 0 ==> (r == Some(old(self)@.last()) && final(self)@ == old(
                self,
            )@.drop_last()),
    {
        self.cards.pop()
    }

    /// How many cards are left.
    pub fn len(&self) -> (n: usize)
        ensures
            n == self@.len(),
    {
        self.cards.len()
    }
}

} // verus!
