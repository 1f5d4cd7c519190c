use vstd::prelude::*;

use crate::card::Card;
use crate::error::EngineError;
use crate::player::PlayerHand;
use crate::rank::{compute_rank, rank_spec, Rank};
use crate::util::copy_vec;

verus! {

/// A set of cards to be ranked: the hole cards of a seat together with the
/// community cards.
pub struct Hand {
    cards: Vec<Card>,
}

impl View for Hand {
    type V = Seq<Card>;

    closed spec fn view(&self) -> Seq<Card> {
        self.cards@
    }
}

impl Hand {
    /// An empty hand.
    pub fn new() -> (h: Self)
        ensures
            h@.len() == 0,
    {
        Hand { cards: Vec::new() }
    }

    /// A hand made of exactly the given cards.
    pub fn new_from_cards(cards: Vec<Card>) -> (h: Self)
        ensures
            h@ == cards@,
    {
        Hand { cards }
    }

    /// The two hole cards of a seat followed by the community cards.
    pub fn new_from_hand(hand: PlayerHand, community: &Vec<Card>) -> (h: Self)
        ensures
            h@ == seq![hand.0, hand.1] + community@,
    {
        let mut cards: Vec<Card> = Vec::new();
        cards.push(hand.0);
        cards.push(hand.1);
        let mut i: usize = 0;
        while i < community.len()
            invariant
                i <= community@.len(),
                cards@ == seq![hand.0, hand.1] + community@.take(i as int),
            decreases community@.len() - i,
        {
            cards.push(community[i]);
            proof {
                assert(seq![hand.0, hand.1] + community@.take(i as int + 1) =~= (
                seq![hand.0, hand.1] + community@.take(i as int)).push(community@[i as int]));
            }
            i += 1;
        }
        proof {
            assert(community@.take(community@.len() as int) =~= community@);
        }
        Hand { cards }
    }

    /// Adds one card to the hand.
    pub fn push(&mut self, card: Card)
        ensures
            final(self)@ == old(self)@.push(card),
    {
        self.cards.push(card);
    }
}

/// Anything that can hand out a full set of cards and be ranked.
pub trait Rankable {
    /// A copy of the cards, or an error when there are too few to rank.
    fn cards(&self) -> Result<Vec<Card>, EngineError>;

    /// The poker rank of the cards.
    fn rank(&self) -> Result<Rank, EngineError>;
}

impl Rankable for Hand {
    /// A copy of the cards when there are at least five of them, and the
    /// small-hand error otherwise.
    fn cards(&self) -> (r: Result<Vec<Card>, EngineError>)
        ensures
            self@.len() >= 5 ==> (r matches Ok(cs) && cs@ == self@),
            self@.len() < 5 ==> r == Err::<Vec<Card>, EngineError>(EngineError::SmallHandError),
    {
        if self.cards.len() < 5 {
            Err(EngineError::SmallHandError)
        } else {
            Ok(copy_vec(&self.cards))
        }
    }

    /// The rank of the hand, or the small-hand error on fewer than five
    /// cards.
    fn rank(&self) -> (r: Result<Rank, EngineError>)
        ensures
            self@.len() >= 5 ==> r == Ok::<Rank, EngineError>(rank_spec(self@)),
            self@.len() < 5 ==> r == Err::<Rank, EngineError>(EngineError::SmallHandError),
    {
        match self.cards() {
            Ok(cs) => compute_rank(&cs),
            Err(e) => Err(e),
        }
    }
}

} // verus!
