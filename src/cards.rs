//! Scoring a simplified blackjack hand.
use vstd::prelude::*;

verus! {

/// A playing card, by rank.
#[derive(Debug, Clone, Copy, PartialEq, Eq, Structural)]
pub enum Card {
    Ace,
    One,
    Two,
    Three,
    Four,
    Five,
    Six,
    Seven,
    Eight,
    Nine,
    Jack,
    Queen,
    King,
}

/// The points of a card other than an ace; an ace counts 0 here and is scored apart.
pub open spec fn base_points(c: Card) -> nat {
    match c {
        Card::Ace => 0,
        Card::One => 1,
        Card::Two => 2,
        Card::Three => 3,
        Card::Four => 4,
        Card::Five => 5,
        Card::Six => 6,
        Card::Seven => 7,
        Card::Eight => 8,
        Card::Nine => 9,
        Card::Jack | Card::Queen | Card::King => 10,
    }
}

/// Sum of the base points of `cards`.
pub open spec fn base_total(cards: Seq<Card>) -> nat
    decreases cards.len(),
{
    if cards.len() == 0 {
        0
    } else {
        base_total(cards.drop_last()) + base_points(cards.last())
    }
}

/// The number of aces in `cards`.
pub open spec fn ace_count(cards: Seq<Card>) -> nat
    decreases cards.len(),
{
    if cards.len() == 0 {
        0
    } else {
        ace_count(cards.drop_last()) + if cards.last() == Card::Ace {
            1nat
        } else {
            0nat
        }
    }
}

/// Adds `aces` aces to `total`, one by one: 11 while the running total is at most 10, else 1.
pub open spec fn with_aces(total: nat, aces: nat) -> nat
    decreases aces,
{
    if aces == 0 {
        total
    } else {
        with_aces(total + if total <= 10 {
            11nat
        } else {
            1nat
        }, (aces - 1) as nat)
    }
}

/// The value of a hand: every non-ace card first, then the aces.
pub open spec fn hand_value(cards: Seq<Card>) -> nat {
    with_aces(base_total(cards), ace_count(cards))
}

/// A hand of cards.
pub struct Hand {
    pub cards: Vec<Card>,
}

impl Hand {
    /// An empty hand.
    pub fn new() -> (h: Hand)
        ensures
            h.cards@ == Seq::<Card>::empty(),
    {
        Hand { cards: Vec::new() }
    }

    /// Puts `card` at the end of the hand.
    pub fn add(&mut self, card: Card)
        ensures
            final(self).cards@ == old(self).cards@.push(card),
    {
        self.cards.push(card);
    }

    /// The hand's value: face cards count 10, others their number, and each
    /// ace 11 while that keeps the running total at most 21, else 1.
    pub fn value(&self) -> (r: usize)
        requires
            11 * self.cards@.len() <= usize::MAX,
        ensures
            r == hand_value(self.cards@),
    {
        let mut result: usize = 0;
        let mut aces_seen: usize = 0;
        let mut i: usize = 0;
        while i < self.cards.len()
            invariant
                i <= self.cards@.len(),
                11 * self.cards@.len() <= usize::MAX,
                result == base_total(self.cards@.take(i as int)),
                aces_seen == ace_count(self.cards@.take(i as int)),
                result + 11 * aces_seen <= 11 * i,
            decreases self.cards@.len() - i,
        {
            assert(self.cards@.take(i as int + 1).drop_last() =~= self.cards@.take(i as int));
            let points: usize = match self.cards[i] {
                Card::King | Card::Queen | Card::Jack => 10,
                Card::Ace => {
                    aces_seen = aces_seen + 1;
                    0
                },
                Card::One => 1,
                Card::Two => 2,
                Card::Three => 3,
                Card::Four => 4,
                Card::Five => 5,
                Card::Six => 6,
                Card::Seven => 7,
                Card::Eight => 8,
                Card::Nine => 9,
            };
            result = result + points;
            i = i + 1;
        }
        assert(self.cards@.take(i as int) =~= self.cards@);
        let mut j: usize = 0;
        while j < aces_seen
            invariant
                j <= aces_seen,
                with_aces(result as nat, (aces_seen - j) as nat) == hand_value(self.cards@),
                result + 11 * (aces_seen - j) <= usize::MAX,
            decreases aces_seen - j,
        {
            let ace_value: usize = if result <= 10 {
                11
            } else {
                1
            };
            result = result + ace_value;
            j = j + 1;
        }
        result
    }
}

} // verus!
