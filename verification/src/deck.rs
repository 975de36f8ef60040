use vstd::prelude::*;

verus! {

/// One of the four French suits. Suits are purely descriptive: the game's
/// comparison rule never looks at them.
#[derive(Clone, Copy, Debug, Eq, Hash, PartialEq, Structural)]
pub enum CardSuit {
    Spades,
    Diamonds,
    Clubs,
    Hearts,
}

/// The rank of a card: the three face cards, the numeric cards 2 through 10,
/// and the ace.
#[derive(Clone, Copy, Debug, Eq, Hash, PartialEq, Structural)]
pub enum CardValue {
    King,
    Queen,
    Jack,
    Num(u8),
    Ace,
}

/// An immutable playing card: a suit paired with a rank. Two cards with the
/// same suit and rank are indistinguishable.
#[derive(Clone, Copy, Debug, Eq, Hash, PartialEq, Structural)]
pub struct Card {
    pub suit: CardSuit,
    pub val: CardValue,
}

/// The suit dealt in canonical block `s` of the fresh deck (13 cards each):
/// spades, then diamonds, clubs, hearts.
pub open spec fn suit_at(s: int) -> CardSuit {
    if s == 0 {
        CardSuit::Spades
    } else if s == 1 {
        CardSuit::Diamonds
    } else if s == 2 {
        CardSuit::Clubs
    } else {
        CardSuit::Hearts
    }
}

/// The rank at offset `r` within one suit's canonical block: king, queen,
/// jack, then 10 down to 2, then ace.
pub open spec fn value_at(r: int) -> CardValue {
    if r == 0 {
        CardValue::King
    } else if r == 1 {
        CardValue::Queen
    } else if r == 2 {
        CardValue::Jack
    } else if r <= 11 {
        CardValue::Num((13 - r) as u8)
    } else {
        CardValue::Ace
    }
}

/// The canonical order of a fresh 52-card deck: all spades, diamonds, clubs,
/// hearts, each suit running king, queen, jack, 10 down to 2, ace.
pub open spec fn full_deck() -> Seq<Card> {
    Seq::new(52, |i: int| Card { suit: suit_at(i / 13), val: value_at(i % 13) })
}

/// The full 52-card deck, in some order. Built once in the canonical order,
/// then shuffled and split to seed a game.
pub struct Deck {
    cards: Vec<Card>,
}

impl View for Deck {
    type V = Seq<Card>;

    closed spec fn view(&self) -> Seq<Card> {
        self.cards@
    }
}

impl Deck {
    /// Every deck holds exactly 52 cards, from construction to consumption.
    #[verifier::type_invariant]
    spec fn holds_full_deck(self) -> bool {
        self.cards@.len() == 52
    }
}

/// Relies on rand's `SliceRandom::shuffle` (with the thread-local generator
/// from `rand::rng`): it permutes a slice in place, so the returned cards are
/// exactly the cards given, rearranged.
#[verifier::external_body]
fn shuffled_copy(cards: &Vec<Card>) -> (r: Vec<Card>)
    ensures
        r@.len() == cards@.len(),
        r@.to_multiset() == cards@.to_multiset(),
{
    let mut shuffled = cards.clone();
    rand::seq::SliceRandom::shuffle(shuffled.as_mut_slice(), &mut rand::rng());
    shuffled
}

impl Deck {
    /// Rearranges the deck into a random order. Which order comes out is up
    /// to the random source; whatever it is, the same cards are still there.
    pub fn shuffle(&mut self)
        ensures
            final(self)@.len() == old(self)@.len(),
            final(self)@.to_multiset() == old(self)@.to_multiset(),
    {
        proof {
            use_type_invariant(&*self);
        }
        self.cards = shuffled_copy(&self.cards);
    }

    /// How many cards the deck holds: always the full 52.
    pub fn len(&self) -> (r: usize)
        ensures
            r == self@.len(),
            r == 52,
    {
        proof {
            use_type_invariant(&*self);
        }
        self.cards.len()
    }

    /// The two contiguous halves of the deck: the front 26 cards and the back
    /// 26, each in the order the deck currently holds them.
    pub fn split(&self) -> (r: (Vec<Card>, Vec<Card>))
        ensures
            self@.len() == 52,
            r.0@ == self@.take(26),
            r.1@ == self@.skip(26),
    {
        proof {
            use_type_invariant(&*self);
        }
        let half = self.cards.len() / 2;
        let mut front: Vec<Card> = Vec::new();
        let mut i: usize = 0;
        while i < half
            invariant
                i <= half <= self.cards.len(),
                front@ == self@.take(half as int).take(i as int),
            decreases half - i,
        {
            front.push(self.cards[i]);
            i += 1;
            proof {
                assert(front@ =~= self@.take(half as int).take(i as int));
            }
        }
        let mut back: Vec<Card> = Vec::new();
        let mut j: usize = half;
        while j < self.cards.len()
            invariant
                half <= j <= self.cards.len(),
                back@ == self@.skip(half as int).take(j - half),
            decreases self.cards.len() - j,
        {
            back.push(self.cards[j]);
            j += 1;
            proof {
                assert(back@ =~= self@.skip(half as int).take(j - half));
            }
        }
        proof {
            assert(front@ =~= self@.take(half as int));
            assert(back@ =~= self@.skip(half as int));
        }
        (front, back)
    }

    /// Gives up the deck and hands its 52 cards out, front first.
    pub fn into_inner(self) -> (r: Vec<Card>)
        ensures
            r@ == self@,
            r@.len() == 52,
    {
        proof {
            use_type_invariant(&self);
        }
        self.cards
    }
}

impl Default for Deck {
    /// A fresh deck in the canonical order.
    fn default() -> (r: Deck)
        ensures
            r@ == full_deck(),
    {
        let mut cards: Vec<Card> = Vec::new();
        let mut s: usize = 0;
        while s < 4
            invariant
                s <= 4,
                cards@.len() == s * 13,
                forall|i: int| 0 <= i < cards@.len() ==> cards@[i] == full_deck()[i],
            decreases 4 - s,
        {
            let suit = if s == 0 {
                CardSuit::Spades
            } else if s == 1 {
                CardSuit::Diamonds
            } else if s == 2 {
                CardSuit::Clubs
            } else {
                CardSuit::Hearts
            };
            let mut r: usize = 0;
            while r < 13
                invariant
                    s < 4,
                    r <= 13,
                    suit == suit_at(s as int),
                    cards@.len() == s * 13 + r,
                    forall|i: int| 0 <= i < cards@.len() ==> cards@[i] == full_deck()[i],
                decreases 13 - r,
            {
                let val = if r == 0 {
                    CardValue::King
                } else if r == 1 {
                    CardValue::Queen
                } else if r == 2 {
                    CardValue::Jack
                } else if r <= 11 {
                    CardValue::Num((13 - r) as u8)
                } else {
                    CardValue::Ace
                };
                proof {
                    assert(val == value_at(r as int));
                    assert((s * 13 + r) / 13 == s as int && (s * 13 + r) % 13 == r as int)
                        by (nonlinear_arith)
                        requires s < 4 && r < 13;
                }
                cards.push(Card { suit, val });
                r += 1;
            }
            s += 1;
        }
        proof {
            assert(cards@ =~= full_deck());
        }
        Deck { cards }
    }
}

} // verus!
