pub mod deck;

use vstd::prelude::*;

verus! {

use crate::deck::{Card, CardValue, Deck};
use core::cmp::Ordering;
use std::collections::VecDeque;

/// A card as the game engine sees it: the same value as a deck card, but
/// carrying the game's own comparison rule.
#[derive(Clone, Copy, Debug, Eq, Hash, PartialEq, Structural)]
pub struct WarCard(pub Card);

/// The game's rank-comparison rule, over ranks alone (suits never matter).
/// King beats everything but ace; ace beats only king; queen and jack slot
/// below king in the usual way; numeric cards compare by number and lose to
/// every face card. The ace/king exception makes this rule intransitive,
/// and it is kept exactly as the game plays it.
pub open spec fn war_cmp(a: CardValue, b: CardValue) -> Ordering {
    match a {
        CardValue::King => match b {
            CardValue::King => Ordering::Equal,
            CardValue::Ace => Ordering::Less,
            _ => Ordering::Greater,
        },
        CardValue::Queen => match b {
            CardValue::King => Ordering::Less,
            CardValue::Queen => Ordering::Equal,
            _ => Ordering::Greater,
        },
        CardValue::Jack => match b {
            CardValue::King | CardValue::Queen => Ordering::Less,
            CardValue::Jack => Ordering::Equal,
            _ => Ordering::Greater,
        },
        CardValue::Num(n) => match b {
            CardValue::King | CardValue::Queen | CardValue::Jack => Ordering::Less,
            CardValue::Num(m) => if n > m {
                Ordering::Greater
            } else if n == m {
                Ordering::Equal
            } else {
                Ordering::Less
            },
            _ => Ordering::Greater,
        },
        CardValue::Ace => match b {
            CardValue::King => Ordering::Greater,
            CardValue::Ace => Ordering::Equal,
            _ => Ordering::Less,
        },
    }
}

impl PartialOrd for WarCard {
    fn partial_cmp(&self, other: &WarCard) -> (r: Option<Ordering>) {
        match self.0.val {
            CardValue::King => match other.0.val {
                CardValue::King => Some(Ordering::Equal),
                CardValue::Ace => Some(Ordering::Less),
                _ => Some(Ordering::Greater),
            },
            CardValue::Queen => match other.0.val {
                CardValue::King => Some(Ordering::Less),
                CardValue::Queen => Some(Ordering::Equal),
                _ => Some(Ordering::Greater),
            },
            CardValue::Jack => match other.0.val {
                CardValue::King | CardValue::Queen => Some(Ordering::Less),
                CardValue::Jack => Some(Ordering::Equal),
                _ => Some(Ordering::Greater),
            },
            CardValue::Num(n) => match other.0.val {
                CardValue::King | CardValue::Queen | CardValue::Jack => Some(Ordering::Less),
                CardValue::Num(m) => if n > m {
                    Some(Ordering::Greater)
                } else if n == m {
                    Some(Ordering::Equal)
                } else {
                    Some(Ordering::Less)
                },
                _ => Some(Ordering::Greater),
            },
            CardValue::Ace => match other.0.val {
                CardValue::King => Some(Ordering::Greater),
                CardValue::Ace => Some(Ordering::Equal),
                _ => Some(Ordering::Less),
            },
        }
    }
}

impl vstd::std_specs::cmp::PartialOrdSpecImpl for WarCard {
    open spec fn obeys_partial_cmp_spec() -> bool {
        true
    }

    open spec fn partial_cmp_spec(&self, other: &WarCard) -> Option<Ordering> {
        Some(war_cmp(self.0.val, other.0.val))
    }
}

impl From<Card> for WarCard {
    fn from(card: Card) -> (r: WarCard) {
        WarCard(card)
    }
}

impl vstd::std_specs::convert::FromSpecImpl<Card> for WarCard {
    open spec fn obeys_from_spec() -> bool {
        true
    }

    open spec fn from_spec(card: Card) -> WarCard {
        WarCard(card)
    }
}

/// The opposite comparison outcome: what swapping the two sides must yield.
pub open spec fn ord_inverse(o: Ordering) -> Ordering {
    match o {
        Ordering::Greater => Ordering::Less,
        Ordering::Equal => Ordering::Equal,
        Ordering::Less => Ordering::Greater,
    }
}

/// The comparison rule is total and antisymmetric: swapping the sides swaps
/// Greater and Less and keeps Equal, even across the ace/king exception, and
/// two ranks compare Equal exactly when they are the same rank.
pub proof fn lemma_war_cmp_inverse(a: CardValue, b: CardValue)
    ensures
        war_cmp(b, a) == ord_inverse(war_cmp(a, b)),
        war_cmp(a, b) == Ordering::Equal <==> a == b,
        war_cmp(CardValue::King, CardValue::Ace) == Ordering::Less,
        war_cmp(CardValue::Ace, CardValue::King) == Ordering::Greater,
{
}

/// One player's pile of cards: drawn from the front, winnings appended to
/// the back, and never reordered in between.
#[derive(Clone, Debug, Eq, Hash, PartialEq)]
pub struct Player {
    pub deck: VecDeque<WarCard>,
}

impl View for Player {
    type V = Seq<WarCard>;

    open spec fn view(&self) -> Seq<WarCard> {
        self.deck@
    }
}

impl Player {
    /// A player seeded with the given cards, front first.
    pub fn new(cards: &Vec<Card>) -> (r: Player)
        ensures
            r@ == cards@.map_values(|c: Card| WarCard(c)),
    {
        let mut deck: VecDeque<WarCard> = VecDeque::new();
        let mut i: usize = 0;
        while i < cards.len()
            invariant
                i <= cards@.len(),
                deck@.len() == i,
                forall|j: int| 0 <= j < i ==> deck@[j] == WarCard(cards@[j]),
            decreases cards@.len() - i,
        {
            deck.push_back(WarCard(cards[i]));
            i += 1;
        }
        proof {
            assert(deck@ =~= cards@.map_values(|c: Card| WarCard(c)));
        }
        Player { deck }
    }

    /// Removes and returns the front card. The engine only calls this on a
    /// pile it has already checked to be non-empty.
    pub fn draw(&mut self) -> (r: WarCard)
        requires
            old(self)@.len() > 0,
        ensures
            r == old(self)@[0],
            final(self)@ == old(self)@.skip(1),
    {
        self.deck.pop_front().unwrap()
    }

    /// Appends one card to the back of the pile.
    pub fn add(&mut self, card: WarCard)
        ensures
            final(self)@ == old(self)@.push(card),
    {
        self.deck.push_back(card)
    }

    /// Moves every card out of `cards`, in order, onto the back of the pile.
    pub fn append(&mut self, cards: &mut VecDeque<WarCard>)
        ensures
            final(self)@ == old(self)@ + old(cards)@,
            final(cards)@ == Seq::<WarCard>::empty(),
    {
        self.deck.append(cards);
    }
}

/// The mathematical state of a game: the two piles, front first, and whether
/// the game has ended.
#[verifier::ext_equal]
pub struct GameView {
    pub p1: Seq<WarCard>,
    pub p2: Seq<WarCard>,
    pub over: bool,
}

/// How one comparison resolves, starting from the two face-up cards `c1` and
/// `c2`, the players' remaining piles, and the pot staked by earlier ties.
/// A decided comparison hands the winner the pot and then both face-up cards,
/// the winner's own card first; a tie either ends the game on the spot when either
/// pile is down to fewer than four cards — the pot and the cards in play are
/// gone for good — or stakes the two face-up cards plus three more from each
/// side and compares afresh.
pub open spec fn spec_resolve(
    c1: WarCard,
    c2: WarCard,
    p1: Seq<WarCard>,
    p2: Seq<WarCard>,
    pot: Seq<WarCard>,
) -> GameView
    decreases p1.len(),
{
    match war_cmp(c1.0.val, c2.0.val) {
        Ordering::Greater => GameView { p1: (p1 + pot).push(c1).push(c2), p2: p2, over: false },
        Ordering::Less => GameView { p1: p1, p2: (p2 + pot).push(c2).push(c1), over: false },
        Ordering::Equal => {
            if p1.len() < 4 || p2.len() < 4 {
                GameView { p1: p1, p2: p2, over: true }
            } else {
                spec_resolve(
                    p1[3],
                    p2[3],
                    p1.skip(4),
                    p2.skip(4),
                    pot.push(c1).push(c2).push(p1[0]).push(p2[0]).push(p1[1]).push(p2[1]).push(
                        p1[2],
                    ).push(p2[2]),
                )
            }
        },
    }
}

/// What one call to `turn` does to a game: nothing once the game is over; an
/// end-of-game transition, with both piles untouched, when either pile is
/// empty; otherwise each player turns over their front card and the
/// comparison resolves with an empty pot.
pub open spec fn spec_turn(g: GameView) -> GameView {
    if g.over {
        g
    } else if g.p1.len() == 0 || g.p2.len() == 0 {
        GameView { p1: g.p1, p2: g.p2, over: true }
    } else {
        spec_resolve(g.p1[0], g.p2[0], g.p1.skip(1), g.p2.skip(1), Seq::empty())
    }
}

/// A game of War in progress or finished: two piles and the terminal flag.
#[derive(Clone, Debug, Eq, Hash, PartialEq)]
pub struct WarGame {
    pub player1: Player,
    pub player2: Player,
    pub game_over: bool,
}

impl View for WarGame {
    type V = GameView;

    open spec fn view(&self) -> GameView {
        GameView { p1: self.player1@, p2: self.player2@, over: self.game_over }
    }
}

/// The deck cards held in a pile, in order.
pub open spec fn cards_of(s: Seq<WarCard>) -> Seq<Card> {
    s.map_values(|w: WarCard| w.0)
}

impl WarGame {
    /// A fresh game: the full deck shuffled and split down the middle, the
    /// front half dealt to player 1 and the back half to player 2. Which
    /// order the shuffle produced is up to the random source; whatever it
    /// was, each player holds 26 cards and between them they hold the whole
    /// 52-card deck.
    pub fn new() -> (r: WarGame)
        ensures
            !r@.over,
            r@.p1.len() == 26,
            r@.p2.len() == 26,
            cards_of(r@.p1 + r@.p2).to_multiset() == crate::deck::full_deck().to_multiset(),
    {
        let mut deck = Deck::default();
        deck.shuffle();
        let (deck1, deck2) = deck.split();
        let game = WarGame {
            player1: Player::new(&deck1),
            player2: Player::new(&deck2),
            game_over: false,
        };
        proof {
            assert(deck1@ + deck2@ =~= deck@);
            assert(cards_of(game@.p1 + game@.p2) =~= deck1@ + deck2@);
        }
        game
    }

    /// Plays exactly one turn, as `spec_turn` describes: a no-op once the
    /// game is over, the normal end once a pile is empty, and otherwise one
    /// full comparison including every war it escalates into.
    pub fn turn(&mut self)
        ensures
            final(self)@ == spec_turn(old(self)@),
    {
        if self.player1.deck.len() < 1 || self.player2.deck.len() < 1 {
            self.game_over = true;
        }
        if self.game_over {
            return;
        }
        let card1 = self.player1.draw();
        let card2 = self.player2.draw();
        self.turn_inner((card1, card2), VecDeque::new());
    }

    /// Resolves one comparison, wars included, as a loop that accumulates the
    /// pot — the chain of ties can be long, so no call stack is spent on it.
    #[verifier::loop_isolation(false)]
    fn turn_inner(&mut self, cards: (WarCard, WarCard), for_grabs: VecDeque<WarCard>)
        requires
            !old(self).game_over,
        ensures
            final(self)@ == spec_resolve(
                cards.0,
                cards.1,
                old(self)@.p1,
                old(self)@.p2,
                for_grabs@,
            ),
    {
        let ghost pot0 = for_grabs@;
        let (mut card1, mut card2) = cards;
        let mut pot = for_grabs;
        let ghost target = spec_resolve(card1, card2, self.player1@, self.player2@, pot@);
        loop
            invariant
                !self.game_over,
                spec_resolve(card1, card2, self.player1@, self.player2@, pot@) == target,
                target == spec_resolve(cards.0, cards.1, old(self)@.p1, old(self)@.p2, pot0),
            decreases self.player1.deck@.len(),
        {
            if card1 > card2 {
                // Player 1 takes the pot and both face-up cards.
                let ghost q1 = self.player1@;
                let ghost pt = pot@;
                self.player1.append(&mut pot);
                self.player1.add(card1);
                self.player1.add(card2);
                proof {
                    assert(war_cmp(card1.0.val, card2.0.val) == Ordering::Greater);
                    assert(self@ =~= spec_resolve(card1, card2, q1, self.player2@, pt));
                }
                return;
            } else if card2 > card1 {
                // Player 2 takes the pot and both face-up cards.
                let ghost q2 = self.player2@;
                let ghost pt = pot@;
                proof {
                    lemma_war_cmp_inverse(card1.0.val, card2.0.val);
                    assert(war_cmp(card1.0.val, card2.0.val) == Ordering::Less);
                }
                self.player2.append(&mut pot);
                self.player2.add(card2);
                self.player2.add(card1);
                proof {
                    assert(self@ =~= spec_resolve(card1, card2, self.player1@, q2, pt));
                }
                return;
            } else {
                proof {
                    lemma_war_cmp_inverse(card1.0.val, card2.0.val);
                    assert(war_cmp(card1.0.val, card2.0.val) == Ordering::Equal);
                }
                if self.player1.deck.len() < 4 || self.player2.deck.len() < 4 {
                    // A war that cannot be staked ends the game; the pot and
                    // the two face-up cards stay out of both piles.
                    self.game_over = true;
                    proof {
                        assert(self@ =~= spec_resolve(
                            card1,
                            card2,
                            self.player1@,
                            self.player2@,
                            pot@,
                        ));
                    }
                    return;
                }
                let ghost qp1 = self.player1@;
                let ghost qp2 = self.player2@;
                let ghost oc1 = card1;
                let ghost oc2 = card2;
                let ghost pt = pot@;
                // Stake the face-up pair and three more cards from each side.
                pot.push_back(card1);
                pot.push_back(card2);
                pot.push_back(self.player1.draw());
                pot.push_back(self.player2.draw());
                pot.push_back(self.player1.draw());
                pot.push_back(self.player2.draw());
                pot.push_back(self.player1.draw());
                pot.push_back(self.player2.draw());
                // Turn over a fresh card each and compare again.
                card1 = self.player1.draw();
                card2 = self.player2.draw();
                proof {
                    assert(self.player1@ =~= qp1.skip(4));
                    assert(self.player2@ =~= qp2.skip(4));
                    assert(card1 == qp1[3] && card2 == qp2[3]);
                    assert(pot@ =~= pt.push(oc1).push(oc2).push(qp1[0]).push(qp2[0]).push(
                        qp1[1],
                    ).push(qp2[1]).push(qp1[2]).push(qp2[2]));
                    assert(spec_resolve(card1, card2, self.player1@, self.player2@, pot@)
                        == spec_resolve(oc1, oc2, qp1, qp2, pt));
                }
            }
        }
    }
}

/// Conservation through one comparison: a resolution that leaves the game
/// running hands the winner's pile exactly the cards that were in the two
/// piles, the pot and the two face-up cards, and it keeps their count. A
/// resolution that forfeits only ever takes cards away, and it happens
/// precisely because one pile is below the four cards a war must stake.
pub proof fn lemma_resolve_conserves(
    c1: WarCard,
    c2: WarCard,
    p1: Seq<WarCard>,
    p2: Seq<WarCard>,
    pot: Seq<WarCard>,
)
    ensures
        ({
            let r = spec_resolve(c1, c2, p1, p2, pot);
            &&& !r.over ==> r.p1.to_multiset().add(r.p2.to_multiset()) == p1.to_multiset().add(
                p2.to_multiset(),
            ).add(pot.to_multiset()).insert(c1).insert(c2)
            &&& !r.over ==> r.p1.len() + r.p2.len() == p1.len() + p2.len() + pot.len() + 2
            &&& r.over ==> (r.p1.len() < 4 || r.p2.len() < 4) && r.p1.len() + r.p2.len()
                <= p1.len() + p2.len()
        }),
    decreases p1.len(),
{
    broadcast use vstd::seq_lib::group_to_multiset_ensures;
    broadcast use vstd::seq_lib::lemma_multiset_commutative;
    broadcast use vstd::multiset::group_multiset_axioms;

    let r = spec_resolve(c1, c2, p1, p2, pot);
    match war_cmp(c1.0.val, c2.0.val) {
        Ordering::Greater => {
            assert(r.p1.to_multiset().add(r.p2.to_multiset()) =~= p1.to_multiset().add(
                p2.to_multiset(),
            ).add(pot.to_multiset()).insert(c1).insert(c2));
        },
        Ordering::Less => {
            assert(r.p1.to_multiset().add(r.p2.to_multiset()) =~= p1.to_multiset().add(
                p2.to_multiset(),
            ).add(pot.to_multiset()).insert(c1).insert(c2));
        },
        Ordering::Equal => {
            if p1.len() >= 4 && p2.len() >= 4 {
                let pot8 = pot.push(c1).push(c2).push(p1[0]).push(p2[0]).push(p1[1]).push(
                    p2[1],
                ).push(p1[2]).push(p2[2]);
                lemma_resolve_conserves(p1[3], p2[3], p1.skip(4), p2.skip(4), pot8);
                assert(p1.take(4) =~= Seq::empty().push(p1[0]).push(p1[1]).push(p1[2]).push(
                    p1[3],
                ));
                assert(p2.take(4) =~= Seq::empty().push(p2[0]).push(p2[1]).push(p2[2]).push(
                    p2[3],
                ));
                assert(p1 =~= p1.take(4) + p1.skip(4));
                assert(p2 =~= p2.take(4) + p2.skip(4));
                if !r.over {
                    assert(r.p1.to_multiset().add(r.p2.to_multiset()) =~= p1.to_multiset().add(
                        p2.to_multiset(),
                    ).add(pot.to_multiset()).insert(c1).insert(c2));
                }
            }
        },
    }
}

/// Conservation through one turn: as long as the turn does not end the game,
/// the two piles together hold afterwards exactly the cards — and so exactly
/// the count — they held before; and the normal end, reached when a pile is
/// already empty, touches neither pile. Only a forfeited war removes cards.
pub proof fn lemma_turn_conserves(g: GameView)
    ensures
        !spec_turn(g).over ==> spec_turn(g).p1.to_multiset().add(spec_turn(g).p2.to_multiset())
            == g.p1.to_multiset().add(g.p2.to_multiset()),
        !spec_turn(g).over ==> spec_turn(g).p1.len() + spec_turn(g).p2.len() == g.p1.len()
            + g.p2.len(),
        !g.over && (g.p1.len() == 0 || g.p2.len() == 0) ==> spec_turn(g) == (GameView {
            p1: g.p1,
            p2: g.p2,
            over: true,
        }),
{
    broadcast use vstd::seq_lib::group_to_multiset_ensures;
    broadcast use vstd::multiset::group_multiset_axioms;

    if !g.over && g.p1.len() > 0 && g.p2.len() > 0 {
        lemma_resolve_conserves(g.p1[0], g.p2[0], g.p1.skip(1), g.p2.skip(1), Seq::empty());
        let r = spec_turn(g);
        if !r.over {
            assert(g.p1 =~= Seq::empty().push(g.p1[0]) + g.p1.skip(1));
            assert(g.p2 =~= Seq::empty().push(g.p2[0]) + g.p2.skip(1));
            vstd::seq_lib::lemma_multiset_commutative(Seq::empty().push(g.p1[0]), g.p1.skip(1));
            vstd::seq_lib::lemma_multiset_commutative(Seq::empty().push(g.p2[0]), g.p2.skip(1));
            assert(r.p1.to_multiset().add(r.p2.to_multiset()) =~= g.p1.to_multiset().add(
                g.p2.to_multiset(),
            ));
        }
    }
}

/// Termination classes: one turn of a running game either leaves it running,
/// ends it normally because a pile was already empty — both piles untouched —
/// or ends it by a war that could not be staked, in which case a pile is
/// below four cards and at least the two face-up cards have left circulation.
/// No other outcome exists; a game that never meets the two ending
/// conditions simply keeps producing turns.
pub proof fn lemma_turn_classes(g: GameView)
    requires
        !g.over,
    ensures
        ({
            let h = spec_turn(g);
            ||| !h.over
            ||| ((g.p1.len() == 0 || g.p2.len() == 0) && h == GameView {
                p1: g.p1,
                p2: g.p2,
                over: true,
            })
            ||| (h.over && (h.p1.len() < 4 || h.p2.len() < 4) && h.p1.len() + h.p2.len() + 2
                <= g.p1.len() + g.p2.len())
        }),
{
    if g.p1.len() > 0 && g.p2.len() > 0 {
        lemma_resolve_conserves(g.p1[0], g.p2[0], g.p1.skip(1), g.p2.skip(1), Seq::empty());
    }
}

/// Determinism: the state after a turn is a function of the state before it
/// and nothing else, so two games in equal states — for instance, dealt from
/// identical pre-shuffled decks — stay equal turn after turn.
pub proof fn lemma_turn_deterministic(a: GameView, b: GameView)
    requires
        a == b,
    ensures
        spec_turn(a) == spec_turn(b),
{
}

} // verus!
