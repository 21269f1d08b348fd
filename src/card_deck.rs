//! The player's cards: hand, fixed actions, draw pile and discard pile.
use vstd::prelude::*;
use rand::seq::SliceRandom;
use crate::buffs::BuffType;
use crate::card::CardType;

verus! {

broadcast use vstd::seq_lib::group_to_multiset_ensures, vstd::seq_lib::lemma_multiset_commutative;

/// Most cards a bought card may join in the hand.
pub const MAX_HAND: usize = 5;

/// Relies on rand's `SliceRandom::shuffle` (with `thread_rng`): it only
/// swaps elements, so the result is a permutation of the input.
#[verifier::external_body]
pub(crate) fn shuffle_cards(cards: &mut Vec<CardType>)
    ensures
        final(cards)@.to_multiset() == old(cards)@.to_multiset(),
        final(cards)@.len() == old(cards)@.len(),
{
    cards.as_mut_slice().shuffle(&mut rand::thread_rng());
}

/// The cards of `s` other than empty slots, in order.
pub open spec fn non_empty(s: Seq<CardType>) -> Seq<CardType>
    decreases s.len(),
{
    if s.len() == 0 {
        s
    } else if s.last() == CardType::Empty {
        non_empty(s.drop_last())
    } else {
        non_empty(s.drop_last()).push(s.last())
    }
}

/// Every playable card kind once, in the order of a full draw pile.
pub open spec fn every_card() -> Seq<CardType> {
    seq![
        CardType::SellTower,
        CardType::DamageEnemy,
        CardType::Coin(1),
        CardType::Coin(2),
        CardType::Coin(3),
        CardType::Take2,
        CardType::Buff(BuffType::Freeze),
        CardType::Buff(BuffType::Range),
        CardType::Buff(BuffType::Damage),
        CardType::Buff(BuffType::RPM),
        CardType::Buff(BuffType::Aura),
    ]
}

pub struct CardDeck {
    pub hand: Vec<CardType>,
    pub actions: Vec<CardType>,
    pub deck: Vec<CardType>,
    pub discard: Vec<CardType>,
}

impl CardDeck {
    /// Every card kind once, in the draw pile; all actions available.
    pub fn all() -> (r: Self)
        ensures
            r.hand@.len() == 0,
            r.discard@.len() == 0,
            r.deck@ == every_card(),
            r.actions@ == seq![
                CardType::NextWave,
                CardType::Tower,
                CardType::Shop,
                CardType::DrawPile,
                CardType::DiscardPile,
            ],
    {
        let deck = vec![
            CardType::SellTower,
            CardType::DamageEnemy,
            CardType::Coin(1),
            CardType::Coin(2),
            CardType::Coin(3),
            CardType::Take2,
            CardType::Buff(BuffType::Freeze),
            CardType::Buff(BuffType::Range),
            CardType::Buff(BuffType::Damage),
            CardType::Buff(BuffType::RPM),
            CardType::Buff(BuffType::Aura),
        ];
        let actions = vec![
            CardType::NextWave,
            CardType::Tower,
            CardType::Shop,
            CardType::DrawPile,
            CardType::DiscardPile,
        ];
        Self { hand: Vec::new(), deck, actions, discard: Vec::new() }
    }

    /// The starting cards: a tower and a small coin in hand.
    pub fn new() -> (r: Self)
        ensures
            r.hand@ == seq![CardType::Tower, CardType::Coin(1)],
            r.deck@.len() == 0,
            r.discard@.len() == 0,
            r.actions@ == seq![CardType::NextWave, CardType::Shop, CardType::DrawPile, CardType::DiscardPile],
    {
        let hand = vec![CardType::Tower, CardType::Coin(1)];
        let actions = vec![CardType::NextWave, CardType::Shop, CardType::DrawPile, CardType::DiscardPile];
        Self { hand, deck: Vec::new(), actions, discard: Vec::new() }
    }

    /// Moves the hand's cards, empty slots left out, onto the discard pile.
    pub fn discard_all(&mut self)
        ensures
            final(self).hand@.len() == 0,
            final(self).discard@ == old(self).discard@ + non_empty(old(self).hand@),
            final(self).deck@ == old(self).deck@,
            final(self).actions@ == old(self).actions@,
    {
        let mut i: usize = 0;
        while i < self.hand.len()
            invariant
                i <= self.hand@.len(),
                self.hand@ == old(self).hand@,
                self.deck@ == old(self).deck@,
                self.actions@ == old(self).actions@,
                self.discard@ == old(self).discard@ + non_empty(old(self).hand@.subrange(0, i as int)),
            decreases self.hand@.len() - i,
        {
            let c = self.hand[i];
            assert(old(self).hand@.subrange(0, i + 1).drop_last() =~= old(self).hand@.subrange(0, i as int));
            if c != CardType::Empty {
                self.discard.push(c);
            }
            i = i + 1;
            assert(self.discard@ =~= old(self).discard@ + non_empty(old(self).hand@.subrange(0, i as int)));
        }
        assert(old(self).hand@.subrange(0, i as int) =~= old(self).hand@);
        self.hand = Vec::new();
    }

    pub fn shuffle(&mut self)
        ensures
            final(self).deck@.to_multiset() == old(self).deck@.to_multiset(),
            final(self).deck@.len() == old(self).deck@.len(),
            final(self).hand@ == old(self).hand@,
            final(self).discard@ == old(self).discard@,
            final(self).actions@ == old(self).actions@,
    {
        shuffle_cards(&mut self.deck);
    }

    /// Takes the top card of the draw pile; when the pile is empty, the
    /// discard pile is shuffled into it first. `None` when both are empty.
    pub fn draw_one(&mut self) -> (r: Option<CardType>)
        ensures
            final(self).hand@ == old(self).hand@,
            final(self).actions@ == old(self).actions@,
            final(self).deck@.len() + final(self).discard@.len() + (if r is Some { 1int } else { 0 })
                == old(self).deck@.len() + old(self).discard@.len(),
            r matches Some(c) ==> (final(self).deck@ + final(self).discard@).to_multiset().insert(c) == (old(
                self,
            ).deck@ + old(self).discard@).to_multiset(),
            r is None ==> old(self).deck@.len() == 0 && old(self).discard@.len() == 0,
            old(self).deck@.len() > 0 ==> {
                &&& r == Some(old(self).deck@.last())
                &&& final(self).deck@ == old(self).deck@.drop_last()
                &&& final(self).discard@ == old(self).discard@
            },
            old(self).deck@.len() == 0 ==> {
                &&& final(self).discard@.len() == 0
                &&& (r is None <==> old(self).discard@.len() == 0)
                &&& r matches Some(c) ==> final(self).deck@.push(c).to_multiset() == old(self).discard@.to_multiset()
            },
    {
        let ghost d0 = self.deck@;
        let ghost p0 = self.discard@;
        if self.deck.len() == 0 {
            let ghost pile = self.discard@;
            self.deck.append(&mut self.discard);
            assert(self.deck@ =~= pile);
            self.shuffle();
            if self.deck.len() > 0 {
                proof {
                    assert(self.deck@ =~= self.deck@.drop_last().push(self.deck@.last()));
                }
            }
        }
        let r = self.deck.pop();
        proof {
            if let Some(c) = r {
                assert(self.deck@.push(c).to_multiset() =~= self.deck@.to_multiset().insert(c));
                if d0.len() > 0 {
                    assert(d0 =~= self.deck@.push(c));
                    assert((self.deck@ + self.discard@).to_multiset() =~= self.deck@.to_multiset().add(self.discard@.to_multiset()));
                    assert((d0 + p0).to_multiset() =~= d0.to_multiset().add(p0.to_multiset()));
                } else {
                    assert(self.discard@ =~= Seq::<CardType>::empty());
                    assert(self.deck@ + self.discard@ =~= self.deck@);
                    assert(d0 + p0 =~= p0);
                }
            }
        }
        r
    }

    /// Draws `n` cards into the hand, as long as there are cards to draw.
    pub fn draw(&mut self, n: usize)
        ensures
            old(self).hand@.len() <= final(self).hand@.len() <= old(self).hand@.len() + n,
            final(self).hand@.subrange(0, old(self).hand@.len() as int) == old(self).hand@,
            final(self).actions@ == old(self).actions@,
            final(self).hand@.len() + final(self).deck@.len() + final(self).discard@.len() == old(self).hand@.len()
                + old(self).deck@.len() + old(self).discard@.len(),
            final(self).hand@.len() == old(self).hand@.len() + if n <= old(self).deck@.len() + old(self).discard@.len() {
                n as int
            } else {
                (old(self).deck@.len() + old(self).discard@.len()) as int
            },
            (final(self).hand@ + final(self).deck@ + final(self).discard@).to_multiset() == (old(self).hand@
                + old(self).deck@ + old(self).discard@).to_multiset(),
    {
        let mut k: usize = 0;
        while k < n
            invariant
                k <= n,
                old(self).hand@.len() <= self.hand@.len() <= old(self).hand@.len() + k,
                self.hand@.subrange(0, old(self).hand@.len() as int) == old(self).hand@,
                self.actions@ == old(self).actions@,
                self.hand@.len() + self.deck@.len() + self.discard@.len() == old(self).hand@.len() + old(self).deck@.len()
                    + old(self).discard@.len(),
                self.hand@.len() == old(self).hand@.len() + if k <= old(self).deck@.len() + old(self).discard@.len() {
                    k as int
                } else {
                    (old(self).deck@.len() + old(self).discard@.len()) as int
                },
                (self.hand@ + self.deck@ + self.discard@).to_multiset() == (old(self).hand@ + old(self).deck@
                    + old(self).discard@).to_multiset(),
            decreases n - k,
        {
            let ghost before = self.hand@;
            let ghost piles = self.deck@ + self.discard@;
            assert((before + self.deck@ + self.discard@) =~= before + piles);
            match self.draw_one() {
                Some(card) => {
                    self.hand.push(card);
                    assert(self.hand@.subrange(0, old(self).hand@.len() as int) =~= before.subrange(0, old(self).hand@.len() as int));
                    proof {
                        let rest = self.deck@ + self.discard@;
                        assert(self.hand@ + self.deck@ + self.discard@ =~= self.hand@ + rest);
                        assert((self.hand@ + rest).to_multiset() =~= self.hand@.to_multiset().add(rest.to_multiset()));
                        assert((before + piles).to_multiset() =~= before.to_multiset().add(piles.to_multiset()));
                        assert(self.hand@ =~= before.push(card));
                    }
                },
                None => {},
            }
            k = k + 1;
        }
    }

    /// The card in slot `slot`: hand slots come first, then the actions.
    pub fn get_selected_card(&self, slot: usize) -> (r: Option<CardType>)
        ensures
            slot < self.hand@.len() ==> r == Some(self.hand@[slot as int]),
            self.hand@.len() <= slot < self.hand@.len() + self.actions@.len() ==> r == Some(
                self.actions@[slot - self.hand@.len()],
            ),
            slot >= self.hand@.len() + self.actions@.len() ==> r is None,
    {
        if slot < self.hand.len() {
            return Some(self.hand[slot]);
        }
        let k = slot - self.hand.len();
        if k < self.actions.len() {
            Some(self.actions[k])
        } else {
            None
        }
    }

    /// A bought card joins the hand while it holds fewer than five cards,
    /// else the draw pile.
    pub fn buy_card(&mut self, card: CardType)
        ensures
            old(self).hand@.len() < MAX_HAND ==> final(self).hand@ == old(self).hand@.push(card)
                && final(self).deck@ == old(self).deck@,
            old(self).hand@.len() >= MAX_HAND ==> final(self).hand@ == old(self).hand@
                && final(self).deck@ == old(self).deck@.push(card),
            final(self).discard@ == old(self).discard@,
            final(self).actions@ == old(self).actions@,
    {
        if self.hand.len() < MAX_HAND {
            self.hand.push(card);
        } else {
            self.deck.push(card);
        }
    }

    /// The card in hand slot `slot` was played: it goes onto the discard
    /// pile and a drawn card takes its slot, or the slot closes when there is
    /// nothing to draw. Slots past the hand change nothing.
    pub fn card_used(&mut self, slot: usize)
        requires
            slot < old(self).hand@.len() ==> old(self).hand@[slot as int] != CardType::Empty,
        ensures
            slot >= old(self).hand@.len() ==> final(self).hand@ == old(self).hand@ && final(self).deck@
                == old(self).deck@ && final(self).discard@ == old(self).discard@,
            slot < old(self).hand@.len() ==> {
                let played = old(self).hand@[slot as int];
                &&& final(self).hand@.len() == old(self).hand@.len()
                &&& forall|i: int| 0 <= i < old(self).hand@.len() && i != slot ==> #[trigger] final(self).hand@[i]
                    == old(self).hand@[i]
                &&& old(self).deck@.len() > 0 ==> {
                    &&& final(self).hand@[slot as int] == old(self).deck@.last()
                    &&& final(self).deck@ == old(self).deck@.drop_last()
                    &&& final(self).discard@ == old(self).discard@.push(played)
                }
                &&& old(self).deck@.len() == 0 ==> {
                    &&& final(self).discard@.len() == 0
                    &&& final(self).deck@.push(final(self).hand@[slot as int]).to_multiset()
                        == old(self).discard@.push(played).to_multiset()
                }
            },
            final(self).actions@ == old(self).actions@,
    {
        if slot < self.hand.len() {
            let c = self.hand[slot];
            self.discard.push(c);
            match self.draw_one() {
                Some(card) => {
                    self.hand.set(slot, card);
                },
                None => {
                    self.hand.remove(slot);
                },
            }
        }
    }
}

} // verus!
