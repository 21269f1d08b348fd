//! State of the menu, the shop and the pile viewer, and the cursor modes.
use vstd::prelude::*;
use vstd::string::StringExecFns;
use crate::buffs::BuffType;
use crate::card::CardType;
use crate::card_deck::shuffle_cards;
use crate::utils::add_mod;

verus! {

#[derive(Debug, Clone, Copy, PartialEq, Eq, Hash, Structural)]
pub enum CursorMode {
    OnMap { x: usize, y: usize, card: CardType, slot: usize },
    Actions(usize),
}

impl CursorMode {
    /// The cursor after a move by `ix` columns and `iy` rows: on the map it
    /// wraps round the map's `xsize` columns and `ysize` rows; among the
    /// `slots` card slots it moves by `ix` and wraps round, unless there are
    /// none.
    pub fn moved(self, ix: isize, iy: isize, xsize: usize, ysize: usize, slots: usize) -> (r: CursorMode)
        requires
            xsize > 0,
            ysize > 0,
        ensures
            self matches CursorMode::OnMap { x, y, card, slot } ==> r == (CursorMode::OnMap {
                x: ((x + ix) % (xsize as int)) as usize,
                y: ((y + iy) % (ysize as int)) as usize,
                card,
                slot,
            }),
            self matches CursorMode::Actions(s) ==> r == CursorMode::Actions(
                if slots > 0 { ((s + ix) % (slots as int)) as usize } else { s },
            ),
    {
        match self {
            CursorMode::OnMap { x, y, card, slot } => CursorMode::OnMap {
                x: add_mod(x, ix, xsize),
                y: add_mod(y, iy, ysize),
                card,
                slot,
            },
            CursorMode::Actions(s) => {
                if slots > 0 {
                    CursorMode::Actions(add_mod(s, ix, slots))
                } else {
                    CursorMode::Actions(s)
                }
            },
        }
    }
}

pub enum MenuItem {
    Debug,
    Level(String),
    Exit,
}

impl MenuItem {
    /// The item's label.
    pub fn get_text(&self) -> (r: String)
        ensures
            self matches MenuItem::Level(a) ==> r@ == "Play level: "@ + a@,
            self is Debug ==> r@ == "Debug"@,
            self is Exit ==> r@ == "Exit"@,
    {
        proof {
            reveal_strlit("Play level: ");
            reveal_strlit("Debug");
            reveal_strlit("Exit");
        }
        match self {
            MenuItem::Level(a) => String::from_str("Play level: ").concat(a.as_str()),
            MenuItem::Debug => String::from_str("Debug"),
            MenuItem::Exit => String::from_str("Exit"),
        }
    }
}

/// The cards on sale, in shop order.
pub open spec fn shop_cards() -> Seq<CardType> {
    seq![
        CardType::Tower,
        CardType::SellTower,
        CardType::DamageEnemy,
        CardType::Shop,
        CardType::Coin(1),
        CardType::Coin(2),
        CardType::Coin(3),
        CardType::Take2,
        CardType::Buff(BuffType::Freeze),
        CardType::Buff(BuffType::Damage),
        CardType::Buff(BuffType::RPM),
        CardType::Buff(BuffType::Range),
        CardType::Buff(BuffType::Aura),
    ]
}

pub struct ShopOverlay {
    /// Hand slot of the shop card that opened the shop.
    pub card_used: usize,
    pub cur_selected: usize,
}

impl ShopOverlay {
    pub fn new(card_used: usize) -> (r: Self)
        ensures
            r.card_used == card_used,
            r.cur_selected == 0,
    {
        Self { card_used, cur_selected: 0 }
    }

    pub fn get_available_cards(&self) -> (r: Vec<CardType>)
        ensures
            r@ == shop_cards(),
    {
        let r = vec![
            CardType::Tower,
            CardType::SellTower,
            CardType::DamageEnemy,
            CardType::Shop,
            CardType::Coin(1),
            CardType::Coin(2),
            CardType::Coin(3),
            CardType::Take2,
            CardType::Buff(BuffType::Freeze),
            CardType::Buff(BuffType::Damage),
            CardType::Buff(BuffType::RPM),
            CardType::Buff(BuffType::Range),
            CardType::Buff(BuffType::Aura),
        ];
        assert(r@ =~= shop_cards());
        r
    }

    /// Moves the selection by `step` cards, round the list.
    pub fn move_selection(&mut self, step: isize)
        ensures
            final(self).cur_selected == (old(self).cur_selected + step) % (shop_cards().len() as int),
            final(self).card_used == old(self).card_used,
    {
        let n = self.get_available_cards().len();
        self.cur_selected = add_mod(self.cur_selected, step, n);
    }

    /// The selected card.
    pub fn selected(&self) -> (r: Option<CardType>)
        ensures
            self.cur_selected < shop_cards().len() ==> r == Some(shop_cards()[self.cur_selected as int]),
            self.cur_selected >= shop_cards().len() ==> r is None,
    {
        let cards = self.get_available_cards();
        if self.cur_selected < cards.len() {
            Some(cards[self.cur_selected])
        } else {
            None
        }
    }
}

pub struct PileOverlay {
    pub cur_selected: usize,
    pub cards: Vec<CardType>,
}

impl PileOverlay {
    /// A viewer over `cards`, shown in shuffled order.
    pub fn new(cards: Vec<CardType>) -> (r: Self)
        ensures
            r.cur_selected == 0,
            r.cards@.to_multiset() == cards@.to_multiset(),
            r.cards@.len() == cards@.len(),
    {
        let mut shuffled = cards;
        shuffle_cards(&mut shuffled);
        Self { cur_selected: 0, cards: shuffled }
    }

    /// Moves the selection by `step` cards, round the pile; an empty pile
    /// keeps it where it is.
    pub fn move_selection(&mut self, step: isize)
        ensures
            old(self).cards@.len() > 0 ==> final(self).cur_selected == (old(self).cur_selected + step) % (
            old(self).cards@.len() as int),
            old(self).cards@.len() == 0 ==> final(self).cur_selected == old(self).cur_selected,
            final(self).cards@ == old(self).cards@,
    {
        if self.cards.len() > 0 {
            self.cur_selected = add_mod(self.cur_selected, step, self.cards.len());
        }
    }
}

} // verus!
