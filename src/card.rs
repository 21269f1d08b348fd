//! Cards: the player's actions, with their pictures and descriptions.
use vstd::prelude::*;
use crate::assets::ImgID;
use crate::buffs::BuffType;

verus! {

#[derive(Debug, Clone, Copy, PartialEq, Eq, Hash, Structural)]
pub enum CardType {
    Empty,
    Tower,
    SellTower,
    DamageEnemy,
    Shop,
    Coin(usize),
    Take2,
    Buff(BuffType),
    NextWave,
    DrawPile,
    DiscardPile,
}

/// The picture of a card.
pub open spec fn image_of(c: CardType) -> ImgID {
    match c {
        CardType::Empty => ImgID::EmptySlot,
        CardType::Tower => ImgID::Archer,
        CardType::SellTower => ImgID::SellTower,
        CardType::DamageEnemy => ImgID::DamageEnemy,
        CardType::Shop => ImgID::Shop,
        CardType::Coin(a) => ImgID::Coin(a),
        CardType::Take2 => ImgID::Take2,
        CardType::Buff(BuffType::Freeze) => ImgID::Freeze,
        CardType::Buff(BuffType::RPM) => ImgID::RPM,
        CardType::Buff(BuffType::Range) => ImgID::Range,
        CardType::Buff(BuffType::Damage) => ImgID::Damage,
        CardType::Buff(BuffType::Aura) => ImgID::Aura,
        CardType::NextWave => ImgID::NextWave,
        CardType::DrawPile => ImgID::DrawPile,
        CardType::DiscardPile => ImgID::DiscardPile,
    }
}

/// A card that exists: coins come in values 1 to 3.
pub open spec fn card_valid(c: CardType) -> bool {
    match c {
        CardType::Coin(a) => 1 <= a <= 3,
        _ => true,
    }
}

/// What a card does, in words.
pub open spec fn description_of(c: CardType) -> Seq<char> {
    match c {
        CardType::Empty => ""@,
        CardType::Tower => "Builds a tower"@,
        CardType::SellTower => "Destroys a tower"@,
        CardType::DamageEnemy => "Damages all enemies in a given range"@,
        CardType::Shop => "Buy new cards"@,
        CardType::Coin(1) => "Produces 10 Gold"@,
        CardType::Coin(2) => "Produces 100 Gold"@,
        CardType::Coin(_) => "Produces 1000 Gold"@,
        CardType::Take2 => "Draw 2 more cards"@,
        CardType::Buff(BuffType::Freeze) => "Slows down enemies"@,
        CardType::Buff(BuffType::Range) => "Increases range"@,
        CardType::Buff(BuffType::Damage) => "Increases damage"@,
        CardType::Buff(BuffType::RPM) => "Increases rpm"@,
        CardType::Buff(BuffType::Aura) => "Increases stats of nearby towers"@,
        CardType::NextWave => "Immediatly starts next wave"@,
        CardType::DrawPile => "Look at your draw pile"@,
        CardType::DiscardPile => "Look at you discard pile"@,
    }
}

/// Gold a card costs to play.
pub open spec fn activation_cost_of(c: CardType, tower_price: usize) -> usize {
    match c {
        CardType::Tower => tower_price,
        CardType::DamageEnemy => 150,
        CardType::Take2 => 10,
        CardType::Buff(_) => 10,
        _ => 0,
    }
}

/// Gold a card costs in the shop.
pub open spec fn aquisition_cost_of(c: CardType) -> usize {
    match c {
        CardType::Empty => 0,
        CardType::Tower => 60,
        CardType::SellTower => 50,
        CardType::DamageEnemy => 100,
        CardType::Shop => 100,
        CardType::Coin(1) => 50,
        CardType::Coin(2) => 500,
        CardType::Coin(_) => 5000,
        CardType::Take2 => 500,
        CardType::NextWave => 50,
        CardType::Buff(BuffType::Aura) => 300,
        CardType::Buff(_) => 100,
        CardType::DrawPile => 0,
        CardType::DiscardPile => 0,
    }
}

impl CardType {
    pub fn get_image_id(&self) -> (r: ImgID)
        ensures
            r == image_of(*self),
    {
        match self {
            CardType::Empty => ImgID::EmptySlot,
            CardType::Tower => ImgID::Archer,
            CardType::SellTower => ImgID::SellTower,
            CardType::DamageEnemy => ImgID::DamageEnemy,
            CardType::Shop => ImgID::Shop,
            CardType::Coin(a) => ImgID::Coin(*a),
            CardType::Take2 => ImgID::Take2,
            CardType::Buff(BuffType::Freeze) => ImgID::Freeze,
            CardType::Buff(BuffType::RPM) => ImgID::RPM,
            CardType::Buff(BuffType::Range) => ImgID::Range,
            CardType::Buff(BuffType::Damage) => ImgID::Damage,
            CardType::Buff(BuffType::Aura) => ImgID::Aura,
            CardType::NextWave => ImgID::NextWave,
            CardType::DrawPile => ImgID::DrawPile,
            CardType::DiscardPile => ImgID::DiscardPile,
        }
    }

    pub fn get_preview_image_id(&self) -> (r: ImgID)
        ensures
            r == image_of(*self),
    {
        self.get_image_id()
    }

    pub fn get_description(&self) -> (r: &'static str)
        requires
            card_valid(*self),
        ensures
            r@ == description_of(*self),
    {
        proof {
            reveal_strlit("");
            reveal_strlit("Builds a tower");
            reveal_strlit("Destroys a tower");
            reveal_strlit("Damages all enemies in a given range");
            reveal_strlit("Buy new cards");
            reveal_strlit("Produces 10 Gold");
            reveal_strlit("Produces 100 Gold");
            reveal_strlit("Produces 1000 Gold");
            reveal_strlit("Draw 2 more cards");
            reveal_strlit("Slows down enemies");
            reveal_strlit("Increases range");
            reveal_strlit("Increases damage");
            reveal_strlit("Increases rpm");
            reveal_strlit("Increases stats of nearby towers");
            reveal_strlit("Immediatly starts next wave");
            reveal_strlit("Look at your draw pile");
            reveal_strlit("Look at you discard pile");
        }
        match self {
            CardType::Empty => "",
            CardType::Tower => "Builds a tower",
            CardType::SellTower => "Destroys a tower",
            CardType::DamageEnemy => "Damages all enemies in a given range",
            CardType::Shop => "Buy new cards",
            CardType::Coin(a) => {
                if *a == 1 {
                    "Produces 10 Gold"
                } else if *a == 2 {
                    "Produces 100 Gold"
                } else {
                    "Produces 1000 Gold"
                }
            },
            CardType::Take2 => "Draw 2 more cards",
            CardType::Buff(BuffType::Freeze) => "Slows down enemies",
            CardType::Buff(BuffType::Range) => "Increases range",
            CardType::Buff(BuffType::Damage) => "Increases damage",
            CardType::Buff(BuffType::RPM) => "Increases rpm",
            CardType::Buff(BuffType::Aura) => "Increases stats of nearby towers",
            CardType::NextWave => "Immediatly starts next wave",
            CardType::DrawPile => "Look at your draw pile",
            CardType::DiscardPile => "Look at you discard pile",
        }
    }

    /// Gold the card costs to play; a tower card costs what a tower costs.
    pub fn activation_cost(&self, tower_price: usize) -> (r: usize)
        ensures
            r == activation_cost_of(*self, tower_price),
    {
        match self {
            CardType::Tower => tower_price,
            CardType::DamageEnemy => 150,
            CardType::Take2 => 10,
            CardType::Buff(_) => 10,
            _ => 0,
        }
    }

    /// Gold the card costs in the shop.
    pub fn aquisition_cost(&self) -> (r: usize)
        requires
            card_valid(*self),
        ensures
            r == aquisition_cost_of(*self),
    {
        match self {
            CardType::Empty => 0,
            CardType::Tower => 60,
            CardType::SellTower => 50,
            CardType::DamageEnemy => 100,
            CardType::Shop => 100,
            CardType::Coin(a) => {
                if *a == 1 {
                    50
                } else if *a == 2 {
                    500
                } else {
                    5000
                }
            },
            CardType::Take2 => 500,
            CardType::NextWave => 50,
            CardType::Buff(BuffType::Aura) => 300,
            CardType::Buff(_) => 100,
            CardType::DrawPile => 0,
            CardType::DiscardPile => 0,
        }
    }
}

} // verus!
