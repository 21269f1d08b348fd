//! Identifiers of the pictures and fonts the presentation layer draws with.
use vstd::prelude::*;
use crate::direction::Dir;

verus! {

#[derive(Debug, Clone, Copy, PartialEq, Eq, Hash, Structural)]
pub enum ImgID {
    Archer,
    Arrow,
    Aura,
    BackgroundWater,
    BackgroundWave(usize),
    Card,
    Coin(usize),
    Cursor,
    CursorMap,
    Damage,
    DamageEnemy,
    DiscardPile,
    DrawPile,
    EmptySlot,
    Fire,
    FloorBuild,
    FloorSpawnDown,
    FloorSpawnLeft,
    FloorSpawnRight,
    FloorSpawnUp,
    FloorTarget,
    Freeze,
    Hex,
    NextWave,
    RPM,
    Range,
    RockEdge,
    SellTower,
    Shop,
    Smoke,
    Stone(usize),
    Take2,
    TileShadow,
    Tree1,
    Tree2,
    Tree3,
    Walk(Dir),
    Zombie,
}

#[derive(Debug, Clone, Copy, PartialEq, Eq, Hash, Structural)]
pub enum FontID {
    Std,
}

} // verus!
