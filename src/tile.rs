//! Map tiles: kind, traversal cost and grid position.
use vstd::prelude::*;
use crate::direction::Dir;
use crate::geometry::Position;

verus! {

/// Traversal cost of a buildable tile, high to keep paths off it.
pub const BUILD_COST: usize = 30;

/// Traversal cost of walkable, spawn and target tiles.
pub const WALK_COST: usize = 1;

#[derive(Debug, Clone, Copy, PartialEq, Eq, Hash, Structural)]
pub enum TileType {
    Walk(Dir),
    Build,
    Spawn,
    Target,
    Empty,
}

/// Traversal cost of a tile kind; an empty tile cannot be entered.
pub open spec fn cost_of(kind: TileType) -> usize {
    match kind {
        TileType::Build => BUILD_COST,
        TileType::Walk(_) => WALK_COST,
        TileType::Spawn => WALK_COST,
        TileType::Target => WALK_COST,
        TileType::Empty => usize::MAX,
    }
}

#[derive(Debug, Clone, Copy, PartialEq, Eq, Structural)]
pub struct Tile {
    pub kind: TileType,
    pub cost: usize,
    pub position: Position,
}

impl Tile {
    pub fn new(kind: TileType, cost: usize, x: usize, y: usize) -> (r: Self)
        ensures
            r.kind == kind,
            r.cost == cost,
            r.position == (Position { x, y }),
    {
        Self { kind, cost, position: Position::new(x, y) }
    }

    /// A tile whose cost follows from its kind.
    pub fn new_from_type(kind: TileType, x: usize, y: usize) -> (r: Self)
        ensures
            r.kind == kind,
            r.cost == cost_of(kind),
            r.position == (Position { x, y }),
    {
        let cost = match kind {
            TileType::Build => BUILD_COST,
            TileType::Walk(_) => WALK_COST,
            TileType::Spawn => WALK_COST,
            TileType::Target => WALK_COST,
            TileType::Empty => usize::MAX,
        };
        Self { kind, cost, position: Position::new(x, y) }
    }
}

} // verus!
