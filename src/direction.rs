//! The six directions of the hexagonal grid.
use vstd::prelude::*;

verus! {

#[derive(Debug, Clone, Copy, PartialEq, Eq, Hash, Structural)]
pub enum Dir {
    NorthEast,
    East,
    SouthEast,
    SouthWest,
    West,
    NorthWest,
}

/// The fixed enumeration order of directions, which ring walks follow.
pub open spec fn direction_spec(i: int) -> Dir {
    if i == 0 {
        Dir::East
    } else if i == 1 {
        Dir::NorthEast
    } else if i == 2 {
        Dir::NorthWest
    } else if i == 3 {
        Dir::West
    } else if i == 4 {
        Dir::SouthWest
    } else {
        Dir::SouthEast
    }
}

/// Direction number `i` (0 to 5) in the fixed enumeration order.
pub fn direction(i: usize) -> (r: Dir)
    requires
        i < 6,
    ensures
        r == direction_spec(i as int),
{
    if i == 0 {
        Dir::East
    } else if i == 1 {
        Dir::NorthEast
    } else if i == 2 {
        Dir::NorthWest
    } else if i == 3 {
        Dir::West
    } else if i == 4 {
        Dir::SouthWest
    } else {
        Dir::SouthEast
    }
}

} // verus!
