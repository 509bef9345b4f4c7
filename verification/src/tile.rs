//! The grid model: integer cell coordinates and 8-directional adjacency.

use vstd::prelude::*;

verus! {

/// A cell coordinate `(x, y, z)` on the integer grid. Equality is
/// component-wise; `x` and `z` span the ground plane, `y` is the thin
/// up/down band.
#[derive(Clone, Copy, Debug, Hash)]
pub struct Tile {
    pub cell: (u32, u32, u32),
}

impl PartialEq for Tile {
    fn eq(&self, other: &Tile) -> (r: bool) {
        self.cell.0 == other.cell.0 && self.cell.1 == other.cell.1 && self.cell.2 == other.cell.2
    }
}

impl Eq for Tile {

}

impl vstd::std_specs::cmp::PartialEqSpecImpl for Tile {
    open spec fn obeys_eq_spec() -> bool {
        true
    }

    open spec fn eq_spec(&self, other: &Tile) -> bool {
        self.cell == other.cell
    }
}

/// A compass direction on the ground plane; `Bad` stands for "no movement".
#[derive(Clone, Copy, Debug, PartialEq, Eq, Structural)]
pub enum Direction {
    Bad,
    North,
    NorthEast,
    East,
    SouthEast,
    South,
    SouthWest,
    West,
    NorthWest,
}

/// Absolute difference of two mathematical integers.
pub open spec fn abs_diff_int(a: int, b: int) -> int {
    if a >= b {
        a - b
    } else {
        b - a
    }
}

/// Two tiles are 8-adjacent when each ground-plane component differs by at
/// most one and they do not share the same `(x, z)` column. The `y` band is
/// not part of the adjacency test.
pub open spec fn adjacent(a: Tile, b: Tile) -> bool {
    let dx = abs_diff_int(a.cell.0 as int, b.cell.0 as int);
    let dz = abs_diff_int(a.cell.2 as int, b.cell.2 as int);
    dx <= 1 && dz <= 1 && !(dx == 0 && dz == 0)
}

/// Cost of one step between adjacent tiles: 10 for an axis-aligned step,
/// 14 for a diagonal one.
pub open spec fn spec_step_cost(a: Tile, b: Tile) -> int {
    let dx = abs_diff_int(a.cell.0 as int, b.cell.0 as int);
    let dz = abs_diff_int(a.cell.2 as int, b.cell.2 as int);
    if dx == 1 && dz == 1 {
        14
    } else {
        10
    }
}

/// Octile distance between two tiles: the cost of the cheapest unobstructed
/// 8-directional walk, `14·min(dx,dz) + 10·(max(dx,dz) - min(dx,dz))`.
pub open spec fn spec_octile(a: Tile, b: Tile) -> int {
    let dx = abs_diff_int(a.cell.0 as int, b.cell.0 as int);
    let dz = abs_diff_int(a.cell.2 as int, b.cell.2 as int);
    if dx <= dz {
        14 * dx + 10 * (dz - dx)
    } else {
        14 * dz + 10 * (dx - dz)
    }
}

impl Tile {
    /// Build a tile from its cell coordinate.
    pub fn new(cell: (u32, u32, u32)) -> (t: Tile)
        ensures
            t.cell == cell,
    {
        Tile { cell }
    }

    /// Executable 8-adjacency test, equal to the `adjacent` predicate.
    pub fn is_adjacent(&self, other: &Tile) -> (r: bool)
        ensures
            r == adjacent(*self, *other),
    {
        let dx = if self.cell.0 >= other.cell.0 {
            self.cell.0 - other.cell.0
        } else {
            other.cell.0 - self.cell.0
        };
        let dz = if self.cell.2 >= other.cell.2 {
            self.cell.2 - other.cell.2
        } else {
            other.cell.2 - self.cell.2
        };
        dx <= 1 && dz <= 1 && !(dx == 0 && dz == 0)
    }

    /// Octile distance to `other`, the admissible heuristic of the planner.
    pub fn octile(&self, other: &Tile) -> (d: u64)
        ensures
            d == spec_octile(*self, *other),
    {
        let dx: u64 = if self.cell.0 >= other.cell.0 {
            (self.cell.0 - other.cell.0) as u64
        } else {
            (other.cell.0 - self.cell.0) as u64
        };
        let dz: u64 = if self.cell.2 >= other.cell.2 {
            (self.cell.2 - other.cell.2) as u64
        } else {
            (other.cell.2 - self.cell.2) as u64
        };
        if dx <= dz {
            14 * dx + 10 * (dz - dx)
        } else {
            14 * dz + 10 * (dx - dz)
        }
    }
}

} // verus!
