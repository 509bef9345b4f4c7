//! A client's axis-aligned region of interest, recentered on the tile of
//! the entity it controls.

use vstd::prelude::*;
use crate::tile::Tile;

verus! {

/// How far the region of interest extends from its anchor on each ground
/// axis. Tunable configuration, not a load-bearing constant.
pub const SCOPE_DISTANCE: u32 = 10;

/// An axis-aligned rectangle in the `(x, z)` plane plus a thin `y` band,
/// derived from a single anchor tile and a fixed radius.
///
/// Invariant: `bottom_right <= top_left` component-wise on the ground
/// axes, clamped at 0 (coordinates are unsigned).
#[derive(Clone, Copy, Debug)]
pub struct Scope {
    pub top_left: Tile,
    pub bottom_right: Tile,
    pub up: Tile,
    pub down: Tile,
}

/// The closed-range AABB membership test of `Scope::check`, as a predicate:
/// boundary tiles are included, the `y` band is not consulted.
pub open spec fn scope_check(s: Scope, pos: Tile) -> bool {
    pos.cell.0 <= s.top_left.cell.0 && pos.cell.0 >= s.bottom_right.cell.0
        && pos.cell.2 <= s.top_left.cell.2 && pos.cell.2 >= s.bottom_right.cell.2
}

/// `a + b` on a `u32` axis, clamped to the largest coordinate.
pub open spec fn clamped_add(a: u32, b: u32) -> u32 {
    if a + b <= u32::MAX {
        (a + b) as u32
    } else {
        u32::MAX
    }
}

/// `a - b` on a `u32` axis, clamped at 0.
pub open spec fn clamped_sub(a: u32, b: u32) -> u32 {
    if a > b {
        (a - b) as u32
    } else {
        0
    }
}

/// The scope anchored at `start` with radius `distance`, stated directly.
pub open spec fn scope_at(start: Tile, distance: u32) -> Scope {
    Scope {
        top_left: Tile {
            cell: (
                clamped_add(start.cell.0, distance),
                start.cell.1,
                clamped_add(start.cell.2, distance),
            ),
        },
        bottom_right: Tile {
            cell: (
                clamped_sub(start.cell.0, distance),
                start.cell.1,
                clamped_sub(start.cell.2, distance),
            ),
        },
        up: Tile { cell: (start.cell.0, clamped_add(start.cell.1, 1), start.cell.2) },
        down: Tile { cell: (start.cell.0, clamped_sub(start.cell.1, 1), start.cell.2) },
    }
}

impl Scope {
    /// The scope anchored at `start`, using the configured radius.
    pub fn get(start: Tile) -> (s: Scope)
        ensures
            s == scope_at(start, SCOPE_DISTANCE),
    {
        Scope::get_with_distance(start, SCOPE_DISTANCE)
    }

    /// The scope anchored at `start` with an explicit radius.
    pub fn get_with_distance(start: Tile, distance: u32) -> (s: Scope)
        ensures
            s == scope_at(start, distance),
    {
        let tl_x = if start.cell.0 <= u32::MAX - distance {
            start.cell.0 + distance
        } else {
            u32::MAX
        };
        let tl_z = if start.cell.2 <= u32::MAX - distance {
            start.cell.2 + distance
        } else {
            u32::MAX
        };
        let br_x = if start.cell.0 > distance {
            start.cell.0 - distance
        } else {
            0
        };
        let br_z = if start.cell.2 > distance {
            start.cell.2 - distance
        } else {
            0
        };
        let up_y = if start.cell.1 <= u32::MAX - 1 {
            start.cell.1 + 1
        } else {
            u32::MAX
        };
        let down_y = if start.cell.1 > 0 {
            start.cell.1 - 1
        } else {
            0
        };
        Scope {
            top_left: Tile { cell: (tl_x, start.cell.1, tl_z) },
            bottom_right: Tile { cell: (br_x, start.cell.1, br_z) },
            up: Tile { cell: (start.cell.0, up_y, start.cell.2) },
            down: Tile { cell: (start.cell.0, down_y, start.cell.2) },
        }
    }

    /// Closed-range region test: is `pos` inside this scope?
    pub fn check(&self, pos: &Tile) -> (r: bool)
        ensures
            r == scope_check(*self, *pos),
    {
        let x = pos.cell.0;
        let z = pos.cell.2;

        let tl_x = self.top_left.cell.0;
        let tl_z = self.top_left.cell.2;

        let br_x = self.bottom_right.cell.0;
        let br_z = self.bottom_right.cell.2;

        x <= tl_x && x >= br_x && z <= tl_z && z >= br_z
    }
}

/// A freshly derived scope is well formed and contains its own anchor.
pub proof fn lemma_scope_at_wf(start: Tile, distance: u32)
    ensures
        scope_at(start, distance).bottom_right.cell.0 <= scope_at(start, distance).top_left.cell.0,
        scope_at(start, distance).bottom_right.cell.2 <= scope_at(start, distance).top_left.cell.2,
        scope_check(scope_at(start, distance), start),
{
}

} // verus!
