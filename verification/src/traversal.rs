//! Client-side traversability: which materialized floor tiles the path
//! planner may cross. Walls and archway feet mark tiles untraversable as
//! they are materialized; the planner is fed the floor minus those marks.

use vstd::prelude::*;
use crate::components::EntityType;
use crate::tile::Tile;

verus! {

/// One materialized floor cell: the local entity standing on it, its
/// position and whether it can still be walked on.
#[derive(Clone, Copy, Debug, PartialEq, Eq)]
pub struct FloorCell {
    pub entity: u64,
    pub tile: Tile,
    pub traversable: bool,
}

/// The tiles a materialized entity makes untraversable: a wall blocks its
/// own tile; an archway blocks its tile and the far foot two cells along
/// its axis; everything else blocks nothing.
pub open spec fn spec_untraversable_effects(entity_type: EntityType, tile: Tile) -> Seq<Tile> {
    match entity_type {
        EntityType::Wall(w) => seq![tile],
        EntityType::Arch(a) => match a {
            crate::components::Arch::Vertical => if tile.cell.0 + 2 <= u32::MAX {
                seq![tile, Tile { cell: ((tile.cell.0 + 2) as u32, tile.cell.1, tile.cell.2) }]
            } else {
                seq![tile]
            },
            crate::components::Arch::Horizontal => if tile.cell.2 + 2 <= u32::MAX {
                seq![tile, Tile { cell: (tile.cell.0, tile.cell.1, (tile.cell.2 + 2) as u32) }]
            } else {
                seq![tile]
            },
        },
        _ => Seq::<Tile>::empty(),
    }
}

/// The tiles one spawned entity makes untraversable.
pub fn untraversable_effects(entity_type: EntityType, tile: Tile) -> (marks: Vec<Tile>)
    ensures
        marks@ == spec_untraversable_effects(entity_type, tile),
{
    let mut marks: Vec<Tile> = Vec::new();
    match entity_type {
        EntityType::Wall(_) => {
            marks.push(tile);
            proof {
                assert(marks@ =~= spec_untraversable_effects(entity_type, tile));
            }
        },
        EntityType::Arch(a) => {
            marks.push(tile);
            match a {
                crate::components::Arch::Vertical => {
                    if tile.cell.0 <= u32::MAX - 2 {
                        marks.push(Tile { cell: (tile.cell.0 + 2, tile.cell.1, tile.cell.2) });
                    }
                },
                crate::components::Arch::Horizontal => {
                    if tile.cell.2 <= u32::MAX - 2 {
                        marks.push(Tile { cell: (tile.cell.0, tile.cell.1, tile.cell.2 + 2) });
                    }
                },
            }
            proof {
                assert(marks@ =~= spec_untraversable_effects(entity_type, tile));
            }
        },
        _ => {
            proof {
                assert(marks@ =~= spec_untraversable_effects(entity_type, tile));
            }
        },
    }
    marks
}

/// Mark every floor cell standing on one of the given tiles untraversable;
/// all other cells, and every other field, stay as they are.
pub fn update_trav(floor: &mut Vec<FloorCell>, marks: &Vec<Tile>)
    ensures
        final(floor)@.len() == old(floor)@.len(),
        forall|i: int|
            0 <= i < old(floor)@.len() ==> {
                let oc = old(floor)@[i];
                let nc = #[trigger] final(floor)@[i];
                &&& nc.entity == oc.entity
                &&& nc.tile == oc.tile
                &&& nc.traversable == (oc.traversable && !crate::planner::contains_tile(
                    marks@,
                    oc.tile,
                ))
            },
{
    let mut i: usize = 0;
    while i < floor.len()
        invariant
            i <= floor@.len(),
            floor@.len() == old(floor)@.len(),
            forall|j: int| i <= j < floor@.len() ==> #[trigger] floor@[j] == old(floor)@[j],
            forall|j: int|
                0 <= j < i ==> {
                    let oc = old(floor)@[j];
                    let nc = #[trigger] floor@[j];
                    &&& nc.entity == oc.entity
                    &&& nc.tile == oc.tile
                    &&& nc.traversable == (oc.traversable && !crate::planner::contains_tile(
                        marks@,
                        oc.tile,
                    ))
                },
        decreases floor@.len() - i,
    {
        let cell = floor[i];
        let mut marked = false;
        let mut m: usize = 0;
        while m < marks.len()
            invariant
                m <= marks@.len(),
                marked == exists|k: int| 0 <= k < m && marks@[k] == cell.tile,
            decreases marks@.len() - m,
        {
            if marks[m] == cell.tile {
                marked = true;
            }
            m = m + 1;
        }
        proof {
            assert(marked == crate::planner::contains_tile(marks@, cell.tile));
        }
        if marked {
            floor.set(
                i,
                FloorCell { entity: cell.entity, tile: cell.tile, traversable: false },
            );
        }
        i = i + 1;
    }
}

/// Some traversable floor cell sits on this tile.
pub open spec fn traversable_at(floor: Seq<FloorCell>, t: Tile) -> bool {
    exists|i: int|
        0 <= i < floor.len() && (#[trigger] floor[i]).traversable && floor[i].tile == t
}

/// The tiles the planner may use: every traversable floor cell's tile, in
/// floor order, and nothing else.
pub fn traversable_tiles(floor: &Vec<FloorCell>) -> (tiles: Vec<Tile>)
    ensures
        forall|k: int|
            0 <= k < tiles@.len() ==> traversable_at(floor@, #[trigger] tiles@[k]),
        forall|i: int|
            0 <= i < floor@.len() && (#[trigger] floor@[i]).traversable
                ==> crate::planner::contains_tile(tiles@, floor@[i].tile),
{
    let mut tiles: Vec<Tile> = Vec::new();
    let mut i: usize = 0;
    while i < floor.len()
        invariant
            i <= floor@.len(),
            forall|k: int|
                0 <= k < tiles@.len() ==> traversable_at(floor@, #[trigger] tiles@[k]),
            forall|j: int|
                0 <= j < i && (#[trigger] floor@[j]).traversable ==> crate::planner::contains_tile(
                    tiles@,
                    floor@[j].tile,
                ),
        decreases floor@.len() - i,
    {
        let cell = floor[i];
        let ghost tiles0 = tiles@;
        if cell.traversable {
            tiles.push(cell.tile);
            proof {
                assert(tiles@[tiles@.len() - 1] == floor@[i as int].tile);
                assert((floor@[i as int]).traversable);
                assert(traversable_at(floor@, tiles@[tiles@.len() - 1]));
            }
        }
        proof {
            assert forall|j: int|
                0 <= j < i + 1 && (#[trigger] floor@[j]).traversable implies
                crate::planner::contains_tile(tiles@, floor@[j].tile) by {
                if j < i {
                    let k = choose|k: int| 0 <= k < tiles0.len() && tiles0[k] == floor@[j].tile;
                    assert(tiles@[k] == floor@[j].tile);
                }
            }
            assert forall|k: int|
                0 <= k < tiles@.len() implies traversable_at(floor@, #[trigger] tiles@[k]) by {
                if k < tiles0.len() {
                    assert(tiles@[k] == tiles0[k]);
                    assert(traversable_at(floor@, tiles0[k]));
                }
            }
        }
        i = i + 1;
    }
    tiles
}

} // verus!
