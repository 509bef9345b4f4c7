use gridcore::components::{Arch, EntityType, Slime, Wall};
use gridcore::traversal::{traversable_tiles, untraversable_effects, update_trav, FloorCell};
use gridcore::tile::Tile;

fn cell(entity: u64, x: u32, z: u32) -> FloorCell {
    FloorCell { entity, tile: Tile::new((x, 0, z)), traversable: true }
}

#[test]
fn walls_block_their_own_tile() {
    let marks = untraversable_effects(EntityType::Wall(Wall::Horizontal), Tile::new((3, 0, 3)));
    assert_eq!(marks, vec![Tile::new((3, 0, 3))]);
}

#[test]
fn arches_block_both_feet() {
    let v = untraversable_effects(EntityType::Arch(Arch::Vertical), Tile::new((3, 0, 3)));
    assert_eq!(v, vec![Tile::new((3, 0, 3)), Tile::new((5, 0, 3))]);
    let h = untraversable_effects(EntityType::Arch(Arch::Horizontal), Tile::new((3, 0, 3)));
    assert_eq!(h, vec![Tile::new((3, 0, 3)), Tile::new((3, 0, 5))]);
}

#[test]
fn other_entities_block_nothing() {
    let marks = untraversable_effects(EntityType::Slime(Slime), Tile::new((3, 0, 3)));
    assert!(marks.is_empty());
}

#[test]
fn marks_flip_matching_cells_only() {
    let mut floor = vec![cell(1, 0, 0), cell(2, 1, 0), cell(3, 2, 0)];
    update_trav(&mut floor, &vec![Tile::new((1, 0, 0)), Tile::new((9, 0, 9))]);
    assert!(floor[0].traversable);
    assert!(!floor[1].traversable);
    assert!(floor[2].traversable);
    // marking is permanent, not toggled
    update_trav(&mut floor, &vec![Tile::new((1, 0, 0))]);
    assert!(!floor[1].traversable);
}

#[test]
fn planner_input_excludes_marked_cells() {
    let mut floor = vec![cell(1, 0, 0), cell(2, 1, 0), cell(3, 2, 0)];
    update_trav(&mut floor, &vec![Tile::new((1, 0, 0))]);
    let tiles = traversable_tiles(&floor);
    assert_eq!(tiles, vec![Tile::new((0, 0, 0)), Tile::new((2, 0, 0))]);
}
