use gridcore::components::{LeftClick, Path};
use gridcore::scope::{Scope, SCOPE_DISTANCE};
use gridcore::tile::Tile;
use gridcore::world::MobRange;

#[test]
fn tile_new_holds_cell() {
    let t = Tile::new((4, 0, 9));
    assert_eq!(t.cell, (4, 0, 9));
    assert_eq!(t, Tile { cell: (4, 0, 9) });
}

#[test]
fn adjacency_is_eight_directional() {
    let c = Tile::new((5, 0, 5));
    assert!(c.is_adjacent(&Tile::new((6, 0, 5))));
    assert!(c.is_adjacent(&Tile::new((4, 0, 5))));
    assert!(c.is_adjacent(&Tile::new((5, 0, 6))));
    assert!(c.is_adjacent(&Tile::new((5, 0, 4))));
    assert!(c.is_adjacent(&Tile::new((6, 0, 6))));
    assert!(c.is_adjacent(&Tile::new((4, 0, 4))));
    assert!(c.is_adjacent(&Tile::new((6, 0, 4))));
    assert!(c.is_adjacent(&Tile::new((4, 0, 6))));
    assert!(!c.is_adjacent(&Tile::new((5, 0, 5))));
    assert!(!c.is_adjacent(&Tile::new((7, 0, 5))));
    assert!(!c.is_adjacent(&Tile::new((5, 0, 7))));
    // the up/down band is not part of the adjacency test
    assert!(!c.is_adjacent(&Tile::new((5, 1, 5))));
    assert!(c.is_adjacent(&Tile::new((6, 1, 5))));
}

#[test]
fn octile_distance_exact_values() {
    let a = Tile::new((0, 0, 0));
    assert_eq!(a.octile(&Tile::new((3, 0, 0))), 30);
    assert_eq!(a.octile(&Tile::new((0, 0, 4))), 40);
    assert_eq!(a.octile(&Tile::new((2, 0, 2))), 28);
    assert_eq!(a.octile(&Tile::new((5, 0, 2))), 2 * 14 + 3 * 10);
    assert_eq!(a.octile(&a), 0);
}

#[test]
fn scope_get_is_anchored_box() {
    let s = Scope::get(Tile::new((4, 0, 4)));
    assert_eq!(SCOPE_DISTANCE, 10);
    assert_eq!(s.top_left.cell, (14, 0, 14));
    // clamped at zero, no negative coordinates
    assert_eq!(s.bottom_right.cell, (0, 0, 0));
    assert_eq!(s.up.cell, (4, 1, 4));
    assert_eq!(s.down.cell, (4, 0, 4));
}

#[test]
fn scope_get_clamps_at_coordinate_maximum() {
    let m = u32::MAX;
    let s = Scope::get_with_distance(Tile::new((m - 1, 0, m)), 10);
    assert_eq!(s.top_left.cell, (m, 0, m));
    assert_eq!(s.bottom_right.cell, (m - 11, 0, m - 10));
}

#[test]
fn scope_check_includes_boundary() {
    let s = Scope::get(Tile::new((20, 0, 20)));
    assert_eq!(s.top_left.cell, (30, 0, 30));
    assert_eq!(s.bottom_right.cell, (10, 0, 10));
    assert!(s.check(&Tile::new((30, 0, 30))));
    assert!(s.check(&Tile::new((10, 0, 10))));
    assert!(s.check(&Tile::new((20, 0, 20))));
    assert!(!s.check(&Tile::new((31, 0, 20))));
    assert!(!s.check(&Tile::new((20, 0, 9))));
    // the y band is not consulted
    assert!(s.check(&Tile::new((20, 7, 20))));
}

#[test]
fn path_step_walks_toward_destination() {
    let mut p = Path {
        destination: Tile::new((3, 0, 3)),
        origin: Tile::new((0, 0, 0)),
        left_click: LeftClick::Walk,
    };
    p.step();
    assert_eq!(p.origin.cell, (1, 0, 1));
    p.step();
    p.step();
    assert_eq!(p.origin.cell, (3, 0, 3));
    p.step();
    assert_eq!(p.origin.cell, (3, 0, 3));
}

#[test]
fn path_step_handles_single_axis() {
    let mut p = Path {
        destination: Tile::new((0, 0, 5)),
        origin: Tile::new((2, 0, 5)),
        left_click: LeftClick::Pull,
    };
    p.step();
    assert_eq!(p.origin.cell, (1, 0, 5));
    assert_eq!(p.destination.cell, (0, 0, 5));
    assert_eq!(p.left_click, LeftClick::Pull);
}

#[test]
fn mob_range_check_is_inclusive() {
    let r = MobRange { top_left: Tile::new((1, 0, 1)), bottom_right: Tile::new((10, 0, 10)) };
    assert!(r.check(&Tile::new((1, 0, 1))));
    assert!(r.check(&Tile::new((10, 0, 10))));
    assert!(r.check(&Tile::new((5, 0, 7))));
    assert!(!r.check(&Tile::new((0, 0, 5))));
    assert!(!r.check(&Tile::new((11, 0, 5))));
}
