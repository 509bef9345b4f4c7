use gridcore::components::LeftClick;
use gridcore::planner::{astar, find_path, get_neighbours};
use gridcore::tile::Tile;

fn corridor() -> Vec<Tile> {
    // a straight corridor from (4,0,4) to (4,0,9)
    (4..=9).map(|z| Tile::new((4, 0, z))).collect()
}

fn open_field(side: u32) -> Vec<Tile> {
    let mut tiles = Vec::new();
    for x in 0..side {
        for z in 0..side {
            tiles.push(Tile::new((x, 0, z)));
        }
    }
    tiles
}

#[test]
fn corridor_route_has_five_steps() {
    let tiles = corridor();
    let steps = find_path(Tile::new((4, 0, 4)), Tile::new((4, 0, 9)), LeftClick::Walk, &tiles)
        .expect("the corridor is unobstructed");
    assert_eq!(steps.len(), 5);
    for (i, (action, tile)) in steps.iter().enumerate() {
        assert_eq!(*action, LeftClick::Walk);
        assert_eq!(*tile, Tile::new((4, 0, 5 + i as u32)));
    }
    assert_eq!(steps.last().unwrap().1, Tile::new((4, 0, 9)));
}

#[test]
fn terminal_step_carries_the_interaction() {
    let tiles = corridor();
    let steps = find_path(
        Tile::new((4, 0, 4)),
        Tile::new((4, 0, 6)),
        LeftClick::Attack(77),
        &tiles,
    )
    .unwrap();
    assert_eq!(steps.len(), 2);
    assert_eq!(steps[0].0, LeftClick::Walk);
    assert_eq!(steps[1].0, LeftClick::Attack(77));
    assert_eq!(steps[1].1, Tile::new((4, 0, 6)));
}

#[test]
fn unreachable_destination_is_none() {
    // two corridor segments with a hole between them
    let mut tiles: Vec<Tile> = (0..=2).map(|z| Tile::new((4, 0, z))).collect();
    tiles.extend((5..=9).map(|z| Tile::new((4, 0, z))));
    let r = find_path(Tile::new((4, 0, 0)), Tile::new((4, 0, 9)), LeftClick::Walk, &tiles);
    assert!(r.is_none());
}

#[test]
fn destination_outside_the_floor_is_none() {
    let tiles = corridor();
    let r = find_path(Tile::new((4, 0, 4)), Tile::new((20, 0, 20)), LeftClick::Walk, &tiles);
    assert!(r.is_none());
}

#[test]
fn clicking_the_current_tile_yields_an_empty_route() {
    let tiles = corridor();
    let steps =
        find_path(Tile::new((4, 0, 4)), Tile::new((4, 0, 4)), LeftClick::Walk, &tiles).unwrap();
    assert!(steps.is_empty());
}

#[test]
fn diagonal_shortcuts_are_taken() {
    let tiles = open_field(6);
    let steps = find_path(Tile::new((0, 0, 0)), Tile::new((5, 0, 5)), LeftClick::Walk, &tiles)
        .expect("the field is open");
    // 5 diagonal steps are the cheapest route (cost 70); any detour costs more
    assert_eq!(steps.len(), 5);
    for (i, (_, tile)) in steps.iter().enumerate() {
        assert_eq!(*tile, Tile::new((1 + i as u32, 0, 1 + i as u32)));
    }
}

#[test]
fn route_detours_around_a_wall() {
    // a 5-wide field with a vertical wall at x == 2, open only at z == 4
    let mut tiles = Vec::new();
    for x in 0..5u32 {
        for z in 0..5u32 {
            if x == 2 && z != 4 {
                continue;
            }
            tiles.push(Tile::new((x, 0, z)));
        }
    }
    let steps = find_path(Tile::new((0, 0, 0)), Tile::new((4, 0, 0)), LeftClick::Walk, &tiles)
        .expect("the gap at z == 4 links the halves");
    // every step is on the floor and consecutive steps are adjacent
    let mut prev = Tile::new((0, 0, 0));
    for (_, tile) in steps.iter() {
        assert!(tiles.contains(tile));
        assert!(prev.is_adjacent(tile));
        prev = *tile;
    }
    assert_eq!(prev, Tile::new((4, 0, 0)));
    // the route must pass through the gap
    assert!(steps.iter().any(|(_, t)| *t == Tile::new((2, 0, 4))));
}

#[test]
fn astar_returns_the_full_walk_and_its_cost() {
    let tiles = corridor();
    let (path, cost) = astar(&tiles, Tile::new((4, 0, 4)), Tile::new((4, 0, 9))).unwrap();
    assert_eq!(path.len(), 6);
    assert_eq!(path[0], Tile::new((4, 0, 4)));
    assert_eq!(path[5], Tile::new((4, 0, 9)));
    // five axis-aligned steps at cost 10 each
    assert_eq!(cost, 50);
    // five diagonal steps at cost 14 each across the open field
    let field = open_field(6);
    let (_, diagonal_cost) = astar(&field, Tile::new((0, 0, 0)), Tile::new((5, 0, 5))).unwrap();
    assert_eq!(diagonal_cost, 70);
}

#[test]
fn repeated_runs_are_reproducible() {
    let tiles = open_field(8);
    let a = find_path(Tile::new((0, 0, 0)), Tile::new((7, 0, 3)), LeftClick::Walk, &tiles);
    let b = find_path(Tile::new((0, 0, 0)), Tile::new((7, 0, 3)), LeftClick::Walk, &tiles);
    assert_eq!(a, b);
}

#[test]
fn neighbours_carry_step_costs() {
    let tiles = open_field(3);
    let nbrs = get_neighbours(&Tile::new((1, 0, 1)), &tiles);
    assert_eq!(nbrs.len(), 8);
    let axis: Vec<_> = nbrs.iter().filter(|(_, c)| *c == 10).collect();
    let diag: Vec<_> = nbrs.iter().filter(|(_, c)| *c == 14).collect();
    assert_eq!(axis.len(), 4);
    assert_eq!(diag.len(), 4);
    // a corner tile has three neighbours
    let corner = get_neighbours(&Tile::new((0, 0, 0)), &tiles);
    assert_eq!(corner.len(), 3);
}
