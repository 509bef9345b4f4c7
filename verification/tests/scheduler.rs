use gridcore::components::{ClickEvent, LeftClick, PlayerCommand, Tick};
use gridcore::mapper::NetworkMapping;
use gridcore::planner::find_path;
use gridcore::scheduler::{get_path, PathMap, STEP_INTERVAL};
use gridcore::tile::Tile;

fn walk_route(n: u32) -> Vec<(LeftClick, Tile)> {
    (1..=n).map(|z| (LeftClick::Walk, Tile::new((4, 0, 4 + z)))).collect()
}

#[test]
fn get_path_pairs_click_with_origin() {
    let event = ClickEvent::new(3, LeftClick::Walk, Tile::new((4, 0, 9)));
    let p = get_path(&event, Tile::new((4, 0, 4)));
    assert_eq!(p.origin, Tile::new((4, 0, 4)));
    assert_eq!(p.destination, Tile::new((4, 0, 9)));
    assert_eq!(p.left_click, LeftClick::Walk);
}

#[test]
fn schedule_stamps_monotonically_spaced_ticks() {
    let mut pm = PathMap::new();
    pm.schedule(&walk_route(5), Tick { tick: 100 }, STEP_INTERVAL);
    assert_eq!(pm.steps.len(), 5);
    for (i, (t, action, tile)) in pm.steps.iter().enumerate() {
        assert_eq!(t.tick, 100 + (i as u64) * STEP_INTERVAL);
        assert_eq!(*action, LeftClick::Walk);
        assert_eq!(*tile, Tile::new((4, 0, 5 + i as u32)));
    }
    for w in pm.steps.windows(2) {
        assert_eq!(w[1].0.tick - w[0].0.tick, STEP_INTERVAL);
    }
}

#[test]
fn a_second_click_replaces_the_queue() {
    let mut pm = PathMap::new();
    pm.schedule(&walk_route(5), Tick { tick: 100 }, STEP_INTERVAL);
    // the second click's steps replace, not append
    let second: Vec<(LeftClick, Tile)> =
        vec![(LeftClick::Walk, Tile::new((3, 0, 4))), (LeftClick::Walk, Tile::new((2, 0, 4)))];
    pm.schedule(&second, Tick { tick: 104 }, STEP_INTERVAL);
    assert_eq!(pm.steps.len(), 2);
    assert_eq!(pm.steps[0].1, LeftClick::Walk);
    assert_eq!(pm.steps[0].2, Tile::new((3, 0, 4)));
    assert_eq!(pm.steps[1].2, Tile::new((2, 0, 4)));
    assert_eq!(pm.steps[0].0.tick, 104);
    assert_eq!(pm.steps[1].0.tick, 104 + STEP_INTERVAL);
}

#[test]
fn due_steps_pop_from_the_front_only() {
    let mut pm = PathMap::new();
    let mut mapping = NetworkMapping::new();
    pm.schedule(&walk_route(5), Tick { tick: 100 }, 2);
    let (cmds, despawns) = pm.scheduled_movement(&Tick { tick: 102 }, &mut mapping);
    // steps stamped 100 and 102 are due, 104.. are not
    assert_eq!(cmds.len(), 2);
    assert!(despawns.is_empty());
    assert_eq!(pm.steps.len(), 3);
    assert_eq!(pm.steps[0].0.tick, 104);
    assert_eq!(
        cmds[0],
        PlayerCommand::LeftClick(LeftClick::Walk, Tile::new((4, 0, 5)))
    );
    assert_eq!(
        cmds[1],
        PlayerCommand::LeftClick(LeftClick::Walk, Tile::new((4, 0, 6)))
    );
    // nothing is due before the next interval
    let (none_yet, _) = pm.scheduled_movement(&Tick { tick: 103 }, &mut mapping);
    assert!(none_yet.is_empty());
    assert_eq!(pm.steps.len(), 3);
}

#[test]
fn attack_and_open_targets_are_translated() {
    let mut pm = PathMap::new();
    let mut mapping = NetworkMapping::new();
    mapping.add(5, 900);
    mapping.add(6, 901);
    let route = vec![
        (LeftClick::Attack(5), Tile::new((1, 0, 1))),
        (LeftClick::Open(6), Tile::new((2, 0, 2))),
    ];
    pm.schedule(&route, Tick { tick: 0 }, 1);
    let (cmds, despawns) = pm.scheduled_movement(&Tick { tick: 10 }, &mut mapping);
    assert_eq!(cmds.len(), 2);
    assert_eq!(
        cmds[0],
        PlayerCommand::LeftClick(LeftClick::Attack(900), Tile::new((1, 0, 1)))
    );
    assert_eq!(
        cmds[1],
        PlayerCommand::LeftClick(LeftClick::Open(901), Tile::new((2, 0, 2)))
    );
    assert!(despawns.is_empty());
    // attack translation does not consume the mapping
    assert_eq!(mapping.get_server(5), Some(900));
}

#[test]
fn stale_target_skips_only_that_step() {
    let mut pm = PathMap::new();
    let mut mapping = NetworkMapping::new();
    mapping.add(6, 901);
    let route = vec![
        (LeftClick::Attack(5), Tile::new((1, 0, 1))),  // 5 was never mapped
        (LeftClick::Walk, Tile::new((2, 0, 2))),
        (LeftClick::Open(6), Tile::new((3, 0, 3))),
    ];
    pm.schedule(&route, Tick { tick: 0 }, 1);
    let (cmds, _) = pm.scheduled_movement(&Tick { tick: 10 }, &mut mapping);
    assert_eq!(cmds.len(), 2);
    assert_eq!(
        cmds[0],
        PlayerCommand::LeftClick(LeftClick::Walk, Tile::new((2, 0, 2)))
    );
    assert_eq!(
        cmds[1],
        PlayerCommand::LeftClick(LeftClick::Open(901), Tile::new((3, 0, 3)))
    );
}

#[test]
fn pickup_despawns_the_local_prediction() {
    let mut pm = PathMap::new();
    let mut mapping = NetworkMapping::new();
    mapping.add(5, 900);
    let route = vec![(LeftClick::Pickup(Some(5)), Tile::new((1, 0, 1)))];
    pm.schedule(&route, Tick { tick: 0 }, 1);
    let (cmds, despawns) = pm.scheduled_movement(&Tick { tick: 1 }, &mut mapping);
    assert_eq!(
        cmds,
        vec![PlayerCommand::LeftClick(LeftClick::Pickup(Some(900)), Tile::new((1, 0, 1)))]
    );
    assert_eq!(despawns, vec![5]);
    // the picked-up entity's mapping is gone, both directions
    assert_eq!(mapping.get_server(5), None);
    assert_eq!(mapping.get_client(900), None);
}

#[test]
fn corridor_click_emits_five_walk_commands_on_schedule() {
    // a client standing at (4,0,4) clicks (4,0,9) with walk
    let tiles: Vec<Tile> = (4..=9).map(|z| Tile::new((4, 0, z))).collect();
    let steps = find_path(Tile::new((4, 0, 4)), Tile::new((4, 0, 9)), LeftClick::Walk, &tiles)
        .expect("the corridor is unobstructed");
    assert_eq!(steps.len(), 5);
    let mut pm = PathMap::new();
    let mut mapping = NetworkMapping::new();
    let start: u64 = 40;
    pm.schedule(&steps, Tick { tick: start }, STEP_INTERVAL);
    // one command becomes due every STEP_INTERVAL ticks, naming the
    // correct intermediate tile
    let mut sent = Vec::new();
    for tick in start..=start + 5 * STEP_INTERVAL {
        let (cmds, _) = pm.scheduled_movement(&Tick { tick }, &mut mapping);
        for c in cmds {
            sent.push((tick, c));
        }
    }
    assert_eq!(sent.len(), 5);
    for (i, (tick, cmd)) in sent.iter().enumerate() {
        assert_eq!(*tick, start + (i as u64) * STEP_INTERVAL);
        assert_eq!(
            *cmd,
            PlayerCommand::LeftClick(LeftClick::Walk, Tile::new((4, 0, 5 + i as u32)))
        );
    }
}
