use gridcore::components::{
    Action, CombatState, ComponentType, CoolDowns, DespawnEvent, EntityType, Health, LeftClick,
    OpenEvent, OpenState, PlayerCommand, ServerEvents, ServerMessages, Slime, SyncEvent, Tick,
    UpdateEvent,
};
use gridcore::interest::{create_scope, Client};
use gridcore::rng::random_below;
use gridcore::scope::Scope;
use gridcore::server::{
    change_health, client_handler, collect_updates, combat_events, left_click, message,
    move_slime, replication_tick, send_open_event, send_tick, tick, CombatEvent, LeftClickEvent,
};
use gridcore::tile::{Direction, Tile};
use gridcore::world::{
    create_tiles, spawn_chunk, spawn_dummy, spawn_room, spawn_slime, MobRange, MobState,
    WorldEntity, CHUNK_SIZE, ROOM_SIZE,
};

#[test]
fn tick_advances_and_broadcasts() {
    let mut t = Tick { tick: 41 };
    tick(&mut t);
    assert_eq!(t.tick, 42);
    assert_eq!(send_tick(&t).0, Tick { tick: 42 });
}

#[test]
fn updates_go_only_to_clients_with_the_entity_scoped() {
    let world = vec![
        WorldEntity::bare(1, EntityType::Tile, Tile::new((0, 0, 0))),
        WorldEntity::bare(2, EntityType::Slime(Slime), Tile::new((5, 0, 5))),
    ];
    let mut near = Client::new(10, Scope::get(Tile::new((0, 0, 0))), 1);
    create_scope(&mut near, &world);
    let far = Client::new(20, Scope::get(Tile::new((100, 0, 100))), 1);
    let clients = vec![near, far];
    let changed = vec![(2u64, ComponentType::Health(Health { hp: 89 }))];
    let updates = collect_updates(&clients, &changed);
    assert_eq!(
        updates,
        vec![SyncEvent::Update(
            10,
            UpdateEvent { entity: 2, component: ComponentType::Health(Health { hp: 89 }) },
        )]
    );
}

#[test]
fn replication_pass_spawns_before_updating() {
    // entity 2 is new this tick and also mutated this tick
    let world = vec![
        WorldEntity::bare(1, EntityType::Tile, Tile::new((0, 0, 0))),
        WorldEntity::bare(2, EntityType::Slime(Slime), Tile::new((5, 0, 5))),
    ];
    let mut clients = vec![Client::new(10, Scope::get(Tile::new((0, 0, 0))), 1)];
    let changed = vec![(2u64, ComponentType::Health(Health { hp: 89 }))];
    let (transitions, updates) = replication_tick(&mut clients, &world, &changed);
    // the spawn is among this tick's transition events, sent reliably and
    // ahead of the unreliable update
    assert!(transitions.iter().any(|e| matches!(
        e,
        SyncEvent::Spawn(10, se) if se.entity == 2
    )));
    assert_eq!(updates.len(), 1);
    assert!(matches!(&updates[0], SyncEvent::Update(10, ue) if ue.entity == 2));
}

#[test]
fn no_update_after_the_despawn() {
    let mut world = vec![
        WorldEntity::bare(1, EntityType::Tile, Tile::new((0, 0, 0))),
        WorldEntity::bare(2, EntityType::Slime(Slime), Tile::new((5, 0, 5))),
    ];
    let mut clients = vec![Client::new(10, Scope::get(Tile::new((0, 0, 0))), 1)];
    create_scope(&mut clients[0], &world);
    // the slime leaves the scope and is mutated in the same tick
    world[1].tile = Tile::new((50, 0, 50));
    let changed = vec![(2u64, ComponentType::Tile(Tile::new((50, 0, 50))))];
    let (transitions, updates) = replication_tick(&mut clients, &world, &changed);
    assert!(transitions.contains(&SyncEvent::Despawn(10, DespawnEvent(2))));
    assert!(updates.is_empty());
}

#[test]
fn click_commands_are_queued_for_resolution() {
    let lobby: Vec<Client> = Vec::new();
    let mut world: Vec<WorldEntity> = Vec::new();
    let mut changed = Vec::new();
    let (click, combat) = message(
        &lobby,
        &mut world,
        &mut changed,
        &Tick { tick: 5 },
        77,
        PlayerCommand::LeftClick(LeftClick::Walk, Tile::new((4, 0, 9))),
    );
    assert_eq!(
        click,
        Some(LeftClickEvent { client_id: 77, left_click: LeftClick::Walk, tile: Tile::new((4, 0, 9)) })
    );
    assert!(combat.is_none());
}

#[test]
fn auto_attack_respects_the_cooldown() {
    let mut player = WorldEntity::bare(1, EntityType::Tile, Tile::new((0, 0, 0)));
    player.cooldowns = Some(CoolDowns { auto_attack: 0 });
    player.target = Some(gridcore::components::Target(Some(2)));
    let mut world = vec![player, WorldEntity::bare(2, EntityType::Slime(Slime), Tile::new((5, 0, 5)))];
    let lobby = vec![Client::new(77, Scope::get(Tile::new((0, 0, 0))), 1)];
    let mut changed = Vec::new();
    let (_, combat) = message(
        &lobby,
        &mut world,
        &mut changed,
        &Tick { tick: 100 },
        77,
        PlayerCommand::AutoAttack,
    );
    assert_eq!(combat, Some(CombatEvent::new(2, Action::AutoAttack)));
    // the cooldown is re-armed 24 ticks ahead and the swing lasts 5
    assert_eq!(world[0].cooldowns, Some(CoolDowns { auto_attack: 124 }));
    assert_eq!(world[0].combat_state, Some(CombatState::Punching(105)));
    assert_eq!(changed.len(), 1);
    // a second attack during the cooldown resolves to nothing
    let (_, again) = message(
        &lobby,
        &mut world,
        &mut changed,
        &Tick { tick: 101 },
        77,
        PlayerCommand::AutoAttack,
    );
    assert!(again.is_none());
    assert_eq!(changed.len(), 1);
    // with no target set, an expired cooldown is still consumed: the swing
    // is wasted, no event is resolved and no combat state is entered
    world[0].target = Some(gridcore::components::Target(None));
    world[0].combat_state = None;
    let (_, wasted) = message(
        &lobby,
        &mut world,
        &mut changed,
        &Tick { tick: 200 },
        77,
        PlayerCommand::AutoAttack,
    );
    assert!(wasted.is_none());
    assert_eq!(world[0].cooldowns, Some(CoolDowns { auto_attack: 224 }));
    assert_eq!(world[0].combat_state, None);
    assert_eq!(changed.len(), 1);
}

#[test]
fn walk_click_moves_the_controlled_entity() {
    let mut world = vec![WorldEntity::bare(1, EntityType::Tile, Tile::new((0, 0, 0)))];
    let mut lobby = vec![Client::new(77, Scope::get(Tile::new((0, 0, 0))), 1)];
    let mut changed = Vec::new();
    let despawn = left_click(
        &mut lobby,
        &mut world,
        &mut changed,
        &LeftClickEvent { client_id: 77, left_click: LeftClick::Walk, tile: Tile::new((4, 0, 9)) },
    );
    assert!(despawn.is_none());
    assert_eq!(world[0].tile, Tile::new((4, 0, 9)));
    assert_eq!(changed, vec![(1, ComponentType::Tile(Tile::new((4, 0, 9))))]);
}

#[test]
fn pickup_click_deletes_and_broadcasts_despawn() {
    let mut world = vec![
        WorldEntity::bare(1, EntityType::Tile, Tile::new((0, 0, 0))),
        WorldEntity::bare(2, EntityType::Sword(gridcore::components::Sword), Tile::new((1, 0, 1))),
    ];
    let mut lobby = vec![Client::new(77, Scope::get(Tile::new((0, 0, 0))), 1)];
    create_scope(&mut lobby[0], &world);
    assert!(lobby[0].scoped_entities.contains(&2));
    let mut changed = Vec::new();
    let despawn = left_click(
        &mut lobby,
        &mut world,
        &mut changed,
        &LeftClickEvent {
            client_id: 77,
            left_click: LeftClick::Pickup(Some(2)),
            tile: Tile::new((1, 0, 1)),
        },
    );
    assert_eq!(despawn, Some(DespawnEvent(2)));
    assert_eq!(world.len(), 1);
    assert!(world.iter().all(|w| w.id != 2));
    // the deleted entity leaves every scoped set at once
    assert!(!lobby[0].scoped_entities.contains(&2));
}

#[test]
fn open_click_opens_the_door() {
    let mut world = vec![WorldEntity::bare(
        4,
        EntityType::Door(gridcore::components::Door::Horizontal),
        Tile::new((3, 0, 3)),
    )];
    let mut lobby = Vec::new();
    let mut changed = Vec::new();
    let despawn = left_click(
        &mut lobby,
        &mut world,
        &mut changed,
        &LeftClickEvent { client_id: 77, left_click: LeftClick::Open(4), tile: Tile::new((3, 0, 3)) },
    );
    assert!(despawn.is_none());
    assert_eq!(world[0].open_state, Some(OpenState::Open));
    assert_eq!(changed, vec![(4, ComponentType::OpenState(OpenState::Open))]);
}

#[test]
fn combat_takes_ten_hit_points() {
    let mut world = vec![WorldEntity::bare(2, EntityType::Slime(Slime), Tile::new((5, 0, 5)))];
    world[0].health = Some(Health { hp: 99 });
    let mut changed = Vec::new();
    let hit = combat_events(&mut world, &mut changed, &CombatEvent::new(2, Action::AutoAttack));
    assert!(hit);
    assert_eq!(world[0].health, Some(Health { hp: 89 }));
    assert_eq!(changed, vec![(2, ComponentType::Health(Health { hp: 89 }))]);
}

#[test]
fn combat_resets_a_nearly_dead_target() {
    let mut world = vec![WorldEntity::bare(2, EntityType::Slime(Slime), Tile::new((5, 0, 5)))];
    world[0].health = Some(Health { hp: 5 });
    let mut changed = Vec::new();
    combat_events(&mut world, &mut changed, &CombatEvent::new(2, Action::AutoAttack));
    assert_eq!(world[0].health, Some(Health { hp: 100 }));
}

#[test]
fn health_regenerates_every_tenth_tick() {
    let mut world = vec![WorldEntity::bare(2, EntityType::Slime(Slime), Tile::new((5, 0, 5)))];
    world[0].health = Some(Health { hp: 50 });
    change_health(&mut world, &Tick { tick: 20 });
    assert_eq!(world[0].health, Some(Health { hp: 51 }));
    change_health(&mut world, &Tick { tick: 21 });
    assert_eq!(world[0].health, Some(Health { hp: 51 }));
    world[0].health = Some(Health { hp: u16::MAX });
    change_health(&mut world, &Tick { tick: 30 });
    assert_eq!(world[0].health, Some(Health { hp: u16::MAX }));
}

#[test]
fn slimes_wander_inside_their_range() {
    let mut slime = WorldEntity::bare(2, EntityType::Slime(Slime), Tile::new((4, 0, 4)));
    slime.mob_state = Some(MobState::Wonder(Direction::East));
    slime.mob_range =
        Some(MobRange { top_left: Tile::new((1, 0, 1)), bottom_right: Tile::new((10, 0, 10)) });
    let bystander = WorldEntity::bare(3, EntityType::Tile, Tile::new((0, 0, 0)));
    let mut world = vec![slime, bystander];
    let mut changed = Vec::new();
    // tick 20 is a movement tick but not a redraw tick
    move_slime(&mut world, &mut changed, &Tick { tick: 20 });
    assert_eq!(world[0].tile, Tile::new((5, 0, 4)));
    assert!(matches!(world[0].mob_state, Some(MobState::Wonder(Direction::East))));
    assert_eq!(world[1].tile, Tile::new((0, 0, 0)));
    assert_eq!(changed, vec![(2, ComponentType::Tile(Tile::new((5, 0, 4))))]);
    // off-cycle ticks move nothing
    move_slime(&mut world, &mut changed, &Tick { tick: 21 });
    assert_eq!(world[0].tile, Tile::new((5, 0, 4)));
    // at the range edge the slime stands still
    world[0].tile = Tile::new((10, 0, 4));
    move_slime(&mut world, &mut changed, &Tick { tick: 40 });
    assert_eq!(world[0].tile, Tile::new((10, 0, 4)));
}

#[test]
fn redraw_ticks_pick_a_cardinal_direction() {
    let mut slime = WorldEntity::bare(2, EntityType::Slime(Slime), Tile::new((4, 0, 4)));
    slime.mob_state = Some(MobState::Wonder(Direction::East));
    slime.mob_range =
        Some(MobRange { top_left: Tile::new((1, 0, 1)), bottom_right: Tile::new((10, 0, 10)) });
    let mut world = vec![slime];
    let mut changed = Vec::new();
    // tick 50 both moves (along the old direction) and redraws
    move_slime(&mut world, &mut changed, &Tick { tick: 50 });
    assert_eq!(world[0].tile, Tile::new((5, 0, 4)));
    match world[0].mob_state {
        Some(MobState::Wonder(d)) => assert!(matches!(
            d,
            Direction::North | Direction::East | Direction::South | Direction::West
        )),
        _ => panic!("the slime must still be wandering"),
    }
}

#[test]
fn connect_creates_player_lobby_record_and_snapshot_request() {
    let mut lobby = Vec::new();
    let mut world = Vec::new();
    let mut next_id: u64 = 100;
    let out = client_handler(
        &mut lobby,
        &mut world,
        &mut next_id,
        &ServerMessages::PlayerConnected { id: 77 },
    );
    assert_eq!(next_id, 101);
    assert_eq!(world.len(), 1);
    let p = &world[0];
    assert_eq!(p.id, 100);
    assert_eq!(p.entity_type, EntityType::Player(gridcore::components::Player { id: 77 }));
    assert!(p.tile.cell.0 < 10);
    assert_eq!((p.tile.cell.1, p.tile.cell.2), (0, 0));
    assert_eq!(p.health, Some(Health { hp: 50 }));
    assert_eq!(lobby.len(), 1);
    assert_eq!(lobby[0].id, 77);
    assert_eq!(lobby[0].controlled_entity, 100);
    assert_eq!(out.chunk_request.map(|c| c.0), Some(77));
    assert_eq!(out.notice, Some(ServerMessages::PlayerConnected { id: 77 }));
    let spawn = out.spawn.unwrap();
    assert_eq!(spawn.entity, 100);
    assert!(out.despawn.is_none());
    // a duplicate connect is ignored
    let again = client_handler(
        &mut lobby,
        &mut world,
        &mut next_id,
        &ServerMessages::PlayerConnected { id: 77 },
    );
    assert!(again.spawn.is_none());
    assert_eq!(lobby.len(), 1);
}

#[test]
fn disconnect_tears_the_player_down() {
    let mut lobby = Vec::new();
    let mut world = Vec::new();
    let mut next_id: u64 = 0;
    client_handler(&mut lobby, &mut world, &mut next_id, &ServerMessages::PlayerConnected {
        id: 77,
    });
    client_handler(&mut lobby, &mut world, &mut next_id, &ServerMessages::PlayerConnected {
        id: 88,
    });
    // the second client can see the first player
    lobby[1].scoped_entities.insert(0);
    let out = client_handler(
        &mut lobby,
        &mut world,
        &mut next_id,
        &ServerMessages::PlayerDisconnected { id: 77 },
    );
    assert_eq!(out.despawn, Some(DespawnEvent(0)));
    assert_eq!(out.notice, Some(ServerMessages::PlayerDisconnected { id: 77 }));
    assert_eq!(lobby.len(), 1);
    assert_eq!(lobby[0].id, 88);
    assert!(world.iter().all(|w| w.id != 0));
    // the departed player's entity leaves every remaining scoped set
    assert!(!lobby[0].scoped_entities.contains(&0));
    // a disconnect for an unknown id is ignored
    let none = client_handler(
        &mut lobby,
        &mut world,
        &mut next_id,
        &ServerMessages::PlayerDisconnected { id: 77 },
    );
    assert!(none.despawn.is_none());
}

#[test]
fn world_generation_layout() {
    let mut world = Vec::new();
    let mut next_id: u64 = 0;
    spawn_chunk(&mut world, &mut next_id, (0, 0, 0));
    assert_eq!(world.len(), (CHUNK_SIZE * CHUNK_SIZE) as usize);
    assert_eq!(next_id, (CHUNK_SIZE * CHUNK_SIZE) as u64);
    assert_eq!(world[0].tile, Tile::new((0, 0, 0)));
    assert_eq!(world[23].tile, Tile::new((2, 0, 3)));
    assert!(world.iter().all(|w| w.entity_type == EntityType::Tile));

    let mut full = Vec::new();
    let mut next: u64 = 0;
    create_tiles(&mut full, &mut next);
    // four chunks of floor plus the dividing wall
    assert_eq!(full.len(), 406);
    spawn_room(&mut full, &mut next);
    assert_eq!(full.len(), 460);
    for w in &full[406..] {
        let t = w.tile;
        assert_eq!(t.cell.1, 0);
        assert!(
            t.cell.0 == 0
                || t.cell.0 == ROOM_SIZE - 1
                || t.cell.2 == 0
                || t.cell.2 == ROOM_SIZE - 1
        );
    }
    // the two gaps hold the closed horizontal door and the vertical door
    let doors: Vec<_> = full[406..]
        .iter()
        .filter(|w| matches!(w.entity_type, EntityType::Door(_)))
        .collect();
    assert_eq!(doors.len(), 2);
    assert_eq!(doors[0].tile, Tile::new((13, 0, 6)));
    assert_eq!(doors[0].open_state, Some(OpenState::Closed));
    assert_eq!(doors[1].tile, Tile::new((6, 0, 13)));
    let slime_event = spawn_slime(&mut full, &mut next);
    assert_eq!(slime_event.tile, Tile::new((4, 0, 4)));
    let dummy_event = spawn_dummy(&mut full, &mut next);
    assert_eq!(dummy_event.tile, Tile::new((1, 0, 1)));
    assert_eq!(dummy_event.entity, next - 1);
}

#[test]
fn random_draws_stay_below_the_bound() {
    for _ in 0..100 {
        assert!(random_below(4) < 4);
        assert!(random_below(1) == 0);
        assert!(random_below(10) < 10);
    }
}

#[test]
fn scoped_server_events_reach_only_watching_clients() {
    let world = vec![WorldEntity::bare(4, EntityType::Tile, Tile::new((3, 0, 3)))];
    let mut near = Client::new(10, Scope::get(Tile::new((0, 0, 0))), 4);
    create_scope(&mut near, &world);
    let far = Client::new(20, Scope::get(Tile::new((100, 0, 100))), 4);
    let clients = vec![near, far];
    let out = send_open_event(&clients, &OpenEvent { entity: 4 });
    assert_eq!(out, vec![(10, ServerEvents::OpenEvent(OpenEvent { entity: 4 }))]);
}

#[test]
fn attack_click_sets_target_and_engages_the_mob() {
    let mut world = vec![
        WorldEntity::bare(1, EntityType::Tile, Tile::new((0, 0, 0))),
        WorldEntity::bare(2, EntityType::Slime(Slime), Tile::new((5, 0, 5))),
    ];
    let mut lobby = vec![Client::new(77, Scope::get(Tile::new((0, 0, 0))), 1)];
    let mut changed = Vec::new();
    let despawn = left_click(
        &mut lobby,
        &mut world,
        &mut changed,
        &LeftClickEvent {
            client_id: 77,
            left_click: LeftClick::Attack(2),
            tile: Tile::new((5, 0, 5)),
        },
    );
    assert!(despawn.is_none());
    assert_eq!(world[0].target, Some(gridcore::components::Target(Some(2))));
    assert!(matches!(world[1].mob_state, Some(MobState::Combat(1))));
    assert_eq!(
        changed,
        vec![(1, ComponentType::Target(gridcore::components::Target(Some(2))))]
    );
}
