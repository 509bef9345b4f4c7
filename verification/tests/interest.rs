use gridcore::components::{DespawnEvent, EntityType, Slime, SpawnEvent, SyncEvent};
use gridcore::interest::{client_transitions, create_scope, entered_left_scope, send_chunk, Client};
use gridcore::scope::Scope;
use gridcore::tile::Tile;
use gridcore::world::WorldEntity;

fn player_at(id: u64, tile: Tile) -> WorldEntity {
    WorldEntity::bare(id, EntityType::Tile, tile)
}

fn slime_at(id: u64, tile: Tile) -> WorldEntity {
    WorldEntity::bare(id, EntityType::Slime(Slime), tile)
}

#[test]
fn create_scope_populates_without_events() {
    let world = vec![
        player_at(1, Tile::new((0, 0, 0))),
        slime_at(2, Tile::new((5, 0, 5))),
        slime_at(3, Tile::new((50, 0, 50))),
    ];
    let mut client = Client::new(10, Scope::get(Tile::new((0, 0, 0))), 1);
    create_scope(&mut client, &world);
    assert!(client.scoped_entities.contains(&1));
    assert!(client.scoped_entities.contains(&2));
    assert!(!client.scoped_entities.contains(&3));
}

#[test]
fn transitions_track_entity_movement() {
    // controlled entity 1 sits at the origin; entity 2 starts in scope
    let mut world = vec![
        player_at(1, Tile::new((0, 0, 0))),
        slime_at(2, Tile::new((5, 0, 5))),
    ];
    let mut client = Client::new(10, Scope::get(Tile::new((0, 0, 0))), 1);
    create_scope(&mut client, &world);
    // the slime wanders out of range (scope radius is 10)
    world[1].tile = Tile::new((40, 0, 40));
    let events = client_transitions(&mut client, &world);
    assert_eq!(events, vec![SyncEvent::Despawn(10, DespawnEvent(2))]);
    assert!(!client.scoped_entities.contains(&2));
    // it wanders back in
    world[1].tile = Tile::new((6, 0, 6));
    let events = client_transitions(&mut client, &world);
    assert_eq!(
        events,
        vec![SyncEvent::Spawn(
            10,
            SpawnEvent {
                entity: 2,
                entity_type: EntityType::Slime(Slime),
                tile: Tile::new((6, 0, 6)),
            },
        )]
    );
    assert!(client.scoped_entities.contains(&2));
}

#[test]
fn scope_recenters_on_the_controlled_entity() {
    let mut world = vec![
        player_at(1, Tile::new((0, 0, 0))),
        slime_at(2, Tile::new((25, 0, 25))),
    ];
    let mut client = Client::new(10, Scope::get(Tile::new((0, 0, 0))), 1);
    create_scope(&mut client, &world);
    assert!(!client.scoped_entities.contains(&2));
    // the controlled entity walks toward the slime; scope recomputation and
    // transition detection happen in the same pass
    world[0].tile = Tile::new((20, 0, 20));
    let events = client_transitions(&mut client, &world);
    assert_eq!(client.scope.top_left.cell, (30, 0, 30));
    assert_eq!(client.scope.bottom_right.cell, (10, 0, 10));
    assert!(client.scoped_entities.contains(&2));
    // the controlled entity sits inside its own recentered scope
    assert!(client.scoped_entities.contains(&1));
    assert_eq!(
        events,
        vec![SyncEvent::Spawn(
            10,
            SpawnEvent {
                entity: 2,
                entity_type: EntityType::Slime(Slime),
                tile: Tile::new((25, 0, 25)),
            },
        )]
    );
}

#[test]
fn spawn_routes_only_to_clients_with_the_tile_in_scope() {
    // client A anchored at the origin, client B far away
    let mut world = vec![
        player_at(1, Tile::new((0, 0, 0))),
        player_at(2, Tile::new((100, 0, 100))),
    ];
    let mut clients = vec![
        Client::new(10, Scope::get(Tile::new((0, 0, 0))), 1),
        Client::new(20, Scope::get(Tile::new((100, 0, 100))), 2),
    ];
    create_scope(&mut clients[0], &world);
    create_scope(&mut clients[1], &world);
    // the server spawns entity 7 at (2,0,2): inside A's scope, outside B's
    world.push(slime_at(7, Tile::new((2, 0, 2))));
    let events = entered_left_scope(&mut clients, &world);
    let spawn_a = SyncEvent::Spawn(
        10,
        SpawnEvent { entity: 7, entity_type: EntityType::Slime(Slime), tile: Tile::new((2, 0, 2)) },
    );
    assert!(events.contains(&spawn_a));
    assert!(events.iter().all(|e| match e {
        SyncEvent::Spawn(cid, se) => !(*cid == 20 && se.entity == 7),
        _ => true,
    }));
    assert!(clients[0].scoped_entities.contains(&7));
    assert!(!clients[1].scoped_entities.contains(&7));
    // entity 7 then moves inside B's scope and outside A's: in the same
    // transition pass A gets its despawn and B its spawn
    let idx = world.iter().position(|w| w.id == 7).unwrap();
    world[idx].tile = Tile::new((95, 0, 95));
    let events = entered_left_scope(&mut clients, &world);
    assert!(events.contains(&SyncEvent::Despawn(10, DespawnEvent(7))));
    assert!(events.contains(&SyncEvent::Spawn(
        20,
        SpawnEvent {
            entity: 7,
            entity_type: EntityType::Slime(Slime),
            tile: Tile::new((95, 0, 95)),
        },
    )));
    assert!(!clients[0].scoped_entities.contains(&7));
    assert!(clients[1].scoped_entities.contains(&7));
}

#[test]
fn chunk_holds_exactly_the_scoped_triples() {
    let world = vec![
        player_at(1, Tile::new((0, 0, 0))),
        slime_at(2, Tile::new((5, 0, 5))),
        slime_at(3, Tile::new((50, 0, 50))),
    ];
    let client = Client::new(10, Scope::get(Tile::new((0, 0, 0))), 1);
    let load = send_chunk(&world, &client);
    assert_eq!(
        load,
        vec![
            (1, EntityType::Tile, Tile::new((0, 0, 0))),
            (2, EntityType::Slime(Slime), Tile::new((5, 0, 5))),
        ]
    );
}
