use gridcore::client_state::{ClientLobby, ClientState};
use gridcore::components::{
    ComponentType, DespawnEvent, Dummy, EntityType, Health, ServerMessages, Slime, SpawnEvent,
    Target, Tick, TickEvent, UpdateEvent,
};
use gridcore::tile::Tile;

fn spawn_of(entity: u64) -> SpawnEvent {
    SpawnEvent { entity, entity_type: EntityType::Slime(Slime), tile: Tile::new((4, 0, 4)) }
}

#[test]
fn spawn_materializes_unknown_id() {
    let mut cs = ClientState::new();
    let appeared = cs.apply_spawn(&spawn_of(900));
    let ev = appeared.expect("a fresh server id must raise a notification");
    assert_eq!(ev.entity, 0);
    assert_eq!(ev.entity_type, EntityType::Slime(Slime));
    assert_eq!(ev.tile, Tile::new((4, 0, 4)));
    assert_eq!(cs.network_mapping.get_client(900), Some(0));
    assert_eq!(cs.network_mapping.get_server(0), Some(900));
}

#[test]
fn replayed_spawn_is_a_no_op() {
    let mut cs = ClientState::new();
    let first = cs.apply_spawn(&spawn_of(900));
    assert!(first.is_some());
    let local_before = cs.network_mapping.get_client(900);
    // replaying an already-applied spawn changes no client-side state and
    // raises no duplicate notification
    let replay = cs.apply_spawn(&spawn_of(900));
    assert!(replay.is_none());
    assert_eq!(cs.network_mapping.get_client(900), local_before);
    let third = cs.apply_spawn(&SpawnEvent {
        entity: 900,
        entity_type: EntityType::Dummy(Dummy),
        tile: Tile::new((9, 0, 9)),
    });
    assert!(third.is_none());
    assert_eq!(cs.network_mapping.get_client(900), local_before);
}

#[test]
fn load_snapshot_is_idempotent_per_entry() {
    let mut cs = ClientState::new();
    let items = vec![
        (900u64, EntityType::Slime(Slime), Tile::new((4, 0, 4))),
        (901u64, EntityType::Dummy(Dummy), Tile::new((1, 0, 1))),
        (900u64, EntityType::Slime(Slime), Tile::new((4, 0, 4))),
    ];
    let appeared = cs.apply_load(&items);
    assert_eq!(appeared.len(), 2);
    assert_eq!(appeared[0].entity, 0);
    assert_eq!(appeared[1].entity, 1);
    assert!(cs.network_mapping.contains_server(900));
    assert!(cs.network_mapping.contains_server(901));
}

#[test]
fn update_for_unknown_entity_is_dropped() {
    let cs = ClientState::new();
    let out = cs.apply_update(&UpdateEvent {
        entity: 900,
        component: ComponentType::Health(Health { hp: 10 }),
    });
    assert!(out.is_none());
}

#[test]
fn update_translates_ids_at_the_boundary() {
    let mut cs = ClientState::new();
    cs.apply_spawn(&spawn_of(900));
    cs.apply_spawn(&spawn_of(901));
    let out = cs
        .apply_update(&UpdateEvent {
            entity: 900,
            component: ComponentType::Target(Target(Some(901))),
        })
        .expect("a known entity must raise an update");
    assert_eq!(out.entity, 0);
    assert_eq!(out.component, ComponentType::Target(Target(Some(1))));
    // a plain component passes through untranslated
    let plain = cs
        .apply_update(&UpdateEvent {
            entity: 901,
            component: ComponentType::Health(Health { hp: 42 }),
        })
        .unwrap();
    assert_eq!(plain.entity, 1);
    assert_eq!(plain.component, ComponentType::Health(Health { hp: 42 }));
}

#[test]
fn update_drops_only_the_stale_embedded_reference() {
    let mut cs = ClientState::new();
    cs.apply_spawn(&spawn_of(900));
    let out = cs
        .apply_update(&UpdateEvent {
            entity: 900,
            component: ComponentType::Target(Target(Some(555))),
        })
        .expect("the update itself is kept");
    assert_eq!(out.component, ComponentType::Target(Target(None)));
}

#[test]
fn despawn_removes_both_directions() {
    let mut cs = ClientState::new();
    cs.apply_spawn(&spawn_of(900));
    let removed = cs.apply_despawn(&DespawnEvent(900));
    assert_eq!(removed, Some(0));
    assert_eq!(cs.network_mapping.get_client(900), None);
    assert_eq!(cs.network_mapping.get_server(0), None);
    assert_eq!(cs.apply_despawn(&DespawnEvent(900)), None);
}

#[test]
fn tick_broadcast_mirrors_the_server_clock() {
    let mut cs = ClientState::new();
    cs.apply_tick(&TickEvent(Tick { tick: 77 }));
    assert_eq!(cs.tick, Tick { tick: 77 });
}

#[test]
fn lobby_tracks_connection_notices() {
    let mut lobby = ClientLobby::new();
    lobby.apply_server_message(ServerMessages::PlayerConnected { id: 12 });
    assert!(lobby.clients.contains_key(&12));
    lobby.apply_server_message(ServerMessages::PlayerDisconnected { id: 12 });
    assert!(!lobby.clients.contains_key(&12));
}
