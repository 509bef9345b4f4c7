//! The interest manager: per-client scope tracking and scope-membership
//! transition detection. Each tick, for every client, the scope is first
//! recomputed from the current tile of the entity the client controls,
//! and then every world entity is compared against it: entities that left
//! the scope are removed from the client's scoped set and produce a
//! despawn event, entities that entered are inserted and produce a spawn
//! event carrying their kind and tile.

use vstd::prelude::*;
use std::collections::HashSet;
use crate::components::{DespawnEvent, EntityType, SpawnEvent, SyncEvent};
use crate::scope::{scope_check, Scope, SCOPE_DISTANCE};
use crate::tile::Tile;
use crate::world::WorldEntity;

verus! {

broadcast use vstd::std_specs::hash::group_hash_axioms;

/// One per-connection record on the server: the connection id, the
/// client's current scope, the set of entity ids currently believed to be
/// in scope, and the entity this client controls.
pub struct Client {
    pub id: u64,
    pub scope: Scope,
    pub scoped_entities: HashSet<u64>,
    pub controlled_entity: u64,
}

/// No two world entities share an id.
pub open spec fn world_ids_unique(world: Seq<WorldEntity>) -> bool {
    forall|i: int, j: int|
        0 <= i < j < world.len() ==> (#[trigger] world[i]).id != (#[trigger] world[j]).id
}

/// Some world entity carries this id.
pub open spec fn world_has_id(world: Seq<WorldEntity>, id: u64) -> bool {
    exists|i: int| 0 <= i < world.len() && (#[trigger] world[i]).id == id
}

/// The id belongs to a world entity whose tile satisfies the scope.
pub open spec fn in_scope_at(world: Seq<WorldEntity>, scope: Scope, id: u64) -> bool {
    exists|i: int|
        0 <= i < world.len() && (#[trigger] world[i]).id == id && scope_check(
            scope,
            world[i].tile,
        )
}

/// The scope the client should have: derived from the current tile of its
/// controlled entity, or kept as is when that entity is not in the world.
pub open spec fn recomputed_scope(world: Seq<WorldEntity>, c: Client) -> Scope {
    if world_has_id(world, c.controlled_entity) {
        let i = choose|i: int|
            0 <= i < world.len() && (#[trigger] world[i]).id == c.controlled_entity;
        crate::scope::scope_at(world[i].tile, SCOPE_DISTANCE)
    } else {
        c.scope
    }
}

/// The events list holds a spawn of world entity `w` addressed to client
/// `cid`.
pub open spec fn spawn_event_for(events: Seq<SyncEvent>, cid: u64, w: WorldEntity) -> bool {
    exists|k: int|
        0 <= k < events.len() && events[k] == SyncEvent::Spawn(
            cid,
            SpawnEvent { entity: w.id, entity_type: w.entity_type, tile: w.tile },
        )
}

/// The events list holds a despawn of entity id `e` addressed to client
/// `cid`.
pub open spec fn despawn_event_for(events: Seq<SyncEvent>, cid: u64, e: u64) -> bool {
    exists|k: int|
        0 <= k < events.len() && events[k] == SyncEvent::Despawn(cid, DespawnEvent(e))
}

impl Client {
    /// Every id this client believes in scope belongs to a world entity.
    pub open spec fn scoped_wf(self, world: Seq<WorldEntity>) -> bool {
        forall|e: u64| #[trigger]
            self.scoped_entities@.contains(e) ==> world_has_id(world, e)
    }

    /// A fresh client record with an empty scoped set.
    pub fn new(id: u64, scope: Scope, controlled_entity: u64) -> (c: Client)
        ensures
            c.id == id,
            c.scope == scope,
            c.controlled_entity == controlled_entity,
            c.scoped_entities@ == Set::<u64>::empty(),
    {
        Client { id, scope, scoped_entities: HashSet::new(), controlled_entity }
    }
}

/// Find the tile of the world entity with this id, if any.
fn find_tile(world: &Vec<WorldEntity>, id: u64) -> (r: Option<Tile>)
    ensures
        r is Some <==> world_has_id(world@, id),
        r matches Some(t) ==> exists|i: int|
            0 <= i < world@.len() && (#[trigger] world@[i]).id == id && world@[i].tile == t,
{
    let mut i: usize = 0;
    while i < world.len()
        invariant
            i <= world@.len(),
            forall|j: int| 0 <= j < i ==> (#[trigger] world@[j]).id != id,
        decreases world@.len() - i,
    {
        if world[i].id == id {
            return Some(world[i].tile);
        }
        i = i + 1;
    }
    None
}

/// Populate a freshly created client's scoped set from its initial scope,
/// without emitting events: new clients receive the bulk load snapshot
/// instead of a burst of spawn messages.
pub fn create_scope(client: &mut Client, world: &Vec<WorldEntity>)
    ensures
        final(client).id == old(client).id,
        final(client).scope == old(client).scope,
        final(client).controlled_entity == old(client).controlled_entity,
        forall|e: u64|
            final(client).scoped_entities@.contains(e) <==> old(
                client,
            ).scoped_entities@.contains(e) || in_scope_at(world@, old(client).scope, e),
{
    let mut i: usize = 0;
    while i < world.len()
        invariant
            i <= world@.len(),
            client.id == old(client).id,
            client.scope == old(client).scope,
            client.controlled_entity == old(client).controlled_entity,
            forall|e: u64|
                client.scoped_entities@.contains(e) <==> old(client).scoped_entities@.contains(e)
                    || exists|j: int|
                    0 <= j < i && (#[trigger] world@[j]).id == e && scope_check(
                        old(client).scope,
                        world@[j].tile,
                    ),
        decreases world@.len() - i,
    {
        let e = world[i].id;
        if client.scope.check(&world[i].tile) && !client.scoped_entities.contains(&e) {
            client.scoped_entities.insert(e);
        }
        i = i + 1;
    }
}

/// Recompute one client's scope from its controlled entity's current tile,
/// then detect every scope-membership transition against the world: the
/// scoped set ends up exactly the set of world entities inside the new
/// scope, and one spawn or despawn event is produced for each entity that
/// entered or left.
pub fn client_transitions(client: &mut Client, world: &Vec<WorldEntity>) -> (events: Vec<
    SyncEvent,
>)
    requires
        world_ids_unique(world@),
        old(client).scoped_wf(world@),
    ensures
        final(client).id == old(client).id,
        final(client).controlled_entity == old(client).controlled_entity,
        final(client).scope == recomputed_scope(world@, *old(client)),
        final(client).scoped_wf(world@),
        forall|e: u64|
            final(client).scoped_entities@.contains(e) <==> in_scope_at(
                world@,
                final(client).scope,
                e,
            ),
        forall|i: int|
            0 <= i < world@.len() ==> (spawn_event_for(
                events@,
                old(client).id,
                #[trigger] world@[i],
            ) <==> scope_check(recomputed_scope(world@, *old(client)), world@[i].tile) && !old(
                client,
            ).scoped_entities@.contains(world@[i].id)),
        forall|e: u64|
            #[trigger] despawn_event_for(events@, old(client).id, e) <==> old(
                client,
            ).scoped_entities@.contains(e) && !in_scope_at(
                world@,
                recomputed_scope(world@, *old(client)),
                e,
            ),
        forall|k: int|
            0 <= k < events@.len() ==> match #[trigger] events@[k] {
                SyncEvent::Spawn(cid, se) => cid == old(client).id,
                SyncEvent::Despawn(cid, de) => cid == old(client).id,
                _ => false,
            },
        forall|k: int, l: int| 0 <= k < l < events@.len() ==> events@[k] != events@[l],
{
    match find_tile(world, client.controlled_entity) {
        Some(t) => {
            client.scope = Scope::get(t);
            proof {
                let i = choose|i: int|
                    0 <= i < world@.len() && (#[trigger] world@[i]).id
                        == client.controlled_entity && world@[i].tile == t;
                let j = choose|j: int|
                    0 <= j < world@.len() && (#[trigger] world@[j]).id
                        == client.controlled_entity;
                assert(i == j);
            }
        },
        None => {},
    }
    let ghost new_scope = client.scope;
    let ghost old_scoped = old(client).scoped_entities@;
    let ghost cid = client.id;
    let mut events: Vec<SyncEvent> = Vec::new();
    let mut i: usize = 0;
    while i < world.len()
        invariant
            i <= world@.len(),
            world_ids_unique(world@),
            client.id == old(client).id,
            client.id == cid,
            client.controlled_entity == old(client).controlled_entity,
            client.scope == new_scope,
            old_scoped == old(client).scoped_entities@,
            forall|e: u64|
                client.scoped_entities@.contains(e) <==> (exists|j: int|
                    0 <= j < i && (#[trigger] world@[j]).id == e && scope_check(
                        new_scope,
                        world@[j].tile,
                    )) || (old_scoped.contains(e) && !(exists|j: int|
                    0 <= j < i && (#[trigger] world@[j]).id == e)),
            forall|j: int|
                0 <= j < i ==> (spawn_event_for(events@, cid, #[trigger] world@[j]) <==>
                scope_check(new_scope, world@[j].tile) && !old_scoped.contains(world@[j].id)),
            forall|j: int|
                i <= j < world@.len() ==> !spawn_event_for(events@, cid, #[trigger] world@[j]),
            forall|e: u64|
                #[trigger] despawn_event_for(events@, cid, e) <==> (exists|j: int|
                    0 <= j < i && (#[trigger] world@[j]).id == e) && old_scoped.contains(e)
                    && !scope_check_of_id(world@, new_scope, e),
            forall|k: int|
                0 <= k < events@.len() ==> match #[trigger] events@[k] {
                    SyncEvent::Spawn(c, se) => c == cid,
                    SyncEvent::Despawn(c, de) => c == cid,
                    _ => false,
                },
            forall|k: int, l: int| 0 <= k < l < events@.len() ==> events@[k] != events@[l],
        decreases world@.len() - i,
    {
        let w = world[i];
        let e = w.id;
        let inside = client.scope.check(&w.tile);
        let member = client.scoped_entities.contains(&e);
        let ghost events0 = events@;
        if member && !inside {
            client.scoped_entities.remove(&e);
            events.push(SyncEvent::Despawn(client.id, DespawnEvent(e)));
            proof {
                assert(events@[events@.len() - 1] == SyncEvent::Despawn(cid, DespawnEvent(e)));
                assert(old_scoped.contains(e)) by {
                    if !old_scoped.contains(e) {
                        let j = choose|j: int|
                            0 <= j < i && (#[trigger] world@[j]).id == e && scope_check(
                                new_scope,
                                world@[j].tile,
                            );
                        assert(world@[j].id == world@[i as int].id);
                    }
                }
            }
        } else if !member && inside {
            client.scoped_entities.insert(e);
            events.push(
                SyncEvent::Spawn(
                    client.id,
                    SpawnEvent { entity: w.id, entity_type: w.entity_type, tile: w.tile },
                ),
            );
            proof {
                assert(events@[events@.len() - 1] == SyncEvent::Spawn(
                    cid,
                    SpawnEvent { entity: w.id, entity_type: w.entity_type, tile: w.tile },
                ));
            }
        }
        proof {
            lemma_events_extended(events0, events@, cid, world@, new_scope, old_scoped, i as int);
            // at most one event was pushed, and it was not in the list
            // before, so the events stay pairwise distinct
            assert forall|k: int, l: int|
                0 <= k < l < events@.len() implies events@[k] != events@[l] by {
                if l < events0.len() {
                    assert(events@[k] == events0[k] && events@[l] == events0[l]);
                } else {
                    assert(events@[k] == events0[k]);
                    if member && !inside {
                        assert(events@[l] == SyncEvent::Despawn(cid, DespawnEvent(e)));
                        if events0[k] == SyncEvent::Despawn(cid, DespawnEvent(e)) {
                            assert(despawn_event_for(events0, cid, e));
                            let j = choose|j: int| 0 <= j < i && (#[trigger] world@[j]).id == e;
                            assert(world@[j].id == world@[i as int].id);
                        }
                    } else {
                        assert(!member && inside);
                        assert(events@[l] == SyncEvent::Spawn(
                            cid,
                            SpawnEvent { entity: w.id, entity_type: w.entity_type, tile: w.tile },
                        ));
                        if events0[k] == events@[l] {
                            assert(spawn_event_for(events0, cid, world@[i as int]));
                        }
                    }
                }
            }
            let ghost set1 = client.scoped_entities@;
            // membership: forward direction at i + 1
            assert forall|e2: u64| set1.contains(e2) implies ((exists|j: int|
                0 <= j < i + 1 && (#[trigger] world@[j]).id == e2 && scope_check(
                    new_scope,
                    world@[j].tile,
                )) || (old_scoped.contains(e2) && !(exists|j: int|
                0 <= j < i + 1 && (#[trigger] world@[j]).id == e2))) by {
                if e2 == e {
                    if inside {
                        assert(world@[i as int].id == e2 && scope_check(
                            new_scope,
                            world@[i as int].tile,
                        ));
                    }
                } else {
                    if exists|j: int|
                        0 <= j < i && (#[trigger] world@[j]).id == e2 && scope_check(
                            new_scope,
                            world@[j].tile,
                        ) {
                        let j = choose|j: int|
                            0 <= j < i && (#[trigger] world@[j]).id == e2 && scope_check(
                                new_scope,
                                world@[j].tile,
                            );
                        assert(0 <= j < i + 1 && world@[j].id == e2 && scope_check(
                            new_scope,
                            world@[j].tile,
                        ));
                    } else {
                        assert(old_scoped.contains(e2));
                        assert forall|j: int|
                            0 <= j < i + 1 implies (#[trigger] world@[j]).id != e2 by {}
                    }
                }
            }
            // membership: backward direction at i + 1
            assert forall|e2: u64| ((exists|j: int|
                0 <= j < i + 1 && (#[trigger] world@[j]).id == e2 && scope_check(
                    new_scope,
                    world@[j].tile,
                )) || (old_scoped.contains(e2) && !(exists|j: int|
                0 <= j < i + 1 && (#[trigger] world@[j]).id == e2))) implies set1.contains(
                e2,
            ) by {
                if exists|j: int|
                    0 <= j < i + 1 && (#[trigger] world@[j]).id == e2 && scope_check(
                        new_scope,
                        world@[j].tile,
                    ) {
                    let j = choose|j: int|
                        0 <= j < i + 1 && (#[trigger] world@[j]).id == e2 && scope_check(
                            new_scope,
                            world@[j].tile,
                        );
                    if j == i as int {
                        assert(e2 == e && inside);
                    } else {
                        assert(0 <= j < i && world@[j].id == e2 && scope_check(
                            new_scope,
                            world@[j].tile,
                        ));
                        if e2 == e {
                            assert(world@[j].id == world@[i as int].id);
                            assert(false);
                        }
                    }
                } else {
                    assert(old_scoped.contains(e2) && world@[i as int].id != e2);
                }
            }
            // despawn events: forward direction at i + 1
            assert forall|e2: u64| #[trigger] despawn_event_for(events@, cid, e2) implies ((exists|
                j: int,
            |
                0 <= j < i + 1 && (#[trigger] world@[j]).id == e2) && old_scoped.contains(e2)
                && !scope_check_of_id(world@, new_scope, e2)) by {
                let k = choose|k: int|
                    0 <= k < events@.len() && events@[k] == SyncEvent::Despawn(
                        cid,
                        DespawnEvent(e2),
                    );
                if k < events0.len() {
                    assert(events0[k] == events@[k]);
                    assert(despawn_event_for(events0, cid, e2));
                    let j = choose|j: int| 0 <= j < i && (#[trigger] world@[j]).id == e2;
                    assert(0 <= j < i + 1 && world@[j].id == e2);
                } else {
                    assert(events@[k] == SyncEvent::Despawn(cid, DespawnEvent(e)));
                    assert(e2 == e);
                    assert(world@[i as int].id == e2);
                    assert(!scope_check_of_id(world@, new_scope, e2)) by {
                        if in_scope_at(world@, new_scope, e2) {
                            let j = choose|j: int|
                                0 <= j < world@.len() && (#[trigger] world@[j]).id == e2
                                    && scope_check(new_scope, world@[j].tile);
                            assert(j == i as int);
                        }
                    }
                }
            }
            // despawn events: backward direction at i + 1
            assert forall|e2: u64| ((exists|j: int|
                0 <= j < i + 1 && (#[trigger] world@[j]).id == e2) && old_scoped.contains(e2)
                && !scope_check_of_id(world@, new_scope, e2)) implies #[trigger] despawn_event_for(
                events@,
                cid,
                e2,
            ) by {
                let j = choose|j: int| 0 <= j < i + 1 && (#[trigger] world@[j]).id == e2;
                if j < i {
                    assert(despawn_event_for(events0, cid, e2));
                } else {
                    assert(e2 == e);
                    assert(member) by {
                        if exists|j2: int|
                            0 <= j2 < i && (#[trigger] world@[j2]).id == e2 && scope_check(
                                new_scope,
                                world@[j2].tile,
                            ) {
                            let j2 = choose|j2: int|
                                0 <= j2 < i && (#[trigger] world@[j2]).id == e2 && scope_check(
                                    new_scope,
                                    world@[j2].tile,
                                );
                            assert(world@[j2].id == world@[i as int].id);
                            assert(false);
                        }
                        assert forall|j2: int|
                            0 <= j2 < i implies (#[trigger] world@[j2]).id != e2 by {
                            if world@[j2].id == e2 {
                                assert(world@[j2].id == world@[i as int].id);
                            }
                        }
                    }
                    assert(!inside) by {
                        if inside {
                            assert(world@[i as int].id == e2 && scope_check(
                                new_scope,
                                world@[i as int].tile,
                            ));
                        }
                    }
                    assert(events@[events@.len() - 1] == SyncEvent::Despawn(
                        cid,
                        DespawnEvent(e2),
                    ));
                }
            }
            // spawn events: the settled prefix and the untouched suffix
            assert forall|j: int|
                0 <= j < i + 1 implies (spawn_event_for(events@, cid, #[trigger] world@[j]) <==>
                scope_check(new_scope, world@[j].tile) && !old_scoped.contains(
                    world@[j].id,
                )) by {
                if j == i as int {
                    if !member && inside {
                        assert(spawn_event_for(events@, cid, world@[j]));
                        assert(!old_scoped.contains(e)) by {
                            if old_scoped.contains(e) {
                                assert forall|j2: int|
                                    0 <= j2 < i implies (#[trigger] world@[j2]).id != e by {
                                    if world@[j2].id == e {
                                        assert(world@[j2].id == world@[i as int].id);
                                    }
                                }
                                assert(member);
                            }
                        }
                    } else {
                        if spawn_event_for(events@, cid, world@[j]) {
                            let k = choose|k: int|
                                0 <= k < events@.len() && events@[k] == SyncEvent::Spawn(
                                    cid,
                                    SpawnEvent {
                                        entity: world@[j].id,
                                        entity_type: world@[j].entity_type,
                                        tile: world@[j].tile,
                                    },
                                );
                            assert(k < events0.len());
                            assert(spawn_event_for(events0, cid, world@[j]));
                        }
                        if scope_check(new_scope, world@[j].tile) && !old_scoped.contains(e) {
                            assert(inside);
                            assert(member);
                            if exists|j2: int|
                                0 <= j2 < i && (#[trigger] world@[j2]).id == e && scope_check(
                                    new_scope,
                                    world@[j2].tile,
                                ) {
                                let j2 = choose|j2: int|
                                    0 <= j2 < i && (#[trigger] world@[j2]).id == e && scope_check(
                                        new_scope,
                                        world@[j2].tile,
                                    );
                                assert(world@[j2].id == world@[i as int].id);
                            }
                            assert(false);
                        }
                    }
                } else {
                    if spawn_event_for(events@, cid, world@[j]) && !(scope_check(
                        new_scope,
                        world@[j].tile,
                    ) && !old_scoped.contains(world@[j].id)) {
                        let k = choose|k: int|
                            0 <= k < events@.len() && events@[k] == SyncEvent::Spawn(
                                cid,
                                SpawnEvent {
                                    entity: world@[j].id,
                                    entity_type: world@[j].entity_type,
                                    tile: world@[j].tile,
                                },
                            );
                        if k < events0.len() {
                            assert(events0[k] == events@[k]);
                            assert(spawn_event_for(events0, cid, world@[j]));
                        } else {
                            assert(!member && inside);
                            assert(world@[j].id == world@[i as int].id);
                            assert(false);
                        }
                    }
                }
            }
            assert forall|j: int|
                i + 1 <= j < world@.len() implies !spawn_event_for(
                events@,
                cid,
                #[trigger] world@[j],
            ) by {
                if spawn_event_for(events@, cid, world@[j]) {
                    let k = choose|k: int|
                        0 <= k < events@.len() && events@[k] == SyncEvent::Spawn(
                            cid,
                            SpawnEvent {
                                entity: world@[j].id,
                                entity_type: world@[j].entity_type,
                                tile: world@[j].tile,
                            },
                        );
                    if k < events0.len() {
                        assert(events0[k] == events@[k]);
                        assert(spawn_event_for(events0, cid, world@[j]));
                    } else {
                        assert(!member && inside);
                        assert(world@[j].id == world@[i as int].id);
                    }
                }
            }
        }
        i = i + 1;
    }
    proof {
        assert forall|e: u64|
            client.scoped_entities@.contains(e) implies in_scope_at(world@, new_scope, e) by {
            if old_scoped.contains(e) {
                assert(world_has_id(world@, e));
            }
        }
        assert forall|e: u64| #[trigger]
            client.scoped_entities@.contains(e) implies world_has_id(world@, e) by {
            assert(in_scope_at(world@, new_scope, e));
            let j = choose|j: int|
                0 <= j < world@.len() && (#[trigger] world@[j]).id == e && scope_check(
                    new_scope,
                    world@[j].tile,
                );
        }
        assert forall|e: u64|
            in_scope_at(world@, new_scope, e) implies client.scoped_entities@.contains(e) by {
            let j = choose|j: int|
                0 <= j < world@.len() && (#[trigger] world@[j]).id == e && scope_check(
                    new_scope,
                    world@[j].tile,
                );
            if old_scoped.contains(e) {
                assert(world_has_id(world@, e));
            }
        }
        assert forall|e: u64|
            #[trigger] despawn_event_for(events@, cid, e) implies old_scoped.contains(e)
            && !in_scope_at(world@, new_scope, e) by {
            assert(!scope_check_of_id(world@, new_scope, e));
        }
        assert forall|e: u64|
            old_scoped.contains(e) && !in_scope_at(world@, new_scope, e) implies despawn_event_for(
            events@,
            cid,
            e,
        ) by {
            assert(world_has_id(world@, e));
            assert(!scope_check_of_id(world@, new_scope, e));
        }
    }
    events
}

/// No two clients share a connection id.
pub open spec fn client_ids_unique(clients: Seq<Client>) -> bool {
    forall|i: int, j: int|
        0 <= i < j < clients.len() ==> (#[trigger] clients[i]).id != (#[trigger] clients[j]).id
}

/// Run the per-tick transition pass for every client, in connection
/// order: each client's scope is recomputed and its scoped set becomes
/// exactly the set of world entities inside the new scope; the returned
/// events hold, for each client, one spawn per entity that entered its
/// scope and one despawn per entity that left it, and nothing else.
pub fn entered_left_scope(clients: &mut Vec<Client>, world: &Vec<WorldEntity>) -> (events: Vec<
    SyncEvent,
>)
    requires
        world_ids_unique(world@),
        client_ids_unique(old(clients)@),
        forall|ci: int|
            0 <= ci < old(clients)@.len() ==> (#[trigger] old(clients)@[ci]).scoped_wf(world@),
    ensures
        final(clients)@.len() == old(clients)@.len(),
        forall|ci: int|
            0 <= ci < old(clients)@.len() ==> {
                let oc = old(clients)@[ci];
                let nc = #[trigger] final(clients)@[ci];
                &&& nc.id == oc.id
                &&& nc.controlled_entity == oc.controlled_entity
                &&& nc.scope == recomputed_scope(world@, oc)
                &&& nc.scoped_wf(world@)
                &&& forall|e: u64|
                    nc.scoped_entities@.contains(e) <==> in_scope_at(world@, nc.scope, e)
            },
        client_ids_unique(final(clients)@),
        forall|ci: int, i: int|
            0 <= ci < old(clients)@.len() && 0 <= i < world@.len() ==> (spawn_event_for(
                events@,
                (#[trigger] old(clients)@[ci]).id,
                #[trigger] world@[i],
            ) <==> scope_check(recomputed_scope(world@, old(clients)@[ci]), world@[i].tile)
                && !old(clients)@[ci].scoped_entities@.contains(world@[i].id)),
        forall|ci: int, e: u64|
            0 <= ci < old(clients)@.len() ==> (#[trigger] despawn_event_for(
                events@,
                old(clients)@[ci].id,
                e,
            ) <==> old(clients)@[ci].scoped_entities@.contains(e) && !in_scope_at(
                world@,
                recomputed_scope(world@, old(clients)@[ci]),
                e,
            )),
        forall|k: int, l: int| 0 <= k < l < events@.len() ==> events@[k] != events@[l],
{
    let ghost orig = old(clients)@;
    let mut done: Vec<Client> = Vec::new();
    let mut events: Vec<SyncEvent> = Vec::new();
    while clients.len() > 0
        invariant
            world_ids_unique(world@),
            client_ids_unique(orig),
            forall|ci: int| 0 <= ci < orig.len() ==> (#[trigger] orig[ci]).scoped_wf(world@),
            done@.len() + clients@.len() == orig.len(),
            clients@ == orig.subrange(done@.len() as int, orig.len() as int),
            forall|ci: int|
                0 <= ci < done@.len() ==> {
                    let oc = orig[ci];
                    let nc = #[trigger] done@[ci];
                    &&& nc.id == oc.id
                    &&& nc.controlled_entity == oc.controlled_entity
                    &&& nc.scope == recomputed_scope(world@, oc)
                    &&& nc.scoped_wf(world@)
                    &&& forall|e: u64|
                        nc.scoped_entities@.contains(e) <==> in_scope_at(world@, nc.scope, e)
                },
            forall|ci: int, i: int|
                0 <= ci < done@.len() && 0 <= i < world@.len() ==> (spawn_event_for(
                    events@,
                    (#[trigger] orig[ci]).id,
                    #[trigger] world@[i],
                ) <==> scope_check(recomputed_scope(world@, orig[ci]), world@[i].tile)
                    && !orig[ci].scoped_entities@.contains(world@[i].id)),
            forall|ci: int, e: u64|
                0 <= ci < done@.len() ==> (#[trigger] despawn_event_for(
                    events@,
                    orig[ci].id,
                    e,
                ) <==> orig[ci].scoped_entities@.contains(e) && !in_scope_at(
                    world@,
                    recomputed_scope(world@, orig[ci]),
                    e,
                )),
            forall|k: int|
                0 <= k < events@.len() ==> match #[trigger] events@[k] {
                    SyncEvent::Spawn(c, se) => exists|ci: int|
                        0 <= ci < done@.len() && (#[trigger] orig[ci]).id == c,
                    SyncEvent::Despawn(c, de) => exists|ci: int|
                        0 <= ci < done@.len() && (#[trigger] orig[ci]).id == c,
                    _ => false,
                },
            forall|k: int, l: int| 0 <= k < l < events@.len() ==> events@[k] != events@[l],
        decreases clients@.len(),
    {
        let ghost p = done@.len() as int;
        let mut c = clients.remove(0);
        proof {
            assert(c == orig[p]);
            assert(c.scoped_wf(world@));
        }
        let mut evs = client_transitions(&mut c, world);
        let ghost evs_view = evs@;
        let ghost events0 = events@;
        done.push(c);
        events.append(&mut evs);
        proof {
            assert(events@ == events0 + evs_view);
            assert(clients@ =~= orig.subrange(p + 1, orig.len() as int));
            // earlier clients keep their event characterizations
            assert forall|ci: int, i: int|
                0 <= ci < p + 1 && 0 <= i < world@.len() implies (spawn_event_for(
                events@,
                (#[trigger] orig[ci]).id,
                #[trigger] world@[i],
            ) <==> scope_check(recomputed_scope(world@, orig[ci]), world@[i].tile)
                && !orig[ci].scoped_entities@.contains(world@[i].id)) by {
                let cid = orig[ci].id;
                let w = world@[i];
                let se = SpawnEvent { entity: w.id, entity_type: w.entity_type, tile: w.tile };
                if ci < p {
                    if spawn_event_for(events0, cid, w) {
                        let k = choose|k: int|
                            0 <= k < events0.len() && events0[k] == SyncEvent::Spawn(cid, se);
                        assert(events@[k] == SyncEvent::Spawn(cid, se));
                    }
                    if spawn_event_for(events@, cid, w) {
                        let k = choose|k: int|
                            0 <= k < events@.len() && events@[k] == SyncEvent::Spawn(cid, se);
                        if k >= events0.len() {
                            assert(evs_view[k - events0.len()] == SyncEvent::Spawn(cid, se));
                            assert(orig[p].id == cid);
                            assert(false);
                        } else {
                            assert(events0[k] == SyncEvent::Spawn(cid, se));
                        }
                    }
                } else {
                    if spawn_event_for(evs_view, cid, w) {
                        let k = choose|k: int|
                            0 <= k < evs_view.len() && evs_view[k] == SyncEvent::Spawn(cid, se);
                        assert(events@[events0.len() + k] == SyncEvent::Spawn(cid, se));
                    }
                    if spawn_event_for(events@, cid, w) {
                        let k = choose|k: int|
                            0 <= k < events@.len() && events@[k] == SyncEvent::Spawn(cid, se);
                        if k < events0.len() {
                            assert(events0[k] == SyncEvent::Spawn(cid, se));
                            let cj = choose|cj: int|
                                0 <= cj < p && (#[trigger] orig[cj]).id == cid;
                            assert(false);
                        } else {
                            assert(evs_view[k - events0.len()] == SyncEvent::Spawn(cid, se));
                            assert(spawn_event_for(evs_view, cid, w));
                        }
                    }
                }
            }
            assert forall|ci: int, e: u64|
                0 <= ci < p + 1 implies (#[trigger] despawn_event_for(events@, orig[ci].id, e)
                <==> orig[ci].scoped_entities@.contains(e) && !in_scope_at(
                world@,
                recomputed_scope(world@, orig[ci]),
                e,
            )) by {
                let cid = orig[ci].id;
                if ci < p {
                    if despawn_event_for(events0, cid, e) {
                        let k = choose|k: int|
                            0 <= k < events0.len() && events0[k] == SyncEvent::Despawn(
                                cid,
                                DespawnEvent(e),
                            );
                        assert(events@[k] == SyncEvent::Despawn(cid, DespawnEvent(e)));
                    }
                    if despawn_event_for(events@, cid, e) {
                        let k = choose|k: int|
                            0 <= k < events@.len() && events@[k] == SyncEvent::Despawn(
                                cid,
                                DespawnEvent(e),
                            );
                        if k >= events0.len() {
                            assert(evs_view[k - events0.len()] == SyncEvent::Despawn(
                                cid,
                                DespawnEvent(e),
                            ));
                            assert(orig[p].id == cid);
                            assert(false);
                        } else {
                            assert(events0[k] == SyncEvent::Despawn(cid, DespawnEvent(e)));
                        }
                    }
                } else {
                    if despawn_event_for(evs_view, cid, e) {
                        let k = choose|k: int|
                            0 <= k < evs_view.len() && evs_view[k] == SyncEvent::Despawn(
                                cid,
                                DespawnEvent(e),
                            );
                        assert(events@[events0.len() + k] == SyncEvent::Despawn(
                            cid,
                            DespawnEvent(e),
                        ));
                    }
                    if despawn_event_for(events@, cid, e) {
                        let k = choose|k: int|
                            0 <= k < events@.len() && events@[k] == SyncEvent::Despawn(
                                cid,
                                DespawnEvent(e),
                            );
                        if k < events0.len() {
                            assert(events0[k] == SyncEvent::Despawn(cid, DespawnEvent(e)));
                            let cj = choose|cj: int|
                                0 <= cj < p && (#[trigger] orig[cj]).id == cid;
                            assert(false);
                        } else {
                            assert(evs_view[k - events0.len()] == SyncEvent::Despawn(
                                cid,
                                DespawnEvent(e),
                            ));
                            assert(despawn_event_for(evs_view, cid, e));
                        }
                    }
                }
            }
            assert forall|k: int|
                0 <= k < events@.len() implies match #[trigger] events@[k] {
                SyncEvent::Spawn(c2, se) => exists|ci: int|
                    0 <= ci < p + 1 && (#[trigger] orig[ci]).id == c2,
                SyncEvent::Despawn(c2, de) => exists|ci: int|
                    0 <= ci < p + 1 && (#[trigger] orig[ci]).id == c2,
                _ => false,
            } by {
                if k < events0.len() {
                    assert(events@[k] == events0[k]);
                } else {
                    assert(events@[k] == evs_view[k - events0.len()]);
                    assert(orig[p].id == orig[p].id);
                }
            }
            // earlier clients' events carry earlier connection ids, and the
            // appended client's events are pairwise distinct themselves, so
            // the whole list stays pairwise distinct
            assert forall|k: int, l: int|
                0 <= k < l < events@.len() implies events@[k] != events@[l] by {
                if l < events0.len() {
                    assert(events@[k] == events0[k] && events@[l] == events0[l]);
                } else if k >= events0.len() {
                    assert(events@[k] == evs_view[k - events0.len()]);
                    assert(events@[l] == evs_view[l - events0.len()]);
                } else {
                    assert(events@[k] == events0[k]);
                    assert(events@[l] == evs_view[l - events0.len()]);
                    if events@[k] == events@[l] {
                        match events0[k] {
                            SyncEvent::Spawn(c2, se) => {
                                let cj = choose|cj: int|
                                    0 <= cj < p && (#[trigger] orig[cj]).id == c2;
                                assert(orig[cj].id != orig[p].id);
                                assert(match evs_view[l - events0.len()] {
                                    SyncEvent::Spawn(c3, se3) => c3 == orig[p].id,
                                    SyncEvent::Despawn(c3, de3) => c3 == orig[p].id,
                                    _ => false,
                                });
                            },
                            SyncEvent::Despawn(c2, de) => {
                                let cj = choose|cj: int|
                                    0 <= cj < p && (#[trigger] orig[cj]).id == c2;
                                assert(orig[cj].id != orig[p].id);
                                assert(match evs_view[l - events0.len()] {
                                    SyncEvent::Spawn(c3, se3) => c3 == orig[p].id,
                                    SyncEvent::Despawn(c3, de3) => c3 == orig[p].id,
                                    _ => false,
                                });
                            },
                            _ => {},
                        }
                    }
                }
            }
        }
    }
    proof {
        assert(done@.len() == orig.len());
    }
    *clients = done;
    events
}

/// The triple appears in the load snapshot.
pub open spec fn loaded(load: Seq<(u64, EntityType, Tile)>, w: WorldEntity) -> bool {
    exists|k: int| 0 <= k < load.len() && load[k] == (w.id, w.entity_type, w.tile)
}

/// The triple is the record of some world entity inside the scope.
pub open spec fn load_entry_ok(
    world: Seq<WorldEntity>,
    scope: Scope,
    entry: (u64, EntityType, Tile),
) -> bool {
    exists|i: int|
        0 <= i < world.len() && {
            let w = #[trigger] world[i];
            entry == (w.id, w.entity_type, w.tile) && scope_check(scope, w.tile)
        }
}

/// The load snapshot for a scope, as a value: the `(id, kind, tile)`
/// triples of the world entities inside the scope, in world order.
pub open spec fn spec_send_chunk(world: Seq<WorldEntity>, scope: Scope) -> Seq<
    (u64, EntityType, Tile),
>
    decreases world.len(),
{
    if world.len() == 0 {
        Seq::<(u64, EntityType, Tile)>::empty()
    } else {
        let w = world[0];
        let rest = spec_send_chunk(world.drop_first(), scope);
        if scope_check(scope, w.tile) {
            seq![(w.id, w.entity_type, w.tile)] + rest
        } else {
            rest
        }
    }
}

/// Snapshotting one more entity after a processed prefix equals
/// snapshotting the extended prefix.
proof fn lemma_send_chunk_snoc(world: Seq<WorldEntity>, scope: Scope, w: WorldEntity)
    ensures
        spec_send_chunk(world.push(w), scope) == spec_send_chunk(world, scope) + (if scope_check(
            scope,
            w.tile,
        ) {
            seq![(w.id, w.entity_type, w.tile)]
        } else {
            Seq::<(u64, EntityType, Tile)>::empty()
        }),
    decreases world.len(),
{
    reveal_with_fuel(spec_send_chunk, 3);
    let pushed = world.push(w);
    if world.len() == 0 {
        assert(pushed[0] == w);
        assert(pushed.drop_first() =~= Seq::<WorldEntity>::empty());
        if scope_check(scope, w.tile) {
            assert(seq![(w.id, w.entity_type, w.tile)] + Seq::<(u64, EntityType, Tile)>::empty()
                =~= Seq::<(u64, EntityType, Tile)>::empty() + seq![(w.id, w.entity_type, w.tile)]);
        } else {
            assert(Seq::<(u64, EntityType, Tile)>::empty() + Seq::<(
                u64,
                EntityType,
                Tile,
            )>::empty() =~= Seq::<(u64, EntityType, Tile)>::empty());
        }
    } else {
        assert(pushed[0] == world[0]);
        assert(pushed.drop_first() =~= world.drop_first().push(w));
        lemma_send_chunk_snoc(world.drop_first(), scope, w);
        let rest = spec_send_chunk(world.drop_first(), scope);
        let head = world[0];
        let tail = if scope_check(scope, w.tile) {
            seq![(w.id, w.entity_type, w.tile)]
        } else {
            Seq::<(u64, EntityType, Tile)>::empty()
        };
        if scope_check(scope, head.tile) {
            assert((seq![(head.id, head.entity_type, head.tile)] + rest) + tail =~= seq![
                (head.id, head.entity_type, head.tile),
            ] + (rest + tail));
        }
    }
}

/// Collect the bulk load snapshot for one client: exactly the `(id, kind,
/// tile)` triples of the world entities inside the client's scope, in
/// world order (`spec_send_chunk`), and nothing else. This is the only
/// many-entities-per-message path; it is sent once over the chunked
/// reliable channel.
pub fn send_chunk(world: &Vec<WorldEntity>, client: &Client) -> (load: Vec<(u64, EntityType, Tile)>)
    ensures
        load@ == spec_send_chunk(world@, client.scope),
        forall|k: int|
            0 <= k < load@.len() ==> load_entry_ok(world@, client.scope, #[trigger] load@[k]),
        forall|i: int|
            0 <= i < world@.len() && scope_check(client.scope, (#[trigger] world@[i]).tile)
                ==> loaded(load@, world@[i]),
{
    let mut load: Vec<(u64, EntityType, Tile)> = Vec::new();
    let mut i: usize = 0;
    proof {
        assert(world@.subrange(0, 0) =~= Seq::<WorldEntity>::empty());
    }
    while i < world.len()
        invariant
            i <= world@.len(),
            load@ == spec_send_chunk(world@.subrange(0, i as int), client.scope),
            forall|k: int|
                0 <= k < load@.len() ==> load_entry_ok(world@, client.scope, #[trigger] load@[k]),
            forall|j: int|
                0 <= j < i && scope_check(client.scope, (#[trigger] world@[j]).tile) ==> loaded(
                    load@,
                    world@[j],
                ),
        decreases world@.len() - i,
    {
        let w = world[i];
        let ghost load0 = load@;
        if client.scope.check(&w.tile) {
            load.push((w.id, w.entity_type, w.tile));
            proof {
                assert(load@[load@.len() - 1] == (w.id, w.entity_type, w.tile));
                assert(world@[i as int] == w);
                assert(load_entry_ok(world@, client.scope, (w.id, w.entity_type, w.tile)));
            }
        }
        proof {
            lemma_send_chunk_snoc(world@.subrange(0, i as int), client.scope, w);
            assert(world@.subrange(0, i + 1) =~= world@.subrange(0, i as int).push(w));
            if scope_check(client.scope, w.tile) {
                assert(load@ =~= load0 + seq![(w.id, w.entity_type, w.tile)]);
            } else {
                assert(load@ =~= load0 + Seq::<(u64, EntityType, Tile)>::empty());
            }
        }
        proof {
            assert forall|j: int|
                0 <= j < i + 1 && scope_check(
                    client.scope,
                    (#[trigger] world@[j]).tile,
                ) implies loaded(load@, world@[j]) by {
                if j == i as int {
                    assert(load@[load@.len() - 1] == (world@[j].id, world@[j].entity_type,
                    world@[j].tile));
                } else {
                    let k = choose|k: int|
                        0 <= k < load0.len() && load0[k] == (
                            world@[j].id,
                            world@[j].entity_type,
                            world@[j].tile,
                        );
                    assert(load@[k] == (world@[j].id, world@[j].entity_type, world@[j].tile));
                }
            }
        }
        i = i + 1;
    }
    proof {
        assert(world@.subrange(0, world@.len() as int) =~= world@);
    }
    load
}

/// The id belongs to a world entity in scope; same as `in_scope_at`, under
/// a name the transition loop can maintain.
pub open spec fn scope_check_of_id(world: Seq<WorldEntity>, scope: Scope, e: u64) -> bool {
    in_scope_at(world, scope, e)
}

/// Pushing events for one more world entity keeps the event
/// characterizations of all earlier entities intact.
proof fn lemma_events_extended(
    before: Seq<SyncEvent>,
    after: Seq<SyncEvent>,
    cid: u64,
    world: Seq<WorldEntity>,
    scope: Scope,
    old_scoped: Set<u64>,
    i: int,
)
    requires
        before.len() <= after.len(),
        forall|k: int| 0 <= k < before.len() ==> #[trigger] after[k] == before[k],
    ensures
        forall|w: WorldEntity| spawn_event_for(before, cid, w) ==> spawn_event_for(after, cid, w),
        forall|e: u64| despawn_event_for(before, cid, e) ==> despawn_event_for(after, cid, e),
{
    assert forall|w: WorldEntity| spawn_event_for(before, cid, w) implies spawn_event_for(
        after,
        cid,
        w,
    ) by {
        let k = choose|k: int|
            0 <= k < before.len() && before[k] == SyncEvent::Spawn(
                cid,
                SpawnEvent { entity: w.id, entity_type: w.entity_type, tile: w.tile },
            );
        assert(after[k] == before[k]);
    }
    assert forall|e: u64| despawn_event_for(before, cid, e) implies despawn_event_for(
        after,
        cid,
        e,
    ) by {
        let k = choose|k: int|
            0 <= k < before.len() && before[k] == SyncEvent::Despawn(cid, DespawnEvent(e));
        assert(after[k] == before[k]);
    }
}

} // verus!
