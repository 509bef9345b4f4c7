//! The server's per-tick logic: the authoritative state, inbound command
//! resolution, component-change collection and the ordering guarantees of
//! the replication pipeline. Within one tick the stages run in a fixed
//! order: connection handling, scope recomputation and transition
//! detection, command resolution, change detection, send, clear.

use vstd::prelude::*;
use crate::components::{
    Action, CombatState, ComponentType, DespawnEvent, Health, LeftClick, OpenState, PlayerCommand,
    SpawnEvent, SyncEvent, Target, Tick, TickEvent, UpdateEvent,
};
use crate::interest::{
    client_ids_unique, despawn_event_for, entered_left_scope, in_scope_at,
    recomputed_scope, spawn_event_for, world_has_id, world_ids_unique, Client,
};
use crate::tile::Tile;
use crate::world::WorldEntity;

verus! {

broadcast use vstd::std_specs::hash::group_hash_axioms;

/// A decoded click command, queued between the receive stage and the
/// resolution stage of a server tick.
#[derive(Clone, Copy, Debug, PartialEq, Eq)]
pub struct LeftClickEvent {
    pub client_id: u64,
    pub left_click: LeftClick,
    pub tile: Tile,
}

/// A resolved combat action against one target.
#[derive(Clone, Copy, Debug, PartialEq, Eq, Structural)]
pub struct CombatEvent {
    pub action: Action,
    pub target: u64,
}

impl CombatEvent {
    /// Build a combat event from its parts.
    pub fn new(target: u64, action: Action) -> (e: CombatEvent)
        ensures
            e.target == target,
            e.action == action,
    {
        CombatEvent { action, target }
    }
}

/// The per-connection records the server keeps, one per connected client.
pub struct ServerLobby {
    pub clients: Vec<Client>,
}

impl ServerLobby {
    /// An empty lobby.
    pub fn new() -> (lobby: ServerLobby)
        ensures
            lobby.clients@.len() == 0,
    {
        ServerLobby { clients: Vec::new() }
    }
}

/// Advance the authoritative tick counter by one.
pub fn tick(t: &mut Tick)
    requires
        old(t).tick < u64::MAX,
    ensures
        final(t).tick == old(t).tick + 1,
{
    t.tick = t.tick + 1;
}

/// The tick broadcast payload, sent unreliably and sequenced.
pub fn send_tick(t: &Tick) -> (event: TickEvent)
    ensures
        event.0 == *t,
{
    TickEvent(*t)
}

/// The updates list holds an update of `(entity, component)` addressed to
/// client `cid`.
pub open spec fn update_event_for(
    events: Seq<SyncEvent>,
    cid: u64,
    entity: u64,
    component: ComponentType,
) -> bool {
    exists|k: int|
        0 <= k < events.len() && events[k] == SyncEvent::Update(
            cid,
            UpdateEvent { entity, component },
        )
}

/// For every client and every component mutation recorded this tick, emit
/// one update event exactly when the mutated entity is in that client's
/// scoped set. Distinct component kinds flow through this single function,
/// so ordering and semantics are uniform across kinds.
pub fn collect_updates(clients: &Vec<Client>, changed: &Vec<(u64, ComponentType)>) -> (updates:
    Vec<SyncEvent>)
    ensures
        forall|k: int|
            0 <= k < updates@.len() ==> match #[trigger] updates@[k] {
                SyncEvent::Update(cid, ue) => exists|ci: int|
                    0 <= ci < clients@.len() && {
                        let c = #[trigger] clients@[ci];
                        &&& c.id == cid
                        &&& c.scoped_entities@.contains(ue.entity)
                        &&& exists|m: int|
                            0 <= m < changed@.len() && #[trigger] changed@[m] == (
                                ue.entity,
                                ue.component,
                            )
                    },
                _ => false,
            },
        forall|ci: int, m: int|
            0 <= ci < clients@.len() && 0 <= m < changed@.len() && (
            #[trigger] clients@[ci]).scoped_entities@.contains((#[trigger] changed@[m]).0)
                ==> update_event_for(
                updates@,
                clients@[ci].id,
                changed@[m].0,
                changed@[m].1,
            ),
{
    let mut updates: Vec<SyncEvent> = Vec::new();
    let mut ci: usize = 0;
    while ci < clients.len()
        invariant
            ci <= clients@.len(),
            forall|k: int|
                0 <= k < updates@.len() ==> match #[trigger] updates@[k] {
                    SyncEvent::Update(cid, ue) => exists|cj: int|
                        0 <= cj < clients@.len() && {
                            let c = #[trigger] clients@[cj];
                            &&& c.id == cid
                            &&& c.scoped_entities@.contains(ue.entity)
                            &&& exists|m: int|
                                0 <= m < changed@.len() && #[trigger] changed@[m] == (
                                    ue.entity,
                                    ue.component,
                                )
                        },
                    _ => false,
                },
            forall|cj: int, m: int|
                0 <= cj < ci && 0 <= m < changed@.len() && (
                #[trigger] clients@[cj]).scoped_entities@.contains((#[trigger] changed@[m]).0)
                    ==> update_event_for(
                    updates@,
                    clients@[cj].id,
                    changed@[m].0,
                    changed@[m].1,
                ),
        decreases clients@.len() - ci,
    {
        let mut m: usize = 0;
        while m < changed.len()
            invariant
                ci < clients@.len(),
                m <= changed@.len(),
                forall|k: int|
                    0 <= k < updates@.len() ==> match #[trigger] updates@[k] {
                        SyncEvent::Update(cid, ue) => exists|cj: int|
                            0 <= cj < clients@.len() && {
                                let c = #[trigger] clients@[cj];
                                &&& c.id == cid
                                &&& c.scoped_entities@.contains(ue.entity)
                                &&& exists|m2: int|
                                    0 <= m2 < changed@.len() && #[trigger] changed@[m2] == (
                                        ue.entity,
                                        ue.component,
                                    )
                            },
                        _ => false,
                    },
                forall|cj: int, m2: int|
                    0 <= cj < ci && 0 <= m2 < changed@.len() && (
                    #[trigger] clients@[cj]).scoped_entities@.contains((#[trigger] changed@[m2]).0)
                        ==> update_event_for(
                        updates@,
                        clients@[cj].id,
                        changed@[m2].0,
                        changed@[m2].1,
                    ),
                forall|m2: int|
                    0 <= m2 < m && (#[trigger] clients@[ci as int]).scoped_entities@.contains(
                        (#[trigger] changed@[m2]).0,
                    ) ==> update_event_for(
                        updates@,
                        clients@[ci as int].id,
                        changed@[m2].0,
                        changed@[m2].1,
                    ),
            decreases changed@.len() - m,
        {
            let (entity, component) = changed[m];
            let ghost updates0 = updates@;
            if self_contains(&clients[ci], entity) {
                updates.push(
                    SyncEvent::Update(clients[ci].id, UpdateEvent { entity, component }),
                );
                proof {
                    assert(updates@[updates@.len() - 1] == SyncEvent::Update(
                        clients@[ci as int].id,
                        UpdateEvent { entity, component },
                    ));
                }
            }
            proof {
                assert forall|cj: int, m2: int|
                    0 <= cj < ci && 0 <= m2 < changed@.len() && (
                #[trigger] clients@[cj]).scoped_entities@.contains(
                    (#[trigger] changed@[m2]).0,
                ) implies update_event_for(
                    updates@,
                    clients@[cj].id,
                    changed@[m2].0,
                    changed@[m2].1,
                ) by {
                    let k = choose|k: int|
                        0 <= k < updates0.len() && updates0[k] == SyncEvent::Update(
                            clients@[cj].id,
                            UpdateEvent { entity: changed@[m2].0, component: changed@[m2].1 },
                        );
                    assert(updates@[k] == updates0[k]);
                }
                assert forall|m2: int|
                    0 <= m2 < m + 1 && (#[trigger] clients@[ci as int]).scoped_entities@.contains(
                        (#[trigger] changed@[m2]).0,
                    ) implies update_event_for(
                    updates@,
                    clients@[ci as int].id,
                    changed@[m2].0,
                    changed@[m2].1,
                ) by {
                    if m2 < m {
                        let k = choose|k: int|
                            0 <= k < updates0.len() && updates0[k] == SyncEvent::Update(
                                clients@[ci as int].id,
                                UpdateEvent { entity: changed@[m2].0, component: changed@[m2].1 },
                            );
                        assert(updates@[k] == updates0[k]);
                    } else {
                        assert(updates@[updates@.len() - 1] == SyncEvent::Update(
                            clients@[ci as int].id,
                            UpdateEvent { entity: changed@[m2].0, component: changed@[m2].1 },
                        ));
                    }
                }
            }
            m = m + 1;
        }
        ci = ci + 1;
    }
    updates
}

/// Membership test on one client's scoped set.
fn self_contains(client: &Client, entity: u64) -> (r: bool)
    ensures
        r == client.scoped_entities@.contains(entity),
{
    client.scoped_entities.contains(&entity)
}

/// One replication pass: scope transitions first, update collection
/// second, in the same tick. The returned pair is (transition events,
/// update events).
///
/// This function carries the pipeline's ordering guarantee: every update
/// it emits is addressed to a client whose scoped set contains the updated
/// entity *after* this tick's transition pass. Spawns and despawns travel
/// on a reliable channel, so a client observes no update for an entity
/// before its spawn (the entity was either already scoped in an earlier
/// tick, or its spawn event is among this tick's transition events, sent
/// ahead of the updates) and none after its despawn (an entity despawned
/// this tick has left the scoped set, so no update for it is emitted from
/// this tick on).
pub fn replication_tick(
    clients: &mut Vec<Client>,
    world: &Vec<WorldEntity>,
    changed: &Vec<(u64, ComponentType)>,
) -> (r: (Vec<SyncEvent>, Vec<SyncEvent>))
    requires
        world_ids_unique(world@),
        client_ids_unique(old(clients)@),
        forall|ci: int|
            0 <= ci < old(clients)@.len() ==> (#[trigger] old(clients)@[ci]).scoped_wf(world@),
    ensures
        final(clients)@.len() == old(clients)@.len(),
        client_ids_unique(final(clients)@),
        forall|ci: int|
            0 <= ci < old(clients)@.len() ==> {
                let oc = old(clients)@[ci];
                let nc = #[trigger] final(clients)@[ci];
                &&& nc.id == oc.id
                &&& nc.controlled_entity == oc.controlled_entity
                &&& nc.scope == recomputed_scope(world@, oc)
                &&& nc.scoped_wf(world@)
                &&& forall|e: u64|
                    nc.scoped_entities@.contains(e) <==> in_scope_at(world@, nc.scope, e)
            },
        // every update is for an entity scoped after the transition pass,
        // and its spawn either predates this tick or is in this tick's
        // transition events
        forall|k: int|
            0 <= k < r.1@.len() ==> match #[trigger] r.1@[k] {
                SyncEvent::Update(cid, ue) => exists|ci: int|
                    0 <= ci < final(clients)@.len() && {
                        let nc = #[trigger] final(clients)@[ci];
                        &&& nc.id == cid
                        &&& nc.scoped_entities@.contains(ue.entity)
                    },
                _ => false,
            },
        // every updated entity's spawn reaches the client no later than the
        // update: it was already scoped when the tick began, or its spawn is
        // among this tick's transition events
        forall|k: int|
            0 <= k < r.1@.len() ==> match #[trigger] r.1@[k] {
                SyncEvent::Update(cid, ue) => exists|ci: int, i: int|
                    0 <= ci < old(clients)@.len() && 0 <= i < world@.len() && {
                        let oc = #[trigger] old(clients)@[ci];
                        let w = #[trigger] world@[i];
                        &&& oc.id == cid
                        &&& w.id == ue.entity
                        &&& (oc.scoped_entities@.contains(ue.entity) || spawn_event_for(
                            r.0@,
                            cid,
                            w,
                        ))
                    },
                _ => false,
            },
        // no update is emitted for an entity despawned this tick
        forall|ci: int, e: u64, comp: ComponentType|
            #![trigger despawn_event_for(r.0@, old(clients)@[ci].id, e), update_event_for(r.1@, old(clients)@[ci].id, e, comp)]
            0 <= ci < old(clients)@.len() && despawn_event_for(r.0@, old(clients)@[ci].id, e)
                ==> !update_event_for(r.1@, old(clients)@[ci].id, e, comp),
{
    let events = entered_left_scope(clients, world);
    let updates = collect_updates(clients, changed);
    proof {
        assert forall|k: int|
            0 <= k < updates@.len() implies match #[trigger] updates@[k] {
            SyncEvent::Update(cid, ue) => exists|ci: int, i: int|
                0 <= ci < old(clients)@.len() && 0 <= i < world@.len() && {
                    let oc = #[trigger] old(clients)@[ci];
                    let w = #[trigger] world@[i];
                    &&& oc.id == cid
                    &&& w.id == ue.entity
                    &&& (oc.scoped_entities@.contains(ue.entity) || spawn_event_for(
                        events@,
                        cid,
                        w,
                    ))
                },
            _ => false,
        } by {
            match updates@[k] {
                SyncEvent::Update(cid, ue) => {
                    let cj = choose|cj: int|
                        0 <= cj < clients@.len() && {
                            let c = #[trigger] clients@[cj];
                            &&& c.id == cid
                            &&& c.scoped_entities@.contains(ue.entity)
                            &&& exists|m: int|
                                0 <= m < changed@.len() && #[trigger] changed@[m] == (
                                    ue.entity,
                                    ue.component,
                                )
                        };
                    assert(in_scope_at(world@, clients@[cj].scope, ue.entity));
                    let i = choose|i: int|
                        0 <= i < world@.len() && (#[trigger] world@[i]).id == ue.entity
                            && crate::scope::scope_check(clients@[cj].scope, world@[i].tile);
                    assert(clients@[cj].scope == recomputed_scope(world@, old(clients)@[cj]));
                    if !old(clients)@[cj].scoped_entities@.contains(ue.entity) {
                        assert(spawn_event_for(events@, cid, world@[i]));
                    }
                    assert(old(clients)@[cj].id == cid);
                },
                _ => {},
            }
        }
        assert forall|ci: int, e: u64, comp: ComponentType|
            #![trigger despawn_event_for(events@, old(clients)@[ci].id, e), update_event_for(updates@, old(clients)@[ci].id, e, comp)]
            0 <= ci < old(clients)@.len() && despawn_event_for(events@, old(clients)@[ci].id, e)
                implies !update_event_for(updates@, old(clients)@[ci].id, e, comp) by {
            let cid = old(clients)@[ci].id;
            if update_event_for(updates@, cid, e, comp) {
                let k = choose|k: int|
                    0 <= k < updates@.len() && updates@[k] == SyncEvent::Update(
                        cid,
                        UpdateEvent { entity: e, component: comp },
                    );
                let cj = choose|cj: int|
                    0 <= cj < clients@.len() && {
                        let c = #[trigger] clients@[cj];
                        &&& c.id == cid
                        &&& c.scoped_entities@.contains(e)
                        &&& exists|m: int|
                            0 <= m < changed@.len() && #[trigger] changed@[m] == (e, comp)
                    };
                assert(cj == ci) by {
                    if cj != ci {
                        assert(clients@[cj].id == old(clients)@[cj].id);
                        assert(clients@[ci].id == old(clients)@[ci].id);
                    }
                }
                assert(clients@[ci].scoped_entities@.contains(e));
                assert(in_scope_at(world@, clients@[ci].scope, e));
                assert(!in_scope_at(world@, recomputed_scope(world@, old(clients)@[ci]), e));
            }
        }
    }
    (events, updates)
}

/// `w` with its tile replaced.
pub open spec fn with_tile(w: WorldEntity, tile: Tile) -> WorldEntity {
    WorldEntity {
        id: w.id,
        entity_type: w.entity_type,
        tile,
        player: w.player,
        health: w.health,
        target: w.target,
        combat_state: w.combat_state,
        open_state: w.open_state,
        cooldowns: w.cooldowns,
        mob_state: w.mob_state,
        mob_range: w.mob_range,
        left_click: w.left_click,
    }
}

/// `w` with its health replaced.
pub open spec fn with_health(w: WorldEntity, health: Health) -> WorldEntity {
    WorldEntity {
        id: w.id,
        entity_type: w.entity_type,
        tile: w.tile,
        player: w.player,
        health: Some(health),
        target: w.target,
        combat_state: w.combat_state,
        open_state: w.open_state,
        cooldowns: w.cooldowns,
        mob_state: w.mob_state,
        mob_range: w.mob_range,
        left_click: w.left_click,
    }
}

/// `w` with its combat target replaced.
pub open spec fn with_target(w: WorldEntity, target: Target) -> WorldEntity {
    WorldEntity {
        id: w.id,
        entity_type: w.entity_type,
        tile: w.tile,
        player: w.player,
        health: w.health,
        target: Some(target),
        combat_state: w.combat_state,
        open_state: w.open_state,
        cooldowns: w.cooldowns,
        mob_state: w.mob_state,
        mob_range: w.mob_range,
        left_click: w.left_click,
    }
}

/// `w` with its combat state replaced.
pub open spec fn with_combat_state(w: WorldEntity, cs: CombatState) -> WorldEntity {
    WorldEntity {
        id: w.id,
        entity_type: w.entity_type,
        tile: w.tile,
        player: w.player,
        health: w.health,
        target: w.target,
        combat_state: Some(cs),
        open_state: w.open_state,
        cooldowns: w.cooldowns,
        mob_state: w.mob_state,
        mob_range: w.mob_range,
        left_click: w.left_click,
    }
}

/// `w` with its open/closed state replaced.
pub open spec fn with_open_state(w: WorldEntity, os: OpenState) -> WorldEntity {
    WorldEntity {
        id: w.id,
        entity_type: w.entity_type,
        tile: w.tile,
        player: w.player,
        health: w.health,
        target: w.target,
        combat_state: w.combat_state,
        open_state: Some(os),
        cooldowns: w.cooldowns,
        mob_state: w.mob_state,
        mob_range: w.mob_range,
        left_click: w.left_click,
    }
}

/// `w` with its mob state replaced.
pub open spec fn with_mob_state(w: WorldEntity, ms: crate::world::MobState) -> WorldEntity {
    WorldEntity {
        id: w.id,
        entity_type: w.entity_type,
        tile: w.tile,
        player: w.player,
        health: w.health,
        target: w.target,
        combat_state: w.combat_state,
        open_state: w.open_state,
        cooldowns: w.cooldowns,
        mob_state: Some(ms),
        mob_range: w.mob_range,
        left_click: w.left_click,
    }
}

/// `w` with its cooldowns replaced.
pub open spec fn with_cooldowns(w: WorldEntity, cd: crate::components::CoolDowns) -> WorldEntity {
    WorldEntity {
        id: w.id,
        entity_type: w.entity_type,
        tile: w.tile,
        player: w.player,
        health: w.health,
        target: w.target,
        combat_state: w.combat_state,
        open_state: w.open_state,
        cooldowns: Some(cd),
        mob_state: w.mob_state,
        mob_range: w.mob_range,
        left_click: w.left_click,
    }
}

/// The index of the world entity carrying this id.
pub open spec fn entity_index(world: Seq<WorldEntity>, id: u64) -> int {
    choose|i: int| 0 <= i < world.len() && (#[trigger] world[i]).id == id
}

/// Find the index of the world entity carrying this id, if any.
pub fn find_entity(world: &Vec<WorldEntity>, id: u64) -> (r: Option<usize>)
    requires
        world_ids_unique(world@),
    ensures
        r is Some <==> world_has_id(world@, id),
        r matches Some(i) ==> i < world@.len() && world@[i as int].id == id && i as int
            == entity_index(world@, id),
{
    let mut i: usize = 0;
    while i < world.len()
        invariant
            i <= world@.len(),
            world_ids_unique(world@),
            forall|j: int| 0 <= j < i ==> (#[trigger] world@[j]).id != id,
        decreases world@.len() - i,
    {
        if world[i].id == id {
            proof {
                let j = entity_index(world@, id);
                assert(world@[j].id == world@[i as int].id);
            }
            return Some(i);
        }
        i = i + 1;
    }
    None
}

/// There is a lobby record for this connection id.
pub open spec fn lobby_has(clients: Seq<Client>, cid: u64) -> bool {
    exists|ci: int| 0 <= ci < clients.len() && (#[trigger] clients[ci]).id == cid
}

/// The index of the lobby record for this connection id.
pub open spec fn lobby_index(clients: Seq<Client>, cid: u64) -> int {
    choose|ci: int| 0 <= ci < clients.len() && (#[trigger] clients[ci]).id == cid
}

/// Find the index of the lobby record for this connection id, if any.
pub fn find_client(clients: &Vec<Client>, cid: u64) -> (r: Option<usize>)
    requires
        client_ids_unique(clients@),
    ensures
        r is Some <==> lobby_has(clients@, cid),
        r matches Some(ci) ==> ci < clients@.len() && clients@[ci as int].id == cid && ci as int
            == lobby_index(clients@, cid),
{
    let mut ci: usize = 0;
    while ci < clients.len()
        invariant
            ci <= clients@.len(),
            client_ids_unique(clients@),
            forall|cj: int| 0 <= cj < ci ==> (#[trigger] clients@[cj]).id != cid,
        decreases clients@.len() - ci,
    {
        if clients[ci].id == cid {
            proof {
                let cj = lobby_index(clients@, cid);
                assert(clients@[cj].id == clients@[ci as int].id);
            }
            return Some(ci);
        }
        ci = ci + 1;
    }
    None
}

/// Decode-stage dispatch of one inbound player command. A click command
/// becomes a queued click event; an auto-attack checks the sender's
/// cooldown: an expired cooldown is consumed and re-armed 24 ticks ahead
/// whenever the sender carries combat components, even with no target set
/// (the swing is simply wasted). When a target is set the attacker
/// additionally enters a punching swing for 5 ticks and one combat event
/// is resolved. Unresolvable commands are ignored: the server never fails
/// on client input.
pub fn message(
    lobby: &Vec<Client>,
    world: &mut Vec<WorldEntity>,
    changed: &mut Vec<(u64, ComponentType)>,
    game_tick: &Tick,
    client_id: u64,
    command: PlayerCommand,
) -> (r: (Option<LeftClickEvent>, Option<CombatEvent>))
    requires
        world_ids_unique(old(world)@),
        client_ids_unique(lobby@),
        game_tick.tick + 24 <= u64::MAX,
    ensures
        world_ids_unique(final(world)@),
        final(world)@.len() == old(world)@.len(),
        forall|i: int|
            0 <= i < old(world)@.len() ==> (#[trigger] final(world)@[i]).id == old(world)@[i].id
                && final(world)@[i].tile == old(world)@[i].tile,
        command matches PlayerCommand::LeftClick(lc, tile) ==> {
            &&& r.0 == Some(LeftClickEvent { client_id, left_click: lc, tile })
            &&& r.1 is None
            &&& final(world)@ == old(world)@
            &&& final(changed)@ == old(changed)@
        },
        command is AutoAttack ==> {
            &&& r.0 is None
            &&& ({
                let ready = lobby_has(lobby@, client_id) && world_has_id(
                    old(world)@,
                    lobby@[lobby_index(lobby@, client_id)].controlled_entity,
                ) && {
                    let w = old(world)@[entity_index(
                        old(world)@,
                        lobby@[lobby_index(lobby@, client_id)].controlled_entity,
                    )];
                    &&& w.cooldowns matches Some(cd) && cd.auto_attack <= game_tick.tick
                    &&& w.target is Some
                };
                if ready {
                    let ce = lobby@[lobby_index(lobby@, client_id)].controlled_entity;
                    let idx = entity_index(old(world)@, ce);
                    let w = old(world)@[idx];
                    let rearmed = with_cooldowns(
                        w,
                        crate::components::CoolDowns { auto_attack: (game_tick.tick + 24) as u64 },
                    );
                    if w.target->Some_0.0 is Some {
                        let w2 = with_combat_state(
                            rearmed,
                            CombatState::Punching((game_tick.tick + 5) as u64),
                        );
                        &&& final(world)@ == old(world)@.update(idx, w2)
                        &&& final(changed)@ == old(changed)@.push(
                            (
                                ce,
                                ComponentType::CombatState(
                                    CombatState::Punching((game_tick.tick + 5) as u64),
                                ),
                            ),
                        )
                        &&& r.1 == Some(
                            CombatEvent {
                                action: Action::AutoAttack,
                                target: w.target->Some_0.0->Some_0,
                            },
                        )
                    } else {
                        // the expired cooldown is consumed even with no
                        // target set: the swing is wasted
                        &&& final(world)@ == old(world)@.update(idx, rearmed)
                        &&& final(changed)@ == old(changed)@
                        &&& r.1 is None
                    }
                } else {
                    &&& final(world)@ == old(world)@
                    &&& final(changed)@ == old(changed)@
                    &&& r.1 is None
                }
            })
        },
{
    match command {
        PlayerCommand::LeftClick(left_click, tile) => {
            (Some(LeftClickEvent { client_id, left_click, tile }), None)
        },
        PlayerCommand::AutoAttack => {
            match find_client(lobby, client_id) {
                Some(ci) => {
                    match find_entity(world, lobby[ci].controlled_entity) {
                        Some(idx) => {
                            let w = world[idx];
                            match (w.cooldowns, w.target) {
                                (Some(mut cd), Some(t)) => {
                                    if cd.cd_auto_attack(game_tick) {
                                        match t.0 {
                                            Some(target_id) => {
                                                let swing = CombatState::Punching(
                                                    game_tick.tick + 5,
                                                );
                                                let w2 = WorldEntity {
                                                    cooldowns: Some(cd),
                                                    combat_state: Some(swing),
                                                    ..w
                                                };
                                                world.set(idx, w2);
                                                changed.push(
                                                    (w.id, ComponentType::CombatState(swing)),
                                                );
                                                proof {
                                                    assert(final(world)@ =~= old(world)@.update(
                                                        idx as int,
                                                        w2,
                                                    ));
                                                }
                                                (
                                                    None,
                                                    Some(
                                                        CombatEvent {
                                                            action: Action::AutoAttack,
                                                            target: target_id,
                                                        },
                                                    ),
                                                )
                                            },
                                            None => {
                                                let w2 = WorldEntity { cooldowns: Some(cd), ..w };
                                                world.set(idx, w2);
                                                proof {
                                                    assert(final(world)@ =~= old(world)@.update(
                                                        idx as int,
                                                        w2,
                                                    ));
                                                }
                                                (None, None)
                                            },
                                        }
                                    } else {
                                        (None, None)
                                    }
                                },
                                _ => (None, None),
                            }
                        },
                        None => (None, None),
                    }
                },
                None => (None, None),
            }
        },
    }
}

/// Remove one entity id from every client's scoped set, so that no update
/// for a deleted entity is emitted from this tick on.
pub fn prune_scoped(clients: &mut Vec<Client>, entity: u64)
    ensures
        final(clients)@.len() == old(clients)@.len(),
        forall|ci: int|
            0 <= ci < old(clients)@.len() ==> {
                let oc = old(clients)@[ci];
                let nc = #[trigger] final(clients)@[ci];
                &&& nc.id == oc.id
                &&& nc.scope == oc.scope
                &&& nc.controlled_entity == oc.controlled_entity
                &&& nc.scoped_entities@ == oc.scoped_entities@.remove(entity)
            },
{
    let ghost orig = old(clients)@;
    let mut done: Vec<Client> = Vec::new();
    while clients.len() > 0
        invariant
            done@.len() + clients@.len() == orig.len(),
            clients@ == orig.subrange(done@.len() as int, orig.len() as int),
            forall|ci: int|
                0 <= ci < done@.len() ==> {
                    let oc = orig[ci];
                    let nc = #[trigger] done@[ci];
                    &&& nc.id == oc.id
                    &&& nc.scope == oc.scope
                    &&& nc.controlled_entity == oc.controlled_entity
                    &&& nc.scoped_entities@ == oc.scoped_entities@.remove(entity)
                },
        decreases clients@.len(),
    {
        let ghost p = done@.len() as int;
        let mut c = clients.remove(0);
        proof {
            assert(c == orig[p]);
        }
        c.scoped_entities.remove(&entity);
        done.push(c);
        proof {
            assert(clients@ =~= orig.subrange(p + 1, orig.len() as int));
        }
    }
    *clients = done;
}

/// Resolve one queued click event against the authoritative state.
/// A walk teleports the sender's controlled entity to the clicked tile
/// and records the tile mutation. An attack sets the sender's combat
/// target and puts the target mob into combat. An open opens the door.
/// A pickup deletes the picked-up entity from the world, prunes it from
/// every scoped set and asks for a despawn broadcast. A pull or an empty
/// pickup resolves to nothing: unresolvable commands are ignored, never
/// fatal.
pub fn left_click(
    lobby: &mut Vec<Client>,
    world: &mut Vec<WorldEntity>,
    changed: &mut Vec<(u64, ComponentType)>,
    event: &LeftClickEvent,
) -> (despawn: Option<DespawnEvent>)
    requires
        world_ids_unique(old(world)@),
        client_ids_unique(old(lobby)@),
    ensures
        world_ids_unique(final(world)@),
        client_ids_unique(final(lobby)@),
        final(lobby)@.len() == old(lobby)@.len(),
        forall|ci: int|
            0 <= ci < old(lobby)@.len() ==> {
                let oc = old(lobby)@[ci];
                let nc = #[trigger] final(lobby)@[ci];
                &&& nc.id == oc.id
                &&& nc.scope == oc.scope
                &&& nc.controlled_entity == oc.controlled_entity
            },
        event.left_click is Walk ==> {
            &&& final(lobby)@ == old(lobby)@
            &&& despawn is None
            &&& ({
                let hit = lobby_has(old(lobby)@, event.client_id) && world_has_id(
                    old(world)@,
                    old(lobby)@[lobby_index(old(lobby)@, event.client_id)].controlled_entity,
                );
                if hit {
                    let ce = old(lobby)@[lobby_index(
                        old(lobby)@,
                        event.client_id,
                    )].controlled_entity;
                    let idx = entity_index(old(world)@, ce);
                    &&& final(world)@ == old(world)@.update(
                        idx,
                        with_tile(old(world)@[idx], event.tile),
                    )
                    &&& final(changed)@ == old(changed)@.push(
                        (ce, ComponentType::Tile(event.tile)),
                    )
                } else {
                    &&& final(world)@ == old(world)@
                    &&& final(changed)@ == old(changed)@
                }
            })
        },
        event.left_click matches LeftClick::Open(door) ==> {
            &&& final(lobby)@ == old(lobby)@
            &&& despawn is None
            &&& (world_has_id(old(world)@, door) ==> {
                let idx = entity_index(old(world)@, door);
                &&& final(world)@ == old(world)@.update(
                    idx,
                    with_open_state(old(world)@[idx], OpenState::Open),
                )
                &&& final(changed)@ == old(changed)@.push(
                    (door, ComponentType::OpenState(OpenState::Open)),
                )
            })
            &&& (!world_has_id(old(world)@, door) ==> final(world)@ == old(world)@ && final(changed)@ == old(changed)@)
        },
        event.left_click matches LeftClick::Pickup(Some(item)) ==> {
            &&& (world_has_id(old(world)@, item) ==> {
                &&& final(world)@ == old(world)@.remove(entity_index(old(world)@, item))
                &&& despawn == Some(DespawnEvent(item))
                &&& forall|ci: int|
                    0 <= ci < old(lobby)@.len() ==> (#[trigger] final(lobby)@[ci]).scoped_entities@ == old(lobby)@[ci].scoped_entities@.remove(item)
                &&& !world_has_id(final(world)@, item)
            })
            &&& (!world_has_id(old(world)@, item) ==> final(world)@ == old(world)@ && despawn
                is None && final(lobby)@ == old(lobby)@)
            &&& final(changed)@ == old(changed)@
        },
        event.left_click matches LeftClick::Attack(target) ==> {
            &&& final(lobby)@ == old(lobby)@
            &&& despawn is None
            &&& (!lobby_has(old(lobby)@, event.client_id) ==> final(world)@ == old(world)@
                && final(changed)@ == old(changed)@)
            &&& (lobby_has(old(lobby)@, event.client_id) ==> {
                let attacker = old(lobby)@[lobby_index(
                    old(lobby)@,
                    event.client_id,
                )].controlled_entity;
                let hit = world_has_id(old(world)@, attacker);
                let w1 = if hit {
                    old(world)@.update(
                        entity_index(old(world)@, attacker),
                        with_target(
                            old(world)@[entity_index(old(world)@, attacker)],
                            Target(Some(target)),
                        ),
                    )
                } else {
                    old(world)@
                };
                &&& (hit ==> final(changed)@ == old(changed)@.push(
                    (attacker, ComponentType::Target(Target(Some(target)))),
                ))
                &&& (!hit ==> final(changed)@ == old(changed)@)
                &&& (world_has_id(old(world)@, target) ==> final(world)@ == w1.update(
                    entity_index(old(world)@, target),
                    with_mob_state(
                        w1[entity_index(old(world)@, target)],
                        crate::world::MobState::Combat(attacker),
                    ),
                ))
                &&& (!world_has_id(old(world)@, target) ==> final(world)@ == w1)
            })
        },
        (event.left_click is Pull || event.left_click == LeftClick::Pickup(None)) ==> {
            &&& final(lobby)@ == old(lobby)@
            &&& final(world)@ == old(world)@
            &&& final(changed)@ == old(changed)@
            &&& despawn is None
        },
{
    match event.left_click {
        LeftClick::Walk => {
            match find_client(lobby, event.client_id) {
                Some(ci) => {
                    match find_entity(world, lobby[ci].controlled_entity) {
                        Some(idx) => {
                            let w = world[idx];
                            let w2 = WorldEntity { tile: event.tile, ..w };
                            world.set(idx, w2);
                            changed.push((w.id, ComponentType::Tile(event.tile)));
                            proof {
                                assert(w2 == with_tile(w, event.tile));
                            }
                            None
                        },
                        None => None,
                    }
                },
                None => None,
            }
        },
        LeftClick::Open(door) => {
            match find_entity(world, door) {
                Some(idx) => {
                    let w = world[idx];
                    let w2 = WorldEntity { open_state: Some(OpenState::Open), ..w };
                    world.set(idx, w2);
                    changed.push((door, ComponentType::OpenState(OpenState::Open)));
                    proof {
                        assert(w2 == with_open_state(w, OpenState::Open));
                    }
                    None
                },
                None => None,
            }
        },
        LeftClick::Pickup(target) => {
            match target {
                Some(item) => {
                    match find_entity(world, item) {
                        Some(idx) => {
                            let ghost world0 = world@;
                            world.remove(idx);
                            prune_scoped(lobby, item);
                            proof {
                                world0.remove_ensures(idx as int);
                                assert forall|i: int, j: int|
                                    0 <= i < j < world@.len() implies (
                                #[trigger] world@[i]).id != (#[trigger] world@[j]).id by {
                                    let i0 = if i < idx as int { i } else { i + 1 };
                                    let j0 = if j < idx as int { j } else { j + 1 };
                                    assert(world@[i] == world0[i0]);
                                    assert(world@[j] == world0[j0]);
                                }
                                assert forall|i: int|
                                    0 <= i < world@.len() implies (#[trigger] world@[i]).id
                                    != item by {
                                    let i0 = if i < idx as int { i } else { i + 1 };
                                    assert(world@[i] == world0[i0]);
                                    assert(i0 != idx as int);
                                }
                            }
                            Some(DespawnEvent(item))
                        },
                        None => None,
                    }
                },
                None => None,
            }
        },
        LeftClick::Attack(target) => {
            match find_client(lobby, event.client_id) {
                Some(ci) => {
                    let attacker = lobby[ci].controlled_entity;
                    match find_entity(world, attacker) {
                        Some(idx) => {
                            let w = world[idx];
                            let w2 = WorldEntity { target: Some(Target(Some(target))), ..w };
                            world.set(idx, w2);
                            changed.push(
                                (attacker, ComponentType::Target(Target(Some(target)))),
                            );
                            proof {
                                assert(w2 == with_target(w, Target(Some(target))));
                            }
                        },
                        None => {},
                    }
                    proof {
                        assert forall|j: int|
                            0 <= j < world@.len() implies (#[trigger] world@[j]).id == old(
                            world,
                        )@[j].id by {}
                        assert(world_ids_unique(world@));
                        if world_has_id(old(world)@, target) {
                            let it = entity_index(old(world)@, target);
                            assert(old(world)@[it].id == target);
                            assert(world@[it].id == target);
                        }
                    }
                    match find_entity(world, target) {
                        Some(idx) => {
                            let w = world[idx];
                            let w2 = WorldEntity {
                                mob_state: Some(crate::world::MobState::Combat(attacker)),
                                ..w
                            };
                            world.set(idx, w2);
                            proof {
                                assert(w2 == with_mob_state(
                                    w,
                                    crate::world::MobState::Combat(attacker),
                                ));
                                let it = entity_index(old(world)@, target);
                                assert(old(world)@[it].id == target);
                            }
                        },
                        None => {
                            proof {
                                if world_has_id(old(world)@, target) {
                                    let it = entity_index(old(world)@, target);
                                    assert(old(world)@[it].id == target);
                                    assert(false);
                                }
                            }
                        },
                    }
                    None
                },
                None => None,
            }
        },
        LeftClick::Pull => None,
    }
}

/// Resolve one combat event: an auto-attack takes 10 hit points off the
/// target, or resets it to 100 when fewer than 10 remain. A target without
/// a health component, or no longer in the world, is ignored.
pub fn combat_events(
    world: &mut Vec<WorldEntity>,
    changed: &mut Vec<(u64, ComponentType)>,
    event: &CombatEvent,
) -> (hit: bool)
    requires
        world_ids_unique(old(world)@),
    ensures
        world_ids_unique(final(world)@),
        ({
            let has = world_has_id(old(world)@, event.target) && old(world)@[entity_index(
                old(world)@,
                event.target,
            )].health is Some;
            if has {
                let idx = entity_index(old(world)@, event.target);
                let hp = old(world)@[idx].health->Some_0.hp;
                let hp2: u16 = if hp >= 10 {
                    (hp - 10) as u16
                } else {
                    100
                };
                &&& hit
                &&& final(world)@ == old(world)@.update(
                    idx,
                    with_health(old(world)@[idx], Health { hp: hp2 }),
                )
                &&& final(changed)@ == old(changed)@.push(
                    (event.target, ComponentType::Health(Health { hp: hp2 })),
                )
            } else {
                &&& !hit
                &&& final(world)@ == old(world)@
                &&& final(changed)@ == old(changed)@
            }
        }),
{
    match event.action {
        Action::AutoAttack => {
            match find_entity(world, event.target) {
                Some(idx) => {
                    let w = world[idx];
                    match w.health {
                        Some(h) => {
                            let hp2: u16 = if h.hp >= 10 {
                                h.hp - 10
                            } else {
                                100
                            };
                            let w2 = WorldEntity { health: Some(Health { hp: hp2 }), ..w };
                            world.set(idx, w2);
                            changed.push(
                                (event.target, ComponentType::Health(Health { hp: hp2 })),
                            );
                            proof {
                                assert(w2 == with_health(w, Health { hp: hp2 }));
                            }
                            true
                        },
                        None => false,
                    }
                },
                None => false,
            }
        },
    }
}

/// Every tenth tick, every entity with a health component regenerates one
/// hit point, saturating at the largest representable value; nothing in
/// this core is allowed to fail.
pub fn change_health(world: &mut Vec<WorldEntity>, t: &Tick)
    ensures
        final(world)@.len() == old(world)@.len(),
        forall|i: int|
            0 <= i < old(world)@.len() ==> #[trigger] final(world)@[i] == (
            if t.tick % 10 == 0 && old(world)@[i].health is Some {
                let hp = old(world)@[i].health->Some_0.hp;
                let hp2: u16 = if hp < u16::MAX {
                    (hp + 1) as u16
                } else {
                    hp
                };
                with_health(old(world)@[i], Health { hp: hp2 })
            } else {
                old(world)@[i]
            }),
{
    if t.tick % 10 != 0 {
        return ;
    }
    let mut i: usize = 0;
    while i < world.len()
        invariant
            i <= world@.len(),
            t.tick % 10 == 0,
            world@.len() == old(world)@.len(),
            forall|j: int| i <= j < world@.len() ==> #[trigger] world@[j] == old(world)@[j],
            forall|j: int|
                0 <= j < i ==> #[trigger] world@[j] == (
                if old(world)@[j].health is Some {
                    let hp = old(world)@[j].health->Some_0.hp;
                    let hp2: u16 = if hp < u16::MAX {
                        (hp + 1) as u16
                    } else {
                        hp
                    };
                    with_health(old(world)@[j], Health { hp: hp2 })
                } else {
                    old(world)@[j]
                }),
        decreases world@.len() - i,
    {
        let w = world[i];
        match w.health {
            Some(h) => {
                let hp2: u16 = if h.hp < u16::MAX {
                    h.hp + 1
                } else {
                    h.hp
                };
                let w2 = WorldEntity { health: Some(Health { hp: hp2 }), ..w };
                world.set(i, w2);
                proof {
                    assert(w2 == with_health(old(world)@[i as int], Health { hp: hp2 }));
                }
            },
            None => {},
        }
        i = i + 1;
    }
}

/// Where one wander step per the old direction would land, provided it
/// stays inside the wander range and on the grid; otherwise the mob stands
/// still. Wandering moves only on the four cardinal directions.
pub open spec fn wander_step(t: Tile, d: crate::tile::Direction, range: crate::world::MobRange)
    -> Tile {
    let candidate = match d {
        crate::tile::Direction::North => if t.cell.2 < u32::MAX {
            Tile { cell: (t.cell.0, t.cell.1, (t.cell.2 + 1) as u32) }
        } else {
            t
        },
        crate::tile::Direction::East => if t.cell.0 < u32::MAX {
            Tile { cell: ((t.cell.0 + 1) as u32, t.cell.1, t.cell.2) }
        } else {
            t
        },
        crate::tile::Direction::South => if t.cell.2 > 0 {
            Tile { cell: (t.cell.0, t.cell.1, (t.cell.2 - 1) as u32) }
        } else {
            t
        },
        crate::tile::Direction::West => if t.cell.0 > 0 {
            Tile { cell: ((t.cell.0 - 1) as u32, t.cell.1, t.cell.2) }
        } else {
            t
        },
        _ => t,
    };
    if crate::world::mob_range_check(range, candidate) {
        candidate
    } else {
        t
    }
}

/// An entity is a wandering-capable mob: a slime with a mob state and a
/// wander range.
pub open spec fn is_wanderer(w: WorldEntity) -> bool {
    w.entity_type is Slime && w.mob_state is Some && w.mob_range is Some
}

/// Every tenth tick, move each wandering slime one step along its current
/// direction, clamped to its wander range; every 25th tick each slime also
/// draws a fresh cardinal direction at random. Movement this tick uses the
/// direction held at tick start, and whatever direction is drawn, a slime
/// moves at most one cardinal step and never leaves its range; entities in
/// combat, and everything that is not a wandering slime, stay put.
pub fn move_slime(
    world: &mut Vec<WorldEntity>,
    changed: &mut Vec<(u64, ComponentType)>,
    t: &Tick,
)
    ensures
        final(world)@.len() == old(world)@.len(),
        forall|i: int|
            0 <= i < old(world)@.len() ==> {
                let ow = old(world)@[i];
                let nw = #[trigger] final(world)@[i];
                &&& (!(t.tick % 10 == 0 && is_wanderer(ow)) ==> nw == ow)
                &&& (t.tick % 10 == 0 && is_wanderer(ow) ==> {
                    &&& nw.id == ow.id
                    &&& nw.entity_type == ow.entity_type
                    &&& nw.health == ow.health
                    &&& nw.mob_range == ow.mob_range
                    &&& (ow.mob_state matches Some(crate::world::MobState::Wonder(d)) ==> nw.tile
                        == wander_step(ow.tile, d, ow.mob_range->Some_0))
                    &&& (ow.mob_state matches Some(crate::world::MobState::Combat(e)) ==> nw.tile
                        == ow.tile)
                    &&& (t.tick % 25 != 0 ==> nw.mob_state == ow.mob_state)
                    &&& (t.tick % 25 == 0 ==> (nw.mob_state matches Some(
                        crate::world::MobState::Wonder(d2),
                    ) && (d2 == crate::tile::Direction::North || d2 == crate::tile::Direction::East
                        || d2 == crate::tile::Direction::South || d2
                        == crate::tile::Direction::West)))
                })
            },
{
    if t.tick % 10 != 0 {
        return ;
    }
    let mut i: usize = 0;
    while i < world.len()
        invariant
            i <= world@.len(),
            t.tick % 10 == 0,
            world@.len() == old(world)@.len(),
            forall|j: int| i <= j < world@.len() ==> #[trigger] world@[j] == old(world)@[j],
            forall|j: int|
                0 <= j < i ==> {
                    let ow = old(world)@[j];
                    let nw = #[trigger] world@[j];
                    &&& (!is_wanderer(ow) ==> nw == ow)
                    &&& (is_wanderer(ow) ==> {
                        &&& nw.id == ow.id
                        &&& nw.entity_type == ow.entity_type
                        &&& nw.health == ow.health
                        &&& nw.mob_range == ow.mob_range
                        &&& (ow.mob_state matches Some(crate::world::MobState::Wonder(d))
                            ==> nw.tile == wander_step(ow.tile, d, ow.mob_range->Some_0))
                        &&& (ow.mob_state matches Some(crate::world::MobState::Combat(e))
                            ==> nw.tile == ow.tile)
                        &&& (t.tick % 25 != 0 ==> nw.mob_state == ow.mob_state)
                        &&& (t.tick % 25 == 0 ==> (nw.mob_state matches Some(
                            crate::world::MobState::Wonder(d2),
                        ) && (d2 == crate::tile::Direction::North || d2
                            == crate::tile::Direction::East || d2 == crate::tile::Direction::South
                            || d2 == crate::tile::Direction::West)))
                    })
                },
        decreases world@.len() - i,
    {
        let w = world[i];
        let is_slime = matches!(w.entity_type, crate::components::EntityType::Slime(_));
        match (w.mob_state, w.mob_range) {
            (Some(state), Some(range)) => {
                if is_slime {
                    let new_tile: Tile = match state {
                        crate::world::MobState::Wonder(d) => {
                            let candidate: Tile = match d {
                                crate::tile::Direction::North => {
                                    if w.tile.cell.2 < u32::MAX {
                                        Tile {
                                            cell: (w.tile.cell.0, w.tile.cell.1, w.tile.cell.2 + 1),
                                        }
                                    } else {
                                        w.tile
                                    }
                                },
                                crate::tile::Direction::East => {
                                    if w.tile.cell.0 < u32::MAX {
                                        Tile {
                                            cell: (w.tile.cell.0 + 1, w.tile.cell.1, w.tile.cell.2),
                                        }
                                    } else {
                                        w.tile
                                    }
                                },
                                crate::tile::Direction::South => {
                                    if w.tile.cell.2 > 0 {
                                        Tile {
                                            cell: (w.tile.cell.0, w.tile.cell.1, w.tile.cell.2 - 1),
                                        }
                                    } else {
                                        w.tile
                                    }
                                },
                                crate::tile::Direction::West => {
                                    if w.tile.cell.0 > 0 {
                                        Tile {
                                            cell: (w.tile.cell.0 - 1, w.tile.cell.1, w.tile.cell.2),
                                        }
                                    } else {
                                        w.tile
                                    }
                                },
                                _ => w.tile,
                            };
                            let range_copy = range;
                            if range_copy.check(&candidate) {
                                candidate
                            } else {
                                w.tile
                            }
                        },
                        crate::world::MobState::Combat(_) => w.tile,
                    };
                    let new_state: crate::world::MobState = if t.tick % 25 == 0 {
                        let x = crate::rng::random_below(4);
                        if x == 0 {
                            crate::world::MobState::Wonder(crate::tile::Direction::East)
                        } else if x == 1 {
                            crate::world::MobState::Wonder(crate::tile::Direction::South)
                        } else if x == 2 {
                            crate::world::MobState::Wonder(crate::tile::Direction::West)
                        } else {
                            crate::world::MobState::Wonder(crate::tile::Direction::North)
                        }
                    } else {
                        state
                    };
                    let moved = !(new_tile == w.tile);
                    let w2 = WorldEntity { tile: new_tile, mob_state: Some(new_state), ..w };
                    world.set(i, w2);
                    if moved {
                        changed.push((w.id, ComponentType::Tile(new_tile)));
                    }
                }
            },
            _ => {},
        }
        i = i + 1;
    }
}

/// A request to send the full load snapshot to one client.
#[derive(Clone, Copy, Debug, PartialEq, Eq, Structural)]
pub struct ChunkRequest(pub u64);

/// A notice that one client's server-side records are ready.
#[derive(Clone, Copy, Debug, PartialEq, Eq, Structural)]
pub struct ClientSetup(pub u64);

/// What one connection event asks the send stage to do.
pub struct ClientHandlerOutput {
    pub chunk_request: Option<ChunkRequest>,
    pub notice: Option<crate::components::ServerMessages>,
    pub spawn: Option<SpawnEvent>,
    pub despawn: Option<DespawnEvent>,
}

/// Every world entity id is below the allocation cursor.
pub open spec fn world_ids_bounded(world: Seq<WorldEntity>, next: u64) -> bool {
    forall|i: int| 0 <= i < world.len() ==> (#[trigger] world[i]).id < next
}

/// Handle one connection lifecycle event. A connect creates the player's
/// authoritative entity at a random spawn column, creates the per-client
/// record with its scope anchored at the origin, requests the bulk load
/// snapshot and asks for the lifecycle notice and the player's spawn to be
/// broadcast. A disconnect removes the record, deletes the controlled
/// entity, prunes it from every remaining scoped set and asks for its
/// despawn to be broadcast. A connect for a known id and a disconnect for
/// an unknown one are ignored.
pub fn client_handler(
    lobby: &mut Vec<Client>,
    world: &mut Vec<WorldEntity>,
    next_id: &mut u64,
    event: &crate::components::ServerMessages,
) -> (out: ClientHandlerOutput)
    requires
        world_ids_unique(old(world)@),
        client_ids_unique(old(lobby)@),
        world_ids_bounded(old(world)@, *old(next_id)),
        *old(next_id) < u64::MAX,
    ensures
        world_ids_unique(final(world)@),
        client_ids_unique(final(lobby)@),
        world_ids_bounded(final(world)@, *final(next_id)),
        *old(next_id) <= *final(next_id) <= *old(next_id) + 1,
        *event matches crate::components::ServerMessages::PlayerConnected { id } ==> {
            if lobby_has(old(lobby)@, id) {
                &&& final(lobby)@ == old(lobby)@
                &&& final(world)@ == old(world)@
                &&& *final(next_id) == *old(next_id)
                &&& out.chunk_request is None
                &&& out.notice is None
                &&& out.spawn is None
                &&& out.despawn is None
            } else {
                &&& *final(next_id) == *old(next_id) + 1
                &&& final(world)@.len() == old(world)@.len() + 1
                &&& (forall|i: int|
                    0 <= i < old(world)@.len() ==> #[trigger] final(world)@[i] == old(world)@[i])
                &&& ({
                    let p = final(world)@[old(world)@.len() as int];
                    &&& p.id == *old(next_id)
                    &&& p.entity_type == crate::components::EntityType::Player(
                        crate::components::Player { id },
                    )
                    &&& p.tile.cell.0 < 10
                    &&& p.tile.cell.1 == 0
                    &&& p.tile.cell.2 == 0
                    &&& p.health == Some(Health { hp: 50 })
                    &&& p.cooldowns == Some(crate::components::CoolDowns { auto_attack: 0 })
                    &&& out.spawn == Some(
                        SpawnEvent { entity: p.id, entity_type: p.entity_type, tile: p.tile },
                    )
                })
                &&& final(lobby)@.len() == old(lobby)@.len() + 1
                &&& (forall|ci: int|
                    0 <= ci < old(lobby)@.len() ==> #[trigger] final(lobby)@[ci] == old(
                        lobby,
                    )@[ci])
                &&& ({
                    let c = final(lobby)@[old(lobby)@.len() as int];
                    &&& c.id == id
                    &&& c.controlled_entity == *old(next_id)
                    &&& c.scope == crate::scope::scope_at(
                        Tile { cell: (0, 0, 0) },
                        crate::scope::SCOPE_DISTANCE,
                    )
                    &&& c.scoped_entities@ == Set::<u64>::empty()
                })
                &&& out.chunk_request == Some(ChunkRequest(id))
                &&& out.notice == Some(
                    crate::components::ServerMessages::PlayerConnected { id },
                )
                &&& out.despawn is None
            }
        },
        *event matches crate::components::ServerMessages::PlayerDisconnected { id } ==> {
            if lobby_has(old(lobby)@, id) {
                let ci = lobby_index(old(lobby)@, id);
                let ce = old(lobby)@[ci].controlled_entity;
                &&& *final(next_id) == *old(next_id)
                &&& final(lobby)@.len() == old(lobby)@.len() - 1
                &&& (forall|cj: int|
                    0 <= cj < final(lobby)@.len() ==> {
                        let oc = old(lobby)@.remove(ci)[cj];
                        let nc = #[trigger] final(lobby)@[cj];
                        &&& nc.id == oc.id
                        &&& nc.scope == oc.scope
                        &&& nc.controlled_entity == oc.controlled_entity
                        &&& nc.scoped_entities@ == oc.scoped_entities@.remove(ce)
                    })
                &&& (world_has_id(old(world)@, ce) ==> final(world)@ == old(world)@.remove(
                    entity_index(old(world)@, ce),
                ))
                &&& (!world_has_id(old(world)@, ce) ==> final(world)@ == old(world)@)
                &&& out.despawn == Some(DespawnEvent(ce))
                &&& out.notice == Some(
                    crate::components::ServerMessages::PlayerDisconnected { id },
                )
                &&& out.chunk_request is None
                &&& out.spawn is None
            } else {
                &&& final(lobby)@ == old(lobby)@
                &&& final(world)@ == old(world)@
                &&& *final(next_id) == *old(next_id)
                &&& out.chunk_request is None
                &&& out.notice is None
                &&& out.spawn is None
                &&& out.despawn is None
            }
        },
{
    match *event {
        crate::components::ServerMessages::PlayerConnected { id } => {
            match find_client(lobby, id) {
                Some(_) => ClientHandlerOutput {
                    chunk_request: None,
                    notice: None,
                    spawn: None,
                    despawn: None,
                },
                None => {
                    let x = crate::rng::random_below(10);
                    let pid = *next_id;
                    let tile = Tile { cell: (x, 0, 0) };
                    let mut player = WorldEntity::bare(
                        pid,
                        crate::components::EntityType::Player(crate::components::Player { id }),
                        tile,
                    );
                    player.player = Some(crate::components::Player { id });
                    player.health = Some(Health { hp: 50 });
                    player.cooldowns = Some(crate::components::CoolDowns { auto_attack: 0 });
                    world.push(player);
                    *next_id = *next_id + 1;
                    let scope = crate::scope::Scope::get(Tile::new((0, 0, 0)));
                    lobby.push(Client::new(id, scope, pid));
                    ClientHandlerOutput {
                        chunk_request: Some(ChunkRequest(id)),
                        notice: Some(crate::components::ServerMessages::PlayerConnected { id }),
                        spawn: Some(
                            SpawnEvent {
                                entity: pid,
                                entity_type: crate::components::EntityType::Player(
                                    crate::components::Player { id },
                                ),
                                tile,
                            },
                        ),
                        despawn: None,
                    }
                },
            }
        },
        crate::components::ServerMessages::PlayerDisconnected { id } => {
            match find_client(lobby, id) {
                Some(ci) => {
                    let ghost lobby0 = lobby@;
                    let removed = lobby.remove(ci);
                    let ce = removed.controlled_entity;
                    proof {
                        lobby0.remove_ensures(ci as int);
                        assert forall|a: int, b: int|
                            0 <= a < b < lobby@.len() implies (#[trigger] lobby@[a]).id != (
                        #[trigger] lobby@[b]).id by {
                            let a0 = if a < ci as int { a } else { a + 1 };
                            let b0 = if b < ci as int { b } else { b + 1 };
                            assert(lobby@[a] == lobby0[a0]);
                            assert(lobby@[b] == lobby0[b0]);
                        }
                    }
                    let ghost world0 = world@;
                    match find_entity(world, ce) {
                        Some(idx) => {
                            world.remove(idx);
                            proof {
                                world0.remove_ensures(idx as int);
                                assert forall|a: int, b: int|
                                    0 <= a < b < world@.len() implies (#[trigger] world@[a]).id
                                    != (#[trigger] world@[b]).id by {
                                    let a0 = if a < idx as int { a } else { a + 1 };
                                    let b0 = if b < idx as int { b } else { b + 1 };
                                    assert(world@[a] == world0[a0]);
                                    assert(world@[b] == world0[b0]);
                                }
                                assert forall|a: int|
                                    0 <= a < world@.len() implies (#[trigger] world@[a]).id
                                    < *next_id by {
                                    let a0 = if a < idx as int { a } else { a + 1 };
                                    assert(world@[a] == world0[a0]);
                                }
                            }
                        },
                        None => {},
                    }
                    prune_scoped(lobby, ce);
                    ClientHandlerOutput {
                        chunk_request: None,
                        notice: Some(
                            crate::components::ServerMessages::PlayerDisconnected { id },
                        ),
                        spawn: None,
                        despawn: Some(DespawnEvent(ce)),
                    }
                },
                None => ClientHandlerOutput {
                    chunk_request: None,
                    notice: None,
                    spawn: None,
                    despawn: None,
                },
            }
        },
    }
}

/// The entry carries one scoped client's id and the forwarded event.
pub open spec fn open_event_entry_ok(
    clients: Seq<Client>,
    event: crate::components::OpenEvent,
    entry: (u64, crate::components::ServerEvents),
) -> bool {
    exists|ci: int|
        0 <= ci < clients.len() && {
            let c = #[trigger] clients[ci];
            entry == (c.id, crate::components::ServerEvents::OpenEvent(event))
                && c.scoped_entities@.contains(event.entity)
        }
}

/// The out list carries the event addressed to this client id.
pub open spec fn open_event_sent(
    out: Seq<(u64, crate::components::ServerEvents)>,
    cid: u64,
    event: crate::components::OpenEvent,
) -> bool {
    exists|k: int|
        0 <= k < out.len() && out[k] == (cid, crate::components::ServerEvents::OpenEvent(event))
}

/// Forward one scoped server event: every client that has the event's
/// entity in its scoped set receives it, and no one else does.
pub fn send_open_event(clients: &Vec<Client>, event: &crate::components::OpenEvent) -> (out: Vec<
    (u64, crate::components::ServerEvents),
>)
    ensures
        forall|k: int|
            0 <= k < out@.len() ==> open_event_entry_ok(clients@, *event, #[trigger] out@[k]),
        forall|ci: int|
            0 <= ci < clients@.len() && (#[trigger] clients@[ci]).scoped_entities@.contains(
                event.entity,
            ) ==> open_event_sent(out@, clients@[ci].id, *event),
{
    let mut out: Vec<(u64, crate::components::ServerEvents)> = Vec::new();
    let mut ci: usize = 0;
    while ci < clients.len()
        invariant
            ci <= clients@.len(),
            forall|k: int|
                0 <= k < out@.len() ==> open_event_entry_ok(clients@, *event, #[trigger] out@[k]),
            forall|cj: int|
                0 <= cj < ci && (#[trigger] clients@[cj]).scoped_entities@.contains(event.entity)
                    ==> open_event_sent(out@, clients@[cj].id, *event),
        decreases clients@.len() - ci,
    {
        let ghost out0 = out@;
        if self_contains(&clients[ci], event.entity) {
            out.push((clients[ci].id, crate::components::ServerEvents::OpenEvent(*event)));
            proof {
                assert(out@[out@.len() - 1] == (
                    clients@[ci as int].id,
                    crate::components::ServerEvents::OpenEvent(*event),
                ));
                assert(open_event_entry_ok(clients@, *event, out@[out@.len() - 1]));
            }
        }
        proof {
            assert forall|k: int|
                0 <= k < out@.len() implies open_event_entry_ok(
                clients@,
                *event,
                #[trigger] out@[k],
            ) by {
                if k < out0.len() {
                    assert(out@[k] == out0[k]);
                    assert(open_event_entry_ok(clients@, *event, out0[k]));
                }
            }
            assert forall|cj: int|
                0 <= cj < ci + 1 && (#[trigger] clients@[cj]).scoped_entities@.contains(
                    event.entity,
                ) implies open_event_sent(out@, clients@[cj].id, *event) by {
                if cj < ci {
                    let k = choose|k: int|
                        0 <= k < out0.len() && out0[k] == (
                            clients@[cj].id,
                            crate::components::ServerEvents::OpenEvent(*event),
                        );
                    assert(out@[k] == out0[k]);
                } else {
                    assert(out@[out@.len() - 1] == (
                        clients@[cj].id,
                        crate::components::ServerEvents::OpenEvent(*event),
                    ));
                }
            }
        }
        ci = ci + 1;
    }
    out
}

} // verus!
