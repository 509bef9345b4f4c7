//! The client receive pipeline: decoded inbound messages are applied to
//! the client-side state here. Server ids are translated through the
//! entity-id mapper at this boundary, never deeper inside game logic; the
//! raised local notifications carry client-local ids only.

use vstd::prelude::*;
use std::collections::HashMap;
use crate::components::{
    ComponentType, EntityType, DespawnEvent, ServerMessages, SpawnEvent, Target, Tick, TickEvent,
    UpdateEvent,
};
use crate::mapper::NetworkMapping;
use crate::tile::Tile;

verus! {

broadcast use vstd::std_specs::hash::group_hash_axioms;

/// What this client knows about one connected player.
#[derive(Clone, Copy, Debug, PartialEq, Eq)]
pub struct ClientInfo {
    pub client_entity: Option<u64>,
    pub server_entity: Option<u64>,
    pub controlled_entity: Option<u64>,
}

impl ClientInfo {
    /// A player record with nothing materialized yet, as a value.
    pub open spec fn spec_empty() -> ClientInfo {
        ClientInfo { client_entity: None, server_entity: None, controlled_entity: None }
    }

    /// A player record with nothing materialized yet.
    #[verifier::when_used_as_spec(spec_empty)]
    pub fn empty() -> (info: ClientInfo)
        ensures
            info == ClientInfo::spec_empty(),
    {
        ClientInfo { client_entity: None, server_entity: None, controlled_entity: None }
    }
}

/// The players this client has been told about, keyed by connection id.
pub struct ClientLobby {
    pub clients: HashMap<u64, ClientInfo>,
}

impl ClientLobby {
    /// An empty lobby.
    pub fn new() -> (lobby: ClientLobby)
        ensures
            lobby.clients@ == Map::<u64, ClientInfo>::empty(),
    {
        ClientLobby { clients: HashMap::new() }
    }

    /// Apply one connection lifecycle notice: a connect inserts an empty
    /// player record, a disconnect removes the record.
    pub fn apply_server_message(&mut self, message: ServerMessages)
        ensures
            message matches ServerMessages::PlayerConnected { id } ==> final(self).clients@ == old(self).clients@.insert(id, ClientInfo::empty()),
            message matches ServerMessages::PlayerDisconnected { id } ==> final(self).clients@
                == old(self).clients@.remove(id),
    {
        match message {
            ServerMessages::PlayerConnected { id } => {
                self.clients.insert(id, ClientInfo::empty());
            },
            ServerMessages::PlayerDisconnected { id } => {
                self.clients.remove(&id);
            },
        }
    }
}

/// Translate the server ids embedded in a replicated component value into
/// the local namespace given the server-to-local map. Only the combat
/// target embeds an id; an embedded id with no local mapping is dropped
/// (the reference alone, not the update).
pub open spec fn translate_component(server_to_local: Map<u64, u64>, c: ComponentType)
    -> ComponentType {
    match c {
        ComponentType::Target(t) => match t.0 {
            Some(server_id) => if server_to_local.contains_key(server_id) {
                ComponentType::Target(Target(Some(server_to_local[server_id])))
            } else {
                ComponentType::Target(Target(None))
            },
            None => ComponentType::Target(Target(None)),
        },
        _ => c,
    }
}

/// The effect of applying one load snapshot, as a value: the two mapping
/// directions, the local-id allocator and the raised notification list
/// after the items are applied front to back. A previously unknown server
/// id allocates the next local id and raises one notification; a mention
/// of an already-mapped id changes nothing and raises nothing.
pub open spec fn spec_apply_load(
    server: Map<u64, u64>,
    client: Map<u64, u64>,
    next: u64,
    items: Seq<(u64, EntityType, Tile)>,
) -> (Map<u64, u64>, Map<u64, u64>, u64, Seq<SpawnEvent>)
    decreases items.len(),
{
    if items.len() == 0 {
        (server, client, next, Seq::<SpawnEvent>::empty())
    } else {
        let item = items[0];
        if server.contains_key(item.0) {
            spec_apply_load(server, client, next, items.drop_first())
        } else {
            let (s2, c2, n2, evs) = spec_apply_load(
                server.insert(item.0, next),
                client.insert(next, item.0),
                ((next + 1) as u64),
                items.drop_first(),
            );
            (
                s2,
                c2,
                n2,
                seq![SpawnEvent { entity: next, entity_type: item.1, tile: item.2 }] + evs,
            )
        }
    }
}

/// Applying one more item after a processed prefix equals processing the
/// extended prefix.
proof fn lemma_apply_load_snoc(
    server: Map<u64, u64>,
    client: Map<u64, u64>,
    next: u64,
    items: Seq<(u64, EntityType, Tile)>,
    item: (u64, EntityType, Tile),
)
    ensures
        ({
            let (s1, c1, n1, evs1) = spec_apply_load(server, client, next, items);
            let (s3, c3, n3, evs3) = spec_apply_load(server, client, next, items.push(item));
            if s1.contains_key(item.0) {
                &&& s3 == s1
                &&& c3 == c1
                &&& n3 == n1
                &&& evs3 == evs1
            } else {
                &&& s3 == s1.insert(item.0, n1)
                &&& c3 == c1.insert(n1, item.0)
                &&& n3 == ((n1 + 1) as u64)
                &&& evs3 == evs1.push(
                    SpawnEvent { entity: n1, entity_type: item.1, tile: item.2 },
                )
            }
        }),
    decreases items.len(),
{
    reveal_with_fuel(spec_apply_load, 3);
    let pushed = items.push(item);
    if items.len() == 0 {
        assert(pushed[0] == item);
        assert(pushed.drop_first() =~= Seq::<(u64, EntityType, Tile)>::empty());
        if !server.contains_key(item.0) {
            assert(Seq::<SpawnEvent>::empty().push(
                SpawnEvent { entity: next, entity_type: item.1, tile: item.2 },
            ) =~= seq![SpawnEvent { entity: next, entity_type: item.1, tile: item.2 }]
                + Seq::<SpawnEvent>::empty());
        }
    } else {
        assert(pushed[0] == items[0]);
        assert(pushed.drop_first() =~= items.drop_first().push(item));
        let head = items[0];
        if server.contains_key(head.0) {
            lemma_apply_load_snoc(server, client, next, items.drop_first(), item);
        } else {
            lemma_apply_load_snoc(
                server.insert(head.0, next),
                client.insert(next, head.0),
                ((next + 1) as u64),
                items.drop_first(),
                item,
            );
            let (rs, rc, rn, revs) = spec_apply_load(
                server.insert(head.0, next),
                client.insert(next, head.0),
                ((next + 1) as u64),
                items.drop_first(),
            );
            let head_ev = SpawnEvent { entity: next, entity_type: head.1, tile: head.2 };
            if !rs.contains_key(item.0) {
                let new_ev = SpawnEvent { entity: rn, entity_type: item.1, tile: item.2 };
                assert((seq![head_ev] + revs).push(new_ev) =~= seq![head_ev] + revs.push(new_ev));
            }
        }
    }
}

/// Everything the receive pipeline owns on the client: the bijective id
/// map, the allocator for local placeholder ids, the mirrored tick and the
/// player lobby.
pub struct ClientState {
    pub network_mapping: NetworkMapping,
    pub next_local_id: u64,
    pub tick: Tick,
    pub lobby: ClientLobby,
}

impl ClientState {
    /// The id map is a bijection and every allocated local id is below the
    /// allocator cursor.
    pub open spec fn wf(self) -> bool {
        &&& self.network_mapping.wf()
        &&& forall|l: u64| #[trigger]
            self.network_mapping.client@.contains_key(l) ==> l < self.next_local_id
    }

    /// A fresh client-side state.
    pub fn new() -> (s: ClientState)
        ensures
            s.wf(),
            s.network_mapping.server@ == Map::<u64, u64>::empty(),
            s.network_mapping.client@ == Map::<u64, u64>::empty(),
            s.tick.tick == 0,
            s.lobby.clients@ == Map::<u64, ClientInfo>::empty(),
            s.next_local_id == 0,
    {
        ClientState {
            network_mapping: NetworkMapping::new(),
            next_local_id: 0,
            tick: Tick { tick: 0 },
            lobby: ClientLobby::new(),
        }
    }

    /// Apply one spawn message. A previously unknown server id allocates
    /// one local placeholder id, inserts the bijective mapping and returns
    /// the local "entity appeared" notification. A mention of an
    /// already-mapped server id is a no-op, not an error: the state is
    /// unchanged and no duplicate notification is raised.
    pub fn apply_spawn(&mut self, message: &SpawnEvent) -> (appeared: Option<SpawnEvent>)
        requires
            old(self).wf(),
            old(self).next_local_id < u64::MAX,
        ensures
            final(self).wf(),
            old(self).network_mapping.server@.contains_key(message.entity) ==> {
                &&& *final(self) == *old(self)
                &&& appeared is None
            },
            !old(self).network_mapping.server@.contains_key(message.entity) ==> {
                &&& appeared == Some(
                    SpawnEvent {
                        entity: old(self).next_local_id,
                        entity_type: message.entity_type,
                        tile: message.tile,
                    },
                )
                &&& final(self).network_mapping.server@ == old(self).network_mapping.server@.insert(message.entity, old(self).next_local_id)
                &&& final(self).network_mapping.client@ == old(self).network_mapping.client@.insert(old(self).next_local_id, message.entity)
                &&& final(self).next_local_id == old(self).next_local_id + 1
            },
            final(self).tick == old(self).tick,
            final(self).lobby.clients@ == old(self).lobby.clients@,
    {
        if self.network_mapping.contains_server(message.entity) {
            None
        } else {
            let local = self.next_local_id;
            self.next_local_id = self.next_local_id + 1;
            self.network_mapping.add(local, message.entity);
            Some(SpawnEvent { entity: local, entity_type: message.entity_type, tile: message.tile })
        }
    }

    /// Apply one bulk load snapshot: each listed entity is applied as a
    /// spawn, with the same idempotence. The state and the raised
    /// notification list are exactly `spec_apply_load` of the snapshot:
    /// one notification per previously unknown server id, in snapshot
    /// order, carrying the sequentially allocated local ids; an
    /// already-mapped mention raises nothing. Afterwards every listed
    /// server id is materialized; ids mapped before keep their local id.
    pub fn apply_load(&mut self, items: &Vec<(u64, EntityType, Tile)>) -> (appeared: Vec<
        SpawnEvent,
    >)
        requires
            old(self).wf(),
            old(self).next_local_id + items@.len() <= u64::MAX,
        ensures
            final(self).wf(),
            forall|s: u64| #[trigger]
                old(self).network_mapping.server@.contains_key(s) ==> final(self).network_mapping.server@.contains_key(s) && final(self).network_mapping.server@[s]
                    == old(self).network_mapping.server@[s],
            forall|i: int|
                0 <= i < items@.len() ==> final(self).network_mapping.server@.contains_key(
                    #[trigger] items@[i].0,
                ),
            forall|s: u64| #[trigger]
                final(self).network_mapping.server@.contains_key(s) ==> old(self).network_mapping.server@.contains_key(s) || exists|i: int|
                    0 <= i < items@.len() && #[trigger] items@[i].0 == s,
            final(self).tick == old(self).tick,
            final(self).lobby.clients@ == old(self).lobby.clients@,
            ({
                let (server, client, next, notifications) = spec_apply_load(
                    old(self).network_mapping.server@,
                    old(self).network_mapping.client@,
                    old(self).next_local_id,
                    items@,
                );
                &&& final(self).network_mapping.server@ == server
                &&& final(self).network_mapping.client@ == client
                &&& final(self).next_local_id == next
                &&& appeared@ == notifications
            }),
    {
        let mut appeared: Vec<SpawnEvent> = Vec::new();
        let mut idx: usize = 0;
        proof {
            assert(items@.subrange(0, 0) =~= Seq::<(u64, EntityType, Tile)>::empty());
        }
        while idx < items.len()
            invariant
                self.wf(),
                idx <= items@.len(),
                self.next_local_id + (items@.len() - idx) <= u64::MAX,
                ({
                    let (server, client, next, notifications) = spec_apply_load(
                        old(self).network_mapping.server@,
                        old(self).network_mapping.client@,
                        old(self).next_local_id,
                        items@.subrange(0, idx as int),
                    );
                    &&& self.network_mapping.server@ == server
                    &&& self.network_mapping.client@ == client
                    &&& self.next_local_id == next
                    &&& appeared@ == notifications
                }),
                forall|s: u64| #[trigger]
                    old(self).network_mapping.server@.contains_key(s)
                        ==> self.network_mapping.server@.contains_key(s)
                        && self.network_mapping.server@[s] == old(self).network_mapping.server@[s],
                forall|i: int|
                    0 <= i < idx ==> self.network_mapping.server@.contains_key(
                        #[trigger] items@[i].0,
                    ),
                forall|s: u64| #[trigger]
                    self.network_mapping.server@.contains_key(s) ==> old(self).network_mapping.server@.contains_key(s) || exists|i: int|
                        0 <= i < idx && #[trigger] items@[i].0 == s,
                self.tick == old(self).tick,
                self.lobby.clients@ == old(self).lobby.clients@,
            decreases items@.len() - idx,
        {
            let (server_entity, entity_type, tile) = items[idx];
            let message = SpawnEvent { entity: server_entity, entity_type, tile };
            let ghost appeared0 = appeared@;
            match self.apply_spawn(&message) {
                Some(event) => appeared.push(event),
                None => {},
            }
            proof {
                lemma_apply_load_snoc(
                    old(self).network_mapping.server@,
                    old(self).network_mapping.client@,
                    old(self).next_local_id,
                    items@.subrange(0, idx as int),
                    items@[idx as int],
                );
                assert(items@.subrange(0, idx + 1) =~= items@.subrange(0, idx as int).push(
                    items@[idx as int],
                ));
                if !self.network_mapping.server@.contains_key(server_entity) || appeared@.len()
                    > appeared0.len() {
                    assert(appeared@ =~= appeared0.push(appeared@[appeared@.len() - 1]));
                }
            }
            idx = idx + 1;
        }
        proof {
            assert(items@.subrange(0, items@.len() as int) =~= items@);
        }
        appeared
    }

    /// Apply one update message. An unknown server id drops the message
    /// silently (the entity has not been materialized locally; updates are
    /// unreliable and periodic, so loss here is self-healing). Otherwise
    /// the local notification carries the local id and the component value
    /// with any embedded server id translated.
    pub fn apply_update(&self, message: &UpdateEvent) -> (updated: Option<UpdateEvent>)
        ensures
            updated == if self.network_mapping.server@.contains_key(message.entity) {
                Some(
                    UpdateEvent {
                        entity: self.network_mapping.server@[message.entity],
                        component: translate_component(
                            self.network_mapping.server@,
                            message.component,
                        ),
                    },
                )
            } else {
                Option::<UpdateEvent>::None
            },
    {
        match self.network_mapping.get_client(message.entity) {
            Some(local) => {
                let component = match message.component {
                    ComponentType::Target(t) => match t.0 {
                        Some(server_id) => match self.network_mapping.get_client(server_id) {
                            Some(local_target) => ComponentType::Target(
                                Target(Some(local_target)),
                            ),
                            None => ComponentType::Target(Target(None)),
                        },
                        None => ComponentType::Target(Target(None)),
                    },
                    c => c,
                };
                Some(UpdateEvent { entity: local, component })
            },
            None => None,
        }
    }

    /// Apply one despawn message: both directions of the mapping are
    /// removed and the local id is returned so presentation code can tear
    /// the entity (and anything attached to it) down. An unknown id is a
    /// no-op.
    pub fn apply_despawn(&mut self, message: &DespawnEvent) -> (removed: Option<u64>)
        requires
            old(self).wf(),
        ensures
            final(self).wf(),
            final(self).network_mapping.server@ == old(self).network_mapping.server@.remove(
                message.0,
            ),
            removed == if old(self).network_mapping.server@.contains_key(message.0) {
                Some(old(self).network_mapping.server@[message.0])
            } else {
                Option::<u64>::None
            },
            !final(self).network_mapping.server@.contains_key(message.0),
            forall|l: u64| #[trigger]
                final(self).network_mapping.client@.contains_key(l) ==> final(self).network_mapping.client@[l] != message.0,
            final(self).tick == old(self).tick,
            final(self).lobby.clients@ == old(self).lobby.clients@,
            final(self).next_local_id == old(self).next_local_id,
    {
        self.network_mapping.remove_by_server(message.0)
    }

    /// Mirror the server clock from a tick broadcast.
    pub fn apply_tick(&mut self, message: &TickEvent)
        ensures
            final(self).tick == message.0,
            final(self).network_mapping == old(self).network_mapping,
            final(self).lobby.clients@ == old(self).lobby.clients@,
            final(self).next_local_id == old(self).next_local_id,
    {
        self.tick = message.0;
    }
}

} // verus!
