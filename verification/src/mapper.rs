//! Client-side entity-id virtualization: a bidirectional map between
//! server-assigned ids and client-local ids, maintained as one atomic
//! unit. This is the only component allowed to translate between the two
//! namespaces.

use vstd::prelude::*;
use std::collections::HashMap;

verus! {

broadcast use vstd::std_specs::hash::group_hash_axioms;

/// The bijective id map. `client` is keyed by client-local ids and yields
/// server ids; `server` is keyed by server ids and yields client-local
/// ids. Every insertion writes both directions and every removal removes
/// both, so the mapping is a bijection at all times.
pub struct NetworkMapping {
    pub client: HashMap<u64, u64>,
    pub server: HashMap<u64, u64>,
}

impl NetworkMapping {
    /// The two directions are inverses of one another.
    pub open spec fn wf(self) -> bool {
        &&& forall|l: u64| #[trigger]
            self.client@.contains_key(l) ==> self.server@.contains_key(self.client@[l])
                && self.server@[self.client@[l]] == l
        &&& forall|s: u64| #[trigger]
            self.server@.contains_key(s) ==> self.client@.contains_key(self.server@[s])
                && self.client@[self.server@[s]] == s
    }

    /// An empty mapping.
    pub fn new() -> (m: NetworkMapping)
        ensures
            m.client@ == Map::<u64, u64>::empty(),
            m.server@ == Map::<u64, u64>::empty(),
            m.wf(),
    {
        NetworkMapping { client: HashMap::new(), server: HashMap::new() }
    }

    /// Record that server id `server_entity` is materialized locally as
    /// `client_entity`. Both ids must be fresh, which keeps the mapping a
    /// bijection.
    pub fn add(&mut self, client_entity: u64, server_entity: u64)
        requires
            !old(self).client@.contains_key(client_entity),
            !old(self).server@.contains_key(server_entity),
        ensures
            final(self).client@ == old(self).client@.insert(client_entity, server_entity),
            final(self).server@ == old(self).server@.insert(server_entity, client_entity),
            old(self).wf() ==> final(self).wf(),
    {
        self.client.insert(client_entity, server_entity);
        self.server.insert(server_entity, client_entity);
    }

    /// The server id of a local id, if that local id is mapped.
    pub fn get_server(&self, client_entity: u64) -> (r: Option<u64>)
        ensures
            r == if self.client@.contains_key(client_entity) {
                Some(self.client@[client_entity])
            } else {
                Option::<u64>::None
            },
    {
        match self.client.get(&client_entity) {
            Some(s) => Some(*s),
            None => None,
        }
    }

    /// The local id of a server id, if that server id is mapped.
    pub fn get_client(&self, server_entity: u64) -> (r: Option<u64>)
        ensures
            r == if self.server@.contains_key(server_entity) {
                Some(self.server@[server_entity])
            } else {
                Option::<u64>::None
            },
    {
        match self.server.get(&server_entity) {
            Some(l) => Some(*l),
            None => None,
        }
    }

    /// Is this server id currently materialized locally?
    pub fn contains_server(&self, server_entity: u64) -> (r: bool)
        ensures
            r == self.server@.contains_key(server_entity),
    {
        self.server.contains_key(&server_entity)
    }

    /// Remove the pair keyed by server id `server_entity` from both
    /// directions, returning the local id it resolved to. Afterwards
    /// neither direction resolves the removed pair.
    pub fn remove_by_server(&mut self, server_entity: u64) -> (r: Option<u64>)
        requires
            old(self).wf(),
        ensures
            final(self).wf(),
            final(self).server@ == old(self).server@.remove(server_entity),
            r == if old(self).server@.contains_key(server_entity) {
                Some(old(self).server@[server_entity])
            } else {
                Option::<u64>::None
            },
            old(self).server@.contains_key(server_entity) ==> final(self).client@ == old(self).client@.remove(old(self).server@[server_entity]),
            !old(self).server@.contains_key(server_entity) ==> final(self).client@ == old(self).client@,
            !final(self).server@.contains_key(server_entity),
            forall|l: u64| #[trigger]
                final(self).client@.contains_key(l) ==> final(self).client@[l] != server_entity,
    {
        match self.server.remove(&server_entity) {
            Some(local) => {
                self.client.remove(&local);
                assert forall|l: u64| #[trigger]
                    self.client@.contains_key(l) implies self.client@[l] != server_entity by {
                    if self.client@[l] == server_entity {
                        assert(old(self).client@.contains_key(l));
                        assert(old(self).server@[server_entity] == l);
                    }
                }
                Some(local)
            },
            None => {
                assert forall|l: u64| #[trigger]
                    self.client@.contains_key(l) implies self.client@[l] != server_entity by {
                    if self.client@[l] == server_entity {
                        assert(old(self).server@.contains_key(server_entity));
                    }
                }
                None
            },
        }
    }
}

impl NetworkMapping {
    /// Remove the pair keyed by local id `client_entity` from both
    /// directions, returning the server id it resolved to. Afterwards
    /// neither direction resolves the removed pair.
    pub fn remove_by_client(&mut self, client_entity: u64) -> (r: Option<u64>)
        requires
            old(self).wf(),
        ensures
            final(self).wf(),
            final(self).client@ == old(self).client@.remove(client_entity),
            r == if old(self).client@.contains_key(client_entity) {
                Some(old(self).client@[client_entity])
            } else {
                Option::<u64>::None
            },
            old(self).client@.contains_key(client_entity) ==> final(self).server@ == old(
                self,
            ).server@.remove(old(self).client@[client_entity]),
            !old(self).client@.contains_key(client_entity) ==> final(self).server@ == old(
                self,
            ).server@,
            !final(self).client@.contains_key(client_entity),
            forall|s: u64| #[trigger]
                final(self).server@.contains_key(s) ==> final(self).server@[s] != client_entity,
    {
        match self.client.remove(&client_entity) {
            Some(server) => {
                self.server.remove(&server);
                assert forall|s: u64| #[trigger]
                    self.server@.contains_key(s) implies self.server@[s] != client_entity by {
                    if self.server@[s] == client_entity {
                        assert(old(self).server@.contains_key(s));
                        assert(old(self).client@[client_entity] == s);
                    }
                }
                Some(server)
            },
            None => {
                assert forall|s: u64| #[trigger]
                    self.server@.contains_key(s) implies self.server@[s] != client_entity by {
                    if self.server@[s] == client_entity {
                        assert(old(self).client@.contains_key(client_entity));
                    }
                }
                None
            },
        }
    }
}

/// The mapping is a bijection: a server id `s` mapped to local id `l`
/// always resolves back, `client[l] == s` and `server[s] == l`, in both
/// reading orders; in particular no server id maps to two local ids and no
/// local id to two server ids.
pub proof fn lemma_mapping_bijection(m: NetworkMapping)
    requires
        m.wf(),
    ensures
        forall|s: u64, l: u64|
            m.server@.contains_key(s) && m.server@[s] == l ==> m.client@.contains_key(l)
                && m.client@[l] == s,
        forall|l: u64, s: u64|
            m.client@.contains_key(l) && m.client@[l] == s ==> m.server@.contains_key(s)
                && m.server@[s] == l,
        forall|s1: u64, s2: u64|
            m.server@.contains_key(s1) && m.server@.contains_key(s2) && m.server@[s1]
                == m.server@[s2] ==> s1 == s2,
        forall|l1: u64, l2: u64|
            m.client@.contains_key(l1) && m.client@.contains_key(l2) && m.client@[l1]
                == m.client@[l2] ==> l1 == l2,
{
}

} // verus!
