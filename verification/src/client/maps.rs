//! The connections of a client, by id.

use std::collections::hash_map::Entry;
use std::collections::HashMap;

use vstd::prelude::*;
#[allow(unused_imports)]
use vstd::std_specs::iter::IteratorSpec;

use crate::client::connection::{ClientConnection, ConnectionLocalId};
#[allow(unused_imports)]
use crate::shared::listing::lists_keys;
use crate::shared::peer_connection::PeerConnection;

verus! {

broadcast use vstd::std_specs::hash::group_hash_axioms;

/// The connection of an id, to be changed in place.
pub fn connection_of_mut(
    connections: &mut HashMap<ConnectionLocalId, PeerConnection<ClientConnection>>,
    id: ConnectionLocalId,
) -> (r: Option<&mut PeerConnection<ClientConnection>>)
    ensures
        r is Some <==> old(connections)@.contains_key(id),
        match r {
            Some(connection) => {
                &&& *connection == old(connections)@[id]
                &&& final(connections)@ == old(connections)@.insert(id, *final(connection))
            },
            None => final(connections)@ == old(connections)@,
        },
{
    match connections.entry(id) {
        Entry::Occupied(entry) => Some(entry.into_mut()),
        Entry::Vacant(_) => None,
    }
}

/// The ids of the connections, each once, in any order.
pub fn connection_ids(
    connections: &HashMap<ConnectionLocalId, PeerConnection<ClientConnection>>,
) -> (r: Vec<ConnectionLocalId>)
    ensures
        lists_keys(r@, connections@),
{
    let ghost all = vstd::std_specs::hash::spec_keys_iter(connections).remaining().unref();
    let mut ids: Vec<ConnectionLocalId> = Vec::new();
    for id in iter: connections.keys()
        invariant
            all == iter.seq().unref(),
            ids@ == all.take(iter.index()),
    {
        ids.push(*id);
        assert(ids@ =~= all.take(iter.index() + 1));
    }
    proof {
        assert(ids@ =~= all);
        assert(all.to_set() == connections@.dom());
        assert forall|id: ConnectionLocalId| #[trigger] ids@.contains(id) <==> connections@
            .contains_key(id) by {
            assert(all.to_set().contains(id) <==> all.contains(id));
        }
    }
    ids
}

} // verus!
