//! The hash maps of a server endpoint, which are those of bevy.

use bevy_platform::collections::HashMap;
use vstd::prelude::*;

use crate::server::connection::ServerConnection;
use crate::shared::channels::{ChannelConfig, ChannelId};
#[allow(unused_imports)]
use crate::shared::listing::{lists_entries, lists_keys};
use crate::shared::peer_connection::PeerConnection;
use crate::shared::ClientId;

verus! {

/// A hash map whose hasher is fixed.
#[verifier::external_type_specification]
#[verifier::external_body]
#[verifier::reject_recursive_types(K)]
#[verifier::reject_recursive_types(V)]
#[verifier::reject_recursive_types(S)]
pub struct ExBevyHashMap<K, V, S>(bevy_platform::collections::HashMap<K, V, S>);

/// The hasher of these maps.
#[verifier::external_type_specification]
#[verifier::external_body]
pub struct ExFixedHasher(bevy_platform::hash::FixedHasher);

/// What a map from clients to their connections holds.
pub uninterp spec fn client_map(
    map: HashMap<ClientId, PeerConnection<ServerConnection>>,
) -> Map<ClientId, PeerConnection<ServerConnection>>;

/// What a map from channels to their configs holds.
pub uninterp spec fn channel_map(
    map: HashMap<ChannelId, ChannelConfig>,
) -> Map<ChannelId, ChannelConfig>;

/// The map without clients.
pub open spec fn no_clients() -> Map<ClientId, PeerConnection<ServerConnection>> {
    Map::empty()
}

/// The map without channels.
pub open spec fn no_channels() -> Map<ChannelId, ChannelConfig> {
    Map::empty()
}

/// `HashMap::new`: a map without entries.
#[verifier::external_body]
pub(crate) fn clients_new() -> (r: HashMap<ClientId, PeerConnection<ServerConnection>>)
    ensures
        client_map(r) == no_clients(),
{
    HashMap::new()
}

/// `HashMap::insert`: maps `id` to `connection`, and gives back the connection
/// that it was mapped to.
#[verifier::external_body]
pub(crate) fn clients_insert(
    map: &mut HashMap<ClientId, PeerConnection<ServerConnection>>,
    id: ClientId,
    connection: PeerConnection<ServerConnection>,
) -> (r: Option<PeerConnection<ServerConnection>>)
    ensures
        client_map(*final(map)) == client_map(*old(map)).insert(id, connection),
        r is Some <==> client_map(*old(map)).contains_key(id),
        r matches Some(previous) ==> previous == client_map(*old(map))[id],
{
    map.insert(id, connection)
}

/// `HashMap::remove`: takes the entry of `id` out, and gives back its
/// connection.
#[verifier::external_body]
pub(crate) fn clients_remove(
    map: &mut HashMap<ClientId, PeerConnection<ServerConnection>>,
    id: ClientId,
) -> (r: Option<PeerConnection<ServerConnection>>)
    ensures
        client_map(*final(map)) == client_map(*old(map)).remove(id),
        r is Some <==> client_map(*old(map)).contains_key(id),
        r matches Some(connection) ==> connection == client_map(*old(map))[id],
{
    map.remove(&id)
}

/// `HashMap::get`: the connection that `id` is mapped to.
#[verifier::external_body]
pub(crate) fn clients_get(
    map: &HashMap<ClientId, PeerConnection<ServerConnection>>,
    id: ClientId,
) -> (r: Option<&PeerConnection<ServerConnection>>)
    ensures
        r is Some <==> client_map(*map).contains_key(id),
        r matches Some(connection) ==> *connection == client_map(*map)[id],
{
    map.get(&id)
}

/// `HashMap::get_mut`: the connection that `id` is mapped to, to be changed in
/// place.
#[verifier::external_body]
pub(crate) fn clients_get_mut(
    map: &mut HashMap<ClientId, PeerConnection<ServerConnection>>,
    id: ClientId,
) -> (r: Option<&mut PeerConnection<ServerConnection>>)
    ensures
        r is Some <==> client_map(*old(map)).contains_key(id),
        r is None ==> client_map(*final(map)) == client_map(*old(map)),
        r matches Some(connection) ==> *connection == client_map(*old(map))[id] && client_map(
            *final(map),
        ) == client_map(*old(map)).insert(id, *final(connection)),
{
    map.get_mut(&id)
}

/// `HashMap::contains_key`: whether `id` is mapped to a connection.
#[verifier::external_body]
pub(crate) fn clients_contains(
    map: &HashMap<ClientId, PeerConnection<ServerConnection>>,
    id: ClientId,
) -> (r: bool)
    ensures
        r == client_map(*map).contains_key(id),
{
    map.contains_key(&id)
}

/// `HashMap::keys`: every client, each once; of their order nothing is claimed.
#[verifier::external_body]
pub(crate) fn clients_keys(map: &HashMap<ClientId, PeerConnection<ServerConnection>>) -> (r: Vec<
    ClientId,
>)
    ensures
        lists_keys(r@, client_map(*map)),
{
    map.keys().copied().collect()
}

/// `HashMap::drain`: every entry, each once, and the map is empty afterwards; of
/// their order nothing is claimed.
#[verifier::external_body]
pub(crate) fn clients_drain(
    map: &mut HashMap<ClientId, PeerConnection<ServerConnection>>,
) -> (r: Vec<(ClientId, PeerConnection<ServerConnection>)>)
    ensures
        lists_entries(r@, client_map(*old(map))),
        client_map(*final(map)) == no_clients(),
{
    map.drain().collect()
}

/// `HashMap::new`: a map without entries.
#[verifier::external_body]
pub(crate) fn channels_new() -> (r: HashMap<ChannelId, ChannelConfig>)
    ensures
        channel_map(r) == no_channels(),
{
    HashMap::new()
}

/// `HashMap::insert`: maps `id` to `config`, and gives back the config that it
/// was mapped to.
#[verifier::external_body]
pub(crate) fn channels_insert(
    map: &mut HashMap<ChannelId, ChannelConfig>,
    id: ChannelId,
    config: ChannelConfig,
) -> (r: Option<ChannelConfig>)
    ensures
        channel_map(*final(map)) == channel_map(*old(map)).insert(id, config),
        r is Some <==> channel_map(*old(map)).contains_key(id),
        r matches Some(previous) ==> previous == channel_map(*old(map))[id],
{
    map.insert(id, config)
}

/// `HashMap::remove`: takes the entry of `id` out, and gives back its config.
#[verifier::external_body]
pub(crate) fn channels_remove(map: &mut HashMap<ChannelId, ChannelConfig>, id: ChannelId) -> (r:
    Option<ChannelConfig>)
    ensures
        channel_map(*final(map)) == channel_map(*old(map)).remove(id),
        r is Some <==> channel_map(*old(map)).contains_key(id),
        r matches Some(config) ==> config == channel_map(*old(map))[id],
{
    map.remove(&id)
}

/// `HashMap::iter`: every entry, each once; of their order nothing is claimed.
#[verifier::external_body]
pub(crate) fn channels_iter(map: &HashMap<ChannelId, ChannelConfig>) -> (r: Vec<
    (ChannelId, ChannelConfig),
>)
    ensures
        lists_entries(r@, channel_map(*map)),
{
    map.iter().map(|entry| (*entry.0, *entry.1)).collect()
}

} // verus!
