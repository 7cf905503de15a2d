//! The endpoint of a server.

use bevy_platform::collections::HashMap;
use iroh::Endpoint;
use tokio::sync::{broadcast, mpsc};
use vstd::prelude::*;

use crate::server::connection::ServerConnection;
#[allow(unused_imports)]
use crate::server::connection::{acked, ServerConnectionView};
#[allow(unused_imports)]
use crate::server::laws::law_refused_client_is_told;
#[allow(unused_imports)]
use crate::server::maps::{channel_map, client_map};
use crate::server::maps::{
    channels_iter, channels_new, clients_drain, clients_get, clients_get_mut, clients_insert,
    clients_keys, clients_new, clients_remove,
};
use crate::server::{EndpointAlreadyClosed, ServerAsyncMessage, ServerDisconnectError};
use crate::shared::channels::{ChannelConfig, ChannelId, CloseReason};
use crate::shared::error::{AsyncChannelError, ConnectionAlreadyClosed};
#[allow(unused_imports)]
use crate::shared::channels::{links_for, Link};
#[allow(unused_imports)]
use crate::shared::laws::law_linked_channels;
#[allow(unused_imports)]
use crate::shared::listing::{lemma_listed_count, lists_entries, lists_keys};
#[allow(unused_imports)]
use crate::shared::peer_connection::{ChannelsIdsPoolView, PeerConnectionView};
use crate::shared::peer_connection::{ChannelsIdsPool, PeerConnection, RecvChannelsConfiguration};
#[allow(unused_imports)]
use crate::shared::queues::{listeners_told, Answer, Batch};
use crate::shared::queues::{Broadcaster, Inbox, RecvFailure};
use crate::shared::ClientId;

pub mod channels;
pub mod events;
pub mod receive;
pub mod send;

verus! {

/// Basic stats about this server endpoint.
#[derive(Debug, Copy, Clone, PartialEq, Eq, Structural)]
pub struct EndpointStats {
    /// How many clients were accepted.
    pub connect_count: u32,
    /// How many clients were disconnected.
    pub disconnect_count: u32,
}

impl EndpointStats {
    /// Returns how many connection events occurred on this endpoint.
    pub fn connect_count(&self) -> (r: u32)
        ensures
            r == self.connect_count,
    {
        self.connect_count
    }

    /// Returns how many disconnection events occurred on this endpoint.
    pub fn disconnect_count(&self) -> (r: u32)
        ensures
            r == self.disconnect_count,
    {
        self.disconnect_count
    }
}

impl Default for EndpointStats {
    fn default() -> (r: Self)
        ensures
            r == (EndpointStats { connect_count: 0, disconnect_count: 0 }),
    {
        EndpointStats { connect_count: 0, disconnect_count: 0 }
    }
}

/// What a server endpoint amounts to.
#[verifier::ext_equal]
pub struct ServerEndpointView {
    /// The connected clients.
    pub clients: Map<ClientId, PeerConnectionView<ServerConnectionView>>,
    /// The iroh endpoint.
    pub raw: Endpoint,
    /// The client id given last.
    pub client_id_gen: ClientId,
    /// The open channels.
    pub opened_channels: Map<ChannelId, ChannelConfig>,
    /// The channel ids that are left, and the default channel.
    pub send_channel_ids: ChannelsIdsPoolView,
    /// Its half of the queue of orders to stop listening.
    pub close_half: broadcast::Sender<()>,
    /// The orders to stop listening, oldest first: whether a task heard each.
    pub shutdowns: Seq<bool>,
    /// Its half of the queue of messages of the async tasks.
    pub messages_half: mpsc::Receiver<ServerAsyncMessage>,
    /// What that queue answered, oldest first.
    pub messages: Seq<Result<ServerAsyncMessage, RecvFailure>>,
    /// The stats.
    pub stats: EndpointStats,
    /// How received payloads are kept.
    pub recv_channels_cfg: RecvChannelsConfiguration,
}

/// Server-side endpoint that manages client connections.
pub struct ServerEndpoint {
    /// The connected clients.
    pub clients: HashMap<ClientId, PeerConnection<ServerConnection>>,
    /// The raw iroh endpoint.
    pub raw: Endpoint,
    /// The client id given last.
    pub client_id_gen: ClientId,
    /// Opened send channels configs on this endpoint.
    pub opened_channels: HashMap<ChannelId, ChannelConfig>,
    /// Internal ordered pool of available channel ids.
    pub send_channel_ids: ChannelsIdsPool,
    /// Order to the async task to stop listening.
    pub close_sender: Broadcaster<()>,
    /// Receiver for internal messages sent by the async endpoint task.
    pub from_async_endpoint_recv: Inbox<ServerAsyncMessage>,
    /// The stats.
    pub stats: EndpointStats,
    /// How received payloads are kept.
    pub recv_channels_cfg: RecvChannelsConfiguration,
}

/// What each client of a map amounts to.
pub open spec fn client_views(
    clients: Map<ClientId, PeerConnection<ServerConnection>>,
) -> Map<ClientId, PeerConnectionView<ServerConnectionView>> {
    Map::new(|id: ClientId| clients.contains_key(id), |id: ClientId| clients[id]@)
}

/// Whether each of some orders to stop listening was heard.
pub open spec fn heard_orders(calls: Seq<((), bool)>) -> Seq<bool> {
    calls.map_values(|c: ((), bool)| c.1)
}

impl View for ServerEndpoint {
    type V = ServerEndpointView;

    open spec fn view(&self) -> ServerEndpointView {
        ServerEndpointView {
            clients: client_views(client_map(self.clients)),
            raw: self.raw,
            client_id_gen: self.client_id_gen,
            opened_channels: channel_map(self.opened_channels),
            send_channel_ids: self.send_channel_ids@,
            close_half: self.close_sender.half(),
            shutdowns: heard_orders(self.close_sender.calls()),
            messages_half: self.from_async_endpoint_recv.half(),
            messages: self.from_async_endpoint_recv.answers(),
            stats: self.stats,
            recv_channels_cfg: self.recv_channels_cfg,
        }
    }
}

impl ServerEndpointView {
    /// Clients have ids that were given to them, and every client that was
    /// accepted is here or was disconnected.
    pub open spec fn wf(self) -> bool {
        &&& self.clients.dom().finite()
        &&& forall|id: ClientId| #[trigger]
            self.clients.contains_key(id) ==> 1 <= id <= self.client_id_gen
        &&& self.stats.disconnect_count + self.clients.dom().len() == self.stats.connect_count
        &&& self.stats.connect_count <= self.client_id_gen
    }

    /// An open channel has an id that cannot be taken, and every client has the
    /// channel.
    pub open spec fn consistent(self) -> bool {
        &&& forall|channel: ChannelId| #[trigger]
            self.opened_channels.contains_key(channel)
                ==> !self.send_channel_ids.available.contains(channel)
        &&& forall|id: ClientId, channel: ChannelId|
            self.clients.contains_key(id) && self.opened_channels.contains_key(channel)
                ==> #[trigger] self.clients[id].channels.contains_key(channel)
    }

    /// What holds of an endpoint that is only changed by its own operations.
    pub open spec fn sound(self) -> bool {
        self.wf() && self.consistent()
    }

    /// The endpoint once a client is disconnected.
    pub open spec fn disconnect(self, client_id: ClientId) -> Self {
        ServerEndpointView {
            clients: self.clients.remove(client_id),
            stats: EndpointStats {
                disconnect_count: (self.stats.disconnect_count + 1) as u32,
                ..self.stats
            },
            ..self
        }
    }

    /// The endpoint once every client is disconnected.
    pub open spec fn without_clients(self) -> Self {
        ServerEndpointView {
            clients: Map::empty(),
            stats: EndpointStats {
                disconnect_count: (self.stats.disconnect_count + self.clients.dom().len()) as u32,
                ..self.stats
            },
            ..self
        }
    }

    /// Every client was ordered to close its connection.
    pub open spec fn all_told(self) -> bool {
        forall|id: ClientId| #[trigger]
            self.clients.contains_key(id) ==> self.clients[id].told(CloseReason::LocalOrder)
    }

    /// The task that accepts connections was ordered to stop, which it has `heard`
    /// or not.
    pub open spec fn accepting_stopped(self, heard: bool) -> bool {
        listeners_told(self.close_half, (), heard)
    }

    /// `self` is the endpoint once it was shut down: every client was ordered to
    /// close and is disconnected, and the task that accepts connections was
    /// ordered to stop, which it has `heard` or not.
    pub open spec fn shut_down(self, pre: Self, heard: bool) -> bool {
        &&& pre.all_told()
        &&& pre.accepting_stopped(heard)
        &&& self == (ServerEndpointView {
            shutdowns: pre.shutdowns.push(heard),
            ..pre.without_clients()
        })
    }

    /// The endpoint once messages were taken from the async tasks.
    pub open spec fn with_messages(self, messages: Batch<ServerAsyncMessage>) -> Self {
        ServerEndpointView { messages: self.messages + messages.answers(), ..self }
    }

    /// The endpoint once a client is accepted with its connection.
    pub open spec fn accept(self, connection: PeerConnectionView<ServerConnectionView>) -> Self {
        let client_id = (self.client_id_gen + 1) as ClientId;
        ServerEndpointView {
            clients: self.clients.insert(client_id, connection),
            client_id_gen: client_id,
            stats: EndpointStats {
                connect_count: (self.stats.connect_count + 1) as u32,
                ..self.stats
            },
            ..self
        }
    }

    /// There is an id left for one more client, and the count of clients has not
    /// come to its end.
    pub open spec fn has_room(self) -> bool {
        self.stats.connect_count < u32::MAX && self.client_id_gen < ClientId::MAX
    }

    /// `refused` is what a connection came to that was turned away with `e`, and
    /// `self` the endpoint after it. Its tasks refused one of the open channels, or,
    /// once an id was spent on it, that id. In either case they were ordered to close
    /// it.
    pub open spec fn refuses(
        self,
        pre: Self,
        connection: PeerConnectionView<ServerConnectionView>,
        refused: PeerConnectionView<ServerConnectionView>,
        e: AsyncChannelError,
    ) -> bool {
        exists|entries: Seq<(ChannelId, ChannelConfig)>| #[trigger]
            lists_entries(entries, pre.opened_channels) && {
                ||| self == pre && refused.closed_over(connection, entries, e)
                ||| {
                    let id = (pre.client_id_gen + 1) as ClientId;
                    &&& e == AsyncChannelError::InternalChannelClosed
                    &&& self == (ServerEndpointView { client_id_gen: id, ..pre })
                    &&& exists|links: Seq<Link>| #[trigger]
                        links_for(links, entries) && connection.took_each(links)
                            && refused.unacknowledged(connection.link_each(links), id)
                }
            }
    }

    /// `r` is what handling a new connection can result in, and `self` the
    /// endpoint after it. The connection is accepted with every open channel, in
    /// any order, and with a fresh client id that its task was told.
    pub open spec fn accepts(
        self,
        pre: Self,
        connection: PeerConnectionView<ServerConnectionView>,
        r: Result<ClientId, AsyncChannelError>,
    ) -> bool {
        match r {
            Ok(id) => {
                &&& id == pre.client_id_gen + 1
                &&& exists|entries: Seq<(ChannelId, ChannelConfig)>, links: Seq<Link>|
                    lists_entries(entries, pre.opened_channels) && #[trigger] links_for(
                        links,
                        entries,
                    ) && self == pre.accept(acked(connection.link_each(links), id, Answer::Taken))
            },
            Err(e) => {
                &&& connection.told(CloseReason::LocalOrder)
                &&& exists|refused: PeerConnectionView<ServerConnectionView>| #[trigger]
                    self.refuses(pre, connection, refused, e)
            },
        }
    }
}

impl ServerEndpoint {
    /// An endpoint without clients and channels.
    pub fn new(
        raw: Endpoint,
        endpoint_close_send: broadcast::Sender<()>,
        from_async_endpoint_recv: mpsc::Receiver<ServerAsyncMessage>,
        recv_channels_cfg: RecvChannelsConfiguration,
    ) -> (r: Self)
        ensures
            r@.sound(),
            r@ == (ServerEndpointView {
                clients: Map::empty(),
                raw,
                client_id_gen: 0,
                opened_channels: Map::empty(),
                send_channel_ids: ChannelsIdsPoolView::full(),
                close_half: endpoint_close_send,
                shutdowns: Seq::empty(),
                messages_half: from_async_endpoint_recv,
                messages: Seq::empty(),
                stats: EndpointStats { connect_count: 0, disconnect_count: 0 },
                recv_channels_cfg,
            }),
    {
        let r = ServerEndpoint {
            clients: clients_new(),
            raw,
            client_id_gen: 0,
            opened_channels: channels_new(),
            send_channel_ids: ChannelsIdsPool::new(),
            close_sender: Broadcaster::new(endpoint_close_send),
            from_async_endpoint_recv: Inbox::new(from_async_endpoint_recv),
            stats: EndpointStats::default(),
            recv_channels_cfg,
        };
        assert(r@.clients =~= Map::empty());
        assert(r@.shutdowns =~= Seq::empty());
        assert(r@.clients.dom() =~= Set::<ClientId>::empty());
        r
    }

    /// Takes a client out, and closes its connection.
    fn internal_disconnect_client(
        &mut self,
        client_id: ClientId,
        reason: CloseReason,
    ) -> (r: Result<(), ServerDisconnectError>)
        requires
            old(self)@.wf(),
        ensures
            final(self)@.wf(),
            old(self)@.sound() ==> final(self)@.sound(),
            if old(self)@.clients.contains_key(client_id) {
                &&& final(self)@ == old(self)@.disconnect(client_id)
                &&& old(self)@.clients[client_id].was_told(reason, r is Ok)
                &&& r is Ok || r == Err::<(), _>(
                    ServerDisconnectError::ClientAlreadyDisconnected(client_id),
                )
            } else {
                &&& final(self)@ == old(self)@
                &&& r == Err::<(), _>(ServerDisconnectError::UnknownClient(client_id))
            },
    {
        match clients_remove(&mut self.clients, client_id) {
            Some(mut connection) => {
                assert(old(self)@.clients.dom().contains(client_id));
                assert(self@.clients =~= old(self)@.clients.remove(client_id));
                assert(self@.clients.dom() =~= old(self)@.clients.dom().remove(client_id));
                self.stats.disconnect_count = self.stats.disconnect_count + 1;
                assert(self@ =~= old(self)@.disconnect(client_id));
                let closed = connection.close(reason);
                disconnect_result(client_id, closed)
            },
            None => {
                assert(self@.clients =~= old(self)@.clients);
                Err(ServerDisconnectError::UnknownClient(client_id))
            },
        }
    }

    /// Takes out a client whose peer closed the connection, if it is there.
    pub fn try_disconnect_closed_client(&mut self, client_id: ClientId)
        requires
            old(self)@.wf(),
        ensures
            final(self)@.wf(),
            old(self)@.sound() ==> final(self)@.sound(),
            final(self)@ == if old(self)@.clients.contains_key(client_id) {
                old(self)@.disconnect(client_id)
            } else {
                old(self)@
            },
            old(self)@.clients.contains_key(client_id) ==> old(self)@.clients[client_id].told(
                CloseReason::PeerClosed,
            ),
    {
        let r = self.internal_disconnect_client(client_id, CloseReason::PeerClosed);
        assert(old(self)@.clients.contains_key(client_id) ==> old(
            self,
        )@.clients[client_id].was_told(CloseReason::PeerClosed, r is Ok));
    }

    /// Disconnects a client.
    pub fn disconnect_client(&mut self, client_id: ClientId) -> (r: Result<
        (),
        ServerDisconnectError,
    >)
        requires
            old(self)@.wf(),
        ensures
            final(self)@.wf(),
            old(self)@.sound() ==> final(self)@.sound(),
            if old(self)@.clients.contains_key(client_id) {
                &&& final(self)@ == old(self)@.disconnect(client_id)
                &&& old(self)@.clients[client_id].was_told(CloseReason::LocalOrder, r is Ok)
                &&& r is Ok || r == Err::<(), _>(
                    ServerDisconnectError::ClientAlreadyDisconnected(client_id),
                )
            } else {
                &&& final(self)@ == old(self)@
                &&& r == Err::<(), _>(ServerDisconnectError::UnknownClient(client_id))
            },
    {
        self.internal_disconnect_client(client_id, CloseReason::LocalOrder)
    }

    /// [`Self::disconnect_client`], whatever comes of it.
    pub fn try_disconnect_client(&mut self, client_id: ClientId)
        requires
            old(self)@.wf(),
        ensures
            final(self)@.wf(),
            old(self)@.sound() ==> final(self)@.sound(),
            final(self)@ == if old(self)@.clients.contains_key(client_id) {
                old(self)@.disconnect(client_id)
            } else {
                old(self)@
            },
            old(self)@.clients.contains_key(client_id) ==> old(self)@.clients[client_id].told(
                CloseReason::LocalOrder,
            ),
    {
        let r = self.disconnect_client(client_id);
        assert(old(self)@.clients.contains_key(client_id) ==> old(
            self,
        )@.clients[client_id].was_told(CloseReason::LocalOrder, r is Ok));
    }

    /// Disconnects every client.
    pub fn disconnect_all_clients(&mut self)
        requires
            old(self)@.wf(),
        ensures
            final(self)@.wf(),
            old(self)@.sound() ==> final(self)@.sound(),
            final(self)@ == old(self)@.without_clients(),
            old(self)@.all_told(),
    {
        let connections = clients_drain(&mut self.clients);
        let ghost all = connections@;
        let ghost ids = all.map_values(|e: (ClientId, PeerConnection<ServerConnection>)| e.0);
        proof {
            assert(self@.clients =~= Map::empty());
            assert(lists_keys(ids, old(self)@.clients));
            lemma_listed_count(ids, old(self)@.clients);
        }
        for entry in iter: connections
            invariant
                all == iter.seq(),
                ids == all.map_values(|e: (ClientId, PeerConnection<ServerConnection>)| e.0),
                old(self)@.stats.disconnect_count + all.len() <= u32::MAX,
                self@ == (ServerEndpointView {
                    clients: Map::empty(),
                    stats: EndpointStats {
                        disconnect_count: (old(self)@.stats.disconnect_count
                            + iter.index()) as u32,
                        ..old(self)@.stats
                    },
                    ..old(self)@
                }),
                forall|i: int|
                    0 <= i < all.len() ==> old(self)@.clients.contains_key((#[trigger] all[i]).0)
                        && all[i].1@ == old(self)@.clients[all[i].0],
                forall|i: int|
                    0 <= i < iter.index() ==> old(
                        self,
                    )@.clients[(#[trigger] all[i]).0].told(CloseReason::LocalOrder),
        {
            let (client_id, mut connection) = entry;
            assert(all[iter.index()].0 == client_id);
            let closed = connection.close(CloseReason::LocalOrder);
            assert(old(self)@.clients[client_id].was_told(CloseReason::LocalOrder, closed is Ok));
            self.stats.disconnect_count = self.stats.disconnect_count + 1;
        }
        proof {
            assert(self@ =~= old(self)@.without_clients());
            assert(self@.clients.dom() =~= Set::<ClientId>::empty());
            assert forall|id: ClientId| #[trigger]
                old(self)@.clients.contains_key(id) implies old(self)@.clients[id].told(
                CloseReason::LocalOrder,
            ) by {
                assert(ids.contains(id));
                let i = choose|i: int| 0 <= i < ids.len() && ids[i] == id;
                assert(all[i].0 == id);
            }
        }
    }

    /// Orders the async task that accepts connections to stop, once. It fails when
    /// that task is gone.
    pub fn close_incoming_connections_handler(&mut self) -> (r: Result<(), AsyncChannelError>)
        ensures
            old(self)@.wf() ==> final(self)@.wf(),
            old(self)@.sound() ==> final(self)@.sound(),
            final(self)@ == (ServerEndpointView {
                shutdowns: old(self)@.shutdowns.push(r is Ok),
                ..old(self)@
            }),
            old(self)@.accepting_stopped(r is Ok),
            r matches Err(e) ==> e == AsyncChannelError::InternalChannelClosed,
    {
        let heard = self.close_sender.send(());
        assert(self@.shutdowns =~= old(self)@.shutdowns.push(heard));
        if heard {
            Ok(())
        } else {
            Err(AsyncChannelError::InternalChannelClosed)
        }
    }

    /// Disconnects every client, and orders the async task that accepts
    /// connections to stop. It fails when that task is gone.
    pub fn shut_down(&mut self) -> (r: Result<(), EndpointAlreadyClosed>)
        requires
            old(self)@.wf(),
        ensures
            final(self)@.wf(),
            old(self)@.sound() ==> final(self)@.sound(),
            final(self)@.shut_down(old(self)@, r is Ok),
    {
        self.disconnect_all_clients();
        match self.close_incoming_connections_handler() {
            Ok(()) => Ok(()),
            Err(_) => Err(EndpointAlreadyClosed),
        }
    }

    /// Whether there is an id left for one more client, and the count of clients has
    /// not come to its end.
    pub fn has_room(&self) -> (r: bool)
        ensures
            r == self@.has_room(),
    {
        self.stats.connect_count < u32::MAX && self.client_id_gen < u64::MAX
    }

    /// Accepts a connection under a fresh client id, with every open channel.
    pub fn handle_new_connection(&mut self, connection: PeerConnection<ServerConnection>) -> (r:
        Result<ClientId, AsyncChannelError>)
        requires
            old(self)@.has_room(),
        ensures
            old(self)@.wf() ==> final(self)@.wf(),
            old(self)@.sound() ==> final(self)@.sound(),
            final(self)@.accepts(old(self)@, connection@, r),
    {
        let mut connection = connection;
        let ghost pre = connection@;
        let entries = channels_iter(&self.opened_channels);
        assert(lists_entries(entries@, old(self)@.opened_channels));
        match connection.open_channels(&entries) {
            Ok(()) => {},
            Err(e) => {
                assert(self@.refuses(old(self)@, pre, connection@, e));
                proof {
                    law_refused_client_is_told(old(self)@, self@, pre, connection@, e);
                }
                return Err(e);
            },
        }
        let ghost links = choose|links: Seq<Link>| #[trigger]
            links_for(links, entries@) && pre.took_each(links) && connection@ == pre.link_each(
                links,
            );
        self.client_id_gen = self.client_id_gen + 1;
        let client_id: ClientId = self.client_id_gen;
        if connection.acknowledge(client_id) {
            let _ = clients_insert(&mut self.clients, client_id, connection);
            self.stats.connect_count = self.stats.connect_count + 1;
            proof {
                let accepted = acked(pre.link_each(links), client_id, Answer::Taken);
                assert(self@.clients =~= old(self)@.clients.insert(client_id, accepted));
                assert(self@ =~= old(self)@.accept(accepted));
                lemma_accept_keeps_sound(old(self)@, pre, entries@, links);
            }
            Ok(client_id)
        } else {
            assert(connection@.unacknowledged(pre.link_each(links), client_id));
            assert(self@ =~= (ServerEndpointView { client_id_gen: client_id, ..old(self)@ }));
            assert(self@.refuses(
                old(self)@,
                pre,
                connection@,
                AsyncChannelError::InternalChannelClosed,
            ));
            proof {
                law_refused_client_is_told(
                    old(self)@,
                    self@,
                    pre,
                    connection@,
                    AsyncChannelError::InternalChannelClosed,
                );
            }
            Err(AsyncChannelError::InternalChannelClosed)
        }
    }

    /// Asks for the next message of the async tasks, once, and returns the answer of
    /// their queue.
    pub fn try_recv_from_async(&mut self) -> (r: Result<ServerAsyncMessage, RecvFailure>)
        ensures
            old(self)@.sound() ==> final(self)@.sound(),
            old(self)@.wf() ==> final(self)@.wf(),
            final(self)@ == (ServerEndpointView {
                messages: old(self)@.messages.push(r),
                ..old(self)@
            }),
    {
        self.from_async_endpoint_recv.try_recv()
    }

    /// Takes messages of the async tasks until their queue has none to give, and
    /// `limit` at most.
    pub fn drain_async_messages(&mut self, limit: usize) -> (r: Vec<ServerAsyncMessage>)
        ensures
            old(self)@.wf() ==> final(self)@.wf(),
            old(self)@.sound() ==> final(self)@.sound(),
            exists|messages: Batch<ServerAsyncMessage>| #[trigger]
                messages.complete(limit) && messages.messages == r@ && final(self)@ == old(
                    self,
                )@.with_messages(messages),
    {
        let r = self.from_async_endpoint_recv.drain(limit);
        proof {
            let batch = choose|batch: Batch<ServerAsyncMessage>| #[trigger]
                batch.complete(limit) && batch.messages == r@
                    && self.from_async_endpoint_recv.answers() == old(
                    self,
                ).from_async_endpoint_recv.answers() + batch.answers();
            assert(self@ =~= old(self)@.with_messages(batch));
        }
        r
    }

    /// Access the raw iroh endpoint for advanced use.
    pub fn raw_endpoint(&self) -> (r: &Endpoint)
        ensures
            *r == self@.raw,
    {
        &self.raw
    }

    /// Access the raw iroh endpoint mutably.
    pub fn raw_endpoint_mut(&mut self) -> (r: &mut Endpoint)
        ensures
            *r == old(self)@.raw,
            old(self)@.wf() ==> final(self)@.wf(),
            old(self)@.sound() ==> final(self)@.sound(),
            final(self)@ == (ServerEndpointView { raw: *final(r), ..old(self)@ }),
    {
        &mut self.raw
    }

    /// The ids of the connected clients, each once, in any order.
    pub fn clients(&self) -> (r: Vec<ClientId>)
        ensures
            lists_keys(r@, self@.clients),
    {
        clients_keys(&self.clients)
    }

    /// The connection of a client, to be changed in place.
    pub fn connection_mut(&mut self, client_id: ClientId) -> (r: Option<
        &mut PeerConnection<ServerConnection>,
    >)
        ensures
            r is Some <==> old(self)@.clients.contains_key(client_id),
            old(self)@.wf() ==> final(self)@.wf(),
            match r {
                Some(connection) => {
                    &&& (*connection)@ == old(self)@.clients[client_id]
                    &&& final(self)@ == (ServerEndpointView {
                        clients: old(self)@.clients.insert(client_id, (*final(connection))@),
                        ..old(self)@
                    })
                },
                None => final(self)@ == old(self)@,
            },
    {
        proof {
            let map = client_map(self.clients);
            assert forall|connection: PeerConnection<ServerConnection>|
                map.contains_key(client_id) implies (#[trigger] client_views(
                map.insert(client_id, connection),
            )).dom() == self@.clients.dom() by {
                assert(client_views(map.insert(client_id, connection)).dom()
                    =~= self@.clients.dom());
            }
        }
        clients_get_mut(&mut self.clients, client_id)
    }

    /// The connection of a client.
    pub fn connection(&self, client_id: ClientId) -> (r: Option<&PeerConnection<ServerConnection>>)
        ensures
            r is Some <==> self@.clients.contains_key(client_id),
            r matches Some(connection) ==> connection@ == self@.clients[client_id],
    {
        clients_get(&self.clients, client_id)
    }

    /// The stats of this endpoint.
    pub fn endpoint_stats(&self) -> (r: &EndpointStats)
        ensures
            *r == self@.stats,
    {
        &self.stats
    }
}

/// What disconnecting a client that is there results in, given whether the tasks
/// of its connection heard of it.
pub fn disconnect_result(
    client_id: ClientId,
    closed: Result<(), ConnectionAlreadyClosed>,
) -> (r: Result<(), ServerDisconnectError>)
    ensures
        r == match closed {
            Ok(()) => Ok::<(), ServerDisconnectError>(()),
            Err(_) => Err(ServerDisconnectError::ClientAlreadyDisconnected(client_id)),
        },
{
    match closed {
        Ok(()) => Ok(()),
        Err(_) => Err(ServerDisconnectError::ClientAlreadyDisconnected(client_id)),
    }
}

/// Accepting a connection with every open channel keeps an endpoint sound.
proof fn lemma_accept_keeps_sound(
    pre: ServerEndpointView,
    connection: PeerConnectionView<ServerConnectionView>,
    entries: Seq<(ChannelId, ChannelConfig)>,
    links: Seq<Link>,
)
    requires
        lists_entries(entries, pre.opened_channels),
        links_for(links, entries),
        pre.has_room(),
    ensures
        ({
            let id = (pre.client_id_gen + 1) as ClientId;
            let post = pre.accept(acked(connection.link_each(links), id, Answer::Taken));
            &&& pre.wf() ==> post.wf()
            &&& pre.sound() ==> post.sound()
        }),
{
    let id = (pre.client_id_gen + 1) as ClientId;
    let accepted = acked(connection.link_each(links), id, Answer::Taken);
    let post = pre.accept(accepted);
    law_linked_channels(connection, links, entries);
    assert(post.clients.dom() =~= pre.clients.dom().insert(id));
    let keys = entries.map_values(|e: (ChannelId, ChannelConfig)| e.0);
    assert forall|channel: ChannelId| pre.opened_channels.contains_key(
        channel,
    ) implies #[trigger] accepted.channels.contains_key(channel) by {
        assert(keys.contains(channel));
        let i = choose|i: int| 0 <= i < keys.len() && keys[i] == channel;
        assert(entries[i].0 == channel);
    }
    if pre.wf() {
        assert(!pre.clients.contains_key(id));
    }
}

/// An endpoint stays sound while the same clients have the same channels.
pub(crate) proof fn lemma_same_shape_keeps_sound(pre: ServerEndpointView, post: ServerEndpointView)
    requires
        post.clients.dom() == pre.clients.dom(),
        post.client_id_gen == pre.client_id_gen,
        post.stats == pre.stats,
        post.opened_channels == pre.opened_channels,
        post.send_channel_ids == pre.send_channel_ids,
        forall|id: ClientId| #[trigger]
            pre.clients.contains_key(id) ==> post.clients[id].channels.dom()
                == pre.clients[id].channels.dom(),
    ensures
        pre.wf() ==> post.wf(),
        pre.sound() ==> post.sound(),
{
    if pre.sound() {
        assert forall|id: ClientId, channel: ChannelId|
            post.clients.contains_key(id) && post.opened_channels.contains_key(
                channel,
            ) implies #[trigger] post.clients[id].channels.contains_key(channel) by {
            assert(pre.clients.contains_key(id));
            assert(pre.clients[id].channels.contains_key(channel));
        }
    }
}

} // verus!
