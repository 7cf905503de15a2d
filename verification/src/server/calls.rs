//! What each call on a server, its endpoint or the connection of a client comes to, in
//! terms of what goes into it and what comes out.

#[allow(unused_imports)]
use bincode::error::{DecodeError, EncodeError};
#[allow(unused_imports)]
use bytes::Bytes;
#[allow(unused_imports)]
use iroh::{Endpoint, EndpointId};
#[allow(unused_imports)]
use tokio::sync::{broadcast, mpsc};
use vstd::prelude::*;

#[allow(unused_imports)]
use crate::client::calls::{asks_for, lemma_asks_for, lemma_sorts_in, reads, sorts_in};
#[allow(unused_imports)]
use crate::server::connection::{
    acked, ServerConnection, ServerConnectionView, ServerSideConnection,
};
#[allow(unused_imports)]
use crate::server::endpoint::events::{
    accepted_ids, connected, is_trace, lost, lost_ids, ServerStep,
};
#[allow(unused_imports)]
use crate::server::endpoint::{
    disconnect_result, EndpointStats, ServerEndpoint, ServerEndpointView,
};
#[allow(unused_imports)]
use crate::server::laws::{law_refused_client_is_told, lemma_disconnect_each};
#[allow(unused_imports)]
use crate::server::maps::{channel_map, client_map};
#[allow(unused_imports)]
use crate::server::messages::{
    ServerGroupMessageSendError, ServerMessageReceiveError, ServerMessageSendError,
};
#[allow(unused_imports)]
use crate::server::{
    clear_stale_received_payloads, client_task_step, dispatch_received_payloads,
    endpoint_task_step, handle_server_events, new_client_connection, server_just_closed,
    server_just_opened, server_listening, ClientConnectionTaskData, ClientTaskAction,
    ClientTaskEvent, ClientTaskState, ConnectionEvent, ConnectionLostEvent,
    EndpointAlreadyClosed, EndpointStartError, EndpointTaskAction, EndpointTaskData,
    EndpointTaskEvent, IrohServer, ServerAsyncMessage, ServerDisconnectError, ServerEvents,
    ServerGroupPayloadSendError, ServerGroupSendError, ServerPayloadSendError,
    ServerReceiveError, ServerRecvChannelError, ServerSendError, ServerSyncMessage,
};
#[allow(unused_imports)]
use crate::shared::calls::{came, lemma_batch_came};
#[allow(unused_imports)]
use crate::shared::channels::{
    links_for, ChannelAsyncMessage, ChannelConfig, ChannelId, ChannelSyncMessage, CloseReason,
    Link, SendChannelsConfiguration,
};
#[allow(unused_imports)]
use crate::shared::error::{
    AsyncChannelError, ChannelCloseError, ChannelCreationError, ConnectionAlreadyClosed,
    ConnectionSendError, RecvChannelError,
};
#[allow(unused_imports)]
use crate::shared::laws::{full_count, law_linked_channels, of_channel};
#[allow(unused_imports)]
use crate::shared::listing::{lists_entries, lists_keys};
#[allow(unused_imports)]
use crate::shared::payload::payload_bytes;
#[allow(unused_imports)]
use crate::shared::peer_connection::{PeerConnectionView, RecvChannelsConfiguration};
#[allow(unused_imports)]
use crate::shared::queues::{
    broadcast_halves, listeners_told, mpsc_halves, only_gave, queue_answered, Answer, Batch,
    RecvFailure,
};
#[allow(unused_imports)]
use crate::shared::{
    identity, ClientId, InternalConnectionRef, DEFAULT_INTERNAL_MESSAGES_CHANNEL_SIZE,
    DEFAULT_KILL_MESSAGE_QUEUE_SIZE, DEFAULT_MESSAGE_QUEUE_SIZE,
    DEFAULT_QCHANNEL_MESSAGES_CHANNEL_SIZE,
};

verus! {

/// What the server side of a connection amounts to is what it holds, and what its queue
/// was offered.
pub proof fn law_server_connection_shows_its_data(connection: ServerConnection)
    ensures
        connection@.connection_handle == connection.connection_handle,
        connection@.ack_half == connection.to_connection_send.half(),
        connection@.acks.len() == connection.to_connection_send.offers().len(),
        forall|i: int|
            0 <= i < connection@.acks.len() ==> #[trigger] connection@.acks[i] == (
                connection.to_connection_send.offers()[i].0->ClientConnectedAck_0,
                connection.to_connection_send.offers()[i].1,
            ),
{
}

/// What an endpoint amounts to is what it holds, and what its queues did.
pub proof fn law_endpoint_shows_its_data(endpoint: ServerEndpoint, id: ClientId)
    ensures
        endpoint@.clients.contains_key(id) <==> client_map(endpoint.clients).contains_key(id),
        endpoint@.clients.contains_key(id) ==> endpoint@.clients[id]
            == client_map(endpoint.clients)[id]@,
        endpoint@.raw == endpoint.raw,
        endpoint@.client_id_gen == endpoint.client_id_gen,
        endpoint@.opened_channels == channel_map(endpoint.opened_channels),
        endpoint@.send_channel_ids == endpoint.send_channel_ids@,
        endpoint@.close_half == endpoint.close_sender.half(),
        endpoint@.shutdowns.len() == endpoint.close_sender.calls().len(),
        forall|i: int|
            0 <= i < endpoint@.shutdowns.len() ==> #[trigger] endpoint@.shutdowns[i]
                == endpoint.close_sender.calls()[i].1,
        endpoint@.messages_half == endpoint.from_async_endpoint_recv.half(),
        endpoint@.messages == endpoint.from_async_endpoint_recv.answers(),
        endpoint@.stats == endpoint.stats,
        endpoint@.recv_channels_cfg == endpoint.recv_channels_cfg,
{
}

/// The task of a connection is told the id of its client through its own queue, and the
/// result is what that queue answered.
pub proof fn law_tell_client_id(id: ClientId, r: Result<(), AsyncChannelError>, told: bool)
    ensures
        forall|c: &mut ServerSideConnection| #[trigger]
            call_ensures(
                ServerSideConnection::try_send_to_async_connection,
                (c, ServerSyncMessage::ClientConnectedAck(id)),
                r,
            ) ==> {
                &&& queue_answered(
                    (*c)@.specific.ack_half,
                    ServerSyncMessage::ClientConnectedAck(id),
                    r,
                )
                &&& final(c)@ == (PeerConnectionView {
                    specific: ServerConnectionView {
                        acks: (*c)@.specific.acks.push(
                            (
                                id,
                                match r {
                                    Ok(_) => Answer::Taken,
                                    Err(e) => Answer::Refused(e),
                                },
                            ),
                        ),
                        ..(*c)@.specific
                    },
                    ..(*c)@
                })
            },
        forall|c: &mut ServerSideConnection| #[trigger]
            call_ensures(ServerSideConnection::acknowledge, (c, id), told) ==> tells_id(
                (*c)@,
                final(c)@,
                id,
                told,
            ),
        forall|c: ServerSideConnection, remote: EndpointId| #[trigger]
            call_ensures(ServerSideConnection::remote_id, (&c,), remote) ==> remote
                == c.specific.connection_handle.remote_id,
        forall|
            handle: InternalConnectionRef,
            half: mpsc::Sender<ServerSyncMessage>,
            made: ServerConnection,
        | #[trigger]
            call_ensures(ServerConnection::new, (handle, half), made) ==> made@.connection_handle
                == handle && made@.ack_half == half && made@.acks.len() == 0,
{
}

/// The task of a connection was told the id of its client, and took it where `told` is
/// true. Where it did not, the connection was ordered to close.
pub open spec fn tells_id(
    pre: PeerConnectionView<ServerConnectionView>,
    post: PeerConnectionView<ServerConnectionView>,
    id: ClientId,
    told: bool,
) -> bool {
    &&& post.specific.acks.len() == pre.specific.acks.len() + 1
    &&& forall|i: int|
        0 <= i < pre.specific.acks.len() ==> post.specific.acks[i] == #[trigger] pre.specific.acks[i]
    &&& post.specific.acks.last().0 == id
    &&& told <==> post.specific.acks.last().1 == Answer::Taken
    &&& queue_answered(
        pre.specific.ack_half,
        ServerSyncMessage::ClientConnectedAck(id),
        match post.specific.acks.last().1 {
            Answer::Taken => Ok(()),
            Answer::Refused(e) => Err(e),
        },
    )
    &&& told ==> post.close_orders == pre.close_orders
    &&& !told ==> {
        &&& post.close_orders.len() == pre.close_orders.len() + 1
        &&& post.close_orders.drop_last() =~= pre.close_orders
        &&& post.close_orders.last().0 == CloseReason::LocalOrder
        &&& listeners_told(
            pre.ends.close_send,
            CloseReason::LocalOrder,
            post.close_orders.last().1,
        )
    }
    &&& post == (PeerConnectionView {
        specific: ServerConnectionView { acks: post.specific.acks, ..pre.specific },
        close_orders: post.close_orders,
        ..pre
    })
}

/// What disconnecting a client does to an endpoint: the client is gone, and counted; the
/// others, and all else, stay. Its tasks were ordered to close the connection for
/// `reason`, and one of them has `heard` it or not.
pub open spec fn drops_client(
    pre: ServerEndpointView,
    post: ServerEndpointView,
    id: ClientId,
    reason: CloseReason,
    heard: bool,
) -> bool {
    &&& pre.clients.contains_key(id)
    &&& listeners_told(pre.clients[id].ends.close_send, reason, heard)
    &&& post.clients == pre.clients.remove(id)
    &&& post.stats.connect_count == pre.stats.connect_count
    &&& post.stats.disconnect_count == pre.stats.disconnect_count + 1
    &&& post == (ServerEndpointView { clients: post.clients, stats: post.stats, ..pre })
}

/// What the contract of disconnecting a client comes to.
proof fn lemma_drops_client(
    pre: ServerEndpointView,
    id: ClientId,
    reason: CloseReason,
    heard: bool,
)
    requires
        pre.wf(),
        pre.clients.contains_key(id),
        pre.clients[id].was_told(reason, heard),
    ensures
        drops_client(pre, pre.disconnect(id), id, reason, heard),
{
    assert(pre.clients.dom().contains(id));
    assert(pre.clients.dom().len() > 0) by {
        if pre.clients.dom().len() == 0 {
            assert(pre.clients.dom() =~= Set::<ClientId>::empty());
        }
    }
}

/// A client that is disconnected is gone and counted, and its tasks were ordered to close
/// its connection: for a local order, or because the peer closed it. The result says
/// whether one of them heard it. A client that is not there is named, and nothing changes.
pub proof fn law_disconnect_client(id: ClientId, r: Result<(), ServerDisconnectError>)
    ensures
        forall|e: &mut ServerEndpoint| #[trigger]
            call_ensures(ServerEndpoint::disconnect_client, (e, id), r) && (*e)@.wf() ==> if (
            *e)@.clients.contains_key(id) {
                &&& drops_client((*e)@, final(e)@, id, CloseReason::LocalOrder, r is Ok)
                &&& r is Ok || r == Err::<(), _>(
                    ServerDisconnectError::ClientAlreadyDisconnected(id),
                )
            } else {
                &&& final(e)@ == (*e)@
                &&& r == Err::<(), _>(ServerDisconnectError::UnknownClient(id))
            },
        forall|e: &mut ServerEndpoint, done: ()| #[trigger]
            call_ensures(ServerEndpoint::try_disconnect_client, (e, id), done) && (*e)@.wf()
                ==> if (*e)@.clients.contains_key(id) {
                exists|heard: bool| #[trigger]
                    drops_client((*e)@, final(e)@, id, CloseReason::LocalOrder, heard)
            } else {
                final(e)@ == (*e)@
            },
        forall|e: &mut ServerEndpoint, done: ()| #[trigger]
            call_ensures(ServerEndpoint::try_disconnect_closed_client, (e, id), done) && (*e)@.wf()
                ==> if (*e)@.clients.contains_key(id) {
                exists|heard: bool| #[trigger]
                    drops_client((*e)@, final(e)@, id, CloseReason::PeerClosed, heard)
            } else {
                final(e)@ == (*e)@
            },
        forall|closed: Result<(), ConnectionAlreadyClosed>| #[trigger]
            call_ensures(disconnect_result, (id, closed), r) ==> (closed is Ok <==> r is Ok) && (
            closed is Err ==> r == Err::<(), _>(
                ServerDisconnectError::ClientAlreadyDisconnected(id),
            )),
{
    assert forall|e: &mut ServerEndpoint| #[trigger]
        call_ensures(ServerEndpoint::disconnect_client, (e, id), r) && (*e)@.wf() && (
        *e)@.clients.contains_key(id) implies drops_client(
        (*e)@,
        final(e)@,
        id,
        CloseReason::LocalOrder,
        r is Ok,
    ) by {
        lemma_drops_client((*e)@, id, CloseReason::LocalOrder, r is Ok);
    }
    assert forall|e: &mut ServerEndpoint, done: ()| #[trigger]
        call_ensures(ServerEndpoint::try_disconnect_client, (e, id), done) && (*e)@.wf() && (
        *e)@.clients.contains_key(id) implies exists|heard: bool| #[trigger]
        drops_client((*e)@, final(e)@, id, CloseReason::LocalOrder, heard) by {
        let heard = choose|heard: bool| #[trigger]
            (*e)@.clients[id].was_told(CloseReason::LocalOrder, heard);
        lemma_drops_client((*e)@, id, CloseReason::LocalOrder, heard);
    }
    assert forall|e: &mut ServerEndpoint, done: ()| #[trigger]
        call_ensures(ServerEndpoint::try_disconnect_closed_client, (e, id), done) && (*e)@.wf() && (
        *e)@.clients.contains_key(id) implies exists|heard: bool| #[trigger]
        drops_client((*e)@, final(e)@, id, CloseReason::PeerClosed, heard) by {
        let heard = choose|heard: bool| #[trigger]
            (*e)@.clients[id].was_told(CloseReason::PeerClosed, heard);
        lemma_drops_client((*e)@, id, CloseReason::PeerClosed, heard);
    }
}

/// What disconnecting every client does to an endpoint: none is left, each is counted,
/// and the tasks of each were ordered to close its connection. All else stays.
pub open spec fn drops_all(pre: ServerEndpointView, post: ServerEndpointView) -> bool {
    &&& forall|id: ClientId| !(#[trigger] post.clients.contains_key(id))
    &&& post.stats.connect_count == pre.stats.connect_count
    &&& post.stats.disconnect_count == pre.stats.disconnect_count + pre.clients.dom().len()
    &&& forall|id: ClientId| #[trigger]
        pre.clients.contains_key(id) ==> exists|heard: bool|
            listeners_told(pre.clients[id].ends.close_send, CloseReason::LocalOrder, heard)
}

/// Every client that was there is told to close.
proof fn lemma_all_told(pre: ServerEndpointView)
    requires
        pre.all_told(),
    ensures
        forall|id: ClientId| #[trigger]
            pre.clients.contains_key(id) ==> exists|heard: bool|
                listeners_told(pre.clients[id].ends.close_send, CloseReason::LocalOrder, heard),
{
    assert forall|id: ClientId| #[trigger] pre.clients.contains_key(id) implies exists|heard: bool|
        listeners_told(pre.clients[id].ends.close_send, CloseReason::LocalOrder, heard) by {
        let heard = choose|heard: bool| #[trigger]
            pre.clients[id].was_told(CloseReason::LocalOrder, heard);
        assert(listeners_told(pre.clients[id].ends.close_send, CloseReason::LocalOrder, heard));
    }
}

/// Where every client is disconnected, this is so of each. The task that accepts
/// connections is ordered to stop through its own queue; shutting down does both, and so
/// does stopping a server, which has no endpoint then. The result says whether that task
/// heard it. A server without an endpoint has nothing to stop.
pub proof fn law_shut_down()
    ensures
        forall|e: &mut ServerEndpoint, done: ()| #[trigger]
            call_ensures(ServerEndpoint::disconnect_all_clients, (e,), done) && (*e)@.wf() ==> {
                &&& drops_all((*e)@, final(e)@)
                &&& final(e)@ == (ServerEndpointView {
                    clients: final(e)@.clients,
                    stats: final(e)@.stats,
                    ..(*e)@
                })
            },
        forall|e: &mut ServerEndpoint, r: Result<(), AsyncChannelError>| #[trigger]
            call_ensures(ServerEndpoint::close_incoming_connections_handler, (e,), r) ==> {
                &&& listeners_told((*e)@.close_half, (), r is Ok)
                &&& r is Ok || r == Err::<(), _>(AsyncChannelError::InternalChannelClosed)
                &&& final(e)@ == (ServerEndpointView {
                    shutdowns: (*e)@.shutdowns.push(r is Ok),
                    ..(*e)@
                })
            },
        forall|e: &mut ServerEndpoint, r: Result<(), EndpointAlreadyClosed>| #[trigger]
            call_ensures(ServerEndpoint::shut_down, (e,), r) && (*e)@.wf() ==> {
                &&& drops_all((*e)@, final(e)@)
                &&& listeners_told((*e)@.close_half, (), r is Ok)
                &&& final(e)@ == (ServerEndpointView {
                    clients: final(e)@.clients,
                    stats: final(e)@.stats,
                    shutdowns: (*e)@.shutdowns.push(r is Ok),
                    ..(*e)@
                })
            },
        forall|server: &mut IrohServer, r: Result<(), EndpointAlreadyClosed>| #[trigger]
            call_ensures(IrohServer::stop_endpoint, (server,), r) ==> {
                &&& final(server).endpoint is None
                &&& (*server).endpoint is None ==> r is Err
                &&& (*server).endpoint matches Some(e) ==> {
                    &&& listeners_told(e@.close_half, (), r is Ok)
                    &&& forall|id: ClientId| #[trigger]
                        e@.clients.contains_key(id) ==> exists|heard: bool|
                            listeners_told(
                                e@.clients[id].ends.close_send,
                                CloseReason::LocalOrder,
                                heard,
                            )
                }
            },
{
    assert forall|e: &mut ServerEndpoint, done: ()| #[trigger]
        call_ensures(ServerEndpoint::disconnect_all_clients, (e,), done) && (
        *e)@.wf() implies drops_all((*e)@, final(e)@) by {
        lemma_all_told((*e)@);
    }
    assert forall|e: &mut ServerEndpoint, r: Result<(), EndpointAlreadyClosed>| #[trigger]
        call_ensures(ServerEndpoint::shut_down, (e,), r) && (*e)@.wf() implies drops_all(
        (*e)@,
        final(e)@,
    ) by {
        lemma_all_told((*e)@);
    }
    assert forall|server: &mut IrohServer, r: Result<(), EndpointAlreadyClosed>| #[trigger]
        call_ensures(IrohServer::stop_endpoint, (server,), r) && (
        *server).endpoint is Some implies ({
        let e = (*server).endpoint->0;
        forall|id: ClientId| #[trigger]
            e@.clients.contains_key(id) ==> exists|heard: bool|
                listeners_told(e@.clients[id].ends.close_send, CloseReason::LocalOrder, heard)
    }) by {
        lemma_all_told((*server).endpoint->0@);
    }
}

/// What a connection is once it was accepted under `id`: its task was told the id and took
/// it, and its tasks took a request for each open channel, with the config of that, and
/// for nothing else; each open channel is registered, and has not been used. All else is
/// as it was.
pub open spec fn accepted_as(
    connection: PeerConnectionView<ServerConnectionView>,
    accepted: PeerConnectionView<ServerConnectionView>,
    opened: Map<ChannelId, ChannelConfig>,
    id: ClientId,
) -> bool {
    &&& accepted.specific.acks == connection.specific.acks.push((id, Answer::Taken))
    &&& accepted.specific.connection_handle == connection.specific.connection_handle
    &&& accepted.specific.ack_half == connection.specific.ack_half
    &&& accepted.requests.len() >= connection.requests.len()
    &&& forall|i: int|
        0 <= i < connection.requests.len() ==> accepted.requests[i]
            == #[trigger] connection.requests[i]
    &&& forall|i: int|
        connection.requests.len() <= i < accepted.requests.len() ==> {
            &&& (#[trigger] accepted.requests[i]).1 == Answer::Taken
            &&& opened.contains_key(accepted.requests[i].0->id)
            &&& accepted.requests[i].0->config == opened[accepted.requests[i].0->id]
        }
    &&& forall|i: int, j: int|
        connection.requests.len() <= i < j < accepted.requests.len() ==> (
        #[trigger] accepted.requests[i]).0->id != (#[trigger] accepted.requests[j]).0->id
    &&& forall|channel: ChannelId| #[trigger]
        opened.contains_key(channel) ==> exists|i: int|
            connection.requests.len() <= i < accepted.requests.len() && (
            #[trigger] accepted.requests[i]).0->id == channel
    &&& forall|channel: ChannelId|
        opened.contains_key(channel) ==> #[trigger] accepted.channels.contains_key(channel)
            && accepted.channels[channel].sends.len() == 0 && accepted.channels[channel].stops.len()
            == 0
    &&& forall|channel: ChannelId|
        !opened.contains_key(channel) ==> (#[trigger] accepted.channels.contains_key(channel)
            <==> connection.channels.contains_key(channel))
    &&& accepted == (PeerConnectionView {
        specific: accepted.specific,
        requests: accepted.requests,
        channels: accepted.channels,
        ..connection
    })
}

/// What the contract of accepting a connection comes to.
proof fn lemma_accepted_as(
    connection: PeerConnectionView<ServerConnectionView>,
    opened: Map<ChannelId, ChannelConfig>,
    entries: Seq<(ChannelId, ChannelConfig)>,
    links: Seq<Link>,
    id: ClientId,
)
    requires
        lists_entries(entries, opened),
        links_for(links, entries),
    ensures
        accepted_as(
            connection,
            acked(connection.link_each(links), id, Answer::Taken),
            opened,
            id,
        ),
{
    law_linked_channels(connection, links, entries);
    let accepted = acked(connection.link_each(links), id, Answer::Taken);
    let n = connection.requests.len() as int;
    let keys = entries.map_values(|e: (ChannelId, ChannelConfig)| e.0);
    assert forall|i: int| n <= i < accepted.requests.len() implies {
        &&& (#[trigger] accepted.requests[i]).1 == Answer::Taken
        &&& accepted.requests[i].0->id == entries[i - n].0
        &&& opened.contains_key(accepted.requests[i].0->id)
        &&& accepted.requests[i].0->config == opened[accepted.requests[i].0->id]
    } by {
        assert(links[i - n].made_for(entries[i - n].0, entries[i - n].1));
        assert(accepted.requests[i] == (links[i - n].request, Answer::Taken));
        assert(opened[entries[i - n].0] == entries[i - n].1);
    }
    assert forall|i: int, j: int| n <= i < j < accepted.requests.len() implies (
    #[trigger] accepted.requests[i]).0->id != (#[trigger] accepted.requests[j]).0->id by {
        assert(keys[i - n] == entries[i - n].0);
        assert(keys[j - n] == entries[j - n].0);
    }
    assert forall|channel: ChannelId| #[trigger] opened.contains_key(channel) implies exists|i: int|
        n <= i < accepted.requests.len() && (#[trigger] accepted.requests[i]).0->id == channel by {
        assert(keys.contains(channel));
        let k = choose|k: int| 0 <= k < keys.len() && keys[k] == channel;
        assert(accepted.requests[n + k].0->id == channel);
    }
    assert forall|channel: ChannelId| opened.contains_key(channel) implies #[trigger]
    accepted.channels.contains_key(channel) && accepted.channels[channel].sends.len() == 0
        && accepted.channels[channel].stops.len() == 0 by {
        assert(keys.contains(channel));
        let k = choose|k: int| 0 <= k < keys.len() && keys[k] == channel;
        assert(entries[k].0 == channel);
    }
    assert forall|channel: ChannelId| !opened.contains_key(channel) implies (
    #[trigger] accepted.channels.contains_key(channel) <==> connection.channels.contains_key(
        channel,
    )) by {
        assert forall|k: int| 0 <= k < entries.len() implies (
        #[trigger] entries[k]).0 != channel by {
            assert(keys[k] == entries[k].0);
            assert(keys.contains(entries[k].0));
        }
    }
}

/// What handling a new connection does to an endpoint. Accepted under the next id, the
/// client is there with its connection, see [`accepted_as`], and counted; the others stay.
/// Refused, no client is added and nothing is counted, and the tasks of the connection
/// were ordered to close it: they have refused an open channel, with the error that comes
/// back, or the id that was spent on it.
pub open spec fn handles_new(
    pre: ServerEndpointView,
    post: ServerEndpointView,
    connection: PeerConnectionView<ServerConnectionView>,
    r: Result<ClientId, AsyncChannelError>,
) -> bool {
    match r {
        Ok(id) => {
            &&& id == pre.client_id_gen + 1
            &&& post.client_id_gen == id
            &&& post.clients == pre.clients.insert(id, post.clients[id])
            &&& accepted_as(connection, post.clients[id], pre.opened_channels, id)
            &&& post.stats.connect_count == pre.stats.connect_count + 1
            &&& post.stats.disconnect_count == pre.stats.disconnect_count
            &&& post == (ServerEndpointView {
                clients: post.clients,
                client_id_gen: post.client_id_gen,
                stats: post.stats,
                ..pre
            })
        },
        Err(e) => {
            &&& post == (ServerEndpointView { client_id_gen: post.client_id_gen, ..pre })
            &&& exists|heard: bool|
                listeners_told(connection.ends.close_send, CloseReason::LocalOrder, heard)
            &&& post.client_id_gen == pre.client_id_gen ==> exists|request: ChannelSyncMessage|
                #[trigger] queue_answered(connection.ends.to_channels_send, request, Err(e))
                    && pre.opened_channels.contains_key(request->id) && request->config
                    == pre.opened_channels[request->id]
            &&& post.client_id_gen != pre.client_id_gen ==> {
                &&& post.client_id_gen == pre.client_id_gen + 1
                &&& e == AsyncChannelError::InternalChannelClosed
                &&& exists|why: AsyncChannelError| #[trigger]
                    queue_answered(
                        connection.specific.ack_half,
                        ServerSyncMessage::ClientConnectedAck(post.client_id_gen),
                        Err(why),
                    )
            }
        },
    }
}

/// What the contract of handling a new connection comes to.
proof fn lemma_handles_new(
    pre: ServerEndpointView,
    post: ServerEndpointView,
    connection: PeerConnectionView<ServerConnectionView>,
    r: Result<ClientId, AsyncChannelError>,
)
    requires
        pre.has_room(),
        post.accepts(pre, connection, r),
    ensures
        handles_new(pre, post, connection, r),
{
    match r {
        Ok(id) => {
            let (entries, links) = choose|
                entries: Seq<(ChannelId, ChannelConfig)>,
                links: Seq<Link>,
            |
                lists_entries(entries, pre.opened_channels) && #[trigger] links_for(
                    links,
                    entries,
                ) && post == pre.accept(acked(connection.link_each(links), id, Answer::Taken));
            lemma_accepted_as(connection, pre.opened_channels, entries, links, id);
            assert(post.clients =~= pre.clients.insert(id, post.clients[id]));
        },
        Err(e) => {
            let refused = choose|refused: PeerConnectionView<ServerConnectionView>| #[trigger]
                post.refuses(pre, connection, refused, e);
            law_refused_client_is_told(pre, post, connection, refused, e);
            let heard = choose|heard: bool| #[trigger]
                connection.was_told(CloseReason::LocalOrder, heard);
            assert(listeners_told(connection.ends.close_send, CloseReason::LocalOrder, heard));
            if post.client_id_gen == pre.client_id_gen {
                let request = choose|request: ChannelSyncMessage|
                    pre.opened_channels.contains_key(request->id)
                        && #[trigger] connection.turned_down(
                        request,
                        request->id,
                        pre.opened_channels[request->id],
                        e,
                    );
                assert(queue_answered(connection.ends.to_channels_send, request, Err(e)));
            } else {
                let id = (pre.client_id_gen + 1) as ClientId;
                let why = choose|why: AsyncChannelError| #[trigger]
                    connection.id_offered(id, Err(why));
                assert(post.client_id_gen == id);
                assert(queue_answered(
                    connection.specific.ack_half,
                    ServerSyncMessage::ClientConnectedAck(id),
                    Err(why),
                ));
            }
        },
    }
}

/// A new connection is accepted or refused as it has to be; see [`handles_new`].
pub proof fn law_handle_new_connection(
    connection: ServerSideConnection,
    r: Result<ClientId, AsyncChannelError>,
)
    ensures
        forall|e: &mut ServerEndpoint| #[trigger]
            call_ensures(ServerEndpoint::handle_new_connection, (e, connection), r) && (
            *e)@.stats.connect_count < u32::MAX && (*e)@.client_id_gen < u64::MAX ==> handles_new(
                (*e)@,
                final(e)@,
                connection@,
                r,
            ),
        forall|e: ServerEndpoint, room: bool| #[trigger]
            call_ensures(ServerEndpoint::has_room, (&e,), room) ==> (room
                <==> e.stats.connect_count < u32::MAX && e.client_id_gen < u64::MAX),
{
    assert forall|e: &mut ServerEndpoint| #[trigger]
        call_ensures(ServerEndpoint::handle_new_connection, (e, connection), r) && (
        *e)@.stats.connect_count < u32::MAX && (*e)@.client_id_gen < u64::MAX implies handles_new(
        (*e)@,
        final(e)@,
        connection@,
        r,
    ) by {
        lemma_handles_new((*e)@, final(e)@, connection@, r);
    }
}

/// What one message of the async tasks comes to. A connection that was announced is
/// handled, see [`handles_new`], and the step is `Accepted` with its id where it was
/// accepted, and `Refused` where it was not; where no id or count is left for it, it is
/// refused and was ordered to close. A client whose connection is closed is lost, where it
/// is there: it is disconnected, and its tasks were told that the peer closed it.
pub open spec fn message_comes_to(
    pre: ServerEndpointView,
    message: ServerAsyncMessage,
    step: ServerStep,
    post: ServerEndpointView,
) -> bool {
    match message {
        ServerAsyncMessage::ClientConnected(connection) => if pre.stats.connect_count < u32::MAX
            && pre.client_id_gen < u64::MAX {
            match step {
                ServerStep::Accepted(id) => handles_new(pre, post, connection@, Ok(id)),
                ServerStep::Refused => exists|e: AsyncChannelError| #[trigger]
                    handles_new(pre, post, connection@, Err(e)),
                _ => false,
            }
        } else {
            &&& step is Refused
            &&& post == pre
            &&& exists|heard: bool|
                listeners_told(connection@.ends.close_send, CloseReason::LocalOrder, heard)
        },
        ServerAsyncMessage::ClientConnectionClosed(id) => if pre.clients.contains_key(id) {
            &&& step == ServerStep::Lost(id)
            &&& exists|heard: bool| #[trigger]
                drops_client(pre, post, id, CloseReason::PeerClosed, heard)
        } else {
            step is Stale && post == pre
        },
    }
}

/// What the contract of handling a message comes to.
proof fn lemma_message_comes_to(
    pre: ServerEndpointView,
    message: ServerAsyncMessage,
    step: ServerStep,
    post: ServerEndpointView,
)
    requires
        pre.wf(),
        post.handles(pre, message, step),
    ensures
        message_comes_to(pre, message, step, post),
{
    match message {
        ServerAsyncMessage::ClientConnected(connection) => {
            if pre.has_room() {
                match step {
                    ServerStep::Accepted(id) => {
                        lemma_handles_new(pre, post, connection@, Ok(id));
                    },
                    ServerStep::Refused => {
                        let e = choose|e: AsyncChannelError| #[trigger]
                            post.accepts(pre, connection@, Err(e));
                        lemma_handles_new(pre, post, connection@, Err(e));
                    },
                    _ => {},
                }
            } else {
                let heard = choose|heard: bool| #[trigger]
                    connection@.was_told(CloseReason::LocalOrder, heard);
                assert(listeners_told(
                    connection@.ends.close_send,
                    CloseReason::LocalOrder,
                    heard,
                ));
            }
        },
        ServerAsyncMessage::ClientConnectionClosed(id) => {
            if pre.clients.contains_key(id) {
                let heard = choose|heard: bool| #[trigger]
                    pre.clients[id].was_told(CloseReason::PeerClosed, heard);
                lemma_drops_client(pre, id, CloseReason::PeerClosed, heard);
            }
        },
    }
}

/// An endpoint goes through messages one after the other, and each comes to what it has
/// to; see [`message_comes_to`].
pub open spec fn goes_through_messages(
    states: Seq<ServerEndpointView>,
    messages: Seq<ServerAsyncMessage>,
    steps: Seq<ServerStep>,
) -> bool {
    &&& states.len() == messages.len() + 1
    &&& steps.len() == messages.len()
    &&& forall|i: int|
        0 <= i < messages.len() ==> message_comes_to(
            states[i],
            messages[i],
            #[trigger] steps[i],
            states[i + 1],
        )
}

/// A trace of an endpoint goes through its messages.
proof fn lemma_goes_through_messages(
    states: Seq<ServerEndpointView>,
    messages: Seq<ServerAsyncMessage>,
    steps: Seq<ServerStep>,
)
    requires
        is_trace(states, messages, steps),
        states[0].wf(),
    ensures
        goes_through_messages(states, messages, steps),
        forall|i: int| 0 <= i < states.len() ==> (#[trigger] states[i]).wf(),
        forall|i: int|
            0 <= i < states.len() ==> (#[trigger] states[i]).messages == states[0].messages,
    decreases messages.len(),
{
    if messages.len() > 0 {
        let n = messages.len() - 1;
        let earlier = states.drop_last();
        let steps_before = steps.drop_last();
        assert forall|i: int| 0 <= i < n implies earlier[i + 1].handles(
            earlier[i],
            messages.drop_last()[i],
            #[trigger] steps_before[i],
        ) by {
            assert(steps_before[i] == steps[i]);
        }
        lemma_goes_through_messages(earlier, messages.drop_last(), steps_before);
        assert(states[n + 1].handles(states[n], messages[n], steps[n]));
        assert(earlier[n] == states[n]);
        lemma_message_comes_to(states[n], messages[n], steps[n], states[n + 1]);
        crate::server::laws::law_stats_balance(states[n], states[n + 1], messages[n], steps[n], 0);
        assert forall|i: int| 0 <= i < messages.len() implies message_comes_to(
            states[i],
            messages[i],
            #[trigger] steps[i],
            states[i + 1],
        ) by {
            if i < n {
                assert(steps_before[i] == steps[i]);
                assert(earlier[i] == states[i] && earlier[i + 1] == states[i + 1]);
                assert(messages.drop_last()[i] == messages[i]);
            }
        }
        assert forall|i: int| 0 <= i < states.len() implies (#[trigger] states[i]).wf()
            && states[i].messages == states[0].messages by {
            if i <= n {
                assert(earlier[i] == states[i]);
            }
        }
    } else {
        assert forall|i: int| 0 <= i < states.len() implies (#[trigger] states[i]).wf()
            && states[i].messages == states[0].messages by {
            assert(i == 0);
        }
    }
}

/// The ids that the steps stand for: of the clients that were accepted, and of those that
/// were lost, in order.
pub open spec fn accepted_in(steps: Seq<ServerStep>) -> Seq<ClientId> {
    steps.filter(|s: ServerStep| s is Accepted).map_values(|s: ServerStep| s->Accepted_0)
}

/// See [`accepted_in`].
pub open spec fn lost_in(steps: Seq<ServerStep>) -> Seq<ClientId> {
    steps.filter(|s: ServerStep| s is Lost).map_values(|s: ServerStep| s->Lost_0)
}

/// Which clients the steps accepted and lost.
proof fn lemma_ids_in(steps: Seq<ServerStep>)
    ensures
        accepted_ids(steps) =~= accepted_in(steps),
        lost_ids(steps) =~= lost_in(steps),
    decreases steps.len(),
{
    reveal(Seq::filter);
    if steps.len() > 0 {
        lemma_ids_in(steps.drop_last());
    }
}

/// Each message comes to what it has to, one at a time and in a row. In a row, there is
/// one event for each client that was accepted, and one for each that was lost, in order,
/// and no others.
pub proof fn law_handle_messages(
    message: ServerAsyncMessage,
    step: ServerStep,
    messages: Vec<ServerAsyncMessage>,
    r: (Vec<ConnectionEvent>, Vec<ConnectionLostEvent>),
)
    ensures
        forall|e: &mut ServerEndpoint| #[trigger]
            call_ensures(ServerEndpoint::handle_message, (e, message), step) && (*e)@.wf()
                ==> message_comes_to((*e)@, message, step, final(e)@),
        forall|e: &mut ServerEndpoint| #[trigger]
            call_ensures(ServerEndpoint::handle_messages, (e, messages), r) && (*e)@.wf()
                ==> exists|states: Seq<ServerEndpointView>, steps: Seq<ServerStep>| #[trigger]
                goes_through_messages(states, messages@, steps) && states.first() == (*e)@
                    && states.last() == final(e)@ && r.0@.map_values(|v: ConnectionEvent| v.id)
                    == accepted_in(steps) && r.1@.map_values(|v: ConnectionLostEvent| v.id)
                    == lost_in(steps),
{
    assert forall|e: &mut ServerEndpoint| #[trigger]
        call_ensures(ServerEndpoint::handle_message, (e, message), step) && (
        *e)@.wf() implies message_comes_to((*e)@, message, step, final(e)@) by {
        lemma_message_comes_to((*e)@, message, step, final(e)@);
    }
    assert forall|e: &mut ServerEndpoint| #[trigger]
        call_ensures(ServerEndpoint::handle_messages, (e, messages), r) && (
        *e)@.wf() implies exists|states: Seq<ServerEndpointView>, steps: Seq<ServerStep>|
        #[trigger] goes_through_messages(states, messages@, steps) && states.first() == (*e)@
            && states.last() == final(e)@ && r.0@.map_values(|v: ConnectionEvent| v.id)
            == accepted_in(steps) && r.1@.map_values(|v: ConnectionLostEvent| v.id) == lost_in(
            steps,
        ) by {
        let steps = choose|steps: Seq<ServerStep>| #[trigger]
            final(e)@.ran((*e)@, messages@, steps) && connected(r.0@) == accepted_ids(steps)
                && lost(r.1@) == lost_ids(steps);
        let states = choose|states: Seq<ServerEndpointView>| #[trigger]
            is_trace(states, messages@, steps) && states[0] == (*e)@
                && states[messages@.len() as int] == final(e)@;
        lemma_goes_through_messages(states, messages@, steps);
        lemma_ids_in(steps);
        assert(r.0@.map_values(|v: ConnectionEvent| v.id) =~= connected(r.0@));
        assert(r.1@.map_values(|v: ConnectionLostEvent| v.id) =~= lost(r.1@));
        assert(goes_through_messages(states, messages@, steps));
    }
}

/// The channel tasks of a client reported the connection as lost: their queue gave such a
/// report when it was asked until it had none to give, and for nothing else.
pub open spec fn reported_lost(connection: PeerConnectionView<ServerConnectionView>) -> bool {
    exists|
        answers: Seq<Result<ChannelAsyncMessage, RecvFailure>>,
        left: mpsc::Receiver<ChannelAsyncMessage>,
    | #[trigger]
        only_gave(connection.reports_left, answers, left) && answers.len() > 0 && answers.first()
            == Ok::<ChannelAsyncMessage, RecvFailure>(ChannelAsyncMessage::LostConnection)
}

/// What an update makes of the reports of the channel tasks: the clients whose tasks
/// reported the connection as lost, `reported`, each once, were ordered to close and are
/// disconnected. The tasks of each of the others had no report, and these clients stay.
pub open spec fn surveys(
    mid: ServerEndpointView,
    post: ServerEndpointView,
    reported: Seq<ClientId>,
) -> bool {
    &&& reported.no_duplicates()
    &&& forall|id: ClientId| #[trigger]
        post.clients.contains_key(id) <==> mid.clients.contains_key(id) && !reported.contains(id)
    &&& forall|id: ClientId| #[trigger]
        reported.contains(id) ==> {
            &&& mid.clients.contains_key(id)
            &&& reported_lost(mid.clients[id])
            &&& exists|heard: bool|
                listeners_told(mid.clients[id].ends.close_send, CloseReason::LocalOrder, heard)
        }
    &&& forall|id: ClientId| #[trigger]
        post.clients.contains_key(id) ==> {
            &&& came(
                mid.clients[id].reports,
                post.clients[id].reports,
                Seq::empty(),
                usize::MAX as int,
            )
            &&& post.clients[id] == (PeerConnectionView {
                reports: post.clients[id].reports,
                reports_left: post.clients[id].reports_left,
                ..mid.clients[id]
            })
        }
    &&& post.stats.connect_count == mid.stats.connect_count
    &&& post.stats.disconnect_count == mid.stats.disconnect_count + reported.len()
    &&& post == (ServerEndpointView { clients: post.clients, stats: post.stats, ..mid })
}

/// What disconnecting clients leaves as it is.
proof fn lemma_disconnecting_keeps(endpoint: ServerEndpointView, ids: Seq<ClientId>)
    ensures
        endpoint.disconnect_each(ids) == (ServerEndpointView {
            clients: endpoint.disconnect_each(ids).clients,
            stats: endpoint.disconnect_each(ids).stats,
            ..endpoint
        }),
        forall|id: ClientId| #[trigger]
            endpoint.disconnect_each(ids).clients.contains_key(id)
                ==> endpoint.disconnect_each(ids).clients[id] == endpoint.clients[id],
    decreases ids.len(),
{
    if ids.len() > 0 {
        lemma_disconnecting_keeps(endpoint, ids.drop_last());
    }
}

/// What the contract of an update comes to, from the reports on.
proof fn lemma_surveys(
    mid: ServerEndpointView,
    surveyed: ServerEndpointView,
    post: ServerEndpointView,
    reported: Seq<ClientId>,
)
    requires
        mid.wf(),
        surveyed.surveyed(mid, reported),
        post.disconnected_each(surveyed, reported),
    ensures
        surveys(mid, post, reported),
{
    let reports = choose|reports: Map<ClientId, Batch<ChannelAsyncMessage>>|
        {
            &&& reports.dom() == mid.clients.dom()
            &&& forall|id: ClientId| #[trigger]
                reports.contains_key(id) ==> mid.clients[id].gave_reports(
                    reports[id],
                    surveyed.clients[id].reports_left,
                )
            &&& surveyed == #[trigger] mid.reported(reports, surveyed)
            &&& reported.no_duplicates()
            &&& forall|id: ClientId| #[trigger]
                reported.contains(id) <==> reports.contains_key(id) && reports[id].messages.len()
                    > 0
        };
    assert(surveyed.clients.dom() =~= mid.clients.dom());
    assert forall|id: ClientId| #[trigger]
        reported.contains(id) implies surveyed.clients.contains_key(id) by {
        assert(reports.dom().contains(id));
        assert(mid.clients.dom().contains(id));
        assert(surveyed.clients.dom().contains(id));
    }
    lemma_disconnect_each(surveyed, reported);
    lemma_disconnecting_keeps(surveyed, reported);
    assert forall|id: ClientId| #[trigger]
        post.clients.contains_key(id) <==> mid.clients.contains_key(id) && !reported.contains(id) by {
        assert(surveyed.clients.dom().contains(id) <==> mid.clients.dom().contains(id));
    }
    assert forall|id: ClientId| #[trigger] reported.contains(id) implies {
        &&& mid.clients.contains_key(id)
        &&& reported_lost(mid.clients[id])
        &&& exists|heard: bool|
            listeners_told(mid.clients[id].ends.close_send, CloseReason::LocalOrder, heard)
    } by {
        assert(reports.dom().contains(id));
        assert(mid.clients.dom().contains(id));
        assert(reports.contains_key(id));
        let answers = reports[id].answers();
        assert(only_gave(mid.clients[id].reports_left, answers, surveyed.clients[id].reports_left));
        assert(answers.first() == Ok::<ChannelAsyncMessage, RecvFailure>(
            reports[id].messages.first(),
        ));
        assert(reports[id].messages.first() is LostConnection);
        let heard = choose|heard: bool| #[trigger]
            surveyed.clients[id].was_told(CloseReason::LocalOrder, heard);
        assert(listeners_told(
            mid.clients[id].ends.close_send,
            CloseReason::LocalOrder,
            heard,
        ));
    }
    assert forall|id: ClientId| #[trigger] post.clients.contains_key(id) implies {
        &&& came(
            mid.clients[id].reports,
            post.clients[id].reports,
            Seq::empty(),
            usize::MAX as int,
        )
        &&& post.clients[id] == (PeerConnectionView {
            reports: post.clients[id].reports,
            reports_left: post.clients[id].reports_left,
            ..mid.clients[id]
        })
    } by {
        assert(mid.clients.dom().contains(id));
        assert(reports.contains_key(id));
        assert(reports[id].messages =~= Seq::empty());
        lemma_batch_came(mid.clients[id].reports, reports[id], usize::MAX);
        assert(post.clients[id] == surveyed.clients[id]);
    }
}

/// What an update does to an endpoint. All messages of the async tasks that came,
/// `messages`, went through it in order; then the reports of the channel tasks were taken,
/// see [`surveys`]. There is one event for each client that was accepted, and one for each
/// that was lost, by a message or by a report, and no others.
pub open spec fn endpoint_updates(
    pre: ServerEndpointView,
    post: ServerEndpointView,
    messages: Seq<ServerAsyncMessage>,
    states: Seq<ServerEndpointView>,
    steps: Seq<ServerStep>,
    reported: Seq<ClientId>,
    events: Seq<ConnectionEvent>,
    losses: Seq<ConnectionLostEvent>,
) -> bool {
    &&& came(pre.messages, states.first().messages, messages, usize::MAX as int)
    &&& states.first() == (ServerEndpointView { messages: states.first().messages, ..pre })
    &&& goes_through_messages(states, messages, steps)
    &&& surveys(states.last(), post, reported)
    &&& post.messages == states.first().messages
    &&& events.map_values(|v: ConnectionEvent| v.id) == accepted_in(steps)
    &&& losses.map_values(|v: ConnectionLostEvent| v.id) == lost_in(steps) + reported
}

/// What the contract of an update comes to.
proof fn lemma_endpoint_updates(
    pre: ServerEndpointView,
    post: ServerEndpointView,
    events: Seq<ConnectionEvent>,
    losses: Seq<ConnectionLostEvent>,
)
    requires
        pre.wf(),
        post.updated(pre, connected(events), lost(losses)),
    ensures
        exists|
            messages: Seq<ServerAsyncMessage>,
            states: Seq<ServerEndpointView>,
            steps: Seq<ServerStep>,
            reported: Seq<ClientId>,
        | #[trigger]
            endpoint_updates(pre, post, messages, states, steps, reported, events, losses),
{
    let (messages, steps, mid, surveyed, reported) = choose|
        messages: Batch<ServerAsyncMessage>,
        steps: Seq<ServerStep>,
        mid: ServerEndpointView,
        surveyed: ServerEndpointView,
        reported: Seq<ClientId>,
    |
        {
            &&& messages.complete(usize::MAX)
            &&& #[trigger] mid.ran(pre.with_messages(messages), messages.messages, steps)
            &&& #[trigger] surveyed.surveyed(mid, reported)
            &&& post.disconnected_each(surveyed, reported)
            &&& connected(events) == accepted_ids(steps)
            &&& lost(losses) == lost_ids(steps) + reported
        };
    let taken = messages.messages;
    let states = choose|states: Seq<ServerEndpointView>| #[trigger]
        is_trace(states, taken, steps) && states[0] == pre.with_messages(messages)
            && states[taken.len() as int] == mid;
    lemma_goes_through_messages(states, taken, steps);
    lemma_batch_came(pre.messages, messages, usize::MAX);
    lemma_ids_in(steps);
    assert(states.last() == mid);
    lemma_surveys(mid, surveyed, post, reported);
    assert(events.map_values(|v: ConnectionEvent| v.id) =~= connected(events));
    assert(losses.map_values(|v: ConnectionLostEvent| v.id) =~= lost(losses));
    assert(mid.messages == states[0].messages);
    assert(endpoint_updates(pre, post, taken, states, steps, reported, events, losses));
}

/// An update of an endpoint, and of a server that has one, handles all that came; see
/// [`endpoint_updates`]. A server without an endpoint has no events.
pub proof fn law_server_update(
    r: (Vec<ConnectionEvent>, Vec<ConnectionLostEvent>),
    events: ServerEvents,
)
    ensures
        forall|e: &mut ServerEndpoint| #[trigger]
            call_ensures(ServerEndpoint::update, (e,), r) && (*e)@.wf() ==> exists|
                messages: Seq<ServerAsyncMessage>,
                states: Seq<ServerEndpointView>,
                steps: Seq<ServerStep>,
                reported: Seq<ClientId>,
            | #[trigger]
                endpoint_updates(
                    (*e)@,
                    final(e)@,
                    messages,
                    states,
                    steps,
                    reported,
                    r.0@,
                    r.1@,
                ),
        forall|server: &mut IrohServer| #[trigger]
            call_ensures(handle_server_events, (server,), events) ==> {
                &&& final(server).endpoint is Some <==> (*server).endpoint is Some
                &&& (*server).endpoint is None ==> events.connection_events@.len() == 0
                    && events.connection_lost_events@.len() == 0
                &&& (*server).endpoint is Some && (*server).endpoint->0@.wf() ==> exists|
                    messages: Seq<ServerAsyncMessage>,
                    states: Seq<ServerEndpointView>,
                    steps: Seq<ServerStep>,
                    reported: Seq<ClientId>,
                | #[trigger]
                    endpoint_updates(
                        (*server).endpoint->0@,
                        final(server).endpoint->0@,
                        messages,
                        states,
                        steps,
                        reported,
                        events.connection_events@,
                        events.connection_lost_events@,
                    )
            },
{
    assert forall|e: &mut ServerEndpoint| #[trigger]
        call_ensures(ServerEndpoint::update, (e,), r) && (*e)@.wf() implies exists|
        messages: Seq<ServerAsyncMessage>,
        states: Seq<ServerEndpointView>,
        steps: Seq<ServerStep>,
        reported: Seq<ClientId>,
    | #[trigger]
        endpoint_updates((*e)@, final(e)@, messages, states, steps, reported, r.0@, r.1@) by {
        lemma_endpoint_updates((*e)@, final(e)@, r.0@, r.1@);
    }
    assert forall|server: &mut IrohServer| #[trigger]
        call_ensures(handle_server_events, (server,), events) && (*server).endpoint is Some && (
        *server).endpoint->0@.wf() implies exists|
        messages: Seq<ServerAsyncMessage>,
        states: Seq<ServerEndpointView>,
        steps: Seq<ServerStep>,
        reported: Seq<ClientId>,
    | #[trigger]
        endpoint_updates(
            (*server).endpoint->0@,
            final(server).endpoint->0@,
            messages,
            states,
            steps,
            reported,
            events.connection_events@,
            events.connection_lost_events@,
        ) by {
        lemma_endpoint_updates(
            (*server).endpoint->0@,
            final(server).endpoint->0@,
            events.connection_events@,
            events.connection_lost_events@,
        );
    }
}

/// A read from a client gives what has waited longest on the channel, which is gone from
/// it then, and leaves all else alone; a client that is not there is named.
pub open spec fn reads_from(
    pre: ServerEndpointView,
    post: ServerEndpointView,
    id: ClientId,
    channel: ChannelId,
    r: Option<Bytes>,
) -> bool {
    &&& pre.clients.contains_key(id)
    &&& r is Some <==> pre.clients[id].buffers[channel].len() > 0
    &&& r is None ==> post == pre
    &&& r is Some ==> {
        &&& reads(pre.clients[id], post.clients[id], channel, r)
        &&& post == (ServerEndpointView {
            clients: pre.clients.insert(id, post.clients[id]),
            ..pre
        })
    }
}

/// What the contract of reading from a client comes to.
proof fn lemma_reads_from(
    pre: ServerEndpointView,
    post: ServerEndpointView,
    id: ClientId,
    channel: ChannelId,
    result: Result<Option<Bytes>, ServerReceiveError>,
)
    requires
        post.received(
            pre,
            id,
            channel,
            crate::server::endpoint::receive::received_bytes(result),
        ),
    ensures
        !pre.clients.contains_key(id) ==> post == pre && result == Err::<Option<Bytes>, _>(
            ServerReceiveError::UnknownClient(id),
        ),
        pre.clients.contains_key(id) ==> result is Ok && reads_from(
            pre,
            post,
            id,
            channel,
            result->Ok_0,
        ),
{
    if pre.clients.contains_key(id) && pre.clients[id].buffers[channel].len() > 0 {
        assert(result is Ok && result->Ok_0 is Some);
        let payload = result->Ok_0->0;
        assert(post.clients[id].buffers[channel] =~= pre.clients[id].buffers[channel].drop_first());
        assert(pre.clients[id].buffers[channel] =~= seq![payload_bytes(payload)]
            + post.clients[id].buffers[channel]);
    }
}

/// See [`reads_from`].
pub proof fn law_server_receive(id: ClientId, channel: ChannelId)
    ensures
        forall|e: &mut ServerEndpoint, r: Result<Option<Bytes>, ServerReceiveError>| #[trigger]
            call_ensures(ServerEndpoint::receive_payload, (e, id, channel), r) ==> if (
            *e)@.clients.contains_key(id) {
                r is Ok && reads_from((*e)@, final(e)@, id, channel, r->Ok_0)
            } else {
                r == Err::<Option<Bytes>, _>(ServerReceiveError::UnknownClient(id)) && final(e)@
                    == (*e)@
            },
        forall|e: &mut ServerEndpoint, r: Option<Bytes>| #[trigger]
            call_ensures(ServerEndpoint::try_receive_payload, (e, id, channel), r) ==> if (
            *e)@.clients.contains_key(id) {
                reads_from((*e)@, final(e)@, id, channel, r)
            } else {
                r is None && final(e)@ == (*e)@
            },
{
    assert forall|e: &mut ServerEndpoint, r: Result<Option<Bytes>, ServerReceiveError>| #[trigger]
        call_ensures(ServerEndpoint::receive_payload, (e, id, channel), r) implies if (
    *e)@.clients.contains_key(id) {
        r is Ok && reads_from((*e)@, final(e)@, id, channel, r->Ok_0)
    } else {
        r == Err::<Option<Bytes>, _>(ServerReceiveError::UnknownClient(id)) && final(e)@ == (*e)@
    } by {
        lemma_reads_from((*e)@, final(e)@, id, channel, r);
    }
    assert forall|e: &mut ServerEndpoint, r: Option<Bytes>| #[trigger]
        call_ensures(ServerEndpoint::try_receive_payload, (e, id, channel), r) implies if (
    *e)@.clients.contains_key(id) {
        reads_from((*e)@, final(e)@, id, channel, r)
    } else {
        r is None && final(e)@ == (*e)@
    } by {
        let result = choose|result: Result<Option<Bytes>, ServerReceiveError>| #[trigger]
            final(e)@.received(
                (*e)@,
                id,
                channel,
                crate::server::endpoint::receive::received_bytes(result),
            ) && r == match result {
                Ok(payload) => payload,
                Err(_) => None,
            };
        lemma_reads_from((*e)@, final(e)@, id, channel, result);
    }
}

/// How many of the events say that this channel of this client was full.
pub open spec fn full_events_of(
    events: Seq<ServerRecvChannelError>,
    id: ClientId,
    channel: ChannelId,
) -> nat {
    crate::client::calls::full_events(events, id, channel)
}

/// The events about one channel of one client, among those of a dispatch.
proof fn lemma_server_dispatch_events(
    pre: ServerEndpointView,
    ids: Seq<ClientId>,
    arrivals: Map<ClientId, Batch<(ChannelId, Seq<u8>)>>,
    id: ClientId,
    channel: ChannelId,
)
    requires
        ids.no_duplicates(),
    ensures
        full_events_of(pre.dispatch_events(ids, arrivals), id, channel) == if ids.contains(id) {
            full_count(pre.clients[id].dispatch_errors(arrivals[id].messages), channel)
        } else {
            0
        },
    decreases ids.len(),
{
    reveal(Seq::filter);
    if ids.len() > 0 {
        let before = ids.drop_last();
        let last = ids.last();
        assert(before.no_duplicates());
        lemma_server_dispatch_events(pre, before, arrivals, id, channel);
        assert(ids.contains(id) <==> before.contains(id) || id == last) by {
            if before.contains(id) {
                let k = choose|k: int| 0 <= k < before.len() && before[k] == id;
                assert(ids[k] == id);
            }
            if ids.contains(id) && id != last {
                let k = choose|k: int| 0 <= k < ids.len() && ids[k] == id;
                assert(before[k] == id);
            }
            assert(ids[ids.len() - 1] == last);
        }
        assert(id == last ==> !before.contains(id)) by {
            if id == last && before.contains(id) {
                let k = choose|k: int| 0 <= k < before.len() && before[k] == id;
                assert(ids[k] == ids[ids.len() - 1]);
            }
        }
        crate::client::calls::lemma_full_events(
            pre.dispatch_events(before, arrivals),
            last,
            pre.clients[last].dispatch_errors(arrivals[last].messages),
            id,
            channel,
        );
    }
}

/// What a dispatch does to an endpoint, for one channel of one client; see [`sorts_in`].
pub open spec fn endpoint_sorts_in(
    pre: ServerEndpointView,
    post: ServerEndpointView,
    events: Seq<ServerRecvChannelError>,
    id: ClientId,
    channel: ChannelId,
) -> bool {
    &&& post == (ServerEndpointView { clients: post.clients, ..pre })
    &&& post.clients.contains_key(id) <==> pre.clients.contains_key(id)
    &&& if pre.clients.contains_key(id) {
        exists|payloads: Seq<(ChannelId, Seq<u8>)>| #[trigger]
            sorts_in(
                pre.clients[id],
                post.clients[id],
                channel,
                payloads,
                full_events_of(events, id, channel) as int,
            )
    } else {
        full_events_of(events, id, channel) == 0
    }
}

/// What the contract of a dispatch comes to.
proof fn lemma_endpoint_sorts_in(
    pre: ServerEndpoint,
    post: ServerEndpointView,
    events: Seq<ServerRecvChannelError>,
    id: ClientId,
    channel: ChannelId,
)
    requires
        post.dispatched(pre@, events),
    ensures
        endpoint_sorts_in(pre@, post, events, id, channel),
{
    let before = pre@;
    let (ids, arrivals) = choose|
        ids: Seq<ClientId>,
        arrivals: Map<ClientId, Batch<(ChannelId, Seq<u8>)>>,
    |
        {
            &&& lists_keys(ids, before.clients)
            &&& arrivals.dom() == before.clients.dom()
            &&& forall|id: ClientId| #[trigger]
                arrivals.contains_key(id) ==> arrivals[id].complete(usize::MAX)
            &&& post == before.dispatch(arrivals)
            &&& events == #[trigger] before.dispatch_events(ids, arrivals)
        };
    lemma_server_dispatch_events(before, ids, arrivals, id, channel);
    assert(ids.contains(id) <==> before.clients.contains_key(id));
    if before.clients.contains_key(id) {
        assert(before.clients.dom().contains(id));
        assert(arrivals.contains_key(id));
        assert(before.clients[id] == client_map(pre.clients)[id]@);
        assert(before.clients[id].buffers.contains_key(channel));
        lemma_sorts_in(before.clients[id], arrivals[id], channel);
        assert(sorts_in(
            before.clients[id],
            post.clients[id],
            channel,
            arrivals[id].messages,
            full_events_of(events, id, channel) as int,
        ));
    }
}

/// A dispatch sorts all that came from each client into the buffers of its channels, and
/// reports each payload that is left out with one event, which names the client and the
/// channel; see [`endpoint_sorts_in`]. On a server it does so for its endpoint.
pub proof fn law_server_dispatch(
    r: Vec<ServerRecvChannelError>,
    id: ClientId,
    channel: ChannelId,
)
    ensures
        forall|e: &mut ServerEndpoint| #[trigger]
            call_ensures(ServerEndpoint::dispatch_received_payloads, (e,), r) ==> endpoint_sorts_in(
                (*e)@,
                final(e)@,
                r@,
                id,
                channel,
            ),
        forall|server: &mut IrohServer| #[trigger]
            call_ensures(dispatch_received_payloads, (server,), r) ==> {
                &&& final(server).endpoint is Some <==> (*server).endpoint is Some
                &&& (*server).endpoint is None ==> r@.len() == 0
                &&& (*server).endpoint is Some ==> endpoint_sorts_in(
                    (*server).endpoint->0@,
                    final(server).endpoint->0@,
                    r@,
                    id,
                    channel,
                )
            },
{
    assert forall|e: &mut ServerEndpoint| #[trigger]
        call_ensures(ServerEndpoint::dispatch_received_payloads, (e,), r) implies endpoint_sorts_in(
        (*e)@,
        final(e)@,
        r@,
        id,
        channel,
    ) by {
        lemma_endpoint_sorts_in(*e, final(e)@, r@, id, channel);
    }
    assert forall|server: &mut IrohServer| #[trigger]
        call_ensures(dispatch_received_payloads, (server,), r) && (
        *server).endpoint is Some implies endpoint_sorts_in(
        (*server).endpoint->0@,
        final(server).endpoint->0@,
        r@,
        id,
        channel,
    ) by {
        lemma_endpoint_sorts_in(
            (*server).endpoint->0,
            final(server).endpoint->0@,
            r@,
            id,
            channel,
        );
    }
}

/// Nothing waits to be read on a channel of a client, and nothing else has changed.
pub open spec fn clears_all(
    pre: ServerEndpointView,
    post: ServerEndpointView,
    id: ClientId,
    channel: ChannelId,
) -> bool {
    &&& post == (ServerEndpointView { clients: post.clients, ..pre })
    &&& post.clients.contains_key(id) <==> pre.clients.contains_key(id)
    &&& pre.clients.contains_key(id) ==> {
        &&& post.clients[id].buffers[channel].len() == 0
        &&& post.clients[id] == (PeerConnectionView {
            buffers: post.clients[id].buffers,
            ..pre.clients[id]
        })
    }
}

/// Clearing leaves nothing to read of any client; clearing what is stale does so only
/// where the endpoint is configured for it. That can be set, and nothing else is then.
pub proof fn law_server_clear(id: ClientId, channel: ChannelId, enable: bool)
    ensures
        forall|e: &mut ServerEndpoint, done: ()| #[trigger]
            call_ensures(ServerEndpoint::clear_payloads_from_clients, (e,), done) ==> clears_all(
                (*e)@,
                final(e)@,
                id,
                channel,
            ),
        forall|server: &mut IrohServer, done: ()| #[trigger]
            call_ensures(clear_stale_received_payloads, (server,), done) ==> {
                &&& final(server).endpoint is Some <==> (*server).endpoint is Some
                &&& (*server).endpoint is Some ==> if (
                *server).endpoint->0@.recv_channels_cfg.clear_stale_received_payloads {
                    clears_all(
                        (*server).endpoint->0@,
                        final(server).endpoint->0@,
                        id,
                        channel,
                    )
                } else {
                    final(server).endpoint->0@ == (*server).endpoint->0@
                }
            },
        forall|e: &mut ServerEndpoint, done: ()| #[trigger]
            call_ensures(ServerEndpoint::set_clear_stale_client_payloads, (e, enable), done) ==> {
                &&& final(e)@.recv_channels_cfg.clear_stale_received_payloads == enable
                &&& final(e)@.recv_channels_cfg.max_buffered_payloads_count_per_channel == (
                *e)@.recv_channels_cfg.max_buffered_payloads_count_per_channel
                &&& final(e)@ == (ServerEndpointView {
                    recv_channels_cfg: final(e)@.recv_channels_cfg,
                    ..(*e)@
                })
            },
        forall|e: ServerEndpoint, cfg: &RecvChannelsConfiguration| #[trigger]
            call_ensures(ServerEndpoint::recv_channels_cfg, (&e,), cfg) ==> *cfg
                == e.recv_channels_cfg,
{
}

/// What an endpoint says of itself is how it is: its clients, each once, with their
/// connections, its stats and its iroh endpoint. A connection or an iroh endpoint that is
/// changed in place is changed there, and nothing else is.
pub proof fn law_endpoint_answers(e: ServerEndpoint, id: ClientId)
    ensures
        forall|r: Vec<ClientId>| #[trigger]
            call_ensures(ServerEndpoint::clients, (&e,), r) ==> r@.no_duplicates() && (
            r@.contains(id) <==> e@.clients.contains_key(id)),
        forall|r: Option<&ServerSideConnection>| #[trigger]
            call_ensures(ServerEndpoint::connection, (&e, id), r) ==> (r is Some
                <==> e@.clients.contains_key(id)) && (r is Some ==> r->0@ == e@.clients[id]),
        forall|r: &EndpointStats| #[trigger]
            call_ensures(ServerEndpoint::endpoint_stats, (&e,), r) ==> *r == e.stats,
        forall|stats: EndpointStats, r: u32| #[trigger]
            call_ensures(EndpointStats::connect_count, (&stats,), r) ==> r == stats.connect_count,
        forall|stats: EndpointStats, r: u32| #[trigger]
            call_ensures(EndpointStats::disconnect_count, (&stats,), r) ==> r
                == stats.disconnect_count,
        forall|stats: EndpointStats| #[trigger]
            call_ensures(EndpointStats::default, (), stats) ==> stats.connect_count == 0
                && stats.disconnect_count == 0,
        forall|r: &Endpoint| #[trigger]
            call_ensures(ServerEndpoint::raw_endpoint, (&e,), r) ==> *r == e.raw,
        forall|c: &mut ServerEndpoint, r: &mut Endpoint| #[trigger]
            call_ensures(ServerEndpoint::raw_endpoint_mut, (c,), r) ==> *r == (*c)@.raw && final(
                c
            )@ == (ServerEndpointView { raw: *final(r), ..(*c)@ }),
        forall|c: &mut ServerEndpoint, r: Option<&mut ServerSideConnection>| #[trigger]
            call_ensures(ServerEndpoint::connection_mut, (c, id), r) ==> {
                &&& r is Some <==> (*c)@.clients.contains_key(id)
                &&& r is None ==> final(c)@ == (*c)@
                &&& r is Some ==> (*r->0)@ == (*c)@.clients[id] && final(c)@ == (
                ServerEndpointView {
                    clients: (*c)@.clients.insert(id, (*final(r->0))@),
                    ..(*c)@
                })
            },
{
}

/// Messages of the async tasks are taken as they come: one, or all that there are up to a
/// limit.
pub proof fn law_endpoint_messages(
    r: Result<ServerAsyncMessage, RecvFailure>,
    limit: usize,
    all: Vec<ServerAsyncMessage>,
)
    ensures
        forall|e: &mut ServerEndpoint| #[trigger]
            call_ensures(ServerEndpoint::try_recv_from_async, (e,), r) ==> final(e)@ == (
            ServerEndpointView { messages: (*e)@.messages.push(r), ..(*e)@ }),
        forall|e: &mut ServerEndpoint| #[trigger]
            call_ensures(ServerEndpoint::drain_async_messages, (e, limit), all) ==> {
                &&& came((*e)@.messages, final(e)@.messages, all@, limit as int)
                &&& final(e)@ == (ServerEndpointView { messages: final(e)@.messages, ..(*e)@ })
            },
{
    assert forall|e: &mut ServerEndpoint| #[trigger]
        call_ensures(ServerEndpoint::drain_async_messages, (e, limit), all) implies came(
        (*e)@.messages,
        final(e)@.messages,
        all@,
        limit as int,
    ) by {
        let batch = choose|messages: Batch<ServerAsyncMessage>| #[trigger]
            messages.complete(limit) && messages.messages == all@ && final(e)@
                == (*e)@.with_messages(messages);
        lemma_batch_came((*e)@.messages, batch, limit);
    }
}

/// An endpoint starts without clients, channels and counts, with every channel id free,
/// and with the halves of the queues that it is given.
pub open spec fn endpoint_starts(
    e: ServerEndpointView,
    raw: Endpoint,
    cfg: RecvChannelsConfiguration,
) -> bool {
    &&& e.raw == raw
    &&& e.recv_channels_cfg == cfg
    &&& e.client_id_gen == 0
    &&& e.stats.connect_count == 0
    &&& e.stats.disconnect_count == 0
    &&& forall|id: ClientId| !(#[trigger] e.clients.contains_key(id))
    &&& e.shutdowns.len() == 0
    &&& e.messages.len() == 0
}

/// A server that is started has a new endpoint, of the iroh endpoint that was bound, and
/// for each index of the configured channels that channel is open with exactly the config
/// that stands there, whatever its kind; no other channel is. The ids of the channels are
/// not free, all others are, and the first is the default channel. The id that is returned
/// is that of the iroh endpoint, and the task has the other halves of the queues of the
/// endpoint. Where binding failed, the server stays as it was, and the text says why.
pub proof fn law_start_endpoint(
    bound: Result<Endpoint, iroh::endpoint::BindError>,
    channels: SendChannelsConfiguration,
    cfg: RecvChannelsConfiguration,
    r: Result<(EndpointId, EndpointTaskData), EndpointStartError>,
)
    ensures
        forall|server: &mut IrohServer| #[trigger]
            call_ensures(IrohServer::start_endpoint, (server, bound, channels, cfg), r)
                ==> match bound {
                Ok(raw) => {
                    let e = final(server).endpoint->0@;
                    &&& final(server).endpoint is Some
                    &&& endpoint_starts(e, raw, cfg)
                    &&& forall|id: ChannelId| #[trigger]
                        e.opened_channels.contains_key(id) <==> (id as int) < channels@.len()
                    &&& forall|id: ChannelId|
                        (id as int) < channels@.len() ==> #[trigger] e.opened_channels[id]
                            == channels@[id as int]
                    &&& forall|id: ChannelId| #[trigger]
                        e.send_channel_ids.available.contains(id) <==> id as int >= channels@.len()
                    &&& e.send_channel_ids.default_channel == if channels@.len() == 0 {
                        None::<ChannelId>
                    } else {
                        Some(0 as ChannelId)
                    }
                    &&& r matches Ok((id, task)) && id == identity(raw) && task.endpoint == raw
                        && task.recv_channels_cfg == cfg && mpsc_halves(
                        DEFAULT_INTERNAL_MESSAGES_CHANNEL_SIZE,
                        task.to_sync_endpoint_send,
                        e.messages_half,
                    ) && broadcast_halves(
                        DEFAULT_KILL_MESSAGE_QUEUE_SIZE,
                        e.close_half,
                        task.endpoint_close_recv,
                    )
                },
                Err(why) => {
                    &&& final(server).endpoint == (*server).endpoint
                    &&& r matches Err(EndpointStartError::BindError(text)) && text@
                        == crate::server::error::bind_error_text(why)
                },
            },
        forall|
            raw: Endpoint,
            close: broadcast::Sender<()>,
            messages: mpsc::Receiver<ServerAsyncMessage>,
            e: ServerEndpoint,
        | #[trigger]
            call_ensures(ServerEndpoint::new, (raw, close, messages, cfg), e) ==> {
                &&& endpoint_starts(e@, raw, cfg)
                &&& e@.close_half == close
                &&& e@.messages_half == messages
                &&& forall|id: ChannelId| !(#[trigger] e@.opened_channels.contains_key(id))
                &&& forall|id: ChannelId| #[trigger] e@.send_channel_ids.available.contains(id)
                &&& e@.send_channel_ids.default_channel is None
            },
{
}

/// Whether a server listens is whether it has an endpoint; its endpoint is given and
/// changed in place. The conditions on it say the same of a server that may not exist, and
/// say of a change that it happened since they were asked last.
pub proof fn law_server_state(server: IrohServer, r: bool)
    ensures
        call_ensures(IrohServer::is_listening, (&server,), r) ==> (r <==> server.endpoint is Some),
        call_ensures(server_listening, (Some(&server),), r) ==> (r <==> server.endpoint is Some),
        call_ensures(server_listening, (None,), r) ==> !r,
        forall|was: &mut bool| #[trigger]
            call_ensures(server_just_opened, (was, Some(&server)), r) ==> (r <==> !*was
                && server.endpoint is Some) && (*final(was) <==> server.endpoint is Some),
        forall|was: &mut bool| #[trigger]
            call_ensures(server_just_opened, (was, None), r) ==> !r && !*final(was),
        forall|was: &mut bool| #[trigger]
            call_ensures(server_just_closed, (was, Some(&server)), r) ==> (r <==> *was
                && server.endpoint is None) && (*final(was) <==> server.endpoint is Some),
        forall|was: &mut bool| #[trigger]
            call_ensures(server_just_closed, (was, None), r) ==> r == *was && !*final(was),
        forall|fresh: IrohServer| #[trigger]
            call_ensures(IrohServer::new, (), fresh) ==> fresh.endpoint is None,
        forall|e: &ServerEndpoint| #[trigger]
            call_ensures(IrohServer::endpoint, (&server,), e) && server.endpoint is Some ==> *e
                == server.endpoint->0,
        forall|e: Option<&ServerEndpoint>| #[trigger]
            call_ensures(IrohServer::get_endpoint, (&server,), e) ==> (e is Some
                <==> server.endpoint is Some) && (e is Some ==> *e->0 == server.endpoint->0),
        forall|s: &mut IrohServer, e: &mut ServerEndpoint| #[trigger]
            call_ensures(IrohServer::endpoint_mut, (s,), e) && (*s).endpoint is Some ==> *e == (
            *s).endpoint->0 && final(s).endpoint == Some(*final(e)),
        forall|s: &mut IrohServer, e: Option<&mut ServerEndpoint>| #[trigger]
            call_ensures(IrohServer::get_endpoint_mut, (s,), e) ==> {
                &&& e is Some <==> (*s).endpoint is Some
                &&& e is Some ==> *e->0 == (*s).endpoint->0 && final(s).endpoint == Some(
                    *final(e->0),
                )
                &&& e is None ==> final(s).endpoint is None
            },
{
}

/// The task that accepts connections serves each one that is established, ends when it is
/// ordered to or when the endpoint accepts no more, and goes on after one that failed. The
/// task of a connection serves its client once the server has answered, under the id of
/// the answer; once the connection is closed, it tells the server so, under that id, if
/// the server still listens; else it ends.
pub proof fn law_server_tasks(
    event: EndpointTaskEvent,
    action: EndpointTaskAction,
    client_event: ClientTaskEvent,
    client_action: ClientTaskAction,
)
    ensures
        call_ensures(endpoint_task_step, (event,), action) ==> match event {
            EndpointTaskEvent::CloseOrdered => action is Stop,
            EndpointTaskEvent::EndpointClosed => action is Stop,
            EndpointTaskEvent::IncomingFailed => action is Wait,
            EndpointTaskEvent::Established => action is Serve,
        },
        forall|state: &mut ClientTaskState| #[trigger]
            call_ensures(client_task_step, (state, client_event), client_action) ==> {
                &&& client_action is Serve <==> *state is AwaitingAnswer && (
                client_event matches ClientTaskEvent::Answered(Some(_)))
                &&& client_action matches ClientTaskAction::Serve(id) ==> client_event
                    == ClientTaskEvent::Answered(
                    Some(ServerSyncMessage::ClientConnectedAck(id)),
                ) && *final(state) == ClientTaskState::Serving(id)
                &&& client_action is Tell <==> *state is Serving && client_event
                    == ClientTaskEvent::ConnectionClosed { server_listens: true }
                &&& client_action matches ClientTaskAction::Tell(message) ==> message
                    == ServerAsyncMessage::ClientConnectionClosed((*state)->Serving_0)
                    && *final(state) is Ended
                &&& client_action is End ==> *final(state) is Ended
            },
{
}

/// A connection that is announced is one that has just been made: it has not used its
/// queues, has no channel, and its task has told it nothing. The task has the other halves
/// of its queues, and awaits the answer of the server.
pub proof fn law_new_client_connection(
    handle: InternalConnectionRef,
    cfg: RecvChannelsConfiguration,
    r: (ServerAsyncMessage, ClientConnectionTaskData),
    id: ChannelId,
)
    requires
        call_ensures(new_client_connection, (handle, cfg), r),
    ensures
        r.1.state is AwaitingAnswer,
        r.0 matches ServerAsyncMessage::ClientConnected(connection) && {
            let c = connection@;
            &&& c.specific.connection_handle == handle
            &&& c.specific.acks.len() == 0
            &&& c.recv_channels_cfg == cfg
            &&& !c.channels.contains_key(id)
            &&& c.buffers[id].len() == 0
            &&& c.requests.len() == 0
            &&& c.close_orders.len() == 0
            &&& c.reports.len() == 0
            &&& c.arrived.len() == 0
            &&& c.reports_left == c.ends.from_channels_recv
            &&& mpsc_halves(
                DEFAULT_MESSAGE_QUEUE_SIZE,
                r.1.bytes_from_client_send,
                c.ends.bytes_from_peer_recv,
            )
            &&& mpsc_halves(
                DEFAULT_INTERNAL_MESSAGES_CHANNEL_SIZE,
                c.specific.ack_half,
                r.1.from_sync_server_recv,
            )
            &&& mpsc_halves(
                DEFAULT_INTERNAL_MESSAGES_CHANNEL_SIZE,
                r.1.from_channels_send,
                c.ends.from_channels_recv,
            )
            &&& mpsc_halves(
                DEFAULT_QCHANNEL_MESSAGES_CHANNEL_SIZE,
                c.ends.to_channels_send,
                r.1.to_channels_recv,
            )
            &&& broadcast_halves(
                DEFAULT_KILL_MESSAGE_QUEUE_SIZE,
                c.ends.close_send,
                r.1.client_close_recv,
            )
        },
{
}

/// What handing `bytes` to a channel of a client's connection does: the queue of a
/// registered channel was offered them, once; they are the last that it took where `r` is
/// `Ok`, and were refused, with the error of that queue, where it is not. A channel that
/// is not registered is named. Nothing else changes.
pub open spec fn delivers(
    pre: PeerConnectionView<ServerConnectionView>,
    post: PeerConnectionView<ServerConnectionView>,
    channel: ChannelId,
    bytes: Seq<u8>,
    r: Result<(), ConnectionSendError>,
) -> bool {
    &&& !pre.channels.contains_key(channel) <==> r == Err::<(), _>(
        ConnectionSendError::InvalidChannelId(channel),
    )
    &&& r matches Err(ConnectionSendError::InvalidChannelId(bad)) ==> bad == channel && post == pre
    &&& r matches Err(ConnectionSendError::AsyncChannelError(e)) ==> post.channels[channel].sends
        == pre.channels[channel].sends.push((bytes, Answer::Refused(e)))
        && post.channels[channel].sent() == pre.channels[channel].sent()
    &&& r is Ok ==> post.channels[channel].sends == pre.channels[channel].sends.push(
        (bytes, Answer::Taken),
    ) && post.channels[channel].sent() == pre.channels[channel].sent().push(bytes)
    &&& pre.channels.contains_key(channel) ==> post.channels[channel].id
        == pre.channels[channel].id && post.channels[channel].stops == pre.channels[channel].stops
        && post.channels[channel].payload_half == pre.channels[channel].payload_half
        && post.channels[channel].stop_half == pre.channels[channel].stop_half
    &&& post.channels.dom() == pre.channels.dom()
    &&& forall|other: ChannelId|
        other != channel && pre.channels.contains_key(other) ==> #[trigger] post.channels[other]
            == pre.channels[other]
    &&& post == (PeerConnectionView { channels: post.channels, ..pre })
}

/// What sending `bytes` to a client on a channel does; see [`delivers`]. A client that is
/// not there is named, and nothing changes; no other client is touched.
pub open spec fn sends_to(
    pre: ServerEndpointView,
    post: ServerEndpointView,
    id: ClientId,
    channel: ChannelId,
    bytes: Seq<u8>,
    r: Result<(), ServerSendError>,
) -> bool {
    if pre.clients.contains_key(id) {
        &&& match r {
            Ok(_) => delivers(pre.clients[id], post.clients[id], channel, bytes, Ok(())),
            Err(ServerSendError::ConnectionSendError(e)) => delivers(
                pre.clients[id],
                post.clients[id],
                channel,
                bytes,
                Err(e),
            ),
            Err(ServerSendError::UnknownClient(_)) => false,
        }
        &&& post == (ServerEndpointView {
            clients: pre.clients.insert(id, post.clients[id]),
            ..pre
        })
    } else {
        r == Err::<(), _>(ServerSendError::UnknownClient(id)) && post == pre
    }
}

/// What the contract of sending to a client comes to.
proof fn lemma_sends_to(
    pre: ServerEndpointView,
    id: ClientId,
    channel: ChannelId,
    bytes: Seq<u8>,
    r: Result<(), ServerSendError>,
)
    requires
        pre.send_possible(id, channel, r),
    ensures
        sends_to(pre, pre.after_send(id, channel, bytes, r), id, channel, bytes, r),
{
    let post = pre.after_send(id, channel, bytes, r);
    if pre.clients.contains_key(id) {
        let a = pre.clients[id];
        let b = post.clients[id];
        assert(b.channels.dom() =~= a.channels.dom());
        if a.channels.contains_key(channel) {
            assert(b.channels[channel].sends.drop_last() =~= a.channels[channel].sends);
        }
        assert(post.clients =~= pre.clients.insert(id, b));
    }
}

/// What sending `bytes` to each of `ids` does: one after the other, each as
/// [`sends_to`] says, whatever came of those before.
pub open spec fn sends_to_each(
    states: Seq<ServerEndpointView>,
    ids: Seq<ClientId>,
    channel: ChannelId,
    bytes: Seq<u8>,
    outcomes: Seq<Result<(), ServerSendError>>,
) -> bool {
    &&& states.len() == ids.len() + 1
    &&& outcomes.len() == ids.len()
    &&& forall|i: int|
        0 <= i < ids.len() ==> sends_to(
            states[i],
            states[i + 1],
            ids[i],
            channel,
            bytes,
            #[trigger] outcomes[i],
        )
}

/// The clients that were not reached, in order, each with why.
pub open spec fn not_reached(
    ids: Seq<ClientId>,
    outcomes: Seq<Result<(), ServerSendError>>,
) -> Seq<(ClientId, ServerSendError)> {
    Seq::new(outcomes.len(), |i: int| (ids[i], outcomes[i])).filter(
        |o: (ClientId, Result<(), ServerSendError>)| o.1 is Err,
    ).map_values(|o: (ClientId, Result<(), ServerSendError>)| (o.0, o.1->Err_0))
}

/// What is reported of a group send.
proof fn lemma_not_reached(ids: Seq<ClientId>, outcomes: Seq<Result<(), ServerSendError>>)
    requires
        outcomes.len() <= ids.len(),
    ensures
        crate::server::endpoint::send::failures(ids, outcomes) =~= not_reached(ids, outcomes),
    decreases outcomes.len(),
{
    reveal(Seq::filter);
    let pairs = Seq::new(outcomes.len(), |i: int| (ids[i], outcomes[i]));
    if outcomes.len() > 0 {
        let before = outcomes.drop_last();
        lemma_not_reached(ids, before);
        assert(pairs.drop_last() =~= Seq::new(before.len(), |i: int| (ids[i], before[i])));
    }
}

/// `post` is `pre` once `bytes` were sent to each of `ids` on a channel, and `errors`
/// names those that were not reached, each with why, and no others.
pub open spec fn group_sends(
    pre: ServerEndpointView,
    post: ServerEndpointView,
    ids: Seq<ClientId>,
    channel: ChannelId,
    bytes: Seq<u8>,
    errors: Seq<(ClientId, ServerSendError)>,
) -> bool {
    exists|states: Seq<ServerEndpointView>, outcomes: Seq<Result<(), ServerSendError>>| #[trigger]
        sends_to_each(states, ids, channel, bytes, outcomes) && states.first() == pre
            && states.last() == post && errors == not_reached(ids, outcomes)
}

/// The states that an endpoint goes through in a group send.
proof fn lemma_group_states(
    pre: ServerEndpointView,
    ids: Seq<ClientId>,
    channel: ChannelId,
    bytes: Seq<u8>,
    outcomes: Seq<Result<(), ServerSendError>>,
) -> (states: Seq<ServerEndpointView>)
    requires
        outcomes.len() <= ids.len(),
        forall|i: int|
            0 <= i < outcomes.len() ==> pre.send_possible(ids[i], channel, #[trigger] outcomes[i]),
    ensures
        sends_to_each(states, ids.take(outcomes.len() as int), channel, bytes, outcomes),
        states.first() == pre,
        states.last() == pre.after_group(ids, channel, bytes, outcomes),
    decreases outcomes.len(),
{
    if outcomes.len() == 0 {
        seq![pre]
    } else {
        let before = outcomes.drop_last();
        let n = before.len() as int;
        assert forall|i: int| 0 <= i < before.len() implies pre.send_possible(
            ids[i],
            channel,
            #[trigger] before[i],
        ) by {
            assert(before[i] == outcomes[i]);
        }
        let earlier = lemma_group_states(pre, ids, channel, bytes, before);
        let mid = pre.after_group(ids, channel, bytes, before);
        crate::server::endpoint::send::lemma_group_keeps_shape(pre, ids, channel, bytes, before);
        let r = outcomes.last();
        assert(outcomes[n] == r);
        assert(mid.send_possible(ids[n], channel, r)) by {
            assert(pre.send_possible(ids[n], channel, r));
            assert(mid.clients.dom().contains(ids[n]) <==> pre.clients.dom().contains(ids[n]));
            if pre.clients.contains_key(ids[n]) {
                assert(mid.clients[ids[n]].channels.dom() == pre.clients[ids[n]].channels.dom());
                assert(mid.clients[ids[n]].channels.dom().contains(channel)
                    <==> pre.clients[ids[n]].channels.dom().contains(channel));
            }
        }
        lemma_sends_to(mid, ids[n], channel, bytes, r);
        let post = mid.after_send(ids[n], channel, bytes, r);
        let states = earlier.push(post);
        let all = ids.take(outcomes.len() as int);
        assert forall|i: int| 0 <= i < all.len() implies sends_to(
            states[i],
            states[i + 1],
            all[i],
            channel,
            bytes,
            #[trigger] outcomes[i],
        ) by {
            if i < n {
                assert(before[i] == outcomes[i]);
                assert(ids.take(n)[i] == all[i]);
            }
        }
        states
    }
}

/// What the contract of a group send comes to.
proof fn lemma_group_sends(
    pre: ServerEndpointView,
    post: ServerEndpointView,
    ids: Seq<ClientId>,
    channel: ChannelId,
    bytes: Seq<u8>,
    errors: Seq<(ClientId, ServerSendError)>,
)
    requires
        post.group_sent(pre, ids, channel, bytes, errors),
    ensures
        group_sends(pre, post, ids, channel, bytes, errors),
{
    let outcomes = choose|outcomes: Seq<Result<(), ServerSendError>>| #[trigger]
        pre.group_possible(ids, channel, outcomes) && post == pre.after_group(
            ids,
            channel,
            bytes,
            outcomes,
        ) && errors == crate::server::endpoint::send::failures(ids, outcomes);
    let states = lemma_group_states(pre, ids, channel, bytes, outcomes);
    assert(ids.take(ids.len() as int) =~= ids);
    lemma_not_reached(ids, outcomes);
    assert(sends_to_each(states, ids, channel, bytes, outcomes));
}

/// `post` is `pre` once `bytes` were sent to every client, each once; see
/// [`group_sends`].
pub open spec fn broadcasts(
    pre: ServerEndpointView,
    post: ServerEndpointView,
    channel: ChannelId,
    bytes: Seq<u8>,
    errors: Seq<(ClientId, ServerSendError)>,
) -> bool {
    exists|ids: Seq<ClientId>| #[trigger]
        group_sends(pre, post, ids, channel, bytes, errors) && ids.no_duplicates() && (forall|
            id: ClientId,
        | #[trigger]
            ids.contains(id) <==> pre.clients.contains_key(id))
}

/// What the contract of a broadcast comes to.
proof fn lemma_broadcasts(
    pre: ServerEndpointView,
    post: ServerEndpointView,
    channel: ChannelId,
    bytes: Seq<u8>,
    errors: Seq<(ClientId, ServerSendError)>,
)
    requires
        post.broadcast_sent(pre, channel, bytes, errors),
    ensures
        broadcasts(pre, post, channel, bytes, errors),
{
    let ids = choose|ids: Seq<ClientId>| #[trigger]
        lists_keys(ids, pre.clients) && post.group_sent(pre, ids, channel, bytes, errors);
    lemma_group_sends(pre, post, ids, channel, bytes, errors);
    assert(group_sends(pre, post, ids, channel, bytes, errors));
}

/// A payload that is sent to one client reaches the queue of its channel, or it is said
/// why not; see [`sends_to`]. On the default channel this is so where there is one.
pub proof fn law_server_send(id: ClientId, channel: ChannelId, payload: Bytes)
    ensures
        forall|e: &mut ServerEndpoint, r: Result<(), ServerSendError>| #[trigger]
            call_ensures(ServerEndpoint::send_payload_on, (e, id, channel, payload), r)
                ==> sends_to((*e)@, final(e)@, id, channel, payload_bytes(payload), r),
        forall|e: &mut ServerEndpoint, done: ()| #[trigger]
            call_ensures(ServerEndpoint::try_send_payload_on, (e, id, channel, payload), done)
                ==> exists|r: Result<(), ServerSendError>| #[trigger]
                sends_to((*e)@, final(e)@, id, channel, payload_bytes(payload), r),
        forall|e: &mut ServerEndpoint, r: Result<(), ServerPayloadSendError>| #[trigger]
            call_ensures(ServerEndpoint::send_payload, (e, id, payload), r) ==> match (
            *e)@.send_channel_ids.default_channel {
                Some(default) => {
                    &&& r != Err::<(), _>(ServerPayloadSendError::NoDefaultChannel)
                    &&& sends_to(
                        (*e)@,
                        final(e)@,
                        id,
                        default,
                        payload_bytes(payload),
                        match r {
                            Err(ServerPayloadSendError::SendError(why)) => Err(why),
                            _ => Ok(()),
                        },
                    )
                },
                None => r == Err::<(), _>(ServerPayloadSendError::NoDefaultChannel) && final(e)@
                    == (*e)@,
            },
        forall|e: &mut ServerEndpoint, done: ()| #[trigger]
            call_ensures(ServerEndpoint::try_send_payload, (e, id, payload), done) ==> match (
            *e)@.send_channel_ids.default_channel {
                Some(default) => exists|r: Result<(), ServerSendError>| #[trigger]
                    sends_to((*e)@, final(e)@, id, default, payload_bytes(payload), r),
                None => final(e)@ == (*e)@,
            },
{
    let bytes = payload_bytes(payload);
    assert forall|e: &mut ServerEndpoint, r: Result<(), ServerSendError>| #[trigger]
        call_ensures(ServerEndpoint::send_payload_on, (e, id, channel, payload), r) implies sends_to(
        (*e)@,
        final(e)@,
        id,
        channel,
        bytes,
        r,
    ) by {
        lemma_sends_to((*e)@, id, channel, bytes, r);
    }
    assert forall|e: &mut ServerEndpoint, done: ()| #[trigger]
        call_ensures(
            ServerEndpoint::try_send_payload_on,
            (e, id, channel, payload),
            done,
        ) implies exists|r: Result<(), ServerSendError>| #[trigger]
        sends_to((*e)@, final(e)@, id, channel, bytes, r) by {
        let r = choose|r: Result<(), ServerSendError>| #[trigger]
            (*e)@.send_possible(id, channel, r) && final(e)@ == (*e)@.after_send(
                id,
                channel,
                bytes,
                r,
            );
        lemma_sends_to((*e)@, id, channel, bytes, r);
    }
    assert forall|e: &mut ServerEndpoint, r: Result<(), ServerPayloadSendError>| #[trigger]
        call_ensures(ServerEndpoint::send_payload, (e, id, payload), r) && (
        *e)@.send_channel_ids.default_channel is Some implies sends_to(
        (*e)@,
        final(e)@,
        id,
        (*e)@.send_channel_ids.default_channel->0,
        bytes,
        match r {
            Err(ServerPayloadSendError::SendError(why)) => Err(why),
            _ => Ok(()),
        },
    ) by {
        lemma_sends_to(
            (*e)@,
            id,
            (*e)@.send_channel_ids.default_channel->0,
            bytes,
            match r {
                Err(ServerPayloadSendError::SendError(why)) => Err(why),
                _ => Ok(()),
            },
        );
    }
    assert forall|e: &mut ServerEndpoint, done: ()| #[trigger]
        call_ensures(ServerEndpoint::try_send_payload, (e, id, payload), done) && (
        *e)@.send_channel_ids.default_channel is Some implies exists|r: Result<(), ServerSendError>|
        #[trigger] sends_to(
            (*e)@,
            final(e)@,
            id,
            (*e)@.send_channel_ids.default_channel->0,
            bytes,
            r,
        ) by {
        let default = (*e)@.send_channel_ids.default_channel->0;
        let r = choose|r: Result<(), ServerSendError>| #[trigger]
            (*e)@.send_possible(id, default, r) && final(e)@ == (*e)@.after_send(
                id,
                default,
                bytes,
                r,
            );
        lemma_sends_to((*e)@, id, default, bytes, r);
    }
}

/// A result that is an error exactly where some were not reached, and names them.
pub open spec fn reports_errors(
    r: Result<(), ServerGroupPayloadSendError>,
    errors: Seq<(ClientId, ServerSendError)>,
) -> bool {
    match r {
        Ok(_) => errors.len() == 0,
        Err(ServerGroupPayloadSendError::GroupSendError(e)) => e.0@ == errors && errors.len() > 0,
        Err(_) => false,
    }
}

/// A payload that is sent to a group is sent to each client that is named, one after the
/// other, whatever came of those before; the result names those that were not reached. See
/// [`group_sends`].
pub proof fn law_group_send(ids: &[ClientId], channel: ChannelId, payload: Bytes)
    ensures
        forall|e: &mut ServerEndpoint, r: Result<(), ServerGroupPayloadSendError>| #[trigger]
            call_ensures(ServerEndpoint::send_group_payload_on, (e, ids, channel, payload), r)
                ==> exists|errors: Seq<(ClientId, ServerSendError)>| #[trigger]
                group_sends((*e)@, final(e)@, ids@, channel, payload_bytes(payload), errors)
                    && reports_errors(r, errors),
        forall|e: &mut ServerEndpoint, r: Result<(), ServerGroupPayloadSendError>| #[trigger]
            call_ensures(ServerEndpoint::send_group_payload, (e, ids, payload), r) ==> match (
            *e)@.send_channel_ids.default_channel {
                Some(default) => exists|errors: Seq<(ClientId, ServerSendError)>| #[trigger]
                    group_sends((*e)@, final(e)@, ids@, default, payload_bytes(payload), errors)
                        && reports_errors(r, errors),
                None => r == Err::<(), _>(ServerGroupPayloadSendError::NoDefaultChannel) && final(
                    e
                )@ == (*e)@,
            },
        forall|e: &mut ServerEndpoint, done: ()| #[trigger]
            call_ensures(ServerEndpoint::try_send_group_payload_on, (e, ids, channel, payload), done)
                ==> exists|errors: Seq<(ClientId, ServerSendError)>| #[trigger]
                group_sends((*e)@, final(e)@, ids@, channel, payload_bytes(payload), errors),
        forall|e: &mut ServerEndpoint, done: ()| #[trigger]
            call_ensures(ServerEndpoint::try_send_group_payload, (e, ids, payload), done) ==> match (
            *e)@.send_channel_ids.default_channel {
                Some(default) => exists|errors: Seq<(ClientId, ServerSendError)>| #[trigger]
                    group_sends((*e)@, final(e)@, ids@, default, payload_bytes(payload), errors),
                None => final(e)@ == (*e)@,
            },
{
    let bytes = payload_bytes(payload);
    assert forall|e: &mut ServerEndpoint, r: Result<(), ServerGroupPayloadSendError>| #[trigger]
        call_ensures(
            ServerEndpoint::send_group_payload_on,
            (e, ids, channel, payload),
            r,
        ) implies exists|errors: Seq<(ClientId, ServerSendError)>| #[trigger]
        group_sends((*e)@, final(e)@, ids@, channel, bytes, errors) && reports_errors(r, errors) by {
        let errors = crate::server::endpoint::send::group_errors(r);
        lemma_group_sends((*e)@, final(e)@, ids@, channel, bytes, errors);
        assert(reports_errors(r, errors));
    }
    assert forall|e: &mut ServerEndpoint, r: Result<(), ServerGroupPayloadSendError>| #[trigger]
        call_ensures(ServerEndpoint::send_group_payload, (e, ids, payload), r) && (
        *e)@.send_channel_ids.default_channel is Some implies exists|
        errors: Seq<(ClientId, ServerSendError)>,
    | #[trigger]
        group_sends(
            (*e)@,
            final(e)@,
            ids@,
            (*e)@.send_channel_ids.default_channel->0,
            bytes,
            errors,
        ) && reports_errors(r, errors) by {
        let errors = crate::server::endpoint::send::group_errors(r);
        let default = (*e)@.send_channel_ids.default_channel->0;
        lemma_group_sends((*e)@, final(e)@, ids@, default, bytes, errors);
        assert(reports_errors(r, errors));
    }
    assert forall|e: &mut ServerEndpoint, done: ()| #[trigger]
        call_ensures(
            ServerEndpoint::try_send_group_payload_on,
            (e, ids, channel, payload),
            done,
        ) implies exists|errors: Seq<(ClientId, ServerSendError)>| #[trigger]
        group_sends((*e)@, final(e)@, ids@, channel, bytes, errors) by {
        let errors = choose|errors: Seq<(ClientId, ServerSendError)>| #[trigger]
            final(e)@.group_sent((*e)@, ids@, channel, bytes, errors);
        lemma_group_sends((*e)@, final(e)@, ids@, channel, bytes, errors);
    }
    assert forall|e: &mut ServerEndpoint, done: ()| #[trigger]
        call_ensures(ServerEndpoint::try_send_group_payload, (e, ids, payload), done) && (
        *e)@.send_channel_ids.default_channel is Some implies exists|
        errors: Seq<(ClientId, ServerSendError)>,
    | #[trigger]
        group_sends(
            (*e)@,
            final(e)@,
            ids@,
            (*e)@.send_channel_ids.default_channel->0,
            bytes,
            errors,
        ) by {
        let default = (*e)@.send_channel_ids.default_channel->0;
        let errors = choose|errors: Seq<(ClientId, ServerSendError)>| #[trigger]
            final(e)@.group_sent((*e)@, ids@, default, bytes, errors);
        lemma_group_sends((*e)@, final(e)@, ids@, default, bytes, errors);
    }
}

/// A payload that is broadcast is sent to every client, each once, and the result names
/// those that were not reached. See [`broadcasts`].
pub proof fn law_broadcast_payload(channel: ChannelId, payload: Bytes)
    ensures
        forall|e: &mut ServerEndpoint, r: Result<(), ServerGroupSendError>| #[trigger]
            call_ensures(ServerEndpoint::broadcast_payload_on, (e, channel, payload), r) ==> match r {
                Ok(_) => broadcasts(
                    (*e)@,
                    final(e)@,
                    channel,
                    payload_bytes(payload),
                    Seq::empty(),
                ),
                Err(why) => why.0@.len() > 0 && broadcasts(
                    (*e)@,
                    final(e)@,
                    channel,
                    payload_bytes(payload),
                    why.0@,
                ),
            },
        forall|e: &mut ServerEndpoint, r: Result<(), ServerGroupPayloadSendError>| #[trigger]
            call_ensures(ServerEndpoint::broadcast_payload, (e, payload), r) ==> match (
            *e)@.send_channel_ids.default_channel {
                Some(default) => exists|errors: Seq<(ClientId, ServerSendError)>| #[trigger]
                    broadcasts((*e)@, final(e)@, default, payload_bytes(payload), errors)
                        && reports_errors(r, errors),
                None => r == Err::<(), _>(ServerGroupPayloadSendError::NoDefaultChannel) && final(
                    e
                )@ == (*e)@,
            },
        forall|e: &mut ServerEndpoint, done: ()| #[trigger]
            call_ensures(ServerEndpoint::try_broadcast_payload_on, (e, channel, payload), done)
                ==> exists|errors: Seq<(ClientId, ServerSendError)>| #[trigger]
                broadcasts((*e)@, final(e)@, channel, payload_bytes(payload), errors),
        forall|e: &mut ServerEndpoint, done: ()| #[trigger]
            call_ensures(ServerEndpoint::try_broadcast_payload, (e, payload), done) ==> match (
            *e)@.send_channel_ids.default_channel {
                Some(default) => exists|errors: Seq<(ClientId, ServerSendError)>| #[trigger]
                    broadcasts((*e)@, final(e)@, default, payload_bytes(payload), errors),
                None => final(e)@ == (*e)@,
            },
{
    let bytes = payload_bytes(payload);
    assert forall|e: &mut ServerEndpoint, r: Result<(), ServerGroupSendError>| #[trigger]
        call_ensures(ServerEndpoint::broadcast_payload_on, (e, channel, payload), r) implies match r {
        Ok(_) => broadcasts((*e)@, final(e)@, channel, bytes, Seq::empty()),
        Err(why) => why.0@.len() > 0 && broadcasts((*e)@, final(e)@, channel, bytes, why.0@),
    } by {
        lemma_broadcasts(
            (*e)@,
            final(e)@,
            channel,
            bytes,
            crate::server::endpoint::send::broadcast_errors(r),
        );
    }
    assert forall|e: &mut ServerEndpoint, r: Result<(), ServerGroupPayloadSendError>| #[trigger]
        call_ensures(ServerEndpoint::broadcast_payload, (e, payload), r) && (
        *e)@.send_channel_ids.default_channel is Some implies exists|
        errors: Seq<(ClientId, ServerSendError)>,
    | #[trigger]
        broadcasts(
            (*e)@,
            final(e)@,
            (*e)@.send_channel_ids.default_channel->0,
            bytes,
            errors,
        ) && reports_errors(r, errors) by {
        let errors = crate::server::endpoint::send::group_errors(r);
        let default = (*e)@.send_channel_ids.default_channel->0;
        lemma_broadcasts((*e)@, final(e)@, default, bytes, errors);
        assert(reports_errors(r, errors));
    }
    assert forall|e: &mut ServerEndpoint, done: ()| #[trigger]
        call_ensures(
            ServerEndpoint::try_broadcast_payload_on,
            (e, channel, payload),
            done,
        ) implies exists|errors: Seq<(ClientId, ServerSendError)>| #[trigger]
        broadcasts((*e)@, final(e)@, channel, bytes, errors) by {
        let errors = choose|errors: Seq<(ClientId, ServerSendError)>| #[trigger]
            final(e)@.broadcast_sent((*e)@, channel, bytes, errors);
        lemma_broadcasts((*e)@, final(e)@, channel, bytes, errors);
    }
    assert forall|e: &mut ServerEndpoint, done: ()| #[trigger]
        call_ensures(ServerEndpoint::try_broadcast_payload, (e, payload), done) && (
        *e)@.send_channel_ids.default_channel is Some implies exists|
        errors: Seq<(ClientId, ServerSendError)>,
    | #[trigger]
        broadcasts(
            (*e)@,
            final(e)@,
            (*e)@.send_channel_ids.default_channel->0,
            bytes,
            errors,
        ) by {
        let default = (*e)@.send_channel_ids.default_channel->0;
        let errors = choose|errors: Seq<(ClientId, ServerSendError)>| #[trigger]
            final(e)@.broadcast_sent((*e)@, default, bytes, errors);
        lemma_broadcasts((*e)@, final(e)@, default, bytes, errors);
    }
}

/// What opening a channel under `id` does to an endpoint: the channel is open with the
/// config that is given, and no other is opened or closed. The tasks of each client took a
/// request for it, and it is registered for each; see [`asks_for`]. Its id is not free
/// then, and it is the default channel where there was none.
pub open spec fn opens_channel(
    pre: ServerEndpointView,
    post: ServerEndpointView,
    id: ChannelId,
    config: ChannelConfig,
) -> bool {
    &&& pre.send_channel_ids.available.contains(id)
    &&& forall|k: ChannelId| k < id ==> !(#[trigger] pre.send_channel_ids.available.contains(k))
    &&& post.send_channel_ids.available == pre.send_channel_ids.available.remove(id)
    &&& post.send_channel_ids.default_channel == match pre.send_channel_ids.default_channel {
        None => Some(id),
        Some(default) => Some(default),
    }
    &&& post.opened_channels == pre.opened_channels.insert(id, config)
    &&& post.clients.dom() == pre.clients.dom()
    &&& forall|client: ClientId| #[trigger]
        pre.clients.contains_key(client) ==> registers(
            pre.clients[client],
            post.clients[client],
            id,
            config,
        )
    &&& post == (ServerEndpointView {
        clients: post.clients,
        send_channel_ids: post.send_channel_ids,
        opened_channels: post.opened_channels,
        ..pre
    })
}

/// The tasks of a connection took a request for a channel, last of all, and the channel is
/// registered under its id, with the other halves of its queues; it has not been used.
pub open spec fn registers(
    pre: PeerConnectionView<ServerConnectionView>,
    post: PeerConnectionView<ServerConnectionView>,
    id: ChannelId,
    config: ChannelConfig,
) -> bool {
    &&& post.requests.len() == pre.requests.len() + 1
    &&& post.requests.drop_last() == pre.requests
    &&& post.requests.last().0->id == id
    &&& post.requests.last().0->config == config
    &&& post.requests.last().1 == Answer::Taken
    &&& post.channels.contains_key(id)
    &&& post.channels[id].id == id
    &&& post.channels[id].sends.len() == 0
    &&& post.channels[id].stops.len() == 0
    &&& mpsc_halves(
        DEFAULT_MESSAGE_QUEUE_SIZE,
        post.channels[id].payload_half,
        post.requests.last().0->bytes_to_channel_recv,
    )
    &&& mpsc_halves(1, post.channels[id].stop_half, post.requests.last().0->channel_close_recv)
    &&& forall|other: ChannelId|
        other != id ==> (#[trigger] post.channels.contains_key(other)
            <==> pre.channels.contains_key(other))
    &&& forall|other: ChannelId|
        other != id && pre.channels.contains_key(other) ==> #[trigger] post.channels[other]
            == pre.channels[other]
    &&& post == (PeerConnectionView { channels: post.channels, requests: post.requests, ..pre })
}

/// What a failed opening of a channel does to an endpoint: the tasks of the client `last`
/// refused a request for it with `e`, those of some clients took one before, and those of
/// the others were not asked. No channel is opened or registered, and the id that was
/// taken for it is free again.
pub open spec fn fails_to_open(
    pre: ServerEndpointView,
    post: ServerEndpointView,
    config: ChannelConfig,
    last: ClientId,
    e: AsyncChannelError,
) -> bool {
    &&& pre.clients.contains_key(last)
    &&& post.clients[last].requests.len() == pre.clients[last].requests.len() + 1
    &&& post.clients[last].requests.last().1 == Answer::Refused(e)
    &&& post.clients[last].requests.last().0->config == config
    &&& queue_answered(
        pre.clients[last].ends.to_channels_send,
        post.clients[last].requests.last().0,
        Err(e),
    )
    &&& post.opened_channels == pre.opened_channels
    &&& post.send_channel_ids.available == pre.send_channel_ids.available
    &&& post.clients.dom() == pre.clients.dom()
    &&& forall|client: ClientId| #[trigger]
        pre.clients.contains_key(client) ==> {
            let a = pre.clients[client];
            let b = post.clients[client];
            &&& b == (PeerConnectionView { requests: b.requests, ..a })
            &&& b.requests == a.requests || (b.requests.len() == a.requests.len() + 1
                && b.requests.drop_last() == a.requests && b.requests.last().0->config == config && (
            client != last ==> b.requests.last().1 == Answer::Taken))
        }
    &&& post == (ServerEndpointView {
        clients: post.clients,
        send_channel_ids: post.send_channel_ids,
        ..pre
    })
}

/// What the contract of opening a channel comes to.
proof fn lemma_opens_channel(
    pre: ServerEndpointView,
    post: ServerEndpointView,
    config: ChannelConfig,
    r: Result<ChannelId, ChannelCreationError>,
)
    requires
        post.opens(pre, config, r),
    ensures
        match r {
            Ok(id) => opens_channel(pre, post, id, config),
            Err(ChannelCreationError::AsyncChannelError(e)) => exists|last: ClientId| #[trigger]
                fails_to_open(pre, post, config, last, e),
            Err(ChannelCreationError::MaxChannelsCountReached) => post == pre && (forall|
                k: ChannelId,
            | !(#[trigger] pre.send_channel_ids.available.contains(k))),
        },
{
    match r {
        Ok(id) => {
            let taken = ServerEndpointView {
                send_channel_ids: pre.send_channel_ids.take(id),
                ..pre
            };
            let links = choose|links: Map<ClientId, Link>|
                {
                    &&& forall|client: ClientId| #[trigger]
                        taken.clients.contains_key(client) ==> links[client].made_for(id, config)
                    &&& post == #[trigger] taken.open(id, config, links)
                };
            assert(post.clients.dom() =~= pre.clients.dom());
            assert forall|client: ClientId| #[trigger]
                pre.clients.contains_key(client) implies registers(
                pre.clients[client],
                post.clients[client],
                id,
                config,
            ) by {
                assert(taken.clients.contains_key(client));
                assert(links[client].made_for(id, config));
                assert(post.clients[client] == pre.clients[client].link(links[client]));
                assert(post.clients[client].requests.drop_last() =~= pre.clients[client].requests);
            }
        },
        Err(ChannelCreationError::AsyncChannelError(e)) => {
            let id = choose|id: ChannelId| #[trigger]
                pre.send_channel_ids.is_next(id) && post.open_failed(
                    ServerEndpointView {
                        send_channel_ids: pre.send_channel_ids.take(id).release(id),
                        ..pre
                    },
                    id,
                    config,
                    e,
                );
            let released = ServerEndpointView {
                send_channel_ids: pre.send_channel_ids.take(id).release(id),
                ..pre
            };
            let (requests, last) = choose|
                requests: Map<ClientId, ChannelSyncMessage>,
                last: ClientId,
            |
                {
                    &&& forall|client: ClientId| #[trigger]
                        requests.contains_key(client) ==> released.clients.contains_key(client)
                            && requests[client]->id == id && requests[client]->config == config
                    &&& released.clients.contains_key(last)
                    &&& !requests.contains_key(last)
                    &&& post.clients[last].refused(released.clients[last], id, config, e)
                    &&& post == #[trigger] released.ask_each(requests).with_client(
                        last,
                        post.clients[last],
                    )
                };
            assert(post.send_channel_ids.available =~= pre.send_channel_ids.available);
            assert(post.clients.dom() =~= pre.clients.dom());
            assert forall|client: ClientId| #[trigger] pre.clients.contains_key(client) implies {
                let a = pre.clients[client];
                let b = post.clients[client];
                &&& b == (PeerConnectionView { requests: b.requests, ..a })
                &&& b.requests == a.requests || (b.requests.len() == a.requests.len() + 1
                    && b.requests.drop_last() == a.requests && b.requests.last().0->config == config
                    && (client != last ==> b.requests.last().1 == Answer::Taken))
            } by {
                if client == last || requests.contains_key(client) {
                    assert(post.clients[client].requests.drop_last()
                        =~= pre.clients[client].requests);
                }
            }
            assert(fails_to_open(pre, post, config, last, e));
        },
        Err(ChannelCreationError::MaxChannelsCountReached) => {},
    }
}

/// A channel is opened for every client under the smallest id that is free, with the
/// config that is given; see [`opens_channel`]. Where the tasks of a client refuse it, it
/// is not opened, and that is the error; see [`fails_to_open`]. Where no id is free,
/// nothing changes.
pub proof fn law_endpoint_open_channel(
    config: ChannelConfig,
    r: Result<ChannelId, ChannelCreationError>,
    unchecked: Result<ChannelId, AsyncChannelError>,
)
    ensures
        forall|e: &mut ServerEndpoint| #[trigger]
            call_ensures(ServerEndpoint::open_channel, (e, config), r) ==> match r {
                Ok(id) => opens_channel((*e)@, final(e)@, id, config),
                Err(ChannelCreationError::AsyncChannelError(why)) => exists|last: ClientId|
                    #[trigger] fails_to_open((*e)@, final(e)@, config, last, why),
                Err(ChannelCreationError::MaxChannelsCountReached) => final(e)@ == (*e)@ && (forall|
                    k: ChannelId,
                | !(#[trigger] (*e)@.send_channel_ids.available.contains(k))),
            },
        forall|e: &mut ServerEndpoint| #[trigger]
            call_ensures(ServerEndpoint::unchecked_open_channel, (e, config), unchecked)
                ==> match unchecked {
                Ok(id) => opens_channel((*e)@, final(e)@, id, config),
                Err(why) => exists|last: ClientId| #[trigger]
                    fails_to_open((*e)@, final(e)@, config, last, why),
            },
{
    assert forall|e: &mut ServerEndpoint| #[trigger]
        call_ensures(ServerEndpoint::open_channel, (e, config), r) implies match r {
        Ok(id) => opens_channel((*e)@, final(e)@, id, config),
        Err(ChannelCreationError::AsyncChannelError(why)) => exists|last: ClientId| #[trigger]
            fails_to_open((*e)@, final(e)@, config, last, why),
        Err(ChannelCreationError::MaxChannelsCountReached) => final(e)@ == (*e)@ && (forall|
            k: ChannelId,
        | !(#[trigger] (*e)@.send_channel_ids.available.contains(k))),
    } by {
        lemma_opens_channel((*e)@, final(e)@, config, r);
    }
    assert forall|e: &mut ServerEndpoint| #[trigger]
        call_ensures(
            ServerEndpoint::unchecked_open_channel,
            (e, config),
            unchecked,
        ) implies match unchecked {
        Ok(id) => opens_channel((*e)@, final(e)@, id, config),
        Err(why) => exists|last: ClientId| #[trigger]
            fails_to_open((*e)@, final(e)@, config, last, why),
    } by {
        let result = match unchecked {
            Ok(id) => Ok(id),
            Err(why) => Err(ChannelCreationError::AsyncChannelError(why)),
        };
        lemma_opens_channel((*e)@, final(e)@, config, result);
    }
}

/// What closing a channel does to an endpoint: the channel is not open any more, and the
/// tasks of the clients in `done` were told to stop it, and took that; it is gone for
/// these. All else stays.
pub open spec fn stops_for(
    pre: ServerEndpointView,
    post: ServerEndpointView,
    id: ChannelId,
    gone: Set<ClientId>,
) -> bool {
    &&& pre.opened_channels.contains_key(id)
    &&& post.opened_channels == pre.opened_channels.remove(id)
    &&& post.clients.dom() == pre.clients.dom()
    &&& forall|client: ClientId| #[trigger]
        pre.clients.contains_key(client) ==> {
            let a = pre.clients[client];
            let b = post.clients[client];
            b == if gone.contains(client) {
                PeerConnectionView { channels: a.channels.remove(id), ..a }
            } else {
                a
            }
        }
    &&& post == (ServerEndpointView {
        clients: post.clients,
        opened_channels: post.opened_channels,
        send_channel_ids: post.send_channel_ids,
        ..pre
    })
}

/// The task of a channel of a client was told to stop, and `r` is what its queue answered.
pub open spec fn told_task(
    connection: PeerConnectionView<ServerConnectionView>,
    id: ChannelId,
    r: Result<(), AsyncChannelError>,
) -> bool {
    connection.channels.contains_key(id) && queue_answered(
        connection.channels[id].stop_half,
        (),
        r,
    )
}

/// The tasks of some clients were told to stop a channel and took it, and then, where `r`
/// is an error, the client `last` had no such channel, or its task refused that.
pub open spec fn closes_up_to(
    pre: ServerEndpointView,
    post: ServerEndpointView,
    id: ChannelId,
    done: Set<ClientId>,
    last: ClientId,
    e: ChannelCloseError,
) -> bool {
    &&& !done.contains(last)
    &&& pre.clients.contains_key(last)
    &&& forall|client: ClientId| #[trigger]
        done.contains(client) ==> pre.clients.contains_key(client) && told_task(
            pre.clients[client],
            id,
            Ok(()),
        )
    &&& match e {
        ChannelCloseError::AsyncChannelError(why) => told_task(pre.clients[last], id, Err(why)),
        ChannelCloseError::InvalidChannelId(bad) => bad == id
            && !pre.clients[last].channels.contains_key(id),
    }
    &&& stops_for(pre, post, id, done.insert(last))
    &&& post.send_channel_ids == pre.send_channel_ids
}

/// A channel that is closed is not open any more. Where every client has stopped it, each
/// was told and took that, and the id is free then; where one fails, that is the error,
/// and the id is not free. Only an open channel can be closed.
pub proof fn law_endpoint_close_channel(id: ChannelId, r: Result<(), ChannelCloseError>)
    ensures
        forall|e: &mut ServerEndpoint| #[trigger]
            call_ensures(ServerEndpoint::close_channel, (e, id), r) ==> if (
            *e)@.opened_channels.contains_key(id) {
                match r {
                    Ok(_) => {
                        &&& stops_for((*e)@, final(e)@, id, (*e)@.clients.dom())
                        &&& forall|client: ClientId| #[trigger]
                            (*e)@.clients.contains_key(client) ==> told_task(
                                (*e)@.clients[client],
                                id,
                                Ok(()),
                            )
                        &&& final(e)@.send_channel_ids.available == (
                        *e)@.send_channel_ids.available.insert(id)
                        &&& final(e)@.send_channel_ids.default_channel == if (
                        *e)@.send_channel_ids.default_channel == Some(id) {
                            None
                        } else {
                            (*e)@.send_channel_ids.default_channel
                        }
                    },
                    Err(why) => exists|done: Set<ClientId>, last: ClientId| #[trigger]
                        closes_up_to((*e)@, final(e)@, id, done, last, why),
                }
            } else {
                r == Err::<(), _>(ChannelCloseError::InvalidChannelId(id)) && final(e)@ == (*e)@
            },
{
    assert forall|e: &mut ServerEndpoint| #[trigger]
        call_ensures(ServerEndpoint::close_channel, (e, id), r) && (
        *e)@.opened_channels.contains_key(id) implies match r {
        Ok(_) => {
            &&& stops_for((*e)@, final(e)@, id, (*e)@.clients.dom())
            &&& forall|client: ClientId| #[trigger]
                (*e)@.clients.contains_key(client) ==> told_task(
                    (*e)@.clients[client],
                    id,
                    Ok(()),
                )
        },
        Err(why) => exists|done: Set<ClientId>, last: ClientId| #[trigger]
            closes_up_to((*e)@, final(e)@, id, done, last, why),
    } by {
        let pre = (*e)@;
        let post = final(e)@;
        assert(post.clients.dom() =~= pre.clients.dom());
        match r {
            Ok(_) => {
                assert forall|client: ClientId| #[trigger]
                    pre.clients.contains_key(client) implies told_task(
                    pre.clients[client],
                    id,
                    Ok(()),
                ) by {
                    assert(pre.clients.dom().contains(client));
                }
                assert(stops_for(pre, post, id, pre.clients.dom()));
            },
            Err(why) => {
                let removed = ServerEndpointView {
                    opened_channels: pre.opened_channels.remove(id),
                    ..pre
                };
                let (done, last) = choose|done: Set<ClientId>, last: ClientId|
                    {
                        &&& pre.stopped_for(done, id)
                        &&& !done.contains(last)
                        &&& pre.clients.contains_key(last)
                        &&& pre.clients[last].close_possible(id, Err(why))
                        &&& post == #[trigger] removed.unregister_on(done.insert(last), id)
                    };
                assert(closes_up_to(pre, post, id, done, last, why));
            },
        }
    }
}

/// The default channel is the one that was chosen last, and choosing changes nothing else.
pub proof fn law_endpoint_default_channel(id: ChannelId)
    ensures
        forall|e: &mut ServerEndpoint, done: ()| #[trigger]
            call_ensures(ServerEndpoint::set_default_channel, (e, id), done) ==> {
                &&& final(e)@.send_channel_ids.default_channel == Some(id)
                &&& final(e)@.send_channel_ids.available == (*e)@.send_channel_ids.available
                &&& final(e)@ == (ServerEndpointView {
                    send_channel_ids: final(e)@.send_channel_ids,
                    ..(*e)@
                })
            },
        forall|e: ServerEndpoint, r: Option<ChannelId>| #[trigger]
            call_ensures(ServerEndpoint::default_channel, (&e,), r) ==> r
                == e.send_channel_ids.default_channel,
{
}

/// The clients that are collected are those whose channel tasks reported the connection as
/// lost, each once; the reports of all clients are taken, and nothing else changes. Where
/// they are disconnected, each is gone, and was told.
pub proof fn law_lost_clients(gone: Vec<ClientId>, id: ClientId)
    ensures
        forall|e: &mut ServerEndpoint| #[trigger]
            call_ensures(ServerEndpoint::collect_lost_clients, (e,), gone) ==> {
                &&& gone@.no_duplicates()
                &&& final(e)@.clients.contains_key(id) <==> (*e)@.clients.contains_key(id)
                &&& gone@.contains(id) ==> (*e)@.clients.contains_key(id) && reported_lost(
                    (*e)@.clients[id],
                )
                &&& final(e)@ == (ServerEndpointView { clients: final(e)@.clients, ..(*e)@ })
                &&& (*e)@.clients.contains_key(id) ==> final(e)@.clients[id] == (
                PeerConnectionView {
                    reports: final(e)@.clients[id].reports,
                    reports_left: final(e)@.clients[id].reports_left,
                    ..(*e)@.clients[id]
                })
                &&& (*e)@.clients.contains_key(id) && !gone@.contains(id) ==> came(
                    (*e)@.clients[id].reports,
                    final(e)@.clients[id].reports,
                    Seq::empty(),
                    usize::MAX as int,
                )
            },
        forall|e: &mut ServerEndpoint, done: ()| #[trigger]
            call_ensures(ServerEndpoint::disconnect_lost_clients, (e, &gone), done) && (*e)@.wf()
                && gone@.no_duplicates() && (forall|k: ClientId| #[trigger]
                gone@.contains(k) ==> (*e)@.clients.contains_key(k)) ==> {
                &&& final(e)@.clients.contains_key(id) <==> (*e)@.clients.contains_key(id)
                    && !gone@.contains(id)
                &&& final(e)@.clients.contains_key(id) ==> final(e)@.clients[id] == (
                *e)@.clients[id]
                &&& gone@.contains(id) ==> exists|heard: bool|
                    listeners_told(
                        (*e)@.clients[id].ends.close_send,
                        CloseReason::LocalOrder,
                        heard,
                    )
                &&& final(e)@.stats.disconnect_count == (*e)@.stats.disconnect_count + gone@.len()
                &&& final(e)@.stats.connect_count == (*e)@.stats.connect_count
                &&& final(e)@ == (ServerEndpointView {
                    clients: final(e)@.clients,
                    stats: final(e)@.stats,
                    ..(*e)@
                })
            },
{
    assert forall|e: &mut ServerEndpoint| #[trigger]
        call_ensures(ServerEndpoint::collect_lost_clients, (e,), gone) implies {
        &&& final(e)@.clients.contains_key(id) <==> (*e)@.clients.contains_key(id)
        &&& gone@.contains(id) ==> (*e)@.clients.contains_key(id) && reported_lost(
            (*e)@.clients[id],
        )
        &&& (*e)@.clients.contains_key(id) ==> final(e)@.clients[id] == (PeerConnectionView {
            reports: final(e)@.clients[id].reports,
            reports_left: final(e)@.clients[id].reports_left,
            ..(*e)@.clients[id]
        })
        &&& (*e)@.clients.contains_key(id) && !gone@.contains(id) ==> came(
            (*e)@.clients[id].reports,
            final(e)@.clients[id].reports,
            Seq::empty(),
            usize::MAX as int,
        )
    } by {
        let pre = (*e)@;
        let post = final(e)@;
        let reports = choose|reports: Map<ClientId, Batch<ChannelAsyncMessage>>|
            {
                &&& reports.dom() == pre.clients.dom()
                &&& forall|id: ClientId| #[trigger]
                    reports.contains_key(id) ==> pre.clients[id].gave_reports(
                        reports[id],
                        post.clients[id].reports_left,
                    )
                &&& post == #[trigger] pre.reported(reports, post)
                &&& gone@.no_duplicates()
                &&& forall|id: ClientId| #[trigger]
                    gone@.contains(id) <==> reports.contains_key(id) && reports[id].messages.len()
                        > 0
            };
        assert(reports.dom().contains(id) <==> pre.clients.dom().contains(id));
        if pre.clients.contains_key(id) {
            assert(reports.contains_key(id));
            lemma_batch_came(pre.clients[id].reports, reports[id], usize::MAX);
            let answers = reports[id].answers();
            assert(only_gave(pre.clients[id].reports_left, answers, post.clients[id].reports_left));
            if gone@.contains(id) {
                assert(answers.first() == Ok::<ChannelAsyncMessage, RecvFailure>(
                    reports[id].messages.first(),
                ));
                assert(reports[id].messages.first() is LostConnection);
            } else {
                assert(reports[id].messages =~= Seq::empty());
            }
        }
    }
    assert forall|e: &mut ServerEndpoint, done: ()| #[trigger]
        call_ensures(ServerEndpoint::disconnect_lost_clients, (e, &gone), done) && (*e)@.wf()
            && gone@.no_duplicates() && (forall|k: ClientId| #[trigger]
            gone@.contains(k) ==> (*e)@.clients.contains_key(k)) implies {
        &&& final(e)@.clients.contains_key(id) <==> (*e)@.clients.contains_key(id)
            && !gone@.contains(id)
        &&& final(e)@.clients.contains_key(id) ==> final(e)@.clients[id] == (*e)@.clients[id]
        &&& gone@.contains(id) ==> exists|heard: bool|
            listeners_told((*e)@.clients[id].ends.close_send, CloseReason::LocalOrder, heard)
        &&& final(e)@.stats.disconnect_count == (*e)@.stats.disconnect_count + gone@.len()
        &&& final(e)@.stats.connect_count == (*e)@.stats.connect_count
        &&& final(e)@ == (ServerEndpointView {
            clients: final(e)@.clients,
            stats: final(e)@.stats,
            ..(*e)@
        })
    } by {
        lemma_disconnect_each((*e)@, gone@);
        lemma_disconnecting_keeps((*e)@, gone@);
        if gone@.contains(id) {
            let heard = choose|heard: bool| #[trigger]
                (*e)@.clients[id].was_told(CloseReason::LocalOrder, heard);
            assert(listeners_told(
                (*e)@.clients[id].ends.close_send,
                CloseReason::LocalOrder,
                heard,
            ));
        }
    }
}

/// What sending a message to a client comes to: one that could not be encoded is not sent;
/// any other is sent as the bytes that it was encoded to, see [`sends_to`].
pub open spec fn sends_message(
    pre: ServerEndpointView,
    post: ServerEndpointView,
    id: ClientId,
    channel: ChannelId,
    encoded: Result<Vec<u8>, EncodeError>,
    r: Result<(), ServerMessageSendError>,
) -> bool {
    match encoded {
        Ok(bytes) => match r {
            Ok(_) => sends_to(pre, post, id, channel, bytes@, Ok(())),
            Err(ServerMessageSendError::SendError(why)) => sends_to(
                pre,
                post,
                id,
                channel,
                bytes@,
                Err(why),
            ),
            Err(_) => false,
        },
        Err(_) => r == Err::<(), _>(ServerMessageSendError::Serialization) && post == pre,
    }
}

/// What the contract of sending a message comes to.
proof fn lemma_sends_message(
    pre: ServerEndpointView,
    post: ServerEndpointView,
    id: ClientId,
    channel: ChannelId,
    encoded: Result<Vec<u8>, EncodeError>,
    r: Result<(), ServerMessageSendError>,
)
    requires
        post.message_sent(pre, id, channel, encoded, r),
    ensures
        sends_message(pre, post, id, channel, encoded, r),
{
    if let Ok(bytes) = encoded {
        let sent = choose|sent: Result<(), ServerSendError>| #[trigger]
            pre.send_possible(id, channel, sent) && post == pre.after_send(
                id,
                channel,
                bytes@,
                sent,
            ) && r == match sent {
                Ok(()) => Ok(()),
                Err(e) => Err(ServerMessageSendError::SendError(e)),
            };
        lemma_sends_to(pre, id, channel, bytes@, sent);
        if sent is Ok {
            assert(sent->Ok_0 == ());
            assert(sent == Ok::<(), ServerSendError>(()));
        }
    }
}

/// A message is sent to one client as what it was encoded to, or it is said why not; see
/// [`sends_message`].
pub proof fn law_send_message(
    id: ClientId,
    channel: ChannelId,
    encoded: Result<Vec<u8>, EncodeError>,
)
    ensures
        forall|e: &mut ServerEndpoint, r: Result<(), ServerMessageSendError>| #[trigger]
            call_ensures(ServerEndpoint::send_message_on, (e, id, channel, encoded), r)
                ==> sends_message((*e)@, final(e)@, id, channel, encoded, r),
        forall|e: &mut ServerEndpoint, r: Result<(), ServerMessageSendError>| #[trigger]
            call_ensures(ServerEndpoint::send_message, (e, id, encoded), r) ==> match (
            *e)@.send_channel_ids.default_channel {
                Some(default) => sends_message((*e)@, final(e)@, id, default, encoded, r),
                None => r == Err::<(), _>(ServerMessageSendError::NoDefaultChannel) && final(e)@
                    == (*e)@,
            },
        forall|e: &mut ServerEndpoint, done: ()| #[trigger]
            call_ensures(ServerEndpoint::try_send_message_on, (e, id, channel, encoded), done)
                ==> exists|r: Result<(), ServerMessageSendError>| #[trigger]
                sends_message((*e)@, final(e)@, id, channel, encoded, r),
        forall|e: &mut ServerEndpoint, done: ()| #[trigger]
            call_ensures(ServerEndpoint::try_send_message, (e, id, encoded), done) ==> match (
            *e)@.send_channel_ids.default_channel {
                Some(default) => exists|r: Result<(), ServerMessageSendError>| #[trigger]
                    sends_message((*e)@, final(e)@, id, default, encoded, r),
                None => final(e)@ == (*e)@,
            },
{
    assert forall|e: &mut ServerEndpoint, r: Result<(), ServerMessageSendError>| #[trigger]
        call_ensures(
            ServerEndpoint::send_message_on,
            (e, id, channel, encoded),
            r,
        ) implies sends_message((*e)@, final(e)@, id, channel, encoded, r) by {
        lemma_sends_message((*e)@, final(e)@, id, channel, encoded, r);
    }
    assert forall|e: &mut ServerEndpoint, r: Result<(), ServerMessageSendError>| #[trigger]
        call_ensures(ServerEndpoint::send_message, (e, id, encoded), r) && (
        *e)@.send_channel_ids.default_channel is Some implies sends_message(
        (*e)@,
        final(e)@,
        id,
        (*e)@.send_channel_ids.default_channel->0,
        encoded,
        r,
    ) by {
        let default = (*e)@.send_channel_ids.default_channel->0;
        lemma_sends_message((*e)@, final(e)@, id, default, encoded, r);
    }
    assert forall|e: &mut ServerEndpoint, done: ()| #[trigger]
        call_ensures(
            ServerEndpoint::try_send_message_on,
            (e, id, channel, encoded),
            done,
        ) implies exists|r: Result<(), ServerMessageSendError>| #[trigger]
        sends_message((*e)@, final(e)@, id, channel, encoded, r) by {
        let r = choose|r: Result<(), ServerMessageSendError>| #[trigger]
            final(e)@.message_sent((*e)@, id, channel, encoded, r);
        lemma_sends_message((*e)@, final(e)@, id, channel, encoded, r);
    }
    assert forall|e: &mut ServerEndpoint, done: ()| #[trigger]
        call_ensures(ServerEndpoint::try_send_message, (e, id, encoded), done) && (
        *e)@.send_channel_ids.default_channel is Some implies exists|
        r: Result<(), ServerMessageSendError>,
    | #[trigger]
        sends_message(
            (*e)@,
            final(e)@,
            id,
            (*e)@.send_channel_ids.default_channel->0,
            encoded,
            r,
        ) by {
        let default = (*e)@.send_channel_ids.default_channel->0;
        let r = choose|r: Result<(), ServerMessageSendError>| #[trigger]
            final(e)@.message_sent((*e)@, id, default, encoded, r);
        lemma_sends_message((*e)@, final(e)@, id, default, encoded, r);
    }
}

/// What sending a message to a group comes to: one that could not be encoded is sent to
/// none; any other is sent to each, see [`group_sends`], and the result names those that
/// were not reached.
pub open spec fn group_sends_message(
    pre: ServerEndpointView,
    post: ServerEndpointView,
    ids: Seq<ClientId>,
    channel: ChannelId,
    encoded: Result<Vec<u8>, EncodeError>,
    r: Result<(), ServerGroupMessageSendError>,
) -> bool {
    match encoded {
        Ok(bytes) => match r {
            Ok(_) => group_sends(pre, post, ids, channel, bytes@, Seq::empty()),
            Err(ServerGroupMessageSendError::GroupSendError(e)) => e.0@.len() > 0 && group_sends(
                pre,
                post,
                ids,
                channel,
                bytes@,
                e.0@,
            ),
            Err(_) => false,
        },
        Err(_) => r == Err::<(), _>(ServerGroupMessageSendError::Serialization) && post == pre,
    }
}

/// The same of a message to every client, each once; see [`broadcasts`].
pub open spec fn broadcasts_message(
    pre: ServerEndpointView,
    post: ServerEndpointView,
    channel: ChannelId,
    encoded: Result<Vec<u8>, EncodeError>,
    r: Result<(), ServerGroupMessageSendError>,
) -> bool {
    match encoded {
        Ok(bytes) => match r {
            Ok(_) => broadcasts(pre, post, channel, bytes@, Seq::empty()),
            Err(ServerGroupMessageSendError::GroupSendError(e)) => e.0@.len() > 0 && broadcasts(
                pre,
                post,
                channel,
                bytes@,
                e.0@,
            ),
            Err(_) => false,
        },
        Err(_) => r == Err::<(), _>(ServerGroupMessageSendError::Serialization) && post == pre,
    }
}

/// What the contracts of sending a message to several clients come to.
proof fn lemma_group_messages(
    pre: ServerEndpointView,
    post: ServerEndpointView,
    ids: Seq<ClientId>,
    channel: ChannelId,
    encoded: Result<Vec<u8>, EncodeError>,
    r: Result<(), ServerGroupMessageSendError>,
)
    ensures
        post.group_message_sent(pre, ids, channel, encoded, r) ==> group_sends_message(
            pre,
            post,
            ids,
            channel,
            encoded,
            r,
        ),
        post.broadcast_message_sent(pre, channel, encoded, r) ==> broadcasts_message(
            pre,
            post,
            channel,
            encoded,
            r,
        ),
{
    if let Ok(bytes) = encoded {
        let errors = crate::server::messages::message_errors(r);
        if post.group_message_sent(pre, ids, channel, encoded, r) {
            lemma_group_sends(pre, post, ids, channel, bytes@, errors);
        }
        if post.broadcast_message_sent(pre, channel, encoded, r) {
            lemma_broadcasts(pre, post, channel, bytes@, errors);
        }
    }
}

/// A message is sent to each client of a group, or to every client; see
/// [`group_sends_message`] and [`broadcasts_message`].
pub proof fn law_group_messages(
    ids: &[ClientId],
    channel: ChannelId,
    encoded: Result<Vec<u8>, EncodeError>,
    r: Result<(), ServerGroupMessageSendError>,
)
    ensures
        forall|e: &mut ServerEndpoint| #[trigger]
            call_ensures(ServerEndpoint::send_group_message_on, (e, ids, channel, encoded), r)
                ==> group_sends_message((*e)@, final(e)@, ids@, channel, encoded, r),
        forall|e: &mut ServerEndpoint| #[trigger]
            call_ensures(ServerEndpoint::send_group_message, (e, ids, encoded), r) ==> match (
            *e)@.send_channel_ids.default_channel {
                Some(default) => group_sends_message(
                    (*e)@,
                    final(e)@,
                    ids@,
                    default,
                    encoded,
                    r,
                ),
                None => r == Err::<(), _>(ServerGroupMessageSendError::NoDefaultChannel) && final(
                    e
                )@ == (*e)@,
            },
        forall|e: &mut ServerEndpoint, done: ()| #[trigger]
            call_ensures(ServerEndpoint::try_send_group_message_on, (e, ids, channel, encoded), done)
                ==> exists|any: Result<(), ServerGroupMessageSendError>| #[trigger]
                group_sends_message((*e)@, final(e)@, ids@, channel, encoded, any),
        forall|e: &mut ServerEndpoint, done: ()| #[trigger]
            call_ensures(ServerEndpoint::try_send_group_message, (e, ids, encoded), done)
                ==> match (*e)@.send_channel_ids.default_channel {
                Some(default) => exists|any: Result<(), ServerGroupMessageSendError>| #[trigger]
                    group_sends_message((*e)@, final(e)@, ids@, default, encoded, any),
                None => final(e)@ == (*e)@,
            },
        forall|e: &mut ServerEndpoint| #[trigger]
            call_ensures(ServerEndpoint::broadcast_message_on, (e, channel, encoded), r)
                ==> broadcasts_message((*e)@, final(e)@, channel, encoded, r),
        forall|e: &mut ServerEndpoint| #[trigger]
            call_ensures(ServerEndpoint::broadcast_message, (e, encoded), r) ==> match (
            *e)@.send_channel_ids.default_channel {
                Some(default) => broadcasts_message((*e)@, final(e)@, default, encoded, r),
                None => r == Err::<(), _>(ServerGroupMessageSendError::NoDefaultChannel) && final(
                    e
                )@ == (*e)@,
            },
        forall|e: &mut ServerEndpoint, done: ()| #[trigger]
            call_ensures(ServerEndpoint::try_broadcast_message_on, (e, channel, encoded), done)
                ==> exists|any: Result<(), ServerGroupMessageSendError>| #[trigger]
                broadcasts_message((*e)@, final(e)@, channel, encoded, any),
        forall|e: &mut ServerEndpoint, done: ()| #[trigger]
            call_ensures(ServerEndpoint::try_broadcast_message, (e, encoded), done) ==> match (
            *e)@.send_channel_ids.default_channel {
                Some(default) => exists|any: Result<(), ServerGroupMessageSendError>| #[trigger]
                    broadcasts_message((*e)@, final(e)@, default, encoded, any),
                None => final(e)@ == (*e)@,
            },
{
    assert forall|
        pre: ServerEndpointView,
        post: ServerEndpointView,
        on: ChannelId,
        any: Result<(), ServerGroupMessageSendError>,
    | #[trigger]
        post.group_message_sent(pre, ids@, on, encoded, any) implies group_sends_message(
        pre,
        post,
        ids@,
        on,
        encoded,
        any,
    ) by {
        lemma_group_messages(pre, post, ids@, on, encoded, any);
    }
    assert forall|
        pre: ServerEndpointView,
        post: ServerEndpointView,
        on: ChannelId,
        any: Result<(), ServerGroupMessageSendError>,
    | #[trigger]
        post.broadcast_message_sent(pre, on, encoded, any) implies broadcasts_message(
        pre,
        post,
        on,
        encoded,
        any,
    ) by {
        lemma_group_messages(pre, post, ids@, on, encoded, any);
    }
}

/// What receiving a message from a client comes to: where a payload waits on the channel,
/// the one that has waited longest is read, and the decoder is given exactly its bytes; the
/// message that it gives is received, and a payload that it does not decode is an error.
/// Where none waits there is no message, and a client that is not there is named.
pub open spec fn receives_message<T, F: FnOnce(&[u8]) -> Result<(T, usize), DecodeError>>(
    pre: ServerEndpointView,
    post: ServerEndpointView,
    id: ClientId,
    channel: ChannelId,
    decode: F,
    r: Result<Option<T>, ServerMessageReceiveError>,
) -> bool {
    if !pre.clients.contains_key(id) {
        &&& post == pre
        &&& r == Err::<Option<T>, _>(
            ServerMessageReceiveError::ReceiveError(ServerReceiveError::UnknownClient(id)),
        )
    } else if pre.clients[id].buffers[channel].len() == 0 {
        post == pre && r == Ok::<Option<T>, ServerMessageReceiveError>(None)
    } else {
        &&& post.clients[id].buffers[channel] == pre.clients[id].buffers[channel].skip(1)
        &&& forall|other: ChannelId|
            other != channel ==> #[trigger] post.clients[id].buffers[other]
                == pre.clients[id].buffers[other]
        &&& post.clients[id] == (PeerConnectionView {
            buffers: post.clients[id].buffers,
            ..pre.clients[id]
        })
        &&& post == (ServerEndpointView {
            clients: pre.clients.insert(id, post.clients[id]),
            ..pre
        })
        &&& exists|bytes: &[u8], outcome: Result<(T, usize), DecodeError>|
            {
                &&& #[trigger] call_ensures(decode, (bytes,), outcome)
                &&& bytes@ == pre.clients[id].buffers[channel][0]
                &&& outcome is Ok ==> r == Ok::<Option<T>, ServerMessageReceiveError>(
                    Some(outcome->Ok_0.0),
                )
                &&& outcome is Err ==> r == Err::<Option<T>, _>(
                    ServerMessageReceiveError::Deserialization,
                )
            }
    }
}

/// What the contract of receiving a message comes to.
proof fn lemma_receives_message<T, F: FnOnce(&[u8]) -> Result<(T, usize), DecodeError>>(
    pre: ServerEndpointView,
    post: ServerEndpointView,
    id: ClientId,
    channel: ChannelId,
    decode: F,
    r: Result<Option<T>, ServerMessageReceiveError>,
)
    requires
        post.message_received(pre, id, channel, decode, r),
    ensures
        receives_message(pre, post, id, channel, decode, r),
{
    if pre.clients.contains_key(id) && pre.clients[id].buffers[channel].len() > 0 {
        assert(post.clients[id].buffers[channel] =~= pre.clients[id].buffers[channel].skip(1));
    }
}

/// A message is received as the decoder gives it, or it is said why not; see
/// [`receives_message`].
pub proof fn law_receive_message<T, F: FnOnce(&[u8]) -> Result<(T, usize), DecodeError>>(
    id: ClientId,
    channel: ChannelId,
    decode: F,
)
    ensures
        forall|e: &mut ServerEndpoint, r: Result<Option<T>, ServerMessageReceiveError>| #[trigger]
            call_ensures(ServerEndpoint::receive_message_from::<T, F>, (e, id, channel, decode), r)
                ==> receives_message((*e)@, final(e)@, id, channel, decode, r),
        forall|e: &mut ServerEndpoint, r: Result<Option<T>, ServerMessageReceiveError>| #[trigger]
            call_ensures(ServerEndpoint::receive_message::<T, F>, (e, id, decode), r) ==> match (
            *e)@.send_channel_ids.default_channel {
                Some(default) => receives_message((*e)@, final(e)@, id, default, decode, r),
                None => r == Err::<Option<T>, _>(ServerMessageReceiveError::NoDefaultChannel)
                    && final(e)@ == (*e)@,
            },
        forall|e: &mut ServerEndpoint, r: Option<T>| #[trigger]
            call_ensures(
                ServerEndpoint::try_receive_message_from::<T, F>,
                (e, id, channel, decode),
                r,
            ) ==> exists|result: Result<Option<T>, ServerMessageReceiveError>| #[trigger]
                receives_message((*e)@, final(e)@, id, channel, decode, result) && (
                result is Ok ==> r == result->Ok_0) && (result is Err ==> r is None),
        forall|e: &mut ServerEndpoint, r: Option<T>| #[trigger]
            call_ensures(ServerEndpoint::try_receive_message::<T, F>, (e, id, decode), r)
                ==> match (*e)@.send_channel_ids.default_channel {
                Some(default) => exists|result: Result<Option<T>, ServerMessageReceiveError>|
                    #[trigger] receives_message((*e)@, final(e)@, id, default, decode, result) && (
                    result is Ok ==> r == result->Ok_0) && (result is Err ==> r is None),
                None => r is None && final(e)@ == (*e)@,
            },
{
    assert forall|
        pre: ServerEndpointView,
        post: ServerEndpointView,
        on: ChannelId,
        any: Result<Option<T>, ServerMessageReceiveError>,
    | #[trigger]
        post.message_received(pre, id, on, decode, any) implies receives_message(
        pre,
        post,
        id,
        on,
        decode,
        any,
    ) by {
        lemma_receives_message(pre, post, id, on, decode, any);
    }
}

/// The open channels are asked for one after the other on the connection of a client, with
/// their configs, and registered; where all are taken, this is all that changes. At the
/// first that is refused the connection is ordered to close, and that is the error.
pub proof fn law_open_channels(
    entries: &Vec<(ChannelId, ChannelConfig)>,
    r: Result<(), AsyncChannelError>,
)
    ensures
        forall|c: &mut ServerSideConnection| #[trigger]
            call_ensures(ServerSideConnection::open_channels, (c, entries), r) ==> match r {
                Ok(_) => {
                    let pre = (*c)@;
                    let post = final(c)@;
                    &&& post.requests.len() == pre.requests.len() + entries@.len()
                    &&& forall|i: int|
                        0 <= i < pre.requests.len() ==> post.requests[i]
                            == #[trigger] pre.requests[i]
                    &&& forall|i: int|
                        0 <= i < entries@.len() ==> {
                            let request = post.requests[pre.requests.len() + i];
                            &&& request.0->id == (#[trigger] entries@[i]).0
                            &&& request.0->config == entries@[i].1
                            &&& request.1 == Answer::Taken
                            &&& queue_answered(pre.ends.to_channels_send, request.0, Ok(()))
                            &&& post.channels.contains_key(entries@[i].0)
                            &&& post.channels[entries@[i].0].sends.len() == 0
                        }
                    &&& post == (PeerConnectionView {
                        channels: post.channels,
                        requests: post.requests,
                        ..pre
                    })
                },
                Err(e) => {
                    let pre = (*c)@;
                    let post = final(c)@;
                    let last = post.requests.last();
                    &&& exists|n: int|
                        0 <= n < entries@.len() && last.0->id == (#[trigger] entries@[n]).0
                            && last.0->config == entries@[n].1 && post.requests.len()
                            == pre.requests.len() + n + 1
                    &&& last.1 == Answer::Refused(e)
                    &&& queue_answered(pre.ends.to_channels_send, last.0, Err(e))
                    &&& post.close_orders.len() == pre.close_orders.len() + 1
                    &&& post.close_orders.last().0 == CloseReason::LocalOrder
                    &&& listeners_told(
                        pre.ends.close_send,
                        CloseReason::LocalOrder,
                        post.close_orders.last().1,
                    )
                    &&& post.specific == pre.specific
                },
            },
{
    assert forall|c: &mut ServerSideConnection| #[trigger]
        call_ensures(ServerSideConnection::open_channels, (c, entries), r) && r is Ok implies ({
        let pre = (*c)@;
        let post = final(c)@;
        &&& post.requests.len() == pre.requests.len() + entries@.len()
        &&& forall|i: int|
            0 <= i < pre.requests.len() ==> post.requests[i] == #[trigger] pre.requests[i]
        &&& forall|i: int|
            0 <= i < entries@.len() ==> {
                let request = post.requests[pre.requests.len() + i];
                &&& request.0->id == (#[trigger] entries@[i]).0
                &&& request.0->config == entries@[i].1
                &&& request.1 == Answer::Taken
                &&& queue_answered(pre.ends.to_channels_send, request.0, Ok(()))
                &&& post.channels.contains_key(entries@[i].0)
                &&& post.channels[entries@[i].0].sends.len() == 0
            }
        &&& post == (PeerConnectionView {
            channels: post.channels,
            requests: post.requests,
            ..pre
        })
    }) by {
        let pre = (*c)@;
        let post = final(c)@;
        let links = choose|links: Seq<Link>| #[trigger]
            links_for(links, entries@) && pre.took_each(links) && post == pre.link_each(links);
        law_linked_channels(pre, links, entries@);
        assert forall|i: int| 0 <= i < entries@.len() implies ({
            let request = post.requests[pre.requests.len() + i];
            &&& request.0->id == (#[trigger] entries@[i]).0
            &&& request.0->config == entries@[i].1
            &&& request.1 == Answer::Taken
            &&& queue_answered(pre.ends.to_channels_send, request.0, Ok(()))
        }) by {
            assert(links[i].made_for(entries@[i].0, entries@[i].1));
            assert(pre.took(links[i].request));
            assert(post.requests[pre.requests.len() + i] == (links[i].request, Answer::Taken));
        }
    }
    assert forall|c: &mut ServerSideConnection| #[trigger]
        call_ensures(ServerSideConnection::open_channels, (c, entries), r) && r is Err implies ({
        let pre = (*c)@;
        let post = final(c)@;
        let last = post.requests.last();
        let e = r->Err_0;
        &&& exists|n: int|
            0 <= n < entries@.len() && last.0->id == (#[trigger] entries@[n]).0 && last.0->config
                == entries@[n].1 && post.requests.len() == pre.requests.len() + n + 1
        &&& last.1 == Answer::Refused(e)
        &&& queue_answered(pre.ends.to_channels_send, last.0, Err(e))
        &&& post.close_orders.len() == pre.close_orders.len() + 1
        &&& post.close_orders.last().0 == CloseReason::LocalOrder
        &&& listeners_told(
            pre.ends.close_send,
            CloseReason::LocalOrder,
            post.close_orders.last().1,
        )
        &&& post.specific == pre.specific
    }) by {
        let pre = (*c)@;
        let post = final(c)@;
        let e = r->Err_0;
        let (n, links, request, heard) = choose|
            n: int,
            links: Seq<Link>,
            request: ChannelSyncMessage,
            heard: bool,
        |
            {
                &&& 0 <= n < entries@.len()
                &&& #[trigger] links_for(links, entries@.take(n))
                &&& pre.took_each(links)
                &&& #[trigger] pre.turned_down(request, entries@[n].0, entries@[n].1, e)
                &&& #[trigger] pre.was_told(CloseReason::LocalOrder, heard)
                &&& post == pre.link_each(links).ask(request, Answer::Refused(e)).told_to_close(
                    CloseReason::LocalOrder,
                    heard,
                )
            };
        law_linked_channels(pre, links, entries@.take(n));
        assert(post.requests.last() == (request, Answer::Refused(e)));
        assert(entries@[n].0 == request->id);
    }
}

/// A payload that is sent to a client that is there, on a channel that it has, is offered
/// to the queue of that channel, behind all that was offered before. The result is `Ok`
/// exactly where the queue took it, and then it is the last payload that the queue took.
/// No other channel and no other client gets it; a client that is not there gets nothing.
pub proof fn law_sent_to_a_client_is_the_last(
    id: ClientId,
    channel: ChannelId,
    payload: Bytes,
    other: ClientId,
    another: ChannelId,
)
    ensures
        forall|e: &mut ServerEndpoint, r: Result<(), ServerSendError>| #[trigger]
            call_ensures(ServerEndpoint::send_payload_on, (e, id, channel, payload), r) ==> {
                let pre = (*e)@;
                let post = final(e)@;
                &&& pre.clients.contains_key(id) && pre.clients[id].channels.contains_key(channel)
                    ==> {
                    let a = pre.clients[id].channels[channel];
                    let b = post.clients[id].channels[channel];
                    &&& post.clients[id].channels.contains_key(channel)
                    &&& b.sends.len() == a.sends.len() + 1
                    &&& b.sends.last().0 == payload_bytes(payload)
                    &&& r is Ok <==> b.sends.last().1 == Answer::Taken
                    &&& r is Ok ==> b.sent() == a.sent().push(payload_bytes(payload))
                    &&& r is Err ==> b.sent() == a.sent()
                    &&& another != channel && pre.clients[id].channels.contains_key(another)
                        ==> post.clients[id].channels[another] == pre.clients[id].channels[another]
                }
                &&& pre.clients.contains_key(id) && !pre.clients[id].channels.contains_key(channel)
                    ==> r is Err && post.clients[id] == pre.clients[id]
                &&& !pre.clients.contains_key(id) ==> r == Err::<(), _>(
                    ServerSendError::UnknownClient(id),
                ) && post == pre
                &&& post.clients.contains_key(other) <==> pre.clients.contains_key(other)
                &&& other != id && pre.clients.contains_key(other) ==> post.clients[other]
                    == pre.clients[other]
                &&& post.stats == pre.stats
                &&& post.opened_channels == pre.opened_channels
            },
{
    law_server_send(id, channel, payload);
    assert forall|e: &mut ServerEndpoint, r: Result<(), ServerSendError>| #[trigger]
        call_ensures(ServerEndpoint::send_payload_on, (e, id, channel, payload), r) && (
        *e)@.clients.contains_key(id) && (*e)@.clients[id].channels.contains_key(
            channel,
        ) implies final(e)@.clients[id].channels.contains_key(channel) by {
        assert(sends_to((*e)@, final(e)@, id, channel, payload_bytes(payload), r));
        assert(final(e)@.clients[id].channels.dom().contains(channel));
    }
}

/// What [`group_sends`] says of one client, where no client is named twice. One that is
/// named, is there and has the channel was offered the bytes, behind all that it was
/// offered before, and took them exactly where no error names it; where one is not there
/// or has no such channel, an error names it. One that is not named is left alone.
pub proof fn law_group_reaches_each(
    pre: ServerEndpointView,
    post: ServerEndpointView,
    ids: Seq<ClientId>,
    channel: ChannelId,
    bytes: Seq<u8>,
    errors: Seq<(ClientId, ServerSendError)>,
    id: ClientId,
)
    requires
        group_sends(pre, post, ids, channel, bytes, errors),
        ids.no_duplicates(),
    ensures
        post.clients.contains_key(id) <==> pre.clients.contains_key(id),
        pre.clients.contains_key(id) && !ids.contains(id) ==> post.clients[id] == pre.clients[id],
        ids.contains(id) && !pre.clients.contains_key(id) ==> errors.contains(
            (id, ServerSendError::UnknownClient(id)),
        ),
        ids.contains(id) && pre.clients.contains_key(id)
            && !pre.clients[id].channels.contains_key(channel) ==> errors.contains(
            (
                id,
                ServerSendError::ConnectionSendError(ConnectionSendError::InvalidChannelId(channel)),
            ),
        ),
        ids.contains(id) && pre.clients.contains_key(id) && pre.clients[id].channels.contains_key(
            channel,
        ) ==> {
            let a = pre.clients[id].channels[channel];
            let b = post.clients[id].channels[channel];
            &&& b.sends.len() == a.sends.len() + 1
            &&& b.sends.last().0 == bytes
            &&& b.sends.last().1 == Answer::Taken ==> b.sent() == a.sent().push(bytes) && (forall|
                e: ServerSendError,
            | !(#[trigger] errors.contains((id, e))))
            &&& b.sends.last().1 matches Answer::Refused(why) ==> b.sent() == a.sent()
                && errors.contains(
                (
                    id,
                    ServerSendError::ConnectionSendError(
                        ConnectionSendError::AsyncChannelError(why),
                    ),
                ),
            )
        },
{
    let (states, outcomes) = choose|
        states: Seq<ServerEndpointView>,
        outcomes: Seq<Result<(), ServerSendError>>,
    | #[trigger]
        sends_to_each(states, ids, channel, bytes, outcomes) && states.first() == pre
            && states.last() == post && errors == not_reached(ids, outcomes);
    let n = ids.len() as int;
    if ids.contains(id) {
        let at = choose|k: int| 0 <= k < n && ids[k] == id;
        lemma_untouched(states, ids, channel, bytes, outcomes, id, 0, at);
        lemma_untouched(states, ids, channel, bytes, outcomes, id, at + 1, n);
        assert(sends_to(states[at], states[at + 1], id, channel, bytes, outcomes[at]));
        lemma_not_reached_are(ids, outcomes, id);
        assert forall|e: ServerSendError| #[trigger] errors.contains((id, e)) <==> outcomes[at]
            == Err::<(), _>(e) by {
            if errors.contains((id, e)) {
                let k = choose|k: int|
                    0 <= k < outcomes.len() && ids[k] == id && #[trigger] outcomes[k] == Err::<
                        (),
                        _,
                    >(e);
                assert(k == at);
            }
        }
        match outcomes[at] {
            Err(e) => {
                assert(errors.contains((id, e)));
            },
            Ok(_) => {},
        }
    } else {
        lemma_untouched(states, ids, channel, bytes, outcomes, id, 0, n);
    }
}

/// Sending to others leaves a client alone.
proof fn lemma_untouched(
    states: Seq<ServerEndpointView>,
    ids: Seq<ClientId>,
    channel: ChannelId,
    bytes: Seq<u8>,
    outcomes: Seq<Result<(), ServerSendError>>,
    id: ClientId,
    from: int,
    to: int,
)
    requires
        sends_to_each(states, ids, channel, bytes, outcomes),
        0 <= from <= to <= ids.len(),
        forall|k: int| from <= k < to ==> #[trigger] ids[k] != id,
    ensures
        states[from].clients.contains_key(id) <==> states[to].clients.contains_key(id),
        states[from].clients.contains_key(id) ==> states[to].clients[id] == states[from].clients[id],
    decreases to - from,
{
    if from < to {
        lemma_untouched(states, ids, channel, bytes, outcomes, id, from, to - 1);
        assert(ids[to - 1] != id);
        assert(sends_to(
            states[to - 1],
            states[to],
            ids[to - 1],
            channel,
            bytes,
            outcomes[to - 1],
        ));
    }
}

/// The errors of a group send are those that came.
proof fn lemma_not_reached_are(
    ids: Seq<ClientId>,
    outcomes: Seq<Result<(), ServerSendError>>,
    id: ClientId,
)
    ensures
        forall|e: ServerSendError| #[trigger]
            not_reached(ids, outcomes).contains((id, e)) <==> exists|k: int|
                0 <= k < outcomes.len() && ids[k] == id && #[trigger] outcomes[k] == Err::<(), _>(e),
    decreases outcomes.len(),
{
    reveal(Seq::filter);
    let pairs = Seq::new(outcomes.len(), |i: int| (ids[i], outcomes[i]));
    if outcomes.len() > 0 {
        let before = outcomes.drop_last();
        lemma_not_reached_are(ids, before, id);
        assert(pairs.drop_last() =~= Seq::new(before.len(), |i: int| (ids[i], before[i])));
        let n = before.len() as int;
        let all = not_reached(ids, outcomes);
        let some = not_reached(ids, before);
        if outcomes[n] is Err {
            assert(all =~= some.push((ids[n], outcomes[n]->Err_0)));
        } else {
            assert(all =~= some);
        }
        assert forall|e: ServerSendError| #[trigger]
            all.contains((id, e)) <==> exists|k: int|
                0 <= k < outcomes.len() && ids[k] == id && #[trigger] outcomes[k] == Err::<(), _>(
                    e,
                ) by {
            if all.contains((id, e)) {
                let j = choose|j: int| 0 <= j < all.len() && all[j] == (id, e);
                if j < some.len() {
                    assert(some[j] == (id, e));
                    assert(some.contains((id, e)));
                    let k = choose|k: int|
                        0 <= k < before.len() && ids[k] == id && #[trigger] before[k] == Err::<
                            (),
                            _,
                        >(e);
                    assert(outcomes[k] == Err::<(), _>(e));
                } else {
                    assert(outcomes[n] == Err::<(), _>(e));
                }
            }
            if exists|k: int|
                0 <= k < outcomes.len() && ids[k] == id && #[trigger] outcomes[k] == Err::<(), _>(
                    e,
                ) {
                let k = choose|k: int|
                    0 <= k < outcomes.len() && ids[k] == id && #[trigger] outcomes[k] == Err::<
                        (),
                        _,
                    >(e);
                if k < n {
                    assert(before[k] == Err::<(), _>(e));
                    assert(some.contains((id, e)));
                    let j = choose|j: int| 0 <= j < some.len() && some[j] == (id, e);
                    assert(all[j] == (id, e));
                } else {
                    assert(all[all.len() - 1] == (id, e));
                }
            }
        }
    }
}

/// A payload that is sent to a group, none of them named twice, or broadcast, with `Ok` as
/// the result, is the last payload that the channel of each took; each was there.
pub proof fn law_group_payload_is_the_last(
    ids: &[ClientId],
    channel: ChannelId,
    payload: Bytes,
    id: ClientId,
)
    ensures
        forall|e: &mut ServerEndpoint, r: Result<(), ServerGroupPayloadSendError>| #[trigger]
            call_ensures(ServerEndpoint::send_group_payload_on, (e, ids, channel, payload), r)
                && ids@.no_duplicates() ==> {
                let pre = (*e)@;
                let post = final(e)@;
                &&& r is Ok && ids@.contains(id) ==> {
                    &&& pre.clients.contains_key(id)
                    &&& pre.clients[id].channels.contains_key(channel)
                    &&& post.clients[id].channels[channel].sent()
                        == pre.clients[id].channels[channel].sent().push(payload_bytes(payload))
                }
                &&& ids@.contains(id) && pre.clients.contains_key(id)
                    && pre.clients[id].channels.contains_key(channel) ==> {
                    &&& post.clients[id].channels[channel].sends.len()
                        == pre.clients[id].channels[channel].sends.len() + 1
                    &&& post.clients[id].channels[channel].sends.last().0 == payload_bytes(payload)
                }
                &&& !ids@.contains(id) && pre.clients.contains_key(id) ==> post.clients[id]
                    == pre.clients[id]
            },
        forall|e: &mut ServerEndpoint, r: Result<(), ServerGroupSendError>| #[trigger]
            call_ensures(ServerEndpoint::broadcast_payload_on, (e, channel, payload), r) && (
            *e)@.clients.contains_key(id) ==> {
                let pre = (*e)@.clients[id];
                let post = final(e)@.clients[id];
                &&& r is Ok ==> {
                    &&& pre.channels.contains_key(channel)
                    &&& post.channels[channel].sent() == pre.channels[channel].sent().push(
                        payload_bytes(payload),
                    )
                }
                &&& pre.channels.contains_key(channel) ==> {
                    &&& post.channels[channel].sends.len() == pre.channels[channel].sends.len() + 1
                    &&& post.channels[channel].sends.last().0 == payload_bytes(payload)
                }
            },
{
    let bytes = payload_bytes(payload);
    law_group_send(ids, channel, payload);
    law_broadcast_payload(channel, payload);
    assert forall|e: &mut ServerEndpoint, r: Result<(), ServerGroupPayloadSendError>| #[trigger]
        call_ensures(ServerEndpoint::send_group_payload_on, (e, ids, channel, payload), r)
            && ids@.no_duplicates() implies ({
        let pre = (*e)@;
        let post = final(e)@;
        &&& r is Ok && ids@.contains(id) ==> {
            &&& pre.clients.contains_key(id)
            &&& pre.clients[id].channels.contains_key(channel)
            &&& post.clients[id].channels[channel].sent()
                == pre.clients[id].channels[channel].sent().push(bytes)
        }
        &&& ids@.contains(id) && pre.clients.contains_key(id)
            && pre.clients[id].channels.contains_key(channel) ==> {
            &&& post.clients[id].channels[channel].sends.len()
                == pre.clients[id].channels[channel].sends.len() + 1
            &&& post.clients[id].channels[channel].sends.last().0 == bytes
        }
        &&& !ids@.contains(id) && pre.clients.contains_key(id) ==> post.clients[id]
            == pre.clients[id]
    }) by {
        let errors = choose|errors: Seq<(ClientId, ServerSendError)>| #[trigger]
            group_sends((*e)@, final(e)@, ids@, channel, bytes, errors) && reports_errors(
                r,
                errors,
            );
        law_group_reaches_each((*e)@, final(e)@, ids@, channel, bytes, errors, id);
    }
    assert forall|e: &mut ServerEndpoint, r: Result<(), ServerGroupSendError>| #[trigger]
        call_ensures(ServerEndpoint::broadcast_payload_on, (e, channel, payload), r) && (
        *e)@.clients.contains_key(id) implies ({
        let pre = (*e)@.clients[id];
        let post = final(e)@.clients[id];
        &&& r is Ok ==> {
            &&& pre.channels.contains_key(channel)
            &&& post.channels[channel].sent() == pre.channels[channel].sent().push(bytes)
        }
        &&& pre.channels.contains_key(channel) ==> {
            &&& post.channels[channel].sends.len() == pre.channels[channel].sends.len() + 1
            &&& post.channels[channel].sends.last().0 == bytes
        }
    }) by {
        let errors = crate::server::endpoint::send::broadcast_errors(r);
        assert(broadcasts((*e)@, final(e)@, channel, bytes, errors));
        let all = choose|all: Seq<ClientId>| #[trigger]
            group_sends((*e)@, final(e)@, all, channel, bytes, errors) && all.no_duplicates() && (
            forall|k: ClientId| #[trigger] all.contains(k) <==> (*e)@.clients.contains_key(k));
        assert(all.contains(id));
        law_group_reaches_each((*e)@, final(e)@, all, channel, bytes, errors, id);
    }
}

/// What waits on a channel of a client comes out in order: a read gives the payload that
/// has waited longest, and leaves the others, of this and of every other client.
pub proof fn law_clients_are_read_first_in_first_out(
    id: ClientId,
    channel: ChannelId,
    other: ClientId,
    another: ChannelId,
)
    ensures
        forall|e: &mut ServerEndpoint, r: Result<Option<Bytes>, ServerReceiveError>| #[trigger]
            call_ensures(ServerEndpoint::receive_payload, (e, id, channel), r) && (
            *e)@.clients.contains_key(id) ==> {
                let pre = (*e)@.clients[id].buffers;
                let post = final(e)@.clients[id].buffers;
                &&& r is Ok
                &&& r->Ok_0 is Some <==> pre[channel].len() > 0
                &&& r->Ok_0 is Some ==> payload_bytes(r->Ok_0->0) == pre[channel][0]
                    && post[channel].len() == pre[channel].len() - 1 && (forall|i: int|
                    0 <= i < post[channel].len() ==> #[trigger] post[channel][i]
                        == pre[channel][i + 1])
                &&& r->Ok_0 is None ==> post[channel].len() == 0
                &&& another != channel ==> post[another] == pre[another]
                &&& other != id && (*e)@.clients.contains_key(other) ==> final(e)@.clients[other]
                    == (*e)@.clients[other]
            },
        forall|e: &mut ServerEndpoint, r: Result<Option<Bytes>, ServerReceiveError>| #[trigger]
            call_ensures(ServerEndpoint::receive_payload, (e, id, channel), r) && !(
            *e)@.clients.contains_key(id) ==> r == Err::<Option<Bytes>, _>(
                ServerReceiveError::UnknownClient(id),
            ) && final(e)@ == (*e)@,
{
    law_server_receive(id, channel);
    assert forall|e: &mut ServerEndpoint, r: Result<Option<Bytes>, ServerReceiveError>| #[trigger]
        call_ensures(ServerEndpoint::receive_payload, (e, id, channel), r) && (
        *e)@.clients.contains_key(id) && r->Ok_0 is Some implies reads(
        (*e)@.clients[id],
        final(e)@.clients[id],
        channel,
        r->Ok_0,
    ) by {
        assert(reads_from((*e)@, final(e)@, id, channel, r->Ok_0));
    }
}

/// A client that is disconnected is gone, and counted once; its tasks were ordered to close
/// its connection. All other clients stay. One that is not there is named.
pub proof fn law_disconnected_client_is_gone(id: ClientId, other: ClientId)
    ensures
        forall|e: &mut ServerEndpoint, r: Result<(), ServerDisconnectError>| #[trigger]
            call_ensures(ServerEndpoint::disconnect_client, (e, id), r) && (*e)@.wf() ==> {
                let pre = (*e)@;
                let post = final(e)@;
                &&& !post.clients.contains_key(id)
                &&& other != id ==> (post.clients.contains_key(other)
                    <==> pre.clients.contains_key(other))
                &&& other != id && pre.clients.contains_key(other) ==> post.clients[other]
                    == pre.clients[other]
                &&& pre.clients.contains_key(id) ==> {
                    &&& listeners_told(
                        pre.clients[id].ends.close_send,
                        CloseReason::LocalOrder,
                        r is Ok,
                    )
                    &&& r is Err ==> r == Err::<(), _>(
                        ServerDisconnectError::ClientAlreadyDisconnected(id),
                    )
                    &&& post.stats.disconnect_count == pre.stats.disconnect_count + 1
                }
                &&& !pre.clients.contains_key(id) ==> post == pre && r == Err::<(), _>(
                    ServerDisconnectError::UnknownClient(id),
                )
                &&& post.stats.connect_count == pre.stats.connect_count
                &&& post.client_id_gen == pre.client_id_gen
                &&& post.opened_channels == pre.opened_channels
            },
        forall|e: &mut ServerEndpoint, done: ()| #[trigger]
            call_ensures(ServerEndpoint::disconnect_all_clients, (e,), done) && (*e)@.wf() ==> {
                &&& !final(e)@.clients.contains_key(id)
                &&& (*e)@.clients.contains_key(id) ==> exists|heard: bool|
                    listeners_told(
                        (*e)@.clients[id].ends.close_send,
                        CloseReason::LocalOrder,
                        heard,
                    )
                &&& final(e)@.stats.disconnect_count == (*e)@.stats.connect_count
                &&& final(e)@.stats.connect_count == (*e)@.stats.connect_count
            },
        forall|e: &mut ServerEndpoint, r: Result<(), EndpointAlreadyClosed>| #[trigger]
            call_ensures(ServerEndpoint::shut_down, (e,), r) && (*e)@.wf() ==> {
                &&& !final(e)@.clients.contains_key(id)
                &&& (*e)@.clients.contains_key(id) ==> exists|heard: bool|
                    listeners_told(
                        (*e)@.clients[id].ends.close_send,
                        CloseReason::LocalOrder,
                        heard,
                    )
                &&& listeners_told((*e)@.close_half, (), r is Ok)
                &&& final(e)@.stats.disconnect_count == (*e)@.stats.connect_count
            },
{
    law_shut_down();
    assert forall|e: &mut ServerEndpoint, r: Result<(), ServerDisconnectError>| #[trigger]
        call_ensures(ServerEndpoint::disconnect_client, (e, id), r) && (*e)@.wf() && (
        *e)@.clients.contains_key(id) implies drops_client(
        (*e)@,
        final(e)@,
        id,
        CloseReason::LocalOrder,
        r is Ok,
    ) by {
        lemma_drops_client((*e)@, id, CloseReason::LocalOrder, r is Ok);
    }
}

/// A connection that is accepted is a client under an id that no client ever had, and
/// counted once. Its task was told that id, and its tasks took a request for each channel
/// that is open, with the config of that channel, and for no other; each open channel is
/// registered there. One that is refused is no client, and was ordered to close.
pub proof fn law_accepted_connection_is_a_client(
    connection: ServerSideConnection,
    r: Result<ClientId, AsyncChannelError>,
    other: ClientId,
    channel: ChannelId,
)
    ensures
        forall|e: &mut ServerEndpoint| #[trigger]
            call_ensures(ServerEndpoint::handle_new_connection, (e, connection), r) && (
            *e)@.wf() && (*e)@.stats.connect_count < u32::MAX && (*e)@.client_id_gen < u64::MAX
                && r is Ok ==> {
                let pre = (*e)@;
                let post = final(e)@;
                let id = r->Ok_0;
                let client = post.clients[id];
                &&& !pre.clients.contains_key(id)
                &&& id > pre.client_id_gen
                &&& post.client_id_gen == id
                &&& post.clients.contains_key(id)
                &&& other != id ==> (post.clients.contains_key(other)
                    <==> pre.clients.contains_key(other))
                &&& other != id && pre.clients.contains_key(other) ==> post.clients[other]
                    == pre.clients[other]
                &&& post.stats.connect_count == pre.stats.connect_count + 1
                &&& post.stats.disconnect_count == pre.stats.disconnect_count
                &&& client.specific.acks.last() == (id, Answer::Taken)
                &&& client.specific.acks.len() == connection@.specific.acks.len() + 1
                &&& client.specific.connection_handle == connection@.specific.connection_handle
                &&& client.close_orders == connection@.close_orders
                &&& client.buffers == connection@.buffers
                &&& pre.opened_channels.contains_key(channel) ==> {
                    &&& client.channels.contains_key(channel)
                    &&& client.channels[channel].sends.len() == 0
                    &&& exists|i: int|
                        connection@.requests.len() <= i < client.requests.len() && (
                        #[trigger] client.requests[i]).1 == Answer::Taken
                            && client.requests[i].0->id == channel && client.requests[i].0->config
                            == pre.opened_channels[channel]
                }
                &&& client.channels.contains_key(channel) ==> pre.opened_channels.contains_key(
                    channel,
                ) || connection@.channels.contains_key(channel)
                &&& post.opened_channels == pre.opened_channels
            },
        forall|e: &mut ServerEndpoint| #[trigger]
            call_ensures(ServerEndpoint::handle_new_connection, (e, connection), r) && (
            *e)@.stats.connect_count < u32::MAX && (*e)@.client_id_gen < u64::MAX && r is Err ==> {
                &&& final(e)@.clients == (*e)@.clients
                &&& final(e)@.stats == (*e)@.stats
                &&& final(e)@.opened_channels == (*e)@.opened_channels
                &&& final(e)@.client_id_gen >= (*e)@.client_id_gen
                &&& exists|heard: bool|
                    listeners_told(connection@.ends.close_send, CloseReason::LocalOrder, heard)
            },
{
    law_handle_new_connection(connection, r);
    assert forall|e: &mut ServerEndpoint| #[trigger]
        call_ensures(ServerEndpoint::handle_new_connection, (e, connection), r) && (*e)@.wf() && (
        *e)@.stats.connect_count < u32::MAX && (
        *e)@.client_id_gen < u64::MAX && r is Ok implies ({
        let pre = (*e)@;
        let post = final(e)@;
        let id = r->Ok_0;
        let client = post.clients[id];
        &&& !pre.clients.contains_key(id)
        &&& id > pre.client_id_gen
        &&& post.client_id_gen == id
        &&& post.clients.contains_key(id)
        &&& other != id ==> (post.clients.contains_key(other)
            <==> pre.clients.contains_key(other))
        &&& other != id && pre.clients.contains_key(other) ==> post.clients[other]
            == pre.clients[other]
        &&& post.stats.connect_count == pre.stats.connect_count + 1
        &&& post.stats.disconnect_count == pre.stats.disconnect_count
        &&& client.specific.acks.last() == (id, Answer::Taken)
        &&& client.specific.acks.len() == connection@.specific.acks.len() + 1
        &&& client.specific.connection_handle == connection@.specific.connection_handle
        &&& client.close_orders == connection@.close_orders
        &&& client.buffers == connection@.buffers
        &&& pre.opened_channels.contains_key(channel) ==> {
            &&& client.channels.contains_key(channel)
            &&& client.channels[channel].sends.len() == 0
            &&& exists|i: int|
                connection@.requests.len() <= i < client.requests.len() && (
                #[trigger] client.requests[i]).1 == Answer::Taken
                    && client.requests[i].0->id == channel && client.requests[i].0->config
                    == pre.opened_channels[channel]
        }
        &&& client.channels.contains_key(channel) ==> pre.opened_channels.contains_key(
            channel,
        ) || connection@.channels.contains_key(channel)
        &&& post.opened_channels == pre.opened_channels
    }) by {
        let pre = (*e)@;
        let post = final(e)@;
        let id = r->Ok_0;
        let client = post.clients[id];
        assert(handles_new(pre, post, connection@, r));
        assert(accepted_as(connection@, client, pre.opened_channels, id));
        assert(!pre.clients.contains_key(id));
        assert(post.clients.contains_key(id));
        assert(client.channels.contains_key(channel) ==> pre.opened_channels.contains_key(channel)
            || connection@.channels.contains_key(channel));
        assert(client.specific.acks.last() == (id, Answer::Taken));
        if pre.opened_channels.contains_key(channel) {
            assert(client.channels.contains_key(channel));
            let i = choose|i: int|
                connection@.requests.len() <= i < client.requests.len() && (
                #[trigger] client.requests[i]).0->id == channel;
            assert(client.requests[i].1 == Answer::Taken);
        }
    }
}

/// What each message in a row comes to, by the state that the ones before have left. A
/// client that is there and whose connection is closed is lost, gone and counted, and its
/// tasks were told that the peer closed it; one that is not there is not lost again. Only
/// a connection that was announced is accepted, under the next id.
pub proof fn law_messages_in_a_row(
    states: Seq<ServerEndpointView>,
    messages: Seq<ServerAsyncMessage>,
    steps: Seq<ServerStep>,
    i: int,
)
    requires
        goes_through_messages(states, messages, steps),
        0 <= i < messages.len(),
    ensures
        messages[i] matches ServerAsyncMessage::ClientConnectionClosed(id) ==> {
            &&& !states[i + 1].clients.contains_key(id)
            &&& states[i].clients.contains_key(id) ==> {
                &&& steps[i] == ServerStep::Lost(id)
                &&& states[i + 1].clients == states[i].clients.remove(id)
                &&& states[i + 1].stats.disconnect_count == states[i].stats.disconnect_count + 1
                &&& exists|heard: bool|
                    listeners_told(
                        states[i].clients[id].ends.close_send,
                        CloseReason::PeerClosed,
                        heard,
                    )
            }
            &&& !states[i].clients.contains_key(id) ==> steps[i] is Stale && states[i + 1]
                == states[i]
        },
        messages[i] matches ServerAsyncMessage::ClientConnected(connection) ==> {
            &&& steps[i] is Accepted || steps[i] is Refused
            &&& steps[i] matches ServerStep::Accepted(id) ==> {
                &&& id == states[i].client_id_gen + 1
                &&& states[i + 1].clients.contains_key(id)
                &&& states[i + 1].clients[id].specific.acks.last() == (id, Answer::Taken)
                &&& states[i + 1].clients[id].specific.connection_handle
                    == connection@.specific.connection_handle
                &&& states[i + 1].stats.connect_count == states[i].stats.connect_count + 1
            }
            &&& steps[i] is Refused ==> {
                &&& states[i + 1].clients == states[i].clients
                &&& states[i + 1].stats == states[i].stats
                &&& exists|heard: bool|
                    listeners_told(connection@.ends.close_send, CloseReason::LocalOrder, heard)
            }
        },
        steps[i] is Lost ==> messages[i] == ServerAsyncMessage::ClientConnectionClosed(
            steps[i]->Lost_0,
        ),
        steps[i] is Accepted ==> messages[i] is ClientConnected,
{
    assert(message_comes_to(states[i], messages[i], steps[i], states[i + 1]));
    if let ServerAsyncMessage::ClientConnectionClosed(id) = messages[i] {
        if states[i].clients.contains_key(id) {
            let heard = choose|heard: bool| #[trigger]
                drops_client(states[i], states[i + 1], id, CloseReason::PeerClosed, heard);
            assert(listeners_told(
                states[i].clients[id].ends.close_send,
                CloseReason::PeerClosed,
                heard,
            ));
        }
    }
}

/// One message alone does what [`law_messages_in_a_row`] says of each.
pub proof fn law_one_message(message: ServerAsyncMessage, step: ServerStep)
    ensures
        forall|e: &mut ServerEndpoint| #[trigger]
            call_ensures(ServerEndpoint::handle_message, (e, message), step) && (*e)@.wf() ==> {
                let pre = (*e)@;
                let post = final(e)@;
                &&& message matches ServerAsyncMessage::ClientConnectionClosed(id) ==> {
                    &&& !post.clients.contains_key(id)
                    &&& pre.clients.contains_key(id) ==> step == ServerStep::Lost(id)
                        && post.clients == pre.clients.remove(id) && post.stats.disconnect_count
                        == pre.stats.disconnect_count + 1 && (exists|heard: bool|
                        listeners_told(
                            pre.clients[id].ends.close_send,
                            CloseReason::PeerClosed,
                            heard,
                        ))
                    &&& !pre.clients.contains_key(id) ==> step is Stale && post == pre
                }
                &&& message matches ServerAsyncMessage::ClientConnected(connection) ==> {
                    &&& step is Accepted || step is Refused
                    &&& step is Accepted ==> step->Accepted_0 == pre.client_id_gen + 1
                        && post.clients.contains_key(step->Accepted_0)
                        && !pre.clients.contains_key(step->Accepted_0)
                        && post.stats.connect_count == pre.stats.connect_count + 1
                    &&& step is Refused ==> post.clients == pre.clients && post.stats == pre.stats
                        && (exists|heard: bool|
                        listeners_told(
                            connection@.ends.close_send,
                            CloseReason::LocalOrder,
                            heard,
                        ))
                }
            },
{
    assert forall|e: &mut ServerEndpoint| #[trigger]
        call_ensures(ServerEndpoint::handle_message, (e, message), step) && (
        *e)@.wf() implies message_comes_to((*e)@, message, step, final(e)@) && (
    message matches ServerAsyncMessage::ClientConnectionClosed(id) ==> (
    *e)@.clients.contains_key(id) ==> exists|heard: bool|
        listeners_told((*e)@.clients[id].ends.close_send, CloseReason::PeerClosed, heard)) by {
        lemma_message_comes_to((*e)@, message, step, final(e)@);
        law_messages_in_a_row(seq![(*e)@, final(e)@], seq![message], seq![step], 0);
    }
}

/// What an update says is what happened: a client is there afterwards exactly where it was
/// there before or was accepted, and was not lost. Each was accepted once, and lost once at
/// most, and the counts grow by as many.
pub proof fn law_update_adds_up(
    r: (Vec<ConnectionEvent>, Vec<ConnectionLostEvent>),
    id: ClientId,
)
    ensures
        forall|e: &mut ServerEndpoint| #[trigger]
            call_ensures(ServerEndpoint::update, (e,), r) && (*e)@.wf() ==> {
                let pre = (*e)@;
                let post = final(e)@;
                let accepted = r.0@.map_values(|v: ConnectionEvent| v.id);
                let gone = r.1@.map_values(|v: ConnectionLostEvent| v.id);
                &&& post.clients.contains_key(id) <==> (pre.clients.contains_key(id)
                    || accepted.contains(id)) && !gone.contains(id)
                &&& gone.contains(id) ==> pre.clients.contains_key(id) || accepted.contains(id)
                &&& accepted.contains(id) ==> !pre.clients.contains_key(id)
                    && pre.client_id_gen < id <= post.client_id_gen
                &&& accepted.no_duplicates()
                &&& gone.no_duplicates()
                &&& post.stats.connect_count == pre.stats.connect_count + r.0@.len()
                &&& post.stats.disconnect_count == pre.stats.disconnect_count + r.1@.len()
                &&& post.opened_channels == pre.opened_channels
            },
{
    assert forall|e: &mut ServerEndpoint| #[trigger]
        call_ensures(ServerEndpoint::update, (e,), r) && (*e)@.wf() implies ({
        let pre = (*e)@;
        let post = final(e)@;
        let accepted = r.0@.map_values(|v: ConnectionEvent| v.id);
        let gone = r.1@.map_values(|v: ConnectionLostEvent| v.id);
        &&& post.clients.contains_key(id) <==> (pre.clients.contains_key(id)
            || accepted.contains(id)) && !gone.contains(id)
        &&& gone.contains(id) ==> pre.clients.contains_key(id) || accepted.contains(id)
        &&& accepted.contains(id) ==> !pre.clients.contains_key(id) && pre.client_id_gen < id
            <= post.client_id_gen
        &&& accepted.no_duplicates()
        &&& gone.no_duplicates()
        &&& post.stats.connect_count == pre.stats.connect_count + r.0@.len()
        &&& post.stats.disconnect_count == pre.stats.disconnect_count + r.1@.len()
        &&& post.opened_channels == pre.opened_channels
    }) by {
        let pre = (*e)@;
        let post = final(e)@;
        let accepted = r.0@.map_values(|v: ConnectionEvent| v.id);
        let gone = r.1@.map_values(|v: ConnectionLostEvent| v.id);
        assert(connected(r.0@) =~= accepted);
        assert(lost(r.1@) =~= gone);
        crate::server::laws::law_update_accounts_for_clients(pre, post, accepted, gone);
        if accepted.contains(id) {
            let k = choose|k: int| 0 <= k < accepted.len() && accepted[k] == id;
            assert(pre.client_id_gen < accepted[k]);
        }
        lemma_endpoint_updates(pre, post, r.0@, r.1@);
        let (messages, states, steps, reported) = choose|
            messages: Seq<ServerAsyncMessage>,
            states: Seq<ServerEndpointView>,
            steps: Seq<ServerStep>,
            reported: Seq<ClientId>,
        | #[trigger]
            endpoint_updates(pre, post, messages, states, steps, reported, r.0@, r.1@);
        lemma_open_channels_stay(states, messages, steps, messages.len() as int);
    }
}

/// Messages of the async tasks leave the open channels as they are.
proof fn lemma_open_channels_stay(
    states: Seq<ServerEndpointView>,
    messages: Seq<ServerAsyncMessage>,
    steps: Seq<ServerStep>,
    n: int,
)
    requires
        goes_through_messages(states, messages, steps),
        0 <= n <= messages.len(),
    ensures
        states[n].opened_channels == states[0].opened_channels,
    decreases n,
{
    if n > 0 {
        lemma_open_channels_stay(states, messages, steps, n - 1);
        assert(message_comes_to(states[n - 1], messages[n - 1], steps[n - 1], states[n]));
    }
}

/// A channel that is opened has the config that is given, under an id that was free and is
/// not any more, and it is open for every client: the tasks of each took a request for it.
/// That no id is free is said exactly where none is. A channel that is closed is not open,
/// its id is free, and each client was told and has it no more.
pub proof fn law_opened_and_closed_channels(
    config: ChannelConfig,
    id: ChannelId,
    other: ChannelId,
    client: ClientId,
)
    ensures
        forall|e: &mut ServerEndpoint| #[trigger]
            call_ensures(ServerEndpoint::open_channel, (e, config), Ok(id)) ==> {
                let pre = (*e)@;
                let post = final(e)@;
                &&& pre.send_channel_ids.available.contains(id)
                &&& !post.send_channel_ids.available.contains(id)
                &&& pre.send_channel_ids.available.contains(other) ==> id <= other
                &&& post.opened_channels.contains_key(id) && post.opened_channels[id] == config
                &&& other != id ==> (post.opened_channels.contains_key(other)
                    <==> pre.opened_channels.contains_key(other))
                &&& other != id && pre.opened_channels.contains_key(other)
                    ==> post.opened_channels[other] == pre.opened_channels[other]
                &&& post.clients.contains_key(client) <==> pre.clients.contains_key(client)
                &&& pre.clients.contains_key(client) ==> {
                    let a = pre.clients[client];
                    let b = post.clients[client];
                    &&& b.channels.contains_key(id)
                    &&& b.channels[id].sends.len() == 0
                    &&& b.requests.len() == a.requests.len() + 1
                    &&& b.requests.last().0->id == id
                    &&& b.requests.last().0->config == config
                    &&& b.requests.last().1 == Answer::Taken
                    &&& b.close_orders == a.close_orders
                }
                &&& post.stats == pre.stats
            },
        forall|e: &mut ServerEndpoint, r: Result<ChannelId, ChannelCreationError>| #[trigger]
            call_ensures(ServerEndpoint::open_channel, (e, config), r) ==> {
                &&& r == Err::<ChannelId, _>(ChannelCreationError::MaxChannelsCountReached)
                    <==> forall|k: ChannelId|
                    !(#[trigger] (*e)@.send_channel_ids.available.contains(k))
                &&& r is Err ==> final(e)@.opened_channels == (*e)@.opened_channels && final(
                    e
                )@.send_channel_ids.available == (*e)@.send_channel_ids.available
            },
        forall|e: &mut ServerEndpoint| #[trigger]
            call_ensures(ServerEndpoint::close_channel, (e, id), Ok(())) ==> {
                let pre = (*e)@;
                let post = final(e)@;
                &&& pre.opened_channels.contains_key(id)
                &&& !post.opened_channels.contains_key(id)
                &&& post.send_channel_ids.available.contains(id)
                &&& post.send_channel_ids.default_channel != Some(id)
                &&& other != id ==> (post.opened_channels.contains_key(other)
                    <==> pre.opened_channels.contains_key(other))
                &&& pre.clients.contains_key(client) ==> {
                    let a = pre.clients[client];
                    let b = post.clients[client];
                    &&& a.channels.contains_key(id)
                    &&& queue_answered(a.channels[id].stop_half, (), Ok(()))
                    &&& !b.channels.contains_key(id)
                    &&& b.close_orders == a.close_orders
                    &&& b.buffers == a.buffers
                }
            },
{
    assert forall|e: &mut ServerEndpoint| #[trigger]
        call_ensures(ServerEndpoint::open_channel, (e, config), Ok(id)) implies opens_channel(
        (*e)@,
        final(e)@,
        id,
        config,
    ) && (final(e)@.clients.contains_key(client) <==> (*e)@.clients.contains_key(client)) by {
        law_endpoint_open_channel(config, Ok(id), Ok(id));
        assert(final(e)@.clients.dom().contains(client) <==> (*e)@.clients.dom().contains(client));
    }
    assert forall|e: &mut ServerEndpoint, r: Result<ChannelId, ChannelCreationError>| #[trigger]
        call_ensures(ServerEndpoint::open_channel, (e, config), r) implies {
        &&& r == Err::<ChannelId, _>(ChannelCreationError::MaxChannelsCountReached) <==> forall|
            k: ChannelId,
        | !(#[trigger] (*e)@.send_channel_ids.available.contains(k))
        &&& r is Err ==> final(e)@.opened_channels == (*e)@.opened_channels && final(
            e
        )@.send_channel_ids.available == (*e)@.send_channel_ids.available
    } by {
        law_endpoint_open_channel(config, r, Ok(id));
    }
    law_endpoint_close_channel(id, Ok(()));
}

/// What [`sorts_in`] says: what waited stays in front; behind it stand the payloads of the
/// channel that came, in order, with none in between left out; what is left out, as many as
/// `full`, is left out because the limit was reached.
pub proof fn law_what_sorts_in_says<V>(
    pre: PeerConnectionView<V>,
    post: PeerConnectionView<V>,
    channel: ChannelId,
    payloads: Seq<(ChannelId, Seq<u8>)>,
    full: int,
    i: int,
)
    requires
        sorts_in(pre, post, channel, payloads, full),
    ensures
        0 <= i < pre.buffers[channel].len() ==> post.buffers[channel][i] == pre.buffers[channel][i],
        pre.buffers[channel].len() <= i < post.buffers[channel].len() ==> post.buffers[channel][i]
            == of_channel(payloads, channel)[i - pre.buffers[channel].len()],
        post.buffers[channel].len() + full == pre.buffers[channel].len() + of_channel(
            payloads,
            channel,
        ).len(),
        full >= 0,
        full > 0 ==> post.buffers[channel].len()
            >= pre.recv_channels_cfg.max_buffered_payloads_count_per_channel,
        pre.buffers[channel].len() <= pre.recv_channels_cfg.max_buffered_payloads_count_per_channel
            ==> post.buffers[channel].len()
            <= pre.recv_channels_cfg.max_buffered_payloads_count_per_channel,
        came(pre.arrived, post.arrived, payloads, usize::MAX as int),
        post.specific == pre.specific,
        post.channels == pre.channels,
        post.close_orders == pre.close_orders,
        post.recv_channels_cfg == pre.recv_channels_cfg,
{
}

/// A message that was encoded and sent to a client, with `Ok` as the result, is the last
/// payload that the channel took, as the bytes that it was encoded to; one that could not
/// be encoded is not sent. A received message is what the decoder gives for the payload
/// that has waited longest.
pub proof fn law_messages_are_what_was_encoded<
    T,
    F: FnOnce(&[u8]) -> Result<(T, usize), DecodeError>,
>(id: ClientId, channel: ChannelId, encoded: Result<Vec<u8>, EncodeError>, decode: F)
    ensures
        forall|e: &mut ServerEndpoint, r: Result<(), ServerMessageSendError>| #[trigger]
            call_ensures(ServerEndpoint::send_message_on, (e, id, channel, encoded), r) ==> {
                &&& encoded is Err ==> final(e)@ == (*e)@ && r == Err::<(), _>(
                    ServerMessageSendError::Serialization,
                )
                &&& encoded is Ok && r is Ok ==> {
                    &&& (*e)@.clients.contains_key(id)
                    &&& (*e)@.clients[id].channels.contains_key(channel)
                    &&& final(e)@.clients[id].channels[channel].sent() == (
                    *e)@.clients[id].channels[channel].sent().push(encoded->Ok_0@)
                }
                &&& encoded is Ok && (*e)@.clients.contains_key(id) && (
                *e)@.clients[id].channels.contains_key(channel) ==> {
                    &&& final(e)@.clients[id].channels[channel].sends.len() == (
                    *e)@.clients[id].channels[channel].sends.len() + 1
                    &&& final(e)@.clients[id].channels[channel].sends.last().0 == encoded->Ok_0@
                    &&& r is Ok <==> final(e)@.clients[id].channels[channel].sends.last().1
                        == Answer::Taken
                }
            },
        forall|e: &mut ServerEndpoint, r: Result<Option<T>, ServerMessageReceiveError>| #[trigger]
            call_ensures(ServerEndpoint::receive_message_from::<T, F>, (e, id, channel, decode), r)
                && (*e)@.clients.contains_key(id) ==> {
                let waits = (*e)@.clients[id].buffers[channel];
                &&& waits.len() == 0 ==> r == Ok::<Option<T>, ServerMessageReceiveError>(None)
                &&& waits.len() > 0 ==> {
                    &&& final(e)@.clients[id].buffers[channel].len() == waits.len() - 1
                    &&& r is Err || (r->Ok_0 is Some && exists|bytes: &[u8], n: usize| #[trigger]
                        call_ensures(decode, (bytes,), Ok((r->Ok_0->0, n))) && bytes@ == waits[0])
                    &&& r is Err ==> r == Err::<Option<T>, _>(
                        ServerMessageReceiveError::Deserialization,
                    )
                }
            },
{
    law_send_message(id, channel, encoded);
    law_receive_message::<T, F>(id, channel, decode);
    assert forall|e: &mut ServerEndpoint, r: Result<Option<T>, ServerMessageReceiveError>|
        #[trigger]
        call_ensures(ServerEndpoint::receive_message_from::<T, F>, (e, id, channel, decode), r) && (
        *e)@.clients.contains_key(id) && (
        *e)@.clients[id].buffers[channel].len() > 0 implies r is Err || (r->Ok_0 is Some && exists|
        bytes: &[u8],
        n: usize,
    | #[trigger]
        call_ensures(decode, (bytes,), Ok((r->Ok_0->0, n))) && bytes@ == (
        *e)@.clients[id].buffers[channel][0]) by {
        assert(receives_message((*e)@, final(e)@, id, channel, decode, r));
        let (bytes, outcome) = choose|bytes: &[u8], outcome: Result<(T, usize), DecodeError>|
            {
                &&& #[trigger] call_ensures(decode, (bytes,), outcome)
                &&& bytes@ == (*e)@.clients[id].buffers[channel][0]
                &&& outcome is Ok ==> r == Ok::<Option<T>, ServerMessageReceiveError>(
                    Some(outcome->Ok_0.0),
                )
                &&& outcome is Err ==> r == Err::<Option<T>, _>(
                    ServerMessageReceiveError::Deserialization,
                )
            };
        if outcome is Ok {
            assert(outcome == Ok::<(T, usize), DecodeError>((r->Ok_0->0, outcome->Ok_0.1)));
        }
    }
}

/// What [`surveys`] says of one client: it stays exactly where it was there and its tasks
/// reported nothing; where its queue of reports gave one, and that says that the
/// connection is lost, it is gone, and was ordered to close.
pub proof fn law_reported_clients_are_gone(
    mid: ServerEndpointView,
    post: ServerEndpointView,
    reported: Seq<ClientId>,
    id: ClientId,
)
    requires
        surveys(mid, post, reported),
    ensures
        post.clients.contains_key(id) <==> mid.clients.contains_key(id) && !reported.contains(id),
        reported.contains(id) ==> mid.clients.contains_key(id) && (exists|heard: bool|
            listeners_told(mid.clients[id].ends.close_send, CloseReason::LocalOrder, heard)),
        reported.contains(id) ==> exists|
            answers: Seq<Result<ChannelAsyncMessage, RecvFailure>>,
            left: mpsc::Receiver<ChannelAsyncMessage>,
        | #[trigger]
            only_gave(mid.clients[id].reports_left, answers, left) && answers.len() > 0
                && answers[0] == Ok::<ChannelAsyncMessage, RecvFailure>(
                ChannelAsyncMessage::LostConnection,
            ),
        post.clients.contains_key(id) ==> post.clients[id].reports.len()
            == mid.clients[id].reports.len() + 1 && post.clients[id].reports.last() is Err
            && post.clients[id].channels == mid.clients[id].channels && post.clients[id].buffers
            == mid.clients[id].buffers && post.clients[id].close_orders
            == mid.clients[id].close_orders,
        post.stats.connect_count == mid.stats.connect_count,
        post.stats.disconnect_count == mid.stats.disconnect_count + reported.len(),
        reported.no_duplicates(),
{
    if reported.contains(id) {
        let (answers, left) = choose|
            answers: Seq<Result<ChannelAsyncMessage, RecvFailure>>,
            left: mpsc::Receiver<ChannelAsyncMessage>,
        | #[trigger]
            only_gave(mid.clients[id].reports_left, answers, left) && answers.len() > 0
                && answers.first() == Ok::<ChannelAsyncMessage, RecvFailure>(
                ChannelAsyncMessage::LostConnection,
            );
        assert(only_gave(mid.clients[id].reports_left, answers, left));
        assert(answers[0] == answers.first());
    }
    if post.clients.contains_key(id) {
        crate::client::calls::law_what_came(
            mid.clients[id].reports,
            post.clients[id].reports,
            Seq::empty(),
            usize::MAX as int,
            post.clients[id].reports.len() - 1,
        );
    }
}

/// Once cleared, nothing waits of any client, on any channel; clients and channels stay.
pub proof fn law_cleared_clients_have_nothing_to_read(id: ClientId, channel: ChannelId)
    ensures
        forall|e: &mut ServerEndpoint, done: ()| #[trigger]
            call_ensures(ServerEndpoint::clear_payloads_from_clients, (e,), done) ==> {
                &&& final(e)@.clients.contains_key(id) <==> (*e)@.clients.contains_key(id)
                &&& (*e)@.clients.contains_key(id) ==> final(
                    e
                )@.clients[id].buffers[channel].len() == 0 && final(e)@.clients[id].channels == (
                *e)@.clients[id].channels && final(e)@.clients[id].specific == (
                *e)@.clients[id].specific
                &&& final(e)@.stats == (*e)@.stats
                &&& final(e)@.opened_channels == (*e)@.opened_channels
            },
        forall|server: &mut IrohServer, done: ()| #[trigger]
            call_ensures(clear_stale_received_payloads, (server,), done) && (
            *server).endpoint is Some && (*server).endpoint->0@.clients.contains_key(id) ==> {
                let pre = (*server).endpoint->0@;
                let post = final(server).endpoint->0@;
                &&& final(server).endpoint is Some
                &&& post.clients.contains_key(id)
                &&& pre.recv_channels_cfg.clear_stale_received_payloads
                    ==> post.clients[id].buffers[channel].len() == 0
                &&& !pre.recv_channels_cfg.clear_stale_received_payloads
                    ==> post.clients[id].buffers[channel] == pre.clients[id].buffers[channel]
            },
{
}

/// An error that is passed on keeps what it says.
pub proof fn law_server_errors_convert(
    send: ConnectionSendError,
    sent: ServerSendError,
    group: ServerGroupSendError,
    received: ServerReceiveError,
    queue: AsyncChannelError,
    unbound: iroh::endpoint::BindError,
    start: EndpointStartError,
)
    ensures
        call_ensures(<ServerSendError as From<ConnectionSendError>>::from, (send,), sent) ==> sent
            == ServerSendError::ConnectionSendError(send),
        forall|r: ServerPayloadSendError| #[trigger]
            call_ensures(<ServerPayloadSendError as From<ServerSendError>>::from, (sent,), r) ==> r
                == ServerPayloadSendError::SendError(sent),
        forall|r: ServerMessageSendError| #[trigger]
            call_ensures(<ServerMessageSendError as From<ServerSendError>>::from, (sent,), r) ==> r
                == ServerMessageSendError::SendError(sent),
        forall|r: ServerGroupPayloadSendError| #[trigger]
            call_ensures(
                <ServerGroupPayloadSendError as From<ServerGroupSendError>>::from,
                (group,),
                r,
            ) ==> r == ServerGroupPayloadSendError::GroupSendError(group),
        forall|r: ServerGroupMessageSendError| #[trigger]
            call_ensures(
                <ServerGroupMessageSendError as From<ServerGroupSendError>>::from,
                (group,),
                r,
            ) ==> r == ServerGroupMessageSendError::GroupSendError(group),
        forall|r: ServerMessageReceiveError| #[trigger]
            call_ensures(
                <ServerMessageReceiveError as From<ServerReceiveError>>::from,
                (received,),
                r,
            ) ==> r == ServerMessageReceiveError::ReceiveError(received),
        call_ensures(<EndpointStartError as From<AsyncChannelError>>::from, (queue,), start)
            ==> start == EndpointStartError::AsyncChannelError(queue),
        forall|io: std::io::Error| #[trigger]
            call_ensures(<EndpointStartError as From<std::io::Error>>::from, (io,), start) ==> start
                == EndpointStartError::IoError(io),
        call_ensures(
            <EndpointStartError as From<iroh::endpoint::BindError>>::from,
            (unbound,),
            start,
        ) ==> (start matches EndpointStartError::BindError(text) && text@
            == crate::server::error::bind_error_text(unbound)),
{
}

} // verus!
