//! What each call on a client or on one of its connections comes to, in terms of what
//! goes into it and what comes out.

#[allow(unused_imports)]
use bytes::Bytes;
#[allow(unused_imports)]
use iroh::endpoint::ConnectError;
#[allow(unused_imports)]
use iroh::{Endpoint, EndpointAddr, RelayUrl};
#[allow(unused_imports)]
use tokio::sync::{broadcast, mpsc};
use vstd::prelude::*;
#[allow(unused_imports)]
use vstd::std_specs::iter::IteratorSpec;

#[allow(unused_imports)]
use crate::client::connection::client_id::{
    client_id_from_frame, receive_client_id, ClientIdEvent, ClientIdReception,
};
#[allow(unused_imports)]
use crate::client::connection::connecting::{
    addr_id, addr_transports, connect_address, connect_error_text, connecting_step,
    connection_failed, leads_to, needs_relay, reception_message, relay_transport, search_relay,
    signal_connected, signal_reception, watching_step, ConnectingAction, ConnectingEvent,
    ConnectingState, RelaySearch, WatchingAction, WatchingState,
};
#[allow(unused_imports)]
use crate::client::connection::create_client_connection_async_channels;
#[allow(unused_imports)]
use crate::client::connection::events::{
    inputs, is_client_trace, ClientEvents, ClientEventsView, ClientInput, ClientStep,
};
#[allow(unused_imports)]
use crate::client::connection::{
    ids_after, numbered, ClientConnection, ClientConnectionView, ClientSideConnection,
    ConnectionEvent, ConnectionFailedEvent, ConnectionLocalId, ConnectionLostEvent,
    ConnectionState, ConnectionTaskData, InternalConnectionState,
};
#[allow(unused_imports)]
use crate::client::error::{ClientPayloadSendError, ClientSendError, ConnectionClosed};
#[allow(unused_imports)]
use crate::client::{
    clear_stale_received_payloads, client_connected, client_connecting, client_just_connected,
    client_just_disconnected, connection_error_text, dispatch_received_payloads, events_of,
    handle_client_events, ClientAsyncMessage, ClientConnectionCloseError, ClientRecvChannelError,
    IrohClient, IrohClientView, IrohConnectionError,
};
#[allow(unused_imports)]
use crate::config::IrohClientConnectionConfig;
#[allow(unused_imports)]
use crate::shared::calls::{came, lemma_batch_came};
#[allow(unused_imports)]
use crate::shared::channels::{
    links_for, ChannelAsyncMessage, ChannelConfig, ChannelId, ChannelSyncMessage, CloseReason,
    Link, SendChannelsConfiguration,
};
#[allow(unused_imports)]
use crate::shared::error::{
    AsyncChannelError, ChannelCloseError, ChannelCreationError, ConnectionAlreadyClosed,
    ConnectionSendError,
};
#[allow(unused_imports)]
use crate::shared::laws::{full_count, law_dispatch_keeps_order, law_linked_channels, of_channel};
#[allow(unused_imports)]
use crate::shared::listing::lists_keys;
#[allow(unused_imports)]
use crate::shared::payload::{big_endian, payload_bytes};
#[allow(unused_imports)]
use crate::shared::peer_connection::{ChannelsIdsPoolView, PeerConnectionView};
#[allow(unused_imports)]
use crate::shared::queues::{
    broadcast_halves, listeners_told, mpsc_halves, only_gave, queue_answered, Answer, Batch,
    RecvFailure,
};
#[allow(unused_imports)]
use crate::shared::{
    ClientId, InternalConnectionRef, DEFAULT_INTERNAL_MESSAGES_CHANNEL_SIZE,
    DEFAULT_KILL_MESSAGE_QUEUE_SIZE, DEFAULT_MESSAGE_QUEUE_SIZE,
    DEFAULT_QCHANNEL_MESSAGES_CHANNEL_SIZE,
};

verus! {

/// What sending `bytes` on channel `id` does to a connection, in any state: nothing on
/// one that is disconnected, or where the channel is not registered. Otherwise the
/// queue of the channel was offered the bytes; they are the last that it took where `r`
/// is `Ok`, and were refused where it is not.
pub open spec fn sends_on(
    pre: PeerConnectionView<ClientConnectionView>,
    post: PeerConnectionView<ClientConnectionView>,
    id: ChannelId,
    bytes: Seq<u8>,
    r: Result<(), ClientSendError>,
) -> bool {
    &&& r is Ok <==> {
        &&& !(pre.specific.state is Disconnected)
        &&& pre.channels.contains_key(id)
        &&& post.channels.contains_key(id)
        &&& post.channels[id].sent() == pre.channels[id].sent().push(bytes)
        &&& post.channels[id].sends == pre.channels[id].sends.push((bytes, Answer::Taken))
    }
    &&& pre.specific.state is Disconnected <==> r == Err::<(), _>(ClientSendError::ConnectionClosed)
    &&& r == Err::<(), _>(
        ClientSendError::ConnectionSendError(ConnectionSendError::InvalidChannelId(id)),
    ) <==> !(pre.specific.state is Disconnected) && !pre.channels.contains_key(id)
    &&& match r {
        Err(
            ClientSendError::ConnectionSendError(ConnectionSendError::AsyncChannelError(e)),
        ) => pre.channels.contains_key(id) && post.channels[id].sends
            == pre.channels[id].sends.push((bytes, Answer::Refused(e))) && post.channels[id].sent()
            == pre.channels[id].sent(),
        Err(
            ClientSendError::ConnectionSendError(ConnectionSendError::InvalidChannelId(bad)),
        ) => bad == id && post == pre,
        Err(ClientSendError::ConnectionClosed) => post == pre,
        Ok(_) => true,
    }
    &&& post == (PeerConnectionView { channels: post.channels, ..pre })
    &&& post.channels.dom() == pre.channels.dom()
    &&& forall|other: ChannelId|
        other != id && pre.channels.contains_key(other) ==> #[trigger] post.channels[other]
            == pre.channels[other]
    &&& pre.channels.contains_key(id) ==> post.channels[id].id == pre.channels[id].id
        && post.channels[id].stops == pre.channels[id].stops && post.channels[id].payload_half
        == pre.channels[id].payload_half && post.channels[id].stop_half
        == pre.channels[id].stop_half
}

/// What the contract of sending comes to.
proof fn lemma_sends_on(
    pre: PeerConnectionView<ClientConnectionView>,
    post: PeerConnectionView<ClientConnectionView>,
    id: ChannelId,
    bytes: Seq<u8>,
    r: Result<(), ClientSendError>,
)
    requires
        pre.client_send_possible(id, r),
        post == pre.after_client_send(id, bytes, r),
    ensures
        sends_on(pre, post, id, bytes, r),
{
    assert(post.channels.dom() =~= pre.channels.dom());
    if pre.channels.contains_key(id) && !(pre.specific.state is Disconnected) {
        assert(post.channels[id].sends.drop_last() =~= pre.channels[id].sends);
        if r is Ok {
            assert(r->Ok_0 == ());
        } else {
            assert(post.channels[id].sends.last().1 is Refused);
        }
    }
}

/// A payload that is sent on a connection which is not disconnected, connecting or
/// connected, is the last one that the queue of its channel took, where the result is
/// `Ok`. See [`sends_on`] for the rest.
pub proof fn law_client_send(channel_id: ChannelId, payload: Bytes)
    ensures
        forall|c: &mut ClientSideConnection, r: Result<(), ClientSendError>| #[trigger]
            call_ensures(ClientSideConnection::send_payload_on, (c, channel_id, payload), r)
                ==> sends_on((*c)@, final(c)@, channel_id, payload_bytes(payload), r),
        forall|c: &mut ClientSideConnection, done: ()| #[trigger]
            call_ensures(ClientSideConnection::try_send_payload_on, (c, channel_id, payload), done)
                ==> exists|r: Result<(), ClientSendError>| #[trigger]
                sends_on((*c)@, final(c)@, channel_id, payload_bytes(payload), r),
        forall|c: &mut ClientSideConnection, r: Result<(), ClientPayloadSendError>| #[trigger]
            call_ensures(ClientSideConnection::send_payload, (c, payload), r) ==> match (
            *c)@.specific.send_channel_ids.default_channel {
                Some(channel) => {
                    &&& r != Err::<(), _>(ClientPayloadSendError::NoDefaultChannel)
                    &&& sends_on(
                        (*c)@,
                        final(c)@,
                        channel,
                        payload_bytes(payload),
                        match r {
                            Err(ClientPayloadSendError::SendError(e)) => Err(e),
                            _ => Ok(()),
                        },
                    )
                },
                None => r == Err::<(), _>(ClientPayloadSendError::NoDefaultChannel) && final(c)@
                    == (*c)@,
            },
        forall|c: &mut ClientSideConnection, done: ()| #[trigger]
            call_ensures(ClientSideConnection::try_send_payload, (c, payload), done) ==> match (
            *c)@.specific.send_channel_ids.default_channel {
                Some(channel) => exists|r: Result<(), ClientSendError>| #[trigger]
                    sends_on((*c)@, final(c)@, channel, payload_bytes(payload), r),
                None => final(c)@ == (*c)@,
            },
{
    let bytes = payload_bytes(payload);
    assert forall|c: &mut ClientSideConnection, r: Result<(), ClientSendError>| #[trigger]
        call_ensures(
            ClientSideConnection::send_payload_on,
            (c, channel_id, payload),
            r,
        ) implies sends_on((*c)@, final(c)@, channel_id, bytes, r) by {
        lemma_sends_on((*c)@, final(c)@, channel_id, bytes, r);
    }
    assert forall|c: &mut ClientSideConnection, done: ()| #[trigger]
        call_ensures(
            ClientSideConnection::try_send_payload_on,
            (c, channel_id, payload),
            done,
        ) implies exists|r: Result<(), ClientSendError>| #[trigger]
        sends_on((*c)@, final(c)@, channel_id, bytes, r) by {
        let r = choose|r: Result<(), ClientSendError>| #[trigger]
            (*c)@.client_send_possible(channel_id, r) && final(c)@ == (*c)@.after_client_send(
                channel_id,
                bytes,
                r,
            );
        lemma_sends_on((*c)@, final(c)@, channel_id, bytes, r);
    }
    assert forall|c: &mut ClientSideConnection, r: Result<(), ClientPayloadSendError>| #[trigger]
        call_ensures(ClientSideConnection::send_payload, (c, payload), r) && (
        *c)@.specific.send_channel_ids.default_channel is Some implies sends_on(
        (*c)@,
        final(c)@,
        (*c)@.specific.send_channel_ids.default_channel->0,
        bytes,
        match r {
            Err(ClientPayloadSendError::SendError(e)) => Err(e),
            _ => Ok(()),
        },
    ) by {
        lemma_sends_on(
            (*c)@,
            final(c)@,
            (*c)@.specific.send_channel_ids.default_channel->0,
            bytes,
            match r {
                Err(ClientPayloadSendError::SendError(e)) => Err(e),
                _ => Ok(()),
            },
        );
    }
    assert forall|c: &mut ClientSideConnection, done: ()| #[trigger]
        call_ensures(ClientSideConnection::try_send_payload, (c, payload), done) && (
        *c)@.specific.send_channel_ids.default_channel is Some implies exists|
        r: Result<(), ClientSendError>,
    | #[trigger]
        sends_on(
            (*c)@,
            final(c)@,
            (*c)@.specific.send_channel_ids.default_channel->0,
            bytes,
            r,
        ) by {
        let channel = (*c)@.specific.send_channel_ids.default_channel->0;
        let r = choose|r: Result<(), ClientSendError>| #[trigger]
            (*c)@.client_send_possible(channel, r) && final(c)@ == (*c)@.after_client_send(
                channel,
                bytes,
                r,
            );
        lemma_sends_on((*c)@, final(c)@, channel, bytes, r);
    }
}

/// What disconnecting does to a connection: one that is connecting or connected is
/// disconnected then, and its tasks were ordered to close it for `reason`, which one of
/// them has `heard` or not. One that is disconnected stays as it is.
pub open spec fn disconnects(
    pre: PeerConnectionView<ClientConnectionView>,
    post: PeerConnectionView<ClientConnectionView>,
    reason: CloseReason,
    heard: bool,
) -> bool {
    &&& post.specific.state is Disconnected
    &&& pre.specific.state is Disconnected ==> post == pre && heard
    &&& !(pre.specific.state is Disconnected) ==> {
        &&& listeners_told(pre.ends.close_send, reason, heard)
        &&& post.close_orders == pre.close_orders.push((reason, heard))
    }
    &&& post == (PeerConnectionView {
        specific: ClientConnectionView {
            state: InternalConnectionState::Disconnected,
            ..pre.specific
        },
        close_orders: post.close_orders,
        ..pre
    })
}

/// A connection that is disconnected, whatever its state, is disconnected then. Where
/// it was connecting or connected, its tasks were told: for a local order, or because
/// the peer closed it; the result of the first says whether one of them heard it.
pub proof fn law_client_disconnect(r: Result<(), ClientConnectionCloseError>)
    ensures
        forall|c: &mut ClientSideConnection| #[trigger]
            call_ensures(ClientSideConnection::disconnect, (c,), r) ==> {
                &&& disconnects((*c)@, final(c)@, CloseReason::LocalOrder, r is Ok)
                &&& r matches Err(e) ==> e is ConnectionAlreadyClosed
            },
        forall|c: &mut ClientSideConnection, done: ()| #[trigger]
            call_ensures(ClientSideConnection::try_disconnect, (c,), done) ==> exists|heard: bool|
                #[trigger] disconnects((*c)@, final(c)@, CloseReason::LocalOrder, heard),
        forall|c: &mut ClientSideConnection, done: ()| #[trigger]
            call_ensures(ClientSideConnection::try_disconnect_closed_connection, (c,), done)
                ==> exists|heard: bool| #[trigger]
                disconnects((*c)@, final(c)@, CloseReason::PeerClosed, heard),
        forall|pre: PeerConnectionView<ClientConnectionView>, reason: CloseReason, heard: bool|
            #[trigger] pre.was_disconnected(reason, heard) ==> if pre.specific.state is Disconnected {
                heard
            } else {
                listeners_told(pre.ends.close_send, reason, heard)
            },
{
    assert forall|c: &mut ClientSideConnection, done: ()| #[trigger]
        call_ensures(ClientSideConnection::try_disconnect, (c,), done) implies exists|heard: bool|
        #[trigger] disconnects((*c)@, final(c)@, CloseReason::LocalOrder, heard) by {
        let heard = choose|heard: bool| #[trigger]
            final(c)@.disconnected((*c)@, CloseReason::LocalOrder, heard);
        assert(disconnects((*c)@, final(c)@, CloseReason::LocalOrder, heard));
    }
    assert forall|c: &mut ClientSideConnection, done: ()| #[trigger]
        call_ensures(
            ClientSideConnection::try_disconnect_closed_connection,
            (c,),
            done,
        ) implies exists|heard: bool| #[trigger]
        disconnects((*c)@, final(c)@, CloseReason::PeerClosed, heard) by {
        let heard = choose|heard: bool| #[trigger]
            final(c)@.disconnected((*c)@, CloseReason::PeerClosed, heard);
        assert(disconnects((*c)@, final(c)@, CloseReason::PeerClosed, heard));
    }
}

/// A request for a channel was offered to the tasks of a connection, last of all that
/// were, and `r` is what they answered. Where they took it, the channel is registered
/// under its id, with the other halves of its queues, and has not been used; the other
/// channels stay.
pub open spec fn asks_for<V>(
    pre: PeerConnectionView<V>,
    post: PeerConnectionView<V>,
    id: ChannelId,
    config: ChannelConfig,
    r: Result<(), AsyncChannelError>,
) -> bool {
    &&& post.requests.len() == pre.requests.len() + 1
    &&& post.requests.drop_last() == pre.requests
    &&& post.requests.last().0->id == id
    &&& post.requests.last().0->config == config
    &&& queue_answered(pre.ends.to_channels_send, post.requests.last().0, r)
    &&& post.requests.last().1 == match r {
        Ok(_) => Answer::Taken,
        Err(e) => Answer::Refused(e),
    }
    &&& r is Err ==> post.channels == pre.channels
    &&& r is Ok ==> {
        &&& post.channels.contains_key(id)
        &&& post.channels[id].id == id
        &&& post.channels[id].sends.len() == 0
        &&& post.channels[id].stops.len() == 0
        &&& mpsc_halves(
            DEFAULT_MESSAGE_QUEUE_SIZE,
            post.channels[id].payload_half,
            post.requests.last().0->bytes_to_channel_recv,
        )
        &&& mpsc_halves(
            1,
            post.channels[id].stop_half,
            post.requests.last().0->channel_close_recv,
        )
        &&& forall|other: ChannelId|
            other != id ==> (#[trigger] post.channels.contains_key(other)
                <==> pre.channels.contains_key(other))
        &&& forall|other: ChannelId|
            other != id && pre.channels.contains_key(other) ==> #[trigger] post.channels[other]
                == pre.channels[other]
    }
}

/// What asking for a channel comes to.
pub(crate) proof fn lemma_asks_for<V>(
    pre: PeerConnectionView<V>,
    post: PeerConnectionView<V>,
    id: ChannelId,
    config: ChannelConfig,
    r: Result<(), AsyncChannelError>,
)
    requires
        match r {
            Ok(_) => exists|link: Link| #[trigger]
                link.made_for(id, config) && pre.took(link.request) && post == pre.link(link),
            Err(e) => post.refused(pre, id, config, e),
        },
    ensures
        asks_for(pre, post, id, config, r),
{
    assert(post.requests.drop_last() =~= pre.requests);
    if r is Ok {
        assert(r->Ok_0 == ());
        assert(r == Ok::<(), AsyncChannelError>(()));
    }
}

/// What opening a channel under `id` does to a connection: the id is the smallest that
/// was free, and is not free then; it is the default channel where there was none. The
/// tasks were asked for the channel, and `r` is what they answered.
pub open spec fn opens_under(
    pre: PeerConnectionView<ClientConnectionView>,
    post: PeerConnectionView<ClientConnectionView>,
    id: ChannelId,
    config: ChannelConfig,
    r: Result<(), AsyncChannelError>,
) -> bool {
    &&& pre.specific.send_channel_ids.available.contains(id)
    &&& forall|k: ChannelId|
        k < id ==> !(#[trigger] pre.specific.send_channel_ids.available.contains(k))
    &&& post.specific.send_channel_ids.available
        == pre.specific.send_channel_ids.available.remove(id)
    &&& post.specific.send_channel_ids.default_channel
        == match pre.specific.send_channel_ids.default_channel {
        None => Some(id),
        Some(default) => Some(default),
    }
    &&& post.specific == (ClientConnectionView {
        send_channel_ids: post.specific.send_channel_ids,
        ..pre.specific
    })
    &&& post == (PeerConnectionView {
        specific: post.specific,
        channels: post.channels,
        requests: post.requests,
        ..pre
    })
    &&& asks_for(pre, post, id, config, r)
}

/// A channel is opened under the smallest id that is free, with the config that is
/// given, and the result is what the tasks answer. Only where no id is free, nothing is
/// asked.
pub proof fn law_client_open_channel(
    config: ChannelConfig,
    r: Result<ChannelId, ChannelCreationError>,
)
    ensures
        forall|c: &mut ClientSideConnection| #[trigger]
            call_ensures(ClientSideConnection::open_channel, (c, config), r) ==> match r {
                Ok(id) => opens_under((*c)@, final(c)@, id, config, Ok(())),
                Err(ChannelCreationError::AsyncChannelError(e)) => exists|spent: ChannelId|
                    #[trigger] opens_under((*c)@, final(c)@, spent, config, Err(e)),
                Err(ChannelCreationError::MaxChannelsCountReached) => final(c)@ == (*c)@ && (
                forall|k: ChannelId| !(
                #[trigger] (*c)@.specific.send_channel_ids.available.contains(k))),
            },
{
    assert forall|c: &mut ClientSideConnection| #[trigger]
        call_ensures(ClientSideConnection::open_channel, (c, config), r) implies match r {
        Ok(id) => opens_under((*c)@, final(c)@, id, config, Ok(())),
        Err(ChannelCreationError::AsyncChannelError(e)) => exists|spent: ChannelId| #[trigger]
            opens_under((*c)@, final(c)@, spent, config, Err(e)),
        Err(ChannelCreationError::MaxChannelsCountReached) => true,
    } by {
        let ids = (*c)@.specific.send_channel_ids;
        match r {
            Ok(id) => {
                lemma_asks_for((*c)@.with_ids(ids.take(id)), final(c)@, id, config, Ok(()));
            },
            Err(ChannelCreationError::AsyncChannelError(e)) => {
                let id = choose|id: ChannelId| #[trigger]
                    (*c)@.specific.send_channel_ids.is_next(id) && final(c)@.refused(
                        (*c)@.with_ids((*c)@.specific.send_channel_ids.take(id)),
                        id,
                        config,
                        e,
                    );
                lemma_asks_for((*c)@.with_ids(ids.take(id)), final(c)@, id, config, Err(e));
                assert(opens_under((*c)@, final(c)@, id, config, Err(e)));
            },
            Err(ChannelCreationError::MaxChannelsCountReached) => {},
        }
    }
}

/// A channel that is closed is gone, and its task was ordered to stop; the result is
/// what the queue for that answered. Its id is free then where the task took the order.
/// Only a registered channel can be closed.
pub proof fn law_client_close_channel(id: ChannelId, r: Result<(), ChannelCloseError>)
    ensures
        forall|c: &mut ClientSideConnection| #[trigger]
            call_ensures(ClientSideConnection::close_channel, (c, id), r) ==> {
                let pre = (*c)@;
                let post = final(c)@;
                let ids = pre.specific.send_channel_ids;
                let left = post.specific.send_channel_ids;
                &&& !post.channels.contains_key(id)
                &&& forall|other: ChannelId|
                    other != id ==> (#[trigger] post.channels.contains_key(other)
                        <==> pre.channels.contains_key(other))
                &&& forall|other: ChannelId|
                    other != id && pre.channels.contains_key(other) ==> #[trigger]
                    post.channels[other] == pre.channels[other]
                &&& post.specific == (ClientConnectionView {
                    send_channel_ids: left,
                    ..pre.specific
                })
                &&& post == (PeerConnectionView {
                    specific: post.specific,
                    channels: post.channels,
                    ..pre
                })
                &&& match r {
                    Ok(_) => {
                        &&& pre.channels.contains_key(id)
                        &&& queue_answered(pre.channels[id].stop_half, (), Ok(()))
                        &&& left.available == ids.available.insert(id)
                        &&& left.default_channel == if ids.default_channel == Some(id) {
                            None
                        } else {
                            ids.default_channel
                        }
                    },
                    Err(ChannelCloseError::AsyncChannelError(e)) => {
                        &&& pre.channels.contains_key(id)
                        &&& queue_answered(pre.channels[id].stop_half, (), Err(e))
                        &&& left == ids
                    },
                    Err(ChannelCloseError::InvalidChannelId(bad)) => {
                        &&& bad == id
                        &&& !pre.channels.contains_key(id)
                        &&& post == pre
                    },
                }
            },
{
}

/// `post` is `pre` once the channels of `configs` are open: channel `i` with exactly
/// `configs[i]`, for each `i`. The tasks took a request for each, in order, and nothing
/// else was asked of them. The ids of the channels are not free, all others are, and
/// the first is the default channel.
pub open spec fn opens_all(
    pre: PeerConnectionView<ClientConnectionView>,
    post: PeerConnectionView<ClientConnectionView>,
    configs: Seq<ChannelConfig>,
) -> bool {
    &&& post.requests.len() == pre.requests.len() + configs.len()
    &&& forall|i: int| 0 <= i < pre.requests.len() ==> post.requests[i] == #[trigger] pre.requests[i]
    &&& forall|i: int|
        0 <= i < configs.len() ==> {
            let request = post.requests[pre.requests.len() + i];
            &&& request.0->id == i
            &&& request.0->config == #[trigger] configs[i]
            &&& request.1 == Answer::Taken
            &&& queue_answered(pre.ends.to_channels_send, request.0, Ok(()))
        }
    &&& forall|id: ChannelId|
        (id as int) < configs.len() ==> #[trigger] post.channels.contains_key(id)
            && post.channels[id].sends.len() == 0 && post.channels[id].stops.len() == 0
    &&& forall|id: ChannelId|
        id as int >= configs.len() ==> (#[trigger] post.channels.contains_key(id)
            <==> pre.channels.contains_key(id))
    &&& forall|id: ChannelId| #[trigger]
        post.specific.send_channel_ids.available.contains(id) <==> id as int >= configs.len()
    &&& post.specific.send_channel_ids.default_channel == if configs.len() == 0 {
        None::<ChannelId>
    } else {
        Some(0 as ChannelId)
    }
    &&& post.specific == (ClientConnectionView {
        send_channel_ids: post.specific.send_channel_ids,
        ..pre.specific
    })
    &&& post == (PeerConnectionView {
        specific: post.specific,
        channels: post.channels,
        requests: post.requests,
        ..pre
    })
}

/// What the configured channels of a connection are.
proof fn lemma_opens_all(
    pre: PeerConnectionView<ClientConnectionView>,
    post: PeerConnectionView<ClientConnectionView>,
    configs: Seq<ChannelConfig>,
)
    requires
        configs.len() <= 256,
        post.configured(pre, configs),
    ensures
        opens_all(pre, post, configs),
{
    let links = choose|links: Seq<Link>| #[trigger]
        links_for(links, numbered(configs)) && pre.took_each(links) && post == pre.link_each(
            links,
        ).with_ids(ids_after(configs.len()));
    let entries = numbered(configs);
    law_linked_channels(pre, links, entries);
    assert forall|i: int| 0 <= i < configs.len() implies {
        let request = post.requests[pre.requests.len() + i];
        &&& request.0->id == i
        &&& request.0->config == #[trigger] configs[i]
        &&& request.1 == Answer::Taken
        &&& queue_answered(pre.ends.to_channels_send, request.0, Ok(()))
    } by {
        assert(links[i].made_for(entries[i].0, entries[i].1));
        assert(pre.took(links[i].request));
        assert(post.requests[pre.requests.len() + i] == (links[i].request, Answer::Taken));
    }
    assert forall|id: ChannelId| (id as int) < configs.len() implies #[trigger]
    post.channels.contains_key(id) && post.channels[id].sends.len() == 0
        && post.channels[id].stops.len() == 0 by {
        assert(entries[id as int].0 == id);
    }
    assert forall|id: ChannelId| id as int >= configs.len() implies (
    #[trigger] post.channels.contains_key(id) <==> pre.channels.contains_key(id)) by {
        assert forall|i: int| 0 <= i < entries.len() implies (#[trigger] entries[i]).0 != id by {
            assert(i as ChannelId == i);
        }
    }
    let linked = pre.link_each(links);
    assert(post.requests.len() == pre.requests.len() + configs.len());
    assert(linked.specific == pre.specific);
    assert(post.specific == (ClientConnectionView {
        send_channel_ids: post.specific.send_channel_ids,
        ..pre.specific
    }));
    assert(post == (PeerConnectionView {
        specific: post.specific,
        channels: post.channels,
        requests: post.requests,
        ..pre
    }));
    assert forall|i: int| 0 <= i < pre.requests.len() implies post.requests[i]
        == #[trigger] pre.requests[i] by {}
    assert(forall|id: ChannelId| #[trigger]
        post.specific.send_channel_ids.available.contains(id) <==> id as int >= configs.len());
    assert(post.specific.send_channel_ids.default_channel == if configs.len() == 0 {
        None::<ChannelId>
    } else {
        Some(0 as ChannelId)
    });
}

/// The first `n` of `configs` were opened, and the tasks refused the next with `e`;
/// its id is free again.
pub open spec fn opens_up_to(
    pre: PeerConnectionView<ClientConnectionView>,
    post: PeerConnectionView<ClientConnectionView>,
    configs: Seq<ChannelConfig>,
    n: int,
    e: AsyncChannelError,
) -> bool {
    &&& 0 <= n < configs.len()
    &&& post.requests.len() == pre.requests.len() + n + 1
    &&& post.requests.last().0->id == n
    &&& post.requests.last().0->config == configs[n]
    &&& post.requests.last().1 == Answer::Refused(e)
    &&& queue_answered(pre.ends.to_channels_send, post.requests.last().0, Err(e))
    &&& opens_all(
        pre,
        PeerConnectionView { requests: post.requests.drop_last(), ..post },
        configs.take(n),
    )
}

/// What a failed opening of the configured channels is.
proof fn lemma_opens_up_to(
    pre: PeerConnectionView<ClientConnectionView>,
    post: PeerConnectionView<ClientConnectionView>,
    configs: Seq<ChannelConfig>,
    e: AsyncChannelError,
)
    requires
        configs.len() <= 256,
        post.opened(pre, configs, Err(e)),
    ensures
        exists|n: int| #[trigger] opens_up_to(pre, post, configs, n, e),
{
    let (n, mid, request) = choose|
        n: int,
        mid: PeerConnectionView<ClientConnectionView>,
        request: ChannelSyncMessage,
    |
        {
            &&& 0 <= n < configs.len()
            &&& #[trigger] mid.configured(pre, configs.take(n))
            &&& #[trigger] pre.turned_down(request, n as ChannelId, configs[n], e)
            &&& post == mid.ask(request, Answer::Refused(e))
        };
    lemma_opens_all(pre, mid, configs.take(n));
    assert(post.requests.drop_last() =~= mid.requests);
    assert(PeerConnectionView { requests: post.requests.drop_last(), ..post } == mid);
    assert(opens_up_to(pre, post, configs, n, e));
}

/// The configured channels are opened as they are configured: channel `i` with exactly
/// the config that stands at index `i`, for each index, or up to the first that the
/// tasks refuse, and then the error is what they answered.
pub proof fn law_open_configured_channels(
    configuration: SendChannelsConfiguration,
    r: Result<(), AsyncChannelError>,
)
    requires
        configuration@.len() <= 256,
    ensures
        forall|c: &mut ClientSideConnection| #[trigger]
            call_ensures(
                ClientSideConnection::open_configured_channels,
                (c, configuration),
                r,
            ) ==> match r {
                Ok(_) => opens_all((*c)@, final(c)@, configuration@),
                Err(e) => exists|n: int| #[trigger]
                    opens_up_to((*c)@, final(c)@, configuration@, n, e),
            },
{
    assert forall|c: &mut ClientSideConnection| #[trigger]
        call_ensures(
            ClientSideConnection::open_configured_channels,
            (c, configuration),
            r,
        ) implies match r {
        Ok(_) => opens_all((*c)@, final(c)@, configuration@),
        Err(e) => exists|n: int| #[trigger]
            opens_up_to((*c)@, final(c)@, configuration@, n, e),
    } by {
        match r {
            Ok(_) => {
                lemma_opens_all((*c)@, final(c)@, configuration@);
            },
            Err(e) => {
                lemma_opens_up_to((*c)@, final(c)@, configuration@, e);
            },
        }
    }
}

/// A connection that has just been made, or made again: it is connecting, has not used
/// its queues, has no channel, and every channel id is free.
pub open spec fn starts(
    start: PeerConnectionView<ClientConnectionView>,
    like: ClientConnectionView,
) -> bool {
    &&& start.specific.state is Connecting
    &&& start.specific.local_id == like.local_id
    &&& start.specific.config == like.config
    &&& start.specific.channels_config == like.channels_config
    &&& start.specific.endpoint == like.endpoint
    &&& start.specific.messages.len() == 0
    &&& start.specific.send_channel_ids.default_channel is None
    &&& forall|id: ChannelId| #[trigger] start.specific.send_channel_ids.available.contains(id)
    &&& forall|id: ChannelId| !(#[trigger] start.channels.contains_key(id))
    &&& forall|id: ChannelId| (#[trigger] start.buffers[id]).len() == 0
    &&& start.requests.len() == 0
    &&& start.close_orders.len() == 0
    &&& start.reports.len() == 0
    &&& start.arrived.len() == 0
}

/// The halves of a task are the other halves of the queues of its connection.
pub open spec fn joined_to(
    task: ConnectionTaskData,
    connection: PeerConnectionView<ClientConnectionView>,
) -> bool {
    &&& mpsc_halves(
        DEFAULT_MESSAGE_QUEUE_SIZE,
        task.bytes_from_server_send,
        connection.ends.bytes_from_peer_recv,
    )
    &&& mpsc_halves(
        DEFAULT_INTERNAL_MESSAGES_CHANNEL_SIZE,
        task.to_sync_client_send,
        connection.specific.messages_half,
    )
    &&& mpsc_halves(
        DEFAULT_INTERNAL_MESSAGES_CHANNEL_SIZE,
        task.from_channels_send,
        connection.ends.from_channels_recv,
    )
    &&& mpsc_halves(
        DEFAULT_QCHANNEL_MESSAGES_CHANNEL_SIZE,
        connection.ends.to_channels_send,
        task.to_channels_recv,
    )
    &&& broadcast_halves(
        DEFAULT_KILL_MESSAGE_QUEUE_SIZE,
        connection.ends.close_send,
        task.close_recv,
    )
}

/// `post` is `pre` once it was started over as `start`, and its configured channels
/// were opened on that, as they are configured; `r` is the result.
pub open spec fn starts_over(
    pre: PeerConnectionView<ClientConnectionView>,
    start: PeerConnectionView<ClientConnectionView>,
    post: PeerConnectionView<ClientConnectionView>,
    r: Result<Option<ConnectionTaskData>, AsyncChannelError>,
) -> bool {
    &&& starts(start, pre.specific)
    &&& start.ends == post.ends
    &&& start.specific.messages_half == post.specific.messages_half
    &&& start.recv_channels_cfg == pre.recv_channels_cfg
    &&& match r {
        Ok(task) => {
            &&& opens_all(start, post, pre.specific.channels_config)
            &&& task is Some
            &&& joined_to(task->0, post)
            &&& task->0.local_id == pre.specific.local_id
            &&& task->0.endpoint == pre.specific.endpoint
            &&& task->0.config@ == pre.specific.config
        },
        Err(e) => exists|n: int| #[trigger]
            opens_up_to(start, post, pre.specific.channels_config, n, e),
    }
}

/// Reconnecting does nothing to a connection that is connecting or connected. One that
/// is disconnected starts over: it is connecting, with the same configuration and with
/// fresh queues, and its configured channels are opened as they are configured; where
/// that succeeds, the task to start has the other halves of these queues.
pub proof fn law_reconnect(r: Result<Option<ConnectionTaskData>, AsyncChannelError>)
    ensures
        forall|c: &mut ClientSideConnection| #[trigger]
            call_ensures(ClientSideConnection::reconnect, (c,), r) && (
            *c)@.specific.channels_config.len() <= 256 ==> if (*c)@.specific.state is Disconnected {
                exists|start: PeerConnectionView<ClientConnectionView>| #[trigger]
                    starts_over((*c)@, start, final(c)@, r)
            } else {
                (r matches Ok(task) && task is None) && final(c)@ == (*c)@
            },
{
    assert forall|c: &mut ClientSideConnection| #[trigger]
        call_ensures(ClientSideConnection::reconnect, (c,), r) && (
        *c)@.specific.channels_config.len() <= 256 && (
        *c)@.specific.state is Disconnected implies exists|
        start: PeerConnectionView<ClientConnectionView>,
    | #[trigger] starts_over((*c)@, start, final(c)@, r) by {
        let pre = (*c)@;
        let post = final(c)@;
        let start = pre.restarted(post.ends, post.specific.messages_half);
        assert(starts(start, pre.specific));
        match r {
            Ok(_) => {
                lemma_opens_all(start, post, pre.specific.channels_config);
            },
            Err(e) => {
                lemma_opens_up_to(start, post, pre.specific.channels_config, e);
            },
        }
        assert(starts_over(pre, start, post, r));
    }
}

/// What reading from a channel does: the payload that has waited longest is read, and
/// gone from the channel; nothing else changes.
pub open spec fn reads<V>(
    pre: PeerConnectionView<V>,
    post: PeerConnectionView<V>,
    id: ChannelId,
    r: Option<Bytes>,
) -> bool {
    &&& r is Some <==> pre.buffers[id].len() > 0
    &&& r matches Some(payload) ==> pre.buffers[id] == seq![payload_bytes(payload)]
        + post.buffers[id]
    &&& r is None ==> post == pre
    &&& forall|other: ChannelId|
        other != id ==> #[trigger] post.buffers[other] == pre.buffers[other]
    &&& post == (PeerConnectionView { buffers: post.buffers, ..pre })
}

/// A connection that is connecting or connected gives what waits on a channel, the one
/// that came first before the others; one that is disconnected gives nothing, and keeps
/// it.
pub proof fn law_client_receive(id: ChannelId)
    ensures
        forall|c: &mut ClientSideConnection, r: Result<Option<Bytes>, ConnectionClosed>| #[trigger]
            call_ensures(ClientSideConnection::receive_payload, (c, id), r) ==> if (
            *c)@.specific.state is Disconnected {
                r is Err && final(c)@ == (*c)@
            } else {
                r is Ok && reads((*c)@, final(c)@, id, r->Ok_0)
            },
        forall|c: &mut ClientSideConnection, r: Option<Bytes>| #[trigger]
            call_ensures(ClientSideConnection::try_receive_payload, (c, id), r) ==> if (
            *c)@.specific.state is Disconnected {
                r is None && final(c)@ == (*c)@
            } else {
                reads((*c)@, final(c)@, id, r)
            },
{
    assert forall|c: &mut ClientSideConnection, r: Result<Option<Bytes>, ConnectionClosed>|
        #[trigger]
        call_ensures(ClientSideConnection::receive_payload, (c, id), r) && !((
        *c)@.specific.state is Disconnected) implies reads((*c)@, final(c)@, id, r->Ok_0) by {
        if (*c)@.buffers[id].len() > 0 {
            let payload = r->Ok_0->0;
            assert(final(c)@.buffers[id] =~= (*c)@.buffers[id].drop_first());
            assert((*c)@.buffers[id] =~= seq![payload_bytes(payload)] + final(c)@.buffers[id]);
        }
    }
    assert forall|c: &mut ClientSideConnection, r: Option<Bytes>| #[trigger]
        call_ensures(ClientSideConnection::try_receive_payload, (c, id), r) && !((
        *c)@.specific.state is Disconnected) implies reads((*c)@, final(c)@, id, r) by {
        if (*c)@.buffers[id].len() > 0 {
            assert(final(c)@.buffers[id] =~= (*c)@.buffers[id].drop_first());
            assert((*c)@.buffers[id] =~= seq![payload_bytes(r->0)] + final(c)@.buffers[id]);
        }
    }
}

/// What the client side of a connection amounts to is what it holds.
pub proof fn law_client_connection_shows_its_data(connection: ClientConnection)
    ensures
        connection@.local_id == connection.local_id,
        connection@.config == connection.config@,
        connection@.channels_config == connection.channels_config@,
        connection@.state == connection.state,
        connection@.send_channel_ids == connection.send_channel_ids@,
        connection@.messages_half == connection.from_async_client_recv.half(),
        connection@.messages == connection.from_async_client_recv.answers(),
        connection@.endpoint == connection.endpoint,
{
}

/// What a connection says of itself is how it is: its state, and while it is connected
/// the id that the server gave to the client, if it shared it, and the established
/// connection; its default channel and its configuration.
pub proof fn law_client_connection_answers(c: ClientSideConnection)
    ensures
        forall|r: ConnectionState| #[trigger]
            call_ensures(ClientSideConnection::state, (&c,), r) ==> {
                &&& r is Connecting <==> c.specific.state is Connecting
                &&& r is Connected <==> c.specific.state is Connected
                &&& r is Disconnected <==> c.specific.state is Disconnected
            },
        forall|r: &InternalConnectionState| #[trigger]
            call_ensures(ClientSideConnection::internal_state, (&c,), r) ==> *r
                == c.specific.state,
        forall|r: Option<ClientId>| #[trigger]
            call_ensures(ClientSideConnection::client_id, (&c,), r) ==> r == match c.specific.state {
                InternalConnectionState::Connected(_, client_id) => client_id,
                _ => None::<ClientId>,
            },
        forall|r: Option<InternalConnectionRef>| #[trigger]
            call_ensures(ClientSideConnection::connection_ref, (&c,), r) ==> r
                == match c.specific.state {
                InternalConnectionState::Connected(connection, _) => Some(connection),
                _ => None::<InternalConnectionRef>,
            },
        forall|r: Option<ChannelId>| #[trigger]
            call_ensures(ClientSideConnection::default_channel, (&c,), r) ==> r
                == c.specific.send_channel_ids.default_channel,
        forall|r: &SendChannelsConfiguration| #[trigger]
            call_ensures(ClientSideConnection::channels_config, (&c,), r) ==> r@
                == c.specific.channels_config@,
        forall|r: &crate::config::IrohClientConnectionConfig| #[trigger]
            call_ensures(ClientSideConnection::client_config, (&c,), r) ==> r@
                == c.specific.config@,
{
}

/// Setting the state or the default channel changes that, and nothing else. Messages of
/// the task are taken as they come: one, or all that there are.
pub proof fn law_client_connection_changes(
    state: InternalConnectionState,
    id: ChannelId,
    r: Result<ClientAsyncMessage, RecvFailure>,
    all: Vec<ClientAsyncMessage>,
)
    ensures
        forall|c: &mut ClientSideConnection, done: ()| #[trigger]
            call_ensures(ClientSideConnection::set_state, (c, state), done) ==> final(c)@ == (
            PeerConnectionView {
                specific: ClientConnectionView { state, ..(*c)@.specific },
                ..(*c)@
            }),
        forall|c: &mut ClientSideConnection, done: ()| #[trigger]
            call_ensures(ClientSideConnection::set_default_channel, (c, id), done) ==> final(c)@
                == (PeerConnectionView {
                specific: ClientConnectionView {
                    send_channel_ids: ChannelsIdsPoolView {
                        default_channel: Some(id),
                        ..(*c)@.specific.send_channel_ids
                    },
                    ..(*c)@.specific
                },
                ..(*c)@
            }),
        forall|c: &mut ClientSideConnection| #[trigger]
            call_ensures(ClientSideConnection::try_recv_from_async, (c,), r) ==> final(c)@ == (
            PeerConnectionView {
                specific: ClientConnectionView {
                    messages: (*c)@.specific.messages.push(r),
                    ..(*c)@.specific
                },
                ..(*c)@
            }),
        forall|c: &mut ClientSideConnection| #[trigger]
            call_ensures(ClientSideConnection::drain_async_messages, (c,), all) ==> {
                &&& came(
                    (*c)@.specific.messages,
                    final(c)@.specific.messages,
                    all@,
                    usize::MAX as int,
                )
                &&& final(c)@ == (PeerConnectionView {
                    specific: ClientConnectionView {
                        messages: final(c)@.specific.messages,
                        ..(*c)@.specific
                    },
                    ..(*c)@
                })
            },
{
    assert forall|c: &mut ClientSideConnection| #[trigger]
        call_ensures(ClientSideConnection::drain_async_messages, (c,), all) implies came(
        (*c)@.specific.messages,
        final(c)@.specific.messages,
        all@,
        usize::MAX as int,
    ) by {
        let batch = choose|messages: Batch<ClientAsyncMessage>| #[trigger]
            messages.complete(usize::MAX) && messages.messages == all@ && final(c)@
                == (*c)@.with_messages(messages);
        lemma_batch_came((*c)@.specific.messages, batch, usize::MAX);
    }
}

/// What one input comes to. A step is `Connected` only for the message that says so, and
/// then the connection is connected with what the message says. A connection that failed
/// is disconnected. Where the connection is closed or lost, whoever reports it, one that
/// is connecting or connected is lost: it is disconnected then, and its tasks were told
/// that the peer closed it; of one that is disconnected, nothing is said, and it stays as
/// it is.
pub open spec fn input_comes_to(
    pre: PeerConnectionView<ClientConnectionView>,
    input: ClientInput,
    step: ClientStep,
    post: PeerConnectionView<ClientConnectionView>,
) -> bool {
    &&& step is Connected <==> (input matches ClientInput::Message(
        ClientAsyncMessage::Connected(_, _),
    ))
    &&& step is Failed <==> (input matches ClientInput::Message(
        ClientAsyncMessage::ConnectionFailed(_),
    ))
    &&& input matches ClientInput::Message(ClientAsyncMessage::Connected(connection, client_id))
        ==> {
        &&& step == ClientStep::Connected(client_id)
        &&& post == (PeerConnectionView {
            specific: ClientConnectionView {
                state: InternalConnectionState::Connected(connection, client_id),
                ..pre.specific
            },
            ..pre
        })
    }
    &&& input matches ClientInput::Message(ClientAsyncMessage::ConnectionFailed(err)) ==> {
        &&& step == ClientStep::Failed(err)
        &&& post == (PeerConnectionView {
            specific: ClientConnectionView {
                state: InternalConnectionState::Disconnected,
                ..pre.specific
            },
            ..pre
        })
    }
    &&& (input is Report || (input matches ClientInput::Message(
        ClientAsyncMessage::ConnectionClosed,
    ))) ==> {
        &&& step is Lost <==> !(pre.specific.state is Disconnected)
        &&& step is Stale <==> pre.specific.state is Disconnected
        &&& exists|heard: bool| #[trigger] disconnects(pre, post, CloseReason::PeerClosed, heard)
    }
}

/// What the contract of handling an input comes to.
proof fn lemma_input_comes_to(
    pre: PeerConnectionView<ClientConnectionView>,
    input: ClientInput,
    step: ClientStep,
    post: PeerConnectionView<ClientConnectionView>,
)
    requires
        post.handles(pre, input, step),
    ensures
        input_comes_to(pre, input, step, post),
{
    if input is Report || (input matches ClientInput::Message(
        ClientAsyncMessage::ConnectionClosed,
    )) {
        if pre.specific.state is Disconnected {
            assert(disconnects(pre, post, CloseReason::PeerClosed, true));
        } else {
            let heard = choose|heard: bool| #[trigger]
                post.disconnected(pre, CloseReason::PeerClosed, heard);
            assert(disconnects(pre, post, CloseReason::PeerClosed, heard));
        }
    }
}

/// A connection goes through its inputs one after the other, and each comes to what it
/// has to; see [`input_comes_to`].
pub open spec fn goes_through(
    states: Seq<PeerConnectionView<ClientConnectionView>>,
    given: Seq<ClientInput>,
    steps: Seq<ClientStep>,
) -> bool {
    &&& states.len() == given.len() + 1
    &&& steps.len() == given.len()
    &&& forall|i: int|
        0 <= i < given.len() ==> input_comes_to(
            states[i],
            given[i],
            #[trigger] steps[i],
            states[i + 1],
        )
}

/// Each input comes to what it has to, one at a time and in a row.
pub proof fn law_handle_inputs(
    input: ClientInput,
    step: ClientStep,
    given: Vec<ClientInput>,
    steps: Vec<ClientStep>,
)
    ensures
        forall|c: &mut ClientSideConnection| #[trigger]
            call_ensures(ClientSideConnection::handle_input, (c, input), step) ==> input_comes_to(
                (*c)@,
                input,
                step,
                final(c)@,
            ),
        forall|c: &mut ClientSideConnection| #[trigger]
            call_ensures(ClientSideConnection::handle_inputs, (c, given), steps) ==> exists|
                states: Seq<PeerConnectionView<ClientConnectionView>>,
            | #[trigger]
                goes_through(states, given@, steps@) && states.first() == (*c)@ && states.last()
                    == final(c)@,
{
    assert forall|c: &mut ClientSideConnection| #[trigger]
        call_ensures(ClientSideConnection::handle_input, (c, input), step) implies input_comes_to(
        (*c)@,
        input,
        step,
        final(c)@,
    ) by {
        lemma_input_comes_to((*c)@, input, step, final(c)@);
    }
    assert forall|c: &mut ClientSideConnection| #[trigger]
        call_ensures(ClientSideConnection::handle_inputs, (c, given), steps) implies exists|
        states: Seq<PeerConnectionView<ClientConnectionView>>,
    | #[trigger]
        goes_through(states, given@, steps@) && states.first() == (*c)@ && states.last()
            == final(c)@ by {
        let states = choose|states: Seq<PeerConnectionView<ClientConnectionView>>| #[trigger]
            is_client_trace(states, given@, steps@) && states[0] == (*c)@ && states.last()
                == final(c)@;
        lemma_goes_through(states, given@, steps@);
    }
}

/// A trace goes through its inputs.
proof fn lemma_goes_through(
    states: Seq<PeerConnectionView<ClientConnectionView>>,
    given: Seq<ClientInput>,
    steps: Seq<ClientStep>,
)
    requires
        is_client_trace(states, given, steps),
    ensures
        goes_through(states, given, steps),
{
    assert forall|i: int| 0 <= i < given.len() implies input_comes_to(
        states[i],
        given[i],
        #[trigger] steps[i],
        states[i + 1],
    ) by {
        assert(states[i + 1].handles(states[i], given[i], steps[i]));
        lemma_input_comes_to(states[i], given[i], steps[i], states[i + 1]);
    }
}

/// All that the tasks of a connection have sent was taken, `messages` and `reports`, and
/// went through the connection: the messages before the reports, each once, in order.
pub open spec fn updates(
    pre: PeerConnectionView<ClientConnectionView>,
    post: PeerConnectionView<ClientConnectionView>,
    messages: Seq<ClientAsyncMessage>,
    reports: Seq<ChannelAsyncMessage>,
    states: Seq<PeerConnectionView<ClientConnectionView>>,
    steps: Seq<ClientStep>,
) -> bool {
    &&& came(pre.specific.messages, post.specific.messages, messages, usize::MAX as int)
    &&& came(pre.reports, post.reports, reports, usize::MAX as int)
    &&& only_gave(
        pre.reports_left,
        post.reports.skip(pre.reports.len() as int),
        states.first().reports_left,
    )
    &&& goes_through(
        states,
        messages.map_values(|m: ClientAsyncMessage| ClientInput::Message(m)) + reports.map_values(
            |r: ChannelAsyncMessage| ClientInput::Report(r),
        ),
        steps,
    )
    &&& states.first() == (PeerConnectionView {
        specific: ClientConnectionView {
            messages: states.first().specific.messages,
            ..pre.specific
        },
        reports: states.first().reports,
        reports_left: states.first().reports_left,
        ..pre
    })
    &&& states.last() == post
}

/// What handling inputs leaves as it is: all that was taken from the queues.
proof fn lemma_going_through_takes_nothing(
    states: Seq<PeerConnectionView<ClientConnectionView>>,
    given: Seq<ClientInput>,
    steps: Seq<ClientStep>,
    at: int,
)
    requires
        goes_through(states, given, steps),
        0 <= at < states.len(),
    ensures
        states[at].specific.messages == states[0].specific.messages,
        states[at].reports == states[0].reports,
    decreases at,
{
    if at > 0 {
        lemma_going_through_takes_nothing(states, given, steps, at - 1);
        assert(input_comes_to(states[at - 1], given[at - 1], steps[at - 1], states[at - 1 + 1]));
        if given[at - 1] is Report || (given[at - 1] matches ClientInput::Message(
            ClientAsyncMessage::ConnectionClosed,
        )) {
            let heard = choose|heard: bool| #[trigger]
                disconnects(states[at - 1], states[at], CloseReason::PeerClosed, heard);
            assert(disconnects(states[at - 1], states[at], CloseReason::PeerClosed, heard));
        }
    }
}

/// What the contract of an update comes to.
pub(crate) proof fn lemma_updates(
    pre: PeerConnectionView<ClientConnectionView>,
    post: PeerConnectionView<ClientConnectionView>,
    steps: Seq<ClientStep>,
)
    requires
        post.updated(pre, steps),
    ensures
        exists|
            messages: Seq<ClientAsyncMessage>,
            reports: Seq<ChannelAsyncMessage>,
            states: Seq<PeerConnectionView<ClientConnectionView>>,
        | #[trigger]
            updates(pre, post, messages, reports, states, steps),
{
    let (messages, reports, states) = choose|
        messages: Batch<ClientAsyncMessage>,
        reports: Batch<ChannelAsyncMessage>,
        states: Seq<PeerConnectionView<ClientConnectionView>>,
    |
        {
            &&& messages.complete(usize::MAX)
            &&& pre.gave_reports(reports, states[0].reports_left)
            &&& #[trigger] is_client_trace(
                states,
                inputs(messages.messages, reports.messages),
                steps,
            )
            &&& states[0] == pre.with_messages(messages).with_reports(
                reports,
                states[0].reports_left,
            )
            &&& states.last() == post
        };
    let given = inputs(messages.messages, reports.messages);
    lemma_goes_through(states, given, steps);
    lemma_going_through_takes_nothing(states, given, steps, states.len() - 1);
    lemma_batch_came(pre.specific.messages, messages, usize::MAX);
    lemma_batch_came(pre.reports, reports, usize::MAX);
    assert(post.reports.skip(pre.reports.len() as int) =~= reports.answers());
    assert(given =~= messages.messages.map_values(
        |m: ClientAsyncMessage| ClientInput::Message(m),
    ) + reports.messages.map_values(|r: ChannelAsyncMessage| ClientInput::Report(r)));
    assert(updates(pre, post, messages.messages, reports.messages, states, steps));
}

/// An update takes all that the tasks of a connection have sent, and handles it; see
/// [`updates`].
pub proof fn law_client_connection_update(steps: Vec<ClientStep>)
    ensures
        forall|c: &mut ClientSideConnection| #[trigger]
            call_ensures(ClientSideConnection::update, (c,), steps) ==> exists|
                messages: Seq<ClientAsyncMessage>,
                reports: Seq<ChannelAsyncMessage>,
                states: Seq<PeerConnectionView<ClientConnectionView>>,
            | #[trigger]
                updates((*c)@, final(c)@, messages, reports, states, steps@),
{
    assert forall|c: &mut ClientSideConnection| #[trigger]
        call_ensures(ClientSideConnection::update, (c,), steps) implies exists|
        messages: Seq<ClientAsyncMessage>,
        reports: Seq<ChannelAsyncMessage>,
        states: Seq<PeerConnectionView<ClientConnectionView>>,
    | #[trigger] updates((*c)@, final(c)@, messages, reports, states, steps@) by {
        lemma_updates((*c)@, final(c)@, steps@);
    }
}

/// The events of one connection among those of a client, in order.
pub open spec fn events_about(events: ClientEventsView, id: ConnectionLocalId) -> ClientEventsView {
    ClientEventsView {
        connected: events.connected.filter(|e: ConnectionEvent| e.id == id),
        failed: events.failed.filter(|e: ConnectionFailedEvent| e.id == id),
        lost: events.lost.filter(|e: ConnectionLostEvent| e.id == id),
    }
}

/// The events that the steps of a connection stand for: one for each time that it
/// connected, with the id of the client that came with it; one for each time that it
/// failed, with why; and one for each time that it was lost.
pub open spec fn events_for(id: ConnectionLocalId, steps: Seq<ClientStep>) -> ClientEventsView {
    ClientEventsView {
        connected: steps.filter(|s: ClientStep| s is Connected).map_values(
            |s: ClientStep| ConnectionEvent { id, client_id: s->Connected_0 },
        ),
        failed: steps.filter(|s: ClientStep| s is Failed).map_values(
            |s: ClientStep| ConnectionFailedEvent { id, err: s->Failed_0 },
        ),
        lost: steps.filter(|s: ClientStep| s is Lost).map_values(
            |s: ClientStep| ConnectionLostEvent { id },
        ),
    }
}

/// The events of two lots, one lot behind the other.
pub open spec fn followed_by(first: ClientEventsView, second: ClientEventsView) -> ClientEventsView {
    ClientEventsView {
        connected: first.connected + second.connected,
        failed: first.failed + second.failed,
        lost: first.lost + second.lost,
    }
}

/// Events of no connection but this one are added by its steps.
proof fn lemma_events_for(
    events: ClientEventsView,
    id: ConnectionLocalId,
    steps: Seq<ClientStep>,
    other: ConnectionLocalId,
)
    ensures
        events.after_steps(id, steps) =~= followed_by(events, events_for(id, steps)),
        events_about(events.after_steps(id, steps), other) =~= if other == id {
            followed_by(events_about(events, other), events_for(id, steps))
        } else {
            events_about(events, other)
        },
    decreases steps.len(),
{
    reveal(Seq::filter);
    let post = events.after_steps(id, steps);
    if steps.len() > 0 {
        lemma_events_for(events, id, steps.drop_last(), other);
        let mid = events.after_steps(id, steps.drop_last());
        match steps.last() {
            ClientStep::Connected(client_id) => {
                assert(post.connected.drop_last() =~= mid.connected);
            },
            ClientStep::Failed(err) => {
                assert(post.failed.drop_last() =~= mid.failed);
            },
            ClientStep::Lost => {
                assert(post.lost.drop_last() =~= mid.lost);
            },
            ClientStep::Stale => {},
        }
    }
}

/// No events of a connection that has no steps.
proof fn lemma_no_events(id: ConnectionLocalId)
    ensures
        events_about(ClientEventsView::none(), id) =~= ClientEventsView::none(),
        events_for(id, Seq::empty()) =~= ClientEventsView::none(),
{
    reveal(Seq::filter);
}

/// Steps are turned into events one by one, each for what it is; a stale step has none.
pub proof fn law_events(id: ConnectionLocalId, steps: Vec<ClientStep>)
    ensures
        forall|events: &mut ClientEvents, done: ()| #[trigger]
            call_ensures(ClientEvents::push_steps, (events, id, steps), done) ==> {
                &&& final(events).connection_events@ == (*events).connection_events@ + events_for(
                    id,
                    steps@,
                ).connected
                &&& final(events).connection_failed_events@ == (
                *events).connection_failed_events@ + events_for(id, steps@).failed
                &&& final(events).connection_lost_events@ == (*events).connection_lost_events@
                    + events_for(id, steps@).lost
            },
        forall|events: ClientEvents| #[trigger]
            call_ensures(ClientEvents::new, (), events) ==> events.connection_events@.len() == 0
                && events.connection_failed_events@.len() == 0
                && events.connection_lost_events@.len() == 0,
{
    assert forall|events: &mut ClientEvents, done: ()| #[trigger]
        call_ensures(ClientEvents::push_steps, (events, id, steps), done) implies final(events)@
        == followed_by((*events)@, events_for(id, steps@)) by {
        lemma_events_for((*events)@, id, steps@, id);
    }
}

/// What an update of a client comes to, for one of its connections: the connection has
/// handled all that came from its tasks, and the events about it are those of that.
pub open spec fn connection_updates(
    pre: IrohClientView,
    post: IrohClientView,
    events: ClientEventsView,
    id: ConnectionLocalId,
    messages: Seq<ClientAsyncMessage>,
    reports: Seq<ChannelAsyncMessage>,
    states: Seq<PeerConnectionView<ClientConnectionView>>,
    steps: Seq<ClientStep>,
) -> bool {
    &&& updates(pre.connections[id], post.connections[id], messages, reports, states, steps)
    &&& events_about(events, id) == events_for(id, steps)
}

/// The events about a connection, among those of some connections.
proof fn lemma_events_about(
    ids: Seq<ConnectionLocalId>,
    steps: Map<ConnectionLocalId, Seq<ClientStep>>,
    id: ConnectionLocalId,
)
    requires
        ids.no_duplicates(),
    ensures
        events_about(events_of(ids, steps), id) =~= if ids.contains(id) {
            events_for(id, steps[id])
        } else {
            ClientEventsView::none()
        },
    decreases ids.len(),
{
    if ids.len() == 0 {
        lemma_no_events(id);
    } else {
        let before = ids.drop_last();
        let last = ids.last();
        assert(before.no_duplicates());
        lemma_events_about(before, steps, id);
        lemma_events_for(events_of(before, steps), last, steps[last], id);
        assert(ids.contains(id) <==> before.contains(id) || id == last) by {
            if before.contains(id) {
                let k = choose|k: int| 0 <= k < before.len() && before[k] == id;
                assert(ids[k] == id);
            }
            if ids.contains(id) && id != last {
                let k = choose|k: int| 0 <= k < ids.len() && ids[k] == id;
                assert(before[k] == id);
            }
            assert(ids[ids.len() - 1] == last);
        }
        if id == last {
            assert(!before.contains(id)) by {
                if before.contains(id) {
                    let k = choose|k: int| 0 <= k < before.len() && before[k] == id;
                    assert(ids[k] == ids[ids.len() - 1]);
                }
            }
            assert(events_about(events_of(before, steps), id) =~= ClientEventsView::none());
            assert(followed_by(ClientEventsView::none(), events_for(id, steps[id]))
                =~= events_for(id, steps[id]));
        }
    }
}

/// An update of a client has each connection handle all that came from its tasks, and
/// raises the events of that, of each connection in order, and no others. The client
/// keeps its connections, and all else.
pub proof fn law_handle_client_events(r: ClientEvents, id: ConnectionLocalId)
    ensures
        forall|client: &mut IrohClient| #[trigger]
            call_ensures(handle_client_events, (client,), r) ==> {
                &&& final(client)@ == (IrohClientView {
                    connections: final(client)@.connections,
                    ..(*client)@
                })
                &&& final(client)@.connections.contains_key(id) <==> (
                *client)@.connections.contains_key(id)
                &&& (*client)@.connections.contains_key(id) ==> exists|
                    messages: Seq<ClientAsyncMessage>,
                    reports: Seq<ChannelAsyncMessage>,
                    states: Seq<PeerConnectionView<ClientConnectionView>>,
                    steps: Seq<ClientStep>,
                | #[trigger]
                    connection_updates(
                        (*client)@,
                        final(client)@,
                        r@,
                        id,
                        messages,
                        reports,
                        states,
                        steps,
                    )
                &&& !(*client)@.connections.contains_key(id) ==> events_about(r@, id)
                    == ClientEventsView::none()
                &&& r@.connected == r.connection_events@
                &&& r@.failed == r.connection_failed_events@
                &&& r@.lost == r.connection_lost_events@
            },
{
    assert forall|client: &mut IrohClient| #[trigger]
        call_ensures(handle_client_events, (client,), r) implies (final(
        client
    )@.connections.contains_key(id) <==> (*client)@.connections.contains_key(id)) && (if (
    *client)@.connections.contains_key(id) {
        exists|
            messages: Seq<ClientAsyncMessage>,
            reports: Seq<ChannelAsyncMessage>,
            states: Seq<PeerConnectionView<ClientConnectionView>>,
            steps: Seq<ClientStep>,
        | #[trigger]
            connection_updates(
                (*client)@,
                final(client)@,
                r@,
                id,
                messages,
                reports,
                states,
                steps,
            )
    } else {
        events_about(r@, id) == ClientEventsView::none()
    }) by {
        let pre = (*client)@;
        let post = final(client)@;
        let (ids, steps) = choose|
            ids: Seq<ConnectionLocalId>,
            steps: Map<ConnectionLocalId, Seq<ClientStep>>,
        |
            {
                &&& lists_keys(ids, pre.connections)
                &&& steps.dom() == pre.connections.dom()
                &&& r@ == #[trigger] events_of(ids, steps)
                &&& post == (IrohClientView { connections: post.connections, ..pre })
                &&& post.connections.dom() == pre.connections.dom()
                &&& forall|id: ConnectionLocalId| #[trigger]
                    pre.connections.contains_key(id) ==> post.connections[id].updated(
                        pre.connections[id],
                        steps[id],
                    )
            };
        lemma_events_about(ids, steps, id);
        assert(post.connections.dom().contains(id) <==> pre.connections.dom().contains(id));
        assert(ids.contains(id) <==> pre.connections.contains_key(id));
        if pre.connections.contains_key(id) {
            lemma_updates(pre.connections[id], post.connections[id], steps[id]);
            let (messages, reports, states) = choose|
                messages: Seq<ClientAsyncMessage>,
                reports: Seq<ChannelAsyncMessage>,
                states: Seq<PeerConnectionView<ClientConnectionView>>,
            | #[trigger]
                updates(
                    pre.connections[id],
                    post.connections[id],
                    messages,
                    reports,
                    states,
                    steps[id],
                );
            assert(connection_updates(
                pre,
                post,
                r@,
                id,
                messages,
                reports,
                states,
                steps[id],
            ));
        }
    }
}

/// What a client amounts to is what it holds.
pub proof fn law_client_shows_its_data(client: IrohClient, id: ConnectionLocalId)
    ensures
        client@.endpoint == client.endpoint,
        client@.connection_local_id_gen == client.connection_local_id_gen,
        client@.default_connection_id == client.default_connection_id,
        client@.connections.contains_key(id) <==> client.connections@.contains_key(id),
        client@.connections.contains_key(id) ==> client@.connections[id]
            == client.connections@[id]@,
{
}

/// A client starts with nothing; its endpoint is the one that was set last, and its
/// default connection the one that was chosen last.
pub proof fn law_client_settings(
    endpoint: Endpoint,
    id: ConnectionLocalId,
    fresh: IrohClient,
    client: IrohClient,
)
    ensures
        call_ensures(IrohClient::new, (), fresh) ==> {
            &&& fresh.endpoint is None
            &&& fresh.default_connection_id is None
            &&& fresh.connection_local_id_gen == 0
            &&& !fresh@.connections.contains_key(id)
        },
        forall|c: &mut IrohClient, done: ()| #[trigger]
            call_ensures(IrohClient::set_endpoint, (c, endpoint), done) ==> final(c)@ == (
            IrohClientView { endpoint: Some(endpoint), ..(*c)@ }),
        forall|c: &mut IrohClient, done: ()| #[trigger]
            call_ensures(IrohClient::set_default_connection, (c, id), done) ==> final(c)@ == (
            IrohClientView { default_connection_id: Some(id), ..(*c)@ }),
        forall|r: Option<ConnectionLocalId>| #[trigger]
            call_ensures(IrohClient::get_default_connection, (&client,), r) ==> r
                == client.default_connection_id,
        forall|r: Option<&Endpoint>| #[trigger]
            call_ensures(IrohClient::raw_endpoint, (&client,), r) ==> (r is Some
                <==> client.endpoint is Some) && (r is Some ==> *r->0 == client.endpoint->0),
        forall|r: Option<&ClientSideConnection>| #[trigger]
            call_ensures(IrohClient::get_connection_by_id, (&client, id), r) ==> (r is Some
                <==> client@.connections.contains_key(id)) && (r is Some ==> r->0@
                == client@.connections[id]),
        forall|r: Option<&ClientSideConnection>| #[trigger]
            call_ensures(IrohClient::get_connection, (&client,), r) ==> (r is Some <==> (
            client.default_connection_id is Some && client@.connections.contains_key(
                client.default_connection_id->0,
            ))) && (r is Some ==> r->0@ == client@.connections[client.default_connection_id->0]),
        forall|r: &ClientSideConnection| #[trigger]
            call_ensures(IrohClient::connection, (&client,), r) && client.default_connection_id is Some
                && client@.connections.contains_key(client.default_connection_id->0) ==> r@
                == client@.connections[client.default_connection_id->0],
{
}

/// A connection that is changed in place is changed in the client, and the others are
/// not: the one that is asked for by its id, and the default connection.
pub proof fn law_connection_in_place(id: ConnectionLocalId, other: ConnectionLocalId)
    ensures
        forall|c: &mut IrohClient, r: Option<&mut ClientSideConnection>| #[trigger]
            call_ensures(IrohClient::get_connection_mut_by_id, (c, id), r) ==> {
                &&& r is Some <==> (*c)@.connections.contains_key(id)
                &&& r is None ==> final(c)@ == (*c)@
                &&& r is Some ==> {
                    &&& (*r->0)@ == (*c)@.connections[id]
                    &&& final(c)@.connections.contains_key(id)
                    &&& final(c)@.connections[id] == (*final(r->0))@
                    &&& other != id ==> (final(c)@.connections.contains_key(other) <==> (
                    *c)@.connections.contains_key(other)) && (final(c)@.connections.contains_key(
                        other,
                    ) ==> final(c)@.connections[other] == (*c)@.connections[other])
                    &&& final(c)@ == (IrohClientView {
                        connections: final(c)@.connections,
                        ..(*c)@
                    })
                }
            },
        forall|c: &mut IrohClient, r: Option<&mut ClientSideConnection>| #[trigger]
            call_ensures(IrohClient::get_connection_mut, (c,), r) ==> {
                let default = (*c)@.default_connection_id;
                &&& r is Some <==> default is Some && (*c)@.connections.contains_key(default->0)
                &&& r is None ==> final(c)@ == (*c)@
                &&& r is Some ==> {
                    &&& (*r->0)@ == (*c)@.connections[default->0]
                    &&& final(c)@ == (IrohClientView {
                        connections: (*c)@.connections.insert(default->0, (*final(r->0))@),
                        ..(*c)@
                    })
                }
            },
        forall|c: &mut IrohClient, r: &mut ClientSideConnection| #[trigger]
            call_ensures(IrohClient::connection_mut, (c,), r) && (
            *c)@.default_connection_id is Some && (*c)@.connections.contains_key(
                (*c)@.default_connection_id->0,
            ) ==> {
                let default = (*c)@.default_connection_id->0;
                &&& (*r)@ == (*c)@.connections[default]
                &&& final(c)@ == (IrohClientView {
                    connections: (*c)@.connections.insert(default, (*final(r))@),
                    ..(*c)@
                })
            },
{
}

/// A client is in exactly the state of its default connection, and disconnected where it
/// has none. The conditions on it say the same of a client that may not exist, and say of
/// a change that it happened since they were asked last.
pub proof fn law_client_state(client: IrohClient, maybe: Option<&IrohClient>, r: bool)
    ensures
        ({
            let default = client.default_connection_id;
            let there = default is Some && client@.connections.contains_key(default->0);
            let state = client@.connections[default->0].specific.state;
            &&& call_ensures(IrohClient::is_connecting, (&client,), r) ==> (r <==> there
                && state is Connecting)
            &&& call_ensures(IrohClient::is_connected, (&client,), r) ==> (r <==> there
                && state is Connected)
            &&& call_ensures(IrohClient::is_disconnected, (&client,), r) ==> (r <==> !there
                || state is Disconnected)
            &&& call_ensures(client_connecting, (Some(&client),), r) ==> (r <==> there
                && state is Connecting)
            &&& call_ensures(client_connected, (Some(&client),), r) ==> (r <==> there
                && state is Connected)
            &&& forall|last: &mut bool| #[trigger]
                call_ensures(client_just_connected, (last, Some(&client)), r) ==> (r <==> !*last
                    && there && state is Connected) && (*final(last) <==> there
                    && state is Connected)
            &&& forall|last: &mut bool| #[trigger]
                call_ensures(client_just_disconnected, (last, Some(&client)), r) ==> (r <==> *last
                    && (!there || state is Disconnected)) && (*final(last) <==> there && !(
                state is Disconnected))
        }),
        call_ensures(client_connecting, (None,), r) ==> !r,
        call_ensures(client_connected, (None,), r) ==> !r,
        forall|last: &mut bool| #[trigger]
            call_ensures(client_just_connected, (last, None), r) ==> !r && !*final(last),
        forall|last: &mut bool| #[trigger]
            call_ensures(client_just_disconnected, (last, None), r) ==> r == *last && !*final(last),
{
}

/// A connection is opened under the next id, and none is opened under that id again. It
/// starts connecting, from the endpoint of the client, with the configuration that is
/// given, and with its channels opened as they are configured; the task to start has the
/// other halves of its queues. It is the default connection where there was none. Where a
/// channel was refused, no connection is added, and the error is what was answered.
pub proof fn law_open_connection(
    config: IrohClientConnectionConfig,
    channels: SendChannelsConfiguration,
    cfg: crate::shared::peer_connection::RecvChannelsConfiguration,
    r: Result<(ConnectionLocalId, ConnectionTaskData), AsyncChannelError>,
)
    requires
        channels@.len() <= 256,
    ensures
        forall|c: &mut IrohClient| #[trigger]
            call_ensures(IrohClient::open_connection, (c, config, channels, cfg), r) && (
            *c)@.endpoint is Some && (*c)@.connection_local_id_gen < u64::MAX ==> match r {
                Ok((id, task)) => {
                    &&& id == (*c)@.connection_local_id_gen
                    &&& final(c)@ == (IrohClientView {
                        endpoint: (*c)@.endpoint,
                        connections: (*c)@.connections.insert(id, final(c)@.connections[id]),
                        connection_local_id_gen: final(c)@.connection_local_id_gen,
                        default_connection_id: match (*c)@.default_connection_id {
                            None => Some(id),
                            Some(default) => Some(default),
                        },
                    })
                    &&& final(c)@.connection_local_id_gen == id + 1
                    &&& task.endpoint == (*c)@.endpoint->0
                    &&& task.local_id == id
                    &&& task.config@ == config@
                    &&& exists|start: PeerConnectionView<ClientConnectionView>| #[trigger]
                        opens_from(
                            start,
                            final(c)@.connections[id],
                            id,
                            (*c)@.endpoint->0,
                            config,
                            channels@,
                            cfg,
                            task,
                            Ok(()),
                        )
                },
                Err(e) => {
                    &&& final(c)@.connections == (*c)@.connections
                    &&& final(c)@.endpoint == (*c)@.endpoint
                    &&& final(c)@.default_connection_id == (*c)@.default_connection_id
                    &&& final(c)@.connection_local_id_gen == (*c)@.connection_local_id_gen + 1
                    &&& exists|
                        start: PeerConnectionView<ClientConnectionView>,
                        post: PeerConnectionView<ClientConnectionView>,
                        dropped: ConnectionTaskData,
                    | #[trigger]
                        opens_from(
                            start,
                            post,
                            (*c)@.connection_local_id_gen,
                            (*c)@.endpoint->0,
                            config,
                            channels@,
                            cfg,
                            dropped,
                            Err(e),
                        )
                },
            },
{
    assert forall|c: &mut IrohClient| #[trigger]
        call_ensures(IrohClient::open_connection, (c, config, channels, cfg), r) && (
        *c)@.endpoint is Some && (*c)@.connection_local_id_gen < u64::MAX implies match r {
        Ok((id, task)) => exists|start: PeerConnectionView<ClientConnectionView>| #[trigger]
            opens_from(
                start,
                final(c)@.connections[id],
                id,
                (*c)@.endpoint->0,
                config,
                channels@,
                cfg,
                task,
                Ok(()),
            ),
        Err(e) => exists|
            start: PeerConnectionView<ClientConnectionView>,
            post: PeerConnectionView<ClientConnectionView>,
            dropped: ConnectionTaskData,
        | #[trigger]
            opens_from(
                start,
                post,
                (*c)@.connection_local_id_gen,
                (*c)@.endpoint->0,
                config,
                channels@,
                cfg,
                dropped,
                Err(e),
            ),
    } by {
        let endpoint = (*c)@.endpoint->0;
        match r {
            Ok((id, task)) => {
                let post = final(c)@.connections[id];
                let start = crate::client::fresh_connection(
                    id,
                    endpoint,
                    config@,
                    channels@,
                    post.specific.messages_half,
                    post.ends,
                    cfg,
                );
                lemma_opens_all(start, post, channels@);
                assert(opens_from(
                    start,
                    post,
                    id,
                    endpoint,
                    config,
                    channels@,
                    cfg,
                    task,
                    Ok(()),
                ));
            },
            Err(e) => {
                let id = (*c)@.connection_local_id_gen;
                let (task, post) = choose|
                    task: ConnectionTaskData,
                    post: PeerConnectionView<ClientConnectionView>,
                | #[trigger]
                    task.serves(post) && post.opened(
                        crate::client::fresh_connection(
                            id,
                            endpoint,
                            config@,
                            channels@,
                            post.specific.messages_half,
                            post.ends,
                            cfg,
                        ),
                        channels@,
                        Err(e),
                    );
                let start = crate::client::fresh_connection(
                    id,
                    endpoint,
                    config@,
                    channels@,
                    post.specific.messages_half,
                    post.ends,
                    cfg,
                );
                lemma_opens_up_to(start, post, channels@, e);
                assert(opens_from(
                    start,
                    post,
                    id,
                    endpoint,
                    config,
                    channels@,
                    cfg,
                    task,
                    Err(e),
                ));
            },
        }
    }
}

/// `post` is a connection that was started as `start`, with what it is given, and on
/// which the channels of `configs` were opened, as far as `r` says; the task has the
/// other halves of its queues.
pub open spec fn opens_from(
    start: PeerConnectionView<ClientConnectionView>,
    post: PeerConnectionView<ClientConnectionView>,
    id: ConnectionLocalId,
    endpoint: Endpoint,
    config: IrohClientConnectionConfig,
    configs: Seq<ChannelConfig>,
    cfg: crate::shared::peer_connection::RecvChannelsConfiguration,
    task: ConnectionTaskData,
    r: Result<(), AsyncChannelError>,
) -> bool {
    &&& starts(start, start.specific)
    &&& start.specific.local_id == id
    &&& start.specific.endpoint == endpoint
    &&& start.specific.config == config@
    &&& start.specific.channels_config == configs
    &&& start.recv_channels_cfg == cfg
    &&& joined_to(task, post)
    &&& match r {
        Ok(_) => opens_all(start, post, configs),
        Err(e) => exists|n: int| #[trigger] opens_up_to(start, post, configs, n, e),
    }
}

/// A connection that is closed is gone from the client, whatever the result, and it is
/// not the default connection any more; the others stay. Its tasks were ordered to close
/// it where it was connecting or connected, and the result says whether one of them heard
/// it. Where all are closed, this is so of each.
pub proof fn law_close_connections(
    id: ConnectionLocalId,
    r: Result<(), ClientConnectionCloseError>,
)
    ensures
        forall|c: &mut IrohClient| #[trigger]
            call_ensures(IrohClient::close_connection, (c, id), r) ==> if (
            *c)@.connections.contains_key(id) {
                &&& final(c)@ == (IrohClientView {
                    connections: (*c)@.connections.remove(id),
                    default_connection_id: if (*c)@.default_connection_id == Some(id) {
                        None
                    } else {
                        (*c)@.default_connection_id
                    },
                    ..(*c)@
                })
                &&& if (*c)@.connections[id].specific.state is Disconnected {
                    r is Ok
                } else {
                    listeners_told(
                        (*c)@.connections[id].ends.close_send,
                        CloseReason::LocalOrder,
                        r is Ok,
                    )
                }
                &&& r matches Err(e) ==> e is ConnectionAlreadyClosed
            } else {
                &&& final(c)@ == (*c)@
                &&& r == Err::<(), _>(ClientConnectionCloseError::InvalidConnectionId(id))
            },
        forall|c: &mut IrohClient, done: ()| #[trigger]
            call_ensures(IrohClient::close_all_connections, (c,), done) ==> {
                &&& final(c)@.connections == Map::<
                    ConnectionLocalId,
                    PeerConnectionView<ClientConnectionView>,
                >::empty()
                &&& final(c)@.default_connection_id == match (*c)@.default_connection_id {
                    Some(default) => if (*c)@.connections.contains_key(default) {
                        None
                    } else {
                        Some(default)
                    },
                    None => None,
                }
                &&& final(c)@.endpoint == (*c)@.endpoint
                &&& final(c)@.connection_local_id_gen == (*c)@.connection_local_id_gen
                &&& (*c)@.connections.contains_key(id) && !((
                *c)@.connections[id].specific.state is Disconnected) ==> exists|heard: bool|
                    #[trigger] listeners_told(
                        (*c)@.connections[id].ends.close_send,
                        CloseReason::LocalOrder,
                        heard,
                    )
            },
{
    assert forall|c: &mut IrohClient, done: ()| #[trigger]
        call_ensures(IrohClient::close_all_connections, (c,), done) && (
        *c)@.connections.contains_key(id) && !((
        *c)@.connections[id].specific.state is Disconnected) implies exists|heard: bool| #[trigger]
        listeners_told(
            (*c)@.connections[id].ends.close_send,
            CloseReason::LocalOrder,
            heard,
        ) by {
        let heard = choose|heard: bool| #[trigger]
            (*c)@.connections[id].was_disconnected(CloseReason::LocalOrder, heard);
        assert(listeners_told(
            (*c)@.connections[id].ends.close_send,
            CloseReason::LocalOrder,
            heard,
        ));
    }
}

/// What a dispatch does to a connection, for one channel: `payloads` came from the peer,
/// and those of the channel are put behind those that wait, in order, up to the limit;
/// `full` of them were left out. Nothing but the buffers changes.
pub open spec fn sorts_in<V>(
    pre: PeerConnectionView<V>,
    post: PeerConnectionView<V>,
    channel: ChannelId,
    payloads: Seq<(ChannelId, Seq<u8>)>,
    full: int,
) -> bool {
    let mine = of_channel(payloads, channel);
    let kept = post.buffers[channel].len() - pre.buffers[channel].len();
    let max = pre.recv_channels_cfg.max_buffered_payloads_count_per_channel;
    &&& came(pre.arrived, post.arrived, payloads, usize::MAX as int)
    &&& 0 <= kept <= mine.len()
    &&& post.buffers[channel] == pre.buffers[channel] + mine.take(kept)
    &&& kept < mine.len() ==> post.buffers[channel].len() >= max
    &&& kept > 0 ==> post.buffers[channel].len() <= max
    &&& full == mine.len() - kept
    &&& post == (PeerConnectionView { arrived: post.arrived, buffers: post.buffers, ..pre })
}

/// What the contract of a dispatch comes to.
pub(crate) proof fn lemma_sorts_in<V>(
    pre: PeerConnectionView<V>,
    batch: Batch<(ChannelId, Seq<u8>)>,
    channel: ChannelId,
)
    requires
        batch.complete(usize::MAX),
        pre.buffers.contains_key(channel),
    ensures
        sorts_in(
            pre,
            pre.dispatch(batch),
            channel,
            batch.messages,
            full_count(pre.dispatch_errors(batch.messages), channel) as int,
        ),
{
    let max = pre.recv_channels_cfg.max_buffered_payloads_count_per_channel as nat;
    lemma_batch_came(pre.arrived, batch, usize::MAX);
    law_dispatch_keeps_order(pre.buffers, max, batch.messages, channel);
}

/// How many of the events say that this channel of this connection was full.
pub open spec fn full_events(
    events: Seq<ClientRecvChannelError>,
    id: ConnectionLocalId,
    channel: ChannelId,
) -> nat {
    events.filter(
        |e: ClientRecvChannelError|
            e.id == id && e.error == crate::shared::error::RecvChannelError::RecvChannelFull(channel),
    ).len()
}

/// The events of the errors of one connection.
pub(crate) proof fn lemma_full_events(
    events: Seq<ClientRecvChannelError>,
    of: ConnectionLocalId,
    errors: Seq<crate::shared::error::RecvChannelError>,
    id: ConnectionLocalId,
    channel: ChannelId,
)
    ensures
        full_events(events + crate::shared::error::error_events(of, errors), id, channel)
            == full_events(events, id, channel) + if of == id {
            full_count(errors, channel)
        } else {
            0
        },
    decreases errors.len(),
{
    reveal(Seq::filter);
    let all = events + crate::shared::error::error_events(of, errors);
    if errors.len() == 0 {
        assert(all =~= events);
    } else {
        lemma_full_events(events, of, errors.drop_last(), id, channel);
        assert(all.drop_last() =~= events + crate::shared::error::error_events(
            of,
            errors.drop_last(),
        ));
    }
}

/// The events about one channel of one connection, among those of a dispatch.
proof fn lemma_client_dispatch_events(
    pre: IrohClientView,
    ids: Seq<ConnectionLocalId>,
    arrivals: Map<ConnectionLocalId, Batch<(ChannelId, Seq<u8>)>>,
    id: ConnectionLocalId,
    channel: ChannelId,
)
    requires
        ids.no_duplicates(),
    ensures
        full_events(pre.dispatch_events(ids, arrivals), id, channel) == if ids.contains(id)
            && arrivals.contains_key(id) {
            full_count(pre.connections[id].dispatch_errors(arrivals[id].messages), channel)
        } else {
            0
        },
    decreases ids.len(),
{
    reveal(Seq::filter);
    if ids.len() > 0 {
        let before = ids.drop_last();
        let last = ids.last();
        assert(before.no_duplicates());
        lemma_client_dispatch_events(pre, before, arrivals, id, channel);
        assert(ids.contains(id) <==> before.contains(id) || id == last) by {
            if before.contains(id) {
                let k = choose|k: int| 0 <= k < before.len() && before[k] == id;
                assert(ids[k] == id);
            }
            if ids.contains(id) && id != last {
                let k = choose|k: int| 0 <= k < ids.len() && ids[k] == id;
                assert(before[k] == id);
            }
            assert(ids[ids.len() - 1] == last);
        }
        assert(id == last ==> !before.contains(id)) by {
            if id == last && before.contains(id) {
                let k = choose|k: int| 0 <= k < before.len() && before[k] == id;
                assert(ids[k] == ids[ids.len() - 1]);
            }
        }
        if arrivals.contains_key(last) {
            lemma_full_events(
                pre.dispatch_events(before, arrivals),
                last,
                pre.connections[last].dispatch_errors(arrivals[last].messages),
                id,
                channel,
            );
        }
    }
}

/// A dispatch on a client sorts all that came on each connection that is connecting or
/// connected into the buffers of its channels, and reports each payload that is left out
/// with one event, which names its connection and its channel; see [`sorts_in`]. Other
/// connections stay as they are, and nothing is reported of them.
pub proof fn law_client_dispatch(
    r: Vec<ClientRecvChannelError>,
    id: ConnectionLocalId,
    channel: ChannelId,
)
    ensures
        forall|c: &mut IrohClient| #[trigger]
            call_ensures(dispatch_received_payloads, (c,), r) ==> {
                &&& final(c)@ == (IrohClientView {
                    connections: final(c)@.connections,
                    ..(*c)@
                })
                &&& final(c)@.connections.contains_key(id) <==> (*c)@.connections.contains_key(id)
                &&& if (*c)@.connections.contains_key(id) && !((
                *c)@.connections[id].specific.state is Disconnected) {
                    exists|payloads: Seq<(ChannelId, Seq<u8>)>| #[trigger]
                        sorts_in(
                            (*c)@.connections[id],
                            final(c)@.connections[id],
                            channel,
                            payloads,
                            full_events(r@, id, channel) as int,
                        )
                } else {
                    &&& full_events(r@, id, channel) == 0
                    &&& (*c)@.connections.contains_key(id) ==> final(c)@.connections[id] == (
                    *c)@.connections[id]
                }
            },
{
    assert forall|c: &mut IrohClient| #[trigger]
        call_ensures(dispatch_received_payloads, (c,), r) implies if (
    *c)@.connections.contains_key(id) && !((*c)@.connections[id].specific.state is Disconnected) {
        exists|payloads: Seq<(ChannelId, Seq<u8>)>| #[trigger]
            sorts_in(
                (*c)@.connections[id],
                final(c)@.connections[id],
                channel,
                payloads,
                full_events(r@, id, channel) as int,
            )
    } else {
        &&& full_events(r@, id, channel) == 0
        &&& (*c)@.connections.contains_key(id) ==> final(c)@.connections[id] == (
        *c)@.connections[id]
    } by {
        let pre = (*c)@;
        let (ids, arrivals) = choose|
            ids: Seq<ConnectionLocalId>,
            arrivals: Map<ConnectionLocalId, Batch<(ChannelId, Seq<u8>)>>,
        |
            {
                &&& lists_keys(ids, pre.connections)
                &&& forall|id: ConnectionLocalId| #[trigger]
                    arrivals.contains_key(id) <==> pre.connections.contains_key(id) && !(
                    pre.connections[id].specific.state is Disconnected)
                &&& forall|id: ConnectionLocalId| #[trigger]
                    arrivals.contains_key(id) ==> arrivals[id].complete(usize::MAX)
                &&& final(c)@ == pre.dispatch(arrivals)
                &&& r@ == #[trigger] pre.dispatch_events(ids, arrivals)
            };
        lemma_client_dispatch_events(pre, ids, arrivals, id, channel);
        assert(ids.contains(id) <==> pre.connections.contains_key(id));
        assert(arrivals.contains_key(id) <==> pre.connections.contains_key(id) && !(
        pre.connections[id].specific.state is Disconnected));
        if arrivals.contains_key(id) {
            assert(pre.connections[id] == (*c).connections@[id]@);
            assert(pre.connections[id].buffers.contains_key(channel));
            lemma_sorts_in(pre.connections[id], arrivals[id], channel);
            assert(sorts_in(
                pre.connections[id],
                final(c)@.connections[id],
                channel,
                arrivals[id].messages,
                full_events(r@, id, channel) as int,
            ));
        }
    }
}

/// Clearing what is stale leaves nothing to read on the connections that are configured
/// for it, and changes nothing else.
pub proof fn law_client_clear(id: ConnectionLocalId, channel: ChannelId)
    ensures
        forall|c: &mut IrohClient, done: ()| #[trigger]
            call_ensures(clear_stale_received_payloads, (c,), done) ==> {
                &&& final(c)@ == (IrohClientView {
                    connections: final(c)@.connections,
                    ..(*c)@
                })
                &&& final(c)@.connections.contains_key(id) <==> (*c)@.connections.contains_key(id)
                &&& (*c)@.connections.contains_key(id) ==> {
                    &&& final(c)@.connections[id] == (PeerConnectionView {
                        buffers: final(c)@.connections[id].buffers,
                        ..(*c)@.connections[id]
                    })
                    &&& if (
                    *c)@.connections[id].recv_channels_cfg.clear_stale_received_payloads {
                        final(c)@.connections[id].buffers[channel].len() == 0
                    } else {
                        final(c)@.connections[id].buffers == (*c)@.connections[id].buffers
                    }
                }
            },
{
}

/// The address to connect to is the one that is configured. Where none is, it is that of
/// the server, with the way through the home relay where that is known, and with no
/// other.
pub proof fn law_connect_address(
    config: IrohClientConnectionConfig,
    relay: Option<RelayUrl>,
    r: EndpointAddr,
)
    ensures
        call_ensures(connect_address, (&config, relay), r) || leads_to(r, config@, relay)
            ==> match config.endpoint_addr {
            Some(configured) => r == configured,
            None => {
                &&& addr_id(r) == config.server_id
                &&& relay matches Some(url) ==> addr_transports(r) == Set::<
                    iroh::TransportAddr,
                >::empty().insert(relay_transport(url))
                &&& relay is None ==> addr_transports(r) == Set::<iroh::TransportAddr>::empty()
            },
        },
        forall|needed: bool| #[trigger]
            call_ensures(needs_relay, (&config,), needed) ==> (needed
                <==> config.endpoint_addr is None),
{
}

/// A home relay that is known ends the search for one; else the search goes on after a
/// tenth of a second, until it has taken more than ten seconds.
pub proof fn law_search_relay(known: Option<RelayUrl>, elapsed_nanos: u128, r: RelaySearch)
    requires
        call_ensures(search_relay, (known, elapsed_nanos), r),
    ensures
        known matches Some(url) ==> r == RelaySearch::Found(url),
        known is None && elapsed_nanos > 10_000_000_000u128 ==> r is TimedOut,
        known is None && elapsed_nanos <= 10_000_000_000u128 ==> r == RelaySearch::Retry(100),
{
}

/// What the reception of a client id comes to: a frame that is long enough holds the id
/// in its first eight bytes, the most significant first, whatever follows; one that is
/// shorter is invalid. Without a frame no id was received, a stream that was not opened
/// is the error, and an order to close interrupts it.
pub open spec fn reception_is(event: ClientIdEvent, r: ClientIdReception) -> bool {
    match event {
        ClientIdEvent::CloseOrdered => r is Interrupted,
        ClientIdEvent::StreamFailed(e) => r matches ClientIdReception::Failed(
            IrohConnectionError::ConnectionError(text),
        ) && text@ == connection_error_text(e),
        ClientIdEvent::NoFrame => r == ClientIdReception::Failed(
            IrohConnectionError::ClientIdNotReceived,
        ),
        ClientIdEvent::Frame(frame) => {
            &&& frame@.len() < 8 ==> r == ClientIdReception::Failed(
                IrohConnectionError::InvalidClientId,
            )
            &&& frame@.len() >= 8 ==> (r matches ClientIdReception::Retrieved(id) && id
                == eight_bytes(frame@))
        },
    }
}

/// The number that eight bytes stand for, the most significant first.
pub open spec fn eight_bytes(bytes: Seq<u8>) -> int {
    bytes[0] * 0x100_0000_0000_0000 + bytes[1] * 0x1_0000_0000_0000 + bytes[2] * 0x100_0000_0000
        + bytes[3] * 0x1_0000_0000 + bytes[4] * 0x100_0000 + bytes[5] * 0x1_0000 + bytes[6] * 0x100
        + bytes[7]
}

/// What eight bytes stand for.
proof fn lemma_eight_bytes(bytes: Seq<u8>)
    requires
        bytes.len() >= 8,
    ensures
        big_endian(bytes.take(8)) == eight_bytes(bytes),
{
    reveal_with_fuel(big_endian, 9);
    let b = bytes.take(8);
    assert(b.drop_last() =~= bytes.take(7));
    assert(b.drop_last().drop_last() =~= bytes.take(6));
    assert(bytes.take(6).drop_last() =~= bytes.take(5));
    assert(bytes.take(5).drop_last() =~= bytes.take(4));
    assert(bytes.take(4).drop_last() =~= bytes.take(3));
    assert(bytes.take(3).drop_last() =~= bytes.take(2));
    assert(bytes.take(2).drop_last() =~= bytes.take(1));
    assert(bytes.take(1).drop_last() =~= bytes.take(0));
}

/// The id of a client is read from a frame, and a reception comes to what it has to; see
/// [`reception_is`].
pub proof fn law_receive_client_id(event: ClientIdEvent, r: ClientIdReception)
    ensures
        call_ensures(receive_client_id, (event,), r) || r.follows(event) ==> reception_is(event, r),
        forall|frame: &[u8], id: Result<ClientId, IrohConnectionError>| #[trigger]
            call_ensures(client_id_from_frame, (frame,), id) ==> {
                &&& frame@.len() < 8 ==> id == Err::<ClientId, _>(
                    IrohConnectionError::InvalidClientId,
                )
                &&& frame@.len() >= 8 ==> id is Ok && id->Ok_0 == eight_bytes(frame@)
            },
{
    if let ClientIdEvent::Frame(frame) = event {
        if frame@.len() >= 8 {
            lemma_eight_bytes(frame@);
        }
    }
    assert forall|frame: &[u8], id: Result<ClientId, IrohConnectionError>| #[trigger]
        call_ensures(client_id_from_frame, (frame,), id) && frame@.len() >= 8 implies id is Ok
        && id->Ok_0 == eight_bytes(frame@) by {
        lemma_eight_bytes(frame@);
    }
}

/// The task that establishes a connection goes through these steps, and no others. When
/// it starts, it connects at once where an address is configured, and looks for a home
/// relay where none is. It connects once a relay is known, or after ten seconds without
/// one, to the address of [`law_connect_address`] and with the configured protocol. A
/// connection that could not be established is reported as failed, with the text of the
/// error. One that is established is reported as connected, at once where no client id is
/// shared, and else with the id once it is received; where it is not, that is reported as
/// the failure, and an interrupted reception as nothing.
pub proof fn law_connecting(
    config: IrohClientConnectionConfig,
    shares_id: bool,
    event: ConnectingEvent,
    r: ConnectingAction,
)
    ensures
        forall|state: &mut ConnectingState| #[trigger]
            call_ensures(connecting_step, (&config, shares_id, state, event), r) ==> match (
                *state,
                event,
            ) {
                (ConnectingState::Idle, ConnectingEvent::Started) => {
                    &&& config.endpoint_addr matches Some(addr) ==> *final(state) is Connecting && (
                    r matches ConnectingAction::Connect(to, alpn) && to == addr && alpn@
                        == config.alpn@)
                    &&& config.endpoint_addr is None ==> *final(state) is Locating
                        && r is PollRelay
                },
                (ConnectingState::Locating, ConnectingEvent::RelayPolled(known, elapsed)) => {
                    &&& known is None && elapsed <= 10_000_000_000u128 ==> *final(state) is Locating
                        && r == ConnectingAction::PollRelayAfter(100)
                    &&& known is Some || elapsed > 10_000_000_000u128 ==> *final(state) is Connecting
                        && (r matches ConnectingAction::Connect(to, alpn) && alpn@ == config.alpn@
                        && (config.endpoint_addr is None ==> addr_id(to) == config.server_id && (
                    known matches Some(url) ==> addr_transports(to) == Set::<
                        iroh::TransportAddr,
                    >::empty().insert(relay_transport(url))) && (known is None ==> addr_transports(
                        to,
                    ) == Set::<iroh::TransportAddr>::empty())))
                },
                (ConnectingState::Connecting, ConnectingEvent::ConnectFailed(e)) => {
                    &&& *final(state) is Ended
                    &&& r matches ConnectingAction::Signal(
                        ClientAsyncMessage::ConnectionFailed(
                            IrohConnectionError::ConnectionError(text),
                        ),
                    ) && text@ == connect_error_text(e)
                },
                (ConnectingState::Connecting, ConnectingEvent::Established(connection)) => {
                    &&& shares_id ==> *final(state) == ConnectingState::AwaitingId(connection)
                        && r is Serve
                    &&& !shares_id ==> *final(state) is Ended && r
                        == ConnectingAction::ServeAndSignal(
                        ClientAsyncMessage::Connected(connection, None),
                    )
                },
                (ConnectingState::AwaitingId(connection), ConnectingEvent::IdAwaited(awaited)) => {
                    &&& *final(state) is Ended
                    &&& exists|reception: ClientIdReception| #[trigger]
                        reception_is(awaited, reception) && match reception {
                            ClientIdReception::Retrieved(id) => r == ConnectingAction::Signal(
                                ClientAsyncMessage::Connected(connection, Some(id)),
                            ),
                            ClientIdReception::Failed(err) => r == ConnectingAction::Signal(
                                ClientAsyncMessage::ConnectionFailed(err),
                            ),
                            ClientIdReception::Interrupted => r is Nothing,
                        }
                },
                _ => *final(state) == *state && r is Nothing,
            },
{
    assert forall|state: &mut ConnectingState| #[trigger]
        call_ensures(connecting_step, (&config, shares_id, state, event), r) && (
        *state is AwaitingId) && (event is IdAwaited) implies exists|
        reception: ClientIdReception,
    | #[trigger]
        reception_is(event->IdAwaited_0, reception) && match reception {
            ClientIdReception::Retrieved(id) => r == ConnectingAction::Signal(
                ClientAsyncMessage::Connected((*state)->AwaitingId_0, Some(id)),
            ),
            ClientIdReception::Failed(err) => r == ConnectingAction::Signal(
                ClientAsyncMessage::ConnectionFailed(err),
            ),
            ClientIdReception::Interrupted => r is Nothing,
        } by {
        let awaited = event->IdAwaited_0;
        let connection = (*state)->AwaitingId_0;
        let reception = choose|reception: ClientIdReception| #[trigger]
            reception.follows(awaited) && r == match reception_message(connection, reception) {
                Some(message) => ConnectingAction::Signal(message),
                None => ConnectingAction::Nothing,
            };
        law_receive_client_id(awaited, reception);
        assert(reception_is(awaited, reception));
    }
}

/// The messages of that task say what they have to.
pub proof fn law_connecting_messages(
    e: ConnectError,
    connection: InternalConnectionRef,
    client_id: Option<ClientId>,
    reception: ClientIdReception,
    r: ClientAsyncMessage,
    maybe: Option<ClientAsyncMessage>,
)
    ensures
        call_ensures(connection_failed, (&e,), r) ==> (r matches ClientAsyncMessage::ConnectionFailed(
            IrohConnectionError::ConnectionError(text),
        ) && text@ == connect_error_text(e)),
        call_ensures(signal_connected, (connection, client_id), r) ==> r
            == ClientAsyncMessage::Connected(connection, client_id),
        call_ensures(signal_reception, (connection, reception), maybe) ==> maybe == match reception {
            ClientIdReception::Retrieved(id) => Some(
                ClientAsyncMessage::Connected(connection, Some(id)),
            ),
            ClientIdReception::Failed(err) => Some(ClientAsyncMessage::ConnectionFailed(err)),
            ClientIdReception::Interrupted => None::<ClientAsyncMessage>,
        },
        forall|error: IrohConnectionError, copy: IrohConnectionError| #[trigger]
            call_ensures(IrohConnectionError::clone, (&error,), copy) ==> match error {
                IrohConnectionError::ConnectionError(text) => copy matches
                    IrohConnectionError::ConnectionError(copied) && copied@ == text@,
                _ => copy == error,
            },
{
}

/// The task that watches an established connection tells the synchronous side that it is
/// closed, once, if that still listens.
pub proof fn law_watching(client_listens: bool, r: WatchingAction)
    ensures
        forall|state: &mut WatchingState| #[trigger]
            call_ensures(watching_step, (state, client_listens), r) ==> {
                &&& *final(state) is Ended
                &&& *state is Watching && client_listens ==> r == WatchingAction::Tell(
                    ClientAsyncMessage::ConnectionClosed,
                )
                &&& *state is Ended || !client_listens ==> r is End
            },
{
}

/// The queues of a connection are made by tokio, and each sending half stands before the
/// receiving half of the same queue.
pub proof fn law_client_queues(
    r: (
        mpsc::Sender<(ChannelId, Bytes)>,
        mpsc::Receiver<(ChannelId, Bytes)>,
        mpsc::Sender<ClientAsyncMessage>,
        mpsc::Receiver<ClientAsyncMessage>,
        mpsc::Sender<ChannelAsyncMessage>,
        mpsc::Receiver<ChannelAsyncMessage>,
        mpsc::Sender<ChannelSyncMessage>,
        mpsc::Receiver<ChannelSyncMessage>,
        broadcast::Sender<CloseReason>,
        broadcast::Receiver<CloseReason>,
    ),
)
    requires
        call_ensures(create_client_connection_async_channels, (), r),
    ensures
        mpsc_halves(DEFAULT_MESSAGE_QUEUE_SIZE, r.0, r.1),
        mpsc_halves(DEFAULT_INTERNAL_MESSAGES_CHANNEL_SIZE, r.2, r.3),
        mpsc_halves(DEFAULT_INTERNAL_MESSAGES_CHANNEL_SIZE, r.4, r.5),
        mpsc_halves(DEFAULT_QCHANNEL_MESSAGES_CHANNEL_SIZE, r.6, r.7),
        broadcast_halves(DEFAULT_KILL_MESSAGE_QUEUE_SIZE, r.8, r.9),
{
}

/// The connections of a client are listed each once, with what each amounts to. An iroh
/// endpoint that is changed in place is changed there. A copy of an event is the same
/// event.
pub proof fn law_client_listing(client: IrohClient, id: ConnectionLocalId)
    ensures
        forall|r: std::collections::hash_map::Iter<'_, ConnectionLocalId, ClientSideConnection>|
            #[trigger] call_ensures(IrohClient::connections, (&client,), r) ==> {
                &&& r.remaining().no_duplicates()
                &&& client@.connections.contains_key(id) <==> exists|i: int|
                    0 <= i < r.remaining().len() && *(#[trigger] r.remaining()[i]).0 == id
                &&& forall|i: int|
                    0 <= i < r.remaining().len() ==> client@.connections[*(
                    #[trigger] r.remaining()[i]).0] == r.remaining()[i].1@
            },
        forall|c: &mut IrohClient, r: Option<&mut Endpoint>| #[trigger]
            call_ensures(IrohClient::raw_endpoint_mut, (c,), r) ==> {
                &&& r is Some <==> (*c)@.endpoint is Some
                &&& r is None ==> final(c)@ == (*c)@
                &&& r is Some ==> *r->0 == (*c)@.endpoint->0 && final(c)@ == (IrohClientView {
                    endpoint: Some(*final(r->0)),
                    ..(*c)@
                })
            },
        forall|event: ConnectionFailedEvent, copy: ConnectionFailedEvent| #[trigger]
            call_ensures(ConnectionFailedEvent::clone, (&event,), copy) ==> copy.id == event.id && (
            event.err matches IrohConnectionError::ConnectionError(text) ==> copy.err matches
                IrohConnectionError::ConnectionError(copied) && copied@ == text@) && (
            !(event.err is ConnectionError) ==> copy.err == event.err),
        forall|state: InternalConnectionState, r: ConnectionState| #[trigger]
            call_ensures(
                <ConnectionState as From<&InternalConnectionState>>::from,
                (&state,),
                r,
            ) ==> (r is Connecting <==> state is Connecting) && (r is Connected
                <==> state is Connected),
{
}

/// On a connection that is not disconnected, connecting or connected, each payload that is
/// sent on a registered channel is offered to the queue of that channel, behind all that
/// was offered before; the result is `Ok` exactly where the queue took it, and then it is
/// the last payload that the queue took. On one that is disconnected nothing is offered.
pub proof fn law_sent_payload_is_the_last(id: ChannelId, other: ChannelId, payload: Bytes)
    ensures
        forall|c: &mut ClientSideConnection, r: Result<(), ClientSendError>| #[trigger]
            call_ensures(ClientSideConnection::send_payload_on, (c, id, payload), r) ==> {
                let pre = (*c)@;
                let post = final(c)@;
                &&& (pre.specific.state is Connecting || pre.specific.state is Connected)
                    && pre.channels.contains_key(id) ==> {
                    &&& post.channels.contains_key(id)
                    &&& post.channels[id].sends.len() == pre.channels[id].sends.len() + 1
                    &&& post.channels[id].sends.drop_last() == pre.channels[id].sends
                    &&& post.channels[id].sends.last().0 == payload_bytes(payload)
                    &&& r is Ok <==> post.channels[id].sends.last().1 == Answer::Taken
                    &&& r is Ok ==> post.channels[id].sent() == pre.channels[id].sent().push(
                        payload_bytes(payload),
                    )
                    &&& r is Err ==> post.channels[id].sent() == pre.channels[id].sent()
                }
                &&& (pre.specific.state is Connecting || pre.specific.state is Connected)
                    && !pre.channels.contains_key(id) ==> r is Err && post == pre
                &&& pre.specific.state is Disconnected ==> r == Err::<(), _>(
                    ClientSendError::ConnectionClosed,
                ) && post == pre
                &&& other != id && pre.channels.contains_key(other) ==> post.channels.contains_key(
                    other,
                ) && post.channels[other] == pre.channels[other]
                &&& post.specific == pre.specific
                &&& post.close_orders == pre.close_orders
                &&& post.requests == pre.requests
            },
        forall|c: &mut ClientSideConnection, r: Result<(), ClientPayloadSendError>| #[trigger]
            call_ensures(ClientSideConnection::send_payload, (c, payload), r) && (
            *c)@.specific.send_channel_ids.default_channel == Some(id) && (
            *c)@.channels.contains_key(id) && !((*c)@.specific.state is Disconnected) ==> {
                let pre = (*c)@;
                let post = final(c)@;
                &&& post.channels[id].sends.len() == pre.channels[id].sends.len() + 1
                &&& post.channels[id].sends.last().0 == payload_bytes(payload)
                &&& r is Ok <==> post.channels[id].sends.last().1 == Answer::Taken
                &&& r is Ok ==> post.channels[id].sent() == pre.channels[id].sent().push(
                    payload_bytes(payload),
                )
            },
{
    law_client_send(id, payload);
    assert forall|c: &mut ClientSideConnection, r: Result<(), ClientSendError>| #[trigger]
        call_ensures(ClientSideConnection::send_payload_on, (c, id, payload), r) && (
        *c)@.channels.contains_key(id) && !((
        *c)@.specific.state is Disconnected) implies final(c)@.channels[id].sends.drop_last() == (
    *c)@.channels[id].sends && final(c)@.channels[id].sends.last().0 == payload_bytes(payload) by {
        assert(sends_on((*c)@, final(c)@, id, payload_bytes(payload), r));
        assert(final(c)@.channels[id].sends.drop_last() =~= (*c)@.channels[id].sends);
    }
    assert forall|c: &mut ClientSideConnection, r: Result<(), ClientSendError>| #[trigger]
        call_ensures(ClientSideConnection::send_payload_on, (c, id, payload), r) && (
        *c)@.channels.contains_key(other) implies final(c)@.channels.contains_key(other) by {
        assert(sends_on((*c)@, final(c)@, id, payload_bytes(payload), r));
        assert(final(c)@.channels.dom().contains(other));
    }
}

/// Disconnecting a connection that is connecting or connected tells its tasks, for the
/// reason that there is, and the connection is disconnected then; one that is disconnected
/// stays as it is, and its tasks are told nothing.
pub proof fn law_disconnecting_tells_the_tasks()
    ensures
        forall|c: &mut ClientSideConnection, r: Result<(), ClientConnectionCloseError>| #[trigger]
            call_ensures(ClientSideConnection::disconnect, (c,), r) ==> {
                &&& final(c)@.specific.state is Disconnected
                &&& (*c)@.specific.state is Connecting || (*c)@.specific.state is Connected ==> {
                    &&& listeners_told((*c)@.ends.close_send, CloseReason::LocalOrder, r is Ok)
                    &&& final(c)@.close_orders == (*c)@.close_orders.push(
                        (CloseReason::LocalOrder, r is Ok),
                    )
                }
                &&& (*c)@.specific.state is Disconnected ==> r is Ok && final(c)@ == (*c)@
                &&& final(c)@.channels == (*c)@.channels
                &&& final(c)@.buffers == (*c)@.buffers
            },
        forall|c: &mut ClientSideConnection, done: ()| #[trigger]
            call_ensures(ClientSideConnection::try_disconnect, (c,), done) ==> {
                &&& final(c)@.specific.state is Disconnected
                &&& (*c)@.specific.state is Connecting || (*c)@.specific.state is Connected ==> {
                    &&& final(c)@.close_orders.len() == (*c)@.close_orders.len() + 1
                    &&& final(c)@.close_orders.last().0 == CloseReason::LocalOrder
                    &&& listeners_told(
                        (*c)@.ends.close_send,
                        CloseReason::LocalOrder,
                        final(c)@.close_orders.last().1,
                    )
                }
                &&& (*c)@.specific.state is Disconnected ==> final(c)@ == (*c)@
            },
        forall|c: &mut ClientSideConnection, done: ()| #[trigger]
            call_ensures(ClientSideConnection::try_disconnect_closed_connection, (c,), done) ==> {
                &&& final(c)@.specific.state is Disconnected
                &&& (*c)@.specific.state is Connecting || (*c)@.specific.state is Connected ==> {
                    &&& final(c)@.close_orders.len() == (*c)@.close_orders.len() + 1
                    &&& final(c)@.close_orders.last().0 == CloseReason::PeerClosed
                    &&& listeners_told(
                        (*c)@.ends.close_send,
                        CloseReason::PeerClosed,
                        final(c)@.close_orders.last().1,
                    )
                }
                &&& (*c)@.specific.state is Disconnected ==> final(c)@ == (*c)@
            },
{
}

/// A connection connects only by the message that says so, and then it is connected with
/// what the message says. A connection that is connecting or connected, and is reported as
/// closed or lost, is lost, and not connected: it is disconnected then, and its tasks were
/// told that the peer closed it. One that is disconnected is not lost again.
pub proof fn law_inputs_change_the_state(input: ClientInput, step: ClientStep)
    ensures
        forall|c: &mut ClientSideConnection| #[trigger]
            call_ensures(ClientSideConnection::handle_input, (c, input), step) ==> {
                let pre = (*c)@;
                let post = final(c)@;
                &&& step is Connected ==> (input matches ClientInput::Message(
                    ClientAsyncMessage::Connected(connection, client_id),
                ) && step == ClientStep::Connected(client_id) && post.specific.state
                    == InternalConnectionState::Connected(connection, client_id))
                &&& post.specific.state is Connected && !(pre.specific.state is Connected)
                    ==> step is Connected
                &&& (input matches ClientInput::Message(ClientAsyncMessage::Connected(_, _)))
                    ==> step is Connected
                &&& (input matches ClientInput::Message(ClientAsyncMessage::ConnectionFailed(err))
                    ==> step == ClientStep::Failed(err) && post.specific.state is Disconnected)
                &&& (input is Report || (input matches ClientInput::Message(
                    ClientAsyncMessage::ConnectionClosed,
                ))) ==> {
                    &&& post.specific.state is Disconnected
                    &&& pre.specific.state is Connecting || pre.specific.state is Connected ==> {
                        &&& step is Lost
                        &&& post.close_orders.len() == pre.close_orders.len() + 1
                        &&& post.close_orders.last().0 == CloseReason::PeerClosed
                        &&& listeners_told(
                            pre.ends.close_send,
                            CloseReason::PeerClosed,
                            post.close_orders.last().1,
                        )
                    }
                    &&& pre.specific.state is Disconnected ==> step is Stale && post == pre
                }
            },
{
    assert forall|c: &mut ClientSideConnection| #[trigger]
        call_ensures(ClientSideConnection::handle_input, (c, input), step) implies input_comes_to(
        (*c)@,
        input,
        step,
        final(c)@,
    ) by {
        lemma_input_comes_to((*c)@, input, step, final(c)@);
    }
}

/// The same in a row: what each of the inputs of a connection comes to, by the state that
/// the ones before have left.
pub proof fn law_inputs_in_a_row(
    states: Seq<PeerConnectionView<ClientConnectionView>>,
    given: Seq<ClientInput>,
    steps: Seq<ClientStep>,
    i: int,
)
    requires
        goes_through(states, given, steps),
        0 <= i < given.len(),
    ensures
        steps[i] is Connected <==> (given[i] matches ClientInput::Message(
            ClientAsyncMessage::Connected(_, _),
        )),
        given[i] matches ClientInput::Message(ClientAsyncMessage::Connected(connection, client_id))
            ==> steps[i] == ClientStep::Connected(client_id) && states[i + 1].specific.state
            == InternalConnectionState::Connected(connection, client_id),
        given[i] matches ClientInput::Message(ClientAsyncMessage::ConnectionFailed(err)) ==> steps[i]
            == ClientStep::Failed(err) && states[i + 1].specific.state is Disconnected,
        given[i] is Report || (given[i] matches ClientInput::Message(
            ClientAsyncMessage::ConnectionClosed,
        )) ==> states[i + 1].specific.state is Disconnected,
        (given[i] is Report || (given[i] matches ClientInput::Message(
            ClientAsyncMessage::ConnectionClosed,
        ))) && !(states[i].specific.state is Disconnected) ==> steps[i] is Lost
            && states[i + 1].close_orders.len() == states[i].close_orders.len() + 1
            && states[i + 1].close_orders.last().0 == CloseReason::PeerClosed && listeners_told(
            states[i].ends.close_send,
            CloseReason::PeerClosed,
            states[i + 1].close_orders.last().1,
        ),
        (given[i] is Report || (given[i] matches ClientInput::Message(
            ClientAsyncMessage::ConnectionClosed,
        ))) && states[i].specific.state is Disconnected ==> steps[i] is Stale && states[i + 1]
            == states[i],
{
    assert(input_comes_to(states[i], given[i], steps[i], states[i + 1]));
}

/// A channel that is opened has the config that is given, and an id that was free and is
/// not any more; the tasks took a request for it, and for no other.
pub proof fn law_opened_channel_has_its_config(config: ChannelConfig, id: ChannelId)
    ensures
        forall|c: &mut ClientSideConnection| #[trigger]
            call_ensures(ClientSideConnection::open_channel, (c, config), Ok(id)) ==> {
                let pre = (*c)@;
                let post = final(c)@;
                &&& pre.specific.send_channel_ids.available.contains(id)
                &&& !post.specific.send_channel_ids.available.contains(id)
                &&& post.channels.contains_key(id)
                &&& post.channels[id].sends.len() == 0
                &&& post.requests.len() == pre.requests.len() + 1
                &&& post.requests.last().1 == Answer::Taken
                &&& post.requests.last().0->id == id
                &&& post.requests.last().0->config == config
                &&& queue_answered(pre.ends.to_channels_send, post.requests.last().0, Ok(()))
                &&& post.specific.state == pre.specific.state
            },
{
    law_client_open_channel(config, Ok(id));
}

/// A connection that is opened, or that connects again, has its channels as they are
/// configured: for each index, the tasks took a request for the channel of that id with
/// exactly the config that stands there, in order, and for nothing else, and the channel is
/// registered. It is connecting, and the first channel is the default channel.
pub proof fn law_channels_are_as_configured(
    config: IrohClientConnectionConfig,
    channels: SendChannelsConfiguration,
    cfg: crate::shared::peer_connection::RecvChannelsConfiguration,
    opened: (ConnectionLocalId, ConnectionTaskData),
    task: Option<ConnectionTaskData>,
    id: ChannelId,
)
    requires
        channels@.len() <= 256,
    ensures
        forall|c: &mut IrohClient| #[trigger]
            call_ensures(IrohClient::open_connection, (c, config, channels, cfg), Ok(opened)) && (
            *c)@.endpoint is Some && (*c)@.connection_local_id_gen < u64::MAX ==> {
                let post = final(c)@.connections[opened.0];
                &&& opened.0 == (*c)@.connection_local_id_gen
                &&& final(c)@.connections.contains_key(opened.0)
                &&& post.specific.state is Connecting
                &&& post.specific.config == config@
                &&& post.specific.channels_config == channels@
                &&& post.specific.endpoint == (*c)@.endpoint->0
                &&& post.recv_channels_cfg == cfg
                &&& post.requests.len() == channels@.len()
                &&& (id as int) < channels@.len() ==> {
                    &&& post.channels.contains_key(id)
                    &&& post.requests[id as int].1 == Answer::Taken
                    &&& post.requests[id as int].0->id == id
                    &&& post.requests[id as int].0->config == channels@[id as int]
                }
                &&& post.channels.contains_key(id) ==> (id as int) < channels@.len()
                &&& channels@.len() > 0 ==> post.specific.send_channel_ids.default_channel == Some(
                    0 as ChannelId,
                )
            },
        forall|c: &mut ClientSideConnection| #[trigger]
            call_ensures(ClientSideConnection::reconnect, (c,), Ok(task)) && (
            *c)@.specific.channels_config.len() <= 256 && (
            *c)@.specific.state is Disconnected ==> {
                let post = final(c)@;
                let configs = (*c)@.specific.channels_config;
                &&& task is Some
                &&& post.specific.state is Connecting
                &&& post.specific.config == (*c)@.specific.config
                &&& post.specific.channels_config == configs
                &&& post.requests.len() == configs.len()
                &&& (id as int) < configs.len() ==> {
                    &&& post.channels.contains_key(id)
                    &&& post.requests[id as int].1 == Answer::Taken
                    &&& post.requests[id as int].0->id == id
                    &&& post.requests[id as int].0->config == configs[id as int]
                }
                &&& post.channels.contains_key(id) ==> (id as int) < configs.len()
            },
        forall|c: &mut ClientSideConnection| #[trigger]
            call_ensures(ClientSideConnection::reconnect, (c,), Ok(task)) && !((
            *c)@.specific.state is Disconnected) ==> task is None && final(c)@ == (*c)@,
{
    law_open_connection(config, channels, cfg, Ok(opened));
    law_reconnect(Ok(task));
    assert forall|c: &mut IrohClient| #[trigger]
        call_ensures(IrohClient::open_connection, (c, config, channels, cfg), Ok(opened)) && (
        *c)@.endpoint is Some && (*c)@.connection_local_id_gen < u64::MAX && (id as int)
            < channels@.len() implies ({
        let post = final(c)@.connections[opened.0];
        &&& post.channels.contains_key(id)
        &&& post.requests[id as int].1 == Answer::Taken
        &&& post.requests[id as int].0->id == id
        &&& post.requests[id as int].0->config == channels@[id as int]
    }) by {
        let post = final(c)@.connections[opened.0];
        let start = choose|start: PeerConnectionView<ClientConnectionView>| #[trigger]
            opens_from(
                start,
                post,
                opened.0,
                (*c)@.endpoint->0,
                config,
                channels@,
                cfg,
                opened.1,
                Ok(()),
            );
        assert(opens_all(start, post, channels@));
        assert(channels@[id as int] == channels@[id as int]);
        assert(post.requests[start.requests.len() + id as int].0->id == id);
    }
    assert forall|c: &mut ClientSideConnection| #[trigger]
        call_ensures(ClientSideConnection::reconnect, (c,), Ok(task)) && (
        *c)@.specific.channels_config.len() <= 256 && (
        *c)@.specific.state is Disconnected && (id as int) < (
        *c)@.specific.channels_config.len() implies ({
        let post = final(c)@;
        let configs = (*c)@.specific.channels_config;
        &&& post.channels.contains_key(id)
        &&& post.requests[id as int].1 == Answer::Taken
        &&& post.requests[id as int].0->id == id
        &&& post.requests[id as int].0->config == configs[id as int]
    }) by {
        let post = final(c)@;
        let configs = (*c)@.specific.channels_config;
        let start = choose|start: PeerConnectionView<ClientConnectionView>| #[trigger]
            starts_over((*c)@, start, post, Ok(task));
        assert(opens_all(start, post, configs));
        assert(configs[id as int] == configs[id as int]);
        assert(post.requests[start.requests.len() + id as int].0->id == id);
    }
}

/// What waits on a channel comes out in order: a read gives the payload that has waited
/// longest, and leaves the others.
pub proof fn law_first_in_first_out(id: ChannelId, other: ChannelId)
    ensures
        forall|c: &mut ClientSideConnection, r: Result<Option<Bytes>, ConnectionClosed>| #[trigger]
            call_ensures(ClientSideConnection::receive_payload, (c, id), r) && !((
            *c)@.specific.state is Disconnected) ==> {
                let pre = (*c)@.buffers;
                let post = final(c)@.buffers;
                &&& r is Ok
                &&& r->Ok_0 is Some <==> pre[id].len() > 0
                &&& r->Ok_0 is Some ==> payload_bytes(r->Ok_0->0) == pre[id][0] && post[id].len()
                    == pre[id].len() - 1 && (forall|i: int|
                    0 <= i < post[id].len() ==> #[trigger] post[id][i] == pre[id][i + 1])
                &&& r->Ok_0 is None ==> post[id].len() == 0
                &&& other != id ==> post[other] == pre[other]
            },
{
    law_client_receive(id);
    assert forall|c: &mut ClientSideConnection, r: Result<Option<Bytes>, ConnectionClosed>|
        #[trigger]
        call_ensures(ClientSideConnection::receive_payload, (c, id), r) && !((
        *c)@.specific.state is Disconnected) implies reads((*c)@, final(c)@, id, r->Ok_0) && (
    r->Ok_0 is Some ==> final(c)@.buffers[id].len() == (*c)@.buffers[id].len() - 1) by {
        assert(reads((*c)@, final(c)@, id, r->Ok_0));
    }
}

/// What [`came`] says: all that a queue answered before, then the messages that came, in
/// order and with none left out, and then that there are no more.
pub proof fn law_what_came<T>(
    pre: Seq<Result<T, RecvFailure>>,
    post: Seq<Result<T, RecvFailure>>,
    messages: Seq<T>,
    limit: int,
    i: int,
)
    requires
        came(pre, post, messages, limit),
    ensures
        0 <= i < pre.len() ==> post[i] == pre[i],
        0 <= i < messages.len() ==> post[pre.len() + i] == Ok::<T, RecvFailure>(messages[i]),
        pre.len() + messages.len() <= i < post.len() ==> post[i] is Err,
        messages.len() < limit ==> post.len() == pre.len() + messages.len() + 1,
{
    if 0 <= i < pre.len() {
        assert(post[i] == pre[i]);
    }
    if 0 <= i < messages.len() {
        assert(post[pre.len() + i] == Ok::<T, RecvFailure>(messages[i]));
    }
}

/// What is picked out of a sequence, by its last element.
proof fn lemma_pick<A, B>(s: Seq<A>, keep: spec_fn(A) -> bool, f: spec_fn(A) -> B)
    requires
        s.len() > 0,
    ensures
        s.filter(keep).map_values(f) == if keep(s.last()) {
            s.drop_last().filter(keep).map_values(f).push(f(s.last()))
        } else {
            s.drop_last().filter(keep).map_values(f)
        },
{
    reveal(Seq::filter);
    if keep(s.last()) {
        assert(s.filter(keep).map_values(f) =~= s.drop_last().filter(keep).map_values(f).push(
            f(s.last()),
        ));
    }
}

/// What the steps of a connection have to do with what it was given, in number and order.
proof fn lemma_steps_of_inputs(
    states: Seq<PeerConnectionView<ClientConnectionView>>,
    given: Seq<ClientInput>,
    steps: Seq<ClientStep>,
)
    requires
        goes_through(states, given, steps),
    ensures
        steps.filter(|s: ClientStep| s is Connected).map_values(|s: ClientStep| s->Connected_0)
            =~= given.filter(
            |g: ClientInput| g is Message && g->Message_0 is Connected,
        ).map_values(|g: ClientInput| g->Message_0->Connected_1),
        steps.filter(|s: ClientStep| s is Failed).map_values(|s: ClientStep| s->Failed_0)
            =~= given.filter(
            |g: ClientInput| g is Message && g->Message_0 is ConnectionFailed,
        ).map_values(|g: ClientInput| g->Message_0->ConnectionFailed_0),
        steps.filter(|s: ClientStep| s is Lost).len() + (
        if states.last().specific.state is Disconnected {
            0int
        } else {
            1
        }) <= steps.filter(|s: ClientStep| s is Connected).len() + (
        if states.first().specific.state is Disconnected {
            0int
        } else {
            1
        }),
        (forall|i: int|
            0 <= i < given.len() ==> !((#[trigger] given[i]) is Message && (
            given[i]->Message_0 is Connected || given[i]->Message_0 is ConnectionFailed))) ==> {
            &&& given.len() == 0 ==> states.last() == states.first()
            &&& given.len() > 0 ==> states.last().specific.state is Disconnected
            &&& steps.filter(|s: ClientStep| s is Lost).len() == if given.len() > 0 && !(
            states.first().specific.state is Disconnected) {
                1int
            } else {
                0
            }
        },
    decreases given.len(),
{
    reveal(Seq::filter);
    if given.len() > 0 {
        let n = given.len() - 1;
        let earlier = states.drop_last();
        let given_before = given.drop_last();
        let steps_before = steps.drop_last();
        assert forall|i: int| 0 <= i < n implies input_comes_to(
            earlier[i],
            given_before[i],
            #[trigger] steps_before[i],
            earlier[i + 1],
        ) by {
            assert(steps_before[i] == steps[i]);
        }
        lemma_steps_of_inputs(earlier, given_before, steps_before);
        assert(earlier.last() == states[n]);
        law_inputs_in_a_row(states, given, steps, n);
        assert(given.last() == given[n] && steps.last() == steps[n]);
        lemma_pick(steps, |s: ClientStep| s is Connected, |s: ClientStep| s->Connected_0);
        lemma_pick(steps, |s: ClientStep| s is Failed, |s: ClientStep| s->Failed_0);
        lemma_pick(
            given,
            |g: ClientInput| g is Message && g->Message_0 is Connected,
            |g: ClientInput| g->Message_0->Connected_1,
        );
        lemma_pick(
            given,
            |g: ClientInput| g is Message && g->Message_0 is ConnectionFailed,
            |g: ClientInput| g->Message_0->ConnectionFailed_0,
        );
        if forall|i: int|
            0 <= i < given.len() ==> !((#[trigger] given[i]) is Message && (
            given[i]->Message_0 is Connected || given[i]->Message_0 is ConnectionFailed)) {
            assert forall|i: int| 0 <= i < given_before.len() implies !((
            #[trigger] given_before[i]) is Message && (given_before[i]->Message_0 is Connected
                || given_before[i]->Message_0 is ConnectionFailed)) by {
                assert(given_before[i] == given[i]);
            }
        }
    }
}

/// What is given to a connection, and what came of it from its queues.
proof fn lemma_inputs_of_messages(
    messages: Seq<ClientAsyncMessage>,
    reports: Seq<ChannelAsyncMessage>,
)
    ensures
        ({
            let given = messages.map_values(|m: ClientAsyncMessage| ClientInput::Message(m))
                + reports.map_values(|r: ChannelAsyncMessage| ClientInput::Report(r));
            &&& given.filter(
                |g: ClientInput| g is Message && g->Message_0 is Connected,
            ).map_values(|g: ClientInput| g->Message_0->Connected_1) =~= messages.filter(
                |m: ClientAsyncMessage| m is Connected,
            ).map_values(|m: ClientAsyncMessage| m->Connected_1)
            &&& given.filter(
                |g: ClientInput| g is Message && g->Message_0 is ConnectionFailed,
            ).map_values(|g: ClientInput| g->Message_0->ConnectionFailed_0) =~= messages.filter(
                |m: ClientAsyncMessage| m is ConnectionFailed,
            ).map_values(|m: ClientAsyncMessage| m->ConnectionFailed_0)
        }),
    decreases messages.len() + reports.len(),
{
    reveal(Seq::filter);
    let told = messages.map_values(|m: ClientAsyncMessage| ClientInput::Message(m));
    let given = told + reports.map_values(|r: ChannelAsyncMessage| ClientInput::Report(r));
    if reports.len() > 0 {
        lemma_inputs_of_messages(messages, reports.drop_last());
        lemma_pick(
            given,
            |g: ClientInput| g is Message && g->Message_0 is Connected,
            |g: ClientInput| g->Message_0->Connected_1,
        );
        lemma_pick(
            given,
            |g: ClientInput| g is Message && g->Message_0 is ConnectionFailed,
            |g: ClientInput| g->Message_0->ConnectionFailed_0,
        );
        assert(given.drop_last() =~= told + reports.drop_last().map_values(
            |r: ChannelAsyncMessage| ClientInput::Report(r),
        ));
    } else if messages.len() > 0 {
        lemma_inputs_of_messages(messages.drop_last(), reports);
        lemma_pick(
            given,
            |g: ClientInput| g is Message && g->Message_0 is Connected,
            |g: ClientInput| g->Message_0->Connected_1,
        );
        lemma_pick(
            given,
            |g: ClientInput| g is Message && g->Message_0 is ConnectionFailed,
            |g: ClientInput| g->Message_0->ConnectionFailed_0,
        );
        lemma_pick(
            messages,
            |m: ClientAsyncMessage| m is Connected,
            |m: ClientAsyncMessage| m->Connected_1,
        );
        lemma_pick(
            messages,
            |m: ClientAsyncMessage| m is ConnectionFailed,
            |m: ClientAsyncMessage| m->ConnectionFailed_0,
        );
        assert(given.drop_last() =~= messages.drop_last().map_values(
            |m: ClientAsyncMessage| ClientInput::Message(m),
        ) + reports.map_values(|r: ChannelAsyncMessage| ClientInput::Report(r)));
    }
}

/// The events of the client are those of what came: one that a connection is established
/// for each message that says so, with the client id of that message, in order; one that
/// it failed for each message that says so, with why, in order. Where neither came, one
/// that it is lost exactly where it was not disconnected and anything came at all, and it
/// is disconnected then; a connection to which nothing came has no events and keeps its
/// state. It is not lost more often than it was established. A connection that is not
/// there has no events.
pub proof fn law_events_are_what_came(r: ClientEvents, id: ConnectionLocalId)
    ensures
        forall|c: &mut IrohClient| #[trigger]
            call_ensures(handle_client_events, (c,), r) && (*c)@.connections.contains_key(id)
                ==> exists|messages: Seq<ClientAsyncMessage>, reports: Seq<ChannelAsyncMessage>|
                {
                    let pre = (*c)@.connections[id];
                    let post = final(c)@.connections[id];
                    let connected = r.connection_events@.filter(|e: ConnectionEvent| e.id == id);
                    let failed = r.connection_failed_events@.filter(
                        |e: ConnectionFailedEvent| e.id == id,
                    );
                    let lost = r.connection_lost_events@.filter(
                        |e: ConnectionLostEvent| e.id == id,
                    );
                    &&& final(c)@.connections.contains_key(id)
                    &&& #[trigger] came(
                        (*c)@.connections[id].specific.messages,
                        final(c)@.connections[id].specific.messages,
                        messages,
                        usize::MAX as int,
                    )
                    &&& #[trigger] came(
                        (*c)@.connections[id].reports,
                        final(c)@.connections[id].reports,
                        reports,
                        usize::MAX as int,
                    )
                    &&& connected.map_values(|e: ConnectionEvent| e.client_id) == messages.filter(
                        |m: ClientAsyncMessage| m is Connected,
                    ).map_values(|m: ClientAsyncMessage| m->Connected_1)
                    &&& failed.map_values(|e: ConnectionFailedEvent| e.err) == messages.filter(
                        |m: ClientAsyncMessage| m is ConnectionFailed,
                    ).map_values(|m: ClientAsyncMessage| m->ConnectionFailed_0)
                    &&& lost.len() <= connected.len() + if pre.specific.state is Disconnected {
                        0int
                    } else {
                        1
                    }
                    &&& connected.len() == 0 && failed.len() == 0 ==> {
                        &&& lost.len() == if messages.len() + reports.len() > 0 && !(
                        pre.specific.state is Disconnected) {
                            1int
                        } else {
                            0
                        }
                        &&& messages.len() + reports.len() > 0
                            ==> post.specific.state is Disconnected
                        &&& messages.len() + reports.len() == 0 ==> post.specific.state
                            == pre.specific.state
                    }
                },
        forall|c: &mut IrohClient| #[trigger]
            call_ensures(handle_client_events, (c,), r) && !(*c)@.connections.contains_key(id)
                ==> !final(c)@.connections.contains_key(id) && r.connection_events@.filter(
                |e: ConnectionEvent| e.id == id,
            ).len() == 0 && r.connection_failed_events@.filter(
                |e: ConnectionFailedEvent| e.id == id,
            ).len() == 0 && r.connection_lost_events@.filter(
                |e: ConnectionLostEvent| e.id == id,
            ).len() == 0,
{
    law_handle_client_events(r, id);
    assert forall|c: &mut IrohClient| #[trigger]
        call_ensures(handle_client_events, (c,), r) && (
        *c)@.connections.contains_key(id) implies exists|
        messages: Seq<ClientAsyncMessage>,
        reports: Seq<ChannelAsyncMessage>,
    |
        {
            let pre = (*c)@.connections[id];
            let post = final(c)@.connections[id];
            let connected = r.connection_events@.filter(|e: ConnectionEvent| e.id == id);
            let failed = r.connection_failed_events@.filter(|e: ConnectionFailedEvent| e.id == id);
            let lost = r.connection_lost_events@.filter(|e: ConnectionLostEvent| e.id == id);
            &&& final(c)@.connections.contains_key(id)
            &&& #[trigger] came(
                        (*c)@.connections[id].specific.messages,
                        final(c)@.connections[id].specific.messages,
                messages,
                usize::MAX as int,
            )
            &&& #[trigger] came(
                        (*c)@.connections[id].reports,
                        final(c)@.connections[id].reports,
                        reports,
                        usize::MAX as int,
                    )
            &&& connected.map_values(|e: ConnectionEvent| e.client_id) == messages.filter(
                |m: ClientAsyncMessage| m is Connected,
            ).map_values(|m: ClientAsyncMessage| m->Connected_1)
            &&& failed.map_values(|e: ConnectionFailedEvent| e.err) == messages.filter(
                |m: ClientAsyncMessage| m is ConnectionFailed,
            ).map_values(|m: ClientAsyncMessage| m->ConnectionFailed_0)
            &&& lost.len() <= connected.len() + if pre.specific.state is Disconnected {
                0int
            } else {
                1
            }
            &&& connected.len() == 0 && failed.len() == 0 ==> {
                &&& lost.len() == if messages.len() + reports.len() > 0 && !(
                pre.specific.state is Disconnected) {
                    1int
                } else {
                    0
                }
                &&& messages.len() + reports.len() > 0 ==> post.specific.state is Disconnected
                &&& messages.len() + reports.len() == 0 ==> post.specific.state
                    == pre.specific.state
            }
        } by {
        let (messages, reports, states, steps) = choose|
            messages: Seq<ClientAsyncMessage>,
            reports: Seq<ChannelAsyncMessage>,
            states: Seq<PeerConnectionView<ClientConnectionView>>,
            steps: Seq<ClientStep>,
        | #[trigger]
            connection_updates(
                (*c)@,
                final(c)@,
                r@,
                id,
                messages,
                reports,
                states,
                steps,
            );
        let given = messages.map_values(|m: ClientAsyncMessage| ClientInput::Message(m))
            + reports.map_values(|r: ChannelAsyncMessage| ClientInput::Report(r));
        lemma_steps_of_inputs(states, given, steps);
        lemma_inputs_of_messages(messages, reports);
        let pre = (*c)@.connections[id];
        let post = final(c)@.connections[id];
        let connected = r.connection_events@.filter(|e: ConnectionEvent| e.id == id);
        let failed = r.connection_failed_events@.filter(|e: ConnectionFailedEvent| e.id == id);
        let lost = r.connection_lost_events@.filter(|e: ConnectionLostEvent| e.id == id);
        assert(events_about(r@, id) == events_for(id, steps));
        assert(connected == events_for(id, steps).connected);
        assert(failed == events_for(id, steps).failed);
        assert(lost == events_for(id, steps).lost);
        assert(connected.map_values(|e: ConnectionEvent| e.client_id) =~= steps.filter(
            |s: ClientStep| s is Connected,
        ).map_values(|s: ClientStep| s->Connected_0));
        assert(failed.map_values(|e: ConnectionFailedEvent| e.err) =~= steps.filter(
            |s: ClientStep| s is Failed,
        ).map_values(|s: ClientStep| s->Failed_0));
        if connected.len() == 0 && failed.len() == 0 {
            assert forall|i: int| 0 <= i < given.len() implies !((#[trigger] given[i]) is Message
                && (given[i]->Message_0 is Connected
                || given[i]->Message_0 is ConnectionFailed)) by {
                broadcast use vstd::seq_lib::group_filter_ensures;

                law_inputs_in_a_row(states, given, steps, i);
                if steps[i] is Connected {
                    assert(steps.filter(|s: ClientStep| s is Connected).contains(steps[i]));
                }
                if steps[i] is Failed {
                    assert(steps.filter(|s: ClientStep| s is Failed).contains(steps[i]));
                }
            }
        }
        assert(came(
            pre.specific.messages,
            post.specific.messages,
            messages,
            usize::MAX as int,
        ));
        assert(came(pre.reports, post.reports, reports, usize::MAX as int));
    }
}

/// How the events about a full channel are counted: none among no events, and each event
/// counts once, for the connection and the channel that it names.
pub proof fn law_full_events_are_counted(
    events: Seq<ClientRecvChannelError>,
    event: ClientRecvChannelError,
    id: ConnectionLocalId,
    channel: ChannelId,
)
    ensures
        full_events(Seq::empty(), id, channel) == 0,
        full_events(events.push(event), id, channel) == full_events(events, id, channel) + (
        if event.id == id && event.error
            == crate::shared::error::RecvChannelError::RecvChannelFull(channel) {
            1int
        } else {
            0
        }),
{
    reveal(Seq::filter);
    assert(events.push(event).drop_last() =~= events);
}

/// A client id is read from the first eight bytes of a frame, the most significant first,
/// and from nothing else; a shorter frame is invalid. The task that establishes a
/// connection reports exactly that: it is connected with the id that was read, and it
/// failed where the frame is too short or there is none; nothing is reported where the
/// reception was interrupted.
pub proof fn law_client_id_is_read(
    config: IrohClientConnectionConfig,
    shares_id: bool,
    connection: InternalConnectionRef,
    frame: Vec<u8>,
    r: ConnectingAction,
)
    ensures
        forall|bytes: &[u8], id: Result<ClientId, IrohConnectionError>| #[trigger]
            call_ensures(client_id_from_frame, (bytes,), id) ==> {
                &&& bytes@.len() < 8 <==> id == Err::<ClientId, _>(
                    IrohConnectionError::InvalidClientId,
                )
                &&& bytes@.len() >= 8 ==> id is Ok && id->Ok_0 == bytes@[0]
                    * 0x100_0000_0000_0000 + bytes@[1] * 0x1_0000_0000_0000 + bytes@[2]
                    * 0x100_0000_0000 + bytes@[3] * 0x1_0000_0000 + bytes@[4] * 0x100_0000
                    + bytes@[5] * 0x1_0000 + bytes@[6] * 0x100 + bytes@[7]
            },
        forall|state: &mut ConnectingState| #[trigger]
            call_ensures(
                connecting_step,
                (
                    &config,
                    shares_id,
                    state,
                    ConnectingEvent::IdAwaited(ClientIdEvent::Frame(frame)),
                ),
                r,
            ) && *state == ConnectingState::AwaitingId(connection) ==> {
                &&& *final(state) is Ended
                &&& frame@.len() < 8 ==> r == ConnectingAction::Signal(
                    ClientAsyncMessage::ConnectionFailed(IrohConnectionError::InvalidClientId),
                )
                &&& frame@.len() >= 8 ==> (r matches ConnectingAction::Signal(
                    ClientAsyncMessage::Connected(established, Some(id)),
                ) && established == connection && id == frame@[0] * 0x100_0000_0000_0000 + frame@[1]
                    * 0x1_0000_0000_0000 + frame@[2] * 0x100_0000_0000 + frame@[3] * 0x1_0000_0000
                    + frame@[4] * 0x100_0000 + frame@[5] * 0x1_0000 + frame@[6] * 0x100 + frame@[7])
            },
        forall|state: &mut ConnectingState| #[trigger]
            call_ensures(
                connecting_step,
                (&config, shares_id, state, ConnectingEvent::IdAwaited(ClientIdEvent::NoFrame)),
                r,
            ) && *state == ConnectingState::AwaitingId(connection) ==> *final(state) is Ended && r
                == ConnectingAction::Signal(
                ClientAsyncMessage::ConnectionFailed(IrohConnectionError::ClientIdNotReceived),
            ),
        forall|state: &mut ConnectingState| #[trigger]
            call_ensures(
                connecting_step,
                (
                    &config,
                    shares_id,
                    state,
                    ConnectingEvent::IdAwaited(ClientIdEvent::CloseOrdered),
                ),
                r,
            ) && *state == ConnectingState::AwaitingId(connection) ==> *final(state) is Ended
                && r is Nothing,
{
    law_connecting(
        config,
        shares_id,
        ConnectingEvent::IdAwaited(ClientIdEvent::Frame(frame)),
        r,
    );
    law_connecting(config, shares_id, ConnectingEvent::IdAwaited(ClientIdEvent::NoFrame), r);
    law_connecting(config, shares_id, ConnectingEvent::IdAwaited(ClientIdEvent::CloseOrdered), r);
    law_receive_client_id(ClientIdEvent::NoFrame, ClientIdReception::Interrupted);
}

/// Reconnecting a connection that is disconnected starts it over with fresh queues, to
/// which the task to start has the other halves, and keeps its id and configuration:
/// nothing is left of what it was sent, of what it was told or of what waited to be read.
pub proof fn law_reconnected_connection_is_fresh(task: ConnectionTaskData, id: ChannelId)
    ensures
        forall|c: &mut ClientSideConnection| #[trigger]
            call_ensures(ClientSideConnection::reconnect, (c,), Ok(Some(task))) && (
            *c)@.specific.channels_config.len() <= 256 ==> {
                let pre = (*c)@;
                let post = final(c)@;
                &&& pre.specific.state is Disconnected
                &&& post.specific.state is Connecting
                &&& post.specific.local_id == pre.specific.local_id
                &&& post.specific.endpoint == pre.specific.endpoint
                &&& post.specific.messages.len() == 0
                &&& post.recv_channels_cfg == pre.recv_channels_cfg
                &&& post.buffers[id].len() == 0
                &&& post.channels.contains_key(id) ==> post.channels[id].sends.len() == 0
                &&& post.close_orders.len() == 0
                &&& post.reports.len() == 0
                &&& post.arrived.len() == 0
                &&& task.local_id == pre.specific.local_id
                &&& task.config@ == pre.specific.config
                &&& task.endpoint == pre.specific.endpoint
                &&& mpsc_halves(
                    DEFAULT_MESSAGE_QUEUE_SIZE,
                    task.bytes_from_server_send,
                    post.ends.bytes_from_peer_recv,
                )
                &&& mpsc_halves(
                    DEFAULT_INTERNAL_MESSAGES_CHANNEL_SIZE,
                    task.to_sync_client_send,
                    post.specific.messages_half,
                )
                &&& mpsc_halves(
                    DEFAULT_INTERNAL_MESSAGES_CHANNEL_SIZE,
                    task.from_channels_send,
                    post.ends.from_channels_recv,
                )
                &&& mpsc_halves(
                    DEFAULT_QCHANNEL_MESSAGES_CHANNEL_SIZE,
                    post.ends.to_channels_send,
                    task.to_channels_recv,
                )
                &&& broadcast_halves(
                    DEFAULT_KILL_MESSAGE_QUEUE_SIZE,
                    post.ends.close_send,
                    task.close_recv,
                )
            },
{
    law_reconnect(Ok(Some(task)));
}

/// An error that is passed on keeps what it says.
pub proof fn law_client_errors_convert(
    send: ConnectionSendError,
    sent: ClientSendError,
    payload: ClientPayloadSendError,
    closed: ConnectionAlreadyClosed,
    closing: ClientConnectionCloseError,
)
    ensures
        call_ensures(<ClientSendError as From<ConnectionSendError>>::from, (send,), sent) ==> sent
            == ClientSendError::ConnectionSendError(send),
        call_ensures(<ClientPayloadSendError as From<ClientSendError>>::from, (sent,), payload)
            ==> payload == ClientPayloadSendError::SendError(sent),
        call_ensures(
            <ClientConnectionCloseError as From<ConnectionAlreadyClosed>>::from,
            (closed,),
            closing,
        ) ==> closing == ClientConnectionCloseError::ConnectionAlreadyClosed(closed),
{
}

} // verus!
