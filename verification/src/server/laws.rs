//! What holds of a server as a whole.

#[allow(unused_imports)]
use iroh::Endpoint;
use vstd::prelude::*;

#[allow(unused_imports)]
use crate::server::connection::{acked, ServerConnectionView};
#[allow(unused_imports)]
use crate::server::endpoint::events::{accepted_ids, is_trace, lost_ids, ServerStep};
#[allow(unused_imports)]
use crate::server::endpoint::send::{connection_result, failures};
#[allow(unused_imports)]
use crate::server::endpoint::ServerEndpointView;
#[allow(unused_imports)]
use crate::server::{client_task, started};
#[allow(unused_imports)]
use crate::server::{ClientTaskAction, ClientTaskEvent, ClientTaskState};
#[allow(unused_imports)]
use crate::server::{
    ServerAsyncMessage, ServerReceiveError, ServerSendError, ServerSyncMessage,
};
#[allow(unused_imports)]
use crate::shared::channels::{
    links_for, ChannelAsyncMessage, ChannelConfig, ChannelId, ChannelSyncMessage, CloseReason,
    Link,
};
#[allow(unused_imports)]
use crate::shared::error::{AsyncChannelError, ChannelCreationError, ConnectionSendError};
#[allow(unused_imports)]
use crate::shared::laws::{
    law_channels_stay_wired, law_first_come_first_read, law_linked_channels,
    law_release_undoes_take, lemma_wired, of_channel,
};
#[allow(unused_imports)]
use crate::shared::listing::{lists_entries, lists_keys};
#[allow(unused_imports)]
use crate::shared::peer_connection::{PeerConnectionView, RecvChannelsConfiguration};
#[allow(unused_imports)]
use crate::shared::queues::{queue_answered, Answer, Batch};
#[allow(unused_imports)]
use tokio::sync::{broadcast, mpsc};
#[allow(unused_imports)]
use crate::shared::ClientId;

verus! {

/// A client is accepted under an id that no client has, and that is greater than
/// every id given before.
pub proof fn law_accepted_id_is_fresh(
    pre: ServerEndpointView,
    post: ServerEndpointView,
    connection: PeerConnectionView<ServerConnectionView>,
    id: ClientId,
)
    requires
        pre.wf(),
        post.accepts(pre, connection, Ok(id)),
    ensures
        !pre.clients.contains_key(id),
        id > pre.client_id_gen,
        post.client_id_gen == id,
        post.clients.dom() == pre.clients.dom().insert(id),
        forall|other: ClientId| #[trigger]
            pre.clients.contains_key(other) ==> other < id && post.clients[other]
                == pre.clients[other],
{
    assert(post.clients.dom() =~= pre.clients.dom().insert(id));
}

/// A client that is accepted has every open channel, and nothing was sent on any
/// of them; its tasks were asked for each, with its config, and were told the id.
pub proof fn law_accepted_client_has_open_channels(
    pre: ServerEndpointView,
    post: ServerEndpointView,
    connection: PeerConnectionView<ServerConnectionView>,
    id: ClientId,
    channel: ChannelId,
)
    requires
        post.accepts(pre, connection, Ok(id)),
        pre.opened_channels.contains_key(channel),
    ensures
        post.clients[id].channels.contains_key(channel),
        post.clients[id].channels[channel].fresh(),
        exists|request: ChannelSyncMessage| #[trigger]
            post.clients[id].requests.contains((request, Answer::Taken)) && request->id == channel
                && request->config == pre.opened_channels[channel],
        post.clients[id].specific.acks == connection.specific.acks.push((id, Answer::Taken)),
        post.clients[id].ends == connection.ends,
        connection.wired() ==> post.clients[id].wired(),
{
    let (entries, links) = choose|entries: Seq<(ChannelId, ChannelConfig)>, links: Seq<Link>|
        lists_entries(entries, pre.opened_channels) && #[trigger] links_for(links, entries)
            && post == pre.accept(acked(connection.link_each(links), id, Answer::Taken));
    law_linked_channels(connection, links, entries);
    let keys = entries.map_values(|e: (ChannelId, ChannelConfig)| e.0);
    assert(keys.contains(channel));
    let i = choose|i: int| 0 <= i < keys.len() && keys[i] == channel;
    assert(entries[i].0 == channel);
    assert(links[i].made_for(entries[i].0, entries[i].1));
    let request = links[i].request;
    if connection.wired() {
        lemma_wired(connection.link_each(links), post.clients[id]);
    }
    let requests = post.clients[id].requests;
    assert(requests[connection.requests.len() + i] == (request, Answer::Taken));
    assert(requests.contains((request, Answer::Taken)));
}

/// A connection that is refused is ordered to close, and no client is added. It is
/// refused because its tasks refused an open channel, with the error of that, and
/// then it was told no id; or because they took every open channel and refused the
/// id that was spent on it.
pub proof fn law_refused_client_is_told(
    pre: ServerEndpointView,
    post: ServerEndpointView,
    connection: PeerConnectionView<ServerConnectionView>,
    refused: PeerConnectionView<ServerConnectionView>,
    e: AsyncChannelError,
)
    requires
        pre.client_id_gen < ClientId::MAX,
        post.refuses(pre, connection, refused, e),
    ensures
        connection.told(CloseReason::LocalOrder),
        refused.close_orders.len() == connection.close_orders.len() + 1,
        refused.close_orders.last().0 == CloseReason::LocalOrder,
        post.clients == pre.clients,
        post.stats == pre.stats,
        post.opened_channels == pre.opened_channels,
        post.client_id_gen == pre.client_id_gen ==> refused.specific.acks
            == connection.specific.acks && exists|request: ChannelSyncMessage|
            pre.opened_channels.contains_key(request->id) && #[trigger] connection.turned_down(
                request,
                request->id,
                pre.opened_channels[request->id],
                e,
            ),
        post.client_id_gen != pre.client_id_gen ==> e == AsyncChannelError::InternalChannelClosed
            && refused.specific.acks.last().1 is Refused && exists|why: AsyncChannelError|
            #[trigger] connection.id_offered((pre.client_id_gen + 1) as ClientId, Err(why)),
{
    let entries = choose|entries: Seq<(ChannelId, ChannelConfig)>| #[trigger]
        lists_entries(entries, pre.opened_channels) && {
            ||| post == pre && refused.closed_over(connection, entries, e)
            ||| {
                let id = (pre.client_id_gen + 1) as ClientId;
                &&& e == AsyncChannelError::InternalChannelClosed
                &&& post == (ServerEndpointView { client_id_gen: id, ..pre })
                &&& exists|links: Seq<Link>| #[trigger]
                    links_for(links, entries) && connection.took_each(links)
                        && refused.unacknowledged(connection.link_each(links), id)
            }
        };
    if post == pre && refused.closed_over(connection, entries, e) {
        let (n, links, request, heard) = choose|
            n: int,
            links: Seq<Link>,
            request: ChannelSyncMessage,
            heard: bool,
        |
            {
                &&& 0 <= n < entries.len()
                &&& #[trigger] links_for(links, entries.take(n))
                &&& connection.took_each(links)
                &&& #[trigger] connection.turned_down(request, entries[n].0, entries[n].1, e)
                &&& #[trigger] connection.was_told(CloseReason::LocalOrder, heard)
                &&& refused == connection.link_each(links).ask(
                    request,
                    Answer::Refused(e),
                ).told_to_close(CloseReason::LocalOrder, heard)
            };
        law_linked_channels(connection, links, entries.take(n));
        let keys = entries.map_values(|e: (ChannelId, ChannelConfig)| e.0);
        assert(keys[n] == entries[n].0);
        assert(connection.turned_down(
            request,
            request->id,
            pre.opened_channels[request->id],
            e,
        ));
    } else {
        let id = (pre.client_id_gen + 1) as ClientId;
        let links = choose|links: Seq<Link>| #[trigger]
            links_for(links, entries) && connection.took_each(links) && refused.unacknowledged(
                connection.link_each(links),
                id,
            );
        law_linked_channels(connection, links, entries);
        let linked = connection.link_each(links);
        let (why, heard) = choose|why: AsyncChannelError, heard: bool|
            {
                &&& #[trigger] linked.id_offered(id, Err(why))
                &&& #[trigger] linked.was_told(CloseReason::LocalOrder, heard)
                &&& refused == acked(linked, id, Answer::Refused(why)).told_to_close(
                    CloseReason::LocalOrder,
                    heard,
                )
            };
        assert(connection.was_told(CloseReason::LocalOrder, heard));
        assert(connection.id_offered(id, Err(why)));
    }
}

/// A connection is accepted where its queues take all that is offered to them: it
/// gets the id that follows the last one given, and counts.
pub proof fn law_taken_connection_is_accepted(
    pre: ServerEndpointView,
    post: ServerEndpointView,
    connection: PeerConnectionView<ServerConnectionView>,
    r: Result<ClientId, AsyncChannelError>,
)
    requires
        pre.has_room(),
        post.accepts(pre, connection, r),
        forall|request: ChannelSyncMessage, e: AsyncChannelError|
            !#[trigger] queue_answered(connection.ends.to_channels_send, request, Err(e)),
        forall|id: ClientId, e: AsyncChannelError| !#[trigger] connection.id_offered(id, Err(e)),
    ensures
        r matches Ok(id) && id == pre.client_id_gen + 1 && post.client_id_gen == id
            && post.clients.dom() == pre.clients.dom().insert(id),
        post.stats.connect_count == pre.stats.connect_count + 1,
        post.stats.disconnect_count == pre.stats.disconnect_count,
{
    if let Err(e) = r {
        let refused = choose|refused: PeerConnectionView<ServerConnectionView>| #[trigger]
            post.refuses(pre, connection, refused, e);
        law_refused_client_is_told(pre, post, connection, refused, e);
        assert(false);
    } else {
        assert(post.clients.dom() =~= pre.clients.dom().insert(r->Ok_0));
    }
}

/// While an endpoint is sound, sending to a connected client on an open channel
/// can only fail because the queue of the channel does not take the payload.
pub proof fn law_open_channels_reach_clients(
    endpoint: ServerEndpointView,
    client_id: ClientId,
    channel_id: ChannelId,
    r: Result<(), ServerSendError>,
)
    requires
        endpoint.sound(),
        endpoint.clients.contains_key(client_id),
        endpoint.opened_channels.contains_key(channel_id),
        endpoint.send_possible(client_id, channel_id, r),
    ensures
        r is Ok || r matches Err(
            ServerSendError::ConnectionSendError(ConnectionSendError::AsyncChannelError(_)),
        ),
{
    assert(endpoint.clients[client_id].channels.contains_key(channel_id));
}

/// A client that was disconnected is unknown from then on: nothing can be sent to
/// it or received from it. The others are left alone.
pub proof fn law_disconnected_client_is_unknown(
    pre: ServerEndpointView,
    client_id: ClientId,
    channel_id: ChannelId,
    sent: Result<(), ServerSendError>,
    post: ServerEndpointView,
    received: Result<Option<Seq<u8>>, ServerReceiveError>,
    other: ClientId,
)
    requires
        pre.disconnect(client_id).send_possible(client_id, channel_id, sent),
        post.received(pre.disconnect(client_id), client_id, channel_id, received),
    ensures
        sent == Err::<(), _>(ServerSendError::UnknownClient(client_id)),
        received == Err::<Option<Seq<u8>>, _>(ServerReceiveError::UnknownClient(client_id)),
        other != client_id && pre.clients.contains_key(other) ==> pre.disconnect(
            client_id,
        ).clients.contains_key(other) && pre.disconnect(client_id).clients[other]
            == pre.clients[other],
{
}

/// Where a client that is named once among `ids` comes to stand after a group
/// send.
proof fn lemma_group_outcome(
    pre: ServerEndpointView,
    ids: Seq<ClientId>,
    channel_id: ChannelId,
    payload: Seq<u8>,
    outcomes: Seq<Result<(), ServerSendError>>,
    id: ClientId,
    at: int,
)
    requires
        ids.no_duplicates(),
        outcomes.len() <= ids.len(),
        forall|i: int|
            0 <= i < outcomes.len() ==> pre.send_possible(
                ids[i],
                channel_id,
                #[trigger] outcomes[i],
            ),
        pre.clients.contains_key(id),
        ids.contains(id) ==> 0 <= at < ids.len() && ids[at] == id,
    ensures
        ({
            let post = pre.after_group(ids, channel_id, payload, outcomes);
            &&& post.clients.contains_key(id)
            &&& post.clients[id] == if ids.contains(id) && at < outcomes.len() {
                pre.clients[id].after_send(
                    channel_id,
                    payload,
                    connection_result(outcomes[at]),
                )
            } else {
                pre.clients[id]
            }
        }),
    decreases outcomes.len(),
{
    let n = outcomes.len() as int;
    if n > 0 {
        let before = outcomes.drop_last();
        assert forall|i: int| 0 <= i < before.len() implies pre.send_possible(
            ids[i],
            channel_id,
            #[trigger] before[i],
        ) by {
            assert(before[i] == outcomes[i]);
        }
        lemma_group_outcome(pre, ids, channel_id, payload, before, id, at);
        assert(outcomes.last() == outcomes[n - 1]);
        assert(ids.contains(ids[n - 1]));
        if ids.contains(id) && at < n - 1 {
            assert(before[at] == outcomes[at]);
            assert(ids[at] != ids[n - 1]);
        }
    }
}

/// A group send reports an error of a client exactly where a send to it failed
/// with that error.
proof fn lemma_failures_are_reported(
    ids: Seq<ClientId>,
    outcomes: Seq<Result<(), ServerSendError>>,
    client_id: ClientId,
    e: ServerSendError,
)
    requires
        outcomes.len() <= ids.len(),
    ensures
        failures(ids, outcomes).contains((client_id, e)) <==> exists|i: int|
            0 <= i < outcomes.len() && #[trigger] outcomes[i] == Err::<(), _>(e) && ids[i]
                == client_id,
    decreases outcomes.len(),
{
    let n = outcomes.len() as int;
    let errors = failures(ids, outcomes);
    if n > 0 {
        let before = outcomes.drop_last();
        let errors_before = failures(ids, before);
        lemma_failures_are_reported(ids, before, client_id, e);
        assert(outcomes.last() == outcomes[n - 1]);
        if errors_before.contains((client_id, e)) {
            let i = choose|i: int|
                0 <= i < before.len() && #[trigger] before[i] == Err::<(), _>(e) && ids[i]
                    == client_id;
            assert(outcomes[i] == Err::<(), _>(e));
            let k = choose|k: int|
                0 <= k < errors_before.len() && errors_before[k] == (client_id, e);
            assert(errors[k] == (client_id, e));
        }
        if errors.contains((client_id, e)) && !errors_before.contains((client_id, e)) {
            let k = choose|k: int| 0 <= k < errors.len() && errors[k] == (client_id, e);
            if k < errors_before.len() {
                assert(errors_before[k] == (client_id, e));
            }
            assert(outcomes[n - 1] == Err::<(), _>(e));
        }
        if exists|i: int|
            0 <= i < n && #[trigger] outcomes[i] == Err::<(), _>(e) && ids[i] == client_id {
            let i = choose|i: int|
                0 <= i < n && #[trigger] outcomes[i] == Err::<(), _>(e) && ids[i] == client_id;
            if i < n - 1 {
                assert(before[i] == Err::<(), _>(e));
            } else {
                assert(errors[errors_before.len() as int] == (client_id, e));
            }
        }
    }
}

/// The report of a group send to clients none of which is named twice is right,
/// and every client that is named and there was tried, exactly once. The queue of
/// each such client that is not reported took the payload, behind those before;
/// that of each that is reported refused it with that error, or there was no such
/// channel. A client that is not named is as before.
pub proof fn law_group_report_is_right(
    pre: ServerEndpointView,
    post: ServerEndpointView,
    ids: Seq<ClientId>,
    channel_id: ChannelId,
    payload: Seq<u8>,
    errors: Seq<(ClientId, ServerSendError)>,
    client_id: ClientId,
)
    requires
        ids.no_duplicates(),
        post.group_sent(pre, ids, channel_id, payload, errors),
        pre.clients.contains_key(client_id),
    ensures
        post.clients.contains_key(client_id),
        !ids.contains(client_id) ==> post.clients[client_id] == pre.clients[client_id],
        ids.contains(client_id) ==> exists|r: Result<(), ServerSendError>|
            {
                &&& #[trigger] pre.send_possible(client_id, channel_id, r)
                &&& post.clients[client_id] == pre.clients[client_id].after_send(
                    channel_id,
                    payload,
                    connection_result(r),
                )
                &&& forall|e: ServerSendError| #[trigger]
                    errors.contains((client_id, e)) <==> r == Err::<(), _>(e)
            },
{
    let outcomes = choose|outcomes: Seq<Result<(), ServerSendError>>| #[trigger]
        pre.group_possible(ids, channel_id, outcomes) && post == pre.after_group(
            ids,
            channel_id,
            payload,
            outcomes,
        ) && errors == failures(ids, outcomes);
    let at = choose|i: int| 0 <= i < ids.len() && ids[i] == client_id;
    lemma_group_outcome(pre, ids, channel_id, payload, outcomes, client_id, at);
    if ids.contains(client_id) {
        assert(pre.send_possible(client_id, channel_id, outcomes[at]));
        assert forall|e: ServerSendError| #[trigger]
            errors.contains((client_id, e)) <==> outcomes[at] == Err::<(), _>(e) by {
            lemma_failures_are_reported(ids, outcomes, client_id, e);
            if errors.contains((client_id, e)) {
                let i = choose|i: int|
                    0 <= i < outcomes.len() && #[trigger] outcomes[i] == Err::<(), _>(e) && ids[i]
                        == client_id;
                assert(i == at);
            }
        }
    }
}

/// A group send reports a client as unknown exactly where it is not there.
pub proof fn law_group_reports_unknown_clients(
    pre: ServerEndpointView,
    post: ServerEndpointView,
    ids: Seq<ClientId>,
    channel_id: ChannelId,
    payload: Seq<u8>,
    errors: Seq<(ClientId, ServerSendError)>,
    client_id: ClientId,
)
    requires
        post.group_sent(pre, ids, channel_id, payload, errors),
        ids.contains(client_id),
    ensures
        errors.contains((client_id, ServerSendError::UnknownClient(client_id)))
            <==> !pre.clients.contains_key(client_id),
{
    let outcomes = choose|outcomes: Seq<Result<(), ServerSendError>>| #[trigger]
        pre.group_possible(ids, channel_id, outcomes) && post == pre.after_group(
            ids,
            channel_id,
            payload,
            outcomes,
        ) && errors == failures(ids, outcomes);
    let at = choose|i: int| 0 <= i < ids.len() && ids[i] == client_id;
    let unknown = ServerSendError::UnknownClient(client_id);
    lemma_failures_are_reported(ids, outcomes, client_id, unknown);
    assert(pre.send_possible(ids[at], channel_id, outcomes[at]));
    if errors.contains((client_id, unknown)) {
        let i = choose|i: int|
            0 <= i < outcomes.len() && #[trigger] outcomes[i] == Err::<(), _>(unknown) && ids[i]
                == client_id;
        assert(pre.send_possible(ids[i], channel_id, outcomes[i]));
    }
    if !pre.clients.contains_key(client_id) {
        assert(outcomes[at] == Err::<(), _>(unknown));
    }
}

/// The report of a broadcast is right, and every client was tried, exactly once:
/// the queue of each that is not reported took the payload, behind those before;
/// that of each that is reported refused it with that error, or there was no such
/// channel.
pub proof fn law_broadcast_report_is_right(
    pre: ServerEndpointView,
    post: ServerEndpointView,
    channel_id: ChannelId,
    payload: Seq<u8>,
    errors: Seq<(ClientId, ServerSendError)>,
    client_id: ClientId,
)
    requires
        post.broadcast_sent(pre, channel_id, payload, errors),
        pre.clients.contains_key(client_id),
    ensures
        post.clients.contains_key(client_id),
        exists|r: Result<(), ServerSendError>|
            {
                &&& #[trigger] pre.send_possible(client_id, channel_id, r)
                &&& post.clients[client_id] == pre.clients[client_id].after_send(
                    channel_id,
                    payload,
                    connection_result(r),
                )
                &&& forall|e: ServerSendError| #[trigger]
                    errors.contains((client_id, e)) <==> r == Err::<(), _>(e)
            },
{
    let ids = choose|ids: Seq<ClientId>| #[trigger]
        lists_keys(ids, pre.clients) && post.group_sent(pre, ids, channel_id, payload, errors);
    assert(ids.contains(client_id));
    law_group_report_is_right(pre, post, ids, channel_id, payload, errors, client_id);
}

/// A channel that could not be opened is not open, and its id can be taken again,
/// where that id was not made the default channel beforehand: all that is left of
/// it are the requests to the tasks of some clients.
pub proof fn law_failed_open_leaves_no_channel(
    pre: ServerEndpointView,
    post: ServerEndpointView,
    config: ChannelConfig,
    e: ChannelCreationError,
    client_id: ClientId,
)
    requires
        post.opens(pre, config, Err(e)),
        forall|id: ChannelId| #[trigger]
            pre.send_channel_ids.is_next(id) ==> pre.send_channel_ids.default_channel != Some(id),
    ensures
        post.opened_channels == pre.opened_channels,
        post.send_channel_ids == pre.send_channel_ids,
        post.clients.dom() == pre.clients.dom(),
        pre.clients.contains_key(client_id) ==> post.clients[client_id].channels
            == pre.clients[client_id].channels,
{
    if let ChannelCreationError::AsyncChannelError(why) = e {
        let id = choose|id: ChannelId| #[trigger]
            pre.send_channel_ids.is_next(id) && post.open_failed(
                ServerEndpointView {
                    send_channel_ids: pre.send_channel_ids.take(id).release(id),
                    ..pre
                },
                id,
                config,
                why,
            );
        law_release_undoes_take(pre.send_channel_ids, id);
        assert(post.clients.dom() =~= pre.clients.dom());
    }
}

/// A channel that was opened is open for every client, with the queues that its
/// tasks took, under an id that no open channel has; the first one becomes the
/// default channel.
pub proof fn law_opened_channel_is_new(
    pre: ServerEndpointView,
    post: ServerEndpointView,
    config: ChannelConfig,
    id: ChannelId,
    client_id: ClientId,
)
    requires
        pre.sound(),
        post.opens(pre, config, Ok(id)),
    ensures
        !pre.opened_channels.contains_key(id),
        post.opened_channels == pre.opened_channels.insert(id, config),
        pre.clients.contains_key(client_id) ==> post.clients[client_id].channels.contains_key(id)
            && post.clients[client_id].channels[id].fresh(),
        pre.clients.contains_key(client_id) && pre.clients[client_id].wired()
            ==> post.clients[client_id].wired(),
        pre.send_channel_ids.default_channel is None ==> post.send_channel_ids.default_channel
            == Some(id),
{
    let taken = ServerEndpointView { send_channel_ids: pre.send_channel_ids.take(id), ..pre };
    let links = choose|links: Map<ClientId, Link>|
        {
            &&& forall|k: ClientId| #[trigger]
                taken.clients.contains_key(k) ==> links[k].made_for(id, config)
            &&& post == #[trigger] taken.open(id, config, links)
        };
    if pre.clients.contains_key(client_id) && pre.clients[client_id].wired() {
        assert(taken.clients.contains_key(client_id));
        law_channels_stay_wired(
            pre.clients[client_id],
            links[client_id],
            id,
            config,
            Seq::empty(),
            Ok(()),
            links[client_id].request,
            Answer::Taken,
        );
    }
}

/// A channel that was closed is closed for every client, and its id is the next
/// to be taken unless a smaller one is left.
pub proof fn law_closed_channel_is_gone(
    pre: ServerEndpointView,
    post: ServerEndpointView,
    channel_id: ChannelId,
    client_id: ClientId,
    r: Result<(), ServerSendError>,
)
    requires
        post.closes(pre, channel_id, Ok(())),
        post.clients.contains_key(client_id),
        post.send_possible(client_id, channel_id, r),
    ensures
        !post.opened_channels.contains_key(channel_id),
        post.send_channel_ids.available.contains(channel_id),
        post.send_channel_ids.default_channel != Some(channel_id),
        r == Err::<(), _>(
            ServerSendError::ConnectionSendError(ConnectionSendError::InvalidChannelId(channel_id)),
        ),
{
}

/// Every client that was accepted is connected, or was disconnected.
pub open spec fn balanced(endpoint: ServerEndpointView) -> bool {
    endpoint.stats.connect_count == endpoint.stats.disconnect_count + endpoint.clients.dom().len()
}

/// The stats are always right: the connected clients are those that were accepted
/// less those that were disconnected, one by one or all at once. Accepting,
/// refusing and disconnecting clients keep this so, and to disconnect all counts
/// each.
pub proof fn law_stats_balance(
    pre: ServerEndpointView,
    post: ServerEndpointView,
    message: ServerAsyncMessage,
    step: ServerStep,
    client_id: ClientId,
)
    requires
        pre.wf(),
        post.handles(pre, message, step),
    ensures
        balanced(pre),
        post.wf() && balanced(post),
        pre.clients.contains_key(client_id) ==> pre.disconnect(client_id).wf() && balanced(
            pre.disconnect(client_id),
        ),
        pre.without_clients().wf() && balanced(pre.without_clients()),
        pre.without_clients().stats.disconnect_count == pre.stats.disconnect_count
            + pre.clients.dom().len(),
{
    assert(pre.without_clients().clients.dom() =~= Set::<ClientId>::empty());
    if pre.clients.contains_key(client_id) {
        assert(pre.clients.dom().contains(client_id));
        assert(pre.disconnect(client_id).clients.dom() =~= pre.clients.dom().remove(client_id));
    }
    match message {
        ServerAsyncMessage::ClientConnected(connection) => {
            if let ServerStep::Accepted(id) = step {
                law_accepted_id_is_fresh(pre, post, connection@, id);
            }
        },
        ServerAsyncMessage::ClientConnectionClosed(id) => {
            if pre.clients.contains_key(id) {
                assert(pre.clients.dom().contains(id));
                assert(post.clients.dom() =~= pre.clients.dom().remove(id));
            }
        },
    }
}

/// An endpoint that has just been started has the configured channels open, and
/// is sound.
pub proof fn law_started_endpoint_is_sound(
    raw: Endpoint,
    configs: Seq<ChannelConfig>,
    close_half: broadcast::Sender<()>,
    messages_half: mpsc::Receiver<ServerAsyncMessage>,
    recv_channels_cfg: RecvChannelsConfiguration,
)
    ensures
        started(raw, configs, close_half, messages_half, recv_channels_cfg).sound(),
        balanced(started(raw, configs, close_half, messages_half, recv_channels_cfg)),
{
    assert(started(
        raw,
        configs,
        close_half,
        messages_half,
        recv_channels_cfg,
    ).clients.dom() =~= Set::<ClientId>::empty());
}

/// What handling a prefix of the messages has come to.
pub(crate) proof fn lemma_trace_clients(
    states: Seq<ServerEndpointView>,
    messages: Seq<ServerAsyncMessage>,
    steps: Seq<ServerStep>,
)
    requires
        is_trace(states, messages, steps),
        states[0].wf(),
    ensures
        ({
            let pre = states[0];
            let post = states[messages.len() as int];
            let accepted = accepted_ids(steps);
            let gone = lost_ids(steps);
            &&& post.wf()
            &&& pre.client_id_gen <= post.client_id_gen <= pre.client_id_gen + messages.len()
            &&& accepted.len() <= messages.len()
            &&& post.stats.connect_count == pre.stats.connect_count + accepted.len()
            &&& post.stats.disconnect_count == pre.stats.disconnect_count + gone.len()
            &&& forall|i: int|
                0 <= i < accepted.len() ==> pre.client_id_gen < #[trigger] accepted[i]
                    <= post.client_id_gen
            &&& forall|i: int, j: int|
                0 <= i < j < accepted.len() ==> #[trigger] accepted[i] < #[trigger] accepted[j]
            &&& gone.no_duplicates()
            &&& forall|id: ClientId| #[trigger] gone.contains(id) ==> id <= post.client_id_gen
            &&& forall|id: ClientId| #[trigger]
                post.clients.contains_key(id) <==> (pre.clients.contains_key(id)
                    || accepted.contains(id)) && !gone.contains(id)
            &&& forall|id: ClientId| #[trigger]
                gone.contains(id) ==> pre.clients.contains_key(id) || accepted.contains(id)
        }),
    decreases messages.len(),
{
    let n = messages.len() as int;
    let pre = states[0];
    if n > 0 {
        let earlier = messages.drop_last();
        let steps_before = steps.drop_last();
        let states_before = states.drop_last();
        assert forall|i: int| 0 <= i < earlier.len() implies states_before[i + 1].handles(
            states_before[i],
            earlier[i],
            #[trigger] steps_before[i],
        ) by {
            assert(steps_before[i] == steps[i]);
        }
        lemma_trace_clients(states_before, earlier, steps_before);
        let mid = states[n - 1];
        let post = states[n];
        let message = messages[n - 1];
        let step = steps[n - 1];
        assert(post.handles(mid, message, step));
        assert(steps.last() == step);
        let accepted_before = accepted_ids(steps_before);
        let gone_before = lost_ids(steps_before);
        let accepted = accepted_ids(steps);
        let gone = lost_ids(steps);
        match message {
            ServerAsyncMessage::ClientConnected(connection) => {
                if let ServerStep::Accepted(id) = step {
                    law_accepted_id_is_fresh(mid, post, connection@, id);
                    assert(accepted == accepted_before.push(id));
                    lemma_push_contains(accepted_before, id);
                    assert(!gone.contains(id));
                    assert(post.clients.dom() =~= mid.clients.dom().insert(id));
                    assert forall|k: ClientId| #[trigger] post.clients.contains_key(k) <==> (
                    pre.clients.contains_key(k) || accepted.contains(k)) && !gone.contains(k) by {
                        assert(post.clients.dom().contains(k) <==> mid.clients.dom().contains(k)
                            || k == id);
                    }
                }
            },
            ServerAsyncMessage::ClientConnectionClosed(id) => {
                if mid.clients.contains_key(id) {
                    assert(gone == gone_before.push(id));
                    lemma_push_contains(gone_before, id);
                    assert(mid.clients.dom().contains(id));
                    assert(post.clients.dom() =~= mid.clients.dom().remove(id));
                    assert forall|k: ClientId| #[trigger] post.clients.contains_key(k) <==> (
                    pre.clients.contains_key(k) || accepted.contains(k)) && !gone.contains(k) by {
                        assert(post.clients.dom().contains(k) <==> mid.clients.dom().contains(k)
                            && k != id);
                    }
                }
            },
        }
    }
}

/// What a sequence contains with one more element.
proof fn lemma_push_contains(s: Seq<ClientId>, x: ClientId)
    ensures
        forall|y: ClientId| #[trigger] s.push(x).contains(y) <==> s.contains(y) || y == x,
{
    assert forall|y: ClientId| #[trigger] s.push(x).contains(y) <==> s.contains(y) || y == x by {
        if s.contains(y) {
            let k = choose|k: int| 0 <= k < s.len() && s[k] == y;
            assert(s.push(x)[k] == y);
        }
        if y == x {
            assert(s.push(x)[s.len() as int] == y);
        }
        if s.push(x).contains(y) && y != x {
            let k = choose|k: int| 0 <= k < s.push(x).len() && s.push(x)[k] == y;
            assert(s[k] == y);
        }
    }
}

/// Which clients are left once some were disconnected, and how many disconnections
/// were counted.
pub(crate) proof fn lemma_disconnect_each(endpoint: ServerEndpointView, ids: Seq<ClientId>)
    requires
        endpoint.wf(),
        ids.no_duplicates(),
        forall|id: ClientId| #[trigger] ids.contains(id) ==> endpoint.clients.contains_key(id),
    ensures
        ({
            let post = endpoint.disconnect_each(ids);
            &&& post.wf()
            &&& post.client_id_gen == endpoint.client_id_gen
            &&& post.stats.connect_count == endpoint.stats.connect_count
            &&& post.stats.disconnect_count == endpoint.stats.disconnect_count + ids.len()
            &&& forall|id: ClientId| #[trigger]
                post.clients.contains_key(id) <==> endpoint.clients.contains_key(id)
                    && !ids.contains(id)
        }),
    decreases ids.len(),
{
    if ids.len() > 0 {
        let before = ids.drop_last();
        let last = ids.last();
        assert(before.push(last) =~= ids);
        lemma_push_contains(before, last);
        assert forall|i: int, j: int| 0 <= i < j < before.len() implies before[i] != before[j] by {
            assert(before[i] == ids[i] && before[j] == ids[j]);
        }
        assert(!before.contains(last)) by {
            if before.contains(last) {
                let k = choose|k: int| 0 <= k < before.len() && before[k] == last;
                assert(ids[k] == ids[ids.len() - 1]);
            }
        }
        assert forall|id: ClientId| #[trigger]
            before.contains(id) implies endpoint.clients.contains_key(id) by {
            assert(before.push(last).contains(id));
        }
        lemma_disconnect_each(endpoint, before);
        let mid = endpoint.disconnect_each(before);
        assert(ids.contains(last));
        assert(mid.clients.contains_key(last));
        assert(mid.clients.dom().contains(last));
        assert(mid.disconnect(last).clients.dom() =~= mid.clients.dom().remove(last));
    }
}

/// An update accounts for every client. The clients after it are those before it
/// and those that were accepted, less those that were lost. Each client that was
/// accepted has a fresh id, greater than those before and at most the last id
/// given, which never falls; each that was lost was there, and is reported once.
/// The stats count the one and the other.
pub proof fn law_update_accounts_for_clients(
    pre: ServerEndpointView,
    post: ServerEndpointView,
    accepted: Seq<ClientId>,
    gone: Seq<ClientId>,
)
    requires
        pre.wf(),
        post.updated(pre, accepted, gone),
    ensures
        forall|id: ClientId| #[trigger]
            post.clients.contains_key(id) <==> (pre.clients.contains_key(id) || accepted.contains(
                id,
            )) && !gone.contains(id),
        forall|id: ClientId| #[trigger]
            gone.contains(id) ==> pre.clients.contains_key(id) || accepted.contains(id),
        gone.no_duplicates(),
        forall|i: int|
            0 <= i < accepted.len() ==> pre.client_id_gen < #[trigger] accepted[i]
                <= post.client_id_gen && !pre.clients.contains_key(accepted[i]),
        forall|i: int, j: int|
            0 <= i < j < accepted.len() ==> #[trigger] accepted[i] < #[trigger] accepted[j],
        pre.client_id_gen <= post.client_id_gen,
        post.wf(),
        post.stats.connect_count == pre.stats.connect_count + accepted.len(),
        post.stats.disconnect_count == pre.stats.disconnect_count + gone.len(),
{
    let (messages, steps, mid, surveyed, reported) = choose|
        messages: Batch<ServerAsyncMessage>,
        steps: Seq<ServerStep>,
        mid: ServerEndpointView,
        surveyed: ServerEndpointView,
        reported: Seq<ClientId>,
    |
        {
            &&& messages.complete(usize::MAX)
            &&& #[trigger] mid.ran(pre.with_messages(messages), messages.messages, steps)
            &&& #[trigger] surveyed.surveyed(mid, reported)
            &&& post.disconnected_each(surveyed, reported)
            &&& accepted == accepted_ids(steps)
            &&& gone == lost_ids(steps) + reported
        };
    let taken = messages.messages;
    let states = choose|states: Seq<ServerEndpointView>| #[trigger]
        is_trace(states, taken, steps) && states[0] == pre.with_messages(messages)
            && states[taken.len() as int] == mid;
    lemma_trace_clients(states, taken, steps);
    let reports = choose|reports: Map<ClientId, Batch<ChannelAsyncMessage>>|
        {
            &&& reports.dom() == mid.clients.dom()
            &&& forall|id: ClientId| #[trigger]
                reports.contains_key(id) ==> mid.clients[id].gave_reports(
                    reports[id],
                    surveyed.clients[id].reports_left,
                )
            &&& surveyed == #[trigger] mid.reported(reports, surveyed)
            &&& reported.no_duplicates()
            &&& forall|id: ClientId| #[trigger]
                reported.contains(id) <==> reports.contains_key(id) && reports[id].messages.len()
                    > 0
        };
    let first = lost_ids(steps);
    assert forall|id: ClientId| #[trigger] reported.contains(id) implies mid.clients.contains_key(
        id,
    ) && surveyed.clients.contains_key(id) by {
        assert(reports.dom().contains(id));
    }
    assert(surveyed.clients.dom() =~= mid.clients.dom());
    lemma_disconnect_each(surveyed, reported);
    assert forall|id: ClientId| #[trigger] gone.contains(id) <==> first.contains(id)
        || reported.contains(id) by {
        if first.contains(id) {
            let k = choose|k: int| 0 <= k < first.len() && first[k] == id;
            assert(gone[k] == id);
        }
        if reported.contains(id) {
            let k = choose|k: int| 0 <= k < reported.len() && reported[k] == id;
            assert(gone[first.len() + k] == id);
        }
        if gone.contains(id) {
            let k = choose|k: int| 0 <= k < gone.len() && gone[k] == id;
            if k < first.len() {
                assert(first[k] == id);
            } else {
                assert(reported[k - first.len()] == id);
            }
        }
    }
    assert forall|i: int, j: int| 0 <= i < j < gone.len() implies gone[i] != gone[j] by {
        if i < first.len() && j >= first.len() {
            assert(first.contains(gone[i])) by {
                assert(first[i] == gone[i]);
            }
            assert(reported.contains(gone[j])) by {
                assert(reported[j - first.len()] == gone[j]);
            }
        }
    }
}

/// What handling messages leaves as it is: all that was taken from the queue of
/// messages.
proof fn lemma_handling_takes_nothing(
    states: Seq<ServerEndpointView>,
    messages: Seq<ServerAsyncMessage>,
    steps: Seq<ServerStep>,
    at: int,
)
    requires
        is_trace(states, messages, steps),
        0 <= at < states.len(),
    ensures
        states[at].messages == states[0].messages,
        states[at].messages_half == states[0].messages_half,
        states[at].opened_channels == states[0].opened_channels,
        states[at].send_channel_ids == states[0].send_channel_ids,
    decreases at,
{
    if at > 0 {
        lemma_handling_takes_nothing(states, messages, steps, at - 1);
        assert(states[at - 1 + 1].handles(states[at - 1], messages[at - 1], steps[at - 1]));
    }
}

/// What disconnecting clients leaves as it is.
proof fn lemma_disconnecting_takes_nothing(endpoint: ServerEndpointView, ids: Seq<ClientId>)
    ensures
        endpoint.disconnect_each(ids) == (ServerEndpointView {
            clients: endpoint.disconnect_each(ids).clients,
            stats: endpoint.disconnect_each(ids).stats,
            ..endpoint
        }),
        forall|id: ClientId| #[trigger]
            endpoint.disconnect_each(ids).clients.contains_key(id)
                ==> endpoint.clients.contains_key(id) && endpoint.disconnect_each(ids).clients[id]
                == endpoint.clients[id],
    decreases ids.len(),
{
    if ids.len() > 0 {
        lemma_disconnecting_takes_nothing(endpoint, ids.drop_last());
    }
}

/// An update reads all that was sent to an endpoint: it asks the queue of messages
/// until it has nothing to give. It asks the queue of reports of every client that
/// is left until it has nothing to give, and none of these clients was reported as
/// lost. It keeps the open channels.
pub proof fn law_update_reads_everything(
    pre: ServerEndpointView,
    post: ServerEndpointView,
    accepted: Seq<ClientId>,
    gone: Seq<ClientId>,
    client_id: ClientId,
)
    requires
        pre.wf(),
        post.updated(pre, accepted, gone),
    ensures
        exists|messages: Batch<ServerAsyncMessage>| #[trigger]
            messages.complete(usize::MAX) && post.messages == pre.messages + messages.answers(),
        post.clients.contains_key(client_id) ==> post.clients[client_id].reports.len() > 0
            && post.clients[client_id].reports.last() is Err,
        post.opened_channels == pre.opened_channels,
        post.send_channel_ids == pre.send_channel_ids,
{
    law_update_accounts_for_clients(pre, post, accepted, gone);
    let (messages, steps, mid, surveyed, reported) = choose|
        messages: Batch<ServerAsyncMessage>,
        steps: Seq<ServerStep>,
        mid: ServerEndpointView,
        surveyed: ServerEndpointView,
        reported: Seq<ClientId>,
    |
        {
            &&& messages.complete(usize::MAX)
            &&& #[trigger] mid.ran(pre.with_messages(messages), messages.messages, steps)
            &&& #[trigger] surveyed.surveyed(mid, reported)
            &&& post.disconnected_each(surveyed, reported)
            &&& accepted == accepted_ids(steps)
            &&& gone == lost_ids(steps) + reported
        };
    let taken = messages.messages;
    let states = choose|states: Seq<ServerEndpointView>| #[trigger]
        is_trace(states, taken, steps) && states[0] == pre.with_messages(messages)
            && states[taken.len() as int] == mid;
    lemma_handling_takes_nothing(states, taken, steps, taken.len() as int);
    let reports = choose|reports: Map<ClientId, Batch<ChannelAsyncMessage>>|
        {
            &&& reports.dom() == mid.clients.dom()
            &&& forall|id: ClientId| #[trigger]
                reports.contains_key(id) ==> mid.clients[id].gave_reports(
                    reports[id],
                    surveyed.clients[id].reports_left,
                )
            &&& surveyed == #[trigger] mid.reported(reports, surveyed)
            &&& reported.no_duplicates()
            &&& forall|id: ClientId| #[trigger]
                reported.contains(id) <==> reports.contains_key(id) && reports[id].messages.len()
                    > 0
        };
    lemma_disconnecting_takes_nothing(surveyed, reported);
    assert(messages.complete(usize::MAX));
    if post.clients.contains_key(client_id) {
        assert(surveyed.clients.contains_key(client_id));
        assert(mid.clients.dom().contains(client_id));
        assert(reports.contains_key(client_id));
        assert(!gone.contains(client_id));
        assert(!reported.contains(client_id)) by {
            if reported.contains(client_id) {
                let k = choose|k: int| 0 <= k < reported.len() && reported[k] == client_id;
                assert(gone[lost_ids(steps).len() + k] == client_id);
            }
        }
        let batch = reports[client_id];
        assert(batch.end is Some);
        assert(batch.answers().len() > 0 && batch.answers().last() is Err);
    }
}

/// After an update, a client that was lost is unknown, and one that was accepted
/// and not lost is connected.
pub proof fn law_update_events_tell_the_truth(
    pre: ServerEndpointView,
    post: ServerEndpointView,
    accepted: Seq<ClientId>,
    gone: Seq<ClientId>,
    client_id: ClientId,
    channel_id: ChannelId,
    r: Result<(), ServerSendError>,
)
    requires
        pre.wf(),
        post.updated(pre, accepted, gone),
        post.send_possible(client_id, channel_id, r),
    ensures
        gone.contains(client_id) ==> r == Err::<(), _>(ServerSendError::UnknownClient(client_id)),
        accepted.contains(client_id) && !gone.contains(client_id) ==> r != Err::<(), _>(
            ServerSendError::UnknownClient(client_id),
        ),
{
    law_update_accounts_for_clients(pre, post, accepted, gone);
}

/// What is read from a client first is what came first, where nothing waited on
/// the channel and the payloads of the channel are within its limit.
pub proof fn law_clients_are_read_in_order(
    pre: ServerEndpointView,
    arrivals: Map<ClientId, Batch<(ChannelId, Seq<u8>)>>,
    client_id: ClientId,
    channel_id: ChannelId,
    post: ServerEndpointView,
    r: Result<Option<Seq<u8>>, ServerReceiveError>,
)
    requires
        pre.clients.contains_key(client_id),
        pre.clients[client_id].buffers.contains_key(channel_id),
        pre.clients[client_id].buffers[channel_id].len() == 0,
        arrivals.contains_key(client_id),
        of_channel(arrivals[client_id].messages, channel_id).len()
            <= pre.clients[client_id].recv_channels_cfg.max_buffered_payloads_count_per_channel,
        post.received(pre.dispatch(arrivals), client_id, channel_id, r),
    ensures
        ({
            let came = of_channel(arrivals[client_id].messages, channel_id);
            if came.len() == 0 {
                r == Ok::<Option<Seq<u8>>, ServerReceiveError>(None)
            } else {
                &&& r == Ok::<_, ServerReceiveError>(Some(came.first()))
                &&& post.clients[client_id].buffers[channel_id] == came.drop_first()
            }
        }),
{
    law_first_come_first_read(pre.clients[client_id], arrivals[client_id], channel_id);
}

/// What the async task of a client's connection did at the events that it went
/// through, from the announcement of the connection on.
pub open spec fn is_client_task(
    states: Seq<ClientTaskState>,
    events: Seq<ClientTaskEvent>,
    actions: Seq<ClientTaskAction>,
) -> bool {
    &&& states.len() == events.len() + 1
    &&& actions.len() == events.len()
    &&& states[0] == ClientTaskState::AwaitingAnswer
    &&& forall|i: int|
        0 <= i < events.len() ==> client_task(
            states[i],
            events[i],
            states[i + 1],
            #[trigger] actions[i],
        )
}

/// From the second event on, the task has ended.
proof fn lemma_client_task_ends(
    states: Seq<ClientTaskState>,
    events: Seq<ClientTaskEvent>,
    actions: Seq<ClientTaskAction>,
    at: int,
)
    requires
        is_client_task(states, events, actions),
        2 <= at < states.len(),
    ensures
        states[at] is Ended,
    decreases at,
{
    assert(client_task(states[at - 1], events[at - 1], states[at], actions[at - 1]));
    if at > 2 {
        lemma_client_task_ends(states, events, actions, at - 1);
    } else {
        assert(client_task(states[0], events[0], states[1], actions[0]));
    }
}

/// The task of a client's connection serves it once at most, as the first thing
/// after the announcement, and only under the id with which the server answered.
/// It tells the server of one thing at most: that the connection that it served is
/// closed, under the id under which it served it.
pub proof fn law_client_task_tells_what_it_serves(
    states: Seq<ClientTaskState>,
    events: Seq<ClientTaskEvent>,
    actions: Seq<ClientTaskAction>,
    at: int,
)
    requires
        is_client_task(states, events, actions),
        0 <= at < actions.len(),
    ensures
        actions[at] matches ClientTaskAction::Serve(id) ==> at == 0 && events[at]
            == ClientTaskEvent::Answered(Some(ServerSyncMessage::ClientConnectedAck(id))),
        actions[at] matches ClientTaskAction::Tell(message) ==> at == 1 && (actions[0] matches
            ClientTaskAction::Serve(id) && message == ServerAsyncMessage::ClientConnectionClosed(
            id,
        )),
        at >= 2 ==> actions[at] is End,
{
    assert(client_task(states[at], events[at], states[at + 1], actions[at]));
    assert(client_task(states[0], events[0], states[1], actions[0]));
    if at >= 2 {
        lemma_client_task_ends(states, events, actions, at);
    }
}

} // verus!
