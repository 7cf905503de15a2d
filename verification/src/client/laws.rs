//! What holds of a client as a whole.

#[allow(unused_imports)]
use tokio::sync::mpsc;
use vstd::prelude::*;

#[allow(unused_imports)]
use crate::client::connection::connecting::{
    connecting, watching, ConnectingAction, ConnectingEvent, ConnectingState, WatchingAction,
    WatchingState,
};
#[allow(unused_imports)]
use crate::client::connection::events::{inputs, is_client_trace, ClientInput, ClientStep};
#[allow(unused_imports)]
use crate::client::connection::events::ClientEventsView;
#[allow(unused_imports)]
use crate::client::connection::{
    ids_after, numbered, ClientConnectionView, ConnectionLocalId, ConnectionState,
};
#[allow(unused_imports)]
use crate::client::{
    fresh_connection, ClientAsyncMessage, ClientRecvChannelError, ClientSendError, IrohClientView,
};
#[allow(unused_imports)]
use crate::config::IrohClientConnectionConfigView;
#[allow(unused_imports)]
use crate::shared::channels::{
    links_for, ChannelAsyncMessage, ChannelConfig, ChannelId, ChannelSyncMessage, CloseReason,
    Link,
};
#[allow(unused_imports)]
use crate::shared::error::{AsyncChannelError, ConnectionSendError};
#[allow(unused_imports)]
use crate::shared::laws::{law_linked_channels, lemma_wired};
#[allow(unused_imports)]
use crate::shared::peer_connection::{ConnectionEnds, PeerConnectionView};
#[allow(unused_imports)]
use crate::shared::queues::{queue_answered, Answer, Batch};

verus! {

/// A connection is opened under an id that no connection has. It is the default
/// connection, unless there is one already; the others are left alone.
pub proof fn law_opened_connection_is_new(
    client: IrohClientView,
    connection: PeerConnectionView<ClientConnectionView>,
    other: ConnectionLocalId,
)
    requires
        client.wf(),
        client.connection_local_id_gen < ConnectionLocalId::MAX,
    ensures
        ({
            let id = client.connection_local_id_gen;
            let post = client.open(connection);
            &&& post.wf()
            &&& !client.connections.contains_key(id)
            &&& post.connections[id] == connection
            &&& client.default_connection_id is None ==> post.default_connection() == Some(
                connection,
            )
            &&& client.default_connection_id is Some ==> post.default_connection_id
                == client.default_connection_id
            &&& client.connections.contains_key(other) ==> post.connections.contains_key(other)
                && post.connections[other] == client.connections[other]
        }),
{
}

/// A connection that was closed is gone, and is not the default connection any
/// more; the others are left alone.
pub proof fn law_closed_connection_is_gone(
    client: IrohClientView,
    id: ConnectionLocalId,
    other: ConnectionLocalId,
)
    ensures
        ({
            let post = client.without(id);
            &&& !post.connections.contains_key(id)
            &&& post.default_connection_id != Some(id)
            &&& client.wf() ==> post.wf()
            &&& other != id && client.connections.contains_key(other)
                ==> post.connections.contains_key(other) && post.connections[other]
                == client.connections[other]
            &&& client.default_connection_id != Some(id) ==> post.default_connection_id
                == client.default_connection_id
        }),
{
}

/// A client whose connections were all closed has no default connection.
pub proof fn law_closing_all_leaves_none(client: IrohClientView)
    ensures
        client.without_connections().connections.dom() == Set::<ConnectionLocalId>::empty(),
        client.without_connections().default_connection() is None,
        client.without_connections().connection_local_id_gen == client.connection_local_id_gen,
{
    assert(client.without_connections().connections.dom() =~= Set::<ConnectionLocalId>::empty());
}

/// The default connection, if there is one, is in exactly one state; if there is
/// none, the client counts as disconnected only.
pub proof fn law_one_state(client: IrohClientView)
    ensures
        client.default_connection() is Some ==> {
            ||| client.default_is(ConnectionState::Connecting) && !client.default_is(
                ConnectionState::Connected,
            ) && !client.default_is(ConnectionState::Disconnected)
            ||| !client.default_is(ConnectionState::Connecting) && client.default_is(
                ConnectionState::Connected,
            ) && !client.default_is(ConnectionState::Disconnected)
            ||| !client.default_is(ConnectionState::Connecting) && !client.default_is(
                ConnectionState::Connected,
            ) && client.default_is(ConnectionState::Disconnected)
        },
        client.default_connection() is None ==> !client.default_is(ConnectionState::Connecting)
            && !client.default_is(ConnectionState::Connected),
{
}

/// A connection that was disconnected is so, whether or not its tasks have heard
/// of it. It refuses payloads, and to disconnect it again changes nothing and
/// succeeds.
pub proof fn law_disconnected_stays_disconnected(
    pre: PeerConnectionView<ClientConnectionView>,
    mid: PeerConnectionView<ClientConnectionView>,
    post: PeerConnectionView<ClientConnectionView>,
    reason: CloseReason,
    heard: bool,
    again: CloseReason,
    heard_again: bool,
    channel_id: ChannelId,
    sent: Result<(), ClientSendError>,
)
    requires
        mid.disconnected(pre, reason, heard),
        mid.client_send_possible(channel_id, sent),
        post.disconnected(mid, again, heard_again),
    ensures
        mid.specific.state is Disconnected,
        sent == Err::<(), _>(ClientSendError::ConnectionClosed),
        post == mid,
        heard_again,
{
}

/// A connection that connects again is as if it had been opened anew with these
/// queues: nothing is left of what it was before.
pub proof fn law_reconnecting_starts_over(
    connection: PeerConnectionView<ClientConnectionView>,
    messages_half: mpsc::Receiver<ClientAsyncMessage>,
    ends: ConnectionEnds,
)
    ensures
        connection.restarted(ends, messages_half) == fresh_connection(
            connection.specific.local_id,
            connection.specific.endpoint,
            connection.specific.config,
            connection.specific.channels_config,
            messages_half,
            ends,
            connection.recv_channels_cfg,
        ),
{
    assert(connection.restarted(ends, messages_half) =~= fresh_connection(
        connection.specific.local_id,
        connection.specific.endpoint,
        connection.specific.config,
        connection.specific.channels_config,
        messages_half,
        ends,
        connection.recv_channels_cfg,
    ));
}

/// The configured channels of a connection are open, and nothing was sent on
/// them; the async tasks took a request for each, with its config and its queues;
/// the first of them is the default channel.
pub proof fn law_configured_channels_are_open(
    pre: PeerConnectionView<ClientConnectionView>,
    post: PeerConnectionView<ClientConnectionView>,
    configs: Seq<ChannelConfig>,
    id: ChannelId,
    sent: Result<(), ClientSendError>,
)
    requires
        configs.len() <= 256,
        (id as int) < configs.len(),
        !(pre.specific.state is Disconnected),
        pre.wired(),
        post.configured(pre, configs),
        post.client_send_possible(id, sent),
    ensures
        sent is Ok || sent matches Err(
            ClientSendError::ConnectionSendError(ConnectionSendError::AsyncChannelError(_)),
        ),
        post.wired(),
        post.channels[id].fresh(),
        exists|request: ChannelSyncMessage| #[trigger]
            post.requests.contains((request, Answer::Taken)) && request->id == id
                && request->config == configs[id as int],
        post.specific.send_channel_ids.default_channel == Some(0 as ChannelId),
        !post.specific.send_channel_ids.available.contains(id),
{
    let links = choose|links: Seq<Link>| #[trigger]
        links_for(links, numbered(configs)) && pre.took_each(links) && post == pre.link_each(
            links,
        ).with_ids(ids_after(configs.len()));
    let entries = numbered(configs);
    law_linked_channels(pre, links, entries);
    assert(entries[id as int].0 == id);
    assert(links[id as int].made_for(entries[id as int].0, entries[id as int].1));
    let request = links[id as int].request;
    assert(post.requests[pre.requests.len() + id as int] == (request, Answer::Taken));
    assert(post.requests.contains((request, Answer::Taken)));
    let linked = pre.link_each(links);
    assert(linked.wired());
    lemma_wired(linked, post);
}

/// Opening the configured channels succeeds where the queue of requests takes all
/// that is offered to it, and so where no channel is configured. It fails only with
/// the error that this queue gave for a configured channel.
pub proof fn law_opening_fails_as_its_queue_does(
    pre: PeerConnectionView<ClientConnectionView>,
    post: PeerConnectionView<ClientConnectionView>,
    configs: Seq<ChannelConfig>,
    r: Result<(), AsyncChannelError>,
)
    requires
        post.opened(pre, configs, r),
    ensures
        r matches Err(e) ==> exists|request: ChannelSyncMessage, n: int|
            0 <= n < configs.len() && #[trigger] pre.turned_down(
                request,
                n as ChannelId,
                configs[n],
                e,
            ),
        configs.len() == 0 ==> r is Ok,
        (forall|request: ChannelSyncMessage, e: AsyncChannelError|
            !#[trigger] queue_answered(pre.ends.to_channels_send, request, Err(e))) ==> r is Ok
            && post.configured(pre, configs),
{
}

/// Where a connection stands after what happened to it last: connected after it
/// connected, disconnected after it failed or was lost. A connection is lost only
/// where it was not disconnected, so it is reported as lost at most once until it
/// connects again.
pub proof fn law_steps_tell_the_state(
    pre: PeerConnectionView<ClientConnectionView>,
    post: PeerConnectionView<ClientConnectionView>,
    input: ClientInput,
    step: ClientStep,
)
    requires
        post.handles(pre, input, step),
    ensures
        step is Connected ==> post.specific.state is Connected,
        step is Failed || step is Lost ==> post.specific.state is Disconnected,
        step is Lost ==> !(pre.specific.state is Disconnected),
        step is Stale ==> pre.specific.state is Disconnected && post == pre,
{
}

/// Between two reports that a connection is lost, it has connected.
pub proof fn law_lost_once(
    states: Seq<PeerConnectionView<ClientConnectionView>>,
    inputs: Seq<ClientInput>,
    steps: Seq<ClientStep>,
    first: int,
    second: int,
)
    requires
        is_client_trace(states, inputs, steps),
        0 <= first < second < steps.len(),
        steps[first] is Lost,
        steps[second] is Lost,
    ensures
        exists|i: int| first < i < second && (#[trigger] steps[i]) is Connected,
{
    if forall|i: int| first < i < second ==> !((#[trigger] steps[i]) is Connected) {
        lemma_stays_disconnected(states, inputs, steps, first, second);
        assert(states[second + 1].handles(states[second], inputs[second], steps[second]));
        law_steps_tell_the_state(
            states[second],
            states[second + 1],
            inputs[second],
            steps[second],
        );
    }
}

/// A connection that was lost is disconnected until it connects.
proof fn lemma_stays_disconnected(
    states: Seq<PeerConnectionView<ClientConnectionView>>,
    inputs: Seq<ClientInput>,
    steps: Seq<ClientStep>,
    first: int,
    at: int,
)
    requires
        is_client_trace(states, inputs, steps),
        0 <= first < at < states.len(),
        steps[first] is Lost,
        forall|i: int| first < i < at ==> !((#[trigger] steps[i]) is Connected),
    ensures
        states[at].specific.state is Disconnected,
    decreases at - first,
{
    if at == first + 1 {
        assert(states[first + 1].handles(states[first], inputs[first], steps[first]));
        law_steps_tell_the_state(states[first], states[at], inputs[first], steps[first]);
    } else {
        lemma_stays_disconnected(states, inputs, steps, first, at - 1);
        assert(!(steps[at - 1] is Connected));
        let step = steps[at - 1];
        assert(states[at - 1 + 1].handles(states[at - 1], inputs[at - 1], step));
        law_steps_tell_the_state(states[at - 1], states[at], inputs[at - 1], step);
    }
}

/// An update leaves a connection where what happened last has put it: connected
/// where it connected last, disconnected otherwise, and as it was where nothing
/// happened.
pub proof fn law_update_tells_the_state(
    pre: PeerConnectionView<ClientConnectionView>,
    post: PeerConnectionView<ClientConnectionView>,
    steps: Seq<ClientStep>,
)
    requires
        post.updated(pre, steps),
    ensures
        if steps.len() == 0 {
            post.specific.state == pre.specific.state
        } else if steps.last() is Connected {
            post.specific.state is Connected
        } else {
            post.specific.state is Disconnected
        },
{
    let (messages, reports, states) = choose|
        messages: Batch<ClientAsyncMessage>,
        reports: Batch<ChannelAsyncMessage>,
        states: Seq<PeerConnectionView<ClientConnectionView>>,
    |
        {
            &&& messages.complete(usize::MAX)
            &&& pre.gave_reports(reports, states[0].reports_left)
            &&& #[trigger] is_client_trace(
                states,
                inputs(messages.messages, reports.messages),
                steps,
            )
            &&& states[0] == pre.with_messages(messages).with_reports(
                reports,
                states[0].reports_left,
            )
            &&& states.last() == post
        };
    if steps.len() > 0 {
        let all = inputs(messages.messages, reports.messages);
        let last = steps.len() - 1;
        assert(states[last + 1].handles(states[last], all[last], steps[last]));
        law_steps_tell_the_state(states[last], post, all[last], steps[last]);
    }
}

/// What handling inputs leaves as it is: all that was taken from the queues.
proof fn lemma_handling_takes_nothing(
    states: Seq<PeerConnectionView<ClientConnectionView>>,
    inputs: Seq<ClientInput>,
    steps: Seq<ClientStep>,
    at: int,
)
    requires
        is_client_trace(states, inputs, steps),
        0 <= at < states.len(),
    ensures
        states[at].specific.messages == states[0].specific.messages,
        states[at].reports == states[0].reports,
        states[at].arrived == states[0].arrived,
        states[at].ends == states[0].ends,
        states[at].channels == states[0].channels,
    decreases at,
{
    if at > 0 {
        lemma_handling_takes_nothing(states, inputs, steps, at - 1);
        assert(states[at - 1 + 1].handles(states[at - 1], inputs[at - 1], steps[at - 1]));
    }
}

/// An update reads all that was sent to a connection: it asks both queues until they
/// have nothing to give, takes each message and report once, and one step comes of
/// each. It takes no payloads, and keeps the channels.
pub proof fn law_update_reads_everything(
    pre: PeerConnectionView<ClientConnectionView>,
    post: PeerConnectionView<ClientConnectionView>,
    steps: Seq<ClientStep>,
)
    requires
        post.updated(pre, steps),
    ensures
        exists|messages: Batch<ClientAsyncMessage>, reports: Batch<ChannelAsyncMessage>|
            {
                &&& #[trigger] messages.complete(usize::MAX)
                &&& #[trigger] reports.complete(usize::MAX)
                &&& post.specific.messages == pre.specific.messages + messages.answers()
                &&& post.reports == pre.reports + reports.answers()
                &&& steps.len() == messages.messages.len() + reports.messages.len()
            },
        post.arrived == pre.arrived,
        post.ends == pre.ends,
        post.channels == pre.channels,
{
    let (messages, reports, states) = choose|
        messages: Batch<ClientAsyncMessage>,
        reports: Batch<ChannelAsyncMessage>,
        states: Seq<PeerConnectionView<ClientConnectionView>>,
    |
        {
            &&& messages.complete(usize::MAX)
            &&& pre.gave_reports(reports, states[0].reports_left)
            &&& #[trigger] is_client_trace(
                states,
                inputs(messages.messages, reports.messages),
                steps,
            )
            &&& states[0] == pre.with_messages(messages).with_reports(
                reports,
                states[0].reports_left,
            )
            &&& states.last() == post
        };
    lemma_handling_takes_nothing(
        states,
        inputs(messages.messages, reports.messages),
        steps,
        states.len() - 1,
    );
    assert(messages.complete(usize::MAX) && reports.complete(usize::MAX));
}

/// `post` is what a client can be after one call on it. `opening` is the id that
/// the call gave to a connection, or spent on one that could not be opened.
pub open spec fn client_call(
    pre: IrohClientView,
    post: IrohClientView,
    opening: Option<ConnectionLocalId>,
) -> bool {
    match opening {
        Some(id) => {
            &&& id == pre.connection_local_id_gen
            &&& pre.connection_local_id_gen < ConnectionLocalId::MAX
            &&& {
                ||| post == pre.spend_id()
                ||| exists|connection: PeerConnectionView<ClientConnectionView>|
                    post == #[trigger] pre.open(connection)
            }
        },
        None => {
            ||| post == pre
            ||| exists|id: ConnectionLocalId| post == #[trigger] pre.without(id)
            ||| post == pre.without_connections()
            ||| post == (IrohClientView {
                default_connection_id: post.default_connection_id,
                ..pre
            })
            ||| post == (IrohClientView { endpoint: post.endpoint, ..pre })
            ||| exists|
                id: ConnectionLocalId,
                connection: PeerConnectionView<ClientConnectionView>,
            |
                pre.connections.contains_key(id) && post == #[trigger] pre.with_connection(
                    id,
                    connection,
                )
            ||| exists|events: ClientEventsView| #[trigger] post.updated(pre, events)
            ||| exists|events: Seq<ClientRecvChannelError>| #[trigger] post.dispatched(pre, events)
            ||| post == pre.cleared()
        },
    }
}

/// How many of some calls opened a connection, or tried to.
pub open spec fn openings(calls: Seq<Option<ConnectionLocalId>>) -> nat
    decreases calls.len(),
{
    if calls.len() == 0 {
        0
    } else if calls.last() is Some {
        openings(calls.drop_last()) + 1
    } else {
        openings(calls.drop_last())
    }
}

/// Over any mix of calls on a new client, the connections get the ids from zero
/// on, one after the other: the call that opens a connection after `n` others did
/// gives it the id `n`. A connection that could not be opened has spent its id.
pub proof fn law_ids_count_the_openings(
    states: Seq<IrohClientView>,
    calls: Seq<Option<ConnectionLocalId>>,
    at: int,
)
    requires
        states.len() == calls.len() + 1,
        states[0].connection_local_id_gen == 0,
        forall|i: int|
            0 <= i < calls.len() ==> client_call(states[i], states[i + 1], #[trigger] calls[i]),
        0 <= at <= calls.len(),
    ensures
        states[at].connection_local_id_gen == openings(calls.take(at)),
        at < calls.len() ==> (calls[at] matches Some(id) ==> id == openings(calls.take(at))),
    decreases at,
{
    if at > 0 {
        law_ids_count_the_openings(states, calls, at - 1);
        assert(calls.take(at).drop_last() =~= calls.take(at - 1));
        assert(calls.take(at).last() == calls[at - 1]);
        assert(client_call(states[at - 1], states[at - 1 + 1], calls[at - 1]));
    } else {
        assert(calls.take(0) =~= Seq::empty());
    }
    if at < calls.len() {
        assert(client_call(states[at], states[at + 1], calls[at]));
    }
}

/// The task that establishes a connection tells the synchronous side how it went
/// once, as the last thing it does; after that it does nothing.
pub proof fn law_connecting_tells_once(
    config: IrohClientConnectionConfigView,
    shares_id: bool,
    pre: ConnectingState,
    event: ConnectingEvent,
    post: ConnectingState,
    action: ConnectingAction,
)
    requires
        connecting(config, shares_id, pre, event, post, action),
    ensures
        action is Signal || action is ServeAndSignal ==> post is Ended,
        pre is Ended ==> post is Ended && action is Nothing,
        action matches ConnectingAction::Signal(ClientAsyncMessage::Connected(_, client_id))
            ==> pre is AwaitingId && client_id is Some,
        action matches ConnectingAction::ServeAndSignal(message) ==> !shares_id && (
        message matches ClientAsyncMessage::Connected(_, client_id) && client_id is None),
{
}

/// A connection that was established is reported as closed once, and as nothing
/// else: the task that watches it tells the synchronous side at the first event if
/// that still listens, and after that it does nothing.
pub proof fn law_closing_is_told_once(
    first: WatchingState,
    first_listens: bool,
    second: WatchingState,
    first_action: WatchingAction,
    second_listens: bool,
    third: WatchingState,
    second_action: WatchingAction,
)
    requires
        first is Watching,
        watching(first, first_listens, second, first_action),
        watching(second, second_listens, third, second_action),
    ensures
        first_action is Tell <==> first_listens,
        first_action matches WatchingAction::Tell(message) ==> message
            == ClientAsyncMessage::ConnectionClosed,
        second_action is End && third is Ended,
{
}

} // verus!
