//! What holds over the life of an endpoint, whatever is called on it.

use vstd::prelude::*;

#[allow(unused_imports)]
use crate::server::connection::ServerConnectionView;
#[allow(unused_imports)]
use crate::server::endpoint::events::{accepted_ids, is_trace, lost_ids, ServerStep};
#[allow(unused_imports)]
use crate::server::endpoint::send::{failures, lemma_group_keeps_shape};
#[allow(unused_imports)]
use crate::server::endpoint::ServerEndpointView;
#[allow(unused_imports)]
use crate::server::laws::{
    law_accepted_id_is_fresh, law_update_accounts_for_clients, lemma_disconnect_each,
    lemma_trace_clients,
};
#[allow(unused_imports)]
use crate::server::{
    ServerAsyncMessage, ServerReceiveError, ServerRecvChannelError, ServerSendError,
};
#[allow(unused_imports)]
use crate::shared::channels::{ChannelConfig, ChannelId};
#[allow(unused_imports)]
use crate::shared::error::{AsyncChannelError, ChannelCloseError, ChannelCreationError};
#[allow(unused_imports)]
use crate::shared::listing::lists_keys;
#[allow(unused_imports)]
use crate::shared::peer_connection::PeerConnectionView;
#[allow(unused_imports)]
use crate::shared::ClientId;

verus! {

/// `post` is what an endpoint can be after a call that disconnects `dropped`, each
/// once, and reports none of them as lost.
pub open spec fn disconnecting_call(
    pre: ServerEndpointView,
    post: ServerEndpointView,
    dropped: Seq<ClientId>,
) -> bool {
    ||| exists|id: ClientId|
        pre.clients.contains_key(id) && post == #[trigger] pre.disconnect(id) && dropped == seq![id]
    ||| post == pre.without_clients() && lists_keys(dropped, pre.clients)
    ||| exists|heard: bool| #[trigger] post.shut_down(pre, heard) && lists_keys(
        dropped,
        pre.clients,
    )
    ||| {
        &&& dropped.no_duplicates()
        &&& forall|id: ClientId| #[trigger] dropped.contains(id) ==> pre.clients.contains_key(id)
        &&& post.disconnected_each(pre, dropped)
    }
}

/// `post` is what an endpoint can be after a call that neither accepts nor
/// disconnects clients.
pub open spec fn keeping_call(pre: ServerEndpointView, post: ServerEndpointView) -> bool {
    ||| post == pre
    ||| exists|
        client_id: ClientId,
        channel_id: ChannelId,
        payload: Seq<u8>,
        r: Result<(), ServerSendError>,
    |
        pre.send_possible(client_id, channel_id, r) && post == #[trigger] pre.after_send(
            client_id,
            channel_id,
            payload,
            r,
        )
    ||| exists|
        ids: Seq<ClientId>,
        channel_id: ChannelId,
        payload: Seq<u8>,
        errors: Seq<(ClientId, ServerSendError)>,
    | #[trigger] post.group_sent(pre, ids, channel_id, payload, errors)
    ||| exists|config: ChannelConfig, r: Result<ChannelId, ChannelCreationError>| #[trigger]
        post.opens(pre, config, r)
    ||| exists|channel_id: ChannelId, r: Result<(), ChannelCloseError>| #[trigger]
        post.closes(pre, channel_id, r)
    ||| exists|events: Seq<ServerRecvChannelError>| #[trigger] post.dispatched(pre, events)
    ||| exists|
        client_id: ClientId,
        channel_id: ChannelId,
        r: Result<Option<Seq<u8>>, ServerReceiveError>,
    | #[trigger] post.received(pre, client_id, channel_id, r)
    ||| post == pre.cleared()
    ||| exists|gone: Seq<ClientId>| #[trigger] post.surveyed(pre, gone)
    ||| exists|client_id: ClientId, connection: PeerConnectionView<ServerConnectionView>|
        pre.clients.contains_key(client_id) && post == #[trigger] pre.with_client(
            client_id,
            connection,
        )
    ||| post == (ServerEndpointView { messages: post.messages, ..pre })
    ||| post == (ServerEndpointView { shutdowns: post.shutdowns, ..pre })
    ||| post == (ServerEndpointView { raw: post.raw, ..pre })
    ||| post == (ServerEndpointView { send_channel_ids: post.send_channel_ids, ..pre })
    ||| post == (ServerEndpointView { recv_channels_cfg: post.recv_channels_cfg, ..pre })
}

/// `post` is what an endpoint can be after one call on it. `accepted` are the
/// clients that the call accepted, `gone` those that it reported as lost, and
/// `dropped` those that it disconnected otherwise.
pub open spec fn endpoint_call(
    pre: ServerEndpointView,
    post: ServerEndpointView,
    accepted: Seq<ClientId>,
    gone: Seq<ClientId>,
    dropped: Seq<ClientId>,
) -> bool {
    ||| post.updated(pre, accepted, gone) && dropped == Seq::<ClientId>::empty()
    ||| exists|messages: Seq<ServerAsyncMessage>, steps: Seq<ServerStep>| #[trigger]
        post.ran(pre, messages, steps) && accepted == accepted_ids(steps) && gone == lost_ids(steps)
            && dropped == Seq::<ClientId>::empty()
    ||| exists|message: ServerAsyncMessage, step: ServerStep| #[trigger]
        post.handles(pre, message, step) && accepted == accepted_ids(seq![step]) && gone
            == lost_ids(seq![step]) && dropped == Seq::<ClientId>::empty()
    ||| exists|
        connection: PeerConnectionView<ServerConnectionView>,
        r: Result<ClientId, AsyncChannelError>,
    |
        pre.has_room() && #[trigger] post.accepts(pre, connection, r) && accepted == (match r {
            Ok(id) => seq![id],
            Err(_) => Seq::empty(),
        }) && gone == Seq::<ClientId>::empty() && dropped == Seq::<ClientId>::empty()
    ||| {
        &&& accepted == Seq::<ClientId>::empty()
        &&& gone == Seq::<ClientId>::empty()
        &&& disconnecting_call(pre, post, dropped) || (keeping_call(pre, post) && dropped
            == Seq::<ClientId>::empty())
    }
}

/// What a call that neither accepts nor disconnects clients leaves as it is.
proof fn lemma_keeping_call(pre: ServerEndpointView, post: ServerEndpointView)
    requires
        keeping_call(pre, post),
    ensures
        post.clients.dom() == pre.clients.dom(),
        post.client_id_gen == pre.client_id_gen,
        post.stats == pre.stats,
{
    if exists|
        ids: Seq<ClientId>,
        channel_id: ChannelId,
        payload: Seq<u8>,
        errors: Seq<(ClientId, ServerSendError)>,
    | #[trigger] post.group_sent(pre, ids, channel_id, payload, errors) {
        let (ids, channel_id, payload, errors) = choose|
            ids: Seq<ClientId>,
            channel_id: ChannelId,
            payload: Seq<u8>,
            errors: Seq<(ClientId, ServerSendError)>,
        | #[trigger] post.group_sent(pre, ids, channel_id, payload, errors);
        let outcomes = choose|outcomes: Seq<Result<(), ServerSendError>>| #[trigger]
            pre.group_possible(ids, channel_id, outcomes) && post == pre.after_group(
                ids,
                channel_id,
                payload,
                outcomes,
            ) && errors == failures(ids, outcomes);
        lemma_group_keeps_shape(pre, ids, channel_id, payload, outcomes);
    }
    assert(post.clients.dom() =~= pre.clients.dom());
}

/// What one call does to the clients of an endpoint, and to what counts them.
proof fn lemma_endpoint_call(
    pre: ServerEndpointView,
    post: ServerEndpointView,
    accepted: Seq<ClientId>,
    gone: Seq<ClientId>,
    dropped: Seq<ClientId>,
)
    requires
        pre.wf(),
        endpoint_call(pre, post, accepted, gone, dropped),
    ensures
        post.wf(),
        pre.client_id_gen <= post.client_id_gen,
        post.stats.connect_count == pre.stats.connect_count + accepted.len(),
        gone.no_duplicates(),
        forall|id: ClientId| #[trigger]
            accepted.contains(id) ==> pre.client_id_gen < id <= post.client_id_gen,
        forall|id: ClientId| #[trigger]
            gone.contains(id) ==> (pre.clients.contains_key(id) || accepted.contains(id)) && id
                <= post.client_id_gen,
        forall|id: ClientId| #[trigger]
            post.clients.contains_key(id) <==> (pre.clients.contains_key(id) || accepted.contains(
                id,
            )) && !gone.contains(id) && !dropped.contains(id),
{
    if post.updated(pre, accepted, gone) && dropped == Seq::<ClientId>::empty() {
        law_update_accounts_for_clients(pre, post, accepted, gone);
        lemma_listed_bounds(accepted, pre.client_id_gen, post.client_id_gen);
    } else if exists|messages: Seq<ServerAsyncMessage>, steps: Seq<ServerStep>| #[trigger]
        post.ran(pre, messages, steps) && accepted == accepted_ids(steps) && gone == lost_ids(steps)
            && dropped == Seq::<ClientId>::empty() {
        let (messages, steps) = choose|
            messages: Seq<ServerAsyncMessage>,
            steps: Seq<ServerStep>,
        | #[trigger]
            post.ran(pre, messages, steps) && accepted == accepted_ids(steps) && gone == lost_ids(
                steps,
            ) && dropped == Seq::<ClientId>::empty();
        let states = choose|states: Seq<ServerEndpointView>| #[trigger]
            is_trace(states, messages, steps) && states[0] == pre && states[messages.len() as int]
                == post;
        lemma_trace_clients(states, messages, steps);
        lemma_listed_bounds(accepted, pre.client_id_gen, post.client_id_gen);
    } else if exists|message: ServerAsyncMessage, step: ServerStep| #[trigger]
        post.handles(pre, message, step) && accepted == accepted_ids(seq![step]) && gone
            == lost_ids(seq![step]) && dropped == Seq::<ClientId>::empty() {
        let (message, step) = choose|message: ServerAsyncMessage, step: ServerStep| #[trigger]
            post.handles(pre, message, step) && accepted == accepted_ids(seq![step]) && gone
                == lost_ids(seq![step]) && dropped == Seq::<ClientId>::empty();
        let states = seq![pre, post];
        let messages = seq![message];
        let steps = seq![step];
        assert(is_trace(states, messages, steps)) by {
            assert forall|i: int| 0 <= i < messages.len() implies states[i + 1].handles(
                states[i],
                messages[i],
                #[trigger] steps[i],
            ) by {
                assert(i == 0);
            }
        }
        lemma_trace_clients(states, messages, steps);
        lemma_listed_bounds(accepted, pre.client_id_gen, post.client_id_gen);
    } else if exists|
        connection: PeerConnectionView<ServerConnectionView>,
        r: Result<ClientId, AsyncChannelError>,
    |
        pre.has_room() && #[trigger] post.accepts(pre, connection, r) && accepted == (match r {
            Ok(id) => seq![id],
            Err(_) => Seq::empty(),
        }) && gone == Seq::<ClientId>::empty() && dropped == Seq::<ClientId>::empty() {
        let (connection, r) = choose|
            connection: PeerConnectionView<ServerConnectionView>,
            r: Result<ClientId, AsyncChannelError>,
        |
            pre.has_room() && #[trigger] post.accepts(pre, connection, r) && accepted == (
            match r {
                Ok(id) => seq![id],
                Err(_) => Seq::empty(),
            }) && gone == Seq::<ClientId>::empty() && dropped == Seq::<ClientId>::empty();
        if let Ok(id) = r {
            law_accepted_id_is_fresh(pre, post, connection, id);
            assert(accepted[0] == id);
            assert(post.clients.dom() =~= pre.clients.dom().insert(id));
            assert forall|k: ClientId| #[trigger] post.clients.contains_key(k) <==> (
            pre.clients.contains_key(k) || accepted.contains(k)) by {
                assert(post.clients.dom().contains(k) <==> pre.clients.dom().contains(k)
                    || k == id);
            }
        }
    } else if disconnecting_call(pre, post, dropped) {
        lemma_disconnecting_call(pre, post, dropped);
    } else {
        lemma_keeping_call(pre, post);
        assert forall|k: ClientId| #[trigger]
            post.clients.contains_key(k) <==> pre.clients.contains_key(k) by {
            assert(post.clients.dom().contains(k) <==> pre.clients.dom().contains(k));
        }
    }
}

/// What a call that disconnects clients does to them, and to what counts them.
proof fn lemma_disconnecting_call(
    pre: ServerEndpointView,
    post: ServerEndpointView,
    dropped: Seq<ClientId>,
)
    requires
        pre.wf(),
        disconnecting_call(pre, post, dropped),
    ensures
        post.wf(),
        post.client_id_gen == pre.client_id_gen,
        post.stats.connect_count == pre.stats.connect_count,
        forall|id: ClientId| #[trigger]
            post.clients.contains_key(id) <==> pre.clients.contains_key(id) && !dropped.contains(
                id,
            ),
{
    if exists|id: ClientId|
        pre.clients.contains_key(id) && post == #[trigger] pre.disconnect(id) && dropped
            == seq![id] {
        let id = choose|id: ClientId|
            pre.clients.contains_key(id) && post == #[trigger] pre.disconnect(id) && dropped
                == seq![id];
        assert(pre.clients.dom().contains(id));
        assert(post.clients.dom() =~= pre.clients.dom().remove(id));
        assert(dropped[0] == id);
        assert forall|k: ClientId| #[trigger]
            post.clients.contains_key(k) <==> pre.clients.contains_key(k) && !dropped.contains(
                k,
            ) by {
            assert(post.clients.dom().contains(k) <==> pre.clients.dom().contains(k) && k != id);
        }
    } else if dropped.no_duplicates() && (forall|id: ClientId| #[trigger]
        dropped.contains(id) ==> pre.clients.contains_key(id)) && post.disconnected_each(
        pre,
        dropped,
    ) {
        lemma_disconnect_each(pre, dropped);
    } else {
        assert(post.clients.dom() =~= Set::<ClientId>::empty());
        assert forall|k: ClientId| #[trigger] post.clients.contains_key(k) <==> (
        pre.clients.contains_key(k) && !dropped.contains(k)) by {
            assert(!post.clients.dom().contains(k));
        }
    }
}

/// Bounds of the elements of a sequence are bounds of what it contains.
proof fn lemma_listed_bounds(ids: Seq<ClientId>, low: ClientId, high: ClientId)
    requires
        forall|i: int| 0 <= i < ids.len() ==> low < #[trigger] ids[i] <= high,
    ensures
        forall|id: ClientId| #[trigger] ids.contains(id) ==> low < id <= high,
{
}

/// The endpoint went through `states`, one after each of some calls: `accepted`,
/// `gone` and `dropped` are the clients that each call accepted, reported as lost,
/// and disconnected otherwise.
pub open spec fn is_life(
    states: Seq<ServerEndpointView>,
    accepted: Seq<Seq<ClientId>>,
    gone: Seq<Seq<ClientId>>,
    dropped: Seq<Seq<ClientId>>,
) -> bool {
    &&& states.len() == accepted.len() + 1
    &&& gone.len() == accepted.len()
    &&& dropped.len() == accepted.len()
    &&& forall|i: int|
        0 <= i < accepted.len() ==> endpoint_call(
            states[i],
            states[i + 1],
            accepted[i],
            #[trigger] gone[i],
            dropped[i],
        )
}

/// How many clients were accepted in all.
pub open spec fn accepted_count(accepted: Seq<Seq<ClientId>>) -> nat
    decreases accepted.len(),
{
    if accepted.len() == 0 {
        0
    } else {
        accepted_count(accepted.drop_last()) + accepted.last().len()
    }
}

/// Over the life of an endpoint, whatever is called on it, its connect count goes
/// up by one for each client that is accepted, and by nothing else. The last client
/// id given never falls, and the stats stay right.
pub proof fn law_connect_count_counts_clients(
    states: Seq<ServerEndpointView>,
    accepted: Seq<Seq<ClientId>>,
    gone: Seq<Seq<ClientId>>,
    dropped: Seq<Seq<ClientId>>,
    at: int,
)
    requires
        is_life(states, accepted, gone, dropped),
        states[0].wf(),
        0 <= at < states.len(),
    ensures
        states[at].wf(),
        states[0].client_id_gen <= states[at].client_id_gen,
        states[at].stats.connect_count == states[0].stats.connect_count + accepted_count(
            accepted.take(at),
        ),
    decreases at,
{
    if at > 0 {
        law_connect_count_counts_clients(states, accepted, gone, dropped, at - 1);
        assert(accepted.take(at).drop_last() =~= accepted.take(at - 1));
        assert(accepted.take(at).last() == accepted[at - 1]);
        assert(endpoint_call(
            states[at - 1],
            states[at - 1 + 1],
            accepted[at - 1],
            gone[at - 1],
            dropped[at - 1],
        ));
        lemma_endpoint_call(
            states[at - 1],
            states[at],
            accepted[at - 1],
            gone[at - 1],
            dropped[at - 1],
        );
    }
}

/// A client that was reported as lost is not there later, and its id is not given
/// again.
proof fn lemma_lost_stays_lost(
    states: Seq<ServerEndpointView>,
    accepted: Seq<Seq<ClientId>>,
    gone: Seq<Seq<ClientId>>,
    dropped: Seq<Seq<ClientId>>,
    call: int,
    at: int,
    client_id: ClientId,
)
    requires
        is_life(states, accepted, gone, dropped),
        states[0].wf(),
        0 <= call < at < states.len(),
        gone[call].contains(client_id),
    ensures
        !states[at].clients.contains_key(client_id),
        client_id <= states[at].client_id_gen,
    decreases at - call,
{
    law_connect_count_counts_clients(states, accepted, gone, dropped, at - 1);
    assert(endpoint_call(
        states[at - 1],
        states[at - 1 + 1],
        accepted[at - 1],
        gone[at - 1],
        dropped[at - 1],
    ));
    lemma_endpoint_call(
        states[at - 1],
        states[at],
        accepted[at - 1],
        gone[at - 1],
        dropped[at - 1],
    );
    if at > call + 1 {
        lemma_lost_stays_lost(states, accepted, gone, dropped, call, at - 1, client_id);
    }
}

/// Over the life of an endpoint, whatever is called on it, no client is reported as
/// lost twice: neither by one call nor by two.
pub proof fn law_no_client_is_lost_twice(
    states: Seq<ServerEndpointView>,
    accepted: Seq<Seq<ClientId>>,
    gone: Seq<Seq<ClientId>>,
    dropped: Seq<Seq<ClientId>>,
    first: int,
    second: int,
    client_id: ClientId,
)
    requires
        is_life(states, accepted, gone, dropped),
        states[0].wf(),
        0 <= first < gone.len(),
        0 <= second < gone.len(),
        gone[first].contains(client_id),
        gone[second].contains(client_id),
    ensures
        first == second,
        gone[first].no_duplicates(),
{
    law_connect_count_counts_clients(states, accepted, gone, dropped, first);
    law_connect_count_counts_clients(states, accepted, gone, dropped, second);
    assert(endpoint_call(
        states[first],
        states[first + 1],
        accepted[first],
        gone[first],
        dropped[first],
    ));
    assert(endpoint_call(
        states[second],
        states[second + 1],
        accepted[second],
        gone[second],
        dropped[second],
    ));
    lemma_endpoint_call(
        states[first],
        states[first + 1],
        accepted[first],
        gone[first],
        dropped[first],
    );
    lemma_endpoint_call(
        states[second],
        states[second + 1],
        accepted[second],
        gone[second],
        dropped[second],
    );
    if first < second {
        lemma_lost_stays_lost(states, accepted, gone, dropped, first, second, client_id);
    } else if second < first {
        lemma_lost_stays_lost(states, accepted, gone, dropped, second, first, client_id);
    }
}

/// None of the calls from `from` on, up to the state `at`, lost or disconnected the
/// client.
pub open spec fn stayed(
    gone: Seq<Seq<ClientId>>,
    dropped: Seq<Seq<ClientId>>,
    from: int,
    at: int,
    client_id: ClientId,
) -> bool {
    forall|j: int|
        from <= j < at ==> !(#[trigger] gone[j]).contains(client_id) && !dropped[j].contains(
            client_id,
        )
}

/// A call before the state `at` accepted the client, and it stayed since.
pub open spec fn joined(
    accepted: Seq<Seq<ClientId>>,
    gone: Seq<Seq<ClientId>>,
    dropped: Seq<Seq<ClientId>>,
    at: int,
    client_id: ClientId,
) -> bool {
    exists|i: int|
        0 <= i < at && (#[trigger] accepted[i]).contains(client_id) && stayed(
            gone,
            dropped,
            i,
            at,
            client_id,
        )
}

/// Over the life of an endpoint, whatever is called on it, its clients are those
/// that were accepted and neither lost nor disconnected since, besides those that
/// it had at first and that stayed. An endpoint that has just been made has none.
pub proof fn law_clients_are_those_accepted(
    states: Seq<ServerEndpointView>,
    accepted: Seq<Seq<ClientId>>,
    gone: Seq<Seq<ClientId>>,
    dropped: Seq<Seq<ClientId>>,
    at: int,
    client_id: ClientId,
)
    requires
        is_life(states, accepted, gone, dropped),
        states[0].wf(),
        0 <= at < states.len(),
    ensures
        states[at].clients.contains_key(client_id) <==> joined(
            accepted,
            gone,
            dropped,
            at,
            client_id,
        ) || (states[0].clients.contains_key(client_id) && stayed(
            gone,
            dropped,
            0,
            at,
            client_id,
        )),
        states[0].clients == Map::<ClientId, PeerConnectionView<ServerConnectionView>>::empty()
            ==> (states[at].clients.contains_key(client_id) <==> joined(
            accepted,
            gone,
            dropped,
            at,
            client_id,
        )),
    decreases at,
{
    if at > 0 {
        let last = at - 1;
        law_clients_are_those_accepted(states, accepted, gone, dropped, last, client_id);
        law_connect_count_counts_clients(states, accepted, gone, dropped, last);
        assert(endpoint_call(
            states[last],
            states[last + 1],
            accepted[last],
            gone[last],
            dropped[last],
        ));
        lemma_endpoint_call(
            states[last],
            states[at],
            accepted[last],
            gone[last],
            dropped[last],
        );
        let out = gone[last].contains(client_id) || dropped[last].contains(client_id);
        let earlier = joined(accepted, gone, dropped, last, client_id);
        if joined(accepted, gone, dropped, at, client_id) {
            let i = choose|i: int|
                0 <= i < at && (#[trigger] accepted[i]).contains(client_id) && stayed(
                    gone,
                    dropped,
                    i,
                    at,
                    client_id,
                );
            assert(!out) by {
                assert(!gone[last].contains(client_id));
            }
            if i < last {
                assert(stayed(gone, dropped, i, last, client_id));
                assert(earlier);
            }
        }
        if earlier && !out {
            let i = choose|i: int|
                0 <= i < last && (#[trigger] accepted[i]).contains(client_id) && stayed(
                    gone,
                    dropped,
                    i,
                    last,
                    client_id,
                );
            assert(stayed(gone, dropped, i, at, client_id));
            assert(joined(accepted, gone, dropped, at, client_id));
        }
        if accepted[last].contains(client_id) && !out {
            assert(stayed(gone, dropped, last, at, client_id));
        }
        if stayed(gone, dropped, 0, at, client_id) {
            assert(!gone[last].contains(client_id));
            assert(stayed(gone, dropped, 0, last, client_id));
        }
    }
}

} // verus!
