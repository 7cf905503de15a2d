//! What holds of connections, whichever side has them.

#[allow(unused_imports)]
use tokio::sync::mpsc;
use vstd::prelude::*;

#[allow(unused_imports)]
use crate::shared::channels::tasks::{SpawnerAction, SpawnerEvent, SpawnerState};
#[allow(unused_imports)]
use crate::shared::channels::{
    links_for, ChannelAsyncMessage, ChannelConfig, ChannelId, ChannelSyncMessage,
    ChannelView, CloseReason, Link,
};
#[allow(unused_imports)]
use crate::shared::error::{ConnectionSendError, RecvChannelError};
#[allow(unused_imports)]
use crate::shared::peer_connection::{
    sorted_into, sorting_errors, ChannelsIdsPoolView, PeerConnectionView,
};
#[allow(unused_imports)]
use crate::shared::queues::{Answer, Batch};

verus! {

/// Taking an id and releasing it leaves the pool as it was, where the id was not
/// made the default channel beforehand.
pub proof fn law_release_undoes_take(pool: ChannelsIdsPoolView, id: ChannelId)
    requires
        pool.is_next(id),
        pool.default_channel != Some(id),
    ensures
        pool.take(id).release(id) == pool,
{
    assert(pool.take(id).release(id) =~= pool);
}

/// An id that is taken is not given again before it is released, and an id that
/// was released can be taken.
pub proof fn law_ids_are_given_once(pool: ChannelsIdsPoolView, id: ChannelId, other: ChannelId)
    ensures
        pool.take(id).is_next(other) ==> other != id,
        pool.release(id).available.contains(id),
{
}

/// The first id that is taken becomes the default channel, and the default
/// channel stays so while other ids are taken and released.
pub proof fn law_default_channel(pool: ChannelsIdsPoolView, id: ChannelId)
    ensures
        pool.default_channel is None ==> pool.take(id).default_channel == Some(id),
        pool.default_channel is Some ==> pool.take(id).default_channel == pool.default_channel,
        pool.default_channel == Some(id) ==> pool.release(id).default_channel is None,
        pool.default_channel != Some(id) ==> pool.release(id).default_channel
            == pool.default_channel,
{
}

/// A channel that is registered takes payloads, one that is gone does not; the
/// queue of a registered channel may refuse them.
pub proof fn law_registered_channels_send<V>(
    connection: PeerConnectionView<V>,
    id: ChannelId,
    channel: ChannelView,
    r: Result<(), ConnectionSendError>,
)
    ensures
        connection.register(id, channel).send_possible(id, r) <==> !(r matches Err(
            ConnectionSendError::InvalidChannelId(_),
        )),
        connection.unregister(id).send_possible(id, r) <==> r == Err::<(), _>(
            ConnectionSendError::InvalidChannelId(id),
        ),
{
}

/// A channel hands its payloads on in the order of sending, and sending on one
/// channel leaves the others alone. A payload that the queue refused is not handed
/// on.
pub proof fn law_sends_keep_order<V>(
    connection: PeerConnectionView<V>,
    id: ChannelId,
    first: Seq<u8>,
    second: Seq<u8>,
    refused: Result<(), ConnectionSendError>,
    other: ChannelId,
)
    requires
        connection.channels.contains_key(id),
        connection.channels.contains_key(other),
        connection.send_possible(id, refused),
        refused is Err,
    ensures
        ({
            let mid = connection.after_send(id, first, Ok(()));
            let post = mid.after_send(id, second, Ok(()));
            &&& post.channels[id].sent() == connection.channels[id].sent() + seq![first, second]
            &&& post.channels.dom() == connection.channels.dom()
            &&& other != id ==> post.channels[other] == connection.channels[other]
            &&& post == (PeerConnectionView { channels: post.channels, ..connection })
            &&& mid.after_send(id, second, refused).channels[id].sent() == mid.channels[id].sent()
        }),
{
    let mid = connection.after_send(id, first, Ok(()));
    let post = mid.after_send(id, second, Ok(()));
    let before = connection.channels[id].sends;
    assert(mid.channels[id].sends.drop_last() =~= before);
    assert(post.channels[id].sends.drop_last() =~= mid.channels[id].sends);
    assert(mid.after_send(id, second, refused).channels[id].sends.drop_last()
        =~= mid.channels[id].sends);
    assert(mid.channels[id].sent() =~= connection.channels[id].sent().push(first));
    assert(post.channels[id].sent() =~= mid.channels[id].sent().push(second));
    assert(post.channels[id].sent() =~= connection.channels[id].sent() + seq![first, second]);
    assert(post.channels.dom() =~= connection.channels.dom());
}

/// What a connection has once it was linked to channels: each of them, besides
/// those that it had. The async tasks took a request for each, in order, and
/// nothing else changed. Where every channel had the queues that the tasks took
/// before, this is so after it.
pub proof fn law_linked_channels<V>(
    connection: PeerConnectionView<V>,
    links: Seq<Link>,
    entries: Seq<(ChannelId, ChannelConfig)>,
)
    requires
        links_for(links, entries),
    ensures
        ({
            let post = connection.link_each(links);
            &&& post.requests == connection.requests + links.map_values(
                |l: Link| (l.request, Answer::Taken),
            )
            &&& post == (PeerConnectionView {
                channels: post.channels,
                requests: post.requests,
                ..connection
            })
            &&& forall|i: int|
                0 <= i < entries.len() ==> post.channels.contains_key((#[trigger] entries[i]).0)
                    && post.channels[entries[i].0].fresh()
            &&& forall|id: ChannelId| #[trigger]
                post.channels.contains_key(id) <==> connection.channels.contains_key(id)
                    || exists|i: int| 0 <= i < entries.len() && (#[trigger] entries[i]).0 == id
            &&& forall|id: ChannelId|
                connection.channels.contains_key(id) && !(exists|i: int|
                    0 <= i < entries.len() && (#[trigger] entries[i]).0 == id)
                    ==> #[trigger] post.channels[id] == connection.channels[id]
            &&& connection.wired() ==> post.wired()
        }),
    decreases links.len(),
{
    let post = connection.link_each(links);
    if links.len() == 0 {
        assert(post.requests =~= connection.requests + links.map_values(
            |l: Link| (l.request, Answer::Taken),
        ));
    } else {
        let before = links.drop_last();
        let earlier = entries.drop_last();
        let last = links.last();
        let n = entries.len() - 1;
        assert forall|i: int| 0 <= i < before.len() implies (#[trigger] before[i]).made_for(
            earlier[i].0,
            earlier[i].1,
        ) by {
            assert(before[i] == links[i]);
        }
        law_linked_channels(connection, before, earlier);
        let mid = connection.link_each(before);
        assert(links[n].made_for(entries[n].0, entries[n].1));
        assert(post.requests =~= connection.requests + links.map_values(
            |l: Link| (l.request, Answer::Taken),
        ));
        assert forall|i: int| 0 <= i < entries.len() implies post.channels.contains_key(
            (#[trigger] entries[i]).0,
        ) && post.channels[entries[i].0].fresh() by {
            if i < n {
                assert(earlier[i] == entries[i]);
            }
        }
        assert forall|id: ChannelId| #[trigger]
            post.channels.contains_key(id) <==> connection.channels.contains_key(id)
                || exists|i: int| 0 <= i < entries.len() && (#[trigger] entries[i]).0 == id by {
            if exists|i: int| 0 <= i < earlier.len() && (#[trigger] earlier[i]).0 == id {
                let i = choose|i: int| 0 <= i < earlier.len() && (#[trigger] earlier[i]).0 == id;
                assert(entries[i].0 == id);
            }
            if exists|i: int| 0 <= i < entries.len() && (#[trigger] entries[i]).0 == id {
                let i = choose|i: int| 0 <= i < entries.len() && (#[trigger] entries[i]).0 == id;
                if i < n {
                    assert(earlier[i].0 == id);
                }
            }
        }
        assert forall|id: ChannelId|
            connection.channels.contains_key(id) && !(exists|i: int|
                0 <= i < entries.len() && (#[trigger] entries[i]).0 == id) implies #[trigger]
            post.channels[id] == connection.channels[id] by {
            assert(entries[n].0 != id);
            assert forall|i: int| 0 <= i < earlier.len() implies (#[trigger] earlier[i]).0
                != id by {
                assert(entries[i].0 != id);
            }
            assert(mid.channels[id] == connection.channels[id]);
        }
        if connection.wired() {
            law_channels_stay_wired(
                mid,
                last,
                entries[n].0,
                entries[n].1,
                Seq::empty(),
                Ok(()),
                last.request,
                Answer::Taken,
            );
        }
    }
}

/// Each channel of a connection is there under its own id, and has the queues that
/// the async tasks took with a request for it. This is so of a new connection, and
/// linking to a channel, asking for one in vain, sending, closing a channel, closing
/// the connection, and receiving keep it so.
pub proof fn law_channels_stay_wired<V>(
    connection: PeerConnectionView<V>,
    link: Link,
    id: ChannelId,
    config: ChannelConfig,
    payload: Seq<u8>,
    r: Result<(), ConnectionSendError>,
    request: ChannelSyncMessage,
    answer: Answer,
)
    requires
        connection.wired(),
        link.made_for(id, config),
    ensures
        PeerConnectionView::unused(
            connection.specific,
            connection.ends,
            connection.recv_channels_cfg,
        ).wired(),
        connection.link(link).wired(),
        connection.ask(request, answer).wired(),
        connection.after_send(id, payload, r).wired(),
        connection.unregister(id).wired(),
        forall|reason: CloseReason, heard: bool|
            (#[trigger] connection.told_to_close(reason, heard)).wired(),
        forall|
            reports: Batch<ChannelAsyncMessage>,
            left: mpsc::Receiver<ChannelAsyncMessage>,
        |
            (#[trigger] connection.with_reports(reports, left)).wired(),
        forall|payloads: Batch<(ChannelId, Seq<u8>)>|
            (#[trigger] connection.dispatch(payloads)).wired(),
        connection.read(id).wired(),
        connection.cleared().wired(),
{
    let linked = connection.link(link);
    let n = connection.requests.len() as int;
    lemma_wired(connection, connection.ask(request, answer));
    lemma_wired(connection, connection.after_send(id, payload, r));
    lemma_wired(connection, connection.unregister(id));
    assert forall|reason: CloseReason, heard: bool|
        (#[trigger] connection.told_to_close(reason, heard)).wired() by {
        lemma_wired(connection, connection.told_to_close(reason, heard));
    }
    assert forall|
        reports: Batch<ChannelAsyncMessage>,
        left: mpsc::Receiver<ChannelAsyncMessage>,
    |
        (#[trigger] connection.with_reports(reports, left)).wired() by {
        lemma_wired(connection, connection.with_reports(reports, left));
    }
    assert forall|payloads: Batch<(ChannelId, Seq<u8>)>|
        (#[trigger] connection.dispatch(payloads)).wired() by {
        lemma_wired(connection, connection.dispatch(payloads));
    }
    lemma_wired(connection, connection.read(id));
    lemma_wired(connection, connection.cleared());
    let asked = connection.ask(link.request, Answer::Taken);
    lemma_wired(connection, asked);
    assert forall|k: ChannelId| #[trigger] linked.channels.contains_key(k) implies exists|i: int|
        0 <= i < linked.requests.len() && (#[trigger] linked.requests[i]).1 is Taken
            && linked.requests[i].0->id == k && linked.channels[k].feeds(linked.requests[i].0) by {
        if k == id {
            assert(linked.requests[n].1 is Taken);
        } else {
            assert(asked.channels.contains_key(k));
            let i = choose|i: int|
                0 <= i < asked.requests.len() && (#[trigger] asked.requests[i]).1 is Taken
                    && asked.requests[i].0->id == k && asked.channels[k].feeds(
                    asked.requests[i].0,
                );
            assert(linked.requests[i] == asked.requests[i]);
        }
    }
}

/// Linking to channels keeps the halves of the queues that a connection has.
pub(crate) proof fn lemma_links_keep_ends<V>(pre: PeerConnectionView<V>, links: Seq<Link>)
    ensures
        pre.link_each(links).ends == pre.ends,
        pre.link_each(links).specific == pre.specific,
    decreases links.len(),
{
    if links.len() > 0 {
        lemma_links_keep_ends(pre, links.drop_last());
    }
}

/// A connection stays wired while its channels keep their queues, and requests are
/// only added.
pub(crate) proof fn lemma_wired<V, W>(pre: PeerConnectionView<V>, post: PeerConnectionView<W>)
    requires
        pre.wired(),
        pre.requests.len() <= post.requests.len(),
        forall|i: int|
            0 <= i < pre.requests.len() ==> #[trigger] post.requests[i] == pre.requests[i],
        forall|id: ChannelId| #[trigger]
            post.channels.contains_key(id) ==> pre.channels.contains_key(id)
                && post.channels[id].id == pre.channels[id].id
                && post.channels[id].payload_half == pre.channels[id].payload_half
                && post.channels[id].stop_half == pre.channels[id].stop_half,
    ensures
        post.wired(),
{
    assert forall|k: ChannelId| #[trigger] post.channels.contains_key(k) implies exists|i: int|
        0 <= i < post.requests.len() && (#[trigger] post.requests[i]).1 is Taken
            && post.requests[i].0->id == k && post.channels[k].feeds(post.requests[i].0) by {
        assert(pre.channels.contains_key(k));
        let i = choose|i: int|
            0 <= i < pre.requests.len() && (#[trigger] pre.requests[i]).1 is Taken
                && pre.requests[i].0->id == k && pre.channels[k].feeds(pre.requests[i].0);
        assert(post.requests[i] == pre.requests[i]);
    }
}

/// The payloads of one channel, in order.
pub open spec fn of_channel(payloads: Seq<(ChannelId, Seq<u8>)>, id: ChannelId) -> Seq<Seq<u8>>
    decreases payloads.len(),
{
    if payloads.len() == 0 {
        Seq::empty()
    } else {
        let before = of_channel(payloads.drop_last(), id);
        if payloads.last().0 == id {
            before.push(payloads.last().1)
        } else {
            before
        }
    }
}

/// How many of the errors say that the buffer of this channel was full.
pub open spec fn full_count(errors: Seq<RecvChannelError>, id: ChannelId) -> nat
    decreases errors.len(),
{
    if errors.len() == 0 {
        0
    } else {
        let before = full_count(errors.drop_last(), id);
        if errors.last() == RecvChannelError::RecvChannelFull(id) {
            before + 1
        } else {
            before
        }
    }
}

/// How many of `count` payloads a buffer takes that holds `waiting` already.
pub open spec fn fitting(max: nat, waiting: nat, count: nat) -> nat {
    if max <= waiting {
        0
    } else if count <= max - waiting {
        count
    } else {
        (max - waiting) as nat
    }
}

/// Payloads wait on their channel in the order in which they came. A channel
/// keeps the first of them up to its limit; each of the others is dropped with
/// one error. What comes on other channels does not matter.
pub proof fn law_dispatch_keeps_order(
    buffers: Map<ChannelId, Seq<Seq<u8>>>,
    max: nat,
    payloads: Seq<(ChannelId, Seq<u8>)>,
    id: ChannelId,
)
    requires
        buffers.contains_key(id),
    ensures
        ({
            let mine = of_channel(payloads, id);
            let kept = fitting(max, buffers[id].len(), mine.len());
            &&& kept <= mine.len()
            &&& sorted_into(buffers, max, payloads)[id] == buffers[id] + mine.take(kept as int)
            &&& full_count(sorting_errors(buffers, max, payloads), id) == mine.len() - kept
        }),
    decreases payloads.len(),
{
    let mine = of_channel(payloads, id);
    let kept = fitting(max, buffers[id].len(), mine.len());
    if payloads.len() == 0 {
        assert(buffers[id] + mine.take(0) =~= buffers[id]);
    } else {
        let earlier = payloads.drop_last();
        law_dispatch_keeps_order(buffers, max, earlier, id);
        let before = of_channel(earlier, id);
        let kept_before = fitting(max, buffers[id].len(), before.len());
        let errors_before = sorting_errors(buffers, max, earlier);
        let errors = sorting_errors(buffers, max, payloads);
        if errors != errors_before {
            assert(errors.drop_last() =~= errors_before);
        }
        if payloads.last().0 == id {
            assert(mine.drop_last() =~= before);
            if kept > kept_before {
                assert(buffers[id] + mine.take(kept as int) =~= (buffers[id] + before.take(
                    kept_before as int,
                )).push(payloads.last().1));
            } else {
                assert(mine.take(kept as int) =~= before.take(kept_before as int));
            }
        }
    }
}

/// A connection that is not cleared gives its payloads back in the order in which
/// they came: after dispatch to a channel where nothing waits, the payload that
/// is read first is the one that came first, and so on.
pub proof fn law_first_come_first_read<V>(
    connection: PeerConnectionView<V>,
    payloads: Batch<(ChannelId, Seq<u8>)>,
    id: ChannelId,
)
    requires
        connection.buffers.contains_key(id),
        connection.buffers[id].len() == 0,
        of_channel(payloads.messages, id).len()
            <= connection.recv_channels_cfg.max_buffered_payloads_count_per_channel,
    ensures
        connection.dispatch(payloads).buffers[id] == of_channel(payloads.messages, id),
        full_count(connection.dispatch_errors(payloads.messages), id) == 0,
{
    let max = connection.recv_channels_cfg.max_buffered_payloads_count_per_channel as nat;
    law_dispatch_keeps_order(connection.buffers, max, payloads.messages, id);
    let mine = of_channel(payloads.messages, id);
    assert(connection.buffers[id] + mine.take(mine.len() as int) =~= mine);
}

/// A channel never keeps more payloads than its limit: dispatching respects it,
/// reading takes one payload away, and clearing all.
pub proof fn law_buffers_are_bounded<V>(
    connection: PeerConnectionView<V>,
    payloads: Batch<(ChannelId, Seq<u8>)>,
    id: ChannelId,
)
    requires
        connection.buffers.contains_key(id),
        connection.buffers[id].len()
            <= connection.recv_channels_cfg.max_buffered_payloads_count_per_channel,
    ensures
        connection.dispatch(payloads).buffers[id].len()
            <= connection.recv_channels_cfg.max_buffered_payloads_count_per_channel,
        connection.buffers[id].len() > 0 ==> connection.read(id).buffers[id].len()
            == connection.buffers[id].len() - 1,
        connection.cleared().buffers[id].len() == 0,
{
    let max = connection.recv_channels_cfg.max_buffered_payloads_count_per_channel as nat;
    law_dispatch_keeps_order(connection.buffers, max, payloads.messages, id);
}

/// The task that starts channels starts none once it has stopped listening, and
/// it does not listen again; it closes the connection once.
pub proof fn law_no_channel_after_close(
    state: SpawnerState,
    event: SpawnerEvent,
    action: SpawnerAction,
)
    requires
        state != SpawnerState::Listening,
        state.acts(event, action),
    ensures
        state.after(event) != SpawnerState::Listening,
        action is CloseConnection || action is Nothing,
        action is CloseConnection ==> state == SpawnerState::Draining && state.after(event)
            == SpawnerState::Ended,
{
}

} // verus!
