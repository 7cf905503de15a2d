//! What each call on a queue, a channel, a pool of ids or a connection comes to, in
//! terms of what goes into it and what comes out.

#[allow(unused_imports)]
use bytes::Bytes;
#[allow(unused_imports)]
use tokio::sync::{broadcast, mpsc};
use vstd::prelude::*;

#[allow(unused_imports)]
use crate::shared::channels::tasks::{
    spawner_step, SpawnerAction, SpawnerEvent, SpawnerState, CLOSE_CODE, CLOSE_REASON,
};
#[allow(unused_imports)]
use crate::shared::channels::{
    Channel, ChannelAsyncMessage, ChannelConfig, ChannelId, ChannelSyncMessage, CloseReason,
    SendChannelsConfiguration,
};
#[allow(unused_imports)]
use crate::shared::error::{
    AsyncChannelError, ChannelCloseError, ChannelCreationError, ConnectionAlreadyClosed,
    ConnectionSendError, RecvChannelError,
};
#[allow(unused_imports)]
use crate::shared::laws::{
    fitting, full_count, law_dispatch_keeps_order, of_channel,
};
#[allow(unused_imports)]
use crate::shared::payload::payload_bytes;
#[allow(unused_imports)]
use crate::shared::peer_connection::{
    ChannelsIdsPool, ConnectionEnds, PeerConnection, PeerConnectionView,
    RecvChannelsConfiguration,
};
#[allow(unused_imports)]
use crate::shared::queues::{
    answered, gave, handed, listeners_told, mpsc_halves, offered, only_gave, queue_answered,
    send_result, Answer, Batch, Broadcaster, Inbox, Outbox, RecvFailure, SendFailure,
};
#[allow(unused_imports)]
use crate::shared::{
    CLIENT_ID_LEN, DEFAULT_INTERNAL_MESSAGES_CHANNEL_SIZE, DEFAULT_KILL_MESSAGE_QUEUE_SIZE,
    DEFAULT_MESSAGE_QUEUE_SIZE, DEFAULT_QCHANNEL_MESSAGES_CHANNEL_SIZE,
};

verus! {

/// A message is offered to the queue of an outbox once. The result says what tokio
/// answered, and the outbox remembers the message and that answer, behind all that
/// it remembered before.
pub proof fn law_try_send<T>(message: T, r: Result<(), AsyncChannelError>)
    ensures
        forall|outbox: &mut Outbox<T>| #[trigger]
            call_ensures(Outbox::<T>::try_send, (outbox, message), r) ==> {
                &&& final(outbox).half() == (*outbox).half()
                &&& final(outbox).offers().len() == (*outbox).offers().len() + 1
                &&& final(outbox).offers().drop_last() == (*outbox).offers()
                &&& final(outbox).offers().last() == (
                    message,
                    match r {
                        Ok(_) => Answer::Taken,
                        Err(e) => Answer::Refused(e),
                    },
                )
                &&& exists|outcome: Result<(), SendFailure<T>>|
                    {
                        &&& #[trigger] offered((*outbox).half(), message, outcome)
                        &&& r is Ok <==> outcome is Ok
                        &&& r == Err::<(), _>(AsyncChannelError::FullQueue) <==> (
                        outcome matches Err(SendFailure::Full(_)))
                        &&& r == Err::<(), _>(AsyncChannelError::InternalChannelClosed) <==> (
                        outcome matches Err(SendFailure::Closed(_)))
                    }
            },
        forall|sender: mpsc::Sender<T>| #[trigger]
            queue_answered(sender, message, r) ==> exists|outcome: Result<(), SendFailure<T>>|
                {
                    &&& #[trigger] offered(sender, message, outcome)
                    &&& r is Ok <==> outcome is Ok
                    &&& r == Err::<(), _>(AsyncChannelError::FullQueue) <==> (outcome matches Err(
                        SendFailure::Full(_),
                    ))
                    &&& r == Err::<(), _>(AsyncChannelError::InternalChannelClosed) <==> (
                    outcome matches Err(SendFailure::Closed(_)))
                },
        forall|sender: mpsc::Sender<T>, outbox: Outbox<T>| #[trigger]
            call_ensures(Outbox::<T>::new, (sender,), outbox) ==> outbox.half() == sender
                && outbox.offers().len() == 0,
        forall|outcome: Result<(), SendFailure<T>>| #[trigger]
            call_ensures(send_result::<T>, (outcome,), r) ==> {
                &&& r is Ok <==> outcome is Ok
                &&& r == Err::<(), _>(AsyncChannelError::FullQueue) <==> (outcome matches Err(
                    SendFailure::Full(_),
                ))
            },
{
    assert forall|outbox: &mut Outbox<T>| #[trigger]
        call_ensures(Outbox::<T>::try_send, (outbox, message), r) implies (*outbox).offers()
        == final(outbox).offers().drop_last() by {
        assert(final(outbox).offers().drop_last() =~= (*outbox).offers());
    }
}

/// A value is handed to the listeners of a broadcaster once. The result says whether
/// tokio found a listener, and the broadcaster remembers the value and that.
pub proof fn law_broadcast<T>(value: T, r: bool)
    ensures
        forall|broadcaster: &mut Broadcaster<T>| #[trigger]
            call_ensures(Broadcaster::<T>::send, (broadcaster, value), r) ==> {
                &&& final(broadcaster).half() == (*broadcaster).half()
                &&& final(broadcaster).calls() == (*broadcaster).calls().push((value, r))
                &&& exists|outcome: Result<usize, T>|
                    #[trigger] handed((*broadcaster).half(), value, outcome) && (r <==> outcome is Ok)
            },
        forall|sender: broadcast::Sender<T>| #[trigger]
            listeners_told(sender, value, r) ==> exists|outcome: Result<usize, T>|
                #[trigger] handed(sender, value, outcome) && (r <==> outcome is Ok),
        forall|sender: broadcast::Sender<T>, broadcaster: Broadcaster<T>| #[trigger]
            call_ensures(Broadcaster::<T>::new, (sender,), broadcaster) ==> broadcaster.half()
                == sender && broadcaster.calls().len() == 0,
{
}

/// An inbox asks its queue once for a message: it returns what tokio gave, remembers
/// it, and has the half that this call left. It asks nothing when it is made.
pub proof fn law_try_recv<T>(r: Result<T, RecvFailure>)
    ensures
        forall|inbox: &mut Inbox<T>| #[trigger]
            call_ensures(Inbox::<T>::try_recv, (inbox,), r) ==> {
                &&& answered((*inbox).current(), r, final(inbox).current())
                &&& final(inbox).answers() == (*inbox).answers().push(r)
                &&& final(inbox).half() == (*inbox).half()
            },
        forall|receiver: mpsc::Receiver<T>, inbox: Inbox<T>| #[trigger]
            call_ensures(Inbox::<T>::new, (receiver,), inbox) ==> inbox.half() == receiver
                && inbox.current() == receiver && inbox.answers().len() == 0,
{
}

/// Draining takes a gapless run of messages from a queue, and returns all of them.
/// The queue was asked once for each answer, each time through what the call before
/// had left, beginning with the half that the inbox had and ending with the one that
/// it has then. Each message that came is returned, in order, and so nothing was taken
/// that is not returned. The queue was asked until it gave none, unless `limit`
/// messages had come.
pub proof fn law_drain<T>(limit: usize, r: Vec<T>)
    ensures
        forall|inbox: &mut Inbox<T>| #[trigger]
            call_ensures(Inbox::<T>::drain, (inbox, limit), r) ==> exists|
                halves: Seq<mpsc::Receiver<T>>,
                answers: Seq<Result<T, RecvFailure>>,
            |
                {
                    &&& #[trigger] gave(halves, answers)
                    &&& halves.len() == answers.len() + 1
                    &&& halves[0] == (*inbox).current()
                    &&& halves[answers.len() as int] == final(inbox).current()
                    &&& forall|i: int|
                        0 <= i < answers.len() ==> answered(
                            halves[i],
                            #[trigger] answers[i],
                            halves[i + 1],
                        )
                    &&& final(inbox).answers() == (*inbox).answers() + answers
                    &&& r@.len() <= limit
                    &&& r@.len() <= answers.len() <= r@.len() + 1
                    &&& forall|i: int| 0 <= i < r@.len() ==> answers[i] == Ok::<T, RecvFailure>(
                        #[trigger] r@[i],
                    )
                    &&& answers.len() > r@.len() ==> answers.last() is Err
                    &&& answers.len() > r@.len() <==> r@.len() < limit
                    &&& final(inbox).half() == (*inbox).half()
                },
{
    assert forall|inbox: &mut Inbox<T>| #[trigger]
        call_ensures(Inbox::<T>::drain, (inbox, limit), r) implies exists|
        halves: Seq<mpsc::Receiver<T>>,
        answers: Seq<Result<T, RecvFailure>>,
    |
        {
            &&& #[trigger] gave(halves, answers)
            &&& halves.len() == answers.len() + 1
            &&& halves[0] == (*inbox).current()
            &&& halves[answers.len() as int] == final(inbox).current()
            &&& forall|i: int|
                0 <= i < answers.len() ==> answered(halves[i], #[trigger] answers[i], halves[i + 1])
            &&& final(inbox).answers() == (*inbox).answers() + answers
            &&& r@.len() <= limit
            &&& r@.len() <= answers.len() <= r@.len() + 1
            &&& forall|i: int| 0 <= i < r@.len() ==> answers[i] == Ok::<T, RecvFailure>(
                #[trigger] r@[i],
            )
            &&& answers.len() > r@.len() ==> answers.last() is Err
            &&& answers.len() > r@.len() <==> r@.len() < limit
            &&& final(inbox).half() == (*inbox).half()
        } by {
        let batch = choose|batch: Batch<T>| #[trigger]
            batch.complete(limit) && batch.messages == r@ && final(inbox).asked(
                *inbox,
                batch.answers(),
            ) && final(inbox).answers() == (*inbox).answers() + batch.answers();
        let answers = batch.answers();
        let halves = choose|halves: Seq<mpsc::Receiver<T>>| #[trigger]
            gave(halves, answers) && halves.first() == (*inbox).current() && halves.last()
                == final(inbox).current();
        assert(gave(halves, answers));
    }
}

/// What a channel amounts to is what its two queues were offered.
pub proof fn law_channel_shows_its_queues(channel: Channel)
    ensures
        channel@.id == channel.id,
        channel@.payload_half == channel.sender.half(),
        channel@.stop_half == channel.close_sender.half(),
        channel@.sends.len() == channel.sender.offers().len(),
        forall|i: int|
            0 <= i < channel@.sends.len() ==> #[trigger] channel@.sends[i] == (
                payload_bytes(channel.sender.offers()[i].0),
                channel.sender.offers()[i].1,
            ),
        channel@.stops.len() == channel.close_sender.offers().len(),
        forall|i: int|
            0 <= i < channel@.stops.len() ==> #[trigger] channel@.stops[i]
                == channel.close_sender.offers()[i].1,
        channel@.sent().len() <= channel@.sends.len(),
        channel@.sends.len() == 0 ==> channel@.sent().len() == 0,
        channel@.sends.len() > 0 ==> ({
            let before = crate::shared::channels::taken_payloads(channel@.sends.drop_last());
            channel@.sent() == if channel@.sends.last().1 == Answer::Taken {
                before.push(channel@.sends.last().0)
            } else {
                before
            }
        }),
{
    lemma_taken_is_shorter(channel@.sends);
}

/// No more payloads are taken than are offered.
proof fn lemma_taken_is_shorter(offers: Seq<(Seq<u8>, Answer)>)
    ensures
        crate::shared::channels::taken_payloads(offers).len() <= offers.len(),
    decreases offers.len(),
{
    if offers.len() > 0 {
        lemma_taken_is_shorter(offers.drop_last());
    }
}

/// A channel hands each payload to its queue of payloads, and each order to stop to
/// its queue for that, once, and returns what the queue answered.
pub proof fn law_channel_calls(payload: Bytes, r: Result<(), AsyncChannelError>)
    ensures
        forall|channel: &mut Channel| #[trigger]
            call_ensures(Channel::send_payload, (channel, payload), r) ==> {
                &&& queue_answered((*channel)@.payload_half, payload, r)
                &&& final(channel)@.sends == (*channel)@.sends.push(
                    (
                        payload_bytes(payload),
                        match r {
                            Ok(_) => Answer::Taken,
                            Err(e) => Answer::Refused(e),
                        },
                    ),
                )
                &&& final(channel)@.stops == (*channel)@.stops
                &&& final(channel)@.id == (*channel)@.id
                &&& final(channel)@.payload_half == (*channel)@.payload_half
                &&& final(channel)@.stop_half == (*channel)@.stop_half
                &&& r is Ok ==> final(channel)@.sent() == (*channel)@.sent().push(
                    payload_bytes(payload),
                )
                &&& r is Err ==> final(channel)@.sent() == (*channel)@.sent()
            },
        forall|channel: &mut Channel| #[trigger]
            call_ensures(Channel::close, (channel,), r) ==> {
                &&& queue_answered((*channel)@.stop_half, (), r)
                &&& final(channel)@.stops == (*channel)@.stops.push(
                    match r {
                        Ok(_) => Answer::Taken,
                        Err(e) => Answer::Refused(e),
                    },
                )
                &&& final(channel)@.sends == (*channel)@.sends
                &&& final(channel)@.id == (*channel)@.id
            },
{
    assert forall|channel: &mut Channel| #[trigger]
        call_ensures(Channel::send_payload, (channel, payload), r) implies (*channel)@.sends
        == final(channel)@.sends.drop_last() by {
        assert(final(channel)@.sends.drop_last() =~= (*channel)@.sends);
    }
}

/// Channel ids are given in order, the smallest that is free first, until none is
/// free. An id that was given is not free, and one that was released is. The first id
/// given while there is no default channel becomes the default channel, and a channel
/// that was released is not the default channel. No other id is touched.
pub proof fn law_pool_calls(id: ChannelId, r: Result<ChannelId, ChannelCreationError>)
    ensures
        forall|pool: ChannelsIdsPool| #[trigger]
            call_ensures(ChannelsIdsPool::new, (), pool) ==> pool@.default_channel is None && (
            forall|k: ChannelId| #[trigger] pool@.available.contains(k)),
        forall|pool: &mut ChannelsIdsPool| #[trigger]
            call_ensures(ChannelsIdsPool::take_id, (pool,), r) ==> match r {
                Ok(taken) => {
                    &&& (*pool)@.available.contains(taken)
                    &&& forall|k: ChannelId|
                        k < taken ==> !(#[trigger] (*pool)@.available.contains(k))
                    &&& forall|k: ChannelId| #[trigger]
                        final(pool)@.available.contains(k) <==> (*pool)@.available.contains(k) && k
                            != taken
                    &&& final(pool)@.default_channel == match (*pool)@.default_channel {
                        None => Some(taken),
                        Some(default) => Some(default),
                    }
                },
                Err(e) => {
                    &&& e is MaxChannelsCountReached
                    &&& forall|k: ChannelId| !(#[trigger] (*pool)@.available.contains(k))
                    &&& final(pool)@ == (*pool)@
                },
            },
        forall|pool: &mut ChannelsIdsPool, done: ()| #[trigger]
            call_ensures(ChannelsIdsPool::release_id, (pool, id), done) ==> {
                &&& forall|k: ChannelId| #[trigger]
                    final(pool)@.available.contains(k) <==> (*pool)@.available.contains(k) || k == id
                &&& final(pool)@.default_channel != Some(id)
                &&& (*pool)@.default_channel != Some(id) ==> final(pool)@.default_channel
                    == (*pool)@.default_channel
            },
        forall|pool: &mut ChannelsIdsPool, done: ()| #[trigger]
            call_ensures(ChannelsIdsPool::set_default_channel, (pool, id), done) ==> final(
                pool
            )@.default_channel == Some(id) && final(pool)@.available == (*pool)@.available,
        forall|pool: ChannelsIdsPool, default: Option<ChannelId>| #[trigger]
            call_ensures(ChannelsIdsPool::default_channel, (&pool,), default) ==> default
                == pool@.default_channel && default == pool.default_channel,
        forall|pool: ChannelsIdsPool, k: ChannelId| #[trigger]
            pool@.available.contains(k) <==> pool.free@[k as int],
        forall|pool: ChannelsIdsPool| (#[trigger] pool@).default_channel == pool.default_channel,
{
}

/// A configuration gives back the channels that it was made of, each as it is and in
/// order, as long as there are ids for them; and so does a copy of it.
pub proof fn law_configuration_keeps_its_channels(
    configs: Vec<ChannelConfig>,
    made: Option<SendChannelsConfiguration>,
    copy: SendChannelsConfiguration,
    kept: &Vec<ChannelConfig>,
    copied: &Vec<ChannelConfig>,
)
    requires
        call_ensures(SendChannelsConfiguration::from_configs, (configs,), made),
    ensures
        made is Some <==> configs@.len() <= 256,
        made matches Some(configuration) && call_ensures(
            SendChannelsConfiguration::configs,
            (&configuration,),
            kept,
        ) ==> kept@ == configs@,
        made matches Some(configuration) ==> configuration@ == configs@,
        made matches Some(configuration) && call_ensures(
            SendChannelsConfiguration::clone,
            (&configuration,),
            copy,
        ) && call_ensures(SendChannelsConfiguration::configs, (&copy,), copied) ==> copied@
            == configs@,
        forall|none: SendChannelsConfiguration, listed: &Vec<ChannelConfig>|
            call_ensures(SendChannelsConfiguration::new, (), none) && #[trigger] call_ensures(
                SendChannelsConfiguration::configs,
                (&none,),
                listed,
            ) ==> listed@.len() == 0,
{
}

/// What the queues have room for: 150 payloads on their way from or to a peer, 100
/// messages between the tasks and a connection, and 10 orders to close. A client id takes
/// eight bytes, and there are as many channels as there are ids for them.
pub proof fn law_sizes()
    ensures
        DEFAULT_MESSAGE_QUEUE_SIZE == 150,
        DEFAULT_INTERNAL_MESSAGES_CHANNEL_SIZE == 100,
        DEFAULT_QCHANNEL_MESSAGES_CHANNEL_SIZE == 100,
        DEFAULT_KILL_MESSAGE_QUEUE_SIZE == 10,
        CLIENT_ID_LEN == 8,
        crate::shared::channels::MAX_CHANNEL_COUNT == ChannelId::MAX + 1,
{
}

/// The task that starts channels starts the task of each channel that is asked for
/// while it listens: of the kind and with the frame size that are asked for, with the
/// id and the queues of the request. It stops listening when the connection is ordered
/// to close or nothing more can be asked for, closes the connection once all channels
/// have ended, and does nothing else.
pub proof fn law_spawner(event: SpawnerEvent, r: SpawnerAction)
    ensures
        forall|state: &mut SpawnerState| #[trigger]
            call_ensures(spawner_step, (state, event), r) ==> match event {
                SpawnerEvent::Request(
                    ChannelSyncMessage::CreateChannel {
                        id,
                        config,
                        bytes_to_channel_recv,
                        channel_close_recv,
                    },
                ) => {
                    &&& *final(state) == *state
                    &&& !(*state is Listening) ==> r is Nothing
                    &&& *state is Listening ==> match config {
                        ChannelConfig::OrderedReliable { max_frame_size } => {
                            &&& r matches SpawnerAction::StartOrderedReliable(data, size)
                            &&& size == max_frame_size
                            &&& data.id == id
                            &&& data.bytes_recv == bytes_to_channel_recv
                            &&& data.channel_close_recv == channel_close_recv
                        },
                        ChannelConfig::UnorderedReliable { max_frame_size } => {
                            &&& r matches SpawnerAction::StartUnorderedReliable(data, size)
                            &&& size == max_frame_size
                            &&& data.id == id
                            &&& data.bytes_recv == bytes_to_channel_recv
                            &&& data.channel_close_recv == channel_close_recv
                        },
                        ChannelConfig::Unreliable => {
                            &&& r matches SpawnerAction::StartUnreliable(data)
                            &&& data.id == id
                            &&& data.bytes_recv == bytes_to_channel_recv
                            &&& data.channel_close_recv == channel_close_recv
                        },
                    }
                },
                SpawnerEvent::CloseSignal | SpawnerEvent::RequestsEnded => if *state is Listening {
                    *final(state) is Draining && r is AwaitChannels
                } else {
                    *final(state) == *state && r is Nothing
                },
                SpawnerEvent::ChannelsEnded => if *state is Draining {
                    *final(state) is Ended && r == SpawnerAction::CloseConnection(
                        0,
                        CLOSE_REASON,
                    )
                } else {
                    *final(state) == *state && r is Nothing
                },
            },
{
}

/// What a connection amounts to is what its queues did, and what its tables hold: a
/// channel stands at the index of its id, and so does what waits on a channel.
pub proof fn law_connection_shows_its_queues<S: View>(connection: PeerConnection<S>, id: ChannelId)
    ensures
        connection@.specific == connection.specific@,
        connection@.ends.bytes_from_peer_recv == connection.bytes_from_peer_recv.half(),
        connection@.ends.close_send == connection.close_send.half(),
        connection@.ends.from_channels_recv == connection.from_channels_recv.half(),
        connection@.ends.to_channels_send == connection.to_channels_send.half(),
        connection@.channels.contains_key(id) <==> id < connection.send_channels@.len()
            && connection.send_channels@[id as int] is Some,
        connection@.channels.contains_key(id) ==> connection@.channels[id]
            == connection.send_channels@[id as int]->0@,
        connection@.requests == connection.to_channels_send.offers(),
        connection@.close_orders == connection.close_send.calls(),
        connection@.reports == connection.from_channels_recv.answers(),
        connection@.reports_left == connection.from_channels_recv.current(),
        connection@.arrived.len() == connection.bytes_from_peer_recv.answers().len(),
        forall|i: int|
            0 <= i < connection@.arrived.len() ==> match connection.bytes_from_peer_recv.answers()[i] {
                Ok((channel, payload)) => #[trigger] connection@.arrived[i] == Ok::<
                    (ChannelId, Seq<u8>),
                    RecvFailure,
                >((channel, payload_bytes(payload))),
                Err(why) => connection@.arrived[i] == Err::<(ChannelId, Seq<u8>), _>(why),
            },
        connection@.buffers.contains_key(id),
        connection@.buffers[id].len() == if id < connection.recv_buffers@.len() {
            connection.recv_buffers@[id as int]@.len()
        } else {
            0
        },
        forall|i: int|
            0 <= i < connection@.buffers[id].len() ==> #[trigger] connection@.buffers[id][i]
                == payload_bytes(connection.recv_buffers@[id as int]@[i]),
        connection@.recv_channels_cfg == connection.recv_channels_cfg,
{
}

/// A connection starts without channels, with nothing asked, told or received, and
/// with the halves of the queues that it is given.
pub proof fn law_new_connection<S: View>(
    specific: S,
    bytes_from_peer_recv: mpsc::Receiver<(ChannelId, Bytes)>,
    close_send: broadcast::Sender<CloseReason>,
    from_channels_recv: mpsc::Receiver<ChannelAsyncMessage>,
    to_channels_send: mpsc::Sender<ChannelSyncMessage>,
    cfg: RecvChannelsConfiguration,
    r: PeerConnection<S>,
    id: ChannelId,
)
    requires
        call_ensures(
            PeerConnection::<S>::new,
            (
                specific,
                bytes_from_peer_recv,
                close_send,
                from_channels_recv,
                to_channels_send,
                cfg,
            ),
            r,
        ),
    ensures
        r@.specific == specific@,
        r@.ends.bytes_from_peer_recv == bytes_from_peer_recv,
        r@.ends.close_send == close_send,
        r@.ends.from_channels_recv == from_channels_recv,
        r@.ends.to_channels_send == to_channels_send,
        r@.recv_channels_cfg == cfg,
        !r@.channels.contains_key(id),
        r@.buffers[id].len() == 0,
        r@.requests.len() == 0,
        r@.close_orders.len() == 0,
        r@.reports.len() == 0,
        r@.reports_left == from_channels_recv,
        r@.arrived.len() == 0,
{
}

/// Starting over gives a connection other queues, and leaves no channel, no request,
/// no order and nothing received; what is specific to its side stays, and so does how
/// payloads are kept.
pub proof fn law_reset<S: View>(
    close_send: broadcast::Sender<CloseReason>,
    to_channels_send: mpsc::Sender<ChannelSyncMessage>,
    from_channels_recv: mpsc::Receiver<ChannelAsyncMessage>,
    bytes_from_peer_recv: mpsc::Receiver<(ChannelId, Bytes)>,
    count: usize,
    id: ChannelId,
)
    ensures
        forall|c: &mut PeerConnection<S>, done: ()| #[trigger]
            call_ensures(
                PeerConnection::<S>::internal_reset,
                (c, close_send, to_channels_send, from_channels_recv, bytes_from_peer_recv, count),
                done,
            ) ==> {
                let post = final(c)@;
                &&& post.specific == (*c)@.specific
                &&& post.recv_channels_cfg == (*c)@.recv_channels_cfg
                &&& post.ends.close_send == close_send
                &&& post.ends.to_channels_send == to_channels_send
                &&& post.ends.from_channels_recv == from_channels_recv
                &&& post.ends.bytes_from_peer_recv == bytes_from_peer_recv
                &&& !post.channels.contains_key(id)
                &&& post.buffers[id].len() == 0
                &&& post.requests.len() == 0
                &&& post.close_orders.len() == 0
                &&& post.reports.len() == 0
                &&& post.reports_left == from_channels_recv
                &&& post.arrived.len() == 0
            },
{
}

/// A payload that is handed to a registered channel is the last one that the queue of
/// that channel took, where the result is `Ok`; it was refused, with the error of that
/// queue, where it is not. No other channel, and nothing else, is touched. A channel
/// that is not registered takes nothing, and is named.
pub proof fn law_send<S: View>(id: ChannelId, payload: Bytes, r: Result<(), ConnectionSendError>)
    ensures
        forall|c: &mut PeerConnection<S>| #[trigger]
            call_ensures(PeerConnection::<S>::internal_send_payload, (c, id, payload), r)
                ==> {
                let pre = (*c)@;
                let post = final(c)@;
                &&& post == (PeerConnectionView { channels: post.channels, ..pre })
                &&& post.channels.dom() == pre.channels.dom()
                &&& forall|other: ChannelId|
                    other != id && pre.channels.contains_key(other) ==> #[trigger]
                    post.channels[other] == pre.channels[other]
                &&& !pre.channels.contains_key(id) <==> r == Err::<(), _>(
                    ConnectionSendError::InvalidChannelId(id),
                )
                &&& r matches Err(ConnectionSendError::InvalidChannelId(bad)) ==> bad == id
                &&& !pre.channels.contains_key(id) ==> post == pre
                &&& pre.channels.contains_key(id) ==> post.channels[id].sends
                    == pre.channels[id].sends.push(
                    (
                        payload_bytes(payload),
                        match r {
                            Err(ConnectionSendError::AsyncChannelError(e)) => Answer::Refused(e),
                            _ => Answer::Taken,
                        },
                    ),
                ) && post.channels[id].stops == pre.channels[id].stops && post.channels[id].id
                    == pre.channels[id].id && post.channels[id].payload_half
                    == pre.channels[id].payload_half && post.channels[id].stop_half
                    == pre.channels[id].stop_half
                &&& r is Ok ==> post.channels[id].sent() == pre.channels[id].sent().push(
                    payload_bytes(payload),
                )
            },
{
    assert forall|c: &mut PeerConnection<S>| #[trigger]
        call_ensures(
            PeerConnection::<S>::internal_send_payload,
            (c, id, payload),
            r,
        ) implies final(c)@.channels.dom() == (*c)@.channels.dom() && (r is Ok ==> final(
        c
    )@.channels[id].sends.drop_last() == (*c)@.channels[id].sends) by {
        assert(final(c)@.channels.dom() =~= (*c)@.channels.dom());
        if r is Ok {
            assert(final(c)@.channels[id].sends.drop_last() =~= (*c)@.channels[id].sends);
        }
    }
}

/// The tasks of a connection are asked once for a channel: with the id and the config
/// that are wanted, and with the other halves of the queues of the channel. Where they
/// take the request, the channel is registered under its id, and has not been used;
/// where they refuse it, that is the error. Nothing else is touched.
pub proof fn law_create_channel<S: View>(
    id: ChannelId,
    config: ChannelConfig,
    r: Result<(), AsyncChannelError>,
)
    ensures
        forall|c: &mut PeerConnection<S>| #[trigger]
            call_ensures(PeerConnection::<S>::create_connection_channel, (c, id, config), r)
                ==> {
                let pre = (*c)@;
                let post = final(c)@;
                &&& post.requests.len() == pre.requests.len() + 1
                &&& post.requests.drop_last() == pre.requests
                &&& post.requests.last().0->id == id
                &&& post.requests.last().0->config == config
                &&& queue_answered(pre.ends.to_channels_send, post.requests.last().0, r)
                &&& post.requests.last().1 == match r {
                    Ok(_) => Answer::Taken,
                    Err(e) => Answer::Refused(e),
                }
                &&& post == (PeerConnectionView {
                    channels: post.channels,
                    requests: post.requests,
                    ..pre
                })
                &&& r is Err ==> post.channels == pre.channels
                &&& r is Ok ==> {
                    &&& post.channels.dom() == pre.channels.dom().insert(id)
                    &&& post.channels[id].id == id
                    &&& post.channels[id].sends.len() == 0
                    &&& post.channels[id].stops.len() == 0
                    &&& mpsc_halves(
                        DEFAULT_MESSAGE_QUEUE_SIZE,
                        post.channels[id].payload_half,
                        post.requests.last().0->bytes_to_channel_recv,
                    )
                    &&& mpsc_halves(
                        1,
                        post.channels[id].stop_half,
                        post.requests.last().0->channel_close_recv,
                    )
                    &&& forall|other: ChannelId|
                        other != id && pre.channels.contains_key(other) ==> #[trigger]
                        post.channels[other] == pre.channels[other]
                }
            },
{
    assert forall|c: &mut PeerConnection<S>| #[trigger]
        call_ensures(
            PeerConnection::<S>::create_connection_channel,
            (c, id, config),
            r,
        ) implies final(c)@.requests.drop_last() == (*c)@.requests && (r is Ok ==> final(
        c
    )@.channels.dom() == (*c)@.channels.dom().insert(id)) by {
        assert(final(c)@.requests.drop_last() =~= (*c)@.requests);
        if r is Ok {
            assert(r->Ok_0 == ());
            assert(r == Ok::<(), AsyncChannelError>(()));
            assert(final(c)@.channels.dom() =~= (*c)@.channels.dom().insert(id));
        }
    }
}

/// The same of a channel that is asked for and not registered; one that is registered
/// then stands under its own id, and leaves the others alone.
pub proof fn law_create_and_register<S: View>(
    id: ChannelId,
    config: ChannelConfig,
    r: Result<Channel, AsyncChannelError>,
    channel: Channel,
)
    ensures
        forall|c: &mut PeerConnection<S>| #[trigger]
            call_ensures(
                PeerConnection::<S>::create_unregistered_connection_channel,
                (c, id, config),
                r,
            ) ==> {
                let pre = (*c)@;
                let post = final(c)@;
                &&& post.requests.drop_last() == pre.requests
                &&& post.requests.len() == pre.requests.len() + 1
                &&& post.requests.last().0->id == id
                &&& post.requests.last().0->config == config
                &&& post == (PeerConnectionView { requests: post.requests, ..pre })
                &&& match r {
                    Ok(made) => {
                        &&& post.requests.last().1 == Answer::Taken
                        &&& queue_answered(
                            pre.ends.to_channels_send,
                            post.requests.last().0,
                            Ok(()),
                        )
                        &&& made@.id == id
                        &&& made@.sends.len() == 0
                        &&& made@.stops.len() == 0
                        &&& mpsc_halves(
                            DEFAULT_MESSAGE_QUEUE_SIZE,
                            made@.payload_half,
                            post.requests.last().0->bytes_to_channel_recv,
                        )
                        &&& mpsc_halves(
                            1,
                            made@.stop_half,
                            post.requests.last().0->channel_close_recv,
                        )
                    },
                    Err(e) => {
                        &&& post.requests.last().1 == Answer::Refused(e)
                        &&& queue_answered(
                            pre.ends.to_channels_send,
                            post.requests.last().0,
                            Err(e),
                        )
                    },
                }
            },
        forall|c: &mut PeerConnection<S>, done: ()| #[trigger]
            call_ensures(PeerConnection::<S>::register_connection_channel, (c, channel), done)
                ==> {
                let pre = (*c)@;
                let post = final(c)@;
                &&& post == (PeerConnectionView { channels: post.channels, ..pre })
                &&& post.channels.contains_key(channel@.id)
                &&& post.channels[channel@.id] == channel@
                &&& forall|other: ChannelId|
                    other != channel@.id ==> (#[trigger] post.channels.contains_key(other)
                        <==> pre.channels.contains_key(other))
                &&& forall|other: ChannelId|
                    other != channel@.id && pre.channels.contains_key(other) ==> #[trigger]
                    post.channels[other] == pre.channels[other]
            },
{
    assert forall|c: &mut PeerConnection<S>| #[trigger]
        call_ensures(
            PeerConnection::<S>::create_unregistered_connection_channel,
            (c, id, config),
            r,
        ) implies (*c)@.requests == final(c)@.requests.drop_last() by {
        assert(final(c)@.requests.drop_last() =~= (*c)@.requests);
    }
}

/// A channel that is closed is gone, whether or not its task could be told: the task
/// was ordered to stop through the queue of that channel, and the result says what that
/// queue answered. The other channels, and all else, stay. Only a registered channel
/// can be closed.
pub proof fn law_close_channel<S: View>(id: ChannelId, r: Result<(), ChannelCloseError>)
    ensures
        forall|c: &mut PeerConnection<S>| #[trigger]
            call_ensures(PeerConnection::<S>::internal_close_channel, (c, id), r) ==> {
                let pre = (*c)@;
                let post = final(c)@;
                &&& !post.channels.contains_key(id)
                &&& forall|other: ChannelId|
                    other != id ==> (#[trigger] post.channels.contains_key(other)
                        <==> pre.channels.contains_key(other))
                &&& forall|other: ChannelId|
                    other != id && pre.channels.contains_key(other) ==> #[trigger]
                    post.channels[other] == pre.channels[other]
                &&& post == (PeerConnectionView { channels: post.channels, ..pre })
                &&& match r {
                    Ok(_) => pre.channels.contains_key(id) && queue_answered(
                        pre.channels[id].stop_half,
                        (),
                        Ok(()),
                    ),
                    Err(ChannelCloseError::AsyncChannelError(e)) => pre.channels.contains_key(id)
                        && queue_answered(pre.channels[id].stop_half, (), Err(e)),
                    Err(ChannelCloseError::InvalidChannelId(bad)) => bad == id
                        && !pre.channels.contains_key(id),
                }
            },
{
}

/// The tasks of a connection are ordered to close it, for the reason that is given, and
/// the result says whether one of them heard it. Nothing else is touched.
pub proof fn law_close<S: View>(reason: CloseReason, r: Result<(), ConnectionAlreadyClosed>)
    ensures
        forall|c: &mut PeerConnection<S>| #[trigger]
            call_ensures(PeerConnection::<S>::close, (c, reason), r) ==> {
                let pre = (*c)@;
                let post = final(c)@;
                &&& listeners_told(pre.ends.close_send, reason, r is Ok)
                &&& post == (PeerConnectionView {
                    close_orders: pre.close_orders.push((reason, r is Ok)),
                    ..pre
                })
            },
        forall|c: &mut PeerConnection<S>, done: ()| #[trigger]
            call_ensures(PeerConnection::<S>::try_close, (c, reason), done) ==> {
                let pre = (*c)@;
                let post = final(c)@;
                &&& post.close_orders.len() == pre.close_orders.len() + 1
                &&& post.close_orders.drop_last() == pre.close_orders
                &&& post.close_orders.last().0 == reason
                &&& listeners_told(pre.ends.close_send, reason, post.close_orders.last().1)
                &&& post == (PeerConnectionView { close_orders: post.close_orders, ..pre })
            },
{
    assert forall|c: &mut PeerConnection<S>, done: ()| #[trigger]
        call_ensures(PeerConnection::<S>::try_close, (c, reason), done) implies (*c)@.close_orders
        == final(c)@.close_orders.drop_last() by {
        assert(final(c)@.close_orders.drop_last() =~= (*c)@.close_orders);
    }
}

/// The payloads of one channel are those that come with its id, and none is left out;
/// the errors of one channel are those that name it.
pub proof fn law_of_one_channel(
    payloads: Seq<(ChannelId, Seq<u8>)>,
    errors: Seq<RecvChannelError>,
    id: ChannelId,
)
    ensures
        of_channel(payloads, id) == payloads.filter(|p: (ChannelId, Seq<u8>)| p.0 == id).map_values(
            |p: (ChannelId, Seq<u8>)| p.1,
        ),
        full_count(errors, id) == errors.filter(
            |e: RecvChannelError| e == RecvChannelError::RecvChannelFull(id),
        ).len(),
    decreases payloads.len() + errors.len(),
{
    reveal(Seq::filter);
    if payloads.len() > 0 {
        law_of_one_channel(payloads.drop_last(), errors, id);
    } else if errors.len() > 0 {
        law_of_one_channel(payloads, errors.drop_last(), id);
    }
    assert(of_channel(payloads, id) =~= payloads.filter(
        |p: (ChannelId, Seq<u8>)| p.0 == id,
    ).map_values(|p: (ChannelId, Seq<u8>)| p.1));
}

/// What came in, in terms of the answers of a queue: those of `pre`, then each of
/// `messages` in order, and then that there are no more, unless `limit` came.
pub open spec fn came<T>(
    pre: Seq<Result<T, RecvFailure>>,
    post: Seq<Result<T, RecvFailure>>,
    messages: Seq<T>,
    limit: int,
) -> bool {
    &&& messages.len() <= limit
    &&& post.len() == pre.len() + messages.len() + if messages.len() < limit {
        1int
    } else {
        0
    }
    &&& forall|i: int| 0 <= i < pre.len() ==> post[i] == #[trigger] pre[i]
    &&& forall|i: int|
        0 <= i < messages.len() ==> post[pre.len() + i] == Ok::<T, RecvFailure>(
            #[trigger] messages[i],
        )
    &&& messages.len() < limit ==> post.last() is Err
}

/// What a complete batch has added to the answers of a queue.
pub(crate) proof fn lemma_batch_came<T>(
    pre: Seq<Result<T, RecvFailure>>,
    batch: Batch<T>,
    limit: usize,
)
    requires
        batch.complete(limit),
    ensures
        came(pre, pre + batch.answers(), batch.messages, limit as int),
{
}

/// A dispatch takes all that came from the peer and sorts it: on each channel, those
/// of its payloads that came are put behind those that wait, in order, as long as fewer
/// wait than the limit; each one that is left out is reported with one error that
/// names the channel, and nothing else is reported. Nothing but the buffers changes.
pub proof fn law_dispatch<S: View>(id: ChannelId, r: Result<(), Vec<RecvChannelError>>)
    ensures
        forall|c: &mut PeerConnection<S>| #[trigger]
            call_ensures(
                PeerConnection::<S>::dispatch_received_payloads_to_channel_buffers,
                (c,),
                r,
            ) ==> exists|payloads: Seq<(ChannelId, Seq<u8>)>|
                {
                    let pre = (*c)@;
                    let post = final(c)@;
                    let mine = #[trigger] of_channel(payloads, id);
                    let kept = post.buffers[id].len() - pre.buffers[id].len();
                    let max = pre.recv_channels_cfg.max_buffered_payloads_count_per_channel;
                    let errors = match r {
                        Ok(_) => Seq::empty(),
                        Err(reported) => reported@,
                    };
                    &&& came(pre.arrived, post.arrived, payloads, usize::MAX as int)
                    &&& 0 <= kept <= mine.len()
                    &&& post.buffers[id] == pre.buffers[id] + mine.take(kept)
                    &&& kept < mine.len() ==> post.buffers[id].len() >= max
                    &&& kept > 0 ==> post.buffers[id].len() <= max
                    &&& full_count(errors, id) == mine.len() - kept
                    &&& r is Err ==> errors.len() > 0
                    &&& post == (PeerConnectionView {
                        arrived: post.arrived,
                        buffers: post.buffers,
                        ..pre
                    })
                },
{
    assert forall|c: &mut PeerConnection<S>| #[trigger]
        call_ensures(
            PeerConnection::<S>::dispatch_received_payloads_to_channel_buffers,
            (c,),
            r,
        ) implies exists|payloads: Seq<(ChannelId, Seq<u8>)>|
        {
            let pre = (*c)@;
            let post = final(c)@;
            let mine = #[trigger] of_channel(payloads, id);
            let kept = post.buffers[id].len() - pre.buffers[id].len();
            let max = pre.recv_channels_cfg.max_buffered_payloads_count_per_channel;
            let errors = match r {
                Ok(_) => Seq::empty(),
                Err(reported) => reported@,
            };
            &&& came(pre.arrived, post.arrived, payloads, usize::MAX as int)
            &&& 0 <= kept <= mine.len()
            &&& post.buffers[id] == pre.buffers[id] + mine.take(kept)
            &&& kept < mine.len() ==> post.buffers[id].len() >= max
            &&& kept > 0 ==> post.buffers[id].len() <= max
            &&& full_count(errors, id) == mine.len() - kept
            &&& r is Err ==> errors.len() > 0
            &&& post == (PeerConnectionView { arrived: post.arrived, buffers: post.buffers, ..pre })
        } by {
        let batch = choose|payloads: Batch<(ChannelId, Seq<u8>)>| #[trigger]
            payloads.complete(usize::MAX) && final(c)@ == (*c)@.dispatch(payloads)
                && (*c)@.dispatch_result(payloads.messages, r);
        let max = (*c)@.recv_channels_cfg.max_buffered_payloads_count_per_channel as nat;
        lemma_batch_came((*c)@.arrived, batch, usize::MAX);
        law_dispatch_keeps_order((*c)@.buffers, max, batch.messages, id);
        let mine = of_channel(batch.messages, id);
        assert((*c)@.buffers.contains_key(id));
    }
}

/// A sorted payload stands where it belongs, as after a dispatch of the same payloads.
pub proof fn law_sort<S: View>(
    payloads: Vec<(ChannelId, Bytes)>,
    id: ChannelId,
    r: Vec<RecvChannelError>,
)
    ensures
        forall|c: &mut PeerConnection<S>| #[trigger]
            call_ensures(PeerConnection::<S>::sort_payloads, (c, payloads), r) ==> {
                let pre = (*c)@;
                let post = final(c)@;
                let bytes = payloads@.map_values(
                    |p: (ChannelId, Bytes)| (p.0, payload_bytes(p.1)),
                );
                let mine = of_channel(bytes, id);
                let kept = post.buffers[id].len() - pre.buffers[id].len();
                let max = pre.recv_channels_cfg.max_buffered_payloads_count_per_channel;
                &&& 0 <= kept <= mine.len()
                &&& post.buffers[id] == pre.buffers[id] + mine.take(kept)
                &&& kept < mine.len() ==> post.buffers[id].len() >= max
                &&& kept > 0 ==> post.buffers[id].len() <= max
                &&& full_count(r@, id) == mine.len() - kept
                &&& post == (PeerConnectionView { buffers: post.buffers, ..pre })
            },
{
    assert forall|c: &mut PeerConnection<S>| #[trigger]
        call_ensures(PeerConnection::<S>::sort_payloads, (c, payloads), r) implies {
        let pre = (*c)@;
        let post = final(c)@;
        let bytes = payloads@.map_values(|p: (ChannelId, Bytes)| (p.0, payload_bytes(p.1)));
        let mine = of_channel(bytes, id);
        let kept = post.buffers[id].len() - pre.buffers[id].len();
        let max = pre.recv_channels_cfg.max_buffered_payloads_count_per_channel;
        &&& 0 <= kept <= mine.len()
        &&& post.buffers[id] == pre.buffers[id] + mine.take(kept)
        &&& kept < mine.len() ==> post.buffers[id].len() >= max
        &&& kept > 0 ==> post.buffers[id].len() <= max
        &&& full_count(r@, id) == mine.len() - kept
        &&& post == (PeerConnectionView { buffers: post.buffers, ..pre })
    } by {
        let bytes = payloads@.map_values(|p: (ChannelId, Bytes)| (p.0, payload_bytes(p.1)));
        assert(bytes =~= crate::shared::peer_connection::addressed_bytes(payloads@));
        let max = (*c)@.recv_channels_cfg.max_buffered_payloads_count_per_channel as nat;
        assert((*c)@.buffers.contains_key(id));
        law_dispatch_keeps_order((*c)@.buffers, max, bytes, id);
    }
}

/// A payload is read where one waits on the channel: the one that has waited longest,
/// which is then gone from it. Clearing leaves nothing to read, and clearing what is
/// stale does so only where the connection is configured for it. Nothing else changes.
pub proof fn law_read_and_clear<S: View>(id: ChannelId, r: Option<Bytes>)
    ensures
        forall|c: &mut PeerConnection<S>| #[trigger]
            call_ensures(PeerConnection::<S>::internal_receive_payload, (c, id), r) ==> {
                let pre = (*c)@;
                let post = final(c)@;
                &&& r is Some <==> pre.buffers[id].len() > 0
                &&& r matches Some(payload) ==> pre.buffers[id] == seq![payload_bytes(payload)]
                    + post.buffers[id]
                &&& r is None ==> post == pre
                &&& forall|other: ChannelId|
                    other != id ==> #[trigger] post.buffers[other] == pre.buffers[other]
                &&& post == (PeerConnectionView { buffers: post.buffers, ..pre })
            },
        forall|c: &mut PeerConnection<S>, done: ()| #[trigger]
            call_ensures(PeerConnection::<S>::clear_received_payloads, (c,), done) ==> {
                &&& final(c)@.buffers[id].len() == 0
                &&& final(c)@ == (PeerConnectionView { buffers: final(c)@.buffers, ..(*c)@ })
            },
        forall|c: &mut PeerConnection<S>, done: ()| #[trigger]
            call_ensures(PeerConnection::<S>::clear_stale_received_payloads, (c,), done) ==> {
                &&& if (*c)@.recv_channels_cfg.clear_stale_received_payloads {
                    final(c)@.buffers[id].len() == 0
                } else {
                    final(c)@.buffers[id] == (*c)@.buffers[id]
                }
                &&& final(c)@ == (PeerConnectionView { buffers: final(c)@.buffers, ..(*c)@ })
            },
{
    assert forall|c: &mut PeerConnection<S>| #[trigger]
        call_ensures(PeerConnection::<S>::internal_receive_payload, (c, id), r) implies (
    r matches Some(payload) ==> (*c)@.buffers[id] == seq![payload_bytes(payload)] + final(
        c
    )@.buffers[id]) by {
        if r is Some {
            assert((*c)@.buffers.contains_key(id));
            assert((*c)@.buffers[id] =~= seq![payload_bytes(r->0)] + final(c)@.buffers[id]);
        }
    }
}

/// Reports of the channel tasks are taken as they come: one, or all that there are.
pub proof fn law_reports<S: View>(
    r: Result<ChannelAsyncMessage, RecvFailure>,
    all: Vec<ChannelAsyncMessage>,
)
    ensures
        forall|c: &mut PeerConnection<S>| #[trigger]
            call_ensures(PeerConnection::<S>::try_recv_from_channels, (c,), r) ==> {
                &&& answered((*c)@.reports_left, r, final(c)@.reports_left)
                &&& final(c)@ == (PeerConnectionView {
                    reports: (*c)@.reports.push(r),
                    reports_left: final(c)@.reports_left,
                    ..(*c)@
                })
            },
        forall|c: &mut PeerConnection<S>| #[trigger]
            call_ensures(PeerConnection::<S>::drain_channel_reports, (c,), all) ==> {
                &&& came((*c)@.reports, final(c)@.reports, all@, usize::MAX as int)
                &&& only_gave(
                    (*c)@.reports_left,
                    final(c)@.reports.skip((*c)@.reports.len() as int),
                    final(c)@.reports_left,
                )
                &&& final(c)@ == (PeerConnectionView {
                    reports: final(c)@.reports,
                    reports_left: final(c)@.reports_left,
                    ..(*c)@
                })
            },
{
    assert forall|c: &mut PeerConnection<S>| #[trigger]
        call_ensures(PeerConnection::<S>::drain_channel_reports, (c,), all) implies came(
        (*c)@.reports,
        final(c)@.reports,
        all@,
        usize::MAX as int,
    ) && only_gave(
        (*c)@.reports_left,
        final(c)@.reports.skip((*c)@.reports.len() as int),
        final(c)@.reports_left,
    ) by {
        let batch = choose|reports: Batch<ChannelAsyncMessage>| #[trigger]
            (*c)@.gave_reports(reports, final(c)@.reports_left) && reports.messages == all@
                && final(c)@ == (*c)@.with_reports(reports, final(c)@.reports_left);
        lemma_batch_came((*c)@.reports, batch, usize::MAX);
        assert(final(c)@.reports.skip((*c)@.reports.len() as int) =~= batch.answers());
    }
}

/// A run of answers is one call of tokio for each: through the half that is first, and
/// then each time through what the call before has left, up to the half that is last.
pub proof fn law_run_of_answers<T>(
    first: mpsc::Receiver<T>,
    answers: Seq<Result<T, RecvFailure>>,
    last: mpsc::Receiver<T>,
)
    requires
        only_gave(first, answers, last),
    ensures
        exists|halves: Seq<mpsc::Receiver<T>>|
            {
                &&& #[trigger] gave(halves, answers)
                &&& halves.len() == answers.len() + 1
                &&& halves[0] == first
                &&& halves[answers.len() as int] == last
                &&& forall|i: int|
                    0 <= i < answers.len() ==> answered(
                        halves[i],
                        #[trigger] answers[i],
                        halves[i + 1],
                    )
            },
{
    let halves = choose|halves: Seq<mpsc::Receiver<T>>| #[trigger]
        gave(halves, answers) && halves.first() == first && halves.last() == last;
    assert(gave(halves, answers));
}

/// An error of a queue becomes the error of what was tried with it, and stays what it is.
pub proof fn law_errors_convert(
    e: AsyncChannelError,
    send: ConnectionSendError,
    creation: ChannelCreationError,
    closing: ChannelCloseError,
)
    ensures
        call_ensures(<ConnectionSendError as From<AsyncChannelError>>::from, (e,), send) ==> send
            == ConnectionSendError::AsyncChannelError(e),
        call_ensures(<ChannelCreationError as From<AsyncChannelError>>::from, (e,), creation)
            ==> creation == ChannelCreationError::AsyncChannelError(e),
        call_ensures(<ChannelCloseError as From<AsyncChannelError>>::from, (e,), closing)
            ==> closing == ChannelCloseError::AsyncChannelError(e),
{
}

} // verus!
