//! What the client and the server side of a connection have in common.

use std::collections::VecDeque;

use bytes::Bytes;
use tokio::sync::{broadcast, mpsc};
use vstd::prelude::*;

#[allow(unused_imports)]
use crate::shared::channels::{told_to_stop, ChannelView, Link};
use crate::shared::channels::{
    Channel, ChannelAsyncMessage, ChannelConfig, ChannelId, ChannelSyncMessage, CloseReason,
    MAX_CHANNEL_COUNT,
};
use crate::shared::error::{
    AsyncChannelError, ChannelCloseError, ChannelCreationError, ConnectionAlreadyClosed,
    ConnectionSendError, RecvChannelError,
};
#[allow(unused_imports)]
use crate::shared::payload::{payload_bytes, payloads_bytes};
#[allow(unused_imports)]
use crate::shared::queues::{
    answer_of, answered, listeners_told, only_gave, queue_answered, Answer, Batch,
};
use crate::shared::queues::{mpsc_queue, Broadcaster, Inbox, Outbox, RecvFailure};
use crate::shared::DEFAULT_MESSAGE_QUEUE_SIZE;

verus! {

/// What a pool of channel ids amounts to.
#[verifier::ext_equal]
pub struct ChannelsIdsPoolView {
    /// The ids that can be taken.
    pub available: Set<ChannelId>,
    /// The default channel.
    pub default_channel: Option<ChannelId>,
}

impl ChannelsIdsPoolView {
    /// The pool that a connection starts with.
    pub open spec fn full() -> Self {
        ChannelsIdsPoolView {
            available: Set::new(|id: ChannelId| true),
            default_channel: None,
        }
    }

    /// `id` is the smallest available id.
    pub open spec fn is_next(self, id: ChannelId) -> bool {
        &&& self.available.contains(id)
        &&& forall|other: ChannelId| #[trigger] self.available.contains(other) ==> id <= other
    }

    /// The pool once `id` is taken: the first id taken becomes the default
    /// channel.
    pub open spec fn take(self, id: ChannelId) -> Self {
        ChannelsIdsPoolView {
            available: self.available.remove(id),
            default_channel: if self.default_channel is None {
                Some(id)
            } else {
                self.default_channel
            },
        }
    }

    /// The pool once `id` is released: it is no longer the default channel.
    pub open spec fn release(self, id: ChannelId) -> Self {
        ChannelsIdsPoolView {
            available: self.available.insert(id),
            default_channel: if self.default_channel == Some(id) {
                None
            } else {
                self.default_channel
            },
        }
    }
}

/// Ordered pool of the channel ids that are available.
pub struct ChannelsIdsPool {
    /// Whether each id is available.
    pub free: [bool; 256],
    /// The default channel.
    pub default_channel: Option<ChannelId>,
}

impl View for ChannelsIdsPool {
    type V = ChannelsIdsPoolView;

    open spec fn view(&self) -> ChannelsIdsPoolView {
        ChannelsIdsPoolView {
            available: Set::new(|id: ChannelId| self.free@[id as int]),
            default_channel: self.default_channel,
        }
    }
}

impl ChannelsIdsPool {
    /// The pool with every id available.
    pub fn new() -> (r: Self)
        ensures
            r@ == ChannelsIdsPoolView::full(),
    {
        ChannelsIdsPool { free: [true; 256], default_channel: None }
    }

    /// Takes the smallest available id.
    pub fn take_id(&mut self) -> (r: Result<ChannelId, ChannelCreationError>)
        ensures
            match r {
                Ok(id) => old(self)@.is_next(id) && final(self)@ == old(self)@.take(id),
                Err(e) => {
                    &&& e == ChannelCreationError::MaxChannelsCountReached
                    &&& old(self)@.available == Set::<ChannelId>::empty()
                    &&& final(self)@ == old(self)@
                },
            },
    {
        let mut next: usize = 0;
        while next < MAX_CHANNEL_COUNT
            invariant
                next <= MAX_CHANNEL_COUNT,
                *self == *old(self),
                forall|i: int| 0 <= i < next ==> !self.free@[i],
            decreases MAX_CHANNEL_COUNT - next,
        {
            if self.free[next] {
                let id: ChannelId = next as ChannelId;
                self.free[next] = false;
                if self.default_channel.is_none() {
                    self.default_channel = Some(id);
                }
                assert(self@ =~= old(self)@.take(id));
                return Ok(id);
            }
            next = next + 1;
        }
        assert(self@.available =~= Set::<ChannelId>::empty());
        Err(ChannelCreationError::MaxChannelsCountReached)
    }

    /// Makes an id available again.
    pub fn release_id(&mut self, id: ChannelId)
        ensures
            final(self)@ == old(self)@.release(id),
    {
        self.free[id as usize] = true;
        if let Some(default) = self.default_channel {
            if default == id {
                self.default_channel = None;
            }
        }
        assert(self@ =~= old(self)@.release(id));
    }

    /// The default channel.
    pub fn default_channel(&self) -> (r: Option<ChannelId>)
        ensures
            r == self@.default_channel,
    {
        self.default_channel
    }

    /// Makes `id` the default channel.
    pub fn set_default_channel(&mut self, id: ChannelId)
        ensures
            final(self)@ == (ChannelsIdsPoolView { default_channel: Some(id), ..old(self)@ }),
    {
        self.default_channel = Some(id);
        assert(self@ =~= (ChannelsIdsPoolView { default_channel: Some(id), ..old(self)@ }));
    }
}

/// How received payloads are kept until they are read.
#[derive(Debug, Copy, Clone, PartialEq, Eq, Structural)]
pub struct RecvChannelsConfiguration {
    /// How many payloads a channel keeps at most; later ones are dropped.
    pub max_buffered_payloads_count_per_channel: usize,
    /// Whether payloads that were not read are dropped at the end of each update.
    pub clear_stale_received_payloads: bool,
}

/// The halves of the queues of a connection that the synchronous side has, as they
/// were when it got them.
pub struct ConnectionEnds {
    /// Payloads from the peer.
    pub bytes_from_peer_recv: mpsc::Receiver<(ChannelId, Bytes)>,
    /// Close orders to the async tasks.
    pub close_send: broadcast::Sender<CloseReason>,
    /// Reports of the channel tasks.
    pub from_channels_recv: mpsc::Receiver<ChannelAsyncMessage>,
    /// Requests to the async tasks.
    pub to_channels_send: mpsc::Sender<ChannelSyncMessage>,
}

/// What a connection amounts to.
#[verifier::ext_equal]
pub struct PeerConnectionView<V> {
    /// What is specific to the client or to the server side.
    pub specific: V,
    /// Its halves of the queues.
    pub ends: ConnectionEnds,
    /// The registered channels.
    pub channels: Map<ChannelId, ChannelView>,
    /// The requests for channels that were offered to the async tasks, oldest
    /// first, each with the answer.
    pub requests: Seq<(ChannelSyncMessage, Answer)>,
    /// The close orders, oldest first, each with whether a task heard it.
    pub close_orders: Seq<(CloseReason, bool)>,
    /// What the queue of reports of the channel tasks answered, oldest first.
    pub reports: Seq<Result<ChannelAsyncMessage, RecvFailure>>,
    /// Its half of that queue, as that has left it.
    pub reports_left: mpsc::Receiver<ChannelAsyncMessage>,
    /// What the queue of payloads from the peer answered, oldest first.
    pub arrived: Seq<Result<(ChannelId, Seq<u8>), RecvFailure>>,
    /// The payloads of each channel that wait to be read.
    pub buffers: Map<ChannelId, Seq<Seq<u8>>>,
    /// How received payloads are kept.
    pub recv_channels_cfg: RecvChannelsConfiguration,
}

/// One side of a connection: a client's or a server's, as `S` says.
#[verifier::reject_recursive_types(S)]
pub struct PeerConnection<S> {
    /// What is specific to this side.
    pub specific: S,
    /// The registered channels, each at the index of its id.
    pub send_channels: Vec<Option<Channel>>,
    /// Requests to the async tasks.
    pub to_channels_send: Outbox<ChannelSyncMessage>,
    /// Reports of the channel tasks.
    pub from_channels_recv: Inbox<ChannelAsyncMessage>,
    /// Close orders to the async tasks.
    pub close_send: Broadcaster<CloseReason>,
    /// Payloads from the peer.
    pub bytes_from_peer_recv: Inbox<(ChannelId, Bytes)>,
    /// Payloads that wait to be read, each channel at the index of its id.
    pub recv_buffers: Vec<VecDeque<Bytes>>,
    /// How received payloads are kept.
    pub recv_channels_cfg: RecvChannelsConfiguration,
}

/// The channels of a table whose entries stand at the index of their id.
pub open spec fn channel_table(slots: Seq<Option<Channel>>) -> Map<ChannelId, ChannelView> {
    Map::new(
        |id: ChannelId| (id as int) < slots.len() && slots[id as int] is Some,
        |id: ChannelId| slots[id as int]->0@,
    )
}

/// The payloads that wait in each buffer of a table.
pub open spec fn buffer_table(buffers: Seq<VecDeque<Bytes>>) -> Map<ChannelId, Seq<Seq<u8>>> {
    Map::new(
        |id: ChannelId| true,
        |id: ChannelId|
            if (id as int) < buffers.len() {
                payloads_bytes(buffers[id as int]@)
            } else {
                Seq::empty()
            },
    )
}

/// No payload waits on any channel.
pub open spec fn empty_buffers() -> Map<ChannelId, Seq<Seq<u8>>> {
    Map::new(|id: ChannelId| true, |id: ChannelId| Seq::empty())
}

/// The bytes of each payload of a sequence, with their channels.
pub open spec fn addressed_bytes(payloads: Seq<(ChannelId, Bytes)>) -> Seq<(ChannelId, Seq<u8>)> {
    payloads.map_values(|p: (ChannelId, Bytes)| (p.0, payload_bytes(p.1)))
}

/// The bytes of each payload among the answers of a queue.
pub open spec fn addressed_answers(
    answers: Seq<Result<(ChannelId, Bytes), RecvFailure>>,
) -> Seq<Result<(ChannelId, Seq<u8>), RecvFailure>> {
    answers.map_values(
        |a: Result<(ChannelId, Bytes), RecvFailure>|
            match a {
                Ok(p) => Ok::<(ChannelId, Seq<u8>), RecvFailure>((p.0, payload_bytes(p.1))),
                Err(why) => Err(why),
            },
    )
}

/// The buffers once `payloads` are sorted into them, in order: each goes behind
/// those that wait on its channel, unless `max` of them wait already.
pub open spec fn sorted_into(
    buffers: Map<ChannelId, Seq<Seq<u8>>>,
    max: nat,
    payloads: Seq<(ChannelId, Seq<u8>)>,
) -> Map<ChannelId, Seq<Seq<u8>>>
    decreases payloads.len(),
{
    if payloads.len() == 0 {
        buffers
    } else {
        let before = sorted_into(buffers, max, payloads.drop_last());
        let (id, bytes) = payloads.last();
        if before[id].len() < max {
            before.insert(id, before[id].push(bytes))
        } else {
            before
        }
    }
}

/// The errors of sorting `payloads` into the buffers: one for each payload that
/// finds `max` others on its channel, in order.
pub open spec fn sorting_errors(
    buffers: Map<ChannelId, Seq<Seq<u8>>>,
    max: nat,
    payloads: Seq<(ChannelId, Seq<u8>)>,
) -> Seq<RecvChannelError>
    decreases payloads.len(),
{
    if payloads.len() == 0 {
        Seq::empty()
    } else {
        let before = sorted_into(buffers, max, payloads.drop_last());
        let errors = sorting_errors(buffers, max, payloads.drop_last());
        let id = payloads.last().0;
        if before[id].len() < max {
            errors
        } else {
            errors.push(RecvChannelError::RecvChannelFull(id))
        }
    }
}

impl<S: View> View for PeerConnection<S> {
    type V = PeerConnectionView<S::V>;

    open spec fn view(&self) -> PeerConnectionView<S::V> {
        PeerConnectionView {
            specific: self.specific@,
            ends: ConnectionEnds {
                bytes_from_peer_recv: self.bytes_from_peer_recv.half(),
                close_send: self.close_send.half(),
                from_channels_recv: self.from_channels_recv.half(),
                to_channels_send: self.to_channels_send.half(),
            },
            channels: channel_table(self.send_channels@),
            requests: self.to_channels_send.offers(),
            close_orders: self.close_send.calls(),
            reports: self.from_channels_recv.answers(),
            reports_left: self.from_channels_recv.current(),
            arrived: addressed_answers(self.bytes_from_peer_recv.answers()),
            buffers: buffer_table(self.recv_buffers@),
            recv_channels_cfg: self.recv_channels_cfg,
        }
    }
}

/// What the queue of a registered channel answered, by the result of handing it a
/// payload.
pub open spec fn send_answer(r: Result<(), ConnectionSendError>) -> Answer {
    match r {
        Err(ConnectionSendError::AsyncChannelError(e)) => Answer::Refused(e),
        _ => Answer::Taken,
    }
}

impl<V> PeerConnectionView<V> {
    /// A connection without channels that has not used its queues.
    pub open spec fn unused(
        specific: V,
        ends: ConnectionEnds,
        recv_channels_cfg: RecvChannelsConfiguration,
    ) -> Self {
        PeerConnectionView {
            specific,
            ends,
            channels: Map::empty(),
            requests: Seq::empty(),
            close_orders: Seq::empty(),
            reports: Seq::empty(),
            reports_left: ends.from_channels_recv,
            arrived: Seq::empty(),
            buffers: empty_buffers(),
            recv_channels_cfg,
        }
    }

    /// `r` is what handing a payload to channel `id` can result in: only a
    /// registered channel can take it, and its queue may still refuse it.
    pub open spec fn send_possible(
        self,
        id: ChannelId,
        r: Result<(), ConnectionSendError>,
    ) -> bool {
        match r {
            Ok(()) => self.channels.contains_key(id),
            Err(ConnectionSendError::InvalidChannelId(bad)) => bad == id
                && !self.channels.contains_key(id),
            Err(ConnectionSendError::AsyncChannelError(_)) => self.channels.contains_key(id),
        }
    }

    /// The connection once handing `payload` to channel `id` has resulted in
    /// `r`: the queue of a registered channel was offered the payload, and `r`
    /// says what it answered.
    pub open spec fn after_send(
        self,
        id: ChannelId,
        payload: Seq<u8>,
        r: Result<(), ConnectionSendError>,
    ) -> Self {
        if self.channels.contains_key(id) {
            PeerConnectionView {
                channels: self.channels.insert(
                    id,
                    self.channels[id].offered(payload, send_answer(r)),
                ),
                ..self
            }
        } else {
            self
        }
    }

    /// The connection once a request was offered to the async tasks.
    pub open spec fn ask(self, request: ChannelSyncMessage, answer: Answer) -> Self {
        PeerConnectionView { requests: self.requests.push((request, answer)), ..self }
    }

    /// The connection once a channel is registered.
    pub open spec fn register(self, id: ChannelId, channel: ChannelView) -> Self {
        PeerConnectionView { channels: self.channels.insert(id, channel), ..self }
    }

    /// The connection once the async tasks took a request, and the channel that it
    /// asks for is registered.
    pub open spec fn link(self, link: Link) -> Self {
        self.ask(link.request, Answer::Taken).register(link.request->id, link.channel)
    }

    /// The connection once this was done for each of `links`, in order.
    pub open spec fn link_each(self, links: Seq<Link>) -> Self
        decreases links.len(),
    {
        if links.len() == 0 {
            self
        } else {
            self.link_each(links.drop_last()).link(links.last())
        }
    }

    /// The async tasks were offered the request of each of `links`, and took it.
    pub open spec fn took_each(self, links: Seq<Link>) -> bool {
        forall|i: int| 0 <= i < links.len() ==> self.took((#[trigger] links[i]).request)
    }

    /// The async tasks were offered a request, and took it.
    pub open spec fn took(self, request: ChannelSyncMessage) -> bool {
        queue_answered(self.ends.to_channels_send, request, Ok(()))
    }

    /// The async tasks were offered a request for a channel with this id and config,
    /// and refused it with `e`.
    pub open spec fn turned_down(
        self,
        request: ChannelSyncMessage,
        id: ChannelId,
        config: ChannelConfig,
        e: AsyncChannelError,
    ) -> bool {
        &&& request->id == id
        &&& request->config == config
        &&& queue_answered(self.ends.to_channels_send, request, Err(e))
    }

    /// `self` is the connection once the async tasks were asked for a channel, and
    /// refused.
    pub open spec fn refused(
        self,
        pre: Self,
        id: ChannelId,
        config: ChannelConfig,
        e: AsyncChannelError,
    ) -> bool {
        exists|request: ChannelSyncMessage|
            pre.turned_down(request, id, config, e) && self == #[trigger] pre.ask(
                request,
                Answer::Refused(e),
            )
    }

    /// The connection once a channel is gone.
    pub open spec fn unregister(self, id: ChannelId) -> Self {
        PeerConnectionView { channels: self.channels.remove(id), ..self }
    }

    /// `r` is what closing channel `id` can result in: a registered channel was
    /// ordered to stop, and `r` says what its task answered.
    pub open spec fn close_possible(self, id: ChannelId, r: Result<(), ChannelCloseError>) -> bool {
        match r {
            Ok(()) => {
                &&& self.channels.contains_key(id)
                &&& told_to_stop(self.channels[id], Ok(()))
            },
            Err(ChannelCloseError::InvalidChannelId(bad)) => bad == id
                && !self.channels.contains_key(id),
            Err(ChannelCloseError::AsyncChannelError(e)) => {
                &&& self.channels.contains_key(id)
                &&& told_to_stop(self.channels[id], Err(e))
            },
        }
    }

    /// The tasks of the connection were ordered to close it for `reason`, and one of
    /// them has `heard` it or not.
    pub open spec fn was_told(self, reason: CloseReason, heard: bool) -> bool {
        listeners_told(self.ends.close_send, reason, heard)
    }

    /// The tasks of the connection were ordered to close it for `reason`.
    pub open spec fn told(self, reason: CloseReason) -> bool {
        exists|heard: bool| self.was_told(reason, heard)
    }

    /// The connection once its tasks were ordered to close it, which one of them
    /// has `heard` or not.
    pub open spec fn told_to_close(self, reason: CloseReason, heard: bool) -> Self {
        PeerConnectionView { close_orders: self.close_orders.push((reason, heard)), ..self }
    }

    /// The connection once reports were taken from the channel tasks, which has left
    /// its half of the queue of reports as `left`.
    pub open spec fn with_reports(
        self,
        reports: Batch<ChannelAsyncMessage>,
        left: mpsc::Receiver<ChannelAsyncMessage>,
    ) -> Self {
        PeerConnectionView {
            reports: self.reports + reports.answers(),
            reports_left: left,
            ..self
        }
    }

    /// The channel tasks were asked for reports until they had none to give, and `left`
    /// is what that has left of the half of their queue.
    pub open spec fn gave_reports(
        self,
        reports: Batch<ChannelAsyncMessage>,
        left: mpsc::Receiver<ChannelAsyncMessage>,
    ) -> bool {
        &&& reports.complete(usize::MAX)
        &&& only_gave(self.reports_left, reports.answers(), left)
    }

    /// Each registered channel is registered under its id, and has the queues that
    /// the async tasks took with a request for it.
    pub open spec fn wired(self) -> bool {
        forall|id: ChannelId| #[trigger]
            self.channels.contains_key(id) ==> self.channels[id].id == id && exists|i: int|
                0 <= i < self.requests.len() && (#[trigger] self.requests[i]).1 is Taken
                    && self.requests[i].0->id == id && self.channels[id].feeds(self.requests[i].0)
    }

    /// The connection once `payloads` came from the peer and were sorted into
    /// the buffers.
    pub open spec fn dispatch(self, payloads: Batch<(ChannelId, Seq<u8>)>) -> Self {
        PeerConnectionView {
            arrived: self.arrived + payloads.answers(),
            buffers: sorted_into(
                self.buffers,
                self.recv_channels_cfg.max_buffered_payloads_count_per_channel as nat,
                payloads.messages,
            ),
            ..self
        }
    }

    /// The errors of that.
    pub open spec fn dispatch_errors(self, payloads: Seq<(ChannelId, Seq<u8>)>) -> Seq<
        RecvChannelError,
    > {
        sorting_errors(
            self.buffers,
            self.recv_channels_cfg.max_buffered_payloads_count_per_channel as nat,
            payloads,
        )
    }

    /// `r` is the result of that: the errors, if there is any.
    pub open spec fn dispatch_result(
        self,
        payloads: Seq<(ChannelId, Seq<u8>)>,
        r: Result<(), Vec<RecvChannelError>>,
    ) -> bool {
        match r {
            Ok(()) => self.dispatch_errors(payloads) == Seq::<RecvChannelError>::empty(),
            Err(reported) => reported@ == self.dispatch_errors(payloads) && reported@.len() > 0,
        }
    }

    /// The connection once the payload that has waited longest on a channel is
    /// read.
    pub open spec fn read(self, id: ChannelId) -> Self {
        PeerConnectionView {
            buffers: self.buffers.insert(id, self.buffers[id].drop_first()),
            ..self
        }
    }

    /// The connection once nothing waits to be read.
    pub open spec fn cleared(self) -> Self {
        PeerConnectionView { buffers: empty_buffers(), ..self }
    }
}

impl<S: View> PeerConnection<S> {
    /// A connection without channels.
    pub fn new(
        specific: S,
        bytes_from_peer_recv: mpsc::Receiver<(ChannelId, Bytes)>,
        close_send: broadcast::Sender<CloseReason>,
        from_channels_recv: mpsc::Receiver<ChannelAsyncMessage>,
        to_channels_send: mpsc::Sender<ChannelSyncMessage>,
        recv_channels_cfg: RecvChannelsConfiguration,
    ) -> (r: Self)
        ensures
            r@ == PeerConnectionView::unused(
                specific@,
                ConnectionEnds {
                    bytes_from_peer_recv,
                    close_send,
                    from_channels_recv,
                    to_channels_send,
                },
                recv_channels_cfg,
            ),
    {
        let r = PeerConnection {
            specific,
            send_channels: Vec::new(),
            to_channels_send: Outbox::new(to_channels_send),
            from_channels_recv: Inbox::new(from_channels_recv),
            close_send: Broadcaster::new(close_send),
            bytes_from_peer_recv: Inbox::new(bytes_from_peer_recv),
            recv_buffers: Vec::new(),
            recv_channels_cfg,
        };
        assert(r@.channels =~= Map::empty());
        assert(r@.arrived =~= Seq::empty());
        r
    }

    /// Starts over with fresh queues: no channel, no request, nothing received.
    pub fn internal_reset(
        &mut self,
        close_send: broadcast::Sender<CloseReason>,
        to_channels_send: mpsc::Sender<ChannelSyncMessage>,
        from_channels_recv: mpsc::Receiver<ChannelAsyncMessage>,
        bytes_from_peer_recv: mpsc::Receiver<(ChannelId, Bytes)>,
        channels_count: usize,
    )
        requires
            channels_count <= MAX_CHANNEL_COUNT,
        ensures
            final(self).specific == old(self).specific,
            final(self)@ == PeerConnectionView::unused(
                old(self)@.specific,
                ConnectionEnds {
                    bytes_from_peer_recv,
                    close_send,
                    from_channels_recv,
                    to_channels_send,
                },
                old(self)@.recv_channels_cfg,
            ),
    {
        self.close_send = Broadcaster::new(close_send);
        self.to_channels_send = Outbox::new(to_channels_send);
        self.from_channels_recv = Inbox::new(from_channels_recv);
        self.bytes_from_peer_recv = Inbox::new(bytes_from_peer_recv);
        self.send_channels = Vec::with_capacity(channels_count);
        self.recv_buffers = Vec::new();
        assert(self@.channels =~= Map::empty());
        assert(self@.arrived =~= Seq::empty());
    }

    /// Hands a payload to a channel: offers it to the queue of the channel, once,
    /// and fails as the queue answers.
    pub fn internal_send_payload(&mut self, id: ChannelId, payload: Bytes) -> (r: Result<
        (),
        ConnectionSendError,
    >)
        ensures
            final(self).specific == old(self).specific,
            old(self)@.send_possible(id, r),
            final(self)@ == old(self)@.after_send(id, payload_bytes(payload), r),
    {
        let index: usize = id as usize;
        if index < self.send_channels.len() {
            if let Some(channel) = &mut self.send_channels[index] {
                let r = match channel.send_payload(payload) {
                    Ok(()) => Ok(()),
                    Err(e) => Err(ConnectionSendError::AsyncChannelError(e)),
                };
                assert(self@ =~= old(self)@.after_send(id, payload_bytes(payload), r));
                r
            } else {
                assert(self@ =~= old(self)@);
                Err(ConnectionSendError::InvalidChannelId(id))
            }
        } else {
            Err(ConnectionSendError::InvalidChannelId(id))
        }
    }

    /// Asks the async tasks for a channel, once, without registering it. It fails
    /// as the queue of requests answers.
    pub fn create_unregistered_connection_channel(
        &mut self,
        id: ChannelId,
        config: ChannelConfig,
    ) -> (r: Result<Channel, AsyncChannelError>)
        ensures
            final(self).specific == old(self).specific,
            match r {
                Ok(channel) => exists|request: ChannelSyncMessage|
                    (Link { request, channel: channel@ }).made_for(id, config) && old(self)@.took(
                        request,
                    ) && final(self)@ == #[trigger] old(self)@.ask(request, Answer::Taken),
                Err(e) => final(self)@.refused(old(self)@, id, config, e),
            },
    {
        let (bytes_send, bytes_to_channel_recv) = mpsc_queue::<Bytes>(DEFAULT_MESSAGE_QUEUE_SIZE);
        let (channel_close_send, channel_close_recv) = mpsc_queue::<()>(1);
        let request = ChannelSyncMessage::CreateChannel {
            id,
            config,
            bytes_to_channel_recv,
            channel_close_recv,
        };
        let ghost asked = request;
        let answer = self.to_channels_send.try_send(request);
        assert(self@ =~= old(self)@.ask(asked, answer_of(answer)));
        match answer {
            Ok(()) => {
                let channel = Channel {
                    id,
                    sender: Outbox::new(bytes_send),
                    close_sender: Outbox::new(channel_close_send),
                };
                assert(channel@.sends =~= Seq::empty());
                assert(channel@.stops =~= Seq::empty());
                assert((Link { request: asked, channel: channel@ }).made_for(id, config));
                Ok(channel)
            },
            Err(e) => {
                assert(old(self)@.turned_down(asked, id, config, e));
                Err(e)
            },
        }
    }

    /// Registers a channel; one with the same id is replaced.
    pub fn register_connection_channel(&mut self, channel: Channel)
        ensures
            final(self).specific == old(self).specific,
            final(self)@ == old(self)@.register(channel@.id, channel@),
    {
        let id: ChannelId = channel.id;
        let index: usize = id as usize;
        let ghost registered = channel@;
        while self.send_channels.len() <= index
            invariant
                index == id as usize,
                self.specific == old(self).specific,
                self@ == old(self)@,
            decreases index + 1 - self.send_channels@.len(),
        {
            let ghost before = self.send_channels@;
            self.send_channels.push(None);
            assert(channel_table(self.send_channels@) =~= channel_table(before));
        }
        self.send_channels.set(index, Some(channel));
        assert(self@ =~= old(self)@.register(id, registered));
    }

    /// Asks the async tasks for a channel, once, and registers it where they took
    /// the request.
    pub fn create_connection_channel(&mut self, id: ChannelId, config: ChannelConfig) -> (r: Result<
        (),
        AsyncChannelError,
    >)
        ensures
            final(self).specific == old(self).specific,
            match r {
                Ok(()) => exists|link: Link| #[trigger]
                    link.made_for(id, config) && old(self)@.took(link.request) && final(self)@
                        == old(self)@.link(link),
                Err(e) => final(self)@.refused(old(self)@, id, config, e),
            },
    {
        match self.create_unregistered_connection_channel(id, config) {
            Ok(channel) => {
                let ghost request = choose|request: ChannelSyncMessage|
                    (Link { request, channel: channel@ }).made_for(id, config) && old(self)@.took(
                        request,
                    ) && self@ == #[trigger] old(self)@.ask(request, Answer::Taken);
                let ghost link = Link { request, channel: channel@ };
                self.register_connection_channel(channel);
                assert(link.made_for(id, config));
                assert(self@ =~= old(self)@.link(link));
                Ok(())
            },
            Err(e) => Err(e),
        }
    }

    /// Removes a channel, and orders its task to stop, once. It fails as the task
    /// answers.
    pub fn internal_close_channel(&mut self, id: ChannelId) -> (r: Result<(), ChannelCloseError>)
        ensures
            final(self).specific == old(self).specific,
            final(self)@ == old(self)@.unregister(id),
            old(self)@.close_possible(id, r),
    {
        let index: usize = id as usize;
        if index < self.send_channels.len() {
            let slot = self.send_channels[index].take();
            assert(self@ =~= old(self)@.unregister(id));
            match slot {
                Some(mut channel) => {
                    let closed = channel.close();
                    assert(told_to_stop(old(self)@.channels[id], closed));
                    match closed {
                        Ok(()) => Ok(()),
                        Err(e) => Err(ChannelCloseError::AsyncChannelError(e)),
                    }
                },
                None => Err(ChannelCloseError::InvalidChannelId(id)),
            }
        } else {
            assert(self@ =~= old(self)@.unregister(id));
            Err(ChannelCloseError::InvalidChannelId(id))
        }
    }

    /// Orders the async tasks of the connection to stop, once. It fails when no
    /// task is left to hear it.
    pub fn close(&mut self, reason: CloseReason) -> (r: Result<(), ConnectionAlreadyClosed>)
        ensures
            final(self).specific == old(self).specific,
            final(self)@ == old(self)@.told_to_close(reason, r is Ok),
            old(self)@.was_told(reason, r is Ok),
    {
        if self.close_send.send(reason) {
            Ok(())
        } else {
            Err(ConnectionAlreadyClosed)
        }
    }

    /// [`Self::close`], whether or not a task is left to hear it.
    pub fn try_close(&mut self, reason: CloseReason)
        ensures
            final(self).specific == old(self).specific,
            exists|heard: bool| #[trigger]
                old(self)@.was_told(reason, heard) && final(self)@ == old(self)@.told_to_close(
                    reason,
                    heard,
                ),
    {
        let r = self.close(reason);
        assert(old(self)@.was_told(reason, r is Ok));
    }

    /// Asks for the next report of the channel tasks, once, and returns the
    /// answer of their queue.
    pub fn try_recv_from_channels(&mut self) -> (r: Result<ChannelAsyncMessage, RecvFailure>)
        ensures
            final(self).specific == old(self).specific,
            final(self)@ == (PeerConnectionView {
                reports: old(self)@.reports.push(r),
                reports_left: final(self)@.reports_left,
                ..old(self)@
            }),
            answered(old(self)@.reports_left, r, final(self)@.reports_left),
    {
        self.from_channels_recv.try_recv()
    }

    /// Takes reports of the channel tasks until their queue has none to give.
    pub fn drain_channel_reports(&mut self) -> (r: Vec<ChannelAsyncMessage>)
        ensures
            final(self).specific == old(self).specific,
            exists|reports: Batch<ChannelAsyncMessage>| #[trigger]
                old(self)@.gave_reports(reports, final(self)@.reports_left) && reports.messages
                    == r@ && final(self)@ == old(self)@.with_reports(
                    reports,
                    final(self)@.reports_left,
                ),
            final(self).from_channels_recv.drained(old(self).from_channels_recv, usize::MAX, r@),
    {
        let r = self.from_channels_recv.drain(usize::MAX);
        proof {
            let reports = choose|batch: Batch<ChannelAsyncMessage>| #[trigger]
                batch.complete(usize::MAX) && batch.messages == r@
                    && self.from_channels_recv.asked(
                    old(self).from_channels_recv,
                    batch.answers(),
                ) && self.from_channels_recv.answers() == old(self).from_channels_recv.answers()
                    + batch.answers();
            assert(old(self)@.gave_reports(reports, self@.reports_left));
            assert(self@ =~= old(self)@.with_reports(reports, self@.reports_left));
        }
        r
    }

    /// Sorts payloads into the buffers of their channels. A payload that finds
    /// its buffer full is dropped, with an error.
    pub fn sort_payloads(&mut self, payloads: Vec<(ChannelId, Bytes)>) -> (r: Vec<RecvChannelError>)
        ensures
            final(self).specific == old(self).specific,
            r@ == sorting_errors(
                old(self)@.buffers,
                old(self)@.recv_channels_cfg.max_buffered_payloads_count_per_channel as nat,
                addressed_bytes(payloads@),
            ),
            final(self)@ == (PeerConnectionView {
                buffers: sorted_into(
                    old(self)@.buffers,
                    old(self)@.recv_channels_cfg.max_buffered_payloads_count_per_channel as nat,
                    addressed_bytes(payloads@),
                ),
                ..old(self)@
            }),
            final(self).bytes_from_peer_recv == old(self).bytes_from_peer_recv,
    {
        let ghost all = addressed_bytes(payloads@);
        let max: usize = self.recv_channels_cfg.max_buffered_payloads_count_per_channel;
        let mut errors: Vec<RecvChannelError> = Vec::new();
        assert(all.take(0) =~= Seq::<(ChannelId, Seq<u8>)>::empty());
        for payload in iter: payloads
            invariant
                all == addressed_bytes(iter.seq()),
                max == old(self)@.recv_channels_cfg.max_buffered_payloads_count_per_channel,
                self.specific == old(self).specific,
                self.bytes_from_peer_recv == old(self).bytes_from_peer_recv,
                errors@ == sorting_errors(old(self)@.buffers, max as nat, all.take(iter.index())),
                self@ == (PeerConnectionView {
                    buffers: sorted_into(
                        old(self)@.buffers,
                        max as nat,
                        all.take(iter.index()),
                    ),
                    ..old(self)@
                }),
        {
            let (id, bytes) = payload;
            proof {
                assert(all.take(iter.index() + 1).drop_last() =~= all.take(iter.index()));
            }
            if !self.buffer_payload(id, bytes, max) {
                errors.push(RecvChannelError::RecvChannelFull(id));
            }
        }
        assert(all.take(all.len() as int) =~= all);
        errors
    }

    /// Puts a payload behind those that wait on its channel, unless `max` of
    /// them wait already.
    fn buffer_payload(&mut self, id: ChannelId, payload: Bytes, max: usize) -> (r: bool)
        ensures
            final(self).specific == old(self).specific,
            r == (old(self)@.buffers[id].len() < max),
            final(self)@ == if r {
                PeerConnectionView {
                    buffers: old(self)@.buffers.insert(
                        id,
                        old(self)@.buffers[id].push(payload_bytes(payload)),
                    ),
                    ..old(self)@
                }
            } else {
                old(self)@
            },
            final(self).bytes_from_peer_recv == old(self).bytes_from_peer_recv,
    {
        let index: usize = id as usize;
        while self.recv_buffers.len() <= index
            invariant
                index == id as usize,
                self.specific == old(self).specific,
                self.bytes_from_peer_recv == old(self).bytes_from_peer_recv,
                self@ == old(self)@,
            decreases index + 1 - self.recv_buffers@.len(),
        {
            let ghost before = self.recv_buffers@;
            self.recv_buffers.push(VecDeque::new());
            assert(payloads_bytes(self.recv_buffers@[before.len() as int]@) =~= Seq::<
                Seq<u8>,
            >::empty());
            assert(buffer_table(self.recv_buffers@) =~= buffer_table(before));
        }
        assert(self@.buffers[id] == payloads_bytes(self.recv_buffers@[id as int]@));
        if self.recv_buffers[index].len() < max {
            let ghost waiting = self.recv_buffers@[id as int]@;
            self.recv_buffers[index].push_back(payload);
            assert(payloads_bytes(waiting.push(payload)) =~= payloads_bytes(waiting).push(
                payload_bytes(payload),
            ));
            assert(self@.buffers =~= old(self)@.buffers.insert(
                id,
                old(self)@.buffers[id].push(payload_bytes(payload)),
            ));
            true
        } else {
            false
        }
    }

    /// Takes payloads from the peer until their queue has none to give, and sorts
    /// them into the buffers of their channels.
    pub fn dispatch_received_payloads_to_channel_buffers(&mut self) -> (r: Result<
        (),
        Vec<RecvChannelError>,
    >)
        ensures
            final(self).specific == old(self).specific,
            exists|payloads: Batch<(ChannelId, Seq<u8>)>| #[trigger]
                payloads.complete(usize::MAX) && final(self)@ == old(self)@.dispatch(payloads)
                    && old(self)@.dispatch_result(payloads.messages, r),
            exists|taken: Seq<(ChannelId, Bytes)>| #[trigger]
                final(self).bytes_from_peer_recv.drained(
                    old(self).bytes_from_peer_recv,
                    usize::MAX,
                    taken,
                ),
    {
        let payloads = self.bytes_from_peer_recv.drain(usize::MAX);
        let ghost taken = payloads@;
        assert(self.bytes_from_peer_recv.drained(
            old(self).bytes_from_peer_recv,
            usize::MAX,
            taken,
        ));
        let ghost batch = choose|batch: Batch<(ChannelId, Bytes)>| #[trigger]
            batch.complete(usize::MAX) && batch.messages == taken
                && self.bytes_from_peer_recv.answers() == old(self).bytes_from_peer_recv.answers()
                + batch.answers();
        let ghost arrived = Batch { messages: addressed_bytes(taken), end: batch.end };
        proof {
            assert(addressed_answers(batch.answers()) =~= arrived.answers());
            assert(self@.arrived =~= old(self)@.arrived + arrived.answers());
        }
        let errors = self.sort_payloads(payloads);
        assert(self@ =~= old(self)@.dispatch(arrived));
        assert(arrived.complete(usize::MAX));
        if errors.len() == 0 {
            assert(errors@ =~= Seq::<RecvChannelError>::empty());
            Ok(())
        } else {
            Err(errors)
        }
    }

    /// Reads the payload that has waited longest on a channel.
    pub fn internal_receive_payload(&mut self, id: ChannelId) -> (r: Option<Bytes>)
        ensures
            final(self).specific == old(self).specific,
            match r {
                Some(payload) => {
                    &&& old(self)@.buffers[id].len() > 0
                    &&& payload_bytes(payload) == old(self)@.buffers[id].first()
                    &&& final(self)@ == old(self)@.read(id)
                },
                None => old(self)@.buffers[id].len() == 0 && final(self)@ == old(self)@,
            },
    {
        let index: usize = id as usize;
        if index < self.recv_buffers.len() {
            let ghost waiting = self.recv_buffers@[id as int]@;
            let r = self.recv_buffers[index].pop_front();
            proof {
                if r is Some {
                    assert(payloads_bytes(self.recv_buffers@[id as int]@) =~= payloads_bytes(
                        waiting,
                    ).drop_first());
                    assert(self@.buffers =~= old(self)@.buffers.insert(
                        id,
                        old(self)@.buffers[id].drop_first(),
                    ));
                } else {
                    assert(self@.buffers =~= old(self)@.buffers);
                }
            }
            r
        } else {
            None
        }
    }

    /// Drops every payload that waits to be read.
    pub fn clear_received_payloads(&mut self)
        ensures
            final(self).specific == old(self).specific,
            final(self)@ == old(self)@.cleared(),
    {
        self.recv_buffers.clear();
        assert(self@.buffers =~= empty_buffers());
    }

    /// Drops every payload that waits to be read, where the configuration says
    /// so.
    pub fn clear_stale_received_payloads(&mut self)
        ensures
            final(self).specific == old(self).specific,
            final(self)@ == if old(self)@.recv_channels_cfg.clear_stale_received_payloads {
                old(self)@.cleared()
            } else {
                old(self)@
            },
    {
        if self.recv_channels_cfg.clear_stale_received_payloads {
            self.clear_received_payloads();
        }
    }
}

} // verus!
