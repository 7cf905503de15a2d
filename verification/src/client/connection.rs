//! A connection to a server.

use bytes::Bytes;
use iroh::Endpoint;
use tokio::sync::{broadcast, mpsc};
use vstd::prelude::*;

use crate::client::error::{ClientPayloadSendError, ClientSendError, ConnectionClosed};
use crate::client::{ClientAsyncMessage, ClientConnectionCloseError, IrohConnectionError};
use crate::config::IrohClientConnectionConfig;
#[allow(unused_imports)]
use crate::config::IrohClientConnectionConfigView;
use crate::shared::channels::{
    ChannelAsyncMessage, ChannelConfig, ChannelId, ChannelSyncMessage, CloseReason,
    SendChannelsConfiguration,
};
use crate::shared::error::{AsyncChannelError, ChannelCloseError, ChannelCreationError};
#[allow(unused_imports)]
use crate::shared::error::ConnectionSendError;
#[allow(unused_imports)]
use crate::shared::payload::payload_bytes;
use crate::shared::peer_connection::{ChannelsIdsPool, PeerConnection};
#[allow(unused_imports)]
use crate::shared::channels::{links_for, Link};
#[allow(unused_imports)]
use crate::shared::laws::lemma_links_keep_ends;
#[allow(unused_imports)]
use crate::shared::peer_connection::{ChannelsIdsPoolView, ConnectionEnds, PeerConnectionView};
#[allow(unused_imports)]
use crate::shared::queues::{broadcast_halves, mpsc_halves, Answer, Batch};
use crate::shared::queues::{broadcast_queue, mpsc_queue, Inbox, RecvFailure};
use crate::shared::{
    ClientId, InternalConnectionRef, DEFAULT_INTERNAL_MESSAGES_CHANNEL_SIZE,
    DEFAULT_KILL_MESSAGE_QUEUE_SIZE, DEFAULT_MESSAGE_QUEUE_SIZE,
    DEFAULT_QCHANNEL_MESSAGES_CHANNEL_SIZE,
};

pub mod client_id;
pub mod connecting;
pub mod events;

verus! {

/// Id that a client gives to a connection.
pub type ConnectionLocalId = u64;

/// A connection just connected.
#[derive(Debug, Copy, Clone, PartialEq, Eq, Structural)]
pub struct ConnectionEvent {
    /// Id of the connection.
    pub id: ConnectionLocalId,
    /// Id that the server gave to this client, if it shares it.
    pub client_id: Option<ClientId>,
}

/// A connection failed to connect.
#[derive(Debug, PartialEq, Eq)]
pub struct ConnectionFailedEvent {
    /// Id of the connection.
    pub id: ConnectionLocalId,
    /// Why it failed.
    pub err: IrohConnectionError,
}

impl Clone for ConnectionFailedEvent {
    fn clone(&self) -> (r: Self)
        ensures
            r.id == self.id,
            r.err.copies(self.err),
    {
        ConnectionFailedEvent { id: self.id, err: self.err.clone() }
    }
}

/// A connection is lost.
#[derive(Debug, Copy, Clone, PartialEq, Eq, Structural)]
pub struct ConnectionLostEvent {
    /// Id of the connection.
    pub id: ConnectionLocalId,
}

/// State of a connection.
#[derive(Debug, PartialEq, Eq, Copy, Clone, Structural)]
pub enum ConnectionState {
    /// The connection is being established.
    Connecting,
    /// The connection is established.
    Connected,
    /// The connection is closed, lost, or could not be established.
    Disconnected,
}

/// State of a connection, with what is known while it is established.
#[derive(Debug)]
pub enum InternalConnectionState {
    /// The connection is being established.
    Connecting,
    /// The connection is established, and the server may have shared the id of
    /// this client.
    Connected(InternalConnectionRef, Option<ClientId>),
    /// The connection is closed, lost, or could not be established.
    Disconnected,
}

impl InternalConnectionState {
    /// The state, without what is known while the connection is established.
    pub open spec fn state(self) -> ConnectionState {
        match self {
            InternalConnectionState::Connecting => ConnectionState::Connecting,
            InternalConnectionState::Connected(_, _) => ConnectionState::Connected,
            InternalConnectionState::Disconnected => ConnectionState::Disconnected,
        }
    }
}

impl From<&InternalConnectionState> for ConnectionState {
    fn from(internal_conn: &InternalConnectionState) -> (r: Self) {
        match internal_conn {
            InternalConnectionState::Connecting => ConnectionState::Connecting,
            InternalConnectionState::Connected(_, _) => ConnectionState::Connected,
            InternalConnectionState::Disconnected => ConnectionState::Disconnected,
        }
    }
}

impl vstd::std_specs::convert::FromSpecImpl<&InternalConnectionState> for ConnectionState {
    open spec fn obeys_from_spec() -> bool {
        true
    }

    open spec fn from_spec(internal_conn: &InternalConnectionState) -> Self {
        internal_conn.state()
    }
}

/// The queues between the synchronous side and the async tasks of a connection:
/// payloads from the server, messages of the connection task, reports of the
/// channel tasks, requests for channels, and the order to close. Each sending half
/// stands before the receiving half of the same queue.
pub fn create_client_connection_async_channels() -> (r: (
    mpsc::Sender<(ChannelId, Bytes)>,
    mpsc::Receiver<(ChannelId, Bytes)>,
    mpsc::Sender<ClientAsyncMessage>,
    mpsc::Receiver<ClientAsyncMessage>,
    mpsc::Sender<ChannelAsyncMessage>,
    mpsc::Receiver<ChannelAsyncMessage>,
    mpsc::Sender<ChannelSyncMessage>,
    mpsc::Receiver<ChannelSyncMessage>,
    broadcast::Sender<CloseReason>,
    broadcast::Receiver<CloseReason>,
))
    ensures
        mpsc_halves(DEFAULT_MESSAGE_QUEUE_SIZE, r.0, r.1),
        mpsc_halves(DEFAULT_INTERNAL_MESSAGES_CHANNEL_SIZE, r.2, r.3),
        mpsc_halves(DEFAULT_INTERNAL_MESSAGES_CHANNEL_SIZE, r.4, r.5),
        mpsc_halves(DEFAULT_QCHANNEL_MESSAGES_CHANNEL_SIZE, r.6, r.7),
        broadcast_halves(DEFAULT_KILL_MESSAGE_QUEUE_SIZE, r.8, r.9),
{
    let (bytes_from_server_send, bytes_from_server_recv) = mpsc_queue::<(ChannelId, Bytes)>(
        DEFAULT_MESSAGE_QUEUE_SIZE,
    );
    let (to_sync_client_send, to_sync_client_recv) = mpsc_queue::<ClientAsyncMessage>(
        DEFAULT_INTERNAL_MESSAGES_CHANNEL_SIZE,
    );
    let (from_channels_send, from_channels_recv) = mpsc_queue::<ChannelAsyncMessage>(
        DEFAULT_INTERNAL_MESSAGES_CHANNEL_SIZE,
    );
    let (to_channels_send, to_channels_recv) = mpsc_queue::<ChannelSyncMessage>(
        DEFAULT_QCHANNEL_MESSAGES_CHANNEL_SIZE,
    );
    let (close_send, close_recv) = broadcast_queue::<CloseReason>(
        DEFAULT_KILL_MESSAGE_QUEUE_SIZE,
    );
    (
        bytes_from_server_send,
        bytes_from_server_recv,
        to_sync_client_send,
        to_sync_client_recv,
        from_channels_send,
        from_channels_recv,
        to_channels_send,
        to_channels_recv,
        close_send,
        close_recv,
    )
}

/// What the async task of a connection works with.
pub struct ConnectionTaskData {
    /// The endpoint to connect from.
    pub endpoint: Endpoint,
    /// Id of the connection.
    pub local_id: ConnectionLocalId,
    /// Whom to connect to.
    pub config: IrohClientConnectionConfig,
    /// Messages to the synchronous side.
    pub to_sync_client_send: mpsc::Sender<ClientAsyncMessage>,
    /// Payloads to the synchronous side.
    pub bytes_from_server_send: mpsc::Sender<(ChannelId, Bytes)>,
    /// Requests for channels.
    pub to_channels_recv: mpsc::Receiver<ChannelSyncMessage>,
    /// Reports of the channel tasks.
    pub from_channels_send: mpsc::Sender<ChannelAsyncMessage>,
    /// The order to close.
    pub close_recv: broadcast::Receiver<CloseReason>,
}

impl ConnectionTaskData {
    /// The task has the other halves of the queues of this connection.
    pub open spec fn serves(self, connection: PeerConnectionView<ClientConnectionView>) -> bool {
        &&& mpsc_halves(
            DEFAULT_MESSAGE_QUEUE_SIZE,
            self.bytes_from_server_send,
            connection.ends.bytes_from_peer_recv,
        )
        &&& mpsc_halves(
            DEFAULT_INTERNAL_MESSAGES_CHANNEL_SIZE,
            self.to_sync_client_send,
            connection.specific.messages_half,
        )
        &&& mpsc_halves(
            DEFAULT_INTERNAL_MESSAGES_CHANNEL_SIZE,
            self.from_channels_send,
            connection.ends.from_channels_recv,
        )
        &&& mpsc_halves(
            DEFAULT_QCHANNEL_MESSAGES_CHANNEL_SIZE,
            connection.ends.to_channels_send,
            self.to_channels_recv,
        )
        &&& broadcast_halves(
            DEFAULT_KILL_MESSAGE_QUEUE_SIZE,
            connection.ends.close_send,
            self.close_recv,
        )
    }
}

/// A connection to a server from the client's perspective.
pub type ClientSideConnection = PeerConnection<ClientConnection>;

/// What the client side of a connection amounts to.
#[verifier::ext_equal]
pub struct ClientConnectionView {
    /// Id of the connection.
    pub local_id: ConnectionLocalId,
    /// Whom it connects to.
    pub config: IrohClientConnectionConfigView,
    /// The channels to open each time it connects.
    pub channels_config: Seq<ChannelConfig>,
    /// The state.
    pub state: InternalConnectionState,
    /// The channel ids that are left, and the default channel.
    pub send_channel_ids: ChannelsIdsPoolView,
    /// Its half of the queue of messages of the async task.
    pub messages_half: mpsc::Receiver<ClientAsyncMessage>,
    /// What that queue answered, oldest first.
    pub messages: Seq<Result<ClientAsyncMessage, RecvFailure>>,
    /// The endpoint it connects from.
    pub endpoint: Endpoint,
}

/// Specific data for a client-side connection.
pub struct ClientConnection {
    /// Id of the connection.
    pub local_id: ConnectionLocalId,
    /// Whom it connects to.
    pub config: IrohClientConnectionConfig,
    /// The channels to open each time it connects.
    pub channels_config: SendChannelsConfiguration,
    /// The state.
    pub state: InternalConnectionState,
    /// Internal ordered pool of available channel ids.
    pub send_channel_ids: ChannelsIdsPool,
    /// Messages of the async task.
    pub from_async_client_recv: Inbox<ClientAsyncMessage>,
    /// The endpoint it connects from.
    pub endpoint: Endpoint,
}

impl View for ClientConnection {
    type V = ClientConnectionView;

    open spec fn view(&self) -> ClientConnectionView {
        ClientConnectionView {
            local_id: self.local_id,
            config: self.config@,
            channels_config: self.channels_config@,
            state: self.state,
            send_channel_ids: self.send_channel_ids@,
            messages_half: self.from_async_client_recv.half(),
            messages: self.from_async_client_recv.answers(),
            endpoint: self.endpoint,
        }
    }
}

impl ClientConnection {
    /// The client side of a connection that is being established.
    pub fn new(
        local_id: ConnectionLocalId,
        endpoint: Endpoint,
        config: IrohClientConnectionConfig,
        channels_config: SendChannelsConfiguration,
        from_async_client_recv: mpsc::Receiver<ClientAsyncMessage>,
    ) -> (r: Self)
        ensures
            r@ == (ClientConnectionView {
                local_id,
                config: config@,
                channels_config: channels_config@,
                state: InternalConnectionState::Connecting,
                send_channel_ids: ChannelsIdsPoolView::full(),
                messages_half: from_async_client_recv,
                messages: Seq::empty(),
                endpoint,
            }),
    {
        ClientConnection {
            local_id,
            config,
            channels_config,
            state: InternalConnectionState::Connecting,
            send_channel_ids: ChannelsIdsPool::new(),
            from_async_client_recv: Inbox::new(from_async_client_recv),
            endpoint,
        }
    }
}

/// These configs, each with its index as the id.
pub open spec fn numbered(configs: Seq<ChannelConfig>) -> Seq<(ChannelId, ChannelConfig)> {
    Seq::new(configs.len(), |i: int| (i as ChannelId, configs[i]))
}

/// The pool once the first `n` ids are taken.
pub open spec fn ids_after(n: nat) -> ChannelsIdsPoolView {
    ChannelsIdsPoolView {
        available: Set::new(|id: ChannelId| id as int >= n),
        default_channel: if n == 0 {
            None
        } else {
            Some(0)
        },
    }
}

/// `r` as the result of sending on a connection that is not disconnected.
pub open spec fn open_result(r: Result<(), ClientSendError>) -> Result<(), ConnectionSendError> {
    match r {
        Err(ClientSendError::ConnectionSendError(e)) => Err(e),
        _ => Ok(()),
    }
}

/// `r` as the result of sending on a channel that is known.
pub open spec fn default_result(r: Result<(), ClientPayloadSendError>) -> Result<
    (),
    ClientSendError,
> {
    match r {
        Err(ClientPayloadSendError::SendError(e)) => Err(e),
        _ => Ok(()),
    }
}

impl PeerConnectionView<ClientConnectionView> {
    /// The connection in another state.
    pub open spec fn with_state(self, state: InternalConnectionState) -> Self {
        PeerConnectionView {
            specific: ClientConnectionView { state, ..self.specific },
            ..self
        }
    }

    /// The connection with another pool of channel ids.
    pub open spec fn with_ids(self, send_channel_ids: ChannelsIdsPoolView) -> Self {
        PeerConnectionView {
            specific: ClientConnectionView { send_channel_ids, ..self.specific },
            ..self
        }
    }

    /// The connection once messages were taken from the async task.
    pub open spec fn with_messages(self, messages: Batch<ClientAsyncMessage>) -> Self {
        PeerConnectionView {
            specific: ClientConnectionView {
                messages: self.specific.messages + messages.answers(),
                ..self.specific
            },
            ..self
        }
    }

    /// `r` is what sending on a channel can result in: nothing can be sent on a
    /// connection that is disconnected.
    pub open spec fn client_send_possible(
        self,
        id: ChannelId,
        r: Result<(), ClientSendError>,
    ) -> bool {
        if self.specific.state is Disconnected {
            r == Err::<(), _>(ClientSendError::ConnectionClosed)
        } else {
            &&& r != Err::<(), _>(ClientSendError::ConnectionClosed)
            &&& self.send_possible(id, open_result(r))
        }
    }

    /// The connection once sending on a channel has resulted in `r`.
    pub open spec fn after_client_send(
        self,
        id: ChannelId,
        payload: Seq<u8>,
        r: Result<(), ClientSendError>,
    ) -> Self {
        if self.specific.state is Disconnected {
            self
        } else {
            self.after_send(id, payload, open_result(r))
        }
    }

    /// `self` is the connection once the next id was spent on a channel that the async
    /// tasks refused with `e`.
    pub open spec fn open_refused(
        self,
        pre: Self,
        config: ChannelConfig,
        e: AsyncChannelError,
    ) -> bool {
        exists|id: ChannelId| #[trigger]
            pre.specific.send_channel_ids.is_next(id) && self.refused(
                pre.with_ids(pre.specific.send_channel_ids.take(id)),
                id,
                config,
                e,
            )
    }

    /// `self` is the connection once the configured channels are open, on top of
    /// those that it has: the first has id zero and is the default channel, and
    /// each has the id that follows. The async tasks took a request for each, in
    /// order.
    pub open spec fn configured(self, pre: Self, configs: Seq<ChannelConfig>) -> bool {
        exists|links: Seq<Link>| #[trigger]
            links_for(links, numbered(configs)) && pre.took_each(links) && self == pre.link_each(
                links,
            ).with_ids(ids_after(configs.len()))
    }

    /// `self` is the connection once opening the configured channels resulted in
    /// `r`. It ends with the first channel that the async tasks refused, and fails
    /// as they did.
    pub open spec fn opened(
        self,
        pre: Self,
        configs: Seq<ChannelConfig>,
        r: Result<(), AsyncChannelError>,
    ) -> bool {
        match r {
            Ok(()) => self.configured(pre, configs),
            Err(e) => exists|n: int, mid: Self, request: ChannelSyncMessage|
                {
                    &&& 0 <= n < configs.len()
                    &&& #[trigger] mid.configured(pre, configs.take(n))
                    &&& #[trigger] pre.turned_down(request, n as ChannelId, configs[n], e)
                    &&& self == mid.ask(request, Answer::Refused(e))
                },
        }
    }

    /// The connection as it is when it starts to connect: without channels, and
    /// with fresh queues.
    pub open spec fn restarted(
        self,
        ends: ConnectionEnds,
        messages_half: mpsc::Receiver<ClientAsyncMessage>,
    ) -> Self {
        PeerConnectionView::unused(
            ClientConnectionView {
                state: InternalConnectionState::Connecting,
                send_channel_ids: ChannelsIdsPoolView::full(),
                messages_half,
                messages: Seq::empty(),
                ..self.specific
            },
            ends,
            self.recv_channels_cfg,
        )
    }

    /// The connection was disconnected for `reason`; its tasks were ordered to close
    /// it, and have `heard` it or not. Of one that was disconnected before, nothing is
    /// asked.
    pub open spec fn was_disconnected(self, reason: CloseReason, heard: bool) -> bool {
        if self.specific.state is Disconnected {
            heard
        } else {
            self.was_told(reason, heard)
        }
    }

    /// `self` is the connection once it was disconnected for `reason`; its tasks
    /// have `heard` it or not. A connection that is disconnected stays as it is.
    pub open spec fn disconnected(self, pre: Self, reason: CloseReason, heard: bool) -> bool {
        &&& pre.was_disconnected(reason, heard)
        &&& self == if pre.specific.state is Disconnected {
            pre
        } else {
            pre.with_state(InternalConnectionState::Disconnected).told_to_close(reason, heard)
        }
    }
}

/// The links of the first configured channels, with one more.
proof fn lemma_one_more_link(links: Seq<Link>, configs: Seq<ChannelConfig>, i: int, link: Link)
    requires
        0 <= i < configs.len() <= 256,
        links_for(links, numbered(configs.take(i))),
        link.made_for(i as ChannelId, configs[i]),
    ensures
        links_for(links.push(link), numbered(configs.take(i + 1))),
{
    let longer = links.push(link);
    let entries = numbered(configs.take(i + 1));
    assert forall|j: int| 0 <= j < longer.len() implies (#[trigger] longer[j]).made_for(
        entries[j].0,
        entries[j].1,
    ) by {
        if j < i {
            assert(longer[j] == links[j]);
            assert(numbered(configs.take(i))[j] == entries[j]);
        }
    }
}

/// Opening the configured channels keeps the halves of the queues that a
/// connection has.
pub(crate) proof fn lemma_opening_keeps_ends(
    post: PeerConnectionView<ClientConnectionView>,
    pre: PeerConnectionView<ClientConnectionView>,
    configs: Seq<ChannelConfig>,
    r: Result<(), AsyncChannelError>,
)
    requires
        post.opened(pre, configs, r),
    ensures
        post.ends == pre.ends,
        post.specific == (ClientConnectionView {
            send_channel_ids: post.specific.send_channel_ids,
            ..pre.specific
        }),
{
    match r {
        Ok(()) => {
            let links = choose|links: Seq<Link>| #[trigger]
                links_for(links, numbered(configs)) && pre.took_each(links) && post
                    == pre.link_each(links).with_ids(ids_after(configs.len()));
            lemma_links_keep_ends(pre, links);
        },
        Err(e) => {
            let (n, mid, request) = choose|
                n: int,
                mid: PeerConnectionView<ClientConnectionView>,
                request: ChannelSyncMessage,
            |
                {
                    &&& 0 <= n < configs.len()
                    &&& #[trigger] mid.configured(pre, configs.take(n))
                    &&& #[trigger] pre.turned_down(request, n as ChannelId, configs[n], e)
                    &&& post == mid.ask(request, Answer::Refused(e))
                };
            let links = choose|links: Seq<Link>| #[trigger]
                links_for(links, numbered(configs.take(n))) && pre.took_each(links) && mid
                    == pre.link_each(links).with_ids(ids_after(configs.take(n).len()));
            lemma_links_keep_ends(pre, links);
        },
    }
}

impl PeerConnection<ClientConnection> {
    /// Sends a payload on a channel.
    pub fn send_payload_on(&mut self, channel_id: ChannelId, payload: Bytes) -> (r: Result<
        (),
        ClientSendError,
    >)
        ensures
            old(self)@.client_send_possible(channel_id, r),
            final(self)@ == old(self)@.after_client_send(channel_id, payload_bytes(payload), r),
    {
        match &self.specific.state {
            InternalConnectionState::Disconnected => Err(ClientSendError::ConnectionClosed),
            _ => match self.internal_send_payload(channel_id, payload) {
                Ok(()) => Ok(()),
                Err(e) => Err(ClientSendError::ConnectionSendError(e)),
            },
        }
    }

    /// [`Self::send_payload`], whatever comes of it.
    pub fn try_send_payload(&mut self, payload: Bytes)
        ensures
            match old(self)@.specific.send_channel_ids.default_channel {
                Some(channel) => exists|r: Result<(), ClientSendError>| #[trigger]
                    old(self)@.client_send_possible(channel, r) && final(self)@ == old(
                        self,
                    )@.after_client_send(channel, payload_bytes(payload), r),
                None => final(self)@ == old(self)@,
            },
    {
        let _ = self.send_payload(payload);
    }

    /// [`Self::send_payload_on`], whatever comes of it.
    pub fn try_send_payload_on(&mut self, channel_id: ChannelId, payload: Bytes)
        ensures
            exists|r: Result<(), ClientSendError>| #[trigger]
                old(self)@.client_send_possible(channel_id, r) && final(self)@ == old(
                    self,
                )@.after_client_send(channel_id, payload_bytes(payload), r),
    {
        let _ = self.send_payload_on(channel_id, payload);
    }

    /// Sends a payload on the default channel.
    pub fn send_payload(&mut self, payload: Bytes) -> (r: Result<(), ClientPayloadSendError>)
        ensures
            match old(self)@.specific.send_channel_ids.default_channel {
                Some(channel) => {
                    &&& r != Err::<(), _>(ClientPayloadSendError::NoDefaultChannel)
                    &&& old(self)@.client_send_possible(channel, default_result(r))
                    &&& final(self)@ == old(self)@.after_client_send(
                        channel,
                        payload_bytes(payload),
                        default_result(r),
                    )
                },
                None => {
                    &&& r == Err::<(), _>(ClientPayloadSendError::NoDefaultChannel)
                    &&& final(self)@ == old(self)@
                },
            },
    {
        match self.specific.send_channel_ids.default_channel() {
            Some(channel) => match self.send_payload_on(channel, payload) {
                Ok(()) => Ok(()),
                Err(e) => Err(ClientPayloadSendError::SendError(e)),
            },
            None => Err(ClientPayloadSendError::NoDefaultChannel),
        }
    }

    /// Opens a channel. Its id is spent even where the async tasks refuse the
    /// request for the channel.
    pub fn open_channel(&mut self, channel_config: ChannelConfig) -> (r: Result<
        ChannelId,
        ChannelCreationError,
    >)
        ensures
            match r {
                Ok(id) => {
                    &&& old(self)@.specific.send_channel_ids.is_next(id)
                    &&& exists|link: Link| #[trigger]
                        link.made_for(id, channel_config) && old(self)@.took(link.request)
                            && final(self)@ == old(self)@.with_ids(
                            old(self)@.specific.send_channel_ids.take(id),
                        ).link(link)
                },
                Err(ChannelCreationError::MaxChannelsCountReached) => {
                    &&& old(self)@.specific.send_channel_ids.available == Set::<ChannelId>::empty()
                    &&& final(self)@ == old(self)@
                },
                Err(ChannelCreationError::AsyncChannelError(e)) => final(self)@.open_refused(
                    old(self)@,
                    channel_config,
                    e,
                ),
            },
    {
        match self.specific.send_channel_ids.take_id() {
            Ok(channel_id) => {
                assert(self@ =~= old(self)@.with_ids(
                    old(self)@.specific.send_channel_ids.take(channel_id),
                ));
                match self.create_connection_channel(channel_id, channel_config) {
                    Ok(()) => Ok(channel_id),
                    Err(e) => Err(ChannelCreationError::AsyncChannelError(e)),
                }
            },
            Err(e) => {
                assert(self@ =~= old(self)@);
                Err(e)
            },
        }
    }

    /// Closes a channel. Its id can be taken again once its task was told.
    pub fn close_channel(&mut self, channel_id: ChannelId) -> (r: Result<(), ChannelCloseError>)
        ensures
            old(self)@.close_possible(channel_id, r),
            match r {
                Ok(()) => {
                    &&& old(self)@.channels.contains_key(channel_id)
                    &&& final(self)@ == old(self)@.unregister(channel_id).with_ids(
                        old(self)@.specific.send_channel_ids.release(channel_id),
                    )
                },
                Err(ChannelCloseError::InvalidChannelId(bad)) => {
                    &&& bad == channel_id
                    &&& !old(self)@.channels.contains_key(channel_id)
                    &&& final(self)@ == old(self)@
                },
                Err(ChannelCloseError::AsyncChannelError(_)) => {
                    &&& old(self)@.channels.contains_key(channel_id)
                    &&& final(self)@ == old(self)@.unregister(channel_id)
                },
            },
    {
        match self.internal_close_channel(channel_id) {
            Ok(()) => {
                self.specific.send_channel_ids.release_id(channel_id);
                assert(self@ =~= old(self)@.unregister(channel_id).with_ids(
                    old(self)@.specific.send_channel_ids.release(channel_id),
                ));
                Ok(())
            },
            Err(e) => {
                assert(!old(self)@.channels.contains_key(channel_id) ==> self@ =~= old(self)@);
                Err(e)
            },
        }
    }

    /// Opens the configured channels on a connection that has not opened any.
    pub fn open_configured_channels(&mut self, channel_configs: SendChannelsConfiguration) -> (r:
        Result<(), AsyncChannelError>)
        requires
            old(self)@.specific.send_channel_ids == ChannelsIdsPoolView::full(),
        ensures
            final(self)@.opened(old(self)@, channel_configs@, r),
    {
        let configs = channel_configs.configs();
        let ghost mut links: Seq<Link> = Seq::empty();
        let mut i: usize = 0;
        assert(ids_after(0) =~= ChannelsIdsPoolView::full());
        assert(self@ =~= old(self)@.link_each(links).with_ids(ids_after(0)));
        while i < configs.len()
            invariant
                i <= configs@.len() <= 256,
                configs@ == channel_configs@,
                links_for(links, numbered(configs@.take(i as int))),
                old(self)@.took_each(links),
                self@ == old(self)@.link_each(links).with_ids(ids_after(i as nat)),
            decreases configs@.len() - i,
        {
            let ghost before = self@;
            let ghost ids = before.specific.send_channel_ids;
            assert(ids.available.contains(i as ChannelId));
            assert(before.configured(old(self)@, configs@.take(i as int)));
            proof {
                lemma_links_keep_ends(old(self)@, links);
            }
            match self.specific.send_channel_ids.take_id() {
                Ok(channel_id) => {
                    assert(channel_id as int == i);
                    assert(ids.take(channel_id) =~= ids_after((i + 1) as nat));
                    let ghost taken = self@;
                    assert(taken =~= before.with_ids(ids.take(channel_id)));
                    match self.create_unregistered_connection_channel(channel_id, configs[i]) {
                        Ok(channel) => {
                            let ghost request = choose|request: ChannelSyncMessage|
                                (Link { request, channel: channel@ }).made_for(
                                    channel_id,
                                    configs@[i as int],
                                ) && taken.took(request) && self@ == #[trigger] taken.ask(
                                    request,
                                    Answer::Taken,
                                );
                            let ghost link = Link { request, channel: channel@ };
                            self.register_connection_channel(channel);
                            proof {
                                let shorter = links;
                                links = shorter.push(link);
                                assert(links.drop_last() =~= shorter);
                                assert(old(self)@.took(link.request));
                                lemma_one_more_link(shorter, configs@, i as int, link);
                                assert(self@ =~= old(self)@.link_each(links).with_ids(
                                    ids_after((i + 1) as nat),
                                ));
                            }
                        },
                        Err(e) => {
                            let ghost request = choose|request: ChannelSyncMessage|
                                taken.turned_down(request, channel_id, configs@[i as int], e)
                                    && self@ == #[trigger] taken.ask(request, Answer::Refused(e));
                            self.specific.send_channel_ids.release_id(channel_id);
                            assert(ids.take(channel_id).release(channel_id) =~= ids);
                            assert(self@ =~= before.ask(request, Answer::Refused(e)));
                            assert(old(self)@.turned_down(
                                request,
                                i as ChannelId,
                                configs@[i as int],
                                e,
                            ));
                            return Err(e);
                        },
                    }
                },
                Err(_) => {
                    assert(false);
                },
            }
            i = i + 1;
        }
        assert(configs@.take(i as int) =~= configs@);
        Ok(())
    }

    /// Disconnects, unless the connection is disconnected.
    fn internal_disconnect(&mut self, reason: CloseReason) -> (r: Result<
        (),
        ClientConnectionCloseError,
    >)
        ensures
            final(self)@.disconnected(old(self)@, reason, r is Ok),
            r matches Err(e) ==> e is ConnectionAlreadyClosed,
    {
        match &self.specific.state {
            InternalConnectionState::Disconnected => Ok(()),
            _ => {
                self.specific.state = InternalConnectionState::Disconnected;
                assert(self@ =~= old(self)@.with_state(InternalConnectionState::Disconnected));
                match self.close(reason) {
                    Ok(()) => Ok(()),
                    Err(e) => Err(ClientConnectionCloseError::ConnectionAlreadyClosed(e)),
                }
            },
        }
    }

    /// Connects again, if the connection is disconnected. Returns what the async
    /// task works with that has to be started then.
    pub fn reconnect(&mut self) -> (r: Result<Option<ConnectionTaskData>, AsyncChannelError>)
        ensures
            if old(self)@.specific.state is Disconnected {
                &&& final(self)@.opened(
                    old(self)@.restarted(final(self)@.ends, final(self)@.specific.messages_half),
                    old(self)@.specific.channels_config,
                    match r {
                        Ok(_) => Ok(()),
                        Err(e) => Err(e),
                    },
                )
                &&& r is Err ==> exists|task: ConnectionTaskData| #[trigger]
                    task.serves(final(self)@)
                &&& r matches Ok(task) ==> task is Some && task->0.local_id == old(
                    self,
                )@.specific.local_id && task->0.endpoint == old(self)@.specific.endpoint
                    && task->0.config@ == old(self)@.specific.config && task->0.serves(final(self)@)
            } else {
                &&& r matches Ok(task) && task is None
                &&& final(self)@ == old(self)@
            },
    {
        match self.internal_state() {
            InternalConnectionState::Disconnected => {},
            _ => {
                return Ok(None);
            },
        }
        let (
            bytes_from_server_send,
            bytes_from_server_recv,
            to_sync_client_send,
            to_sync_client_recv,
            from_channels_send,
            from_channels_recv,
            to_channels_send,
            to_channels_recv,
            close_send,
            close_recv,
        ) = create_client_connection_async_channels();
        self.set_state(InternalConnectionState::Connecting);
        self.specific.send_channel_ids = ChannelsIdsPool::new();
        self.specific.from_async_client_recv = Inbox::new(to_sync_client_recv);
        let channels_config = self.specific.channels_config.clone();
        let channels_count: usize = channels_config.configs().len();
        self.internal_reset(
            close_send,
            to_channels_send,
            from_channels_recv,
            bytes_from_server_recv,
            channels_count,
        );
        let ghost restarted = self@;
        assert(restarted =~= old(self)@.restarted(
            restarted.ends,
            restarted.specific.messages_half,
        ));
        let outcome = self.open_configured_channels(channels_config);
        proof {
            lemma_opening_keeps_ends(
                self@,
                restarted,
                old(self)@.specific.channels_config,
                outcome,
            );
        }
        match outcome {
            Ok(()) => {},
            Err(e) => {
                let ghost task = ConnectionTaskData {
                    endpoint: self.specific.endpoint,
                    local_id: self.specific.local_id,
                    config: self.specific.config,
                    to_sync_client_send,
                    bytes_from_server_send,
                    to_channels_recv,
                    from_channels_send,
                    close_recv,
                };
                assert(task.serves(self@));
                return Err(e);
            },
        }
        let local_id: ConnectionLocalId = self.specific.local_id;
        let endpoint = self.specific.endpoint.clone();
        let config = self.specific.config.clone();
        Ok(
            Some(
                ConnectionTaskData {
                    endpoint,
                    local_id,
                    config,
                    to_sync_client_send,
                    bytes_from_server_send,
                    to_channels_recv,
                    from_channels_send,
                    close_recv,
                },
            ),
        )
    }

    /// Disconnects, unless the connection is disconnected.
    pub fn disconnect(&mut self) -> (r: Result<(), ClientConnectionCloseError>)
        ensures
            final(self)@.disconnected(old(self)@, CloseReason::LocalOrder, r is Ok),
            r matches Err(e) ==> e is ConnectionAlreadyClosed,
    {
        self.internal_disconnect(CloseReason::LocalOrder)
    }

    /// [`Self::disconnect`], whatever comes of it.
    pub fn try_disconnect(&mut self)
        ensures
            exists|heard: bool| #[trigger]
                final(self)@.disconnected(old(self)@, CloseReason::LocalOrder, heard),
    {
        let _ = self.disconnect();
    }

    /// Disconnects a connection that the peer has closed.
    pub fn try_disconnect_closed_connection(&mut self)
        ensures
            exists|heard: bool| #[trigger]
                final(self)@.disconnected(old(self)@, CloseReason::PeerClosed, heard),
    {
        let _ = self.internal_disconnect(CloseReason::PeerClosed);
    }

    /// Asks for the next message of the async task, once, and returns the answer of
    /// its queue.
    pub fn try_recv_from_async(&mut self) -> (r: Result<ClientAsyncMessage, RecvFailure>)
        ensures
            final(self)@ == (PeerConnectionView {
                specific: ClientConnectionView {
                    messages: old(self)@.specific.messages.push(r),
                    ..old(self)@.specific
                },
                ..old(self)@
            }),
    {
        self.specific.from_async_client_recv.try_recv()
    }

    /// Takes messages of the async task until its queue has none to give.
    pub fn drain_async_messages(&mut self) -> (r: Vec<ClientAsyncMessage>)
        ensures
            exists|messages: Batch<ClientAsyncMessage>| #[trigger]
                messages.complete(usize::MAX) && messages.messages == r@ && final(self)@ == old(
                    self,
                )@.with_messages(messages),
    {
        let r = self.specific.from_async_client_recv.drain(usize::MAX);
        proof {
            let batch = choose|batch: Batch<ClientAsyncMessage>| #[trigger]
                batch.complete(usize::MAX) && batch.messages == r@
                    && self.specific.from_async_client_recv.answers() == old(
                    self,
                ).specific.from_async_client_recv.answers() + batch.answers();
            assert(self@ =~= old(self)@.with_messages(batch));
        }
        r
    }

    /// Changes the state.
    pub fn set_state(&mut self, state: InternalConnectionState)
        ensures
            final(self)@ == old(self)@.with_state(state),
    {
        self.specific.state = state;
        assert(self@ =~= old(self)@.with_state(state));
    }

    /// The state, with what is known while the connection is established.
    pub fn internal_state(&self) -> (r: &InternalConnectionState)
        ensures
            *r == self@.specific.state,
    {
        &self.specific.state
    }

    /// The state.
    pub fn state(&self) -> (r: ConnectionState)
        ensures
            r == self@.specific.state.state(),
    {
        ConnectionState::from(&self.specific.state)
    }

    /// The id that the server gave to this client, while the connection is
    /// established and if the server has shared it.
    pub fn client_id(&self) -> (r: Option<ClientId>)
        ensures
            r == match self@.specific.state {
                InternalConnectionState::Connected(_, client_id) => client_id,
                _ => None,
            },
    {
        match self.internal_state() {
            InternalConnectionState::Connected(_, client_id) => *client_id,
            _ => None,
        }
    }

    /// The established connection, by which its statistics are found.
    pub fn connection_ref(&self) -> (r: Option<InternalConnectionRef>)
        ensures
            r == match self@.specific.state {
                InternalConnectionState::Connected(connection, _) => Some(connection),
                _ => None,
            },
    {
        match self.internal_state() {
            InternalConnectionState::Connected(connection, _) => Some(*connection),
            _ => None,
        }
    }

    /// Makes a channel the default channel.
    pub fn set_default_channel(&mut self, channel_id: ChannelId)
        ensures
            final(self)@ == old(self)@.with_ids(
                ChannelsIdsPoolView {
                    default_channel: Some(channel_id),
                    ..old(self)@.specific.send_channel_ids
                },
            ),
    {
        self.specific.send_channel_ids.set_default_channel(channel_id);
        assert(self@ =~= old(self)@.with_ids(
            ChannelsIdsPoolView {
                default_channel: Some(channel_id),
                ..old(self)@.specific.send_channel_ids
            },
        ));
    }

    /// The default channel.
    pub fn default_channel(&self) -> (r: Option<ChannelId>)
        ensures
            r == self@.specific.send_channel_ids.default_channel,
    {
        self.specific.send_channel_ids.default_channel()
    }

    /// The channels to open each time the connection connects.
    pub fn channels_config(&self) -> (r: &SendChannelsConfiguration)
        ensures
            r@ == self@.specific.channels_config,
    {
        &self.specific.channels_config
    }

    /// Whom the connection connects to.
    pub fn client_config(&self) -> (r: &IrohClientConnectionConfig)
        ensures
            r@ == self@.specific.config,
    {
        &self.specific.config
    }

    /// Reads the payload that has waited longest on a channel.
    pub fn receive_payload(&mut self, channel_id: ChannelId) -> (r: Result<
        Option<Bytes>,
        ConnectionClosed,
    >)
        ensures
            if old(self)@.specific.state is Disconnected {
                r is Err && final(self)@ == old(self)@
            } else {
                &&& r is Ok
                &&& old(self)@.buffers[channel_id].len() == 0 ==> r->Ok_0 is None && final(self)@
                    == old(self)@
                &&& old(self)@.buffers[channel_id].len() > 0 ==> r->Ok_0 is Some && payload_bytes(
                    r->Ok_0->0,
                ) == old(self)@.buffers[channel_id].first() && final(self)@ == old(self)@.read(
                    channel_id,
                )
            },
    {
        match self.internal_state() {
            InternalConnectionState::Disconnected => Err(ConnectionClosed),
            _ => Ok(self.internal_receive_payload(channel_id)),
        }
    }

    /// [`Self::receive_payload`]; `None` on a connection that is disconnected.
    pub fn try_receive_payload(&mut self, channel_id: ChannelId) -> (r: Option<Bytes>)
        ensures
            if old(self)@.specific.state is Disconnected || old(self)@.buffers[channel_id].len()
                == 0 {
                r is None && final(self)@ == old(self)@
            } else {
                &&& r is Some
                &&& payload_bytes(r->0) == old(self)@.buffers[channel_id].first()
                &&& final(self)@ == old(self)@.read(channel_id)
            },
    {
        match self.receive_payload(channel_id) {
            Ok(payload) => payload,
            Err(_) => None,
        }
    }
}

} // verus!
