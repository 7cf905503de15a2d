//! Server features.

use bytes::Bytes;
use iroh::endpoint::BindError;
use iroh::{Endpoint, EndpointId};
use tokio::sync::{broadcast, mpsc};
use vstd::prelude::*;

use crate::server::connection::ServerConnection;
#[allow(unused_imports)]
use crate::server::connection::ServerConnectionView;
#[allow(unused_imports)]
use crate::server::endpoint::channels::law_open_without_clients;
#[allow(unused_imports)]
use crate::server::endpoint::events::{connected, lost};
use crate::server::endpoint::ServerEndpoint;
#[allow(unused_imports)]
use crate::server::endpoint::{EndpointStats, ServerEndpointView};
#[allow(unused_imports)]
use crate::server::error::bind_error_text;
#[allow(unused_imports)]
use crate::shared::channels::ChannelConfig;
use crate::shared::channels::{
    ChannelAsyncMessage, ChannelId, ChannelSyncMessage, CloseReason, SendChannelsConfiguration,
};
#[allow(unused_imports)]
use crate::shared::error::ChannelCreationError;
use crate::shared::error::RecvChannelErrorEvent;
#[allow(unused_imports)]
use crate::shared::identity;
#[allow(unused_imports)]
use crate::shared::peer_connection::{
    ChannelsIdsPoolView, ConnectionEnds, PeerConnectionView,
};
use crate::shared::peer_connection::{PeerConnection, RecvChannelsConfiguration};
#[allow(unused_imports)]
use crate::shared::queues::{broadcast_halves, mpsc_halves};
use crate::shared::queues::{broadcast_queue, mpsc_queue};
use crate::shared::{
    endpoint_id, ClientId, InternalConnectionRef, DEFAULT_INTERNAL_MESSAGES_CHANNEL_SIZE,
    DEFAULT_KILL_MESSAGE_QUEUE_SIZE, DEFAULT_MESSAGE_QUEUE_SIZE,
    DEFAULT_QCHANNEL_MESSAGES_CHANNEL_SIZE,
};

pub mod calls;
pub mod connection;
pub mod endpoint;
pub mod error;
pub mod laws;
pub mod life;
pub mod maps;
pub mod messages;

pub use crate::server::error::{
    EndpointAlreadyClosed, EndpointStartError, ServerDisconnectError, ServerGroupPayloadSendError,
    ServerGroupSendError, ServerPayloadSendError, ServerReceiveError, ServerSendError,
};

verus! {

/// Connection event raised when a client just connected to the server.
#[derive(Debug, Copy, Clone, PartialEq, Eq, Structural)]
pub struct ConnectionEvent {
    /// Id of the client who connected.
    pub id: ClientId,
}

/// ConnectionLost event raised when a client is considered disconnected from the server.
#[derive(Debug, Copy, Clone, PartialEq, Eq, Structural)]
pub struct ConnectionLostEvent {
    /// Id of the client who lost connection.
    pub id: ClientId,
}

/// A receive error on the connection of a client.
pub type ServerRecvChannelError = RecvChannelErrorEvent<ClientId>;

/// What the async tasks of the server report.
pub enum ServerAsyncMessage {
    /// A client has connected.
    ClientConnected(PeerConnection<ServerConnection>),
    /// The connection of a client is closed.
    ClientConnectionClosed(ClientId),
}

/// What the server tells the async task of a connection.
#[derive(Debug, Copy, Clone, PartialEq, Eq, Structural)]
pub enum ServerSyncMessage {
    /// The client is accepted under this id.
    ClientConnectedAck(ClientId),
}

/// What the async task that accepts connections works with.
pub struct EndpointTaskData {
    /// The endpoint to accept connections on.
    pub endpoint: Endpoint,
    /// Messages to the synchronous side.
    pub to_sync_endpoint_send: mpsc::Sender<ServerAsyncMessage>,
    /// The order to stop.
    pub endpoint_close_recv: broadcast::Receiver<()>,
    /// How received payloads are kept.
    pub recv_channels_cfg: RecvChannelsConfiguration,
}

impl EndpointTaskData {
    /// The task has the other halves of the queues of this endpoint.
    pub open spec fn serves(self, endpoint: ServerEndpointView) -> bool {
        &&& mpsc_halves(
            DEFAULT_INTERNAL_MESSAGES_CHANNEL_SIZE,
            self.to_sync_endpoint_send,
            endpoint.messages_half,
        )
        &&& broadcast_halves(
            DEFAULT_KILL_MESSAGE_QUEUE_SIZE,
            endpoint.close_half,
            self.endpoint_close_recv,
        )
    }
}

/// Main iroh server. Can manage connections from multiple iroh clients.
pub struct IrohServer {
    /// The endpoint, while the server listens.
    pub endpoint: Option<ServerEndpoint>,
}

/// A fresh endpoint with the configured channels: the first has id zero and is
/// the default channel, and each has the id that follows.
pub open spec fn started(
    raw: Endpoint,
    configs: Seq<ChannelConfig>,
    close_half: broadcast::Sender<()>,
    messages_half: mpsc::Receiver<ServerAsyncMessage>,
    recv_channels_cfg: RecvChannelsConfiguration,
) -> ServerEndpointView {
    ServerEndpointView {
        clients: Map::empty(),
        raw,
        client_id_gen: 0,
        opened_channels: Map::new(
            |id: ChannelId| (id as int) < configs.len(),
            |id: ChannelId| configs[id as int],
        ),
        send_channel_ids: ChannelsIdsPoolView {
            available: Set::new(|id: ChannelId| id as int >= configs.len()),
            default_channel: if configs.len() == 0 {
                None
            } else {
                Some(0)
            },
        },
        close_half,
        shutdowns: Seq::empty(),
        messages_half,
        messages: Seq::empty(),
        stats: EndpointStats { connect_count: 0, disconnect_count: 0 },
        recv_channels_cfg,
    }
}

impl IrohServer {
    /// A server that does not listen.
    pub fn new() -> (r: Self)
        ensures
            r.endpoint is None,
    {
        IrohServer { endpoint: None }
    }

    /// Returns a reference to the server's endpoint.
    pub fn endpoint(&self) -> (r: &ServerEndpoint)
        requires
            self.endpoint is Some,
        ensures
            *r == self.endpoint->0,
    {
        self.endpoint.as_ref().unwrap()
    }

    /// Returns a mutable reference to the server's endpoint.
    pub fn endpoint_mut(&mut self) -> (r: &mut ServerEndpoint)
        requires
            old(self).endpoint is Some,
        ensures
            *r == old(self).endpoint->0,
            final(self).endpoint == Some(*final(r)),
    {
        self.endpoint.as_mut().unwrap()
    }

    /// Returns an optional reference to the server's endpoint.
    pub fn get_endpoint(&self) -> (r: Option<&ServerEndpoint>)
        ensures
            r is Some <==> self.endpoint is Some,
            r matches Some(endpoint) ==> *endpoint == self.endpoint->0,
    {
        self.endpoint.as_ref()
    }

    /// Returns an optional mutable reference to the server's endpoint.
    pub fn get_endpoint_mut(&mut self) -> (r: Option<&mut ServerEndpoint>)
        ensures
            r is Some <==> old(self).endpoint is Some,
            match r {
                Some(endpoint) => {
                    &&& *endpoint == old(self).endpoint->0
                    &&& final(self).endpoint == Some(*final(endpoint))
                },
                None => final(self).endpoint is None,
            },
    {
        self.endpoint.as_mut()
    }

    /// Starts a new endpoint from what binding resulted in: an iroh endpoint, or
    /// why there is none. A previous endpoint is dropped.
    ///
    /// Returns the id of this server (its public key), and what the async task
    /// works with that accepts connections.
    pub fn start_endpoint(
        &mut self,
        bound: Result<Endpoint, BindError>,
        send_channels_cfg: SendChannelsConfiguration,
        recv_channels_cfg: RecvChannelsConfiguration,
    ) -> (r: Result<(EndpointId, EndpointTaskData), EndpointStartError>)
        ensures
            match bound {
                Ok(raw) => {
                    &&& final(self).endpoint is Some
                    &&& final(self).endpoint->0@ == started(
                        raw,
                        send_channels_cfg@,
                        final(self).endpoint->0@.close_half,
                        final(self).endpoint->0@.messages_half,
                        recv_channels_cfg,
                    )
                    &&& final(self).endpoint->0@.sound()
                    &&& r matches Ok((id, task)) && id == identity(raw) && task.endpoint == raw
                        && task.recv_channels_cfg == recv_channels_cfg && task.serves(
                        final(self).endpoint->0@,
                    )
                },
                Err(why) => {
                    &&& r matches Err(e) && e.unbound(bind_error_text(why))
                    &&& final(self).endpoint == old(self).endpoint
                },
            },
    {
        let endpoint = match bound {
            Ok(endpoint) => endpoint,
            Err(why) => {
                return Err(EndpointStartError::from(why));
            },
        };
        let id = endpoint_id(&endpoint);
        let (to_sync_endpoint_send, from_async_endpoint_recv) = mpsc_queue::<ServerAsyncMessage>(
            DEFAULT_INTERNAL_MESSAGES_CHANNEL_SIZE,
        );
        let (endpoint_close_send, endpoint_close_recv) = broadcast_queue::<()>(
            DEFAULT_KILL_MESSAGE_QUEUE_SIZE,
        );
        let task = EndpointTaskData {
            endpoint: endpoint.clone(),
            to_sync_endpoint_send,
            endpoint_close_recv,
            recv_channels_cfg,
        };
        let ghost raw = endpoint;
        let ghost close_half = endpoint_close_send;
        let ghost messages_half = from_async_endpoint_recv;
        let mut server_endpoint = ServerEndpoint::new(
            endpoint,
            endpoint_close_send,
            from_async_endpoint_recv,
            recv_channels_cfg,
        );
        let configs = send_channels_cfg.configs();
        let mut i: usize = 0;
        assert(server_endpoint@ =~= started(
            raw,
            configs@.take(0),
            close_half,
            messages_half,
            recv_channels_cfg,
        ));
        while i < configs.len()
            invariant
                i <= configs@.len() <= 256,
                server_endpoint@ == started(
                    raw,
                    configs@.take(i as int),
                    close_half,
                    messages_half,
                    recv_channels_cfg,
                ),
                server_endpoint@.sound(),
            decreases configs@.len() - i,
        {
            let ghost before = server_endpoint@;
            assert(before.send_channel_ids.available.contains(i as ChannelId));
            let opened = server_endpoint.unchecked_open_channel(configs[i]);
            proof {
                assert(before.clients.dom() =~= Set::<ClientId>::empty());
                law_open_without_clients(
                    before,
                    server_endpoint@,
                    configs@[i as int],
                    match opened {
                        Ok(id) => Ok(id),
                        Err(e) => Err(ChannelCreationError::AsyncChannelError(e)),
                    },
                );
            }
            match opened {
                Ok(id) => {
                    proof {
                        assert(id as int == i);
                        assert(server_endpoint@ =~= started(
                            raw,
                            configs@.take(i + 1),
                            close_half,
                            messages_half,
                            recv_channels_cfg,
                        ));
                    }
                },
                Err(e) => {
                    return Err(EndpointStartError::AsyncChannelError(e));
                },
            }
            i = i + 1;
        }
        assert(configs@.take(i as int) =~= configs@);
        self.endpoint = Some(server_endpoint);
        Ok((id, task))
    }

    /// Closes the endpoint and all the connections associated with it: every client
    /// is ordered to close, and the task that accepts connections is ordered to stop.
    ///
    /// Returns [`EndpointAlreadyClosed`] if the endpoint is already closed: the
    /// server has none, or the task that accepted its connections is gone.
    pub fn stop_endpoint(&mut self) -> (r: Result<(), EndpointAlreadyClosed>)
        requires
            old(self).endpoint matches Some(endpoint) ==> endpoint@.wf(),
        ensures
            final(self).endpoint is None,
            match old(self).endpoint {
                Some(pre) => pre@.all_told() && pre@.accepting_stopped(r is Ok),
                None => r is Err,
            },
    {
        match self.endpoint.take() {
            Some(mut endpoint) => {
                endpoint.shut_down()
            },
            None => Err(EndpointAlreadyClosed),
        }
    }

    /// Returns true if the server is currently listening for messages and connections.
    pub fn is_listening(&self) -> (r: bool)
        ensures
            r == (self.endpoint is Some),
    {
        self.endpoint.is_some()
    }
}

/// The events of one update of a server.
pub struct ServerEvents {
    /// The clients that connected.
    pub connection_events: Vec<ConnectionEvent>,
    /// The clients that were lost.
    pub connection_lost_events: Vec<ConnectionLostEvent>,
}

/// - Receives events from the async server tasks
/// - Updates the sync server state
///
/// Returns the events of it. Without an endpoint there are none.
pub fn handle_server_events(server: &mut IrohServer) -> (r: ServerEvents)
    requires
        old(server).endpoint matches Some(endpoint) ==> endpoint@.wf(),
    ensures
        match old(server).endpoint {
            Some(pre) => {
                &&& final(server).endpoint matches Some(post) && post@.wf() && (pre@.sound()
                    ==> post@.sound()) && post@.updated(
                    pre@,
                    connected(r.connection_events@),
                    lost(r.connection_lost_events@),
                )
            },
            None => {
                &&& final(server).endpoint is None
                &&& r.connection_events@.len() == 0
                &&& r.connection_lost_events@.len() == 0
            },
        },
{
    match server.get_endpoint_mut() {
        Some(endpoint) => {
            let (connection_events, connection_lost_events) = endpoint.update();
            ServerEvents { connection_events, connection_lost_events }
        },
        None => ServerEvents { connection_events: Vec::new(), connection_lost_events: Vec::new() },
    }
}

/// Dispatches received payloads to their respective channel buffers for all
/// clients. Returns the errors of it.
pub fn dispatch_received_payloads(server: &mut IrohServer) -> (r: Vec<ServerRecvChannelError>)
    ensures
        match old(server).endpoint {
            Some(pre) => {
                &&& final(server).endpoint matches Some(post) && (pre@.wf() ==> post@.wf()) && (
                pre@.sound() ==> post@.sound())
                    && post@.dispatched(pre@, r@)
            },
            None => final(server).endpoint is None && r@.len() == 0,
        },
{
    match server.get_endpoint_mut() {
        Some(endpoint) => endpoint.dispatch_received_payloads(),
        None => Vec::new(),
    }
}

/// Clears stale payloads on all receive channels.
pub fn clear_stale_received_payloads(server: &mut IrohServer)
    ensures
        match old(server).endpoint {
            Some(pre) => {
                &&& final(server).endpoint matches Some(post) && (pre@.wf() ==> post@.wf()) && (
                pre@.sound() ==> post@.sound())
                    && post@ == if pre@.recv_channels_cfg.clear_stale_received_payloads {
                    pre@.cleared()
                } else {
                    pre@
                }
            },
            None => final(server).endpoint is None,
        },
{
    match server.get_endpoint_mut() {
        Some(endpoint) => {
            if endpoint.recv_channels_cfg().clear_stale_received_payloads {
                endpoint.clear_payloads_from_clients();
            }
        },
        None => {},
    }
}

/// A server that may not exist is there and listens.
pub open spec fn listens(server: Option<&IrohServer>) -> bool {
    server matches Some(server) && server.endpoint is Some
}

/// Returns true if the server exists and its endpoint is opened.
pub fn server_listening(server: Option<&IrohServer>) -> (r: bool)
    ensures
        r == listens(server),
{
    match server {
        Some(server) => server.is_listening(),
        None => false,
    }
}

/// Returns true if the server was not listening last frame, but is now.
pub fn server_just_opened(was_listening: &mut bool, server: Option<&IrohServer>) -> (r: bool)
    ensures
        r == (!*old(was_listening) && listens(server)),
        *final(was_listening) == listens(server),
{
    let listening = server_listening(server);
    let just_opened = !*was_listening && listening;
    *was_listening = listening;
    just_opened
}

/// Returns true if the server was listening last frame, but is not now.
pub fn server_just_closed(was_listening: &mut bool, server: Option<&IrohServer>) -> (r: bool)
    ensures
        r == (*old(was_listening) && !listens(server)),
        *final(was_listening) == listens(server),
{
    let closed = !server_listening(server);
    let just_closed = *was_listening && closed;
    *was_listening = !closed;
    just_closed
}

/// What the task that accepts connections has seen.
#[derive(Debug, Copy, Clone, PartialEq, Eq, Structural)]
pub enum EndpointTaskEvent {
    /// It was ordered to stop, or no one can order it any more.
    CloseOrdered,
    /// The endpoint accepts no more connections.
    EndpointClosed,
    /// A connection failed before it was established.
    IncomingFailed,
    /// A connection was established.
    Established,
}

/// What that task does next.
#[derive(Debug, Copy, Clone, PartialEq, Eq, Structural)]
pub enum EndpointTaskAction {
    /// End.
    Stop,
    /// Wait for the next connection.
    Wait,
    /// Start a task for the connection, and wait for the next.
    Serve,
}

/// Decides what the task that accepts connections does next. A connection that
/// fails does not end it.
pub fn endpoint_task_step(event: EndpointTaskEvent) -> (r: EndpointTaskAction)
    ensures
        r == EndpointTaskAction::Stop <==> event == EndpointTaskEvent::CloseOrdered || event
            == EndpointTaskEvent::EndpointClosed,
        r == EndpointTaskAction::Serve <==> event == EndpointTaskEvent::Established,
{
    match event {
        EndpointTaskEvent::CloseOrdered => EndpointTaskAction::Stop,
        EndpointTaskEvent::EndpointClosed => EndpointTaskAction::Stop,
        EndpointTaskEvent::IncomingFailed => EndpointTaskAction::Wait,
        EndpointTaskEvent::Established => EndpointTaskAction::Serve,
    }
}

/// What the async task of a client's connection works with.
pub struct ClientConnectionTaskData {
    /// How far it is.
    pub state: ClientTaskState,
    /// Payloads to the synchronous side.
    pub bytes_from_client_send: mpsc::Sender<(ChannelId, Bytes)>,
    /// Whether the client is accepted.
    pub from_sync_server_recv: mpsc::Receiver<ServerSyncMessage>,
    /// Reports of the channel tasks.
    pub from_channels_send: mpsc::Sender<ChannelAsyncMessage>,
    /// Requests for channels.
    pub to_channels_recv: mpsc::Receiver<ChannelSyncMessage>,
    /// The order to close.
    pub client_close_recv: broadcast::Receiver<CloseReason>,
}

impl ClientConnectionTaskData {
    /// The task has the other halves of the queues of this connection.
    pub open spec fn serves(self, connection: PeerConnectionView<ServerConnectionView>) -> bool {
        &&& mpsc_halves(
            DEFAULT_MESSAGE_QUEUE_SIZE,
            self.bytes_from_client_send,
            connection.ends.bytes_from_peer_recv,
        )
        &&& mpsc_halves(
            DEFAULT_INTERNAL_MESSAGES_CHANNEL_SIZE,
            connection.specific.ack_half,
            self.from_sync_server_recv,
        )
        &&& mpsc_halves(
            DEFAULT_INTERNAL_MESSAGES_CHANNEL_SIZE,
            self.from_channels_send,
            connection.ends.from_channels_recv,
        )
        &&& mpsc_halves(
            DEFAULT_QCHANNEL_MESSAGES_CHANNEL_SIZE,
            connection.ends.to_channels_send,
            self.to_channels_recv,
        )
        &&& broadcast_halves(
            DEFAULT_KILL_MESSAGE_QUEUE_SIZE,
            connection.ends.close_send,
            self.client_close_recv,
        )
    }
}

/// The connection to a client that has just been established: without channels,
/// and not accepted yet.
pub open spec fn fresh_connection(
    connection_handle: InternalConnectionRef,
    ack_half: mpsc::Sender<ServerSyncMessage>,
    ends: ConnectionEnds,
    recv_channels_cfg: RecvChannelsConfiguration,
) -> PeerConnectionView<ServerConnectionView> {
    PeerConnectionView::unused(
        ServerConnectionView { connection_handle, ack_half, acks: Seq::empty() },
        ends,
        recv_channels_cfg,
    )
}

/// Sets up the queues between the synchronous side and the async task of a
/// client's connection. Returns the message that announces the connection to the
/// server, and what the task works with from then on.
pub fn new_client_connection(
    connection_handle: InternalConnectionRef,
    recv_channels_cfg: RecvChannelsConfiguration,
) -> (r: (ServerAsyncMessage, ClientConnectionTaskData))
    ensures
        r.0 matches ServerAsyncMessage::ClientConnected(connection) && connection@
            == fresh_connection(
            connection_handle,
            connection@.specific.ack_half,
            connection@.ends,
            recv_channels_cfg,
        ) && r.1.serves(connection@),
        r.1.state == ClientTaskState::AwaitingAnswer,
{
    let (client_close_send, client_close_recv) = broadcast_queue::<CloseReason>(
        DEFAULT_KILL_MESSAGE_QUEUE_SIZE,
    );
    let (bytes_from_client_send, bytes_from_client_recv) = mpsc_queue::<(ChannelId, Bytes)>(
        DEFAULT_MESSAGE_QUEUE_SIZE,
    );
    let (to_connection_send, from_sync_server_recv) = mpsc_queue::<ServerSyncMessage>(
        DEFAULT_INTERNAL_MESSAGES_CHANNEL_SIZE,
    );
    let (from_channels_send, from_channels_recv) = mpsc_queue::<ChannelAsyncMessage>(
        DEFAULT_INTERNAL_MESSAGES_CHANNEL_SIZE,
    );
    let (to_channels_send, to_channels_recv) = mpsc_queue::<ChannelSyncMessage>(
        DEFAULT_QCHANNEL_MESSAGES_CHANNEL_SIZE,
    );
    let connection = PeerConnection::new(
        ServerConnection::new(connection_handle, to_connection_send),
        bytes_from_client_recv,
        client_close_send,
        from_channels_recv,
        to_channels_send,
        recv_channels_cfg,
    );
    assert(connection@ =~= fresh_connection(
        connection_handle,
        connection@.specific.ack_half,
        connection@.ends,
        recv_channels_cfg,
    ));
    (
        ServerAsyncMessage::ClientConnected(connection),
        ClientConnectionTaskData {
            state: ClientTaskState::AwaitingAnswer,
            bytes_from_client_send,
            from_sync_server_recv,
            from_channels_send,
            to_channels_recv,
            client_close_recv,
        },
    )
}

/// How far the async task of a client's connection is, once it has announced the
/// connection to the server.
#[derive(Debug, Copy, Clone, PartialEq, Eq, Structural)]
pub enum ClientTaskState {
    /// The server has not answered yet.
    AwaitingAnswer,
    /// The client is served under this id.
    Serving(ClientId),
    /// Nothing is left to do.
    Ended,
}

/// What happens to that task.
#[derive(Debug, Copy, Clone, PartialEq, Eq, Structural)]
pub enum ClientTaskEvent {
    /// The server's answer came, or none can come any more.
    Answered(Option<ServerSyncMessage>),
    /// The connection is closed.
    ConnectionClosed {
        /// Whether the server still listens to its tasks.
        server_listens: bool,
    },
}

/// What that task does next.
pub enum ClientTaskAction {
    /// Send the client this id, run the channel tasks for it, and wait until the
    /// connection is closed.
    Serve(ClientId),
    /// Tell the server, and end.
    Tell(ServerAsyncMessage),
    /// End.
    End,
}

/// What the task does at an event. A client is served once the server has
/// answered with its id, and the server is told under that id that the connection
/// is closed, if it still listens. Without an answer the connection is refused.
pub open spec fn client_task(
    pre: ClientTaskState,
    event: ClientTaskEvent,
    post: ClientTaskState,
    action: ClientTaskAction,
) -> bool {
    match (pre, event) {
        (
            ClientTaskState::AwaitingAnswer,
            ClientTaskEvent::Answered(Some(ServerSyncMessage::ClientConnectedAck(id))),
        ) => action == ClientTaskAction::Serve(id) && post == ClientTaskState::Serving(id),
        (
            ClientTaskState::Serving(id),
            ClientTaskEvent::ConnectionClosed { server_listens: true },
        ) => action == ClientTaskAction::Tell(ServerAsyncMessage::ClientConnectionClosed(id))
            && post == ClientTaskState::Ended,
        _ => action == ClientTaskAction::End && post == ClientTaskState::Ended,
    }
}

/// Decides what the async task of a client's connection does next.
pub fn client_task_step(state: &mut ClientTaskState, event: ClientTaskEvent) -> (r:
    ClientTaskAction)
    ensures
        client_task(*old(state), event, *final(state), r),
{
    match (*state, event) {
        (
            ClientTaskState::AwaitingAnswer,
            ClientTaskEvent::Answered(Some(ServerSyncMessage::ClientConnectedAck(id))),
        ) => {
            *state = ClientTaskState::Serving(id);
            ClientTaskAction::Serve(id)
        },
        (
            ClientTaskState::Serving(id),
            ClientTaskEvent::ConnectionClosed { server_listens: true },
        ) => {
            *state = ClientTaskState::Ended;
            ClientTaskAction::Tell(ServerAsyncMessage::ClientConnectionClosed(id))
        },
        _ => {
            *state = ClientTaskState::Ended;
            ClientTaskAction::End
        },
    }
}

} // verus!
