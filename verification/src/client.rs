//! Client features.

use std::collections::hash_map::Iter;
use std::collections::HashMap;

use iroh::endpoint::ConnectionError;
use iroh::Endpoint;
#[allow(unused_imports)]
use tokio::sync::mpsc;
use vstd::prelude::*;
#[allow(unused_imports)]
use vstd::std_specs::iter::IteratorSpec;

use crate::client::connection::events::ClientEvents;
#[allow(unused_imports)]
use crate::client::connection::events::{ClientEventsView, ClientStep};
#[allow(unused_imports)]
use crate::client::connection::lemma_opening_keeps_ends;
use crate::client::connection::{
    create_client_connection_async_channels, ClientConnection, ClientSideConnection,
    ConnectionLocalId, ConnectionState, ConnectionTaskData, InternalConnectionState,
};
#[allow(unused_imports)]
use crate::client::connection::ClientConnectionView;
use crate::client::maps::{connection_ids, connection_of_mut};
use crate::config::IrohClientConnectionConfig;
#[allow(unused_imports)]
use crate::config::IrohClientConnectionConfigView;
#[allow(unused_imports)]
use crate::shared::channels::{ChannelConfig, ChannelId, CloseReason};
use crate::shared::channels::SendChannelsConfiguration;
#[allow(unused_imports)]
use crate::shared::error::error_events;
use crate::shared::error::{push_error_events, AsyncChannelError, RecvChannelErrorEvent};
#[allow(unused_imports)]
use crate::shared::listing::{lemma_take_next, lists_keys};
#[allow(unused_imports)]
use crate::shared::peer_connection::{
    ChannelsIdsPoolView, ConnectionEnds, PeerConnectionView,
};
use crate::shared::peer_connection::RecvChannelsConfiguration;
#[allow(unused_imports)]
use crate::shared::queues::Batch;
use crate::shared::{ClientId, InternalConnectionRef};

pub mod calls;
pub mod connection;
mod error;
pub mod laws;
pub mod maps;

pub use crate::client::error::{
    ClientConnectionCloseError, ClientPayloadSendError, ClientSendError, ConnectionClosed,
};

verus! {

/// Errors that can occur while connecting.
#[derive(Debug, PartialEq, Eq)]
pub enum IrohConnectionError {
    /// An iroh connection error.
    ConnectionError(String),
    /// Client received an invalid client id.
    InvalidClientId,
    /// Client did not receive its client id.
    ClientIdNotReceived,
}

impl IrohConnectionError {
    /// `self` is the same error as `other`, with the same text.
    pub open spec fn copies(self, other: Self) -> bool {
        match other {
            IrohConnectionError::ConnectionError(text) => {
                self matches IrohConnectionError::ConnectionError(copy) && copy@ == text@
            },
            _ => self == other,
        }
    }

    /// The error carries this text.
    pub open spec fn says(self, text: Seq<char>) -> bool {
        self matches IrohConnectionError::ConnectionError(said) && said@ == text
    }
}

impl Clone for IrohConnectionError {
    fn clone(&self) -> (r: Self)
        ensures
            r.copies(*self),
    {
        match self {
            IrohConnectionError::ConnectionError(text) => {
                IrohConnectionError::ConnectionError(text.clone())
            },
            IrohConnectionError::InvalidClientId => IrohConnectionError::InvalidClientId,
            IrohConnectionError::ClientIdNotReceived => IrohConnectionError::ClientIdNotReceived,
        }
    }
}

/// Why an established connection failed.
#[verifier::external_type_specification]
#[verifier::external_body]
pub struct ExConnectionError(iroh::endpoint::ConnectionError);

/// The text of a connection error.
pub uninterp spec fn connection_error_text(e: ConnectionError) -> Seq<char>;

/// `<iroh::endpoint::ConnectionError as ToString>::to_string`: the text of the
/// error.
#[verifier::external_body]
fn connection_error_to_string(e: &ConnectionError) -> (r: String)
    ensures
        r@ == connection_error_text(*e),
{
    e.to_string()
}

impl From<ConnectionError> for IrohConnectionError {
    fn from(e: ConnectionError) -> (r: Self)
        ensures
            r.says(connection_error_text(e)),
    {
        IrohConnectionError::ConnectionError(connection_error_to_string(&e))
    }
}

impl vstd::std_specs::convert::FromSpecImpl<ConnectionError> for IrohConnectionError {
    open spec fn obeys_from_spec() -> bool {
        false
    }

    open spec fn from_spec(e: ConnectionError) -> Self {
        choose|r: Self| #[trigger] r.says(connection_error_text(e))
    }
}

/// What the async task of a connection reports.
#[derive(Debug)]
pub enum ClientAsyncMessage {
    /// The connection is established.
    Connected(InternalConnectionRef, Option<ClientId>),
    /// The connection could not be established.
    ConnectionFailed(IrohConnectionError),
    /// The connection is closed.
    ConnectionClosed,
}

/// A receive error on a connection.
pub type ClientRecvChannelError = RecvChannelErrorEvent<ConnectionLocalId>;

broadcast use vstd::std_specs::hash::group_hash_axioms;

/// What a client amounts to.
#[verifier::ext_equal]
pub struct IrohClientView {
    /// The endpoint to connect from.
    pub endpoint: Option<Endpoint>,
    /// The connections.
    pub connections: Map<ConnectionLocalId, PeerConnectionView<ClientConnectionView>>,
    /// The id of the next connection.
    pub connection_local_id_gen: ConnectionLocalId,
    /// The default connection.
    pub default_connection_id: Option<ConnectionLocalId>,
}

/// Main iroh client. Can open multiple connections with multiple iroh servers.
pub struct IrohClient {
    /// The endpoint to connect from.
    pub endpoint: Option<Endpoint>,
    /// The connections.
    pub connections: HashMap<ConnectionLocalId, ClientSideConnection>,
    /// The id of the next connection.
    pub connection_local_id_gen: ConnectionLocalId,
    /// The default connection.
    pub default_connection_id: Option<ConnectionLocalId>,
}

/// What each connection of a map amounts to.
pub open spec fn connection_views(
    connections: Map<ConnectionLocalId, ClientSideConnection>,
) -> Map<ConnectionLocalId, PeerConnectionView<ClientConnectionView>> {
    Map::new(
        |id: ConnectionLocalId| connections.contains_key(id),
        |id: ConnectionLocalId| connections[id]@,
    )
}

impl View for IrohClient {
    type V = IrohClientView;

    open spec fn view(&self) -> IrohClientView {
        IrohClientView {
            endpoint: self.endpoint,
            connections: connection_views(self.connections@),
            connection_local_id_gen: self.connection_local_id_gen,
            default_connection_id: self.default_connection_id,
        }
    }
}

/// A connection that has just been opened, before its channels.
pub open spec fn fresh_connection(
    local_id: ConnectionLocalId,
    endpoint: Endpoint,
    config: IrohClientConnectionConfigView,
    channels_config: Seq<ChannelConfig>,
    messages_half: mpsc::Receiver<ClientAsyncMessage>,
    ends: ConnectionEnds,
    recv_channels_cfg: RecvChannelsConfiguration,
) -> PeerConnectionView<ClientConnectionView> {
    PeerConnectionView::unused(
        ClientConnectionView {
            local_id,
            config,
            channels_config,
            state: InternalConnectionState::Connecting,
            send_channel_ids: ChannelsIdsPoolView::full(),
            messages_half,
            messages: Seq::empty(),
            endpoint,
        },
        ends,
        recv_channels_cfg,
    )
}

impl IrohClientView {
    /// Connections have ids that were given to them.
    pub open spec fn wf(self) -> bool {
        forall|id: ConnectionLocalId| #[trigger]
            self.connections.contains_key(id) ==> id < self.connection_local_id_gen
    }

    /// The default connection, if there is one.
    pub open spec fn default_connection(self) -> Option<PeerConnectionView<ClientConnectionView>> {
        match self.default_connection_id {
            Some(id) => if self.connections.contains_key(id) {
                Some(self.connections[id])
            } else {
                None
            },
            None => None,
        }
    }

    /// The default connection exists and is in this state.
    pub open spec fn default_is(self, state: ConnectionState) -> bool {
        self.default_connection() matches Some(connection) && connection.specific.state.state()
            == state
    }

    /// The client with another value of one of its connections.
    pub open spec fn with_connection(
        self,
        id: ConnectionLocalId,
        connection: PeerConnectionView<ClientConnectionView>,
    ) -> Self {
        IrohClientView { connections: self.connections.insert(id, connection), ..self }
    }

    /// The client once a connection is open: it is the default connection, unless
    /// there is one.
    pub open spec fn open(self, connection: PeerConnectionView<ClientConnectionView>) -> Self {
        let id = self.connection_local_id_gen;
        IrohClientView {
            endpoint: self.endpoint,
            connections: self.connections.insert(id, connection),
            connection_local_id_gen: (id + 1) as ConnectionLocalId,
            default_connection_id: if self.default_connection_id is None {
                Some(id)
            } else {
                self.default_connection_id
            },
        }
    }

    /// The client once an id is spent on a connection that could not be opened.
    pub open spec fn spend_id(self) -> Self {
        IrohClientView {
            connection_local_id_gen: (self.connection_local_id_gen + 1) as ConnectionLocalId,
            ..self
        }
    }

    /// The client without a connection, which is not the default connection any
    /// more.
    pub open spec fn without(self, id: ConnectionLocalId) -> Self {
        IrohClientView {
            connections: self.connections.remove(id),
            default_connection_id: if self.default_connection_id == Some(id) {
                None
            } else {
                self.default_connection_id
            },
            ..self
        }
    }

    /// The client without connections. A default connection that it did not have
    /// stays the default connection.
    pub open spec fn without_connections(self) -> Self {
        IrohClientView {
            connections: Map::empty(),
            default_connection_id: if self.default_connection() is Some {
                None
            } else {
                self.default_connection_id
            },
            ..self
        }
    }
}

impl IrohClient {
    /// A client without endpoint and connections.
    pub fn new() -> (r: Self)
        ensures
            r@.wf(),
            r@ == (IrohClientView {
                endpoint: None,
                connections: Map::empty(),
                connection_local_id_gen: 0,
                default_connection_id: None,
            }),
    {
        let r = IrohClient {
            endpoint: None,
            connections: HashMap::new(),
            connection_local_id_gen: 0,
            default_connection_id: None,
        };
        assert(r@.connections =~= Map::empty());
        r
    }

    /// Returns true if the default connection exists and is connecting.
    pub fn is_connecting(&self) -> (r: bool)
        ensures
            r == self@.default_is(ConnectionState::Connecting),
    {
        match self.get_connection() {
            Some(connection) => connection.state() == ConnectionState::Connecting,
            None => false,
        }
    }

    /// Returns true if the default connection exists and is connected.
    pub fn is_connected(&self) -> (r: bool)
        ensures
            r == self@.default_is(ConnectionState::Connected),
    {
        match self.get_connection() {
            Some(connection) => connection.state() == ConnectionState::Connected,
            None => false,
        }
    }

    /// Returns true if the default connection does not exist or is disconnected.
    pub fn is_disconnected(&self) -> (r: bool)
        ensures
            r == (self@.default_connection() is None || self@.default_is(
                ConnectionState::Disconnected,
            )),
    {
        match self.get_connection() {
            Some(connection) => connection.state() == ConnectionState::Disconnected,
            None => true,
        }
    }

    /// Returns the default connection or None.
    pub fn get_connection(&self) -> (r: Option<&ClientSideConnection>)
        ensures
            r is Some <==> self@.default_connection() is Some,
            r matches Some(connection) ==> connection@ == self@.default_connection()->0,
    {
        match self.default_connection_id {
            Some(id) => self.connections.get(&id),
            None => None,
        }
    }

    /// Returns the default connection as mut or None.
    pub fn get_connection_mut(&mut self) -> (r: Option<&mut ClientSideConnection>)
        ensures
            r is Some <==> old(self)@.default_connection() is Some,
            match r {
                Some(connection) => {
                    &&& (*connection)@ == old(self)@.default_connection()->0
                    &&& final(self)@ == old(self)@.with_connection(
                        old(self)@.default_connection_id->0,
                        (*final(connection))@,
                    )
                },
                None => final(self)@ == old(self)@,
            },
    {
        match self.default_connection_id {
            Some(id) => self.get_connection_mut_by_id(id),
            None => None,
        }
    }

    /// Returns the default connection.
    pub fn connection(&self) -> (r: &ClientSideConnection)
        requires
            self@.default_connection() is Some,
        ensures
            r@ == self@.default_connection()->0,
    {
        self.get_connection().unwrap()
    }

    /// Returns the default connection as mut.
    pub fn connection_mut(&mut self) -> (r: &mut ClientSideConnection)
        requires
            old(self)@.default_connection() is Some,
        ensures
            (*r)@ == old(self)@.default_connection()->0,
            final(self)@ == old(self)@.with_connection(
                old(self)@.default_connection_id->0,
                (*final(r))@,
            ),
    {
        self.get_connection_mut().unwrap()
    }

    /// Returns the requested connection.
    pub fn get_connection_by_id(&self, id: ConnectionLocalId) -> (r: Option<&ClientSideConnection>)
        ensures
            r is Some <==> self@.connections.contains_key(id),
            r matches Some(connection) ==> connection@ == self@.connections[id],
    {
        self.connections.get(&id)
    }

    /// Returns the requested connection as mut.
    pub fn get_connection_mut_by_id(&mut self, id: ConnectionLocalId) -> (r: Option<
        &mut ClientSideConnection,
    >)
        ensures
            r is Some <==> old(self)@.connections.contains_key(id),
            match r {
                Some(connection) => {
                    &&& (*connection)@ == old(self)@.connections[id]
                    &&& final(self)@ == old(self)@.with_connection(id, (*final(connection))@)
                },
                None => final(self)@ == old(self)@,
            },
    {
        connection_of_mut(&mut self.connections, id)
    }

    /// Returns an iterator over all connections, in any order.
    pub fn connections(&self) -> (r: Iter<'_, ConnectionLocalId, ClientSideConnection>)
        ensures
            r.remaining().no_duplicates(),
            forall|i: int|
                0 <= i < r.remaining().len() ==> self@.connections.contains_key(
                    *(#[trigger] r.remaining()[i]).0,
                ) && self@.connections[*r.remaining()[i].0] == r.remaining()[i].1@,
            forall|id: ConnectionLocalId| #[trigger]
                self@.connections.contains_key(id) ==> exists|i: int|
                    0 <= i < r.remaining().len() && *(#[trigger] r.remaining()[i]).0 == id,
    {
        let r = self.connections.iter();
        proof {
            let entries = r.remaining();
            assert forall|id: ConnectionLocalId| #[trigger]
                self@.connections.contains_key(id) implies exists|i: int|
                0 <= i < entries.len() && *(#[trigger] entries[i]).0 == id by {
                assert(self.connections@.contains_key(id));
                assert(entries.contains((&id, &self.connections@[id])));
                let i = choose|i: int|
                    0 <= i < entries.len() && entries[i] == (&id, &self.connections@[id]);
                assert(*entries[i].0 == id);
            }
            assert forall|i: int| 0 <= i < entries.len() implies self@.connections.contains_key(
                *(#[trigger] entries[i]).0,
            ) && self@.connections[*entries[i].0] == entries[i].1@ by {
                assert(self.connections@.contains_key(*entries[i].0));
            }
        }
        r
    }

    /// Set the shared iroh endpoint for this client.
    ///
    /// Must be called before [`Self::open_connection`].
    pub fn set_endpoint(&mut self, endpoint: Endpoint)
        ensures
            final(self)@ == (IrohClientView { endpoint: Some(endpoint), ..old(self)@ }),
    {
        self.endpoint = Some(endpoint);
    }

    /// Access the raw iroh endpoint for advanced use.
    pub fn raw_endpoint(&self) -> (r: Option<&Endpoint>)
        ensures
            r is Some <==> self@.endpoint is Some,
            r matches Some(endpoint) ==> *endpoint == self@.endpoint->0,
    {
        self.endpoint.as_ref()
    }

    /// Access the raw iroh endpoint mutably.
    pub fn raw_endpoint_mut(&mut self) -> (r: Option<&mut Endpoint>)
        ensures
            r is Some <==> old(self)@.endpoint is Some,
            match r {
                Some(endpoint) => {
                    &&& *endpoint == old(self)@.endpoint->0
                    &&& final(self)@ == (IrohClientView {
                        endpoint: Some(*final(endpoint)),
                        ..old(self)@
                    })
                },
                None => final(self)@ == old(self)@,
            },
    {
        self.endpoint.as_mut()
    }

    /// Opens a connection to a server, with the configured channels. An endpoint
    /// has to be set.
    ///
    /// Returns the id of the connection, and what the async task works with that
    /// has to be started to establish it. Where a channel cannot be opened, the
    /// error of its queue comes back, and the id is spent.
    pub fn open_connection(
        &mut self,
        config: IrohClientConnectionConfig,
        send_channels_cfg: SendChannelsConfiguration,
        recv_channels_cfg: RecvChannelsConfiguration,
    ) -> (r: Result<(ConnectionLocalId, ConnectionTaskData), AsyncChannelError>)
        requires
            old(self)@.endpoint is Some,
            old(self)@.connection_local_id_gen < ConnectionLocalId::MAX,
        ensures
            old(self)@.wf() ==> final(self)@.wf(),
            match r {
                Ok((id, task)) => {
                    let connection = final(self)@.connections[id];
                    &&& id == old(self)@.connection_local_id_gen
                    &&& connection.configured(
                        fresh_connection(
                            id,
                            old(self)@.endpoint->0,
                            config@,
                            send_channels_cfg@,
                            connection.specific.messages_half,
                            connection.ends,
                            recv_channels_cfg,
                        ),
                        send_channels_cfg@,
                    )
                    &&& final(self)@ == old(self)@.open(connection)
                    &&& task.endpoint == old(self)@.endpoint->0
                    &&& task.local_id == id
                    &&& task.config@ == config@
                    &&& task.serves(connection)
                },
                Err(e) => {
                    &&& final(self)@ == old(self)@.spend_id()
                    &&& exists|
                        dropped: ConnectionTaskData,
                        failed: PeerConnectionView<ClientConnectionView>,
                    | #[trigger]
                        dropped.serves(failed) && failed.opened(
                            fresh_connection(
                                old(self)@.connection_local_id_gen,
                                old(self)@.endpoint->0,
                                config@,
                                send_channels_cfg@,
                                failed.specific.messages_half,
                                failed.ends,
                                recv_channels_cfg,
                            ),
                            send_channels_cfg@,
                            Err(e),
                        )
                },
            },
    {
        let local_id: ConnectionLocalId = self.connection_local_id_gen;
        self.connection_local_id_gen = self.connection_local_id_gen + 1;
        let (
            bytes_from_server_send,
            bytes_from_server_recv,
            to_sync_client_send,
            to_sync_client_recv,
            from_channels_send,
            from_channels_recv,
            to_channels_send,
            to_channels_recv,
            close_send,
            close_recv,
        ) = create_client_connection_async_channels();
        let endpoint = self.endpoint.as_ref().unwrap().clone();
        let mut connection = ClientSideConnection::new(
            ClientConnection::new(
                local_id,
                endpoint.clone(),
                config.clone(),
                send_channels_cfg.clone(),
                to_sync_client_recv,
            ),
            bytes_from_server_recv,
            close_send,
            from_channels_recv,
            to_channels_send,
            recv_channels_cfg,
        );
        let ghost fresh = connection@;
        assert(fresh =~= fresh_connection(
            local_id,
            old(self)@.endpoint->0,
            config@,
            send_channels_cfg@,
            fresh.specific.messages_half,
            fresh.ends,
            recv_channels_cfg,
        ));
        let ghost configs = send_channels_cfg@;
        let outcome = connection.open_configured_channels(send_channels_cfg);
        proof {
            lemma_opening_keeps_ends(connection@, fresh, configs, outcome);
        }
        match outcome {
            Ok(()) => {},
            Err(e) => {
                let ghost task = ConnectionTaskData {
                    endpoint,
                    local_id,
                    config,
                    to_sync_client_send,
                    bytes_from_server_send,
                    to_channels_recv,
                    from_channels_send,
                    close_recv,
                };
                assert(task.serves(connection@));
                assert(connection@.opened(
                    fresh_connection(
                        local_id,
                        old(self)@.endpoint->0,
                        config@,
                        configs,
                        connection@.specific.messages_half,
                        connection@.ends,
                        recv_channels_cfg,
                    ),
                    configs,
                    Err(e),
                ));
                return Err(e);
            },
        }
        let ghost opened = connection@;
        let _ = self.connections.insert(local_id, connection);
        assert(self@.connections =~= old(self)@.connections.insert(local_id, opened));
        if self.default_connection_id.is_none() {
            self.default_connection_id = Some(local_id);
        }
        assert(self@ =~= old(self)@.open(opened));
        Ok(
            (
                local_id,
                ConnectionTaskData {
                    endpoint,
                    local_id,
                    config,
                    to_sync_client_send,
                    bytes_from_server_send,
                    to_channels_recv,
                    from_channels_send,
                    close_recv,
                },
            ),
        )
    }

    /// Set the default connection.
    pub fn set_default_connection(&mut self, connection_id: ConnectionLocalId)
        ensures
            final(self)@ == (IrohClientView {
                default_connection_id: Some(connection_id),
                ..old(self)@
            }),
    {
        self.default_connection_id = Some(connection_id);
    }

    /// Get the default connection id.
    pub fn get_default_connection(&self) -> (r: Option<ConnectionLocalId>)
        ensures
            r == self@.default_connection_id,
    {
        self.default_connection_id
    }

    /// Closes a specific connection. Removes it from the client.
    ///
    /// This fails if there is no such connection, or if its tasks are gone
    /// already; a connection that is disconnected is removed without more ado.
    pub fn close_connection(&mut self, connection_id: ConnectionLocalId) -> (r: Result<
        (),
        ClientConnectionCloseError,
    >)
        ensures
            old(self)@.wf() ==> final(self)@.wf(),
            if old(self)@.connections.contains_key(connection_id) {
                &&& final(self)@ == old(self)@.without(connection_id)
                &&& old(self)@.connections[connection_id].was_disconnected(
                    CloseReason::LocalOrder,
                    r is Ok,
                )
                &&& r matches Err(e) ==> e is ConnectionAlreadyClosed
            } else {
                &&& final(self)@ == old(self)@
                &&& r == Err::<(), _>(
                    ClientConnectionCloseError::InvalidConnectionId(connection_id),
                )
            },
    {
        match self.connections.remove(&connection_id) {
            Some(mut connection) => {
                assert(self@.connections =~= old(self)@.connections.remove(connection_id));
                if let Some(default) = self.default_connection_id {
                    if default == connection_id {
                        self.default_connection_id = None;
                    }
                }
                assert(self@ =~= old(self)@.without(connection_id));
                connection.disconnect()
            },
            None => {
                assert(self@.connections =~= old(self)@.connections);
                Err(ClientConnectionCloseError::InvalidConnectionId(connection_id))
            },
        }
    }

    /// Calls [`Self::close_connection`] on all open connections.
    pub fn close_all_connections(&mut self)
        ensures
            old(self)@.wf() ==> final(self)@.wf(),
            final(self)@ == old(self)@.without_connections(),
            forall|id: ConnectionLocalId| #[trigger]
                old(self)@.connections.contains_key(id) ==> exists|heard: bool| #[trigger]
                    old(self)@.connections[id].was_disconnected(CloseReason::LocalOrder, heard),
    {
        let ids = connection_ids(&self.connections);
        let mut i: usize = 0;
        while i < ids.len()
            invariant
                i <= ids@.len(),
                lists_keys(ids@, old(self)@.connections),
                self@ == (IrohClientView {
                    connections: self@.connections,
                    default_connection_id: self@.default_connection_id,
                    ..old(self)@
                }),
                forall|id: ConnectionLocalId| #[trigger]
                    self@.connections.contains_key(id) <==> old(self)@.connections.contains_key(id)
                        && !ids@.take(i as int).contains(id),
                forall|id: ConnectionLocalId| #[trigger]
                    self@.connections.contains_key(id) ==> self@.connections[id] == old(
                        self,
                    )@.connections[id],
                forall|id: ConnectionLocalId| #[trigger]
                    ids@.take(i as int).contains(id) ==> exists|heard: bool| #[trigger]
                        old(self)@.connections[id].was_disconnected(
                            CloseReason::LocalOrder,
                            heard,
                        ),
                self@.default_connection_id == match old(self)@.default_connection_id {
                    Some(default) => if ids@.take(i as int).contains(default) {
                        None
                    } else {
                        Some(default)
                    },
                    None => None,
                },
            decreases ids@.len() - i,
        {
            proof {
                assert(ids@.contains(ids@[i as int]));
                lemma_take_next(ids@, i as int);
                assert(self@.connections.contains_key(ids@[i as int]));
            }
            let r = self.close_connection(ids[i]);
            assert(old(self)@.connections[ids@[i as int]].was_disconnected(
                CloseReason::LocalOrder,
                r is Ok,
            ));
            i = i + 1;
        }
        assert(ids@.take(i as int) =~= ids@);
        assert(self@ =~= old(self)@.without_connections());
        assert forall|id: ConnectionLocalId| #[trigger]
            old(self)@.connections.contains_key(id) implies exists|heard: bool| #[trigger]
            old(self)@.connections[id].was_disconnected(CloseReason::LocalOrder, heard) by {
            assert(ids@.contains(id));
        }
    }
}

/// The events of the steps of connections, connection by connection in the order
/// of `ids`.
pub open spec fn events_of(
    ids: Seq<ConnectionLocalId>,
    steps: Map<ConnectionLocalId, Seq<ClientStep>>,
) -> ClientEventsView
    decreases ids.len(),
{
    if ids.len() == 0 {
        ClientEventsView::none()
    } else {
        events_of(ids.drop_last(), steps).after_steps(ids.last(), steps[ids.last()])
    }
}

/// The events of some connections do not depend on the steps of another.
proof fn lemma_events_of_others(
    ids: Seq<ConnectionLocalId>,
    steps: Map<ConnectionLocalId, Seq<ClientStep>>,
    other: ConnectionLocalId,
    other_steps: Seq<ClientStep>,
)
    requires
        !ids.contains(other),
    ensures
        events_of(ids, steps.insert(other, other_steps)) == events_of(ids, steps),
    decreases ids.len(),
{
    if ids.len() > 0 {
        let before = ids.drop_last();
        assert forall|i: int| 0 <= i < before.len() implies before[i] != other by {
            assert(before[i] == ids[i]);
        }
        assert(ids[ids.len() - 1] != other);
        lemma_events_of_others(before, steps, other, other_steps);
    }
}

impl IrohClientView {
    /// `self` is the client once each connection has handled all that has come
    /// from its async tasks, and `events` are those of it.
    pub open spec fn updated(self, pre: Self, events: ClientEventsView) -> bool {
        exists|ids: Seq<ConnectionLocalId>, steps: Map<ConnectionLocalId, Seq<ClientStep>>|
            {
                &&& lists_keys(ids, pre.connections)
                &&& steps.dom() == pre.connections.dom()
                &&& events == #[trigger] events_of(ids, steps)
                &&& self == (IrohClientView { connections: self.connections, ..pre })
                &&& self.connections.dom() == pre.connections.dom()
                &&& forall|id: ConnectionLocalId| #[trigger]
                    pre.connections.contains_key(id) ==> self.connections[id].updated(
                        pre.connections[id],
                        steps[id],
                    )
            }
    }

    /// The client once payloads came on some connections and were sorted into
    /// their buffers.
    pub open spec fn dispatch(
        self,
        arrivals: Map<ConnectionLocalId, Batch<(ChannelId, Seq<u8>)>>,
    ) -> Self {
        IrohClientView {
            connections: Map::new(
                |id: ConnectionLocalId| self.connections.contains_key(id),
                |id: ConnectionLocalId|
                    if arrivals.contains_key(id) {
                        self.connections[id].dispatch(arrivals[id])
                    } else {
                        self.connections[id]
                    },
            ),
            ..self
        }
    }

    /// The error events of that, connection by connection in the order of `ids`.
    pub open spec fn dispatch_events(
        self,
        ids: Seq<ConnectionLocalId>,
        arrivals: Map<ConnectionLocalId, Batch<(ChannelId, Seq<u8>)>>,
    ) -> Seq<ClientRecvChannelError>
        decreases ids.len(),
    {
        if ids.len() == 0 {
            Seq::empty()
        } else {
            let id = ids.last();
            let before = self.dispatch_events(ids.drop_last(), arrivals);
            if arrivals.contains_key(id) {
                before + error_events(
                    id,
                    self.connections[id].dispatch_errors(arrivals[id].messages),
                )
            } else {
                before
            }
        }
    }

    /// `self` is the client once the payloads that came on every connection that
    /// is not disconnected were sorted into their buffers, and `events` are the
    /// errors of it.
    pub open spec fn dispatched(self, pre: Self, events: Seq<ClientRecvChannelError>) -> bool {
        exists|
            ids: Seq<ConnectionLocalId>,
            arrivals: Map<ConnectionLocalId, Batch<(ChannelId, Seq<u8>)>>,
        |
            {
                &&& lists_keys(ids, pre.connections)
                &&& forall|id: ConnectionLocalId| #[trigger]
                    arrivals.contains_key(id) <==> pre.connections.contains_key(id) && !(
                    pre.connections[id].specific.state is Disconnected)
                &&& forall|id: ConnectionLocalId| #[trigger]
                    arrivals.contains_key(id) ==> arrivals[id].complete(usize::MAX)
                &&& self == pre.dispatch(arrivals)
                &&& events == #[trigger] pre.dispatch_events(ids, arrivals)
            }
    }

    /// The client once nothing waits to be read on the connections that are
    /// configured so.
    pub open spec fn cleared(self) -> Self {
        IrohClientView {
            connections: Map::new(
                |id: ConnectionLocalId| self.connections.contains_key(id),
                |id: ConnectionLocalId|
                    if self.connections[id].recv_channels_cfg.clear_stale_received_payloads {
                        self.connections[id].cleared()
                    } else {
                        self.connections[id]
                    },
            ),
            ..self
        }
    }
}

/// The events of some connections do not depend on what comes on another.
proof fn lemma_dispatch_events_of_others(
    pre: IrohClientView,
    ids: Seq<ConnectionLocalId>,
    arrivals: Map<ConnectionLocalId, Batch<(ChannelId, Seq<u8>)>>,
    other: ConnectionLocalId,
    payloads: Batch<(ChannelId, Seq<u8>)>,
)
    requires
        !ids.contains(other),
    ensures
        pre.dispatch_events(ids, arrivals.insert(other, payloads)) == pre.dispatch_events(
            ids,
            arrivals,
        ),
    decreases ids.len(),
{
    if ids.len() > 0 {
        let before = ids.drop_last();
        assert forall|i: int| 0 <= i < before.len() implies before[i] != other by {
            assert(before[i] == ids[i]);
        }
        assert(ids[ids.len() - 1] != other);
        lemma_dispatch_events_of_others(pre, before, arrivals, other, payloads);
    }
}

/// Receive messages from the async client tasks and update the sync client.
///
/// Returns the events of it.
pub fn handle_client_events(client: &mut IrohClient) -> (r: ClientEvents)
    ensures
        old(client)@.wf() ==> final(client)@.wf(),
        final(client)@.updated(old(client)@, r@),
{
    let ids = connection_ids(&client.connections);
    let mut events = ClientEvents::new();
    let ghost mut steps: Map<ConnectionLocalId, Seq<ClientStep>> = Map::empty();
    let mut i: usize = 0;
    assert(ids@.take(0) =~= Seq::<ConnectionLocalId>::empty());
    while i < ids.len()
        invariant
            i <= ids@.len(),
            lists_keys(ids@, old(client)@.connections),
            forall|id: ConnectionLocalId| #[trigger]
                steps.contains_key(id) <==> ids@.take(i as int).contains(id),
            client@ == (IrohClientView { connections: client@.connections, ..old(client)@ }),
            client@.connections.dom() == old(client)@.connections.dom(),
            forall|id: ConnectionLocalId| #[trigger]
                old(client)@.connections.contains_key(id) ==> if steps.contains_key(id) {
                    client@.connections[id].updated(old(client)@.connections[id], steps[id])
                } else {
                    client@.connections[id] == old(client)@.connections[id]
                },
            events@ == events_of(ids@.take(i as int), steps),
        decreases ids@.len() - i,
    {
        let id: ConnectionLocalId = ids[i];
        let ghost before = client@;
        proof {
            assert(ids@.contains(id));
            lemma_take_next(ids@, i as int);
            assert(old(client)@.connections.contains_key(id));
            assert(before.connections.dom().contains(id));
            assert(!steps.contains_key(id));
        }
        match connection_of_mut(&mut client.connections, id) {
            Some(connection) => {
                let taken = connection.update();
                let ghost post = connection@;
                proof {
                    assert(client@.connections =~= before.connections.insert(id, post));
                    assert(client@.connections.dom() =~= old(client)@.connections.dom());
                    lemma_events_of_others(ids@.take(i as int), steps, id, taken@);
                    assert(ids@.take(i + 1).drop_last() =~= ids@.take(i as int));
                    steps = steps.insert(id, taken@);
                }
                events.push_steps(id, taken);
            },
            None => {
                assert(false);
            },
        }
        i = i + 1;
    }
    proof {
        assert(ids@.take(i as int) =~= ids@);
        assert(steps.dom() =~= old(client)@.connections.dom());
    }
    events
}

/// Dispatches received payloads to their respective channel buffers. Returns the
/// errors of it.
pub fn dispatch_received_payloads(client: &mut IrohClient) -> (r: Vec<ClientRecvChannelError>)
    ensures
        old(client)@.wf() ==> final(client)@.wf(),
        final(client)@.dispatched(old(client)@, r@),
{
    let ids = connection_ids(&client.connections);
    let mut events: Vec<ClientRecvChannelError> = Vec::new();
    let ghost mut arrivals: Map<ConnectionLocalId, Batch<(ChannelId, Seq<u8>)>> = Map::empty();
    let mut i: usize = 0;
    assert(client@.connections =~= old(client)@.dispatch(arrivals).connections);
    assert(ids@.take(0) =~= Seq::<ConnectionLocalId>::empty());
    while i < ids.len()
        invariant
            i <= ids@.len(),
            lists_keys(ids@, old(client)@.connections),
            forall|id: ConnectionLocalId| #[trigger]
                arrivals.contains_key(id) <==> ids@.take(i as int).contains(id) && !(old(
                    client,
                )@.connections[id].specific.state is Disconnected),
            forall|id: ConnectionLocalId| #[trigger]
                arrivals.contains_key(id) ==> arrivals[id].complete(usize::MAX),
            client@ == old(client)@.dispatch(arrivals),
            events@ == old(client)@.dispatch_events(ids@.take(i as int), arrivals),
        decreases ids@.len() - i,
    {
        let id: ConnectionLocalId = ids[i];
        let ghost before = client@;
        proof {
            assert(ids@.contains(id));
            lemma_take_next(ids@, i as int);
            assert(old(client)@.connections.contains_key(id));
            assert(before.connections.contains_key(id));
            assert(!arrivals.contains_key(id));
            assert(before.connections[id] == old(client)@.connections[id]);
            assert(ids@.take(i + 1).drop_last() =~= ids@.take(i as int));
        }
        match connection_of_mut(&mut client.connections, id) {
            Some(connection) => match connection.internal_state() {
                InternalConnectionState::Disconnected => {
                    assert(client@.connections =~= before.connections);
                },
                _ => {
                    let ghost pre = connection@;
                    let outcome = connection.dispatch_received_payloads_to_channel_buffers();
                    let ghost payloads = choose|payloads: Batch<(ChannelId, Seq<u8>)>| #[trigger]
                        payloads.complete(usize::MAX) && connection@ == pre.dispatch(payloads)
                            && pre.dispatch_result(payloads.messages, outcome);
                    proof {
                        let longer = arrivals.insert(id, payloads);
                        assert(client@.connections =~= before.connections.insert(
                            id,
                            old(client)@.connections[id].dispatch(payloads),
                        ));
                        assert(client@.connections =~= old(client)@.dispatch(longer).connections);
                        lemma_dispatch_events_of_others(
                            old(client)@,
                            ids@.take(i as int),
                            arrivals,
                            id,
                            payloads,
                        );
                        arrivals = longer;
                    }
                    match outcome {
                        Err(errors) => {
                            push_error_events(&mut events, id, errors);
                        },
                        Ok(()) => {
                            assert(error_events(
                                id,
                                old(client)@.connections[id].dispatch_errors(payloads.messages),
                            ) =~= Seq::<ClientRecvChannelError>::empty());
                            assert(events@ + Seq::<ClientRecvChannelError>::empty() =~= events@);
                        },
                    }
                },
            },
            None => {
                assert(false);
            },
        }
        i = i + 1;
    }
    assert(ids@.take(i as int) =~= ids@);
    events
}

/// Clears stale payloads on all receive channels.
pub fn clear_stale_received_payloads(client: &mut IrohClient)
    ensures
        old(client)@.wf() ==> final(client)@.wf(),
        final(client)@ == old(client)@.cleared(),
{
    let ids = connection_ids(&client.connections);
    let mut i: usize = 0;
    while i < ids.len()
        invariant
            i <= ids@.len(),
            lists_keys(ids@, old(client)@.connections),
            client@ == (IrohClientView { connections: client@.connections, ..old(client)@ }),
            client@.connections.dom() == old(client)@.connections.dom(),
            forall|id: ConnectionLocalId| #[trigger]
                old(client)@.connections.contains_key(id) ==> client@.connections[id]
                    == if ids@.take(i as int).contains(id) {
                    old(client)@.cleared().connections[id]
                } else {
                    old(client)@.connections[id]
                },
        decreases ids@.len() - i,
    {
        let id: ConnectionLocalId = ids[i];
        let ghost before = client@;
        proof {
            assert(ids@.contains(id));
            lemma_take_next(ids@, i as int);
            assert(old(client)@.connections.contains_key(id));
            assert(before.connections.dom().contains(id));
        }
        match connection_of_mut(&mut client.connections, id) {
            Some(connection) => {
                connection.clear_stale_received_payloads();
                proof {
                    assert(client@.connections =~= before.connections.insert(
                        id,
                        old(client)@.cleared().connections[id],
                    ));
                    assert(client@.connections.dom() =~= old(client)@.connections.dom());
                }
            },
            None => {
                assert(false);
            },
        }
        i = i + 1;
    }
    assert(ids@.take(i as int) =~= ids@);
    assert(client@.connections =~= old(client)@.cleared().connections);
}

/// A client that may not exist is there, and its default connection is in this
/// state.
pub open spec fn client_is(client: Option<&IrohClient>, state: ConnectionState) -> bool {
    client matches Some(client) && client@.default_is(state)
}

/// A client that may not exist is not there, or its default connection does not
/// exist or is disconnected.
pub open spec fn client_is_disconnected(client: Option<&IrohClient>) -> bool {
    match client {
        Some(client) => client@.default_connection() is None || client@.default_is(
            ConnectionState::Disconnected,
        ),
        None => true,
    }
}

/// Returns true if the following conditions are all true:
/// - the client exists
/// - its default connection is connecting.
pub fn client_connecting(client: Option<&IrohClient>) -> (r: bool)
    ensures
        r == client_is(client, ConnectionState::Connecting),
{
    match client {
        Some(client) => client.is_connecting(),
        None => false,
    }
}

/// Returns true if the following conditions are all true:
/// - the client exists
/// - its default connection is connected.
pub fn client_connected(client: Option<&IrohClient>) -> (r: bool)
    ensures
        r == client_is(client, ConnectionState::Connected),
{
    match client {
        Some(client) => client.is_connected(),
        None => false,
    }
}

/// Returns true if the following conditions are all true:
/// - the client exists and its default connection is connected
/// - the previous condition was false during the previous update
pub fn client_just_connected(last_connected: &mut bool, client: Option<&IrohClient>) -> (r: bool)
    ensures
        r == (!*old(last_connected) && client_is(client, ConnectionState::Connected)),
        *final(last_connected) == client_is(client, ConnectionState::Connected),
{
    let connected = client_connected(client);
    let just_connected = !*last_connected && connected;
    *last_connected = connected;
    just_connected
}

/// Returns true if the following conditions are all true:
/// - the client does not exist or its default connection is disconnected
/// - the previous condition was false during the previous update
pub fn client_just_disconnected(last_connected: &mut bool, client: Option<&IrohClient>) -> (r: bool)
    ensures
        r == (*old(last_connected) && client_is_disconnected(client)),
        *final(last_connected) == !client_is_disconnected(client),
{
    let disconnected = match client {
        Some(client) => client.is_disconnected(),
        None => true,
    };
    let just_disconnected = *last_connected && disconnected;
    *last_connected = !disconnected;
    just_disconnected
}

} // verus!
