//! Decisions of the async task that establishes a connection.

use iroh::endpoint::ConnectError;
use iroh::{EndpointAddr, EndpointId, RelayUrl, TransportAddr};
use vstd::prelude::*;

use crate::client::connection::client_id::{
    receive_client_id, ClientIdEvent, ClientIdReception,
};
use crate::client::{ClientAsyncMessage, IrohConnectionError};
use crate::config::IrohClientConnectionConfig;
#[allow(unused_imports)]
use crate::config::IrohClientConnectionConfigView;
use crate::shared::{ClientId, InternalConnectionRef};

verus! {

/// How long to wait for a home relay, in nanoseconds.
pub const RELAY_TIMEOUT_NANOS: u128 = 10_000_000_000;

/// How long to wait before looking for a home relay again, in milliseconds.
pub const RELAY_POLL_MILLIS: u64 = 100;

/// The address of a relay server.
#[verifier::external_type_specification]
#[verifier::external_body]
pub struct ExRelayUrl(iroh::RelayUrl);

/// One way to reach an endpoint.
#[verifier::external_type_specification]
#[verifier::external_body]
pub struct ExTransportAddr(iroh::TransportAddr);

/// Why a connection could not be established.
#[verifier::external_type_specification]
#[verifier::external_body]
pub struct ExConnectError(iroh::endpoint::ConnectError);

/// The endpoint that an address belongs to.
pub uninterp spec fn addr_id(addr: EndpointAddr) -> EndpointId;

/// The ways to reach it that an address knows.
pub uninterp spec fn addr_transports(addr: EndpointAddr) -> Set<TransportAddr>;

/// The way through a relay server.
pub uninterp spec fn relay_transport(url: RelayUrl) -> TransportAddr;

/// The text of a connect error.
pub uninterp spec fn connect_error_text(e: ConnectError) -> Seq<char>;

/// `<iroh::EndpointAddr as From<EndpointId>>::from`: the address that knows no
/// way to reach the endpoint.
#[verifier::external_body]
fn addr_from_id(id: EndpointId) -> (r: EndpointAddr)
    ensures
        addr_id(r) == id,
        addr_transports(r) == Set::<TransportAddr>::empty(),
{
    EndpointAddr::from(id)
}

/// `iroh::EndpointAddr::with_relay_url`: the address that also knows the way
/// through this relay.
#[verifier::external_body]
fn addr_with_relay_url(addr: EndpointAddr, url: RelayUrl) -> (r: EndpointAddr)
    ensures
        addr_id(r) == addr_id(addr),
        addr_transports(r) == addr_transports(addr).insert(relay_transport(url)),
{
    addr.with_relay_url(url)
}

/// `<iroh::endpoint::ConnectError as ToString>::to_string`: the text of the
/// error.
#[verifier::external_body]
fn connect_error_to_string(e: &ConnectError) -> (r: String)
    ensures
        r@ == connect_error_text(*e),
{
    e.to_string()
}

/// What the search for a home relay came to.
pub enum RelaySearch {
    /// The home relay is known.
    Found(RelayUrl),
    /// There was none in time.
    TimedOut,
    /// Look again after this many milliseconds.
    Retry(u64),
}

/// Decides how the search for a home relay goes on, given the relay that is
/// known now, if any, and how long the search has taken.
pub fn search_relay(known: Option<RelayUrl>, elapsed_nanos: u128) -> (r: RelaySearch)
    ensures
        match known {
            Some(url) => r == RelaySearch::Found(url),
            None => r == if elapsed_nanos > RELAY_TIMEOUT_NANOS {
                RelaySearch::TimedOut
            } else {
                RelaySearch::Retry(RELAY_POLL_MILLIS)
            },
        },
{
    match known {
        Some(url) => RelaySearch::Found(url),
        None => if elapsed_nanos > RELAY_TIMEOUT_NANOS {
            RelaySearch::TimedOut
        } else {
            RelaySearch::Retry(RELAY_POLL_MILLIS)
        },
    }
}

/// Whether a home relay has to be known before the connection can be
/// established: only where no address is configured.
pub fn needs_relay(config: &IrohClientConnectionConfig) -> (r: bool)
    ensures
        r == (config@.endpoint_addr is None),
{
    config.endpoint_addr.is_none()
}

/// `addr` is the address to connect to: the one that is configured, or else that
/// of the server, through the home relay if it is known.
pub open spec fn leads_to(
    addr: EndpointAddr,
    config: IrohClientConnectionConfigView,
    relay_url: Option<RelayUrl>,
) -> bool {
    match config.endpoint_addr {
        Some(direct) => addr == direct,
        None => {
            &&& addr_id(addr) == config.server_id
            &&& addr_transports(addr) == match relay_url {
                Some(url) => set![relay_transport(url)],
                None => Set::<TransportAddr>::empty(),
            }
        },
    }
}

/// The address to connect to.
pub fn connect_address(config: &IrohClientConnectionConfig, relay_url: Option<RelayUrl>) -> (r:
    EndpointAddr)
    ensures
        leads_to(r, config@, relay_url),
{
    match &config.endpoint_addr {
        Some(addr) => addr.clone(),
        None => {
            let addr = addr_from_id(config.server_id);
            match relay_url {
                Some(url) => addr_with_relay_url(addr, url),
                None => addr,
            }
        },
    }
}

/// The message for a connection that could not be established.
pub fn connection_failed(e: &ConnectError) -> (r: ClientAsyncMessage)
    ensures
        r matches ClientAsyncMessage::ConnectionFailed(err) && err.says(connect_error_text(*e)),
{
    ClientAsyncMessage::ConnectionFailed(
        IrohConnectionError::ConnectionError(connect_error_to_string(e)),
    )
}

/// The message for a connection that is established.
pub fn signal_connected(connection: InternalConnectionRef, client_id: Option<ClientId>) -> (r:
    ClientAsyncMessage)
    ensures
        r == ClientAsyncMessage::Connected(connection, client_id),
{
    ClientAsyncMessage::Connected(connection, client_id)
}

/// The message for a connection once the reception of the client id has ended.
/// An interrupted reception has none.
pub open spec fn reception_message(
    connection: InternalConnectionRef,
    reception: ClientIdReception,
) -> Option<ClientAsyncMessage> {
    match reception {
        ClientIdReception::Retrieved(client_id) => Some(
            ClientAsyncMessage::Connected(connection, Some(client_id)),
        ),
        ClientIdReception::Failed(e) => Some(ClientAsyncMessage::ConnectionFailed(e)),
        ClientIdReception::Interrupted => None,
    }
}

/// The message for a connection once the reception of the client id has ended.
pub fn signal_reception(connection: InternalConnectionRef, reception: ClientIdReception) -> (r:
    Option<ClientAsyncMessage>)
    ensures
        r == reception_message(connection, reception),
{
    match reception {
        ClientIdReception::Retrieved(client_id) => Some(
            signal_connected(connection, Some(client_id)),
        ),
        ClientIdReception::Failed(e) => Some(ClientAsyncMessage::ConnectionFailed(e)),
        ClientIdReception::Interrupted => None,
    }
}

/// Where the task that establishes a connection stands.
pub enum ConnectingState {
    /// It has not begun.
    Idle,
    /// It looks for a home relay.
    Locating,
    /// It connects.
    Connecting,
    /// The connection is established, and the client id is awaited.
    AwaitingId(InternalConnectionRef),
    /// It has ended.
    Ended,
}

/// What that task has seen.
pub enum ConnectingEvent {
    /// It was started.
    Started,
    /// It has looked for a home relay: the one that is known, and how long the
    /// search has taken, in nanoseconds.
    RelayPolled(Option<RelayUrl>, u128),
    /// The connection could not be established.
    ConnectFailed(ConnectError),
    /// The connection is established.
    Established(InternalConnectionRef),
    /// The wait for the client id has ended.
    IdAwaited(ClientIdEvent),
}

/// What that task does next.
pub enum ConnectingAction {
    /// Look for a home relay.
    PollRelay,
    /// Look for a home relay after this many milliseconds.
    PollRelayAfter(u64),
    /// Connect to this address, with this protocol.
    Connect(EndpointAddr, Vec<u8>),
    /// Start the tasks of the connection, that which watches it among them, and
    /// wait for the client id.
    Serve,
    /// Start the tasks of the connection, that which watches it among them, and
    /// tell the synchronous side this.
    ServeAndSignal(ClientAsyncMessage),
    /// Tell the synchronous side this.
    Signal(ClientAsyncMessage),
    /// Nothing.
    Nothing,
}

/// `post` and `action` are where the task comes to stand on an event, and what it
/// does. It needs a home relay only where no address is configured, connects
/// whether or not it found one in time, and says how that went. Where the server
/// shares the client id, the connection counts as connected once the id is here.
pub open spec fn connecting(
    config: IrohClientConnectionConfigView,
    shares_id: bool,
    pre: ConnectingState,
    event: ConnectingEvent,
    post: ConnectingState,
    action: ConnectingAction,
) -> bool {
    match (pre, event) {
        (ConnectingState::Idle, ConnectingEvent::Started) => if config.endpoint_addr is Some {
            &&& post is Connecting
            &&& action matches ConnectingAction::Connect(addr, alpn) && leads_to(
                addr,
                config,
                None,
            ) && alpn@ == config.alpn
        } else {
            post is Locating && action is PollRelay
        },
        (
            ConnectingState::Locating,
            ConnectingEvent::RelayPolled(known, elapsed_nanos),
        ) => if known is None && elapsed_nanos <= RELAY_TIMEOUT_NANOS {
            post is Locating && action == ConnectingAction::PollRelayAfter(RELAY_POLL_MILLIS)
        } else {
            &&& post is Connecting
            &&& action matches ConnectingAction::Connect(addr, alpn) && leads_to(
                addr,
                config,
                known,
            ) && alpn@ == config.alpn
        },
        (ConnectingState::Connecting, ConnectingEvent::ConnectFailed(e)) => {
            &&& post is Ended
            &&& action matches ConnectingAction::Signal(
                ClientAsyncMessage::ConnectionFailed(err),
            ) && err.says(connect_error_text(e))
        },
        (ConnectingState::Connecting, ConnectingEvent::Established(connection)) => if shares_id {
            post == ConnectingState::AwaitingId(connection) && action is Serve
        } else {
            &&& post is Ended
            &&& action == ConnectingAction::ServeAndSignal(
                ClientAsyncMessage::Connected(connection, None),
            )
        },
        (ConnectingState::AwaitingId(connection), ConnectingEvent::IdAwaited(awaited)) => {
            &&& post is Ended
            &&& exists|reception: ClientIdReception| #[trigger]
                reception.follows(awaited) && action == match reception_message(
                    connection,
                    reception,
                ) {
                    Some(message) => ConnectingAction::Signal(message),
                    None => ConnectingAction::Nothing,
                }
        },
        _ => post == pre && action is Nothing,
    }
}

/// Connecting to the server, through the home relay if it is needed and known.
fn connect(config: &IrohClientConnectionConfig, relay_url: Option<RelayUrl>) -> (r:
    ConnectingAction)
    ensures
        r matches ConnectingAction::Connect(addr, alpn) && leads_to(addr, config@, relay_url)
            && alpn@ == config@.alpn,
{
    let alpn = config.alpn.clone();
    assert(alpn@ =~= config.alpn@);
    ConnectingAction::Connect(connect_address(config, relay_url), alpn)
}

/// Decides what the task that establishes a connection does on an event.
pub fn connecting_step(
    config: &IrohClientConnectionConfig,
    shares_id: bool,
    state: &mut ConnectingState,
    event: ConnectingEvent,
) -> (r: ConnectingAction)
    ensures
        connecting(config@, shares_id, *old(state), event, *final(state), r),
{
    match event {
        ConnectingEvent::Started => match state {
            ConnectingState::Idle => if needs_relay(config) {
                *state = ConnectingState::Locating;
                ConnectingAction::PollRelay
            } else {
                *state = ConnectingState::Connecting;
                connect(config, None)
            },
            _ => ConnectingAction::Nothing,
        },
        ConnectingEvent::RelayPolled(known, elapsed_nanos) => match state {
            ConnectingState::Locating => match search_relay(known, elapsed_nanos) {
                RelaySearch::Found(url) => {
                    *state = ConnectingState::Connecting;
                    connect(config, Some(url))
                },
                RelaySearch::TimedOut => {
                    *state = ConnectingState::Connecting;
                    connect(config, None)
                },
                RelaySearch::Retry(millis) => ConnectingAction::PollRelayAfter(millis),
            },
            _ => ConnectingAction::Nothing,
        },
        ConnectingEvent::ConnectFailed(e) => match state {
            ConnectingState::Connecting => {
                *state = ConnectingState::Ended;
                ConnectingAction::Signal(connection_failed(&e))
            },
            _ => ConnectingAction::Nothing,
        },
        ConnectingEvent::Established(connection) => match state {
            ConnectingState::Connecting => if shares_id {
                *state = ConnectingState::AwaitingId(connection);
                ConnectingAction::Serve
            } else {
                *state = ConnectingState::Ended;
                ConnectingAction::ServeAndSignal(signal_connected(connection, None))
            },
            _ => ConnectingAction::Nothing,
        },
        ConnectingEvent::IdAwaited(awaited) => match state {
            ConnectingState::AwaitingId(connection) => {
                let connection: InternalConnectionRef = *connection;
                let reception = receive_client_id(awaited);
                *state = ConnectingState::Ended;
                match signal_reception(connection, reception) {
                    Some(message) => ConnectingAction::Signal(message),
                    None => ConnectingAction::Nothing,
                }
            },
            _ => ConnectingAction::Nothing,
        },
    }
}

/// Where the task that watches an established connection stands. It starts together
/// with the other tasks of the connection, whether or not a client id is awaited.
#[derive(Debug, Copy, Clone, PartialEq, Eq, Structural)]
pub enum WatchingState {
    /// It waits until the connection is closed.
    Watching,
    /// It has ended.
    Ended,
}

/// What that task does next.
pub enum WatchingAction {
    /// Tell the synchronous side this, and end.
    Tell(ClientAsyncMessage),
    /// End.
    End,
}

/// `post` and `action` are where the task comes to stand once the connection is
/// closed, and what it does: it tells the synchronous side, if that still listens to
/// its tasks.
pub open spec fn watching(
    pre: WatchingState,
    client_listens: bool,
    post: WatchingState,
    action: WatchingAction,
) -> bool {
    &&& post is Ended
    &&& action == if pre is Watching && client_listens {
        WatchingAction::Tell(ClientAsyncMessage::ConnectionClosed)
    } else {
        WatchingAction::End
    }
}

/// Decides what the task that watches an established connection does once the
/// connection is closed.
pub fn watching_step(state: &mut WatchingState, client_listens: bool) -> (r: WatchingAction)
    ensures
        watching(*old(state), client_listens, *final(state), r),
{
    let watched: WatchingState = *state;
    *state = WatchingState::Ended;
    match watched {
        WatchingState::Watching if client_listens => WatchingAction::Tell(
            ClientAsyncMessage::ConnectionClosed,
        ),
        _ => WatchingAction::End,
    }
}

} // verus!
