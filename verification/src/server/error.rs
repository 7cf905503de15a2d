//! Errors of the server side.

use iroh::endpoint::BindError;
use vstd::prelude::*;

use crate::shared::error::{AsyncChannelError, ConnectionSendError};
use crate::shared::ClientId;

verus! {

/// Errors when sending to one client on a chosen channel.
#[derive(Debug, Clone, Copy, PartialEq, Eq)]
pub enum ServerSendError {
    /// No client has this id.
    UnknownClient(ClientId),
    /// The connection of the client did not take the payload.
    ConnectionSendError(ConnectionSendError),
}

/// Errors when sending to one client on the default channel.
#[derive(Debug, Clone, Copy, PartialEq, Eq)]
pub enum ServerPayloadSendError {
    /// There is no default channel.
    NoDefaultChannel,
    /// The payload was not sent.
    SendError(ServerSendError),
}

/// The clients that a group send did not reach, each with the reason.
#[derive(Debug, PartialEq, Eq)]
pub struct ServerGroupSendError(pub Vec<(ClientId, ServerSendError)>);

/// Errors when sending to several clients on the default channel.
#[derive(Debug, PartialEq, Eq)]
pub enum ServerGroupPayloadSendError {
    /// There is no default channel.
    NoDefaultChannel,
    /// Some clients were not reached.
    GroupSendError(ServerGroupSendError),
}

/// Errors when reading what a client has sent.
#[derive(Debug, Clone, Copy, PartialEq, Eq)]
pub enum ServerReceiveError {
    /// No client has this id.
    UnknownClient(ClientId),
}

/// Errors when disconnecting a client.
#[derive(Debug, Clone, Copy, PartialEq, Eq)]
pub enum ServerDisconnectError {
    /// No client has this id.
    UnknownClient(ClientId),
    /// The tasks of the client's connection were gone already.
    ClientAlreadyDisconnected(ClientId),
}

/// The endpoint is already closed.
#[derive(Debug, Clone, Copy, PartialEq, Eq)]
pub struct EndpointAlreadyClosed;

/// The `std::io::Error` that [`EndpointStartError`] carries.
#[verifier::external_type_specification]
#[verifier::external_body]
pub struct ExIoError(std::io::Error);

/// Errors when starting an endpoint.
#[derive(Debug)]
pub enum EndpointStartError {
    /// An I/O error.
    IoError(std::io::Error),
    /// The endpoint could not be bound; the text says why.
    BindError(String),
    /// A configured channel could not be opened.
    AsyncChannelError(AsyncChannelError),
}

impl From<ConnectionSendError> for ServerSendError {
    fn from(e: ConnectionSendError) -> (r: Self) {
        ServerSendError::ConnectionSendError(e)
    }
}

impl vstd::std_specs::convert::FromSpecImpl<ConnectionSendError> for ServerSendError {
    open spec fn obeys_from_spec() -> bool {
        true
    }

    open spec fn from_spec(e: ConnectionSendError) -> Self {
        ServerSendError::ConnectionSendError(e)
    }
}

impl From<ServerSendError> for ServerPayloadSendError {
    fn from(e: ServerSendError) -> (r: Self) {
        ServerPayloadSendError::SendError(e)
    }
}

impl vstd::std_specs::convert::FromSpecImpl<ServerSendError> for ServerPayloadSendError {
    open spec fn obeys_from_spec() -> bool {
        true
    }

    open spec fn from_spec(e: ServerSendError) -> Self {
        ServerPayloadSendError::SendError(e)
    }
}

impl From<ServerGroupSendError> for ServerGroupPayloadSendError {
    fn from(e: ServerGroupSendError) -> (r: Self) {
        ServerGroupPayloadSendError::GroupSendError(e)
    }
}

impl vstd::std_specs::convert::FromSpecImpl<ServerGroupSendError> for ServerGroupPayloadSendError {
    open spec fn obeys_from_spec() -> bool {
        true
    }

    open spec fn from_spec(e: ServerGroupSendError) -> Self {
        ServerGroupPayloadSendError::GroupSendError(e)
    }
}

impl From<AsyncChannelError> for EndpointStartError {
    fn from(e: AsyncChannelError) -> (r: Self) {
        EndpointStartError::AsyncChannelError(e)
    }
}

impl vstd::std_specs::convert::FromSpecImpl<AsyncChannelError> for EndpointStartError {
    open spec fn obeys_from_spec() -> bool {
        true
    }

    open spec fn from_spec(e: AsyncChannelError) -> Self {
        EndpointStartError::AsyncChannelError(e)
    }
}

/// Why an endpoint could not be bound.
#[verifier::external_type_specification]
#[verifier::external_body]
pub struct ExBindError(iroh::endpoint::BindError);

/// The text of a bind error.
pub uninterp spec fn bind_error_text(e: BindError) -> Seq<char>;

/// `<iroh::endpoint::BindError as ToString>::to_string`: the text of the error.
#[verifier::external_body]
fn bind_error_to_string(e: &BindError) -> (r: String)
    ensures
        r@ == bind_error_text(*e),
{
    e.to_string()
}

impl EndpointStartError {
    /// The endpoint could not be bound, and the error carries this text.
    pub open spec fn unbound(self, text: Seq<char>) -> bool {
        self matches EndpointStartError::BindError(said) && said@ == text
    }
}

impl From<BindError> for EndpointStartError {
    fn from(e: BindError) -> (r: Self)
        ensures
            r.unbound(bind_error_text(e)),
    {
        EndpointStartError::BindError(bind_error_to_string(&e))
    }
}

impl vstd::std_specs::convert::FromSpecImpl<BindError> for EndpointStartError {
    open spec fn obeys_from_spec() -> bool {
        false
    }

    open spec fn from_spec(e: BindError) -> Self {
        choose|r: Self| #[trigger] r.unbound(bind_error_text(e))
    }
}

impl From<std::io::Error> for EndpointStartError {
    fn from(e: std::io::Error) -> (r: Self) {
        EndpointStartError::IoError(e)
    }
}

impl vstd::std_specs::convert::FromSpecImpl<std::io::Error> for EndpointStartError {
    open spec fn obeys_from_spec() -> bool {
        true
    }

    open spec fn from_spec(e: std::io::Error) -> Self {
        EndpointStartError::IoError(e)
    }
}

} // verus!
