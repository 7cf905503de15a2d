//! Errors of the client side.

use vstd::prelude::*;

use crate::client::connection::ConnectionLocalId;
use crate::shared::error::{ConnectionAlreadyClosed, ConnectionSendError};

verus! {

/// Errors when sending on a chosen channel.
#[derive(Debug, Clone, Copy, PartialEq, Eq)]
pub enum ClientSendError {
    /// The connection is disconnected.
    ConnectionClosed,
    /// The connection did not take the payload.
    ConnectionSendError(ConnectionSendError),
}

/// Errors when sending on the default channel.
#[derive(Debug, Clone, Copy, PartialEq, Eq)]
pub enum ClientPayloadSendError {
    /// There is no default channel.
    NoDefaultChannel,
    /// The default channel did not take the payload.
    SendError(ClientSendError),
}

/// The client connection is closed.
#[derive(Debug, Clone, Copy, PartialEq, Eq)]
pub struct ConnectionClosed;

/// Errors when closing a connection.
#[derive(Debug, Clone, Copy, PartialEq, Eq)]
pub enum ClientConnectionCloseError {
    /// The tasks of the connection were gone already.
    ConnectionAlreadyClosed(ConnectionAlreadyClosed),
    /// The client has no connection with this id.
    InvalidConnectionId(ConnectionLocalId),
}

impl From<ConnectionSendError> for ClientSendError {
    fn from(e: ConnectionSendError) -> (r: Self) {
        ClientSendError::ConnectionSendError(e)
    }
}

impl vstd::std_specs::convert::FromSpecImpl<ConnectionSendError> for ClientSendError {
    open spec fn obeys_from_spec() -> bool {
        true
    }

    open spec fn from_spec(e: ConnectionSendError) -> Self {
        ClientSendError::ConnectionSendError(e)
    }
}

impl From<ClientSendError> for ClientPayloadSendError {
    fn from(e: ClientSendError) -> (r: Self) {
        ClientPayloadSendError::SendError(e)
    }
}

impl vstd::std_specs::convert::FromSpecImpl<ClientSendError> for ClientPayloadSendError {
    open spec fn obeys_from_spec() -> bool {
        true
    }

    open spec fn from_spec(e: ClientSendError) -> Self {
        ClientPayloadSendError::SendError(e)
    }
}

impl From<ConnectionAlreadyClosed> for ClientConnectionCloseError {
    fn from(e: ConnectionAlreadyClosed) -> (r: Self) {
        ClientConnectionCloseError::ConnectionAlreadyClosed(e)
    }
}

impl vstd::std_specs::convert::FromSpecImpl<ConnectionAlreadyClosed> for ClientConnectionCloseError {
    open spec fn obeys_from_spec() -> bool {
        true
    }

    open spec fn from_spec(e: ConnectionAlreadyClosed) -> Self {
        ClientConnectionCloseError::ConnectionAlreadyClosed(e)
    }
}

} // verus!
