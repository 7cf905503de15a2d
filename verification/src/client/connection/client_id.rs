//! Reception of the id that a server gives to this client.

use iroh::endpoint::ConnectionError;
use vstd::prelude::*;

use crate::client::IrohConnectionError;
#[allow(unused_imports)]
use crate::client::connection_error_text;
#[allow(unused_imports)]
use crate::shared::payload::big_endian;
use crate::shared::payload::read_uint;
use crate::shared::{ClientId, CLIENT_ID_LEN};

verus! {

/// What the reception of a client id came to.
#[derive(Debug)]
pub enum ClientIdReception {
    /// The connection was ordered to close meanwhile.
    Interrupted,
    /// The id was received.
    Retrieved(ClientId),
    /// The id was not received.
    Failed(IrohConnectionError),
}

/// What happened first while the client id was awaited.
pub enum ClientIdEvent {
    /// The connection was ordered to close.
    CloseOrdered,
    /// The stream that carries the id was not opened.
    StreamFailed(ConnectionError),
    /// The stream ended, or broke, before a frame came.
    NoFrame,
    /// A frame came.
    Frame(Vec<u8>),
}

impl ClientIdReception {
    /// What the reception came to, given what happened first.
    pub open spec fn follows(self, event: ClientIdEvent) -> bool {
        match event {
            ClientIdEvent::CloseOrdered => self is Interrupted,
            ClientIdEvent::StreamFailed(e) => self matches ClientIdReception::Failed(err)
                && err.says(connection_error_text(e)),
            ClientIdEvent::NoFrame => self matches ClientIdReception::Failed(
                IrohConnectionError::ClientIdNotReceived,
            ),
            ClientIdEvent::Frame(frame) => if frame@.len() >= CLIENT_ID_LEN {
                self matches ClientIdReception::Retrieved(id) && id as nat == big_endian(
                    frame@.take(CLIENT_ID_LEN as int),
                )
            } else {
                self matches ClientIdReception::Failed(IrohConnectionError::InvalidClientId)
            },
        }
    }
}

/// The client id that a frame holds in its first bytes, most significant byte
/// first. Bytes that follow are ignored; a frame that is too short holds none.
pub fn client_id_from_frame(frame: &[u8]) -> (r: Result<ClientId, IrohConnectionError>)
    ensures
        if frame@.len() >= CLIENT_ID_LEN {
            r matches Ok(id) && id as nat == big_endian(frame@.take(CLIENT_ID_LEN as int))
        } else {
            r matches Err(IrohConnectionError::InvalidClientId)
        },
{
    if frame.len() >= CLIENT_ID_LEN {
        Ok(read_uint(frame, CLIENT_ID_LEN))
    } else {
        Err(IrohConnectionError::InvalidClientId)
    }
}

/// Decides what the reception of a client id came to.
pub fn receive_client_id(event: ClientIdEvent) -> (r: ClientIdReception)
    ensures
        r.follows(event),
{
    match event {
        ClientIdEvent::CloseOrdered => ClientIdReception::Interrupted,
        ClientIdEvent::StreamFailed(e) => ClientIdReception::Failed(IrohConnectionError::from(e)),
        ClientIdEvent::NoFrame => ClientIdReception::Failed(
            IrohConnectionError::ClientIdNotReceived,
        ),
        ClientIdEvent::Frame(frame) => match client_id_from_frame(frame.as_slice()) {
            Ok(client_id) => ClientIdReception::Retrieved(client_id),
            Err(e) => ClientIdReception::Failed(e),
        },
    }
}

} // verus!
