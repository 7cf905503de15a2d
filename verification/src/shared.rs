//! What the client and the server share.

use iroh::{Endpoint, EndpointId};
use vstd::prelude::*;

pub mod calls;
pub mod channels;
pub mod error;
pub mod laws;
pub mod listing;
pub mod payload;
pub mod peer_connection;
pub mod queues;

verus! {

/// Id that a server gives to a client.
pub type ClientId = u64;

/// How many bytes a client id takes on the wire.
pub const CLIENT_ID_LEN: usize = 8;

/// Room for payloads in the queues of a connection and of its channels.
pub const DEFAULT_MESSAGE_QUEUE_SIZE: usize = 150;

/// Room for close orders.
pub const DEFAULT_KILL_MESSAGE_QUEUE_SIZE: usize = 10;

/// Room for messages between the synchronous side and the async tasks.
pub const DEFAULT_INTERNAL_MESSAGES_CHANNEL_SIZE: usize = 100;

/// Room for requests to create channels.
pub const DEFAULT_QCHANNEL_MESSAGES_CHANNEL_SIZE: usize = 100;

/// The public key that identifies an endpoint.
#[verifier::external_type_specification]
#[verifier::external_body]
pub struct ExEndpointId(iroh::EndpointId);

/// An iroh endpoint.
#[verifier::external_type_specification]
#[verifier::external_body]
pub struct ExEndpoint(iroh::Endpoint);

/// The id of an endpoint, which is its public key.
pub uninterp spec fn identity(endpoint: Endpoint) -> EndpointId;

/// `iroh::Endpoint::id`: the public key of the endpoint's secret key, which an
/// endpoint has for life.
#[verifier::external_body]
pub(crate) fn endpoint_id(endpoint: &Endpoint) -> (r: EndpointId)
    ensures
        r == identity(*endpoint),
{
    endpoint.id()
}

/// `<iroh::Endpoint as Clone>::clone`: another handle of the same endpoint.
pub assume_specification[ <Endpoint as Clone>::clone ](endpoint: &Endpoint) -> (r: Endpoint)
    ensures
        r == *endpoint,
;

/// What the synchronous side knows of an established connection.
#[derive(Debug, Copy, Clone)]
pub struct InternalConnectionRef {
    /// Number of the connection, by which its handle is found.
    pub stable_id: usize,
    /// Identity of the peer.
    pub remote_id: EndpointId,
}

} // verus!
