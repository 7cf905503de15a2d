//! Errors shared by the client and the server.

use vstd::prelude::*;

use crate::shared::channels::ChannelId;

verus! {

/// Error of an internal queue between the synchronous side and the async tasks.
#[derive(Debug, Clone, Copy, PartialEq, Eq, Structural)]
pub enum AsyncChannelError {
    /// The queue has no room for one more message.
    FullQueue,
    /// The receiving side of the queue is gone.
    InternalChannelClosed,
}

/// The connection has no listener left for a close order.
#[derive(Debug, Clone, Copy, PartialEq, Eq)]
pub struct ConnectionAlreadyClosed;

/// Errors when handing a payload to a connection.
#[derive(Debug, Clone, Copy, PartialEq, Eq)]
pub enum ConnectionSendError {
    /// No channel is registered under this id.
    InvalidChannelId(ChannelId),
    /// The queue of the channel did not take the payload.
    AsyncChannelError(AsyncChannelError),
}

/// Errors when opening a channel.
#[derive(Debug, Clone, Copy, PartialEq, Eq)]
pub enum ChannelCreationError {
    /// The async tasks could not be told about the channel.
    AsyncChannelError(AsyncChannelError),
    /// Every channel id is in use.
    MaxChannelsCountReached,
}

/// Errors when closing a channel.
#[derive(Debug, Clone, Copy, PartialEq, Eq)]
pub enum ChannelCloseError {
    /// No channel is registered under this id.
    InvalidChannelId(ChannelId),
    /// The task of the channel could not be told to stop.
    AsyncChannelError(AsyncChannelError),
}

/// Errors when sorting received payloads into their channel buffers.
#[derive(Debug, Clone, Copy, PartialEq, Eq)]
pub enum RecvChannelError {
    /// The buffer of this channel is full: the payload was dropped.
    RecvChannelFull(ChannelId),
}

/// A receive error, and the connection on which it occurred.
#[derive(Debug, PartialEq, Eq)]
pub struct RecvChannelErrorEvent<Id> {
    /// Id of the connection.
    pub id: Id,
    /// The error.
    pub error: RecvChannelError,
}

/// The events for the errors of one connection, in order.
pub open spec fn error_events<Id>(id: Id, errors: Seq<RecvChannelError>) -> Seq<
    RecvChannelErrorEvent<Id>,
> {
    errors.map_values(|error: RecvChannelError| RecvChannelErrorEvent { id, error })
}

/// Appends the events for the errors of one connection.
pub(crate) fn push_error_events(
    events: &mut Vec<RecvChannelErrorEvent<u64>>,
    id: u64,
    errors: Vec<RecvChannelError>,
)
    ensures
        final(events)@ == old(events)@ + error_events(id, errors@),
{
    let ghost all = error_events(id, errors@);
    assert(events@ =~= old(events)@ + all.take(0));
    for error in iter: errors
        invariant
            all == error_events(id, iter.seq()),
            events@ == old(events)@ + all.take(iter.index()),
    {
        let ghost before = events@;
        events.push(RecvChannelErrorEvent { id, error });
        assert(events@ =~= old(events)@ + all.take(iter.index() + 1));
    }
    assert(all.take(all.len() as int) =~= all);
}

impl From<AsyncChannelError> for ConnectionSendError {
    fn from(e: AsyncChannelError) -> (r: Self) {
        ConnectionSendError::AsyncChannelError(e)
    }
}

impl vstd::std_specs::convert::FromSpecImpl<AsyncChannelError> for ConnectionSendError {
    open spec fn obeys_from_spec() -> bool {
        true
    }

    open spec fn from_spec(e: AsyncChannelError) -> Self {
        ConnectionSendError::AsyncChannelError(e)
    }
}

impl From<AsyncChannelError> for ChannelCreationError {
    fn from(e: AsyncChannelError) -> (r: Self) {
        ChannelCreationError::AsyncChannelError(e)
    }
}

impl vstd::std_specs::convert::FromSpecImpl<AsyncChannelError> for ChannelCreationError {
    open spec fn obeys_from_spec() -> bool {
        true
    }

    open spec fn from_spec(e: AsyncChannelError) -> Self {
        ChannelCreationError::AsyncChannelError(e)
    }
}

impl From<AsyncChannelError> for ChannelCloseError {
    fn from(e: AsyncChannelError) -> (r: Self) {
        ChannelCloseError::AsyncChannelError(e)
    }
}

impl vstd::std_specs::convert::FromSpecImpl<AsyncChannelError> for ChannelCloseError {
    open spec fn obeys_from_spec() -> bool {
        true
    }

    open spec fn from_spec(e: AsyncChannelError) -> Self {
        ChannelCloseError::AsyncChannelError(e)
    }
}

} // verus!
