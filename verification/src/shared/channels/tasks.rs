//! Decisions of the async task that starts the channels of a connection.

use bytes::Bytes;
use tokio::sync::mpsc;
use vstd::prelude::*;

use crate::shared::channels::{ChannelConfig, ChannelId, ChannelSyncMessage};

verus! {

/// The code that a connection is closed with.
pub const CLOSE_CODE: u32 = 0;

/// The reason that a connection is closed with.
pub const CLOSE_REASON: &'static str = "closed";

/// What the task of a channel works with, besides the connection.
pub struct SendChannelTaskData {
    /// Id of the channel.
    pub id: ChannelId,
    /// Where the order to stop comes from.
    pub channel_close_recv: mpsc::Receiver<()>,
    /// Where the payloads to send come from.
    pub bytes_recv: mpsc::Receiver<Bytes>,
}

/// What the task that starts channels has seen.
pub enum SpawnerEvent {
    /// The connection was ordered to close.
    CloseSignal,
    /// A channel was asked for.
    Request(ChannelSyncMessage),
    /// No more channels can be asked for.
    RequestsEnded,
    /// The tasks of all channels have ended.
    ChannelsEnded,
}

/// Where that task stands.
#[derive(Debug, Copy, Clone, PartialEq, Eq, Structural)]
pub enum SpawnerState {
    /// It starts the channels that are asked for.
    Listening,
    /// It waits for the tasks of the channels to end.
    Draining,
    /// It has ended.
    Ended,
}

/// What that task does next.
pub enum SpawnerAction {
    /// Start the task of an ordered reliable channel, with this frame size.
    StartOrderedReliable(SendChannelTaskData, usize),
    /// Start the task of an unordered reliable channel, with this frame size.
    StartUnorderedReliable(SendChannelTaskData, usize),
    /// Start the task of an unreliable channel.
    StartUnreliable(SendChannelTaskData),
    /// Wait for the tasks of the channels to end.
    AwaitChannels,
    /// Close the connection with this code and for this reason.
    CloseConnection(u32, &'static str),
    /// Nothing.
    Nothing,
}

/// `data` is what the task of the channel works with that `request` asks for.
pub open spec fn fulfils(data: SendChannelTaskData, request: ChannelSyncMessage) -> bool {
    &&& data.id == request->id
    &&& data.channel_close_recv == request->channel_close_recv
    &&& data.bytes_recv == request->bytes_to_channel_recv
}

/// `action` starts the task of the channel that `request` asks for: the one that
/// its config names.
pub open spec fn starts(action: SpawnerAction, request: ChannelSyncMessage) -> bool {
    match request->config {
        ChannelConfig::OrderedReliable { max_frame_size } => {
            &&& action matches SpawnerAction::StartOrderedReliable(data, size)
            &&& fulfils(data, request)
            &&& size == max_frame_size
        },
        ChannelConfig::UnorderedReliable { max_frame_size } => {
            &&& action matches SpawnerAction::StartUnorderedReliable(data, size)
            &&& fulfils(data, request)
            &&& size == max_frame_size
        },
        ChannelConfig::Unreliable => {
            &&& action matches SpawnerAction::StartUnreliable(data)
            &&& fulfils(data, request)
        },
    }
}

impl SpawnerState {
    /// Where the task stands after an event.
    pub open spec fn after(self, event: SpawnerEvent) -> Self {
        match (self, event) {
            (SpawnerState::Listening, SpawnerEvent::CloseSignal) => SpawnerState::Draining,
            (SpawnerState::Listening, SpawnerEvent::RequestsEnded) => SpawnerState::Draining,
            (SpawnerState::Draining, SpawnerEvent::ChannelsEnded) => SpawnerState::Ended,
            _ => self,
        }
    }

    /// `action` is what the task does on an event.
    pub open spec fn acts(self, event: SpawnerEvent, action: SpawnerAction) -> bool {
        match (self, event) {
            (SpawnerState::Listening, SpawnerEvent::Request(request)) => starts(action, request),
            (SpawnerState::Listening, SpawnerEvent::CloseSignal) => action is AwaitChannels,
            (SpawnerState::Listening, SpawnerEvent::RequestsEnded) => action is AwaitChannels,
            (SpawnerState::Draining, SpawnerEvent::ChannelsEnded) => action
                == SpawnerAction::CloseConnection(CLOSE_CODE, CLOSE_REASON),
            _ => action is Nothing,
        }
    }
}

/// Decides what the task that starts channels does on an event. It starts each
/// channel that is asked for until the connection is ordered to close or nothing
/// more can be asked for. Then it waits for the channels, and closes the
/// connection.
pub fn spawner_step(state: &mut SpawnerState, event: SpawnerEvent) -> (r: SpawnerAction)
    ensures
        *final(state) == old(state).after(event),
        old(state).acts(event, r),
{
    match *state {
        SpawnerState::Listening => match event {
            SpawnerEvent::Request(
                ChannelSyncMessage::CreateChannel {
                    id,
                    config,
                    bytes_to_channel_recv,
                    channel_close_recv,
                },
            ) => {
                let data = SendChannelTaskData {
                    id,
                    channel_close_recv,
                    bytes_recv: bytes_to_channel_recv,
                };
                match config {
                    ChannelConfig::OrderedReliable { max_frame_size } => {
                        SpawnerAction::StartOrderedReliable(data, max_frame_size)
                    },
                    ChannelConfig::UnorderedReliable { max_frame_size } => {
                        SpawnerAction::StartUnorderedReliable(data, max_frame_size)
                    },
                    ChannelConfig::Unreliable => SpawnerAction::StartUnreliable(data),
                }
            },
            SpawnerEvent::CloseSignal | SpawnerEvent::RequestsEnded => {
                *state = SpawnerState::Draining;
                SpawnerAction::AwaitChannels
            },
            SpawnerEvent::ChannelsEnded => SpawnerAction::Nothing,
        },
        SpawnerState::Draining => match event {
            SpawnerEvent::ChannelsEnded => {
                *state = SpawnerState::Ended;
                SpawnerAction::CloseConnection(CLOSE_CODE, CLOSE_REASON)
            },
            _ => SpawnerAction::Nothing,
        },
        SpawnerState::Ended => SpawnerAction::Nothing,
    }
}

} // verus!
