//! Channels of a connection.

use bytes::Bytes;
use tokio::sync::mpsc;
use vstd::prelude::*;

use crate::shared::error::AsyncChannelError;
#[allow(unused_imports)]
use crate::shared::payload::payload_bytes;
#[allow(unused_imports)]
use crate::shared::queues::{answer_of, mpsc_halves, queue_answered, Answer};
use crate::shared::queues::Outbox;
#[allow(unused_imports)]
use crate::shared::DEFAULT_MESSAGE_QUEUE_SIZE;

pub mod tasks;

verus! {

/// Id of a channel of a connection.
pub type ChannelId = u8;

/// How many channels a connection can have.
pub const MAX_CHANNEL_COUNT: usize = 256;

/// How a channel carries its payloads.
#[derive(Debug, Copy, Clone, PartialEq, Eq, Structural)]
pub enum ChannelConfig {
    /// Every payload arrives, in the order of sending.
    OrderedReliable {
        /// Largest payload, in bytes.
        max_frame_size: usize,
    },
    /// Every payload arrives, in any order.
    UnorderedReliable {
        /// Largest payload, in bytes.
        max_frame_size: usize,
    },
    /// Payloads can be lost or change order.
    Unreliable,
}

/// Who closed a connection.
#[derive(Debug, Copy, Clone, PartialEq, Eq, Structural)]
pub enum CloseReason {
    /// This side ordered it.
    LocalOrder,
    /// The peer closed it.
    PeerClosed,
}

/// What a channel task reports to the synchronous side.
#[derive(Debug, Copy, Clone, PartialEq, Eq, Structural)]
pub enum ChannelAsyncMessage {
    /// The connection is lost.
    LostConnection,
}

/// What the synchronous side asks of the async tasks of a connection.
pub enum ChannelSyncMessage {
    /// Start the task of a new channel.
    CreateChannel {
        /// Id of the channel.
        id: ChannelId,
        /// How it carries its payloads.
        config: ChannelConfig,
        /// Where the payloads to send come from.
        bytes_to_channel_recv: mpsc::Receiver<Bytes>,
        /// Where the order to stop comes from.
        channel_close_recv: mpsc::Receiver<()>,
    },
}

/// The channels to open on each new connection, in order.
pub struct SendChannelsConfiguration {
    configs: Vec<ChannelConfig>,
}

impl View for SendChannelsConfiguration {
    type V = Seq<ChannelConfig>;

    closed spec fn view(&self) -> Seq<ChannelConfig> {
        self.configs@
    }
}

impl SendChannelsConfiguration {
    /// There are ids for every configured channel.
    #[verifier::type_invariant]
    spec fn fits(self) -> bool {
        self.configs@.len() <= MAX_CHANNEL_COUNT
    }

    /// A configuration without channels.
    pub fn new() -> (r: Self)
        ensures
            r@ == Seq::<ChannelConfig>::empty(),
    {
        SendChannelsConfiguration { configs: Vec::new() }
    }

    /// The configuration that opens these channels; `None` when a connection
    /// cannot have so many.
    pub fn from_configs(configs: Vec<ChannelConfig>) -> (r: Option<Self>)
        ensures
            r is Some <==> configs@.len() <= MAX_CHANNEL_COUNT,
            r matches Some(c) ==> c@ == configs@,
    {
        if configs.len() <= MAX_CHANNEL_COUNT {
            Some(SendChannelsConfiguration { configs })
        } else {
            None
        }
    }

    /// The configured channels.
    pub fn configs(&self) -> (r: &Vec<ChannelConfig>)
        ensures
            r@ == self@,
            r@.len() <= MAX_CHANNEL_COUNT,
    {
        proof {
            use_type_invariant(self);
        }
        &self.configs
    }
}

impl Clone for SendChannelsConfiguration {
    fn clone(&self) -> (r: Self)
        ensures
            r@ == self@,
    {
        proof {
            use_type_invariant(self);
        }
        let configs = self.configs.clone();
        assert(configs@ =~= self.configs@);
        SendChannelsConfiguration { configs }
    }
}

/// What a channel amounts to.
#[verifier::ext_equal]
pub struct ChannelView {
    /// Its id.
    pub id: ChannelId,
    /// The sending half of the queue of its payloads.
    pub payload_half: mpsc::Sender<Bytes>,
    /// The sending half of the queue of its order to stop.
    pub stop_half: mpsc::Sender<()>,
    /// The payloads that were offered to its queue, oldest first, each with the
    /// answer.
    pub sends: Seq<(Seq<u8>, Answer)>,
    /// The answers to the orders to stop.
    pub stops: Seq<Answer>,
}

/// The payloads of those offers that the queue took, oldest first.
pub open spec fn taken_payloads(offers: Seq<(Seq<u8>, Answer)>) -> Seq<Seq<u8>>
    decreases offers.len(),
{
    if offers.len() == 0 {
        Seq::empty()
    } else {
        let before = taken_payloads(offers.drop_last());
        let (payload, answer) = offers.last();
        if answer is Taken {
            before.push(payload)
        } else {
            before
        }
    }
}

impl ChannelView {
    /// The channel was not used.
    pub open spec fn fresh(self) -> bool {
        &&& self.sends == Seq::<(Seq<u8>, Answer)>::empty()
        &&& self.stops == Seq::<Answer>::empty()
    }

    /// The task that `request` asks for gets the receiving halves of the queues of
    /// this channel: that of the payloads, and that of the order to stop.
    pub open spec fn feeds(self, request: ChannelSyncMessage) -> bool {
        &&& mpsc_halves(
            DEFAULT_MESSAGE_QUEUE_SIZE,
            self.payload_half,
            request->bytes_to_channel_recv,
        )
        &&& mpsc_halves(1, self.stop_half, request->channel_close_recv)
    }

    /// The payloads that the queue of the channel has taken, oldest first.
    pub open spec fn sent(self) -> Seq<Seq<u8>> {
        taken_payloads(self.sends)
    }

    /// The channel once a payload was offered to its queue.
    pub open spec fn offered(self, payload: Seq<u8>, answer: Answer) -> Self {
        ChannelView { sends: self.sends.push((payload, answer)), ..self }
    }

    /// The channel once it was ordered to stop.
    pub open spec fn stopped(self, answer: Answer) -> Self {
        ChannelView { stops: self.stops.push(answer), ..self }
    }
}

/// The task of a channel was ordered to stop, through the queue of the channel for
/// that, and `r` is what the queue answered.
pub open spec fn told_to_stop(channel: ChannelView, r: Result<(), AsyncChannelError>) -> bool {
    queue_answered(channel.stop_half, (), r)
}

/// A request for a channel that the async tasks were handed, and the channel.
#[verifier::ext_equal]
pub struct Link {
    /// The request.
    pub request: ChannelSyncMessage,
    /// The channel.
    pub channel: ChannelView,
}

impl Link {
    /// The request asks for a channel with this id and config, and the channel is
    /// that channel, before it is used.
    pub open spec fn made_for(self, id: ChannelId, config: ChannelConfig) -> bool {
        &&& self.request->id == id
        &&& self.request->config == config
        &&& self.channel.id == id
        &&& self.channel.fresh()
        &&& self.channel.feeds(self.request)
    }
}

/// `links` are those of channels with these ids and configs, in order.
pub open spec fn links_for(links: Seq<Link>, entries: Seq<(ChannelId, ChannelConfig)>) -> bool {
    &&& links.len() == entries.len()
    &&& forall|i: int|
        0 <= i < links.len() ==> (#[trigger] links[i]).made_for(entries[i].0, entries[i].1)
}

/// The synchronous side of an open channel.
pub struct Channel {
    /// Id of the channel.
    pub id: ChannelId,
    /// Where the payloads to send go.
    pub sender: Outbox<Bytes>,
    /// Where the order to stop goes.
    pub close_sender: Outbox<()>,
}

impl View for Channel {
    type V = ChannelView;

    open spec fn view(&self) -> ChannelView {
        ChannelView {
            id: self.id,
            payload_half: self.sender.half(),
            stop_half: self.close_sender.half(),
            sends: self.sender.offers().map_values(
                |o: (Bytes, Answer)| (payload_bytes(o.0), o.1),
            ),
            stops: self.close_sender.offers().map_values(|o: ((), Answer)| o.1),
        }
    }
}

impl Channel {
    /// Offers a payload to the queue of the channel, once, and returns the
    /// answer.
    pub fn send_payload(&mut self, payload: Bytes) -> (r: Result<(), AsyncChannelError>)
        ensures
            final(self)@ == old(self)@.offered(payload_bytes(payload), answer_of(r)),
            queue_answered(old(self)@.payload_half, payload, r),
    {
        let r = self.sender.try_send(payload);
        assert(self@ =~= old(self)@.offered(payload_bytes(payload), answer_of(r)));
        r
    }

    /// Orders the task of the channel to stop, once, and returns the answer.
    pub fn close(&mut self) -> (r: Result<(), AsyncChannelError>)
        ensures
            final(self)@ == old(self)@.stopped(answer_of(r)),
            told_to_stop(old(self)@, r),
    {
        let r = self.close_sender.try_send(());
        assert(self@ =~= old(self)@.stopped(answer_of(r)));
        r
    }
}

} // verus!
