//! Messages, which are values that bincode turns into payloads and back.
//!
//! Whoever sends a message hands over what encoding it resulted in; whoever
//! receives one hands over how to decode it.

use bincode::error::{DecodeError, EncodeError};
use vstd::prelude::*;

use crate::server::endpoint::ServerEndpoint;
#[allow(unused_imports)]
use crate::server::endpoint::ServerEndpointView;
use crate::server::{ServerGroupSendError, ServerReceiveError, ServerSendError};
use crate::shared::channels::ChannelId;
use crate::shared::payload::{payload_as_slice, payload_from_vec};
#[allow(unused_imports)]
use crate::shared::queues::Answer;
use crate::shared::ClientId;

verus! {

/// Why bincode could not encode a value.
#[verifier::external_type_specification]
#[verifier::external_body]
pub struct ExEncodeError(bincode::error::EncodeError);

/// Why bincode could not decode a value.
#[verifier::external_type_specification]
#[verifier::external_body]
pub struct ExDecodeError(bincode::error::DecodeError);

/// Errors when sending a message to one client.
#[derive(Debug, Clone, Copy, PartialEq, Eq)]
pub enum ServerMessageSendError {
    /// The message could not be encoded.
    Serialization,
    /// There is no default channel.
    NoDefaultChannel,
    /// The message was not sent.
    SendError(ServerSendError),
}

/// Errors when sending a message to several clients.
#[derive(Debug, PartialEq, Eq)]
pub enum ServerGroupMessageSendError {
    /// The message could not be encoded.
    Serialization,
    /// There is no default channel.
    NoDefaultChannel,
    /// Some clients were not reached.
    GroupSendError(ServerGroupSendError),
}

/// Errors when receiving a message.
#[derive(Debug, Clone, Copy, PartialEq, Eq)]
pub enum ServerMessageReceiveError {
    /// The payload is no message.
    Deserialization,
    /// There is no default channel.
    NoDefaultChannel,
    /// There is nothing to receive from.
    ReceiveError(ServerReceiveError),
}

impl From<ServerSendError> for ServerMessageSendError {
    fn from(e: ServerSendError) -> (r: Self) {
        ServerMessageSendError::SendError(e)
    }
}

impl vstd::std_specs::convert::FromSpecImpl<ServerSendError> for ServerMessageSendError {
    open spec fn obeys_from_spec() -> bool {
        true
    }

    open spec fn from_spec(e: ServerSendError) -> Self {
        ServerMessageSendError::SendError(e)
    }
}

impl From<ServerGroupSendError> for ServerGroupMessageSendError {
    fn from(e: ServerGroupSendError) -> (r: Self) {
        ServerGroupMessageSendError::GroupSendError(e)
    }
}

impl vstd::std_specs::convert::FromSpecImpl<ServerGroupSendError> for ServerGroupMessageSendError {
    open spec fn obeys_from_spec() -> bool {
        true
    }

    open spec fn from_spec(e: ServerGroupSendError) -> Self {
        ServerGroupMessageSendError::GroupSendError(e)
    }
}

impl From<ServerReceiveError> for ServerMessageReceiveError {
    fn from(e: ServerReceiveError) -> (r: Self) {
        ServerMessageReceiveError::ReceiveError(e)
    }
}

impl vstd::std_specs::convert::FromSpecImpl<ServerReceiveError> for ServerMessageReceiveError {
    open spec fn obeys_from_spec() -> bool {
        true
    }

    open spec fn from_spec(e: ServerReceiveError) -> Self {
        ServerMessageReceiveError::ReceiveError(e)
    }
}

/// What a payload is received as, given what decoding it resulted in.
pub open spec fn decoded<T>(outcome: Result<(T, usize), DecodeError>) -> Result<
    Option<T>,
    ServerMessageReceiveError,
> {
    match outcome {
        Ok((message, _)) => Ok(Some(message)),
        Err(_) => Err(ServerMessageReceiveError::Deserialization),
    }
}

/// The message in `r`, if there is one.
pub open spec fn message_or_none<T>(r: Result<Option<T>, ServerMessageReceiveError>) -> Option<T> {
    match r {
        Ok(message) => message,
        Err(_) => None,
    }
}

impl ServerEndpointView {
    /// `r` is what sending a message to a client can result in, and `self` the
    /// endpoint after it. A message that could not be encoded changes nothing.
    pub open spec fn message_sent(
        self,
        pre: Self,
        client_id: ClientId,
        channel_id: ChannelId,
        encoded: Result<Vec<u8>, EncodeError>,
        r: Result<(), ServerMessageSendError>,
    ) -> bool {
        match encoded {
            Ok(bytes) => exists|sent: Result<(), ServerSendError>| #[trigger]
                pre.send_possible(client_id, channel_id, sent) && self == pre.after_send(
                    client_id,
                    channel_id,
                    bytes@,
                    sent,
                ) && r == match sent {
                    Ok(()) => Ok(()),
                    Err(e) => Err(ServerMessageSendError::SendError(e)),
                },
            Err(_) => self == pre && r == Err::<(), _>(ServerMessageSendError::Serialization),
        }
    }

    /// `r` is what sending a message to some clients can result in, and `self`
    /// the endpoint after it.
    pub open spec fn group_message_sent(
        self,
        pre: Self,
        client_ids: Seq<ClientId>,
        channel_id: ChannelId,
        encoded: Result<Vec<u8>, EncodeError>,
        r: Result<(), ServerGroupMessageSendError>,
    ) -> bool {
        match encoded {
            Ok(bytes) => {
                &&& self.group_sent(pre, client_ids, channel_id, bytes@, message_errors(r))
                &&& delivery_reported(r)
            },
            Err(_) => self == pre && r == Err::<(), _>(ServerGroupMessageSendError::Serialization),
        }
    }

    /// `r` is what sending a message to every client can result in, and `self`
    /// the endpoint after it.
    pub open spec fn broadcast_message_sent(
        self,
        pre: Self,
        channel_id: ChannelId,
        encoded: Result<Vec<u8>, EncodeError>,
        r: Result<(), ServerGroupMessageSendError>,
    ) -> bool {
        match encoded {
            Ok(bytes) => {
                &&& self.broadcast_sent(pre, channel_id, bytes@, message_errors(r))
                &&& delivery_reported(r)
            },
            Err(_) => self == pre && r == Err::<(), _>(ServerGroupMessageSendError::Serialization),
        }
    }

    /// `r` is what receiving a message from a client can result in, and `self`
    /// the endpoint after it. The payload is read whether or not it decodes.
    pub open spec fn message_received<T, F: FnOnce(&[u8]) -> Result<(T, usize), DecodeError>>(
        self,
        pre: Self,
        client_id: ClientId,
        channel_id: ChannelId,
        decode: F,
        r: Result<Option<T>, ServerMessageReceiveError>,
    ) -> bool {
        if !pre.clients.contains_key(client_id) {
            &&& self == pre
            &&& r == Err::<Option<T>, _>(
                ServerMessageReceiveError::ReceiveError(
                    ServerReceiveError::UnknownClient(client_id),
                ),
            )
        } else {
            let waiting = pre.clients[client_id].buffers[channel_id];
            if waiting.len() == 0 {
                self == pre && r == Ok::<Option<T>, ServerMessageReceiveError>(None)
            } else {
                &&& self == (ServerEndpointView {
                    clients: pre.clients.insert(
                        client_id,
                        pre.clients[client_id].read(channel_id),
                    ),
                    ..pre
                })
                &&& exists|bytes: &[u8], outcome: Result<(T, usize), DecodeError>|
                    bytes@ == waiting.first() && #[trigger] call_ensures(
                        decode,
                        (bytes,),
                        outcome,
                    ) && r == decoded(outcome)
            }
        }
    }
}

/// Decoding what starts with `encoded` gives `message`, whatever bytes follow.
pub open spec fn decodes<T, F: FnOnce(&[u8]) -> Result<(T, usize), DecodeError>>(
    decode: F,
    encoded: Seq<u8>,
    message: T,
) -> bool {
    forall|bytes: &[u8], outcome: Result<(T, usize), DecodeError>|
        encoded.is_prefix_of(bytes@) && #[trigger] call_ensures(decode, (bytes,), outcome)
            ==> outcome is Ok && outcome->Ok_0.0 == message
}

/// Receiving undoes sending. A message that was sent goes out on its channel as the
/// bytes that it was encoded to, after all that went out before. Where these bytes
/// wait first on the channel of a client, with or without bytes after them, and the
/// decoder gives the message back for them, the message is received, and the
/// payload is read.
pub proof fn law_receiving_undoes_sending<
    T,
    F: FnOnce(&[u8]) -> Result<(T, usize), DecodeError>,
>(
    before: ServerEndpointView,
    sent: ServerEndpointView,
    peer: ClientId,
    on: ChannelId,
    encoded: Vec<u8>,
    after: Seq<u8>,
    waiting: ServerEndpointView,
    received: ServerEndpointView,
    client_id: ClientId,
    channel_id: ChannelId,
    decode: F,
    message: T,
    r: Result<Option<T>, ServerMessageReceiveError>,
)
    requires
        sent.message_sent(before, peer, on, Ok(encoded), Ok(())),
        decodes(decode, encoded@, message),
        waiting.clients.contains_key(client_id),
        waiting.clients[client_id].buffers[channel_id].len() > 0,
        waiting.clients[client_id].buffers[channel_id].first()
            == sent.clients[peer].channels[on].sent().last() + after,
        received.message_received(waiting, client_id, channel_id, decode, r),
    ensures
        before.clients.contains_key(peer) && before.clients[peer].channels.contains_key(on),
        sent.clients[peer].channels[on].sent() == before.clients[peer].channels[on].sent().push(
            encoded@,
        ),
        r == Ok::<Option<T>, ServerMessageReceiveError>(Some(message)),
        received == (ServerEndpointView {
            clients: waiting.clients.insert(
                client_id,
                waiting.clients[client_id].read(channel_id),
            ),
            ..waiting
        }),
{
    let outcome = choose|outcome: Result<(), ServerSendError>| #[trigger]
        before.send_possible(peer, on, outcome) && sent == before.after_send(
            peer,
            on,
            encoded@,
            outcome,
        ) && outcome is Ok;
    let sends = sent.clients[peer].channels[on].sends;
    assert(sends.drop_last() =~= before.clients[peer].channels[on].sends);
    assert(sends.last() == (encoded@, Answer::Taken));
    assert(sent.clients[peer].channels[on].sent().last() == encoded@);
    let first = waiting.clients[client_id].buffers[channel_id].first();
    assert(encoded@.is_prefix_of(first)) by {
        assert(first.subrange(0, encoded@.len() as int) =~= encoded@);
    }
}

/// The clients that sending a message reports as not reached.
pub open spec fn message_errors(r: Result<(), ServerGroupMessageSendError>) -> Seq<
    (ClientId, ServerSendError),
> {
    match r {
        Err(ServerGroupMessageSendError::GroupSendError(e)) => e.0@,
        _ => Seq::empty(),
    }
}

/// `r` says whether some clients were not reached, and nothing else.
pub open spec fn delivery_reported(r: Result<(), ServerGroupMessageSendError>) -> bool {
    match r {
        Ok(()) => true,
        Err(ServerGroupMessageSendError::GroupSendError(e)) => e.0@.len() > 0,
        Err(_) => false,
    }
}

impl ServerEndpoint {
    /// [`Self::receive_message_from`] on the default channel.
    pub fn receive_message<T, F: FnOnce(&[u8]) -> Result<(T, usize), DecodeError>>(
        &mut self,
        client_id: ClientId,
        decode: F,
    ) -> (r: Result<Option<T>, ServerMessageReceiveError>)
        requires
            forall|bytes: &[u8]| #[trigger] call_requires(decode, (bytes,)),
        ensures
            old(self)@.wf() ==> final(self)@.wf(),
            old(self)@.sound() ==> final(self)@.sound(),
            match old(self)@.send_channel_ids.default_channel {
                Some(channel) => final(self)@.message_received(
                    old(self)@,
                    client_id,
                    channel,
                    decode,
                    r,
                ),
                None => final(self)@ == old(self)@ && r == Err::<Option<T>, _>(
                    ServerMessageReceiveError::NoDefaultChannel,
                ),
            },
    {
        match self.default_channel() {
            Some(channel) => self.receive_message_from(client_id, channel, decode),
            None => Err(ServerMessageReceiveError::NoDefaultChannel),
        }
    }

    /// [`Self::receive_message`]; `None` where it fails.
    pub fn try_receive_message<T, F: FnOnce(&[u8]) -> Result<(T, usize), DecodeError>>(
        &mut self,
        client_id: ClientId,
        decode: F,
    ) -> (r: Option<T>)
        requires
            forall|bytes: &[u8]| #[trigger] call_requires(decode, (bytes,)),
        ensures
            old(self)@.wf() ==> final(self)@.wf(),
            old(self)@.sound() ==> final(self)@.sound(),
            match old(self)@.send_channel_ids.default_channel {
                Some(channel) => exists|result: Result<Option<T>, ServerMessageReceiveError>|
                    #[trigger] final(self)@.message_received(
                        old(self)@,
                        client_id,
                        channel,
                        decode,
                        result,
                    ) && r == message_or_none(result),
                None => final(self)@ == old(self)@ && r is None,
            },
    {
        let result = self.receive_message(client_id, decode);
        match result {
            Ok(message) => message,
            Err(_) => None,
        }
    }

    /// Receives a message from a client on a channel: reads the payload that has
    /// waited longest, and decodes it.
    pub fn receive_message_from<T, F: FnOnce(&[u8]) -> Result<(T, usize), DecodeError>>(
        &mut self,
        client_id: ClientId,
        channel_id: ChannelId,
        decode: F,
    ) -> (r: Result<Option<T>, ServerMessageReceiveError>)
        requires
            forall|bytes: &[u8]| #[trigger] call_requires(decode, (bytes,)),
        ensures
            old(self)@.wf() ==> final(self)@.wf(),
            old(self)@.sound() ==> final(self)@.sound(),
            final(self)@.message_received(old(self)@, client_id, channel_id, decode, r),
    {
        match self.receive_payload(client_id, channel_id) {
            Ok(Some(payload)) => {
                let bytes = payload_as_slice(&payload);
                let outcome = decode(bytes);
                assert(call_ensures(decode, (bytes,), outcome));
                match outcome {
                    Ok((message, _)) => Ok(Some(message)),
                    Err(_) => Err(ServerMessageReceiveError::Deserialization),
                }
            },
            Ok(None) => Ok(None),
            Err(e) => Err(ServerMessageReceiveError::ReceiveError(e)),
        }
    }

    /// [`Self::receive_message_from`]; `None` where it fails.
    pub fn try_receive_message_from<T, F: FnOnce(&[u8]) -> Result<(T, usize), DecodeError>>(
        &mut self,
        client_id: ClientId,
        channel_id: ChannelId,
        decode: F,
    ) -> (r: Option<T>)
        requires
            forall|bytes: &[u8]| #[trigger] call_requires(decode, (bytes,)),
        ensures
            old(self)@.wf() ==> final(self)@.wf(),
            old(self)@.sound() ==> final(self)@.sound(),
            exists|result: Result<Option<T>, ServerMessageReceiveError>|
                #[trigger] final(self)@.message_received(
                    old(self)@,
                    client_id,
                    channel_id,
                    decode,
                    result,
                ) && r == message_or_none(result),
    {
        let result = self.receive_message_from(client_id, channel_id, decode);
        match result {
            Ok(message) => message,
            Err(_) => None,
        }
    }

    /// [`Self::send_message_on`] on the default channel.
    pub fn send_message(
        &mut self,
        client_id: ClientId,
        encoded: Result<Vec<u8>, EncodeError>,
    ) -> (r: Result<(), ServerMessageSendError>)
        ensures
            old(self)@.wf() ==> final(self)@.wf(),
            old(self)@.sound() ==> final(self)@.sound(),
            match old(self)@.send_channel_ids.default_channel {
                Some(channel) => final(self)@.message_sent(
                    old(self)@,
                    client_id,
                    channel,
                    encoded,
                    r,
                ),
                None => final(self)@ == old(self)@ && r == Err::<(), _>(
                    ServerMessageSendError::NoDefaultChannel,
                ),
            },
    {
        match self.default_channel() {
            Some(channel) => self.send_message_on(client_id, channel, encoded),
            None => Err(ServerMessageSendError::NoDefaultChannel),
        }
    }

    /// Sends a message to the specified client on the specified channel.
    pub fn send_message_on(
        &mut self,
        client_id: ClientId,
        channel_id: ChannelId,
        encoded: Result<Vec<u8>, EncodeError>,
    ) -> (r: Result<(), ServerMessageSendError>)
        ensures
            old(self)@.wf() ==> final(self)@.wf(),
            old(self)@.sound() ==> final(self)@.sound(),
            final(self)@.message_sent(old(self)@, client_id, channel_id, encoded, r),
    {
        match encoded {
            Ok(bytes) => {
                let sent = self.send_payload_on(client_id, channel_id, payload_from_vec(bytes));
                assert(old(self)@.send_possible(client_id, channel_id, sent));
                match sent {
                    Ok(()) => Ok(()),
                    Err(e) => Err(ServerMessageSendError::SendError(e)),
                }
            },
            Err(_) => Err(ServerMessageSendError::Serialization),
        }
    }

    /// [`Self::send_message`], whatever comes of it.
    pub fn try_send_message(&mut self, client_id: ClientId, encoded: Result<Vec<u8>, EncodeError>)
        ensures
            old(self)@.wf() ==> final(self)@.wf(),
            old(self)@.sound() ==> final(self)@.sound(),
            match old(self)@.send_channel_ids.default_channel {
                Some(channel) => exists|r: Result<(), ServerMessageSendError>| #[trigger]
                    final(self)@.message_sent(old(self)@, client_id, channel, encoded, r),
                None => final(self)@ == old(self)@,
            },
    {
        let _ = self.send_message(client_id, encoded);
    }

    /// [`Self::send_message_on`], whatever comes of it.
    pub fn try_send_message_on(
        &mut self,
        client_id: ClientId,
        channel_id: ChannelId,
        encoded: Result<Vec<u8>, EncodeError>,
    )
        ensures
            old(self)@.wf() ==> final(self)@.wf(),
            old(self)@.sound() ==> final(self)@.sound(),
            exists|r: Result<(), ServerMessageSendError>| #[trigger]
                final(self)@.message_sent(old(self)@, client_id, channel_id, encoded, r),
    {
        let _ = self.send_message_on(client_id, channel_id, encoded);
    }

    /// [`Self::send_group_message_on`] on the default channel.
    pub fn send_group_message(
        &mut self,
        client_ids: &[ClientId],
        encoded: Result<Vec<u8>, EncodeError>,
    ) -> (r: Result<(), ServerGroupMessageSendError>)
        ensures
            old(self)@.wf() ==> final(self)@.wf(),
            old(self)@.sound() ==> final(self)@.sound(),
            match old(self)@.send_channel_ids.default_channel {
                Some(channel) => final(self)@.group_message_sent(
                    old(self)@,
                    client_ids@,
                    channel,
                    encoded,
                    r,
                ),
                None => final(self)@ == old(self)@ && r == Err::<(), _>(
                    ServerGroupMessageSendError::NoDefaultChannel,
                ),
            },
    {
        match self.default_channel() {
            Some(channel) => self.send_group_message_on(client_ids, channel, encoded),
            None => Err(ServerGroupMessageSendError::NoDefaultChannel),
        }
    }

    /// Sends the message to the specified clients on the specified channel.
    pub fn send_group_message_on(
        &mut self,
        client_ids: &[ClientId],
        channel_id: ChannelId,
        encoded: Result<Vec<u8>, EncodeError>,
    ) -> (r: Result<(), ServerGroupMessageSendError>)
        ensures
            old(self)@.wf() ==> final(self)@.wf(),
            old(self)@.sound() ==> final(self)@.sound(),
            final(self)@.group_message_sent(old(self)@, client_ids@, channel_id, encoded, r),
    {
        match encoded {
            Ok(bytes) => {
                let errors = self.send_to_each(client_ids, channel_id, payload_from_vec(bytes));
                if errors.len() == 0 {
                    assert(errors@ =~= Seq::<(ClientId, ServerSendError)>::empty());
                    Ok(())
                } else {
                    Err(ServerGroupMessageSendError::GroupSendError(ServerGroupSendError(errors)))
                }
            },
            Err(_) => Err(ServerGroupMessageSendError::Serialization),
        }
    }

    /// [`Self::send_group_message`], whatever comes of it.
    pub fn try_send_group_message(
        &mut self,
        client_ids: &[ClientId],
        encoded: Result<Vec<u8>, EncodeError>,
    )
        ensures
            old(self)@.wf() ==> final(self)@.wf(),
            old(self)@.sound() ==> final(self)@.sound(),
            match old(self)@.send_channel_ids.default_channel {
                Some(channel) => exists|r: Result<(), ServerGroupMessageSendError>| #[trigger]
                    final(self)@.group_message_sent(
                        old(self)@,
                        client_ids@,
                        channel,
                        encoded,
                        r,
                    ),
                None => final(self)@ == old(self)@,
            },
    {
        let _ = self.send_group_message(client_ids, encoded);
    }

    /// [`Self::send_group_message_on`], whatever comes of it.
    pub fn try_send_group_message_on(
        &mut self,
        client_ids: &[ClientId],
        channel_id: ChannelId,
        encoded: Result<Vec<u8>, EncodeError>,
    )
        ensures
            old(self)@.wf() ==> final(self)@.wf(),
            old(self)@.sound() ==> final(self)@.sound(),
            exists|r: Result<(), ServerGroupMessageSendError>| #[trigger]
                final(self)@.group_message_sent(old(self)@, client_ids@, channel_id, encoded, r),
    {
        let _ = self.send_group_message_on(client_ids, channel_id, encoded);
    }

    /// [`Self::broadcast_message_on`] on the default channel.
    pub fn broadcast_message(&mut self, encoded: Result<Vec<u8>, EncodeError>) -> (r: Result<
        (),
        ServerGroupMessageSendError,
    >)
        ensures
            old(self)@.wf() ==> final(self)@.wf(),
            old(self)@.sound() ==> final(self)@.sound(),
            match old(self)@.send_channel_ids.default_channel {
                Some(channel) => final(self)@.broadcast_message_sent(
                    old(self)@,
                    channel,
                    encoded,
                    r,
                ),
                None => final(self)@ == old(self)@ && r == Err::<(), _>(
                    ServerGroupMessageSendError::NoDefaultChannel,
                ),
            },
    {
        match self.default_channel() {
            Some(channel) => self.broadcast_message_on(channel, encoded),
            None => Err(ServerGroupMessageSendError::NoDefaultChannel),
        }
    }

    /// Sends the message to every client on the specified channel.
    pub fn broadcast_message_on(
        &mut self,
        channel_id: ChannelId,
        encoded: Result<Vec<u8>, EncodeError>,
    ) -> (r: Result<(), ServerGroupMessageSendError>)
        ensures
            old(self)@.wf() ==> final(self)@.wf(),
            old(self)@.sound() ==> final(self)@.sound(),
            final(self)@.broadcast_message_sent(old(self)@, channel_id, encoded, r),
    {
        match encoded {
            Ok(bytes) => match self.broadcast_payload_on(channel_id, payload_from_vec(bytes)) {
                Ok(()) => Ok(()),
                Err(e) => Err(ServerGroupMessageSendError::GroupSendError(e)),
            },
            Err(_) => Err(ServerGroupMessageSendError::Serialization),
        }
    }

    /// [`Self::broadcast_message`], whatever comes of it.
    pub fn try_broadcast_message(&mut self, encoded: Result<Vec<u8>, EncodeError>)
        ensures
            old(self)@.wf() ==> final(self)@.wf(),
            old(self)@.sound() ==> final(self)@.sound(),
            match old(self)@.send_channel_ids.default_channel {
                Some(channel) => exists|r: Result<(), ServerGroupMessageSendError>| #[trigger]
                    final(self)@.broadcast_message_sent(old(self)@, channel, encoded, r),
                None => final(self)@ == old(self)@,
            },
    {
        let _ = self.broadcast_message(encoded);
    }

    /// [`Self::broadcast_message_on`], whatever comes of it.
    pub fn try_broadcast_message_on(
        &mut self,
        channel_id: ChannelId,
        encoded: Result<Vec<u8>, EncodeError>,
    )
        ensures
            old(self)@.wf() ==> final(self)@.wf(),
            old(self)@.sound() ==> final(self)@.sound(),
            exists|r: Result<(), ServerGroupMessageSendError>| #[trigger]
                final(self)@.broadcast_message_sent(old(self)@, channel_id, encoded, r),
    {
        let _ = self.broadcast_message_on(channel_id, encoded);
    }
}

} // verus!
