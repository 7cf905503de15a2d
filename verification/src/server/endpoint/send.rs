//! Sending payloads to clients.

use bytes::Bytes;
use vstd::prelude::*;

use crate::server::endpoint::ServerEndpoint;
#[allow(unused_imports)]
use crate::server::endpoint::{lemma_same_shape_keeps_sound, ServerEndpointView};
use crate::server::maps::{clients_get_mut, clients_keys};
use crate::server::{
    ServerGroupPayloadSendError, ServerGroupSendError, ServerPayloadSendError, ServerSendError,
};
use crate::shared::channels::ChannelId;
#[allow(unused_imports)]
use crate::shared::error::ConnectionSendError;
#[allow(unused_imports)]
use crate::shared::listing::lists_keys;
use crate::shared::payload::clone_payload;
#[allow(unused_imports)]
use crate::shared::payload::payload_bytes;
use crate::shared::ClientId;

verus! {

/// `r` as the result of sending to a client that is known.
pub open spec fn connection_result(r: Result<(), ServerSendError>) -> Result<
    (),
    ConnectionSendError,
> {
    match r {
        Err(ServerSendError::ConnectionSendError(e)) => Err(e),
        _ => Ok(()),
    }
}

/// The clients whose send failed, in order, each with the error.
pub open spec fn failures(
    ids: Seq<ClientId>,
    outcomes: Seq<Result<(), ServerSendError>>,
) -> Seq<(ClientId, ServerSendError)>
    decreases outcomes.len(),
{
    if outcomes.len() == 0 {
        Seq::empty()
    } else {
        let before = failures(ids, outcomes.drop_last());
        match outcomes.last() {
            Ok(()) => before,
            Err(e) => before.push((ids[outcomes.len() - 1], e)),
        }
    }
}

impl ServerEndpointView {
    /// `r` is what sending to a client on a channel can result in.
    pub open spec fn send_possible(
        self,
        client_id: ClientId,
        channel_id: ChannelId,
        r: Result<(), ServerSendError>,
    ) -> bool {
        match r {
            Err(ServerSendError::UnknownClient(bad)) => bad == client_id
                && !self.clients.contains_key(client_id),
            _ => self.clients.contains_key(client_id) && self.clients[client_id].send_possible(
                channel_id,
                connection_result(r),
            ),
        }
    }

    /// The endpoint once sending to a client on a channel has resulted in `r`.
    pub open spec fn after_send(
        self,
        client_id: ClientId,
        channel_id: ChannelId,
        payload: Seq<u8>,
        r: Result<(), ServerSendError>,
    ) -> Self {
        if self.clients.contains_key(client_id) {
            ServerEndpointView {
                clients: self.clients.insert(
                    client_id,
                    self.clients[client_id].after_send(
                        channel_id,
                        payload,
                        connection_result(r),
                    ),
                ),
                ..self
            }
        } else {
            self
        }
    }

    /// `outcomes` are what sending to each of `ids` in turn can result in.
    pub open spec fn group_possible(
        self,
        ids: Seq<ClientId>,
        channel_id: ChannelId,
        outcomes: Seq<Result<(), ServerSendError>>,
    ) -> bool {
        &&& outcomes.len() == ids.len()
        &&& forall|i: int|
            0 <= i < ids.len() ==> self.send_possible(ids[i], channel_id, #[trigger] outcomes[i])
    }

    /// The endpoint once sending to the first of `ids` in turn has resulted in
    /// `outcomes`.
    pub open spec fn after_group(
        self,
        ids: Seq<ClientId>,
        channel_id: ChannelId,
        payload: Seq<u8>,
        outcomes: Seq<Result<(), ServerSendError>>,
    ) -> Self
        decreases outcomes.len(),
    {
        if outcomes.len() == 0 {
            self
        } else {
            self.after_group(ids, channel_id, payload, outcomes.drop_last()).after_send(
                ids[outcomes.len() - 1],
                channel_id,
                payload,
                outcomes.last(),
            )
        }
    }

    /// `self` is the endpoint once `payload` was sent to each of `ids`, and
    /// `errors` are those that were not reached.
    pub open spec fn group_sent(
        self,
        pre: Self,
        ids: Seq<ClientId>,
        channel_id: ChannelId,
        payload: Seq<u8>,
        errors: Seq<(ClientId, ServerSendError)>,
    ) -> bool {
        exists|outcomes: Seq<Result<(), ServerSendError>>| #[trigger]
            pre.group_possible(ids, channel_id, outcomes) && self == pre.after_group(
                ids,
                channel_id,
                payload,
                outcomes,
            ) && errors == failures(ids, outcomes)
    }

    /// `self` is the endpoint once `payload` was sent to every client, each once
    /// and in any order, and `errors` are those that were not reached.
    pub open spec fn broadcast_sent(
        self,
        pre: Self,
        channel_id: ChannelId,
        payload: Seq<u8>,
        errors: Seq<(ClientId, ServerSendError)>,
    ) -> bool {
        exists|ids: Seq<ClientId>| #[trigger]
            lists_keys(ids, pre.clients) && self.group_sent(pre, ids, channel_id, payload, errors)
    }
}

/// The clients that a group send reports as not reached.
pub open spec fn group_errors(r: Result<(), ServerGroupPayloadSendError>) -> Seq<
    (ClientId, ServerSendError),
> {
    match r {
        Err(ServerGroupPayloadSendError::GroupSendError(e)) => e.0@,
        _ => Seq::empty(),
    }
}

/// The clients that a broadcast reports as not reached.
pub open spec fn broadcast_errors(r: Result<(), ServerGroupSendError>) -> Seq<
    (ClientId, ServerSendError),
> {
    match r {
        Err(e) => e.0@,
        _ => Seq::empty(),
    }
}

/// `r` as the result of sending on a channel that is known.
pub open spec fn payload_result(r: Result<(), ServerPayloadSendError>) -> Result<
    (),
    ServerSendError,
> {
    match r {
        Err(ServerPayloadSendError::SendError(e)) => Err(e),
        _ => Ok(()),
    }
}

/// Sending changes neither which clients there are nor which channels they have.
pub(crate) proof fn lemma_group_keeps_shape(
    pre: ServerEndpointView,
    ids: Seq<ClientId>,
    channel_id: ChannelId,
    payload: Seq<u8>,
    outcomes: Seq<Result<(), ServerSendError>>,
)
    requires
        outcomes.len() <= ids.len(),
        forall|i: int|
            0 <= i < outcomes.len() ==> pre.send_possible(
                ids[i],
                channel_id,
                #[trigger] outcomes[i],
            ),
    ensures
        ({
            let post = pre.after_group(ids, channel_id, payload, outcomes);
            &&& post == (ServerEndpointView { clients: post.clients, ..pre })
            &&& post.clients.dom() == pre.clients.dom()
            &&& forall|id: ClientId|
                pre.clients.contains_key(id) ==> #[trigger] post.clients[id].channels.dom()
                    == pre.clients[id].channels.dom()
        }),
    decreases outcomes.len(),
{
    let post = pre.after_group(ids, channel_id, payload, outcomes);
    if outcomes.len() > 0 {
        let before = outcomes.drop_last();
        assert forall|i: int| 0 <= i < before.len() implies pre.send_possible(
            ids[i],
            channel_id,
            #[trigger] before[i],
        ) by {
            assert(before[i] == outcomes[i]);
        }
        lemma_group_keeps_shape(pre, ids, channel_id, payload, before);
        let mid = pre.after_group(ids, channel_id, payload, before);
        assert(outcomes[outcomes.len() - 1] == outcomes.last());
        assert(post.clients.dom() =~= mid.clients.dom());
        assert forall|id: ClientId| pre.clients.contains_key(
            id,
        ) implies #[trigger] post.clients[id].channels.dom() == pre.clients[id].channels.dom() by {
            assert(mid.clients[id].channels.dom() == pre.clients[id].channels.dom());
            assert(post.clients[id].channels.dom() =~= mid.clients[id].channels.dom());
        }
    }
}

impl ServerEndpoint {
    /// Sends a payload to a client on a channel.
    pub fn send_payload_on(
        &mut self,
        client_id: ClientId,
        channel_id: ChannelId,
        payload: Bytes,
    ) -> (r: Result<(), ServerSendError>)
        ensures
            old(self)@.wf() ==> final(self)@.wf(),
            old(self)@.sound() ==> final(self)@.sound(),
            old(self)@.send_possible(client_id, channel_id, r),
            final(self)@ == old(self)@.after_send(
                client_id,
                channel_id,
                payload_bytes(payload),
                r,
            ),
    {
        let ghost bytes = payload_bytes(payload);
        match clients_get_mut(&mut self.clients, client_id) {
            Some(connection) => {
                let ghost pre = connection@;
                let outcome = connection.internal_send_payload(channel_id, payload);
                let r = match outcome {
                    Ok(()) => Ok(()),
                    Err(e) => Err(ServerSendError::ConnectionSendError(e)),
                };
                proof {
                    let post = pre.after_send(channel_id, bytes, outcome);
                    assert(outcome is Ok ==> connection_result(r) is Ok);
                    assert(self@.clients =~= old(self)@.clients.insert(client_id, post));
                    assert(self@ =~= old(self)@.after_send(client_id, channel_id, bytes, r));
                    assert(self@.clients.dom() =~= old(self)@.clients.dom());
                    assert(post.channels.dom() =~= pre.channels.dom());
                    lemma_same_shape_keeps_sound(old(self)@, self@);
                }
                r
            },
            None => Err(ServerSendError::UnknownClient(client_id)),
        }
    }

    /// Sends a payload to each of some clients on a channel, in turn; says which
    /// were not reached.
    pub(crate) fn send_to_each(
        &mut self,
        client_ids: &[ClientId],
        channel_id: ChannelId,
        payload: Bytes,
    ) -> (r: Vec<(ClientId, ServerSendError)>)
        ensures
            old(self)@.wf() ==> final(self)@.wf(),
            old(self)@.sound() ==> final(self)@.sound(),
            final(self)@.group_sent(
                old(self)@,
                client_ids@,
                channel_id,
                payload_bytes(payload),
                r@,
            ),
    {
        let ghost bytes = payload_bytes(payload);
        let ghost mut outcomes: Seq<Result<(), ServerSendError>> = Seq::empty();
        let mut errors: Vec<(ClientId, ServerSendError)> = Vec::new();
        let mut i: usize = 0;
        while i < client_ids.len()
            invariant
                i <= client_ids@.len(),
                outcomes.len() == i,
                bytes == payload_bytes(payload),
                old(self)@.wf() ==> self@.wf(),
                old(self)@.sound() ==> self@.sound(),
                forall|j: int|
                    0 <= j < i ==> old(self)@.send_possible(
                        client_ids@[j],
                        channel_id,
                        #[trigger] outcomes[j],
                    ),
                self@ == old(self)@.after_group(client_ids@, channel_id, bytes, outcomes),
                errors@ == failures(client_ids@, outcomes),
            decreases client_ids@.len() - i,
        {
            let client_id: ClientId = client_ids[i];
            let copy = clone_payload(&payload);
            proof {
                lemma_group_keeps_shape(old(self)@, client_ids@, channel_id, bytes, outcomes);
            }
            let r = self.send_payload_on(client_id, channel_id, copy);
            proof {
                let before = outcomes;
                outcomes = before.push(r);
                assert(outcomes.drop_last() =~= before);
            }
            if let Err(e) = r {
                errors.push((client_id, e));
            }
            i = i + 1;
        }
        assert(old(self)@.group_possible(client_ids@, channel_id, outcomes));
        errors
    }

    /// Sends a payload to each of some clients on a channel.
    pub fn send_group_payload_on(
        &mut self,
        client_ids: &[ClientId],
        channel_id: ChannelId,
        payload: Bytes,
    ) -> (r: Result<(), ServerGroupPayloadSendError>)
        ensures
            old(self)@.wf() ==> final(self)@.wf(),
            old(self)@.sound() ==> final(self)@.sound(),
            final(self)@.group_sent(
                old(self)@,
                client_ids@,
                channel_id,
                payload_bytes(payload),
                group_errors(r),
            ),
            r != Err::<(), _>(ServerGroupPayloadSendError::NoDefaultChannel),
            r is Err ==> group_errors(r).len() > 0,
    {
        let errors = self.send_to_each(client_ids, channel_id, payload);
        if errors.len() == 0 {
            assert(errors@ =~= Seq::<(ClientId, ServerSendError)>::empty());
            Ok(())
        } else {
            Err(ServerGroupPayloadSendError::GroupSendError(ServerGroupSendError(errors)))
        }
    }

    /// Sends a payload to each of some clients on the default channel.
    pub fn send_group_payload(&mut self, client_ids: &[ClientId], payload: Bytes) -> (r: Result<
        (),
        ServerGroupPayloadSendError,
    >)
        ensures
            old(self)@.wf() ==> final(self)@.wf(),
            old(self)@.sound() ==> final(self)@.sound(),
            match old(self)@.send_channel_ids.default_channel {
                Some(channel) => {
                    &&& final(self)@.group_sent(
                        old(self)@,
                        client_ids@,
                        channel,
                        payload_bytes(payload),
                        group_errors(r),
                    )
                    &&& r != Err::<(), _>(ServerGroupPayloadSendError::NoDefaultChannel)
                    &&& r is Err ==> group_errors(r).len() > 0
                },
                None => {
                    &&& r == Err::<(), _>(ServerGroupPayloadSendError::NoDefaultChannel)
                    &&& final(self)@ == old(self)@
                },
            },
    {
        match self.send_channel_ids.default_channel() {
            Some(channel) => self.send_group_payload_on(client_ids, channel, payload),
            None => Err(ServerGroupPayloadSendError::NoDefaultChannel),
        }
    }

    /// [`Self::send_group_payload`], whatever comes of it.
    pub fn try_send_group_payload(&mut self, client_ids: &[ClientId], payload: Bytes)
        ensures
            old(self)@.wf() ==> final(self)@.wf(),
            old(self)@.sound() ==> final(self)@.sound(),
            match old(self)@.send_channel_ids.default_channel {
                Some(channel) => exists|errors: Seq<(ClientId, ServerSendError)>| #[trigger]
                    final(self)@.group_sent(
                        old(self)@,
                        client_ids@,
                        channel,
                        payload_bytes(payload),
                        errors,
                    ),
                None => final(self)@ == old(self)@,
            },
    {
        let _ = self.send_group_payload(client_ids, payload);
    }

    /// [`Self::send_group_payload_on`], whatever comes of it.
    pub fn try_send_group_payload_on(
        &mut self,
        client_ids: &[ClientId],
        channel_id: ChannelId,
        payload: Bytes,
    )
        ensures
            old(self)@.wf() ==> final(self)@.wf(),
            old(self)@.sound() ==> final(self)@.sound(),
            exists|errors: Seq<(ClientId, ServerSendError)>| #[trigger]
                final(self)@.group_sent(
                    old(self)@,
                    client_ids@,
                    channel_id,
                    payload_bytes(payload),
                    errors,
                ),
    {
        let _ = self.send_group_payload_on(client_ids, channel_id, payload);
    }

    /// Sends a payload to every client on a channel.
    pub fn broadcast_payload_on(&mut self, channel_id: ChannelId, payload: Bytes) -> (r: Result<
        (),
        ServerGroupSendError,
    >)
        ensures
            old(self)@.wf() ==> final(self)@.wf(),
            old(self)@.sound() ==> final(self)@.sound(),
            final(self)@.broadcast_sent(
                old(self)@,
                channel_id,
                payload_bytes(payload),
                broadcast_errors(r),
            ),
            r is Err ==> broadcast_errors(r).len() > 0,
    {
        let client_ids = clients_keys(&self.clients);
        let errors = self.send_to_each(client_ids.as_slice(), channel_id, payload);
        assert(lists_keys(client_ids@, old(self)@.clients));
        if errors.len() == 0 {
            assert(errors@ =~= Seq::<(ClientId, ServerSendError)>::empty());
            Ok(())
        } else {
            Err(ServerGroupSendError(errors))
        }
    }

    /// Sends a payload to every client on the default channel.
    pub fn broadcast_payload(&mut self, payload: Bytes) -> (r: Result<
        (),
        ServerGroupPayloadSendError,
    >)
        ensures
            old(self)@.wf() ==> final(self)@.wf(),
            old(self)@.sound() ==> final(self)@.sound(),
            match old(self)@.send_channel_ids.default_channel {
                Some(channel) => {
                    &&& final(self)@.broadcast_sent(
                        old(self)@,
                        channel,
                        payload_bytes(payload),
                        group_errors(r),
                    )
                    &&& r != Err::<(), _>(ServerGroupPayloadSendError::NoDefaultChannel)
                    &&& r is Err ==> group_errors(r).len() > 0
                },
                None => {
                    &&& r == Err::<(), _>(ServerGroupPayloadSendError::NoDefaultChannel)
                    &&& final(self)@ == old(self)@
                },
            },
    {
        match self.send_channel_ids.default_channel() {
            Some(channel) => match self.broadcast_payload_on(channel, payload) {
                Ok(()) => Ok(()),
                Err(e) => Err(ServerGroupPayloadSendError::GroupSendError(e)),
            },
            None => Err(ServerGroupPayloadSendError::NoDefaultChannel),
        }
    }

    /// [`Self::broadcast_payload`], whatever comes of it.
    pub fn try_broadcast_payload(&mut self, payload: Bytes)
        ensures
            old(self)@.wf() ==> final(self)@.wf(),
            old(self)@.sound() ==> final(self)@.sound(),
            match old(self)@.send_channel_ids.default_channel {
                Some(channel) => exists|errors: Seq<(ClientId, ServerSendError)>| #[trigger]
                    final(self)@.broadcast_sent(
                        old(self)@,
                        channel,
                        payload_bytes(payload),
                        errors,
                    ),
                None => final(self)@ == old(self)@,
            },
    {
        let _ = self.broadcast_payload(payload);
    }

    /// [`Self::broadcast_payload_on`], whatever comes of it.
    pub fn try_broadcast_payload_on(&mut self, channel_id: ChannelId, payload: Bytes)
        ensures
            old(self)@.wf() ==> final(self)@.wf(),
            old(self)@.sound() ==> final(self)@.sound(),
            exists|errors: Seq<(ClientId, ServerSendError)>| #[trigger]
                final(self)@.broadcast_sent(
                    old(self)@,
                    channel_id,
                    payload_bytes(payload),
                    errors,
                ),
    {
        let _ = self.broadcast_payload_on(channel_id, payload);
    }

    /// Sends a payload to a client on the default channel.
    pub fn send_payload(&mut self, client_id: ClientId, payload: Bytes) -> (r: Result<
        (),
        ServerPayloadSendError,
    >)
        ensures
            old(self)@.wf() ==> final(self)@.wf(),
            old(self)@.sound() ==> final(self)@.sound(),
            match old(self)@.send_channel_ids.default_channel {
                Some(channel) => {
                    &&& r != Err::<(), _>(ServerPayloadSendError::NoDefaultChannel)
                    &&& old(self)@.send_possible(client_id, channel, payload_result(r))
                    &&& final(self)@ == old(self)@.after_send(
                        client_id,
                        channel,
                        payload_bytes(payload),
                        payload_result(r),
                    )
                },
                None => {
                    &&& r == Err::<(), _>(ServerPayloadSendError::NoDefaultChannel)
                    &&& final(self)@ == old(self)@
                },
            },
    {
        match self.send_channel_ids.default_channel() {
            Some(channel) => match self.send_payload_on(client_id, channel, payload) {
                Ok(()) => Ok(()),
                Err(e) => Err(ServerPayloadSendError::SendError(e)),
            },
            None => Err(ServerPayloadSendError::NoDefaultChannel),
        }
    }

    /// [`Self::send_payload`], whatever comes of it.
    pub fn try_send_payload(&mut self, client_id: ClientId, payload: Bytes)
        ensures
            old(self)@.wf() ==> final(self)@.wf(),
            old(self)@.sound() ==> final(self)@.sound(),
            match old(self)@.send_channel_ids.default_channel {
                Some(channel) => exists|r: Result<(), ServerSendError>| #[trigger]
                    old(self)@.send_possible(client_id, channel, r) && final(self)@ == old(
                        self,
                    )@.after_send(client_id, channel, payload_bytes(payload), r),
                None => final(self)@ == old(self)@,
            },
    {
        let _ = self.send_payload(client_id, payload);
    }

    /// [`Self::send_payload_on`], whatever comes of it.
    pub fn try_send_payload_on(
        &mut self,
        client_id: ClientId,
        channel_id: ChannelId,
        payload: Bytes,
    )
        ensures
            old(self)@.wf() ==> final(self)@.wf(),
            old(self)@.sound() ==> final(self)@.sound(),
            exists|r: Result<(), ServerSendError>| #[trigger]
                old(self)@.send_possible(client_id, channel_id, r) && final(self)@ == old(
                    self,
                )@.after_send(client_id, channel_id, payload_bytes(payload), r),
    {
        let _ = self.send_payload_on(client_id, channel_id, payload);
    }
}

} // verus!
