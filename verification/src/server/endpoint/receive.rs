//! Reading what clients have sent.

use bytes::Bytes;
use vstd::prelude::*;

use crate::server::endpoint::ServerEndpoint;
#[allow(unused_imports)]
use crate::server::endpoint::{lemma_same_shape_keeps_sound, ServerEndpointView};
use crate::server::maps::{clients_get_mut, clients_keys};
use crate::server::{ServerReceiveError, ServerRecvChannelError};
use crate::shared::channels::ChannelId;
#[allow(unused_imports)]
use crate::shared::error::error_events;
use crate::shared::error::push_error_events;
#[allow(unused_imports)]
use crate::shared::listing::{lemma_take_next, lists_keys};
#[allow(unused_imports)]
use crate::shared::payload::payload_bytes;
use crate::shared::peer_connection::RecvChannelsConfiguration;
#[allow(unused_imports)]
use crate::shared::queues::Batch;
use crate::shared::ClientId;

verus! {

impl ServerEndpointView {
    /// The endpoint once payloads came from some clients and were sorted into
    /// their buffers.
    pub open spec fn dispatch(
        self,
        arrivals: Map<ClientId, Batch<(ChannelId, Seq<u8>)>>,
    ) -> Self {
        ServerEndpointView {
            clients: Map::new(
                |id: ClientId| self.clients.contains_key(id),
                |id: ClientId|
                    if arrivals.contains_key(id) {
                        self.clients[id].dispatch(arrivals[id])
                    } else {
                        self.clients[id]
                    },
            ),
            ..self
        }
    }

    /// The error events of that, client by client in the order of `ids`.
    pub open spec fn dispatch_events(
        self,
        ids: Seq<ClientId>,
        arrivals: Map<ClientId, Batch<(ChannelId, Seq<u8>)>>,
    ) -> Seq<ServerRecvChannelError>
        decreases ids.len(),
    {
        if ids.len() == 0 {
            Seq::empty()
        } else {
            let id = ids.last();
            self.dispatch_events(ids.drop_last(), arrivals) + error_events(
                id,
                self.clients[id].dispatch_errors(arrivals[id].messages),
            )
        }
    }

    /// `self` is the endpoint once the payloads that came from every client were
    /// sorted into their buffers, and `events` are the errors of it.
    pub open spec fn dispatched(self, pre: Self, events: Seq<ServerRecvChannelError>) -> bool {
        exists|ids: Seq<ClientId>, arrivals: Map<ClientId, Batch<(ChannelId, Seq<u8>)>>|
            {
                &&& lists_keys(ids, pre.clients)
                &&& arrivals.dom() == pre.clients.dom()
                &&& forall|id: ClientId| #[trigger]
                    arrivals.contains_key(id) ==> arrivals[id].complete(usize::MAX)
                &&& self == pre.dispatch(arrivals)
                &&& events == #[trigger] pre.dispatch_events(ids, arrivals)
            }
    }

    /// The endpoint once nothing that a client has sent waits to be read.
    pub open spec fn cleared(self) -> Self {
        ServerEndpointView {
            clients: Map::new(
                |id: ClientId| self.clients.contains_key(id),
                |id: ClientId| self.clients[id].cleared(),
            ),
            ..self
        }
    }

    /// `r` is what reading from a client on a channel results in, and `self` the
    /// endpoint after it.
    pub open spec fn received(
        self,
        pre: Self,
        client_id: ClientId,
        channel_id: ChannelId,
        r: Result<Option<Seq<u8>>, ServerReceiveError>,
    ) -> bool {
        if !pre.clients.contains_key(client_id) {
            &&& r == Err::<Option<Seq<u8>>, _>(ServerReceiveError::UnknownClient(client_id))
            &&& self == pre
        } else if pre.clients[client_id].buffers[channel_id].len() == 0 {
            &&& r == Ok::<Option<Seq<u8>>, ServerReceiveError>(None)
            &&& self == pre
        } else {
            &&& r == Ok::<_, ServerReceiveError>(
                Some(pre.clients[client_id].buffers[channel_id].first()),
            )
            &&& self == (ServerEndpointView {
                clients: pre.clients.insert(client_id, pre.clients[client_id].read(channel_id)),
                ..pre
            })
        }
    }
}

/// The bytes of what was read.
pub open spec fn received_bytes(r: Result<Option<Bytes>, ServerReceiveError>) -> Result<
    Option<Seq<u8>>,
    ServerReceiveError,
> {
    match r {
        Ok(Some(payload)) => Ok(Some(payload_bytes(payload))),
        Ok(None) => Ok(None),
        Err(e) => Err(e),
    }
}

/// The events of some clients do not depend on what comes from another.
proof fn lemma_dispatch_events_of_others(
    pre: ServerEndpointView,
    ids: Seq<ClientId>,
    arrivals: Map<ClientId, Batch<(ChannelId, Seq<u8>)>>,
    other: ClientId,
    payloads: Batch<(ChannelId, Seq<u8>)>,
)
    requires
        !ids.contains(other),
    ensures
        pre.dispatch_events(ids, arrivals.insert(other, payloads)) == pre.dispatch_events(
            ids,
            arrivals,
        ),
    decreases ids.len(),
{
    if ids.len() > 0 {
        let before = ids.drop_last();
        assert forall|i: int| 0 <= i < before.len() implies before[i] != other by {
            assert(before[i] == ids[i]);
        }
        assert(ids[ids.len() - 1] != other);
        lemma_dispatch_events_of_others(pre, before, arrivals, other, payloads);
    }
}

impl ServerEndpoint {
    /// Reads the payload that has waited longest on a channel of a client.
    pub fn receive_payload(&mut self, client_id: ClientId, channel_id: ChannelId) -> (r: Result<
        Option<Bytes>,
        ServerReceiveError,
    >)
        ensures
            old(self)@.wf() ==> final(self)@.wf(),
            old(self)@.sound() ==> final(self)@.sound(),
            final(self)@.received(old(self)@, client_id, channel_id, received_bytes(r)),
    {
        match clients_get_mut(&mut self.clients, client_id) {
            Some(connection) => {
                let r = connection.internal_receive_payload(channel_id);
                proof {
                    if r is Some {
                        assert(self@.clients =~= old(self)@.clients.insert(
                            client_id,
                            old(self)@.clients[client_id].read(channel_id),
                        ));
                    } else {
                        assert(self@.clients =~= old(self)@.clients);
                    }
                    assert(self@.clients.dom() =~= old(self)@.clients.dom());
                    lemma_same_shape_keeps_sound(old(self)@, self@);
                }
                Ok(r)
            },
            None => Err(ServerReceiveError::UnknownClient(client_id)),
        }
    }

    /// [`Self::receive_payload`]; `None` for a client that is not there.
    pub fn try_receive_payload(&mut self, client_id: ClientId, channel_id: ChannelId) -> (r: Option<
        Bytes,
    >)
        ensures
            old(self)@.wf() ==> final(self)@.wf(),
            old(self)@.sound() ==> final(self)@.sound(),
            exists|result: Result<Option<Bytes>, ServerReceiveError>|
                #[trigger] final(self)@.received(
                    old(self)@,
                    client_id,
                    channel_id,
                    received_bytes(result),
                ) && r == match result {
                    Ok(payload) => payload,
                    Err(_) => None,
                },
    {
        let result = self.receive_payload(client_id, channel_id);
        match result {
            Ok(payload) => payload,
            Err(_) => None,
        }
    }

    /// Takes the payloads that have come from each client, in any order of the
    /// clients, and sorts them into the buffers of their channels. Returns the
    /// errors of it.
    pub fn dispatch_received_payloads(&mut self) -> (r: Vec<ServerRecvChannelError>)
        ensures
            old(self)@.wf() ==> final(self)@.wf(),
            old(self)@.sound() ==> final(self)@.sound(),
            final(self)@.dispatched(old(self)@, r@),
    {
        let client_ids = clients_keys(&self.clients);
        let mut events: Vec<ServerRecvChannelError> = Vec::new();
        let ghost mut arrivals: Map<ClientId, Batch<(ChannelId, Seq<u8>)>> = Map::empty();
        let mut i: usize = 0;
        assert(self@.clients =~= old(self)@.dispatch(arrivals).clients);
        assert(client_ids@.take(0) =~= Seq::<ClientId>::empty());
        while i < client_ids.len()
            invariant
                i <= client_ids@.len(),
                lists_keys(client_ids@, old(self)@.clients),
                forall|id: ClientId| #[trigger]
                    arrivals.contains_key(id) <==> client_ids@.take(i as int).contains(id),
                forall|id: ClientId| #[trigger]
                    arrivals.contains_key(id) ==> arrivals[id].complete(usize::MAX),
                self@ == old(self)@.dispatch(arrivals),
                events@ == old(self)@.dispatch_events(client_ids@.take(i as int), arrivals),
            decreases client_ids@.len() - i,
        {
            let client_id: ClientId = client_ids[i];
            let ghost before = self@;
            proof {
                assert(client_ids@.contains(client_id));
                lemma_take_next(client_ids@, i as int);
                assert(old(self)@.clients.contains_key(client_id));
                assert(before.clients.contains_key(client_id));
                assert(!arrivals.contains_key(client_id));
                assert(before.clients[client_id] == old(self)@.clients[client_id]);
            }
            match clients_get_mut(&mut self.clients, client_id) {
                Some(connection) => {
                    let ghost pre = connection@;
                    let outcome = connection.dispatch_received_payloads_to_channel_buffers();
                    let ghost payloads = choose|payloads: Batch<(ChannelId, Seq<u8>)>| #[trigger]
                        payloads.complete(usize::MAX) && connection@ == pre.dispatch(payloads)
                            && pre.dispatch_result(payloads.messages, outcome);
                    proof {
                        let longer = arrivals.insert(client_id, payloads);
                        assert(self@.clients =~= before.clients.insert(
                            client_id,
                            old(self)@.clients[client_id].dispatch(payloads),
                        ));
                        assert(self@.clients =~= old(self)@.dispatch(longer).clients);
                        lemma_dispatch_events_of_others(
                            old(self)@,
                            client_ids@.take(i as int),
                            arrivals,
                            client_id,
                            payloads,
                        );
                        assert(client_ids@.take(i + 1).drop_last() =~= client_ids@.take(i as int));
                        arrivals = longer;
                    }
                    match outcome {
                        Err(errors) => {
                            push_error_events(&mut events, client_id, errors);
                        },
                        Ok(()) => {
                            assert(error_events(
                                client_id,
                                old(self)@.clients[client_id].dispatch_errors(payloads.messages),
                            ) =~= Seq::<ServerRecvChannelError>::empty());
                            assert(events@ + Seq::<ServerRecvChannelError>::empty() =~= events@);
                        },
                    }
                },
                None => {
                    assert(false);
                },
            }
            i = i + 1;
        }
        proof {
            assert(client_ids@.take(i as int) =~= client_ids@);
            assert(arrivals.dom() =~= old(self)@.clients.dom());
            assert(self@.clients.dom() =~= old(self)@.clients.dom());
            lemma_same_shape_keeps_sound(old(self)@, self@);
        }
        events
    }

    /// Drops every payload that waits to be read, of every client.
    pub fn clear_payloads_from_clients(&mut self)
        ensures
            old(self)@.wf() ==> final(self)@.wf(),
            old(self)@.sound() ==> final(self)@.sound(),
            final(self)@ == old(self)@.cleared(),
    {
        let client_ids = clients_keys(&self.clients);
        let ghost mut done: Set<ClientId> = Set::empty();
        let mut i: usize = 0;
        while i < client_ids.len()
            invariant
                i <= client_ids@.len(),
                lists_keys(client_ids@, old(self)@.clients),
                forall|id: ClientId| #[trigger]
                    done.contains(id) <==> client_ids@.take(i as int).contains(id),
                self@ == (ServerEndpointView { clients: self@.clients, ..old(self)@ }),
                self@.clients.dom() == old(self)@.clients.dom(),
                forall|id: ClientId|
                    old(self)@.clients.contains_key(id) ==> #[trigger] self@.clients[id]
                        == if done.contains(id) {
                        old(self)@.clients[id].cleared()
                    } else {
                        old(self)@.clients[id]
                    },
            decreases client_ids@.len() - i,
        {
            let client_id: ClientId = client_ids[i];
            let ghost before = self@;
            proof {
                assert(client_ids@.contains(client_id));
                lemma_take_next(client_ids@, i as int);
                assert(old(self)@.clients.contains_key(client_id));
                assert(before.clients.contains_key(client_id));
                assert(!done.contains(client_id));
                assert(before.clients[client_id] == old(self)@.clients[client_id]);
            }
            match clients_get_mut(&mut self.clients, client_id) {
                Some(connection) => {
                    connection.clear_received_payloads();
                    proof {
                        assert(self@.clients =~= before.clients.insert(
                            client_id,
                            old(self)@.clients[client_id].cleared(),
                        ));
                        done = done.insert(client_id);
                    }
                },
                None => {
                    assert(false);
                },
            }
            i = i + 1;
        }
        proof {
            assert(client_ids@.take(i as int) =~= client_ids@);
            assert(self@.clients =~= old(self)@.cleared().clients);
            lemma_same_shape_keeps_sound(old(self)@, self@);
        }
    }

    /// Sets whether payloads that were not read are dropped at the end of each
    /// update.
    pub fn set_clear_stale_client_payloads(&mut self, enable: bool)
        ensures
            old(self)@.wf() ==> final(self)@.wf(),
            old(self)@.sound() ==> final(self)@.sound(),
            final(self)@ == (ServerEndpointView {
                recv_channels_cfg: RecvChannelsConfiguration {
                    clear_stale_received_payloads: enable,
                    ..old(self)@.recv_channels_cfg
                },
                ..old(self)@
            }),
    {
        self.recv_channels_cfg.clear_stale_received_payloads = enable;
    }

    /// How received payloads are kept.
    pub fn recv_channels_cfg(&self) -> (r: &RecvChannelsConfiguration)
        ensures
            *r == self@.recv_channels_cfg,
    {
        &self.recv_channels_cfg
    }
}

} // verus!
