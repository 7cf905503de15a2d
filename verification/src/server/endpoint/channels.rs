//! Opening and closing channels, for every client.

use vstd::prelude::*;

use crate::server::endpoint::ServerEndpoint;
#[allow(unused_imports)]
use crate::server::connection::ServerConnectionView;
#[allow(unused_imports)]
use crate::server::endpoint::ServerEndpointView;
use crate::server::maps::{channels_insert, channels_remove, clients_get_mut, clients_keys};
use crate::shared::channels::{Channel, ChannelConfig, ChannelId};
use crate::shared::error::{AsyncChannelError, ChannelCloseError, ChannelCreationError};
#[allow(unused_imports)]
use crate::shared::channels::{ChannelSyncMessage, ChannelView, Link};
#[allow(unused_imports)]
use crate::shared::listing::{lemma_take_next, lists_keys};
#[allow(unused_imports)]
use crate::shared::peer_connection::{ChannelsIdsPoolView, PeerConnectionView};
#[allow(unused_imports)]
use crate::shared::queues::Answer;
use crate::shared::ClientId;

verus! {

impl ServerEndpointView {
    /// The endpoint once the async tasks of some clients took requests for a
    /// channel.
    pub open spec fn ask_each(self, requests: Map<ClientId, ChannelSyncMessage>) -> Self {
        ServerEndpointView {
            clients: Map::new(
                |id: ClientId| self.clients.contains_key(id),
                |id: ClientId|
                    if requests.contains_key(id) {
                        self.clients[id].ask(requests[id], Answer::Taken)
                    } else {
                        self.clients[id]
                    },
            ),
            ..self
        }
    }

    /// The endpoint once a channel is registered for some clients.
    pub open spec fn register_each(
        self,
        channels: Map<ClientId, ChannelView>,
        channel_id: ChannelId,
    ) -> Self {
        ServerEndpointView {
            clients: Map::new(
                |id: ClientId| self.clients.contains_key(id),
                |id: ClientId|
                    if channels.contains_key(id) {
                        self.clients[id].register(channel_id, channels[id])
                    } else {
                        self.clients[id]
                    },
            ),
            ..self
        }
    }

    /// The endpoint once a channel is gone for the clients in `done`.
    pub open spec fn unregister_on(self, done: Set<ClientId>, channel_id: ChannelId) -> Self {
        ServerEndpointView {
            clients: Map::new(
                |id: ClientId| self.clients.contains_key(id),
                |id: ClientId|
                    if done.contains(id) {
                        self.clients[id].unregister(channel_id)
                    } else {
                        self.clients[id]
                    },
            ),
            ..self
        }
    }

    /// The endpoint once a channel is open: every client has it, by its link.
    pub open spec fn open(
        self,
        channel_id: ChannelId,
        config: ChannelConfig,
        links: Map<ClientId, Link>,
    ) -> Self {
        ServerEndpointView {
            opened_channels: self.opened_channels.insert(channel_id, config),
            clients: Map::new(
                |id: ClientId| self.clients.contains_key(id),
                |id: ClientId| self.clients[id].link(links[id]),
            ),
            ..self
        }
    }

    /// `self` is the endpoint once a channel was opened: the async tasks of every
    /// client took a request for it, and it is registered for every client.
    pub open spec fn opened(
        self,
        pre: Self,
        channel_id: ChannelId,
        config: ChannelConfig,
    ) -> bool {
        exists|links: Map<ClientId, Link>|
            {
                &&& forall|id: ClientId| #[trigger]
                    pre.clients.contains_key(id) ==> links[id].made_for(channel_id, config)
                &&& self == #[trigger] pre.open(channel_id, config, links)
            }
    }

    /// `self` is the endpoint once opening a channel has failed with `e`: the
    /// async tasks of some clients took a request for it, those of one more
    /// refused theirs with `e`, and nothing else changed.
    pub open spec fn open_failed(
        self,
        pre: Self,
        channel_id: ChannelId,
        config: ChannelConfig,
        e: AsyncChannelError,
    ) -> bool {
        exists|requests: Map<ClientId, ChannelSyncMessage>, last: ClientId|
            {
                &&& forall|id: ClientId| #[trigger]
                    requests.contains_key(id) ==> pre.clients.contains_key(id)
                        && requests[id]->id == channel_id && requests[id]->config == config
                &&& pre.clients.contains_key(last)
                &&& !requests.contains_key(last)
                &&& self.clients[last].refused(pre.clients[last], channel_id, config, e)
                &&& self == #[trigger] pre.ask_each(requests).with_client(
                    last,
                    self.clients[last],
                )
            }
    }

    /// The endpoint with another value of one of its clients.
    pub open spec fn with_client(
        self,
        client_id: ClientId,
        connection: PeerConnectionView<ServerConnectionView>,
    ) -> Self {
        ServerEndpointView { clients: self.clients.insert(client_id, connection), ..self }
    }

    /// `r` is what opening a channel can result in, and `self` the endpoint after
    /// it.
    pub open spec fn opens(
        self,
        pre: Self,
        config: ChannelConfig,
        r: Result<ChannelId, ChannelCreationError>,
    ) -> bool {
        match r {
            Ok(id) => {
                &&& pre.send_channel_ids.is_next(id)
                &&& self.opened(
                    ServerEndpointView {
                        send_channel_ids: pre.send_channel_ids.take(id),
                        ..pre
                    },
                    id,
                    config,
                )
            },
            Err(ChannelCreationError::MaxChannelsCountReached) => {
                &&& pre.send_channel_ids.available == Set::<ChannelId>::empty()
                &&& self == pre
            },
            Err(ChannelCreationError::AsyncChannelError(e)) => exists|id: ChannelId| #[trigger]
                pre.send_channel_ids.is_next(id) && self.open_failed(
                    ServerEndpointView {
                        send_channel_ids: pre.send_channel_ids.take(id).release(id),
                        ..pre
                    },
                    id,
                    config,
                    e,
                ),
        }
    }

    /// The clients in `done` have had a channel, and their tasks were ordered to
    /// stop it and heard that.
    pub open spec fn stopped_for(self, done: Set<ClientId>, channel_id: ChannelId) -> bool {
        forall|id: ClientId| #[trigger]
            done.contains(id) ==> self.clients.contains_key(id)
                && self.clients[id].close_possible(channel_id, Ok(()))
    }

    /// `r` is what closing a channel can result in, and `self` the endpoint
    /// after it. A channel that is not open cannot be closed; one that is open
    /// is forgotten. The clients close it in any order, up to the first that
    /// fails, and its id can be taken again once every client has closed it.
    pub open spec fn closes(
        self,
        pre: Self,
        channel_id: ChannelId,
        r: Result<(), ChannelCloseError>,
    ) -> bool {
        if pre.opened_channels.contains_key(channel_id) {
            let removed = ServerEndpointView {
                opened_channels: pre.opened_channels.remove(channel_id),
                ..pre
            };
            match r {
                Ok(()) => {
                    &&& pre.stopped_for(pre.clients.dom(), channel_id)
                    &&& self == (ServerEndpointView {
                        send_channel_ids: pre.send_channel_ids.release(channel_id),
                        ..removed.unregister_on(pre.clients.dom(), channel_id)
                    })
                },
                Err(e) => exists|done: Set<ClientId>, last: ClientId|
                    {
                        &&& pre.stopped_for(done, channel_id)
                        &&& !done.contains(last)
                        &&& pre.clients.contains_key(last)
                        &&& pre.clients[last].close_possible(channel_id, Err(e))
                        &&& self == #[trigger] removed.unregister_on(done.insert(last), channel_id)
                    },
            }
        } else {
            self == pre && r == Err::<(), _>(ChannelCloseError::InvalidChannelId(channel_id))
        }
    }
}

/// An endpoint without clients opens a channel whenever an id is left for it.
pub proof fn law_open_without_clients(
    pre: ServerEndpointView,
    post: ServerEndpointView,
    config: ChannelConfig,
    r: Result<ChannelId, ChannelCreationError>,
)
    requires
        pre.clients.dom() == Set::<ClientId>::empty(),
        post.opens(pre, config, r),
    ensures
        r is Ok || r == Err::<ChannelId, _>(ChannelCreationError::MaxChannelsCountReached),
{
    if let Err(ChannelCreationError::AsyncChannelError(e)) = r {
        let id = choose|id: ChannelId| #[trigger]
            pre.send_channel_ids.is_next(id) && post.open_failed(
                ServerEndpointView {
                    send_channel_ids: pre.send_channel_ids.take(id).release(id),
                    ..pre
                },
                id,
                config,
                e,
            );
        assert(forall|last: ClientId| pre.clients.contains_key(last) ==> #[trigger]
            pre.clients.dom().contains(last));
    }
}

/// Opening a channel under an id that was left keeps an endpoint sound.
proof fn lemma_open_keeps_sound(
    pre: ServerEndpointView,
    post: ServerEndpointView,
    id: ChannelId,
    config: ChannelConfig,
)
    requires
        pre.send_channel_ids.is_next(id),
        post.opened(
            ServerEndpointView { send_channel_ids: pre.send_channel_ids.take(id), ..pre },
            id,
            config,
        ),
    ensures
        pre.wf() ==> post.wf(),
        pre.sound() ==> post.sound(),
{
    assert(post.clients.dom() =~= pre.clients.dom());
}

/// Failing to open a channel keeps an endpoint sound.
proof fn lemma_failed_open_keeps_sound(
    pre: ServerEndpointView,
    released: ServerEndpointView,
    post: ServerEndpointView,
    id: ChannelId,
    config: ChannelConfig,
    e: AsyncChannelError,
)
    requires
        pre.send_channel_ids.is_next(id),
        released == (ServerEndpointView {
            send_channel_ids: pre.send_channel_ids.take(id).release(id),
            ..pre
        }),
        post.open_failed(released, id, config, e),
    ensures
        pre.wf() ==> post.wf(),
        pre.sound() ==> post.sound(),
{
    assert(post.clients.dom() =~= pre.clients.dom());
}

/// Closing a channel, for whichever clients, keeps an endpoint sound.
proof fn lemma_close_keeps_sound(
    pre: ServerEndpointView,
    post: ServerEndpointView,
    channel_id: ChannelId,
    done: Set<ClientId>,
)
    requires
        ({
            let removed = ServerEndpointView {
                opened_channels: pre.opened_channels.remove(channel_id),
                ..pre
            };
            ||| post == removed.unregister_on(done, channel_id)
            ||| post == (ServerEndpointView {
                send_channel_ids: pre.send_channel_ids.release(channel_id),
                ..removed.unregister_on(done, channel_id)
            })
        }),
    ensures
        pre.wf() ==> post.wf(),
        pre.sound() ==> post.sound(),
{
    assert(post.clients.dom() =~= pre.clients.dom());
}

impl ServerEndpoint {
    /// Asks the async tasks of every client for a channel, without registering
    /// it. Stops at the first that refuses.
    fn create_unregistered_endpoint_channels(
        &mut self,
        channel_id: ChannelId,
        channel_type: ChannelConfig,
    ) -> (r: Result<Vec<(ClientId, Channel)>, AsyncChannelError>)
        ensures
            match r {
                Ok(channels) => {
                    &&& lists_keys(
                        channels@.map_values(|c: (ClientId, Channel)| c.0),
                        old(self)@.clients,
                    )
                    &&& exists|requests: Map<ClientId, ChannelSyncMessage>|
                        {
                            &&& requests.dom() == old(self)@.clients.dom()
                            &&& forall|i: int|
                                0 <= i < channels@.len() ==> (Link {
                                    request: requests[(#[trigger] channels@[i]).0],
                                    channel: channels@[i].1@,
                                }).made_for(channel_id, channel_type)
                            &&& final(self)@ == #[trigger] old(self)@.ask_each(requests)
                        }
                },
                Err(e) => final(self)@.open_failed(old(self)@, channel_id, channel_type, e),
            },
    {
        let client_ids = clients_keys(&self.clients);
        let mut channels: Vec<(ClientId, Channel)> = Vec::new();
        let ghost mut requests: Map<ClientId, ChannelSyncMessage> = Map::empty();
        let mut i: usize = 0;
        assert(self@ =~= old(self)@.ask_each(requests));
        while i < client_ids.len()
            invariant
                i <= client_ids@.len(),
                channels@.len() == i,
                lists_keys(client_ids@, old(self)@.clients),
                forall|j: int|
                    0 <= j < i ==> (#[trigger] channels@[j]).0 == client_ids@[j] && (Link {
                        request: requests[client_ids@[j]],
                        channel: channels@[j].1@,
                    }).made_for(channel_id, channel_type),
                forall|id: ClientId| #[trigger]
                    requests.contains_key(id) <==> client_ids@.take(i as int).contains(id),
                forall|id: ClientId| #[trigger]
                    requests.contains_key(id) ==> requests[id]->id == channel_id
                        && requests[id]->config == channel_type,
                self@ == old(self)@.ask_each(requests),
            decreases client_ids@.len() - i,
        {
            let client_id: ClientId = client_ids[i];
            assert(client_ids@.contains(client_id));
            proof {
                lemma_take_next(client_ids@, i as int);
            }
            let ghost before = self@;
            assert(old(self)@.clients.contains_key(client_id));
            assert(before.clients.contains_key(client_id));
            assert(!requests.contains_key(client_id));
            assert(before.clients[client_id] == old(self)@.clients[client_id]);
            match clients_get_mut(&mut self.clients, client_id) {
                Some(connection) => {
                    let ghost pre = connection@;
                    match connection.create_unregistered_connection_channel(
                        channel_id,
                        channel_type,
                    ) {
                        Ok(channel) => {
                            let ghost request = choose|request: ChannelSyncMessage|
                                (Link { request, channel: channel@ }).made_for(
                                    channel_id,
                                    channel_type,
                                ) && connection@ == #[trigger] pre.ask(request, Answer::Taken);
                            let ghost earlier = channels@;
                            channels.push((client_id, channel));
                            proof {
                                let longer = requests.insert(client_id, request);
                                assert(self@.clients =~= before.clients.insert(
                                    client_id,
                                    old(self)@.clients[client_id].ask(request, Answer::Taken),
                                ));
                                assert(self@.clients =~= old(self)@.ask_each(longer).clients);
                                assert forall|j: int| 0 <= j < i + 1 implies (
                                #[trigger] channels@[j]).0 == client_ids@[j] && (Link {
                                    request: longer[client_ids@[j]],
                                    channel: channels@[j].1@,
                                }).made_for(channel_id, channel_type) by {
                                    if j < i {
                                        assert(channels@[j] == earlier[j]);
                                        assert(client_ids@[j] != client_id);
                                    }
                                }
                                requests = longer;
                            }
                        },
                        Err(e) => {
                            proof {
                                let post = connection@;
                                assert(self@.clients =~= before.clients.insert(client_id, post));
                                assert(self@ =~= old(self)@.ask_each(requests).with_client(
                                    client_id,
                                    self@.clients[client_id],
                                ));
                                assert forall|id: ClientId| #[trigger]
                                    requests.contains_key(id) implies old(
                                    self,
                                )@.clients.contains_key(id) by {
                                    assert(client_ids@.take(i as int).contains(id));
                                    assert(client_ids@.contains(id));
                                }
                            }
                            return Err(e);
                        },
                    }
                },
                None => {
                    assert(false);
                },
            }
            i = i + 1;
        }
        proof {
            assert(client_ids@.take(i as int) =~= client_ids@);
            assert(requests.dom() =~= old(self)@.clients.dom());
            assert(channels@.map_values(|c: (ClientId, Channel)| c.0) =~= client_ids@);
        }
        Ok(channels)
    }

    /// Opens a channel under an id that was taken for it. When a client's tasks
    /// refuse it, the id is released.
    fn create_endpoint_channel(
        &mut self,
        channel_id: ChannelId,
        channel_type: ChannelConfig,
    ) -> (r: Result<ChannelId, AsyncChannelError>)
        ensures
            match r {
                Ok(id) => id == channel_id && final(self)@.opened(
                    old(self)@,
                    channel_id,
                    channel_type,
                ),
                Err(e) => final(self)@.open_failed(
                    ServerEndpointView {
                        send_channel_ids: old(self)@.send_channel_ids.release(channel_id),
                        ..old(self)@
                    },
                    channel_id,
                    channel_type,
                    e,
                ),
            },
    {
        let channels = match self.create_unregistered_endpoint_channels(channel_id, channel_type) {
            Ok(channels) => channels,
            Err(e) => {
                let ghost failed = self@;
                let ghost (requests, last) = choose|
                    requests: Map<ClientId, ChannelSyncMessage>,
                    last: ClientId,
                |
                    {
                        &&& forall|id: ClientId| #[trigger]
                            requests.contains_key(id) ==> old(self)@.clients.contains_key(id)
                                && requests[id]->id == channel_id && requests[id]->config
                                == channel_type
                        &&& old(self)@.clients.contains_key(last)
                        &&& !requests.contains_key(last)
                        &&& failed.clients[last].refused(
                            old(self)@.clients[last],
                            channel_id,
                            channel_type,
                            e,
                        )
                        &&& failed == #[trigger] old(self)@.ask_each(requests).with_client(
                            last,
                            failed.clients[last],
                        )
                    };
                self.send_channel_ids.release_id(channel_id);
                proof {
                    let released = ServerEndpointView {
                        send_channel_ids: old(self)@.send_channel_ids.release(channel_id),
                        ..old(self)@
                    };
                    assert(self@ =~= released.ask_each(requests).with_client(
                        last,
                        self@.clients[last],
                    ));
                }
                return Err(e);
            },
        };
        let ghost asked = self@;
        let ghost all = channels@;
        let ghost ids = all.map_values(|c: (ClientId, Channel)| c.0);
        let ghost requests = choose|requests: Map<ClientId, ChannelSyncMessage>|
            {
                &&& requests.dom() == old(self)@.clients.dom()
                &&& forall|i: int|
                    0 <= i < all.len() ==> (Link {
                        request: requests[(#[trigger] all[i]).0],
                        channel: all[i].1@,
                    }).made_for(channel_id, channel_type)
                &&& asked == #[trigger] old(self)@.ask_each(requests)
            };
        let ghost mut registered: Map<ClientId, ChannelView> = Map::empty();
        assert(self@ =~= asked.register_each(registered, channel_id));
        assert(asked.clients.dom() =~= old(self)@.clients.dom());
        for entry in iter: channels
            invariant
                all == iter.seq(),
                ids == all.map_values(|c: (ClientId, Channel)| c.0),
                lists_keys(ids, asked.clients),
                forall|i: int|
                    0 <= i < all.len() ==> (Link {
                        request: requests[(#[trigger] all[i]).0],
                        channel: all[i].1@,
                    }).made_for(channel_id, channel_type),
                forall|id: ClientId| #[trigger]
                    registered.contains_key(id) <==> ids.take(iter.index()).contains(id),
                forall|id: ClientId| #[trigger]
                    registered.contains_key(id) ==> (Link {
                        request: requests[id],
                        channel: registered[id],
                    }).made_for(channel_id, channel_type),
                self@ == asked.register_each(registered, channel_id),
        {
            let (client_id, channel) = entry;
            let ghost before = self@;
            let ghost fresh = channel@;
            proof {
                assert(all[iter.index()].0 == client_id);
                assert(ids[iter.index()] == client_id);
                assert(ids.contains(client_id));
                lemma_take_next(ids, iter.index());
                assert(asked.clients.contains_key(client_id));
                assert(before.clients.contains_key(client_id));
                assert(!registered.contains_key(client_id));
                assert(before.clients[client_id] == asked.clients[client_id]);
            }
            match clients_get_mut(&mut self.clients, client_id) {
                Some(connection) => {
                    connection.register_connection_channel(channel);
                    proof {
                        let longer = registered.insert(client_id, fresh);
                        assert(self@.clients =~= before.clients.insert(
                            client_id,
                            asked.clients[client_id].register(channel_id, fresh),
                        ));
                        assert(self@.clients =~= asked.register_each(longer, channel_id).clients);
                        registered = longer;
                    }
                },
                None => {
                    assert(false);
                },
            }
        }
        let _ = channels_insert(&mut self.opened_channels, channel_id, channel_type);
        proof {
            assert(ids.take(ids.len() as int) =~= ids);
            let links = Map::new(
                |id: ClientId| old(self)@.clients.contains_key(id),
                |id: ClientId| Link { request: requests[id], channel: registered[id] },
            );
            assert forall|id: ClientId| #[trigger]
                old(self)@.clients.contains_key(id) implies links[id].made_for(
                channel_id,
                channel_type,
            ) && registered.contains_key(id) && requests.contains_key(id) by {
                assert(asked.clients.contains_key(id));
                assert(ids.contains(id));
                assert(registered.contains_key(id));
                assert(requests.dom().contains(id));
            }
            assert(self@.clients =~= old(self)@.open(channel_id, channel_type, links).clients);
            assert(self@ =~= old(self)@.open(channel_id, channel_type, links));
        }
        Ok(channel_id)
    }

    /// Opens a channel, for every client.
    pub fn open_channel(&mut self, channel_type: ChannelConfig) -> (r: Result<
        ChannelId,
        ChannelCreationError,
    >)
        ensures
            old(self)@.wf() ==> final(self)@.wf(),
            old(self)@.sound() ==> final(self)@.sound(),
            final(self)@.opens(old(self)@, channel_type, r),
    {
        match self.send_channel_ids.take_id() {
            Ok(channel_id) => {
                let ghost taken = self@;
                assert(taken =~= ServerEndpointView {
                    send_channel_ids: old(self)@.send_channel_ids.take(channel_id),
                    ..old(self)@
                });
                match self.create_endpoint_channel(channel_id, channel_type) {
                    Ok(id) => {
                        proof {
                            lemma_open_keeps_sound(
                                old(self)@,
                                self@,
                                channel_id,
                                channel_type,
                            );
                        }
                        Ok(id)
                    },
                    Err(e) => {
                        proof {
                            let released = ServerEndpointView {
                                send_channel_ids: taken.send_channel_ids.release(channel_id),
                                ..taken
                            };
                            lemma_failed_open_keeps_sound(
                                old(self)@,
                                released,
                                self@,
                                channel_id,
                                channel_type,
                                e,
                            );
                        }
                        Err(ChannelCreationError::AsyncChannelError(e))
                    },
                }
            },
            Err(e) => Err(e),
        }
    }

    /// Opens a channel, for every client, where an id is known to be left.
    pub fn unchecked_open_channel(&mut self, channel_type: ChannelConfig) -> (r: Result<
        ChannelId,
        AsyncChannelError,
    >)
        requires
            exists|id: ChannelId| old(self)@.send_channel_ids.available.contains(id),
        ensures
            old(self)@.wf() ==> final(self)@.wf(),
            old(self)@.sound() ==> final(self)@.sound(),
            final(self)@.opens(
                old(self)@,
                channel_type,
                match r {
                    Ok(id) => Ok(id),
                    Err(e) => Err(ChannelCreationError::AsyncChannelError(e)),
                },
            ),
    {
        match self.open_channel(channel_type) {
            Ok(id) => Ok(id),
            Err(ChannelCreationError::AsyncChannelError(e)) => Err(e),
            Err(ChannelCreationError::MaxChannelsCountReached) => {
                assert(false);
                Err(AsyncChannelError::InternalChannelClosed)
            },
        }
    }

    /// Closes a channel, for every client. Stops at the first client for which
    /// that fails.
    pub fn close_channel(&mut self, channel_id: ChannelId) -> (r: Result<(), ChannelCloseError>)
        ensures
            old(self)@.wf() ==> final(self)@.wf(),
            old(self)@.sound() ==> final(self)@.sound(),
            final(self)@.closes(old(self)@, channel_id, r),
    {
        match channels_remove(&mut self.opened_channels, channel_id) {
            Some(_) => {
                let ghost removed = self@;
                let client_ids = clients_keys(&self.clients);
                let ghost mut done: Set<ClientId> = Set::empty();
                let mut i: usize = 0;
                assert(self@ =~= removed.unregister_on(done, channel_id));
                while i < client_ids.len()
                    invariant
                        i <= client_ids@.len(),
                        lists_keys(client_ids@, removed.clients),
                        removed == (ServerEndpointView {
                            opened_channels: old(self)@.opened_channels.remove(channel_id),
                            ..old(self)@
                        }),
                        old(self)@.opened_channels.contains_key(channel_id),
                        forall|id: ClientId| #[trigger]
                            done.contains(id) <==> client_ids@.take(i as int).contains(id),
                        old(self)@.stopped_for(done, channel_id),
                        self@ == removed.unregister_on(done, channel_id),
                    decreases client_ids@.len() - i,
                {
                    let client_id: ClientId = client_ids[i];
                    let ghost before = self@;
                    proof {
                        assert(client_ids@.contains(client_id));
                        lemma_take_next(client_ids@, i as int);
                        assert(removed.clients.contains_key(client_id));
                        assert(before.clients.contains_key(client_id));
                        assert(before.clients[client_id] == removed.clients[client_id]);
                    }
                    match clients_get_mut(&mut self.clients, client_id) {
                        Some(connection) => {
                            let closed = connection.internal_close_channel(channel_id);
                            let ghost stopped = done;
                            proof {
                                assert(!stopped.contains(client_id));
                                assert(self@.clients =~= before.clients.insert(
                                    client_id,
                                    removed.clients[client_id].unregister(channel_id),
                                ));
                                done = stopped.insert(client_id);
                                assert(self@.clients =~= removed.unregister_on(
                                    done,
                                    channel_id,
                                ).clients);
                                assert(self@ =~= removed.unregister_on(done, channel_id));
                            }
                            if let Err(e) = closed {
                                proof {
                                    lemma_close_keeps_sound(old(self)@, self@, channel_id, done);
                                    assert(self@ == removed.unregister_on(
                                        stopped.insert(client_id),
                                        channel_id,
                                    ));
                                }
                                return Err(e);
                            }
                        },
                        None => {
                            assert(false);
                        },
                    }
                    i = i + 1;
                }
                self.send_channel_ids.release_id(channel_id);
                proof {
                    assert(client_ids@.take(i as int) =~= client_ids@);
                    assert(done =~= old(self)@.clients.dom());
                    lemma_close_keeps_sound(old(self)@, self@, channel_id, done);
                }
                Ok(())
            },
            None => {
                assert(self@.opened_channels =~= old(self)@.opened_channels);
                Err(ChannelCloseError::InvalidChannelId(channel_id))
            },
        }
    }

    /// Makes a channel the default channel.
    pub fn set_default_channel(&mut self, channel_id: ChannelId)
        ensures
            old(self)@.wf() ==> final(self)@.wf(),
            old(self)@.sound() ==> final(self)@.sound(),
            final(self)@ == (ServerEndpointView {
                send_channel_ids: ChannelsIdsPoolView {
                    default_channel: Some(channel_id),
                    ..old(self)@.send_channel_ids
                },
                ..old(self)@
            }),
    {
        self.send_channel_ids.set_default_channel(channel_id);
    }

    /// The default channel.
    pub fn default_channel(&self) -> (r: Option<ChannelId>)
        ensures
            r == self@.send_channel_ids.default_channel,
    {
        self.send_channel_ids.default_channel()
    }
}

} // verus!
