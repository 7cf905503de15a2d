//! A connection to a client.

use iroh::EndpointId;
use tokio::sync::mpsc;
use vstd::prelude::*;

use crate::server::ServerSyncMessage;
use crate::shared::channels::{ChannelConfig, ChannelId, CloseReason};
use crate::shared::error::AsyncChannelError;
use crate::shared::peer_connection::PeerConnection;
#[allow(unused_imports)]
use crate::shared::channels::{links_for, ChannelSyncMessage, Link};
#[allow(unused_imports)]
use crate::shared::laws::lemma_links_keep_ends;
#[allow(unused_imports)]
use crate::shared::peer_connection::PeerConnectionView;
use crate::shared::queues::Outbox;
#[allow(unused_imports)]
use crate::shared::queues::{answer_of, queue_answered, Answer};
use crate::shared::{ClientId, InternalConnectionRef};

verus! {

/// A connection to a client from the server's perspective.
pub type ServerSideConnection = PeerConnection<ServerConnection>;

/// What the server side of a connection amounts to.
#[verifier::ext_equal]
pub struct ServerConnectionView {
    /// The established connection.
    pub connection_handle: InternalConnectionRef,
    /// Its half of the queue of messages to the async task.
    pub ack_half: mpsc::Sender<ServerSyncMessage>,
    /// The client ids that the async task was offered, oldest first, each with the
    /// answer.
    pub acks: Seq<(ClientId, Answer)>,
}

/// Specific data for a server-side connection.
pub struct ServerConnection {
    /// The established connection.
    pub connection_handle: InternalConnectionRef,
    /// Messages to the async task of the connection.
    pub to_connection_send: Outbox<ServerSyncMessage>,
}

/// The client ids of a sequence of offered acknowledgements, with the answers.
pub open spec fn acknowledged(offers: Seq<(ServerSyncMessage, Answer)>) -> Seq<
    (ClientId, Answer),
> {
    offers.map_values(|o: (ServerSyncMessage, Answer)| (o.0->ClientConnectedAck_0, o.1))
}

impl View for ServerConnection {
    type V = ServerConnectionView;

    open spec fn view(&self) -> ServerConnectionView {
        ServerConnectionView {
            connection_handle: self.connection_handle,
            ack_half: self.to_connection_send.half(),
            acks: acknowledged(self.to_connection_send.offers()),
        }
    }
}

/// The connection once its async task was offered the id of the client.
pub open spec fn acked(
    connection: PeerConnectionView<ServerConnectionView>,
    client_id: ClientId,
    answer: Answer,
) -> PeerConnectionView<ServerConnectionView> {
    PeerConnectionView {
        specific: ServerConnectionView {
            acks: connection.specific.acks.push((client_id, answer)),
            ..connection.specific
        },
        ..connection
    }
}

impl PeerConnectionView<ServerConnectionView> {
    /// `self` is the connection once its async tasks took the requests for the
    /// first of some channels, refused the next with `e`, and were ordered to
    /// close the connection.
    pub open spec fn closed_over(
        self,
        pre: Self,
        entries: Seq<(ChannelId, ChannelConfig)>,
        e: AsyncChannelError,
    ) -> bool {
        exists|n: int, links: Seq<Link>, request: ChannelSyncMessage, heard: bool|
            {
                &&& 0 <= n < entries.len()
                &&& #[trigger] links_for(links, entries.take(n))
                &&& pre.took_each(links)
                &&& #[trigger] pre.turned_down(request, entries[n].0, entries[n].1, e)
                &&& #[trigger] pre.was_told(CloseReason::LocalOrder, heard)
                &&& self == pre.link_each(links).ask(request, Answer::Refused(e)).told_to_close(
                    CloseReason::LocalOrder,
                    heard,
                )
            }
    }

    /// The async task of the connection was told the id of its client, and `r` is
    /// what its queue answered.
    pub open spec fn id_offered(
        self,
        client_id: ClientId,
        r: Result<(), AsyncChannelError>,
    ) -> bool {
        queue_answered(
            self.specific.ack_half,
            ServerSyncMessage::ClientConnectedAck(client_id),
            r,
        )
    }

    /// `self` is the connection once its async task refused the id of the client,
    /// and the tasks were ordered to close the connection.
    pub open spec fn unacknowledged(self, pre: Self, client_id: ClientId) -> bool {
        exists|why: AsyncChannelError, heard: bool|
            {
                &&& #[trigger] pre.id_offered(client_id, Err(why))
                &&& #[trigger] pre.was_told(CloseReason::LocalOrder, heard)
                &&& self == acked(pre, client_id, Answer::Refused(why)).told_to_close(
                    CloseReason::LocalOrder,
                    heard,
                )
            }
    }
}

impl ServerConnection {
    /// The server side of an established connection.
    pub fn new(
        connection_handle: InternalConnectionRef,
        to_connection_send: mpsc::Sender<ServerSyncMessage>,
    ) -> (r: Self)
        ensures
            r@ == (ServerConnectionView {
                connection_handle,
                ack_half: to_connection_send,
                acks: Seq::empty(),
            }),
    {
        let r = ServerConnection {
            connection_handle,
            to_connection_send: Outbox::new(to_connection_send),
        };
        assert(r@.acks =~= Seq::empty());
        r
    }
}

impl PeerConnection<ServerConnection> {
    /// Offers a message to the async task of the connection, once, and returns the
    /// answer of its queue.
    pub fn try_send_to_async_connection(&mut self, message: ServerSyncMessage) -> (r: Result<
        (),
        AsyncChannelError,
    >)
        ensures
            final(self)@ == acked(old(self)@, message->ClientConnectedAck_0, answer_of(r)),
            old(self)@.id_offered(message->ClientConnectedAck_0, r),
    {
        let r = self.specific.to_connection_send.try_send(message);
        assert(self@ =~= acked(old(self)@, message->ClientConnectedAck_0, answer_of(r)));
        r
    }

    /// Asks the async tasks for channels, in order, and registers them. At the
    /// first that they refuse, the connection is ordered to close, and the refusal
    /// comes back.
    pub fn open_channels(&mut self, entries: &Vec<(ChannelId, ChannelConfig)>) -> (r: Result<
        (),
        AsyncChannelError,
    >)
        ensures
            match r {
                Ok(()) => exists|links: Seq<Link>| #[trigger]
                    links_for(links, entries@) && old(self)@.took_each(links) && final(self)@
                        == old(self)@.link_each(links),
                Err(e) => final(self)@.closed_over(old(self)@, entries@, e),
            },
    {
        let ghost mut links: Seq<Link> = Seq::empty();
        let mut i: usize = 0;
        while i < entries.len()
            invariant
                i <= entries@.len(),
                links_for(links, entries@.take(i as int)),
                old(self)@.took_each(links),
                self@ == old(self)@.link_each(links),
            decreases entries@.len() - i,
        {
            let (channel_id, channel_type) = entries[i];
            let ghost before = self@;
            proof {
                lemma_links_keep_ends(old(self)@, links);
            }
            if let Err(e) = self.create_connection_channel(channel_id, channel_type) {
                let ghost mid = self@;
                self.try_close(CloseReason::LocalOrder);
                proof {
                    let request = choose|request: ChannelSyncMessage|
                        before.turned_down(request, channel_id, channel_type, e) && mid
                            == #[trigger] before.ask(request, Answer::Refused(e));
                    let heard = choose|heard: bool| #[trigger]
                        mid.was_told(CloseReason::LocalOrder, heard) && self@
                            == mid.told_to_close(CloseReason::LocalOrder, heard);
                    assert(old(self)@.turned_down(
                        request,
                        entries@[i as int].0,
                        entries@[i as int].1,
                        e,
                    ));
                    assert(old(self)@.was_told(CloseReason::LocalOrder, heard));
                }
                return Err(e);
            }
            proof {
                let link = choose|link: Link| #[trigger]
                    link.made_for(channel_id, channel_type) && before.took(link.request) && self@
                        == before.link(link);
                let shorter = links;
                links = shorter.push(link);
                assert(links.drop_last() =~= shorter);
                assert(old(self)@.took(link.request));
                let known = entries@.take(i as int);
                let longer = entries@.take(i + 1);
                assert forall|j: int| 0 <= j < links.len() implies (#[trigger] links[j]).made_for(
                    longer[j].0,
                    longer[j].1,
                ) by {
                    if j < i {
                        assert(links[j] == shorter[j]);
                        assert(known[j] == longer[j]);
                    }
                }
            }
            i = i + 1;
        }
        assert(entries@.take(i as int) =~= entries@);
        Ok(())
    }

    /// Tells the async task of the connection the id of its client. If it refuses
    /// that, the connection is ordered to close.
    pub fn acknowledge(&mut self, client_id: ClientId) -> (r: bool)
        ensures
            if r {
                &&& old(self)@.id_offered(client_id, Ok(()))
                &&& final(self)@ == acked(old(self)@, client_id, Answer::Taken)
            } else {
                final(self)@.unacknowledged(old(self)@, client_id)
            },
    {
        match self.try_send_to_async_connection(ServerSyncMessage::ClientConnectedAck(client_id)) {
            Ok(()) => true,
            Err(e) => {
                let ghost mid = self@;
                assert(mid == acked(old(self)@, client_id, Answer::Refused(e)));
                self.try_close(CloseReason::LocalOrder);
                proof {
                    let heard = choose|heard: bool| #[trigger]
                        mid.was_told(CloseReason::LocalOrder, heard) && self@
                            == mid.told_to_close(CloseReason::LocalOrder, heard);
                    assert(old(self)@.id_offered(client_id, Err(e)));
                    assert(old(self)@.was_told(CloseReason::LocalOrder, heard));
                }
                false
            },
        }
    }

    /// Returns the remote endpoint id of the client.
    pub fn remote_id(&self) -> (r: EndpointId)
        ensures
            r == self@.specific.connection_handle.remote_id,
    {
        self.specific.connection_handle.remote_id
    }
}

} // verus!
