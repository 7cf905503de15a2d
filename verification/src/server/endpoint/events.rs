//! What an endpoint makes of the messages of its async tasks.

use vstd::prelude::*;

use crate::server::endpoint::ServerEndpoint;
#[allow(unused_imports)]
use crate::server::endpoint::{lemma_same_shape_keeps_sound, ServerEndpointView};
use crate::server::maps::{clients_contains, clients_get_mut, clients_keys};
use crate::server::{ConnectionEvent, ConnectionLostEvent, ServerAsyncMessage};
#[allow(unused_imports)]
use crate::shared::channels::ChannelAsyncMessage;
use crate::shared::channels::CloseReason;
#[allow(unused_imports)]
use crate::shared::error::AsyncChannelError;
#[allow(unused_imports)]
use crate::shared::listing::{lemma_take_next, lists_keys};
#[allow(unused_imports)]
use crate::shared::queues::Batch;
use crate::shared::ClientId;

verus! {

/// What handling one message came to.
#[derive(Debug, Copy, Clone, PartialEq, Eq, Structural)]
pub enum ServerStep {
    /// A client was accepted under this id.
    Accepted(ClientId),
    /// A client was not accepted: it was gone before, or there is no room for it.
    Refused,
    /// This client is lost.
    Lost(ClientId),
    /// The message was about a client that is not there any more.
    Stale,
}

/// The clients that the steps accepted, in order.
pub open spec fn accepted_ids(steps: Seq<ServerStep>) -> Seq<ClientId>
    decreases steps.len(),
{
    if steps.len() == 0 {
        Seq::empty()
    } else {
        let before = accepted_ids(steps.drop_last());
        match steps.last() {
            ServerStep::Accepted(id) => before.push(id),
            _ => before,
        }
    }
}

/// The clients that the steps lost, in order.
pub open spec fn lost_ids(steps: Seq<ServerStep>) -> Seq<ClientId>
    decreases steps.len(),
{
    if steps.len() == 0 {
        Seq::empty()
    } else {
        let before = lost_ids(steps.drop_last());
        match steps.last() {
            ServerStep::Lost(id) => before.push(id),
            _ => before,
        }
    }
}

/// The ids of connection events.
pub open spec fn connected(events: Seq<ConnectionEvent>) -> Seq<ClientId> {
    events.map_values(|e: ConnectionEvent| e.id)
}

/// The ids of connection-lost events.
pub open spec fn lost(events: Seq<ConnectionLostEvent>) -> Seq<ClientId> {
    events.map_values(|e: ConnectionLostEvent| e.id)
}

/// The endpoint went through `states`, one after each of `messages`, which came
/// to `steps`.
pub open spec fn is_trace(
    states: Seq<ServerEndpointView>,
    messages: Seq<ServerAsyncMessage>,
    steps: Seq<ServerStep>,
) -> bool {
    &&& states.len() == messages.len() + 1
    &&& steps.len() == messages.len()
    &&& forall|i: int|
        0 <= i < messages.len() ==> states[i + 1].handles(
            states[i],
            messages[i],
            #[trigger] steps[i],
        )
}

impl ServerEndpointView {
    /// `step` is what handling a message can come to, and `self` the endpoint
    /// after it. A connection for which there is no room is ordered to close.
    pub open spec fn handles(
        self,
        pre: Self,
        message: ServerAsyncMessage,
        step: ServerStep,
    ) -> bool {
        match message {
            ServerAsyncMessage::ClientConnected(connection) => if pre.has_room() {
                match step {
                    ServerStep::Accepted(id) => self.accepts(pre, connection@, Ok(id)),
                    ServerStep::Refused => exists|e: AsyncChannelError| #[trigger]
                        self.accepts(pre, connection@, Err(e)),
                    _ => false,
                }
            } else {
                &&& step == ServerStep::Refused
                &&& self == pre
                &&& connection@.told(CloseReason::LocalOrder)
            },
            ServerAsyncMessage::ClientConnectionClosed(id) => if pre.clients.contains_key(id) {
                &&& step == ServerStep::Lost(id)
                &&& self == pre.disconnect(id)
                &&& pre.clients[id].told(CloseReason::PeerClosed)
            } else {
                step == ServerStep::Stale && self == pre
            },
        }
    }

    /// `self` is the endpoint once `messages` were handled in order, each with
    /// what it came to in `steps`.
    pub open spec fn ran(
        self,
        pre: Self,
        messages: Seq<ServerAsyncMessage>,
        steps: Seq<ServerStep>,
    ) -> bool {
        exists|states: Seq<Self>| #[trigger]
            is_trace(states, messages, steps) && states[0] == pre && states[messages.len() as int]
                == self
    }

    /// The endpoint once reports were taken from the channel tasks of some clients,
    /// which has left their halves as those of `after`.
    pub open spec fn reported(
        self,
        reports: Map<ClientId, Batch<ChannelAsyncMessage>>,
        after: Self,
    ) -> Self {
        ServerEndpointView {
            clients: Map::new(
                |id: ClientId| self.clients.contains_key(id),
                |id: ClientId|
                    if reports.contains_key(id) {
                        self.clients[id].with_reports(
                            reports[id],
                            after.clients[id].reports_left,
                        )
                    } else {
                        self.clients[id]
                    },
            ),
            ..self
        }
    }

    /// `self` is the endpoint once the messages of the async tasks were taken, all
    /// of them, and handled; and then the reports of the channel tasks of every
    /// client were taken, and the clients were disconnected whose tasks reported
    /// the connection as lost. `accepted` are the clients that were accepted,
    /// `gone` those that were lost, by either way.
    pub open spec fn updated(
        self,
        pre: Self,
        accepted: Seq<ClientId>,
        gone: Seq<ClientId>,
    ) -> bool {
        exists|
            messages: Batch<ServerAsyncMessage>,
            steps: Seq<ServerStep>,
            mid: Self,
            surveyed: Self,
            reported: Seq<ClientId>,
        |
            {
                &&& messages.complete(usize::MAX)
                &&& #[trigger] mid.ran(pre.with_messages(messages), messages.messages, steps)
                &&& #[trigger] surveyed.surveyed(mid, reported)
                &&& self.disconnected_each(surveyed, reported)
                &&& accepted == accepted_ids(steps)
                &&& gone == lost_ids(steps) + reported
            }
    }

    /// The endpoint once each of some clients is disconnected, in order.
    pub open spec fn disconnect_each(self, ids: Seq<ClientId>) -> Self
        decreases ids.len(),
    {
        if ids.len() == 0 {
            self
        } else {
            self.disconnect_each(ids.drop_last()).disconnect(ids.last())
        }
    }

    /// `self` is the endpoint once each of some clients was ordered to close its
    /// connection, and is disconnected.
    pub open spec fn disconnected_each(self, pre: Self, ids: Seq<ClientId>) -> bool {
        &&& self == pre.disconnect_each(ids)
        &&& forall|id: ClientId| #[trigger]
            ids.contains(id) ==> pre.clients[id].told(CloseReason::LocalOrder)
    }

    /// `self` is the endpoint once all reports of every client's channel tasks
    /// were taken, and `gone` are the clients whose tasks reported the connection
    /// as lost, each once.
    pub open spec fn surveyed(self, pre: Self, gone: Seq<ClientId>) -> bool {
        exists|reports: Map<ClientId, Batch<ChannelAsyncMessage>>|
            {
                &&& reports.dom() == pre.clients.dom()
                &&& forall|id: ClientId| #[trigger]
                    reports.contains_key(id) ==> pre.clients[id].gave_reports(
                        reports[id],
                        self.clients[id].reports_left,
                    )
                &&& self == #[trigger] pre.reported(reports, self)
                &&& gone.no_duplicates()
                &&& forall|id: ClientId| #[trigger]
                    gone.contains(id) <==> reports.contains_key(id) && reports[id].messages.len()
                        > 0
            }
    }
}

impl ServerEndpoint {
    /// Handles one message of the async tasks.
    pub fn handle_message(&mut self, message: ServerAsyncMessage) -> (r: ServerStep)
        requires
            old(self)@.wf(),
        ensures
            final(self)@.wf(),
            old(self)@.sound() ==> final(self)@.sound(),
            final(self)@.handles(old(self)@, message, r),
    {
        match message {
            ServerAsyncMessage::ClientConnected(connection) => {
                if !self.has_room() {
                    let mut connection = connection;
                    let ghost pre = connection@;
                    connection.try_close(CloseReason::LocalOrder);
                    proof {
                        let heard = choose|heard: bool| #[trigger]
                            pre.was_told(CloseReason::LocalOrder, heard);
                        assert(pre.was_told(CloseReason::LocalOrder, heard));
                    }
                    return ServerStep::Refused;
                }
                match self.handle_new_connection(connection) {
                    Ok(client_id) => ServerStep::Accepted(client_id),
                    Err(e) => {
                        assert(self@.accepts(old(self)@, connection@, Err(e)));
                        ServerStep::Refused
                    },
                }
            },
            ServerAsyncMessage::ClientConnectionClosed(client_id) => {
                if clients_contains(&self.clients, client_id) {
                    self.try_disconnect_closed_client(client_id);
                    ServerStep::Lost(client_id)
                } else {
                    ServerStep::Stale
                }
            },
        }
    }

    /// Handles messages of the async tasks, in order. Returns an event for each
    /// client that was accepted, and one for each that is lost.
    pub fn handle_messages(&mut self, messages: Vec<ServerAsyncMessage>) -> (r: (
        Vec<ConnectionEvent>,
        Vec<ConnectionLostEvent>,
    ))
        requires
            old(self)@.wf(),
        ensures
            final(self)@.wf(),
            old(self)@.sound() ==> final(self)@.sound(),
            exists|steps: Seq<ServerStep>| #[trigger]
                final(self)@.ran(old(self)@, messages@, steps) && connected(r.0@) == accepted_ids(
                    steps,
                ) && lost(r.1@) == lost_ids(steps),
    {
        let mut connection_events: Vec<ConnectionEvent> = Vec::new();
        let mut lost_events: Vec<ConnectionLostEvent> = Vec::new();
        let ghost all = messages@;
        let ghost mut steps: Seq<ServerStep> = Seq::empty();
        let ghost mut states: Seq<ServerEndpointView> = seq![self@];
        assert(connected(connection_events@) =~= accepted_ids(steps));
        assert(lost(lost_events@) =~= lost_ids(steps));
        for message in iter: messages
            invariant
                all == iter.seq(),
                self@.wf(),
                old(self)@.sound() ==> self@.sound(),
                is_trace(states, all.take(iter.index()), steps),
                states[0] == old(self)@,
                states.last() == self@,
                connected(connection_events@) == accepted_ids(steps),
                lost(lost_events@) == lost_ids(steps),
        {
            let step = self.handle_message(message);
            proof {
                let seen = all.take(iter.index() + 1);
                let shorter = steps;
                let earlier = states;
                steps = shorter.push(step);
                states = earlier.push(self@);
                assert(steps.drop_last() =~= shorter);
                assert forall|i: int| 0 <= i < seen.len() implies states[i + 1].handles(
                    states[i],
                    seen[i],
                    #[trigger] steps[i],
                ) by {
                    if i < shorter.len() {
                        assert(shorter[i] == steps[i]);
                        assert(all.take(iter.index())[i] == seen[i]);
                    }
                }
            }
            match step {
                ServerStep::Accepted(id) => {
                    let ghost before = connection_events@;
                    connection_events.push(ConnectionEvent { id });
                    assert(connected(connection_events@) =~= connected(before).push(id));
                },
                ServerStep::Lost(id) => {
                    let ghost before = lost_events@;
                    lost_events.push(ConnectionLostEvent { id });
                    assert(lost(lost_events@) =~= lost(before).push(id));
                },
                _ => {},
            }
        }
        assert(all.take(all.len() as int) =~= all);
        assert(self@.ran(old(self)@, all, steps));
        (connection_events, lost_events)
    }

    /// Takes the reports of every client's channel tasks. Returns the clients
    /// that they reported as lost, each once.
    pub fn collect_lost_clients(&mut self) -> (r: Vec<ClientId>)
        ensures
            old(self)@.wf() ==> final(self)@.wf(),
            old(self)@.sound() ==> final(self)@.sound(),
            final(self)@.surveyed(old(self)@, r@),
    {
        let client_ids = clients_keys(&self.clients);
        let mut gone: Vec<ClientId> = Vec::new();
        let ghost mut reports: Map<ClientId, Batch<ChannelAsyncMessage>> = Map::empty();
        let mut i: usize = 0;
        assert(self@.clients =~= old(self)@.reported(reports, self@).clients);
        while i < client_ids.len()
            invariant
                i <= client_ids@.len(),
                lists_keys(client_ids@, old(self)@.clients),
                forall|id: ClientId| #[trigger]
                    reports.contains_key(id) <==> client_ids@.take(i as int).contains(id),
                forall|id: ClientId| #[trigger]
                    reports.contains_key(id) ==> old(self)@.clients[id].gave_reports(
                        reports[id],
                        self@.clients[id].reports_left,
                    ),
                self@ == old(self)@.reported(reports, self@),
                gone@.no_duplicates(),
                forall|id: ClientId| #[trigger]
                    gone@.contains(id) <==> reports.contains_key(id) && reports[id].messages.len()
                        > 0,
            decreases client_ids@.len() - i,
        {
            let client_id: ClientId = client_ids[i];
            let ghost before = self@;
            proof {
                assert(client_ids@.contains(client_id));
                lemma_take_next(client_ids@, i as int);
                assert(old(self)@.clients.contains_key(client_id));
                assert(before.clients.contains_key(client_id));
                assert(!reports.contains_key(client_id));
                assert(before.clients[client_id] == old(self)@.clients[client_id]);
            }
            match clients_get_mut(&mut self.clients, client_id) {
                Some(connection) => {
                    let ghost pre = connection@;
                    let taken = connection.drain_channel_reports();
                    let ghost batch = choose|batch: Batch<ChannelAsyncMessage>| #[trigger]
                        pre.gave_reports(batch, connection@.reports_left) && batch.messages
                            == taken@ && connection@ == pre.with_reports(
                            batch,
                            connection@.reports_left,
                        );
                    let ghost after = connection@;
                    proof {
                        let longer = reports.insert(client_id, batch);
                        assert(self@.clients =~= before.clients.insert(client_id, after));
                        assert(self@.clients =~= old(self)@.reported(longer, self@).clients);
                        reports = longer;
                    }
                    if taken.len() > 0 {
                        let ghost shorter = gone@;
                        gone.push(client_id);
                        proof {
                            assert(!shorter.contains(client_id));
                            assert forall|id: ClientId| #[trigger] gone@.contains(id) <==> (
                            shorter.contains(id) || id == client_id) by {
                                if shorter.contains(id) {
                                    let k = choose|k: int|
                                        0 <= k < shorter.len() && shorter[k] == id;
                                    assert(gone@[k] == id);
                                }
                                assert(gone@[shorter.len() as int] == client_id);
                            }
                        }
                    }
                },
                None => {
                    assert(false);
                },
            }
            i = i + 1;
        }
        proof {
            assert(client_ids@.take(i as int) =~= client_ids@);
            assert(reports.dom() =~= old(self)@.clients.dom());
            assert(self@.clients.dom() =~= old(self)@.clients.dom());
            lemma_same_shape_keeps_sound(old(self)@, self@);
        }
        gone
    }

    /// Handles the messages of the async tasks that have come, and disconnects the
    /// clients that are lost. Returns an event for each client that was accepted,
    /// and one for each that is lost.
    pub fn update(&mut self) -> (r: (Vec<ConnectionEvent>, Vec<ConnectionLostEvent>))
        requires
            old(self)@.wf(),
        ensures
            final(self)@.wf(),
            old(self)@.sound() ==> final(self)@.sound(),
            final(self)@.updated(old(self)@, connected(r.0@), lost(r.1@)),
    {
        let messages = self.drain_async_messages(usize::MAX);
        let ghost all = messages@;
        let ghost drained = self@;
        let ghost batch = choose|batch: Batch<ServerAsyncMessage>| #[trigger]
            batch.complete(usize::MAX) && batch.messages == all && drained == old(
                self,
            )@.with_messages(batch);
        let (connection_events, mut lost_events) = self.handle_messages(messages);
        let ghost steps = choose|steps: Seq<ServerStep>| #[trigger]
            self@.ran(drained, all, steps) && connected(connection_events@) == accepted_ids(steps)
                && lost(lost_events@) == lost_ids(steps);
        let ghost mid = self@;
        let reported = self.collect_lost_clients();
        let ghost surveyed = self@;
        let mut i: usize = 0;
        assert(lost(lost_events@) =~= lost_ids(steps) + reported@.take(0));
        while i < reported.len()
            invariant
                i <= reported@.len(),
                lost(lost_events@) == lost_ids(steps) + reported@.take(i as int),
            decreases reported@.len() - i,
        {
            let ghost before = lost_events@;
            lost_events.push(ConnectionLostEvent { id: reported[i] });
            assert(lost(lost_events@) =~= lost(before).push(reported@[i as int]));
            assert(lost(lost_events@) =~= lost_ids(steps) + reported@.take(i + 1));
            i = i + 1;
        }
        assert(reported@.take(i as int) =~= reported@);
        proof {
            let reports = choose|reports: Map<ClientId, Batch<ChannelAsyncMessage>>|
                {
                    &&& reports.dom() == mid.clients.dom()
                    &&& forall|id: ClientId| #[trigger]
                        reports.contains_key(id) ==> mid.clients[id].gave_reports(
                            reports[id],
                            surveyed.clients[id].reports_left,
                        )
                    &&& surveyed == #[trigger] mid.reported(reports, surveyed)
                    &&& reported@.no_duplicates()
                    &&& forall|id: ClientId| #[trigger]
                        reported@.contains(id) <==> reports.contains_key(id)
                            && reports[id].messages.len() > 0
                };
            assert forall|id: ClientId| #[trigger]
                reported@.contains(id) implies surveyed.clients.contains_key(id) by {
                assert(reports.contains_key(id));
                assert(mid.clients.dom().contains(id));
            }
        }
        self.disconnect_lost_clients(&reported);
        proof {
            assert(mid.ran(old(self)@.with_messages(batch), batch.messages, steps));
            assert(surveyed.surveyed(mid, reported@));
        }
        (connection_events, lost_events)
    }

    /// Disconnects each of some clients that are there.
    pub fn disconnect_lost_clients(&mut self, gone: &Vec<ClientId>)
        requires
            old(self)@.wf(),
            gone@.no_duplicates(),
            forall|id: ClientId| #[trigger]
                gone@.contains(id) ==> old(self)@.clients.contains_key(id),
        ensures
            final(self)@.wf(),
            old(self)@.sound() ==> final(self)@.sound(),
            final(self)@.disconnected_each(old(self)@, gone@),
    {
        let mut i: usize = 0;
        assert(gone@.take(0) =~= Seq::<ClientId>::empty());
        while i < gone.len()
            invariant
                i <= gone@.len(),
                gone@.no_duplicates(),
                forall|id: ClientId| #[trigger]
                    gone@.contains(id) ==> old(self)@.clients.contains_key(id),
                self@.wf(),
                old(self)@.sound() ==> self@.sound(),
                self@ == old(self)@.disconnect_each(gone@.take(i as int)),
                forall|id: ClientId| #[trigger]
                    self@.clients.contains_key(id) ==> self@.clients[id] == old(
                        self,
                    )@.clients[id],
                forall|id: ClientId| #[trigger]
                    gone@.take(i as int).contains(id) ==> old(self)@.clients[id].told(
                        CloseReason::LocalOrder,
                    ),
                forall|id: ClientId| #[trigger]
                    self@.clients.contains_key(id) <==> old(self)@.clients.contains_key(id)
                        && !gone@.take(i as int).contains(id),
            decreases gone@.len() - i,
        {
            let client_id: ClientId = gone[i];
            proof {
                assert(gone@.contains(client_id));
                lemma_take_next(gone@, i as int);
                assert(self@.clients.contains_key(client_id));
                assert(gone@.take(i + 1).drop_last() =~= gone@.take(i as int));
            }
            self.try_disconnect_client(client_id);
            i = i + 1;
        }
        assert(gone@.take(i as int) =~= gone@);
    }
}

} // verus!
