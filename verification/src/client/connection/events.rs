//! What a connection makes of the messages of its async tasks.

use vstd::prelude::*;

use crate::client::connection::{
    ClientConnection, ConnectionEvent, ConnectionFailedEvent, ConnectionLocalId,
    ConnectionLostEvent, InternalConnectionState,
};
#[allow(unused_imports)]
use crate::client::connection::ClientConnectionView;
use crate::client::{ClientAsyncMessage, IrohConnectionError};
use crate::shared::channels::ChannelAsyncMessage;
#[allow(unused_imports)]
use crate::shared::channels::CloseReason;
use crate::shared::peer_connection::PeerConnection;
#[allow(unused_imports)]
use crate::shared::peer_connection::PeerConnectionView;
#[allow(unused_imports)]
use crate::shared::queues::Batch;
use crate::shared::ClientId;

verus! {

/// What comes from the async tasks of a connection.
pub enum ClientInput {
    /// A message of the task that established it.
    Message(ClientAsyncMessage),
    /// A report of a channel task.
    Report(ChannelAsyncMessage),
}

/// What handling one input came to.
pub enum ClientStep {
    /// The connection is established.
    Connected(Option<ClientId>),
    /// The connection could not be established.
    Failed(IrohConnectionError),
    /// The connection is lost.
    Lost,
    /// The connection was disconnected already.
    Stale,
}

/// Messages and then reports, as inputs.
pub open spec fn inputs(
    messages: Seq<ClientAsyncMessage>,
    reports: Seq<ChannelAsyncMessage>,
) -> Seq<ClientInput> {
    messages.map_values(|m: ClientAsyncMessage| ClientInput::Message(m)) + reports.map_values(
        |r: ChannelAsyncMessage| ClientInput::Report(r),
    )
}

/// The connection went through `states`, one after each of `inputs`, which came
/// to `steps`.
pub open spec fn is_client_trace(
    states: Seq<PeerConnectionView<ClientConnectionView>>,
    inputs: Seq<ClientInput>,
    steps: Seq<ClientStep>,
) -> bool {
    &&& states.len() == inputs.len() + 1
    &&& steps.len() == inputs.len()
    &&& forall|i: int|
        0 <= i < inputs.len() ==> states[i + 1].handles(states[i], inputs[i], #[trigger] steps[i])
}

impl PeerConnectionView<ClientConnectionView> {
    /// `step` is what the news that the connection is gone comes to, and `self`
    /// the connection after it.
    pub open spec fn loses(self, pre: Self, step: ClientStep) -> bool {
        if pre.specific.state is Disconnected {
            step is Stale && self == pre
        } else {
            &&& step is Lost
            &&& exists|heard: bool| #[trigger]
                self.disconnected(pre, CloseReason::PeerClosed, heard)
        }
    }

    /// `step` is what handling an input comes to, and `self` the connection after
    /// it.
    pub open spec fn handles(self, pre: Self, input: ClientInput, step: ClientStep) -> bool {
        match input {
            ClientInput::Message(ClientAsyncMessage::Connected(connection, client_id)) => {
                &&& step == ClientStep::Connected(client_id)
                &&& self == pre.with_state(
                    InternalConnectionState::Connected(connection, client_id),
                )
            },
            ClientInput::Message(ClientAsyncMessage::ConnectionFailed(err)) => {
                &&& step == ClientStep::Failed(err)
                &&& self == pre.with_state(InternalConnectionState::Disconnected)
            },
            ClientInput::Message(ClientAsyncMessage::ConnectionClosed) => self.loses(pre, step),
            ClientInput::Report(ChannelAsyncMessage::LostConnection) => self.loses(pre, step),
        }
    }

    /// `self` is the connection once all that its async tasks had sent was taken
    /// and handled, the messages before the reports, and `steps` is what each
    /// came to.
    pub open spec fn updated(self, pre: Self, steps: Seq<ClientStep>) -> bool {
        exists|
            messages: Batch<ClientAsyncMessage>,
            reports: Batch<ChannelAsyncMessage>,
            states: Seq<Self>,
        |
            {
                &&& messages.complete(usize::MAX)
                &&& pre.gave_reports(reports, states[0].reports_left)
                &&& #[trigger] is_client_trace(
                    states,
                    inputs(messages.messages, reports.messages),
                    steps,
                )
                &&& states[0] == pre.with_messages(messages).with_reports(
                    reports,
                    states[0].reports_left,
                )
                &&& states.last() == self
            }
    }
}

/// The events of a client.
#[verifier::ext_equal]
pub struct ClientEventsView {
    /// The connections that connected.
    pub connected: Seq<ConnectionEvent>,
    /// The connections that failed to connect.
    pub failed: Seq<ConnectionFailedEvent>,
    /// The connections that were lost.
    pub lost: Seq<ConnectionLostEvent>,
}

impl ClientEventsView {
    /// No events.
    pub open spec fn none() -> Self {
        ClientEventsView { connected: Seq::empty(), failed: Seq::empty(), lost: Seq::empty() }
    }

    /// The events with that of one step of a connection.
    pub open spec fn after_step(self, id: ConnectionLocalId, step: ClientStep) -> Self {
        match step {
            ClientStep::Connected(client_id) => ClientEventsView {
                connected: self.connected.push(ConnectionEvent { id, client_id }),
                ..self
            },
            ClientStep::Failed(err) => ClientEventsView {
                failed: self.failed.push(ConnectionFailedEvent { id, err }),
                ..self
            },
            ClientStep::Lost => ClientEventsView {
                lost: self.lost.push(ConnectionLostEvent { id }),
                ..self
            },
            ClientStep::Stale => self,
        }
    }

    /// The events with those of the steps of a connection.
    pub open spec fn after_steps(self, id: ConnectionLocalId, steps: Seq<ClientStep>) -> Self
        decreases steps.len(),
    {
        if steps.len() == 0 {
            self
        } else {
            self.after_steps(id, steps.drop_last()).after_step(id, steps.last())
        }
    }
}

/// The events of one update of a client.
pub struct ClientEvents {
    /// The connections that connected.
    pub connection_events: Vec<ConnectionEvent>,
    /// The connections that failed to connect.
    pub connection_failed_events: Vec<ConnectionFailedEvent>,
    /// The connections that were lost.
    pub connection_lost_events: Vec<ConnectionLostEvent>,
}

impl View for ClientEvents {
    type V = ClientEventsView;

    open spec fn view(&self) -> ClientEventsView {
        ClientEventsView {
            connected: self.connection_events@,
            failed: self.connection_failed_events@,
            lost: self.connection_lost_events@,
        }
    }
}

impl ClientEvents {
    /// No events.
    pub fn new() -> (r: Self)
        ensures
            r@ == ClientEventsView::none(),
    {
        ClientEvents {
            connection_events: Vec::new(),
            connection_failed_events: Vec::new(),
            connection_lost_events: Vec::new(),
        }
    }

    /// Adds the events of the steps of a connection.
    pub fn push_steps(&mut self, id: ConnectionLocalId, steps: Vec<ClientStep>)
        ensures
            final(self)@ == old(self)@.after_steps(id, steps@),
    {
        let ghost all = steps@;
        assert(all.take(0) =~= Seq::<ClientStep>::empty());
        for step in iter: steps
            invariant
                all == iter.seq(),
                self@ == old(self)@.after_steps(id, all.take(iter.index())),
        {
            assert(all.take(iter.index() + 1).drop_last() =~= all.take(iter.index()));
            match step {
                ClientStep::Connected(client_id) => {
                    self.connection_events.push(ConnectionEvent { id, client_id });
                },
                ClientStep::Failed(err) => {
                    self.connection_failed_events.push(ConnectionFailedEvent { id, err });
                },
                ClientStep::Lost => {
                    self.connection_lost_events.push(ConnectionLostEvent { id });
                },
                ClientStep::Stale => {},
            }
        }
        assert(all.take(all.len() as int) =~= all);
    }
}

impl PeerConnection<ClientConnection> {
    /// Handles the news that the connection is gone.
    fn handle_loss(&mut self) -> (r: ClientStep)
        ensures
            final(self)@.loses(old(self)@, r),
    {
        match self.internal_state() {
            InternalConnectionState::Disconnected => ClientStep::Stale,
            _ => {
                self.try_disconnect_closed_connection();
                ClientStep::Lost
            },
        }
    }

    /// Handles one input.
    pub fn handle_input(&mut self, input: ClientInput) -> (r: ClientStep)
        ensures
            final(self)@.handles(old(self)@, input, r),
    {
        match input {
            ClientInput::Message(ClientAsyncMessage::Connected(connection, client_id)) => {
                self.set_state(InternalConnectionState::Connected(connection, client_id));
                ClientStep::Connected(client_id)
            },
            ClientInput::Message(ClientAsyncMessage::ConnectionFailed(err)) => {
                self.set_state(InternalConnectionState::Disconnected);
                ClientStep::Failed(err)
            },
            ClientInput::Message(ClientAsyncMessage::ConnectionClosed) => self.handle_loss(),
            ClientInput::Report(ChannelAsyncMessage::LostConnection) => self.handle_loss(),
        }
    }

    /// Handles inputs, in order.
    pub fn handle_inputs(&mut self, inputs: Vec<ClientInput>) -> (r: Vec<ClientStep>)
        ensures
            exists|states: Seq<PeerConnectionView<ClientConnectionView>>| #[trigger]
                is_client_trace(states, inputs@, r@) && states[0] == old(self)@ && states.last()
                    == final(self)@,
    {
        let mut steps: Vec<ClientStep> = Vec::new();
        let ghost all = inputs@;
        let ghost mut states: Seq<PeerConnectionView<ClientConnectionView>> = seq![self@];
        for input in iter: inputs
            invariant
                all == iter.seq(),
                is_client_trace(states, all.take(iter.index()), steps@),
                states[0] == old(self)@,
                states.last() == self@,
        {
            let step = self.handle_input(input);
            let ghost shorter = steps@;
            let ghost earlier = states;
            steps.push(step);
            proof {
                let seen = all.take(iter.index() + 1);
                states = earlier.push(self@);
                assert forall|i: int| 0 <= i < seen.len() implies states[i + 1].handles(
                    states[i],
                    seen[i],
                    #[trigger] steps@[i],
                ) by {
                    if i < shorter.len() {
                        assert(shorter[i] == steps@[i]);
                        assert(all.take(iter.index())[i] == seen[i]);
                    }
                }
            }
        }
        assert(all.take(all.len() as int) =~= all);
        assert(is_client_trace(states, all, steps@));
        steps
    }

    /// Handles all that has come from the async tasks, the messages before the
    /// reports.
    pub fn update(&mut self) -> (r: Vec<ClientStep>)
        ensures
            final(self)@.updated(old(self)@, r@),
    {
        let messages = self.drain_async_messages();
        let ghost read = choose|batch: Batch<ClientAsyncMessage>| #[trigger]
            batch.complete(usize::MAX) && batch.messages == messages@ && self@ == old(
                self,
            )@.with_messages(batch);
        let ghost drained = self@;
        let reports = self.drain_channel_reports();
        let ghost reported = choose|batch: Batch<ChannelAsyncMessage>| #[trigger]
            drained.gave_reports(batch, self@.reports_left) && batch.messages == reports@ && self@
                == drained.with_reports(batch, self@.reports_left);
        assert(old(self)@.gave_reports(reported, self@.reports_left));
        let ghost all_messages = messages@;
        let ghost all_reports = reports@;
        let mut all_inputs: Vec<ClientInput> = Vec::new();
        for message in iter: messages
            invariant
                all_messages == iter.seq(),
                all_inputs@ == all_messages.take(iter.index()).map_values(
                    |m: ClientAsyncMessage| ClientInput::Message(m),
                ),
        {
            all_inputs.push(ClientInput::Message(message));
            assert(all_inputs@ =~= all_messages.take(iter.index() + 1).map_values(
                |m: ClientAsyncMessage| ClientInput::Message(m),
            ));
        }
        let ghost first = all_inputs@;
        assert(all_messages.take(all_messages.len() as int) =~= all_messages);
        for report in iter: reports
            invariant
                all_reports == iter.seq(),
                all_inputs@ == first + all_reports.take(iter.index()).map_values(
                    |r: ChannelAsyncMessage| ClientInput::Report(r),
                ),
        {
            all_inputs.push(ClientInput::Report(report));
            assert(all_inputs@ =~= first + all_reports.take(iter.index() + 1).map_values(
                |r: ChannelAsyncMessage| ClientInput::Report(r),
            ));
        }
        assert(all_reports.take(all_reports.len() as int) =~= all_reports);
        assert(all_inputs@ =~= inputs(all_messages, all_reports));
        let ghost first_state = self@;
        let steps = self.handle_inputs(all_inputs);
        proof {
            let states = choose|states: Seq<PeerConnectionView<ClientConnectionView>>| #[trigger]
                is_client_trace(states, inputs(read.messages, reported.messages), steps@)
                    && states[0] == first_state && states.last() == self@;
            assert(is_client_trace(states, inputs(read.messages, reported.messages), steps@));
        }
        steps
    }
}

} // verus!
