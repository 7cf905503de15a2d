use bevy_iroh::server::endpoint::{disconnect_result, ServerEndpoint};
use bevy_iroh::server::{
    clear_stale_received_payloads, client_task_step, dispatch_received_payloads,
    endpoint_task_step, handle_server_events, new_client_connection, server_just_closed,
    server_just_opened, server_listening, ClientConnectionTaskData, ClientTaskAction,
    ClientTaskEvent, ClientTaskState, ConnectionEvent, ConnectionLostEvent, EndpointAlreadyClosed,
    EndpointStartError, EndpointTaskAction, EndpointTaskData, EndpointTaskEvent, IrohServer,
    ServerAsyncMessage, ServerDisconnectError, ServerGroupPayloadSendError, ServerGroupSendError,
    ServerPayloadSendError, ServerReceiveError, ServerSendError, ServerSyncMessage,
};
use bevy_iroh::shared::channels::{
    ChannelAsyncMessage, ChannelConfig, ChannelId, ChannelSyncMessage, CloseReason,
    SendChannelsConfiguration,
};
use bevy_iroh::shared::error::{
    AsyncChannelError, ChannelCloseError, ChannelCreationError, ConnectionAlreadyClosed,
    ConnectionSendError, RecvChannelError, RecvChannelErrorEvent,
};
use bevy_iroh::shared::peer_connection::RecvChannelsConfiguration;
use bevy_iroh::shared::{ClientId, InternalConnectionRef};
use bytes::Bytes;
use tokio::runtime::Runtime;
use tokio::sync::mpsc;

struct Rig {
    server: IrohServer,
    task: EndpointTaskData,
    _runtime: Runtime,
}

fn recv_cfg(max: usize, clear: bool) -> RecvChannelsConfiguration {
    RecvChannelsConfiguration {
        max_buffered_payloads_count_per_channel: max,
        clear_stale_received_payloads: clear,
    }
}

fn runtime() -> Runtime {
    tokio::runtime::Builder::new_multi_thread().worker_threads(1).enable_all().build().unwrap()
}

fn bind(runtime: &Runtime) -> iroh::Endpoint {
    runtime
        .block_on(
            iroh::Endpoint::builder(iroh::endpoint::presets::Minimal)
                .relay_mode(iroh::RelayMode::Disabled)
                .bind(),
        )
        .unwrap()
}

fn rig(channels: Vec<ChannelConfig>, cfg: RecvChannelsConfiguration) -> Rig {
    let runtime = runtime();
    let endpoint = bind(&runtime);
    let id = endpoint.id();
    let mut server = IrohServer::new();
    let configs = SendChannelsConfiguration::from_configs(channels).unwrap();
    match server.start_endpoint(Ok(endpoint), configs, cfg) {
        Ok((started, task)) => {
            assert_eq!(started, id);
            Rig { server, task, _runtime: runtime }
        }
        Err(e) => panic!("{:?}", e),
    }
}

fn handle(n: u8) -> InternalConnectionRef {
    InternalConnectionRef {
        stable_id: n as usize,
        remote_id: iroh::SecretKey::from_bytes(&[n; 32]).public(),
    }
}

impl Rig {
    fn endpoint(&mut self) -> &mut ServerEndpoint {
        self.server.endpoint_mut()
    }

    fn announce(&mut self, n: u8) -> ClientConnectionTaskData {
        let cfg = self.task.recv_channels_cfg;
        let (message, data) = new_client_connection(handle(n), cfg);
        self.task.to_sync_endpoint_send.try_send(message).unwrap();
        data
    }

    fn connect(&mut self, n: u8) -> (ClientId, ClientConnectionTaskData) {
        let mut data = self.announce(n);
        let events = handle_server_events(&mut self.server);
        assert_eq!(events.connection_events.len(), 1);
        assert_eq!(events.connection_lost_events.len(), 0);
        let id = served(&mut data).unwrap();
        assert_eq!(events.connection_events[0], ConnectionEvent { id });
        (id, data)
    }
}

fn served(data: &mut ClientConnectionTaskData) -> Option<ClientId> {
    let answer = data.from_sync_server_recv.try_recv().ok();
    match client_task_step(&mut data.state, ClientTaskEvent::Answered(answer)) {
        ClientTaskAction::Serve(id) => Some(id),
        ClientTaskAction::End => None,
        ClientTaskAction::Tell(_) => unreachable!(),
    }
}

fn requested(
    data: &mut ClientConnectionTaskData,
) -> (ChannelId, ChannelConfig, mpsc::Receiver<Bytes>, mpsc::Receiver<()>) {
    let ChannelSyncMessage::CreateChannel {
        id,
        config,
        bytes_to_channel_recv,
        channel_close_recv,
    } = data.to_channels_recv.try_recv().unwrap();
    (id, config, bytes_to_channel_recv, channel_close_recv)
}

fn payload(text: &str) -> Bytes {
    Bytes::copy_from_slice(text.as_bytes())
}

fn invalid(channel: ChannelId) -> ServerSendError {
    ServerSendError::ConnectionSendError(ConnectionSendError::InvalidChannelId(channel))
}

const ORDERED: ChannelConfig = ChannelConfig::OrderedReliable { max_frame_size: 128 };

#[test]
fn a_server_listens_between_start_and_stop() {
    let mut server = IrohServer::new();
    assert!(!server.is_listening());
    assert!(server.get_endpoint().is_none());
    assert!(server.get_endpoint_mut().is_none());
    assert_eq!(server.stop_endpoint(), Err(EndpointAlreadyClosed));
    let mut rig = rig(vec![], recv_cfg(10, false));
    assert!(rig.server.is_listening());
    assert!(rig.server.get_endpoint().is_some());
    assert_eq!(rig.server.endpoint().endpoint_stats().connect_count(), 0);
    assert_eq!(rig.server.stop_endpoint(), Ok(()));
    assert!(!rig.server.is_listening());
    assert_eq!(rig.task.endpoint_close_recv.try_recv(), Ok(()));
    assert_eq!(rig.server.stop_endpoint(), Err(EndpointAlreadyClosed));
}

#[test]
fn stopping_fails_when_the_accepting_task_is_gone() {
    let Rig { mut server, task, _runtime } = rig(vec![], recv_cfg(10, false));
    drop(task);
    assert_eq!(server.stop_endpoint(), Err(EndpointAlreadyClosed));
    assert!(!server.is_listening());
}

#[test]
fn a_bind_error_starts_nothing() {
    let runtime = runtime();
    let failed = runtime.block_on(iroh::Endpoint::builder(iroh::endpoint::presets::Empty).bind());
    let text = match &failed {
        Ok(_) => panic!("bound"),
        Err(e) => e.to_string(),
    };
    let mut server = IrohServer::new();
    match server.start_endpoint(failed, SendChannelsConfiguration::new(), recv_cfg(1, false)) {
        Err(EndpointStartError::BindError(why)) => assert_eq!(why, text),
        _ => panic!("started"),
    }
    assert!(!server.is_listening());
}

#[test]
fn start_errors_convert() {
    let error = EndpointStartError::from(AsyncChannelError::FullQueue);
    assert!(matches!(error, EndpointStartError::AsyncChannelError(AsyncChannelError::FullQueue)));
    let error = EndpointStartError::from(std::io::Error::other("no"));
    assert!(matches!(error, EndpointStartError::IoError(_)));
}

#[test]
fn configured_channels_are_open_from_the_start() {
    let mut rig = rig(vec![ORDERED, ChannelConfig::Unreliable], recv_cfg(10, false));
    assert_eq!(rig.endpoint().default_channel(), Some(0));
    let (id, mut data) = rig.connect(1);
    assert_eq!(id, 1);
    let mut seen = vec![requested(&mut data), requested(&mut data)];
    assert!(data.to_channels_recv.try_recv().is_err());
    seen.sort_by_key(|request| request.0);
    assert_eq!((seen[0].0, seen[0].1), (0, ORDERED));
    assert_eq!((seen[1].0, seen[1].1), (1, ChannelConfig::Unreliable));
    assert_eq!(rig.endpoint().send_payload_on(1, 1, payload("x")), Ok(()));
    assert_eq!(seen[1].2.try_recv().unwrap(), payload("x"));
    assert_eq!(rig.endpoint().open_channel(ORDERED), Ok(2));
}

#[test]
fn every_id_can_be_configured() {
    let mut rig = rig(vec![ChannelConfig::Unreliable; 256], recv_cfg(10, false));
    assert_eq!(rig.endpoint().default_channel(), Some(0));
    assert_eq!(
        rig.endpoint().open_channel(ORDERED),
        Err(ChannelCreationError::MaxChannelsCountReached)
    );
}

#[test]
fn clients_get_fresh_ids() {
    let mut rig = rig(vec![], recv_cfg(10, false));
    assert_eq!(rig.connect(1).0, 1);
    assert_eq!(rig.connect(2).0, 2);
    rig.endpoint().try_disconnect_client(2);
    assert_eq!(rig.connect(3).0, 3);
    let mut ids = rig.endpoint().clients();
    ids.sort();
    assert_eq!(ids, vec![1, 3]);
    let remote = rig.endpoint().connection(3).unwrap().remote_id();
    assert_eq!(remote, handle(3).remote_id);
    assert!(rig.endpoint().connection(2).is_none());
    assert!(rig.endpoint().connection_mut(1).is_some());
    assert!(rig.endpoint().connection_mut(9).is_none());
}

#[test]
fn a_client_that_is_gone_is_not_accepted() {
    let mut rig = rig(vec![], recv_cfg(10, false));
    let data = rig.announce(1);
    drop(data);
    let events = handle_server_events(&mut rig.server);
    assert_eq!(events.connection_events, vec![]);
    assert_eq!(rig.endpoint().clients(), Vec::<ClientId>::new());
    assert_eq!(rig.endpoint().endpoint_stats().connect_count(), 0);
    // An id was spent on it.
    assert_eq!(rig.connect(2).0, 2);
}

#[test]
fn a_client_whose_channels_cannot_be_opened_is_not_accepted() {
    let mut rig = rig(vec![ORDERED], recv_cfg(10, false));
    let mut data = rig.announce(1);
    data.to_channels_recv.close();
    let events = handle_server_events(&mut rig.server);
    assert_eq!(events.connection_events, vec![]);
    assert_eq!(data.client_close_recv.try_recv().unwrap(), CloseReason::LocalOrder);
    assert_eq!(served(&mut data), None);
    assert_eq!(data.state, ClientTaskState::Ended);
    // No id was spent on it.
    assert!(rig.endpoint().has_room());
    assert_eq!(rig.connect(2).0, 1);
}

#[test]
fn a_refused_client_is_ordered_to_close() {
    let mut rig = rig(vec![], recv_cfg(10, false));
    let mut data = rig.announce(1);
    data.from_sync_server_recv.close();
    let events = handle_server_events(&mut rig.server);
    assert_eq!(events.connection_events, vec![]);
    assert_eq!(data.client_close_recv.try_recv().unwrap(), CloseReason::LocalOrder);
}

#[test]
fn a_closed_connection_is_lost_once() {
    let mut rig = rig(vec![], recv_cfg(10, false));
    let (id, mut data) = rig.connect(1);
    for _ in 0..2 {
        rig.task
            .to_sync_endpoint_send
            .try_send(ServerAsyncMessage::ClientConnectionClosed(id))
            .unwrap();
    }
    let events = handle_server_events(&mut rig.server);
    assert_eq!(events.connection_lost_events, vec![ConnectionLostEvent { id }]);
    assert_eq!(data.client_close_recv.try_recv().unwrap(), CloseReason::PeerClosed);
    assert_eq!(
        rig.endpoint().send_payload_on(id, 0, payload("x")),
        Err(ServerSendError::UnknownClient(id))
    );
    assert_eq!(rig.endpoint().endpoint_stats().connect_count(), 1);
    assert_eq!(rig.endpoint().endpoint_stats().disconnect_count(), 1);
    assert_eq!(handle_server_events(&mut rig.server).connection_lost_events, vec![]);
}

#[test]
fn a_client_reported_by_its_channels_is_lost_once() {
    let mut rig = rig(vec![], recv_cfg(10, false));
    let (first, first_data) = rig.connect(1);
    let (second, _second_data) = rig.connect(2);
    for _ in 0..3 {
        first_data.from_channels_send.try_send(ChannelAsyncMessage::LostConnection).unwrap();
    }
    let events = handle_server_events(&mut rig.server);
    assert_eq!(events.connection_lost_events, vec![ConnectionLostEvent { id: first }]);
    assert_eq!(rig.endpoint().clients(), vec![second]);
    assert_eq!(rig.endpoint().endpoint_stats().disconnect_count(), 1);
}

#[test]
fn events_account_for_every_client() {
    let mut rig = rig(vec![], recv_cfg(10, false));
    let (old, _old_data) = rig.connect(1);
    let _a = rig.announce(2);
    rig.task
        .to_sync_endpoint_send
        .try_send(ServerAsyncMessage::ClientConnectionClosed(old))
        .unwrap();
    let b = rig.announce(3);
    b.from_channels_send.try_send(ChannelAsyncMessage::LostConnection).unwrap();
    let events = handle_server_events(&mut rig.server);
    let accepted: Vec<ClientId> = events.connection_events.iter().map(|e| e.id).collect();
    let lost: Vec<ClientId> = events.connection_lost_events.iter().map(|e| e.id).collect();
    assert_eq!(accepted, vec![2, 3]);
    assert_eq!(lost, vec![1, 3]);
    assert_eq!(rig.endpoint().clients(), vec![2]);
    let stats = *rig.endpoint().endpoint_stats();
    assert_eq!((stats.connect_count(), stats.disconnect_count()), (3, 2));
}

#[test]
fn a_server_without_endpoint_has_no_events() {
    let mut server = IrohServer::new();
    let events = handle_server_events(&mut server);
    assert_eq!(events.connection_events, vec![]);
    assert_eq!(events.connection_lost_events, vec![]);
    assert_eq!(dispatch_received_payloads(&mut server), vec![]);
    clear_stale_received_payloads(&mut server);
    assert!(!server.is_listening());
}

#[test]
fn sending_names_what_is_missing() {
    let mut rig = rig(vec![], recv_cfg(10, false));
    assert_eq!(
        rig.endpoint().send_payload(1, payload("x")),
        Err(ServerPayloadSendError::NoDefaultChannel)
    );
    rig.endpoint().try_send_payload(1, payload("x"));
    assert_eq!(rig.endpoint().open_channel(ORDERED), Ok(0));
    assert_eq!(
        rig.endpoint().send_payload(1, payload("x")),
        Err(ServerPayloadSendError::SendError(ServerSendError::UnknownClient(1)))
    );
    let (id, mut data) = rig.connect(1);
    assert_eq!(rig.endpoint().send_payload_on(id, 7, payload("x")), Err(invalid(7)));
    assert_eq!(rig.endpoint().send_payload(id, payload("a")), Ok(()));
    rig.endpoint().try_send_payload(id, payload("b"));
    rig.endpoint().try_send_payload_on(id, 0, payload("c"));
    rig.endpoint().try_send_payload_on(id, 3, payload("d"));
    let (channel, _, mut bytes, _) = requested(&mut data);
    assert_eq!(channel, 0);
    for text in ["a", "b", "c"] {
        assert_eq!(bytes.try_recv().unwrap(), payload(text));
    }
    assert!(bytes.try_recv().is_err());
    drop(bytes);
    assert_eq!(
        rig.endpoint().send_payload(id, payload("e")),
        Err(ServerPayloadSendError::SendError(ServerSendError::ConnectionSendError(
            ConnectionSendError::AsyncChannelError(AsyncChannelError::InternalChannelClosed)
        )))
    );
}

#[test]
fn a_group_send_reports_those_it_did_not_reach() {
    let mut rig = rig(vec![ORDERED], recv_cfg(10, false));
    let (a, mut a_data) = rig.connect(1);
    let (b, mut b_data) = rig.connect(2);
    let (_c, mut c_data) = rig.connect(3);
    let mut a_bytes = requested(&mut a_data).2;
    let mut b_bytes = requested(&mut b_data).2;
    let mut c_bytes = requested(&mut c_data).2;
    assert_eq!(rig.endpoint().send_group_payload(&[a, b], payload("x")), Ok(()));
    assert_eq!(
        rig.endpoint().send_group_payload_on(&[a, 77, b], 0, payload("y")),
        Err(ServerGroupPayloadSendError::GroupSendError(ServerGroupSendError(vec![(
            77,
            ServerSendError::UnknownClient(77)
        )])))
    );
    assert_eq!(
        rig.endpoint().send_group_payload_on(&[a, b], 5, payload("z")),
        Err(ServerGroupPayloadSendError::GroupSendError(ServerGroupSendError(vec![
            (a, invalid(5)),
            (b, invalid(5)),
        ])))
    );
    for bytes in [&mut a_bytes, &mut b_bytes] {
        assert_eq!(bytes.try_recv().unwrap(), payload("x"));
        assert_eq!(bytes.try_recv().unwrap(), payload("y"));
        assert!(bytes.try_recv().is_err());
    }
    assert!(c_bytes.try_recv().is_err());
    assert_eq!(rig.endpoint().send_group_payload(&[], payload("x")), Ok(()));
    rig.endpoint().try_send_group_payload(&[a], payload("v"));
    rig.endpoint().try_send_group_payload_on(&[a], 0, payload("w"));
    assert_eq!(a_bytes.try_recv().unwrap(), payload("v"));
    assert_eq!(a_bytes.try_recv().unwrap(), payload("w"));
}

#[test]
fn a_group_send_and_a_broadcast_go_on_after_a_failure() {
    let mut rig = rig(vec![ORDERED], recv_cfg(10, false));
    let (a, mut a_data) = rig.connect(1);
    let (b, mut b_data) = rig.connect(2);
    let (c, mut c_data) = rig.connect(3);
    let (_, _, mut a_bytes, _a_close) = requested(&mut a_data);
    let (_, _, b_bytes, _b_close) = requested(&mut b_data);
    let (_, _, mut c_bytes, _c_close) = requested(&mut c_data);
    drop(b_bytes);
    let gone = ServerSendError::ConnectionSendError(ConnectionSendError::AsyncChannelError(
        AsyncChannelError::InternalChannelClosed,
    ));
    assert_eq!(
        rig.endpoint().send_group_payload_on(&[b, 9, a, c], 0, payload("x")),
        Err(ServerGroupPayloadSendError::GroupSendError(ServerGroupSendError(vec![
            (b, gone),
            (9, ServerSendError::UnknownClient(9)),
        ])))
    );
    assert_eq!(
        rig.endpoint().broadcast_payload_on(0, payload("y")),
        Err(ServerGroupSendError(vec![(b, gone)]))
    );
    for bytes in [&mut a_bytes, &mut c_bytes] {
        assert_eq!(bytes.try_recv().unwrap(), payload("x"));
        assert_eq!(bytes.try_recv().unwrap(), payload("y"));
        assert!(bytes.try_recv().is_err());
    }
}

#[test]
fn the_stats_balance_over_the_life_of_an_endpoint() {
    let mut rig = rig(vec![], recv_cfg(10, false));
    let mut reported: Vec<ClientId> = Vec::new();
    let mut kept: Vec<ClientConnectionTaskData> = Vec::new();
    for round in 1u8..4 {
        let (a, a_data) = rig.connect(round);
        let (b, b_data) = rig.connect(round + 10);
        a_data.from_channels_send.try_send(ChannelAsyncMessage::LostConnection).unwrap();
        for id in [a, b] {
            rig.task
                .to_sync_endpoint_send
                .try_send(ServerAsyncMessage::ClientConnectionClosed(id))
                .unwrap();
        }
        if round == 2 {
            rig.endpoint().disconnect_all_clients();
        }
        for _ in 0..2 {
            let events = handle_server_events(&mut rig.server);
            reported.extend(events.connection_lost_events.iter().map(|e| e.id));
        }
        kept.push(a_data);
        kept.push(b_data);
        let connected = rig.endpoint().clients().len() as u32;
        let stats = *rig.endpoint().endpoint_stats();
        assert_eq!(stats.connect_count(), 2 * round as u32);
        assert_eq!(stats.connect_count(), stats.disconnect_count() + connected);
    }
    assert_eq!(reported, vec![1, 2, 5, 6]);
}

#[test]
fn a_client_named_twice_gets_the_payload_twice() {
    let mut rig = rig(vec![ORDERED], recv_cfg(10, false));
    let (a, mut data) = rig.connect(1);
    assert_eq!(rig.endpoint().send_group_payload(&[a, a], payload("x")), Ok(()));
    let mut bytes = requested(&mut data).2;
    assert_eq!(bytes.try_recv().unwrap(), payload("x"));
    assert_eq!(bytes.try_recv().unwrap(), payload("x"));
    assert!(bytes.try_recv().is_err());
}

#[test]
fn a_broadcast_reaches_every_client_once() {
    let mut rig = rig(vec![ORDERED], recv_cfg(10, false));
    assert_eq!(rig.endpoint().broadcast_payload(payload("nobody")), Ok(()));
    let (_a, mut a_data) = rig.connect(1);
    let (b, mut b_data) = rig.connect(2);
    let mut a_bytes = requested(&mut a_data).2;
    let mut b_bytes = requested(&mut b_data).2;
    assert_eq!(rig.endpoint().broadcast_payload(payload("x")), Ok(()));
    assert_eq!(rig.endpoint().broadcast_payload_on(0, payload("y")), Ok(()));
    rig.endpoint().try_broadcast_payload(payload("z"));
    rig.endpoint().try_broadcast_payload_on(0, payload("w"));
    for bytes in [&mut a_bytes, &mut b_bytes] {
        for text in ["x", "y", "z", "w"] {
            assert_eq!(bytes.try_recv().unwrap(), payload(text));
        }
        assert!(bytes.try_recv().is_err());
    }
    drop(b_bytes);
    let closed = ServerSendError::ConnectionSendError(ConnectionSendError::AsyncChannelError(
        AsyncChannelError::InternalChannelClosed,
    ));
    assert_eq!(
        rig.endpoint().broadcast_payload_on(0, payload("v")),
        Err(ServerGroupSendError(vec![(b, closed)]))
    );
    assert_eq!(a_bytes.try_recv().unwrap(), payload("v"));
}

#[test]
fn group_and_broadcast_need_a_default_channel() {
    let mut rig = rig(vec![], recv_cfg(10, false));
    assert_eq!(
        rig.endpoint().send_group_payload(&[1], payload("x")),
        Err(ServerGroupPayloadSendError::NoDefaultChannel)
    );
    assert_eq!(
        rig.endpoint().broadcast_payload(payload("x")),
        Err(ServerGroupPayloadSendError::NoDefaultChannel)
    );
    rig.endpoint().try_send_group_payload(&[1], payload("x"));
    rig.endpoint().try_broadcast_payload(payload("x"));
}

#[test]
fn disconnecting_takes_a_client_out() {
    let mut rig = rig(vec![], recv_cfg(10, false));
    let (a, mut a_data) = rig.connect(1);
    let (b, b_data) = rig.connect(2);
    assert_eq!(rig.endpoint().disconnect_client(a), Ok(()));
    assert_eq!(a_data.client_close_recv.try_recv().unwrap(), CloseReason::LocalOrder);
    assert_eq!(
        rig.endpoint().disconnect_client(a),
        Err(ServerDisconnectError::UnknownClient(a))
    );
    drop(b_data);
    assert_eq!(
        rig.endpoint().disconnect_client(b),
        Err(ServerDisconnectError::ClientAlreadyDisconnected(b))
    );
    assert_eq!(rig.endpoint().clients(), Vec::<ClientId>::new());
    assert_eq!(rig.endpoint().endpoint_stats().disconnect_count(), 2);
    rig.endpoint().try_disconnect_client(b);
    rig.endpoint().try_disconnect_closed_client(b);
    assert_eq!(rig.endpoint().endpoint_stats().disconnect_count(), 2);
}

fn clients(rig: &mut Rig) -> Vec<ClientId> {
    let mut ids = rig.endpoint().clients();
    ids.sort();
    for id in 0..9 {
        assert_eq!(ids.contains(&id), rig.endpoint().connection(id).is_some());
    }
    ids
}

#[test]
fn the_clients_are_those_accepted_and_not_disconnected_since() {
    let mut rig = rig(vec![ORDERED], recv_cfg(10, false));
    assert_eq!(clients(&mut rig), vec![]);
    let (a, _a_data) = rig.connect(1);
    assert_eq!(rig.endpoint().disconnect_client(a), Ok(()));
    assert_eq!(clients(&mut rig), vec![]);
    let (b, _b_data) = rig.connect(2);
    assert_eq!((a, b), (1, 2));
    assert_eq!(clients(&mut rig), vec![2]);
    assert_eq!(rig.endpoint().endpoint_stats().connect_count(), 2);
    assert_eq!(rig.endpoint().endpoint_stats().disconnect_count(), 1);
    let (c, c_data) = rig.connect(3);
    let (d, _d_data) = rig.connect(4);
    assert_eq!(clients(&mut rig), vec![b, c, d]);
    let closed = ServerAsyncMessage::ClientConnectionClosed(b);
    rig.task.to_sync_endpoint_send.try_send(closed).unwrap();
    c_data.from_channels_send.try_send(ChannelAsyncMessage::LostConnection).unwrap();
    assert_eq!(handle_server_events(&mut rig.server).connection_lost_events.len(), 2);
    assert_eq!(clients(&mut rig), vec![d]);
    rig.endpoint().disconnect_all_clients();
    assert_eq!(clients(&mut rig), vec![]);
    assert_eq!(rig.connect(5).0, 5);
    assert_eq!(clients(&mut rig), vec![5]);
    assert_eq!(rig.endpoint().endpoint_stats().disconnect_count(), 4);
}

#[test]
fn a_client_whose_tasks_are_gone_was_disconnected_already() {
    assert_eq!(disconnect_result(3, Ok(())), Ok(()));
    assert_eq!(
        disconnect_result(3, Err(ConnectionAlreadyClosed)),
        Err(ServerDisconnectError::ClientAlreadyDisconnected(3))
    );
}

#[test]
fn stopping_disconnects_every_client() {
    let mut rig = rig(vec![], recv_cfg(10, false));
    let (_, mut a_data) = rig.connect(1);
    let (_, mut b_data) = rig.connect(2);
    rig.endpoint().disconnect_all_clients();
    assert_eq!(rig.endpoint().clients(), Vec::<ClientId>::new());
    assert_eq!(rig.endpoint().endpoint_stats().connect_count(), 2);
    assert_eq!(rig.endpoint().endpoint_stats().disconnect_count(), 2);
    rig.endpoint().disconnect_all_clients();
    assert_eq!(rig.endpoint().endpoint_stats().disconnect_count(), 2);
    let (_, mut c_data) = rig.connect(3);
    assert_eq!(rig.server.stop_endpoint(), Ok(()));
    for data in [&mut a_data, &mut b_data, &mut c_data] {
        assert_eq!(data.client_close_recv.try_recv().unwrap(), CloseReason::LocalOrder);
    }
}

#[test]
fn channels_open_and_close_for_every_client() {
    let mut rig = rig(vec![], recv_cfg(10, false));
    let (a, mut a_data) = rig.connect(1);
    let (b, mut b_data) = rig.connect(2);
    assert_eq!(rig.endpoint().open_channel(ORDERED), Ok(0));
    assert_eq!(rig.endpoint().default_channel(), Some(0));
    let (channel, config, _bytes, mut close) = requested(&mut a_data);
    assert_eq!((channel, config), (0, ORDERED));
    let (_, _, _b_bytes, _b_close) = requested(&mut b_data);
    assert_eq!(rig.endpoint().open_channel(ChannelConfig::Unreliable), Ok(1));
    assert_eq!(rig.endpoint().default_channel(), Some(0));
    rig.endpoint().set_default_channel(1);
    assert_eq!(rig.endpoint().default_channel(), Some(1));
    assert_eq!(rig.endpoint().close_channel(0), Ok(()));
    assert_eq!(close.try_recv(), Ok(()));
    assert_eq!(rig.endpoint().default_channel(), Some(1));
    for id in [a, b] {
        assert_eq!(rig.endpoint().send_payload_on(id, 0, payload("x")), Err(invalid(0)));
    }
    assert_eq!(
        rig.endpoint().close_channel(0),
        Err(ChannelCloseError::InvalidChannelId(0))
    );
    assert_eq!(rig.endpoint().open_channel(ORDERED), Ok(0));
    assert_eq!(rig.endpoint().send_payload_on(a, 0, payload("x")), Ok(()));
}

#[test]
fn a_channel_that_cannot_be_opened_for_a_client_is_not_open() {
    let mut rig = rig(vec![], recv_cfg(10, false));
    let (id, mut data) = rig.connect(1);
    data.to_channels_recv.close();
    assert_eq!(
        rig.endpoint().open_channel(ORDERED),
        Err(ChannelCreationError::AsyncChannelError(AsyncChannelError::InternalChannelClosed))
    );
    assert_eq!(rig.endpoint().default_channel(), None);
    assert_eq!(rig.endpoint().send_payload_on(id, 0, payload("x")), Err(invalid(0)));
    rig.endpoint().try_disconnect_client(id);
    assert_eq!(rig.endpoint().open_channel(ORDERED), Ok(0));
}

#[test]
fn closing_stops_at_a_client_that_cannot_be_told() {
    let mut rig = rig(vec![ORDERED], recv_cfg(10, false));
    let (id, mut data) = rig.connect(1);
    drop(requested(&mut data));
    assert_eq!(
        rig.endpoint().close_channel(0),
        Err(ChannelCloseError::AsyncChannelError(AsyncChannelError::InternalChannelClosed))
    );
    assert_eq!(rig.endpoint().send_payload_on(id, 0, payload("x")), Err(invalid(0)));
    // The id was not released.
    assert_eq!(rig.endpoint().open_channel(ORDERED), Ok(1));
}

#[test]
fn payloads_of_clients_are_read_in_order() {
    let mut rig = rig(vec![], recv_cfg(2, false));
    let (a, a_data) = rig.connect(1);
    let (b, _b_data) = rig.connect(2);
    for (channel, text) in [(0u8, "a"), (3, "b"), (0, "c"), (0, "d")] {
        a_data.bytes_from_client_send.try_send((channel, payload(text))).unwrap();
    }
    assert_eq!(
        dispatch_received_payloads(&mut rig.server),
        vec![RecvChannelErrorEvent { id: a, error: RecvChannelError::RecvChannelFull(0) }]
    );
    assert_eq!(rig.endpoint().receive_payload(a, 0), Ok(Some(payload("a"))));
    assert_eq!(rig.endpoint().receive_payload(a, 0), Ok(Some(payload("c"))));
    assert_eq!(rig.endpoint().receive_payload(a, 0), Ok(None));
    assert_eq!(rig.endpoint().receive_payload(b, 3), Ok(None));
    assert_eq!(rig.endpoint().try_receive_payload(a, 3), Some(payload("b")));
    assert_eq!(rig.endpoint().try_receive_payload(a, 3), None);
    assert_eq!(
        rig.endpoint().receive_payload(9, 0),
        Err(ServerReceiveError::UnknownClient(9))
    );
    assert_eq!(rig.endpoint().try_receive_payload(9, 0), None);
}

#[test]
fn stale_payloads_are_cleared_where_configured() {
    let mut rig = rig(vec![], recv_cfg(10, false));
    let (id, data) = rig.connect(1);
    let mut send = |text: &str| {
        data.bytes_from_client_send.try_send((0, payload(text))).unwrap();
    };
    send("a");
    send("b");
    assert_eq!(dispatch_received_payloads(&mut rig.server), vec![]);
    clear_stale_received_payloads(&mut rig.server);
    assert_eq!(rig.endpoint().receive_payload(id, 0), Ok(Some(payload("a"))));
    assert!(!rig.endpoint().recv_channels_cfg().clear_stale_received_payloads);
    rig.endpoint().set_clear_stale_client_payloads(true);
    assert!(rig.endpoint().recv_channels_cfg().clear_stale_received_payloads);
    clear_stale_received_payloads(&mut rig.server);
    assert_eq!(rig.endpoint().receive_payload(id, 0), Ok(None));
    send("c");
    assert_eq!(dispatch_received_payloads(&mut rig.server), vec![]);
    rig.endpoint().clear_payloads_from_clients();
    assert_eq!(rig.endpoint().receive_payload(id, 0), Ok(None));
}

#[test]
fn listening_edges_are_seen_once() {
    let mut opened = false;
    let mut closed = false;
    assert!(!server_listening(None));
    assert!(!server_just_opened(&mut opened, None));
    assert!(!server_just_closed(&mut closed, None));
    let mut rig = rig(vec![], recv_cfg(10, false));
    assert!(server_listening(Some(&rig.server)));
    assert!(server_just_opened(&mut opened, Some(&rig.server)));
    assert!(!server_just_opened(&mut opened, Some(&rig.server)));
    assert!(!server_just_closed(&mut closed, Some(&rig.server)));
    rig.server.stop_endpoint().unwrap();
    assert!(!server_listening(Some(&rig.server)));
    assert!(!server_just_opened(&mut opened, Some(&rig.server)));
    assert!(server_just_closed(&mut closed, Some(&rig.server)));
    assert!(!server_just_closed(&mut closed, Some(&rig.server)));
}

#[test]
fn a_failed_connection_does_not_stop_the_accepting_task() {
    let steps = [
        (EndpointTaskEvent::CloseOrdered, EndpointTaskAction::Stop),
        (EndpointTaskEvent::EndpointClosed, EndpointTaskAction::Stop),
        (EndpointTaskEvent::IncomingFailed, EndpointTaskAction::Wait),
        (EndpointTaskEvent::Established, EndpointTaskAction::Serve),
    ];
    for (event, action) in steps {
        assert_eq!(endpoint_task_step(event), action);
    }
}

const CLOSED: ClientTaskEvent = ClientTaskEvent::ConnectionClosed { server_listens: true };

#[test]
fn a_client_is_served_once_the_server_has_answered() {
    let answer = ClientTaskEvent::Answered(Some(ServerSyncMessage::ClientConnectedAck(5)));
    let mut state = ClientTaskState::AwaitingAnswer;
    assert!(matches!(client_task_step(&mut state, answer), ClientTaskAction::Serve(5)));
    assert_eq!(state, ClientTaskState::Serving(5));
    assert!(matches!(
        client_task_step(&mut state, CLOSED),
        ClientTaskAction::Tell(ServerAsyncMessage::ClientConnectionClosed(5))
    ));
    assert_eq!(state, ClientTaskState::Ended);
    for event in [answer, CLOSED] {
        assert!(matches!(client_task_step(&mut state, event), ClientTaskAction::End));
        assert_eq!(state, ClientTaskState::Ended);
    }
}

#[test]
fn a_connection_without_an_answer_is_refused() {
    for event in [ClientTaskEvent::Answered(None), CLOSED] {
        let mut state = ClientTaskState::AwaitingAnswer;
        assert!(matches!(client_task_step(&mut state, event), ClientTaskAction::End));
        assert_eq!(state, ClientTaskState::Ended);
    }
}

#[test]
fn a_server_that_does_not_listen_is_not_told_of_a_closed_connection() {
    let mut state = ClientTaskState::Serving(5);
    let closed = ClientTaskEvent::ConnectionClosed { server_listens: false };
    assert!(matches!(client_task_step(&mut state, closed), ClientTaskAction::End));
    assert_eq!(state, ClientTaskState::Ended);
}

#[test]
fn the_task_of_a_served_client_reports_it_as_lost() {
    let mut rig = rig(vec![ORDERED], recv_cfg(10, false));
    let (id, mut data) = rig.connect(1);
    let ClientTaskAction::Tell(message) = client_task_step(&mut data.state, CLOSED) else {
        panic!("the task did not tell");
    };
    rig.task.to_sync_endpoint_send.try_send(message).unwrap();
    let events = handle_server_events(&mut rig.server);
    assert_eq!(events.connection_lost_events, vec![ConnectionLostEvent { id }]);
    assert_eq!(data.client_close_recv.try_recv().unwrap(), CloseReason::PeerClosed);
}

#[test]
fn the_raw_endpoint_is_the_bound_one() {
    let mut rig = rig(vec![], recv_cfg(10, false));
    let id = rig.task.endpoint.id();
    assert_eq!(rig.endpoint().raw_endpoint().id(), id);
    assert_eq!(rig.endpoint().raw_endpoint_mut().id(), id);
    assert!(rig.endpoint().try_recv_from_async().is_err());
}
