use bevy_iroh::client::connection::client_id::{
    client_id_from_frame, receive_client_id, ClientIdEvent, ClientIdReception,
};
use bevy_iroh::client::connection::connecting::{
    connect_address, connecting_step, connection_failed, needs_relay, search_relay,
    signal_connected, signal_reception, watching_step, ConnectingAction, ConnectingEvent,
    ConnectingState, RelaySearch, WatchingAction, WatchingState,
};
use bevy_iroh::client::connection::{
    create_client_connection_async_channels, ConnectionEvent, ConnectionFailedEvent,
    ConnectionLocalId, ConnectionLostEvent, ConnectionState, ConnectionTaskData,
    InternalConnectionState,
};
use bevy_iroh::client::{
    clear_stale_received_payloads, client_connected, client_connecting, client_just_connected,
    client_just_disconnected, dispatch_received_payloads, handle_client_events,
    ClientAsyncMessage, ClientConnectionCloseError, ClientPayloadSendError, ClientSendError,
    ConnectionClosed, IrohClient, IrohConnectionError,
};
use bevy_iroh::config::IrohClientConnectionConfig;
use bevy_iroh::shared::channels::{
    ChannelAsyncMessage, ChannelConfig, ChannelSyncMessage, CloseReason,
    SendChannelsConfiguration,
};
use bevy_iroh::shared::error::{
    AsyncChannelError, ChannelCloseError, ChannelCreationError, ConnectionAlreadyClosed,
    ConnectionSendError, RecvChannelError, RecvChannelErrorEvent,
};
use bevy_iroh::shared::peer_connection::RecvChannelsConfiguration;
use bevy_iroh::shared::InternalConnectionRef;
use bytes::Bytes;
use tokio::runtime::Runtime;

const ORDERED: ChannelConfig = ChannelConfig::OrderedReliable { max_frame_size: 32 };

fn runtime() -> Runtime {
    tokio::runtime::Builder::new_multi_thread().worker_threads(1).enable_all().build().unwrap()
}

fn client() -> (IrohClient, Runtime) {
    let runtime = runtime();
    let endpoint = runtime
        .block_on(
            iroh::Endpoint::builder(iroh::endpoint::presets::Minimal)
                .relay_mode(iroh::RelayMode::Disabled)
                .bind(),
        )
        .unwrap();
    let mut client = IrohClient::new();
    assert!(client.raw_endpoint().is_none());
    assert!(client.raw_endpoint_mut().is_none());
    let id = endpoint.id();
    client.set_endpoint(endpoint);
    assert_eq!(client.raw_endpoint().unwrap().id(), id);
    assert_eq!(client.raw_endpoint_mut().unwrap().id(), id);
    (client, runtime)
}

fn server_id(n: u8) -> iroh::EndpointId {
    iroh::SecretKey::from_bytes(&[n; 32]).public()
}

fn config(n: u8) -> IrohClientConnectionConfig {
    IrohClientConnectionConfig { server_id: server_id(n), alpn: vec![n, n], endpoint_addr: None }
}

fn recv_cfg(max: usize, clear: bool) -> RecvChannelsConfiguration {
    RecvChannelsConfiguration {
        max_buffered_payloads_count_per_channel: max,
        clear_stale_received_payloads: clear,
    }
}

fn channels(configs: Vec<ChannelConfig>) -> SendChannelsConfiguration {
    SendChannelsConfiguration::from_configs(configs).unwrap()
}

fn open(client: &mut IrohClient, n: u8) -> (ConnectionLocalId, ConnectionTaskData) {
    match client.open_connection(config(n), channels(vec![ORDERED]), recv_cfg(2, false)) {
        Ok(opened) => opened,
        Err(e) => panic!("{:?}", e),
    }
}

fn handle(n: u8) -> InternalConnectionRef {
    InternalConnectionRef { stable_id: n as usize, remote_id: server_id(n) }
}

fn payload(text: &str) -> Bytes {
    Bytes::copy_from_slice(text.as_bytes())
}

#[test]
fn the_queues_of_a_connection_are_joined_and_have_their_room() {
    let (
        bytes_send,
        mut bytes_recv,
        messages_send,
        mut messages_recv,
        reports_send,
        mut reports_recv,
        requests_send,
        requests_recv,
        close_send,
        mut close_recv,
    ) = create_client_connection_async_channels();
    assert_eq!(bytes_send.max_capacity(), 150);
    assert_eq!(messages_send.max_capacity(), 100);
    assert_eq!(reports_send.max_capacity(), 100);
    assert_eq!(requests_send.max_capacity(), 100);
    bytes_send.try_send((3, payload("x"))).unwrap();
    assert_eq!(bytes_recv.try_recv().unwrap(), (3, payload("x")));
    messages_send.try_send(ClientAsyncMessage::ConnectionClosed).unwrap();
    assert!(matches!(messages_recv.try_recv(), Ok(ClientAsyncMessage::ConnectionClosed)));
    reports_send.try_send(ChannelAsyncMessage::LostConnection).unwrap();
    assert_eq!(reports_recv.try_recv().unwrap(), ChannelAsyncMessage::LostConnection);
    assert!(!requests_send.is_closed());
    drop(requests_recv);
    assert!(requests_send.is_closed());
    assert_eq!(close_send.send(CloseReason::PeerClosed).unwrap(), 1);
    assert_eq!(close_recv.try_recv().unwrap(), CloseReason::PeerClosed);
}

#[test]
fn connections_get_fresh_ids_and_the_first_is_the_default() {
    let (mut client, _runtime) = client();
    assert!(client.get_connection().is_none());
    assert!(client.get_connection_mut().is_none());
    assert!(client.is_disconnected());
    assert_eq!(client.get_default_connection(), None);
    let (a, task) = open(&mut client, 1);
    assert_eq!(a, 0);
    assert_eq!(task.local_id, 0);
    assert_eq!(task.config.server_id, server_id(1));
    assert_eq!(task.config.alpn, vec![1, 1]);
    assert_eq!(task.endpoint.id(), client.raw_endpoint().unwrap().id());
    let (b, _b_task) = open(&mut client, 2);
    assert_eq!(b, 1);
    assert_eq!(client.get_default_connection(), Some(a));
    assert_eq!(client.connection().client_config().server_id, server_id(1));
    assert_eq!(client.connection_mut().channels_config().configs(), &vec![ORDERED]);
    assert_eq!(client.get_connection_by_id(b).unwrap().client_config().server_id, server_id(2));
    assert!(client.get_connection_by_id(7).is_none());
    assert!(client.get_connection_mut_by_id(7).is_none());
    let mut ids: Vec<ConnectionLocalId> = client.connections().map(|entry| *entry.0).collect();
    ids.sort();
    assert_eq!(ids, vec![a, b]);
    client.set_default_connection(b);
    assert_eq!(client.get_default_connection(), Some(b));
    client.set_default_connection(9);
    assert!(client.get_connection().is_none());
    assert!(client.is_disconnected());
}

#[test]
fn a_connection_has_its_configured_channels() {
    let (mut client, _runtime) = client();
    let configs = vec![ORDERED, ChannelConfig::Unreliable];
    let (_, mut task) =
        client.open_connection(config(1), channels(configs), recv_cfg(2, false)).ok().unwrap();
    assert_eq!(client.connection().default_channel(), Some(0));
    for (expected, kind) in [(0u8, ORDERED), (1, ChannelConfig::Unreliable)] {
        let ChannelSyncMessage::CreateChannel { id, config, .. } =
            task.to_channels_recv.try_recv().unwrap();
        assert_eq!((id, config), (expected, kind));
    }
    assert_eq!(client.connection_mut().open_channel(ORDERED), Ok(2));
}

#[test]
fn too_many_channels_cannot_be_opened() {
    let (mut client, _runtime) = client();
    let many = channels(vec![ORDERED; 101]);
    match client.open_connection(config(1), many, recv_cfg(2, false)) {
        Err(e) => assert_eq!(e, AsyncChannelError::FullQueue),
        Ok(_) => panic!("opened"),
    }
    assert!(client.get_connection_by_id(0).is_none());
    assert_eq!(client.get_default_connection(), None);
    // An id was spent on it.
    assert_eq!(open(&mut client, 1).0, 1);
}

#[test]
fn ids_count_the_openings() {
    let (mut client, _runtime) = client();
    assert_eq!(open(&mut client, 1).0, 0);
    client.set_default_connection(7);
    assert_eq!(open(&mut client, 2).0, 1);
    assert!(client.close_connection(0).is_err());
    let many = channels(vec![ORDERED; 101]);
    assert_eq!(
        client.open_connection(config(1), many, recv_cfg(2, false)).err(),
        Some(AsyncChannelError::FullQueue)
    );
    handle_client_events(&mut client);
    client.close_all_connections();
    assert_eq!(open(&mut client, 3).0, 3);
}

#[test]
fn closing_removes_a_connection() {
    let (mut client, _runtime) = client();
    let (a, mut a_task) = open(&mut client, 1);
    let (b, b_task) = open(&mut client, 2);
    let (c, _c_task) = open(&mut client, 3);
    assert_eq!(client.close_connection(a), Ok(()));
    assert_eq!(a_task.close_recv.try_recv().unwrap(), CloseReason::LocalOrder);
    assert_eq!(client.get_default_connection(), None);
    assert_eq!(
        client.close_connection(a),
        Err(ClientConnectionCloseError::InvalidConnectionId(a))
    );
    client.set_default_connection(c);
    drop(b_task);
    assert_eq!(
        client.close_connection(b),
        Err(ClientConnectionCloseError::ConnectionAlreadyClosed(ConnectionAlreadyClosed))
    );
    assert!(client.get_connection_by_id(b).is_none());
    assert_eq!(client.get_default_connection(), Some(c));
    client.connection_mut().try_disconnect();
    assert_eq!(client.close_connection(c), Ok(()));
    assert_eq!(client.get_default_connection(), None);
    assert_eq!(open(&mut client, 4).0, 3);
}

#[test]
fn closing_all_leaves_no_connection() {
    let (mut client, _runtime) = client();
    let (_, mut a_task) = open(&mut client, 1);
    let (_, mut b_task) = open(&mut client, 2);
    client.close_all_connections();
    assert_eq!(client.connections().count(), 0);
    assert_eq!(client.get_default_connection(), None);
    for task in [&mut a_task, &mut b_task] {
        assert_eq!(task.close_recv.try_recv().unwrap(), CloseReason::LocalOrder);
    }
    open(&mut client, 3);
    client.set_default_connection(50);
    client.close_all_connections();
    assert_eq!(client.get_default_connection(), Some(50));
}

#[test]
fn sending_on_a_connection() {
    let (mut client, _runtime) = client();
    let (_, mut task) = open(&mut client, 1);
    let connection = client.connection_mut();
    assert_eq!(connection.send_payload(payload("a")), Ok(()));
    assert_eq!(connection.send_payload_on(0, payload("b")), Ok(()));
    connection.try_send_payload(payload("c"));
    connection.try_send_payload_on(0, payload("d"));
    connection.try_send_payload_on(9, payload("e"));
    assert_eq!(
        connection.send_payload_on(9, payload("x")),
        Err(ClientSendError::ConnectionSendError(ConnectionSendError::InvalidChannelId(9)))
    );
    let ChannelSyncMessage::CreateChannel { mut bytes_to_channel_recv, .. } =
        task.to_channels_recv.try_recv().unwrap();
    for text in ["a", "b", "c", "d"] {
        assert_eq!(bytes_to_channel_recv.try_recv().unwrap(), payload(text));
    }
    assert!(bytes_to_channel_recv.try_recv().is_err());
    assert_eq!(connection.disconnect(), Ok(()));
    assert_eq!(
        connection.send_payload_on(0, payload("x")),
        Err(ClientSendError::ConnectionClosed)
    );
    assert_eq!(
        connection.send_payload(payload("x")),
        Err(ClientPayloadSendError::SendError(ClientSendError::ConnectionClosed))
    );
}

#[test]
fn a_connection_without_default_channel() {
    let (mut client, _runtime) = client();
    let opened = client.open_connection(config(1), channels(vec![]), recv_cfg(2, false));
    let (_, _task) = opened.ok().unwrap();
    let connection = client.connection_mut();
    assert_eq!(connection.default_channel(), None);
    assert_eq!(
        connection.send_payload(payload("x")),
        Err(ClientPayloadSendError::NoDefaultChannel)
    );
    connection.try_send_payload(payload("x"));
    connection.set_default_channel(4);
    assert_eq!(connection.default_channel(), Some(4));
}

#[test]
fn channels_of_a_connection_open_and_close() {
    let (mut client, _runtime) = client();
    let (_, mut task) = open(&mut client, 1);
    let connection = client.connection_mut();
    assert_eq!(connection.open_channel(ChannelConfig::Unreliable), Ok(1));
    let mut receivers = vec![];
    for _ in 0..2 {
        let ChannelSyncMessage::CreateChannel { channel_close_recv, .. } =
            task.to_channels_recv.try_recv().unwrap();
        receivers.push(channel_close_recv);
    }
    assert_eq!(connection.close_channel(0), Ok(()));
    assert_eq!(receivers[0].try_recv(), Ok(()));
    assert_eq!(connection.default_channel(), None);
    assert_eq!(connection.close_channel(0), Err(ChannelCloseError::InvalidChannelId(0)));
    assert_eq!(connection.open_channel(ORDERED), Ok(0));
    assert_eq!(connection.default_channel(), Some(0));
    receivers.clear();
    assert_eq!(
        connection.close_channel(1),
        Err(ChannelCloseError::AsyncChannelError(AsyncChannelError::InternalChannelClosed))
    );
    // The id of a channel whose task could not be told stays taken.
    assert_eq!(connection.open_channel(ORDERED), Ok(2));
    drop(task);
    assert_eq!(
        connection.open_channel(ORDERED),
        Err(ChannelCreationError::AsyncChannelError(AsyncChannelError::InternalChannelClosed))
    );
}

#[test]
fn a_connection_runs_out_of_channel_ids() {
    let (mut client, _runtime) = client();
    let (_, task) = open(&mut client, 1);
    drop(task);
    let connection = client.connection_mut();
    for _ in 1..256 {
        assert_eq!(
            connection.open_channel(ORDERED),
            Err(ChannelCreationError::AsyncChannelError(AsyncChannelError::InternalChannelClosed))
        );
    }
    assert_eq!(
        connection.open_channel(ORDERED),
        Err(ChannelCreationError::MaxChannelsCountReached)
    );
}

#[test]
fn messages_of_the_async_task_change_the_state() {
    let (mut client, _runtime) = client();
    let (id, task) = open(&mut client, 1);
    assert!(client.is_connecting());
    assert!(!client.is_connected());
    assert!(!client.is_disconnected());
    assert_eq!(client.connection().client_id(), None);
    assert!(client.connection().connection_ref().is_none());
    task.to_sync_client_send.try_send(signal_connected(handle(1), Some(12))).unwrap();
    let events = handle_client_events(&mut client);
    assert_eq!(events.connection_events, vec![ConnectionEvent { id, client_id: Some(12) }]);
    assert_eq!(events.connection_failed_events, vec![]);
    assert_eq!(events.connection_lost_events, vec![]);
    assert!(client.is_connected());
    assert_eq!(client.connection().state(), ConnectionState::Connected);
    assert_eq!(client.connection().client_id(), Some(12));
    assert_eq!(client.connection().connection_ref().unwrap().stable_id, 1);
    task.to_sync_client_send.try_send(ClientAsyncMessage::ConnectionClosed).unwrap();
    task.to_sync_client_send.try_send(ClientAsyncMessage::ConnectionClosed).unwrap();
    task.from_channels_send.try_send(ChannelAsyncMessage::LostConnection).unwrap();
    let events = handle_client_events(&mut client);
    assert_eq!(events.connection_lost_events, vec![ConnectionLostEvent { id }]);
    assert!(client.is_disconnected());
    assert_eq!(client.connection().client_id(), None);
}

#[test]
fn a_connection_that_fails_is_disconnected() {
    let (mut client, _runtime) = client();
    let (id, task) = open(&mut client, 1);
    task.to_sync_client_send
        .try_send(ClientAsyncMessage::ConnectionFailed(IrohConnectionError::InvalidClientId))
        .unwrap();
    let events = handle_client_events(&mut client);
    assert_eq!(
        events.connection_failed_events,
        vec![ConnectionFailedEvent { id, err: IrohConnectionError::InvalidClientId }]
    );
    let event = ConnectionFailedEvent {
        id: 4,
        err: IrohConnectionError::ConnectionError(format!("no way")),
    };
    assert_eq!(event.clone(), event);
    assert!(client.is_disconnected());
}

#[test]
fn a_connection_lost_by_its_channels_is_told_to_close() {
    let (mut client, _runtime) = client();
    let (id, mut task) = open(&mut client, 1);
    task.from_channels_send.try_send(ChannelAsyncMessage::LostConnection).unwrap();
    task.from_channels_send.try_send(ChannelAsyncMessage::LostConnection).unwrap();
    let events = handle_client_events(&mut client);
    assert_eq!(events.connection_lost_events, vec![ConnectionLostEvent { id }]);
    assert_eq!(task.close_recv.try_recv().unwrap(), CloseReason::PeerClosed);
    assert!(task.close_recv.try_recv().is_err());
}

#[test]
fn a_connection_can_be_lost_again_after_it_connected() {
    let (mut client, _runtime) = client();
    let (id, task) = open(&mut client, 1);
    let send = &task.to_sync_client_send;
    send.try_send(ClientAsyncMessage::ConnectionClosed).unwrap();
    send.try_send(signal_connected(handle(1), None)).unwrap();
    send.try_send(ClientAsyncMessage::ConnectionClosed).unwrap();
    let events = handle_client_events(&mut client);
    assert_eq!(events.connection_events, vec![ConnectionEvent { id, client_id: None }]);
    assert_eq!(
        events.connection_lost_events,
        vec![ConnectionLostEvent { id }, ConnectionLostEvent { id }]
    );
}

#[test]
fn disconnecting_twice_is_harmless() {
    let (mut client, _runtime) = client();
    let (_, mut task) = open(&mut client, 1);
    let connection = client.connection_mut();
    assert_eq!(connection.disconnect(), Ok(()));
    assert_eq!(task.close_recv.try_recv().unwrap(), CloseReason::LocalOrder);
    drop(task);
    assert_eq!(connection.disconnect(), Ok(()));
    connection.set_state(InternalConnectionState::Connecting);
    assert_eq!(
        connection.disconnect(),
        Err(ClientConnectionCloseError::ConnectionAlreadyClosed(ConnectionAlreadyClosed))
    );
    assert_eq!(connection.state(), ConnectionState::Disconnected);
    connection.try_disconnect_closed_connection();
}

#[test]
fn a_disconnected_connection_can_connect_again() {
    let (mut client, _runtime) = client();
    let (id, old_task) = open(&mut client, 1);
    let connection = client.connection_mut();
    assert!(matches!(connection.reconnect(), Ok(None)));
    assert_eq!(connection.open_channel(ORDERED), Ok(1));
    connection.try_disconnect();
    let mut task = match connection.reconnect() {
        Ok(Some(task)) => task,
        _ => panic!("not restarted"),
    };
    assert_eq!(task.local_id, id);
    assert_eq!(task.config.alpn, vec![1, 1]);
    assert_eq!(connection.state(), ConnectionState::Connecting);
    assert_eq!(connection.default_channel(), Some(0));
    assert_eq!(
        connection.send_payload_on(1, payload("x")),
        Err(ClientSendError::ConnectionSendError(ConnectionSendError::InvalidChannelId(1)))
    );
    let ChannelSyncMessage::CreateChannel { id: channel, .. } =
        task.to_channels_recv.try_recv().unwrap();
    assert_eq!(channel, 0);
    assert!(task.to_channels_recv.try_recv().is_err());
    // What the old task still says is not heard any more.
    assert!(old_task.to_sync_client_send.try_send(ClientAsyncMessage::ConnectionClosed).is_err());
    task.to_sync_client_send.try_send(signal_connected(handle(1), None)).unwrap();
    handle_client_events(&mut client);
    assert!(client.is_connected());
}

#[test]
fn payloads_of_servers_are_read_in_order() {
    let (mut client, _runtime) = client();
    let (id, task) = open(&mut client, 1);
    for (channel, text) in [(0u8, "a"), (0, "b"), (0, "c"), (6, "d")] {
        task.bytes_from_server_send.try_send((channel, payload(text))).unwrap();
    }
    assert_eq!(
        dispatch_received_payloads(&mut client),
        vec![RecvChannelErrorEvent { id, error: RecvChannelError::RecvChannelFull(0) }]
    );
    let connection = client.connection_mut();
    assert_eq!(connection.receive_payload(0), Ok(Some(payload("a"))));
    assert_eq!(connection.try_receive_payload(0), Some(payload("b")));
    assert_eq!(connection.receive_payload(0), Ok(None));
    connection.try_disconnect();
    assert_eq!(connection.receive_payload(6), Err(ConnectionClosed));
    assert_eq!(connection.try_receive_payload(6), None);
}

#[test]
fn a_disconnected_connection_takes_no_payloads() {
    let (mut client, _runtime) = client();
    let (_, task) = open(&mut client, 1);
    task.bytes_from_server_send.try_send((0, payload("a"))).unwrap();
    client.connection_mut().try_disconnect();
    assert_eq!(dispatch_received_payloads(&mut client), vec![]);
    client.connection_mut().set_state(InternalConnectionState::Connecting);
    assert_eq!(client.connection_mut().receive_payload(0), Ok(None));
    assert_eq!(dispatch_received_payloads(&mut client), vec![]);
    assert_eq!(client.connection_mut().receive_payload(0), Ok(Some(payload("a"))));
}

#[test]
fn stale_payloads_are_cleared_per_connection() {
    let (mut client, _runtime) = client();
    let mut tasks = vec![];
    for (n, clear) in [(1u8, true), (2, false)] {
        let opened = client.open_connection(config(n), channels(vec![]), recv_cfg(5, clear));
        let (_, task) = opened.ok().unwrap();
        task.bytes_from_server_send.try_send((0, payload("a"))).unwrap();
        tasks.push(task);
    }
    assert_eq!(dispatch_received_payloads(&mut client), vec![]);
    clear_stale_received_payloads(&mut client);
    let first = client.get_connection_mut_by_id(0).unwrap();
    assert_eq!(first.receive_payload(0), Ok(None));
    let second = client.get_connection_mut_by_id(1).unwrap();
    assert_eq!(second.receive_payload(0), Ok(Some(payload("a"))));
}

#[test]
fn connection_edges_are_seen_once() {
    let (mut client, _runtime) = client();
    let mut connected = false;
    let mut disconnected = false;
    assert!(!client_connecting(None));
    assert!(!client_connected(None));
    assert!(!client_just_connected(&mut connected, None));
    assert!(!client_just_disconnected(&mut disconnected, None));
    let (_, task) = open(&mut client, 1);
    assert!(client_connecting(Some(&client)));
    assert!(!client_just_connected(&mut connected, Some(&client)));
    assert!(!client_just_disconnected(&mut disconnected, Some(&client)));
    task.to_sync_client_send.try_send(signal_connected(handle(1), None)).unwrap();
    handle_client_events(&mut client);
    assert!(client_connected(Some(&client)));
    assert!(client_just_connected(&mut connected, Some(&client)));
    assert!(!client_just_connected(&mut connected, Some(&client)));
    assert!(!client_just_disconnected(&mut disconnected, Some(&client)));
    client.close_all_connections();
    assert!(!client_just_connected(&mut connected, Some(&client)));
    assert!(client_just_disconnected(&mut disconnected, Some(&client)));
    assert!(!client_just_disconnected(&mut disconnected, Some(&client)));
}

#[test]
fn a_client_id_is_the_first_eight_bytes() {
    assert_eq!(client_id_from_frame(&[0, 0, 0, 0, 0, 0, 1, 2]), Ok(258));
    assert_eq!(
        client_id_from_frame(&[0x01, 0x23, 0x45, 0x67, 0x89, 0xab, 0xcd, 0xef, 0xff]),
        Ok(0x0123_4567_89ab_cdef)
    );
    assert_eq!(client_id_from_frame(&[0xff; 8]), Ok(u64::MAX));
    assert_eq!(client_id_from_frame(&[1; 7]), Err(IrohConnectionError::InvalidClientId));
    assert_eq!(client_id_from_frame(&[]), Err(IrohConnectionError::InvalidClientId));
}

#[test]
fn the_reception_of_a_client_id() {
    assert!(matches!(
        receive_client_id(ClientIdEvent::CloseOrdered),
        ClientIdReception::Interrupted
    ));
    assert!(matches!(
        receive_client_id(ClientIdEvent::NoFrame),
        ClientIdReception::Failed(IrohConnectionError::ClientIdNotReceived)
    ));
    assert!(matches!(
        receive_client_id(ClientIdEvent::Frame(vec![1, 2])),
        ClientIdReception::Failed(IrohConnectionError::InvalidClientId)
    ));
    assert!(matches!(
        receive_client_id(ClientIdEvent::Frame(vec![0, 0, 0, 0, 0, 0, 0, 9])),
        ClientIdReception::Retrieved(9)
    ));
    let failed = ClientIdEvent::StreamFailed(iroh::endpoint::ConnectionError::TimedOut);
    match receive_client_id(failed) {
        ClientIdReception::Failed(IrohConnectionError::ConnectionError(text)) => {
            assert_eq!(text, "timed out");
        }
        _ => panic!("not failed"),
    }
}

#[test]
fn the_message_after_the_reception() {
    match signal_reception(handle(1), ClientIdReception::Retrieved(3)) {
        Some(ClientAsyncMessage::Connected(connection, Some(3))) => {
            assert_eq!(connection.stable_id, 1);
        }
        _ => panic!("not connected"),
    }
    let failed = ClientIdReception::Failed(IrohConnectionError::ClientIdNotReceived);
    assert!(matches!(
        signal_reception(handle(1), failed),
        Some(ClientAsyncMessage::ConnectionFailed(IrohConnectionError::ClientIdNotReceived))
    ));
    assert!(signal_reception(handle(1), ClientIdReception::Interrupted).is_none());
}

#[test]
fn the_text_of_a_connect_error_is_kept() {
    let (client, runtime) = client();
    let endpoint = client.raw_endpoint().unwrap();
    let refused = runtime.block_on(endpoint.connect(endpoint.id(), b"test"));
    let error = match refused {
        Err(e) => e,
        Ok(_) => panic!("connected"),
    };
    match connection_failed(&error) {
        ClientAsyncMessage::ConnectionFailed(IrohConnectionError::ConnectionError(text)) => {
            assert_eq!(text, error.to_string());
            assert_eq!(text, "Connecting to ourself is not supported");
        }
        _ => panic!("not failed"),
    }
}

#[test]
fn the_search_for_a_relay_ends() {
    let url: iroh::RelayUrl = "https://relay.example.org".parse().unwrap();
    match search_relay(Some(url.clone()), u128::MAX) {
        RelaySearch::Found(found) => assert_eq!(found, url),
        _ => panic!("not found"),
    }
    assert!(matches!(search_relay(None, 0), RelaySearch::Retry(100)));
    assert!(matches!(search_relay(None, 10_000_000_000), RelaySearch::Retry(100)));
    assert!(matches!(search_relay(None, 10_000_000_001), RelaySearch::TimedOut));
}

#[test]
fn the_address_to_connect_to() {
    let url: iroh::RelayUrl = "https://relay.example.org".parse().unwrap();
    let other: iroh::RelayUrl = "https://other.example.org".parse().unwrap();
    let mut config = config(1);
    assert!(needs_relay(&config));
    let bare = connect_address(&config, None);
    assert_eq!(bare, iroh::EndpointAddr::new(server_id(1)));
    let relayed = connect_address(&config, Some(url.clone()));
    assert_eq!(relayed, iroh::EndpointAddr::new(server_id(1)).with_relay_url(url.clone()));
    assert_eq!(relayed.relay_urls().count(), 1);
    let direct = iroh::EndpointAddr::new(server_id(2)).with_relay_url(other);
    config.endpoint_addr = Some(direct.clone());
    assert!(!needs_relay(&config));
    assert_eq!(connect_address(&config, Some(url)), direct);
    assert_eq!(config.clone().endpoint_addr, Some(direct));
}

#[test]
fn the_task_looks_for_a_relay_then_connects_and_awaits_the_id() {
    let config = config(1);
    let url: iroh::RelayUrl = "https://relay.example.org".parse().unwrap();
    let mut state = ConnectingState::Idle;
    let mut step = |event: ConnectingEvent| connecting_step(&config, true, &mut state, event);
    assert!(matches!(step(ConnectingEvent::Started), ConnectingAction::PollRelay));
    assert!(matches!(
        step(ConnectingEvent::RelayPolled(None, 5)),
        ConnectingAction::PollRelayAfter(100)
    ));
    match step(ConnectingEvent::RelayPolled(Some(url.clone()), 6)) {
        ConnectingAction::Connect(addr, alpn) => {
            assert_eq!(alpn, vec![1, 1]);
            assert_eq!(addr, iroh::EndpointAddr::new(server_id(1)).with_relay_url(url));
        }
        _ => panic!("not connecting"),
    }
    assert!(matches!(step(ConnectingEvent::Started), ConnectingAction::Nothing));
    assert!(matches!(
        step(ConnectingEvent::Established(handle(4))),
        ConnectingAction::Serve
    ));
    let frame = ClientIdEvent::Frame(vec![0, 0, 0, 0, 0, 0, 0, 21]);
    match step(ConnectingEvent::IdAwaited(frame)) {
        ConnectingAction::Signal(ClientAsyncMessage::Connected(connection, Some(21))) => {
            assert_eq!(connection.stable_id, 4);
        }
        _ => panic!("not signalled"),
    }
    assert!(matches!(
        step(ConnectingEvent::IdAwaited(ClientIdEvent::NoFrame)),
        ConnectingAction::Nothing
    ));
}

#[test]
fn the_task_connects_without_a_relay_when_there_is_none_in_time() {
    let config = config(1);
    let mut state = ConnectingState::Locating;
    let late = ConnectingEvent::RelayPolled(None, 10_000_000_001);
    match connecting_step(&config, true, &mut state, late) {
        ConnectingAction::Connect(addr, alpn) => {
            assert_eq!(alpn, vec![1, 1]);
            assert_eq!(addr, iroh::EndpointAddr::new(server_id(1)));
        }
        _ => panic!("not connecting"),
    }
    let mut unshared = ConnectingState::Connecting;
    let established = ConnectingEvent::Established(handle(2));
    assert!(matches!(
        connecting_step(&config, false, &mut unshared, established),
        ConnectingAction::ServeAndSignal(ClientAsyncMessage::Connected(_, None))
    ));
    assert!(matches!(unshared, ConnectingState::Ended));
}

#[test]
fn a_closed_connection_is_told_once() {
    let mut state = WatchingState::Watching;
    assert!(matches!(
        watching_step(&mut state, true),
        WatchingAction::Tell(ClientAsyncMessage::ConnectionClosed)
    ));
    assert_eq!(state, WatchingState::Ended);
    assert!(matches!(watching_step(&mut state, true), WatchingAction::End));
    assert_eq!(state, WatchingState::Ended);
    let mut unheard = WatchingState::Watching;
    assert!(matches!(watching_step(&mut unheard, false), WatchingAction::End));
    assert_eq!(unheard, WatchingState::Ended);
}

#[test]
fn the_watching_task_makes_a_connection_lost() {
    let (mut client, _runtime) = client();
    let (id, task) = open(&mut client, 1);
    task.to_sync_client_send
        .try_send(ClientAsyncMessage::Connected(handle(1), Some(4)))
        .unwrap();
    assert_eq!(
        handle_client_events(&mut client).connection_events,
        vec![ConnectionEvent { id, client_id: Some(4) }]
    );
    let listens = !task.to_sync_client_send.is_closed();
    let WatchingAction::Tell(message) = watching_step(&mut WatchingState::Watching, listens) else {
        panic!("the task did not tell");
    };
    task.to_sync_client_send.try_send(message).unwrap();
    assert_eq!(
        handle_client_events(&mut client).connection_lost_events,
        vec![ConnectionLostEvent { id }]
    );
}

#[test]
fn the_task_connects_to_a_configured_address_at_once() {
    let mut config = config(1);
    let direct = iroh::EndpointAddr::new(server_id(2));
    config.endpoint_addr = Some(direct.clone());
    let mut state = ConnectingState::Idle;
    match connecting_step(&config, true, &mut state, ConnectingEvent::Started) {
        ConnectingAction::Connect(addr, alpn) => {
            assert_eq!(addr, direct);
            assert_eq!(alpn, config.alpn);
        }
        _ => panic!("not connecting"),
    }
    let (client, runtime) = client();
    let endpoint = client.raw_endpoint().unwrap();
    let error = runtime.block_on(endpoint.connect(endpoint.id(), b"test")).err().unwrap();
    let failed = ConnectingEvent::ConnectFailed(error);
    assert!(matches!(
        connecting_step(&config, true, &mut state, failed),
        ConnectingAction::Signal(ClientAsyncMessage::ConnectionFailed(
            IrohConnectionError::ConnectionError(_)
        ))
    ));
    let mut awaiting = ConnectingState::AwaitingId(handle(1));
    let interrupted = ConnectingEvent::IdAwaited(ClientIdEvent::CloseOrdered);
    assert!(matches!(
        connecting_step(&config, true, &mut awaiting, interrupted),
        ConnectingAction::Nothing
    ));
    assert!(matches!(awaiting, ConnectingState::Ended));
}

#[test]
fn client_errors_convert() {
    let invalid = ConnectionSendError::InvalidChannelId(1);
    assert_eq!(ClientSendError::from(invalid), ClientSendError::ConnectionSendError(invalid));
    assert_eq!(
        ClientPayloadSendError::from(ClientSendError::ConnectionClosed),
        ClientPayloadSendError::SendError(ClientSendError::ConnectionClosed)
    );
    assert_eq!(
        ClientConnectionCloseError::from(ConnectionAlreadyClosed),
        ClientConnectionCloseError::ConnectionAlreadyClosed(ConnectionAlreadyClosed)
    );
    let error = IrohConnectionError::from(iroh::endpoint::ConnectionError::Reset);
    assert_eq!(error, IrohConnectionError::ConnectionError("reset by peer".to_string()));
    assert_eq!(error.clone(), error);
    assert_eq!(IrohConnectionError::InvalidClientId.clone(), IrohConnectionError::InvalidClientId);
}
