use bevy_iroh::server::connection::{ServerConnection, ServerSideConnection};
use bevy_iroh::server::ServerSyncMessage;
use bevy_iroh::shared::channels::{
    Channel, ChannelAsyncMessage, ChannelConfig, ChannelId, ChannelSyncMessage, CloseReason,
    SendChannelsConfiguration,
};
use bevy_iroh::shared::error::{
    AsyncChannelError, ChannelCloseError, ChannelCreationError, ConnectionAlreadyClosed,
    ConnectionSendError, RecvChannelError,
};
use bevy_iroh::shared::peer_connection::{
    ChannelsIdsPool, PeerConnection, RecvChannelsConfiguration,
};
use bevy_iroh::shared::queues::{
    send_result, Broadcaster, Inbox, Outbox, RecvFailure, SendFailure,
};
use bevy_iroh::shared::InternalConnectionRef;
use bytes::Bytes;
use tokio::sync::{broadcast, mpsc};

struct AsyncSide {
    bytes_send: mpsc::Sender<(ChannelId, Bytes)>,
    close_recv: broadcast::Receiver<CloseReason>,
    reports_send: mpsc::Sender<ChannelAsyncMessage>,
    requests_recv: mpsc::Receiver<ChannelSyncMessage>,
}

fn connection(max: usize, clear: bool) -> (ServerSideConnection, AsyncSide) {
    let (bytes_send, bytes_recv) = mpsc::channel(100);
    let (close_send, close_recv) = broadcast::channel(10);
    let (reports_send, reports_recv) = mpsc::channel(100);
    let (requests_send, requests_recv) = mpsc::channel(3);
    let (ack_send, _ack_recv) = mpsc::channel::<ServerSyncMessage>(10);
    let handle = InternalConnectionRef {
        stable_id: 7,
        remote_id: iroh::SecretKey::from_bytes(&[9; 32]).public(),
    };
    let connection = PeerConnection::new(
        ServerConnection::new(handle, ack_send),
        bytes_recv,
        close_send,
        reports_recv,
        requests_send,
        RecvChannelsConfiguration {
            max_buffered_payloads_count_per_channel: max,
            clear_stale_received_payloads: clear,
        },
    );
    (connection, AsyncSide { bytes_send, close_recv, reports_send, requests_recv })
}

fn payload(text: &str) -> Bytes {
    Bytes::copy_from_slice(text.as_bytes())
}

#[test]
fn outbox_reports_full_and_closed_queues() {
    let (send, mut recv) = mpsc::channel(1);
    let mut outbox = Outbox::new(send);
    assert_eq!(outbox.try_send(1u32), Ok(()));
    assert_eq!(outbox.try_send(2u32), Err(AsyncChannelError::FullQueue));
    assert_eq!(recv.try_recv(), Ok(1));
    assert_eq!(outbox.try_send(3u32), Ok(()));
    drop(recv);
    assert_eq!(outbox.try_send(4u32), Err(AsyncChannelError::InternalChannelClosed));
}

#[test]
fn each_failure_to_send_has_its_error() {
    assert_eq!(send_result::<u8>(Ok(())), Ok(()));
    assert_eq!(send_result(Err(SendFailure::Full(1u8))), Err(AsyncChannelError::FullQueue));
    assert_eq!(
        send_result(Err(SendFailure::Closed(1u8))),
        Err(AsyncChannelError::InternalChannelClosed)
    );
}

#[test]
fn inbox_drains_in_order_up_to_the_limit() {
    let (send, recv) = mpsc::channel(10);
    let mut inbox = Inbox::new(recv);
    assert_eq!(inbox.try_recv(), Err(RecvFailure::Empty));
    for i in 0u32..5 {
        send.try_send(i).unwrap();
    }
    assert_eq!(inbox.drain(3), vec![0, 1, 2]);
    assert_eq!(inbox.try_recv(), Ok(3));
    assert_eq!(inbox.drain(0), Vec::<u32>::new());
    drop(send);
    assert_eq!(inbox.drain(10), vec![4]);
    assert_eq!(inbox.try_recv(), Err(RecvFailure::Disconnected));
}

#[test]
fn broadcaster_knows_whether_someone_listens() {
    let (send, mut recv) = broadcast::channel(4);
    let mut broadcaster = Broadcaster::new(send);
    assert!(broadcaster.send(5u8));
    assert_eq!(recv.try_recv(), Ok(5));
    drop(recv);
    assert!(!broadcaster.send(6u8));
}

#[test]
fn pool_gives_the_smallest_id_and_keeps_the_first_as_default() {
    let mut pool = ChannelsIdsPool::new();
    assert_eq!(pool.default_channel(), None);
    assert_eq!(pool.take_id(), Ok(0));
    assert_eq!(pool.default_channel(), Some(0));
    assert_eq!(pool.take_id(), Ok(1));
    assert_eq!(pool.take_id(), Ok(2));
    pool.release_id(1);
    assert_eq!(pool.default_channel(), Some(0));
    assert_eq!(pool.take_id(), Ok(1));
    pool.release_id(0);
    assert_eq!(pool.default_channel(), None);
    pool.set_default_channel(2);
    assert_eq!(pool.default_channel(), Some(2));
    assert_eq!(pool.take_id(), Ok(0));
    assert_eq!(pool.default_channel(), Some(2));
}

#[test]
fn releasing_undoes_taking() {
    let mut pool = ChannelsIdsPool::new();
    assert_eq!(pool.take_id(), Ok(0));
    pool.release_id(0);
    assert_eq!(pool.default_channel(), None);
    assert_eq!(pool.take_id(), Ok(0));
}

#[test]
fn pool_runs_out_of_ids() {
    let mut pool = ChannelsIdsPool::new();
    for id in 0u16..256 {
        assert_eq!(pool.take_id(), Ok(id as u8));
    }
    assert_eq!(pool.take_id(), Err(ChannelCreationError::MaxChannelsCountReached));
    pool.release_id(200);
    assert_eq!(pool.take_id(), Ok(200));
}

#[test]
fn channels_configuration_holds_as_many_channels_as_there_are_ids() {
    assert_eq!(SendChannelsConfiguration::new().configs().len(), 0);
    let most = SendChannelsConfiguration::from_configs(vec![ChannelConfig::Unreliable; 256]);
    assert_eq!(most.unwrap().clone().configs().len(), 256);
    let too_many = SendChannelsConfiguration::from_configs(vec![ChannelConfig::Unreliable; 257]);
    assert!(too_many.is_none());
}

#[test]
fn channel_hands_payloads_on_in_order() {
    let (send, mut recv) = mpsc::channel(2);
    let (close_send, mut close_recv) = mpsc::channel(1);
    let mut channel =
        Channel { id: 3, sender: Outbox::new(send), close_sender: Outbox::new(close_send) };
    assert_eq!(channel.send_payload(payload("a")), Ok(()));
    assert_eq!(channel.send_payload(payload("b")), Ok(()));
    assert_eq!(channel.send_payload(payload("c")), Err(AsyncChannelError::FullQueue));
    assert_eq!(recv.try_recv().unwrap(), payload("a"));
    assert_eq!(recv.try_recv().unwrap(), payload("b"));
    assert!(recv.try_recv().is_err());
    assert_eq!(channel.close(), Ok(()));
    assert_eq!(close_recv.try_recv(), Ok(()));
    drop(close_recv);
    assert_eq!(channel.close(), Err(AsyncChannelError::InternalChannelClosed));
}

#[test]
fn sending_needs_a_registered_channel() {
    let (mut connection, mut tasks) = connection(10, false);
    assert_eq!(
        connection.internal_send_payload(4, payload("x")),
        Err(ConnectionSendError::InvalidChannelId(4))
    );
    assert_eq!(connection.create_connection_channel(4, ChannelConfig::Unreliable), Ok(()));
    assert_eq!(connection.internal_send_payload(4, payload("x")), Ok(()));
    assert_eq!(connection.internal_send_payload(4, payload("y")), Ok(()));
    assert_eq!(
        connection.internal_send_payload(3, payload("x")),
        Err(ConnectionSendError::InvalidChannelId(3))
    );
    let ChannelSyncMessage::CreateChannel {
        id,
        config,
        mut bytes_to_channel_recv,
        channel_close_recv,
    } = tasks.requests_recv.try_recv().unwrap();
    assert_eq!(id, 4);
    assert_eq!(config, ChannelConfig::Unreliable);
    assert_eq!(bytes_to_channel_recv.try_recv().unwrap(), payload("x"));
    assert_eq!(bytes_to_channel_recv.try_recv().unwrap(), payload("y"));
    drop(bytes_to_channel_recv);
    drop(channel_close_recv);
    assert_eq!(
        connection.internal_send_payload(4, payload("z")),
        Err(ConnectionSendError::AsyncChannelError(AsyncChannelError::InternalChannelClosed))
    );
}

#[test]
fn the_queue_of_a_channel_has_room_for_so_many_payloads() {
    let (mut connection, _tasks) = connection(10, false);
    connection.create_connection_channel(0, ChannelConfig::Unreliable).unwrap();
    for _ in 0..150 {
        assert_eq!(connection.internal_send_payload(0, payload("x")), Ok(()));
    }
    assert_eq!(
        connection.internal_send_payload(0, payload("x")),
        Err(ConnectionSendError::AsyncChannelError(AsyncChannelError::FullQueue))
    );
}

#[test]
fn channels_that_cannot_be_asked_for_are_not_registered() {
    let (mut connection, tasks) = connection(10, false);
    for id in 0u8..3 {
        assert_eq!(connection.create_connection_channel(id, ChannelConfig::Unreliable), Ok(()));
    }
    assert_eq!(
        connection.create_connection_channel(3, ChannelConfig::Unreliable),
        Err(AsyncChannelError::FullQueue)
    );
    assert_eq!(
        connection.internal_send_payload(3, payload("x")),
        Err(ConnectionSendError::InvalidChannelId(3))
    );
    drop(tasks);
    let refused = connection.create_unregistered_connection_channel(3, ChannelConfig::Unreliable);
    assert!(refused.is_err());
}

#[test]
fn closing_a_channel_removes_it() {
    let (mut connection, mut tasks) = connection(10, false);
    assert_eq!(
        connection.internal_close_channel(1),
        Err(ChannelCloseError::InvalidChannelId(1))
    );
    connection.create_connection_channel(1, ChannelConfig::Unreliable).unwrap();
    let ChannelSyncMessage::CreateChannel { mut channel_close_recv, .. } =
        tasks.requests_recv.try_recv().unwrap();
    assert_eq!(connection.internal_close_channel(1), Ok(()));
    assert_eq!(channel_close_recv.try_recv(), Ok(()));
    assert_eq!(
        connection.internal_send_payload(1, payload("x")),
        Err(ConnectionSendError::InvalidChannelId(1))
    );
    connection.create_connection_channel(1, ChannelConfig::Unreliable).unwrap();
    drop(tasks.requests_recv.try_recv().unwrap());
    assert_eq!(
        connection.internal_close_channel(1),
        Err(ChannelCloseError::AsyncChannelError(AsyncChannelError::InternalChannelClosed))
    );
    assert_eq!(
        connection.internal_close_channel(1),
        Err(ChannelCloseError::InvalidChannelId(1))
    );
}

#[test]
fn close_orders_are_heard_while_a_task_listens() {
    let (mut connection, mut tasks) = connection(10, false);
    assert_eq!(connection.close(CloseReason::PeerClosed), Ok(()));
    assert_eq!(tasks.close_recv.try_recv().unwrap(), CloseReason::PeerClosed);
    connection.try_close(CloseReason::LocalOrder);
    assert_eq!(tasks.close_recv.try_recv().unwrap(), CloseReason::LocalOrder);
    drop(tasks);
    assert_eq!(connection.close(CloseReason::LocalOrder), Err(ConnectionAlreadyClosed));
}

#[test]
fn payloads_are_read_in_the_order_in_which_they_came() {
    let (mut connection, tasks) = connection(10, false);
    for (channel, text) in [(0u8, "a"), (5, "b"), (0, "c"), (5, "d")] {
        tasks.bytes_send.try_send((channel, payload(text))).unwrap();
    }
    assert_eq!(connection.internal_receive_payload(0), None);
    assert_eq!(connection.dispatch_received_payloads_to_channel_buffers(), Ok(()));
    assert_eq!(connection.internal_receive_payload(0), Some(payload("a")));
    assert_eq!(connection.internal_receive_payload(5), Some(payload("b")));
    assert_eq!(connection.internal_receive_payload(0), Some(payload("c")));
    assert_eq!(connection.internal_receive_payload(0), None);
    assert_eq!(connection.internal_receive_payload(5), Some(payload("d")));
    assert_eq!(connection.internal_receive_payload(255), None);
}

#[test]
fn a_full_buffer_drops_later_payloads_with_an_error_each() {
    let (mut connection, tasks) = connection(2, false);
    for (channel, text) in [(1u8, "a"), (1, "b"), (2, "x"), (1, "c"), (1, "d")] {
        tasks.bytes_send.try_send((channel, payload(text))).unwrap();
    }
    assert_eq!(
        connection.dispatch_received_payloads_to_channel_buffers(),
        Err(vec![RecvChannelError::RecvChannelFull(1), RecvChannelError::RecvChannelFull(1)])
    );
    assert_eq!(connection.internal_receive_payload(1), Some(payload("a")));
    assert_eq!(connection.internal_receive_payload(1), Some(payload("b")));
    assert_eq!(connection.internal_receive_payload(1), None);
    assert_eq!(connection.internal_receive_payload(2), Some(payload("x")));
}

#[test]
fn a_buffer_without_room_drops_everything() {
    let (mut connection, tasks) = connection(0, false);
    tasks.bytes_send.try_send((0, payload("a"))).unwrap();
    assert_eq!(
        connection.dispatch_received_payloads_to_channel_buffers(),
        Err(vec![RecvChannelError::RecvChannelFull(0)])
    );
    assert_eq!(connection.internal_receive_payload(0), None);
}

#[test]
fn clearing_drops_what_waits() {
    for (clear, left) in [(true, None), (false, Some(payload("a")))] {
        let (mut connection, tasks) = connection(10, clear);
        tasks.bytes_send.try_send((0, payload("a"))).unwrap();
        connection.dispatch_received_payloads_to_channel_buffers().unwrap();
        connection.clear_stale_received_payloads();
        assert_eq!(connection.internal_receive_payload(0), left);
    }
    let (mut connection, tasks) = connection(10, false);
    tasks.bytes_send.try_send((0, payload("a"))).unwrap();
    connection.dispatch_received_payloads_to_channel_buffers().unwrap();
    connection.clear_received_payloads();
    assert_eq!(connection.internal_receive_payload(0), None);
}

#[test]
fn reports_are_taken_in_order() {
    let (mut connection, tasks) = connection(10, false);
    assert_eq!(connection.try_recv_from_channels(), Err(RecvFailure::Empty));
    tasks.reports_send.try_send(ChannelAsyncMessage::LostConnection).unwrap();
    tasks.reports_send.try_send(ChannelAsyncMessage::LostConnection).unwrap();
    assert_eq!(connection.try_recv_from_channels(), Ok(ChannelAsyncMessage::LostConnection));
    assert_eq!(connection.drain_channel_reports(), vec![ChannelAsyncMessage::LostConnection]);
    assert_eq!(connection.drain_channel_reports(), vec![]);
}

#[test]
fn a_reset_connection_starts_over() {
    let (mut connection, _tasks) = connection(10, false);
    connection.create_connection_channel(0, ChannelConfig::Unreliable).unwrap();
    let (bytes_send, bytes_recv) = mpsc::channel(10);
    let (close_send, mut close_recv) = broadcast::channel(10);
    let (reports_send, reports_recv) = mpsc::channel(10);
    let (requests_send, mut requests_recv) = mpsc::channel(10);
    connection.internal_reset(close_send, requests_send, reports_recv, bytes_recv, 1);
    assert_eq!(
        connection.internal_send_payload(0, payload("x")),
        Err(ConnectionSendError::InvalidChannelId(0))
    );
    connection.create_connection_channel(0, ChannelConfig::Unreliable).unwrap();
    assert!(requests_recv.try_recv().is_ok());
    bytes_send.try_send((0, payload("a"))).unwrap();
    connection.dispatch_received_payloads_to_channel_buffers().unwrap();
    assert_eq!(connection.internal_receive_payload(0), Some(payload("a")));
    reports_send.try_send(ChannelAsyncMessage::LostConnection).unwrap();
    assert_eq!(connection.drain_channel_reports().len(), 1);
    connection.close(CloseReason::LocalOrder).unwrap();
    assert_eq!(close_recv.try_recv().unwrap(), CloseReason::LocalOrder);
}

#[test]
fn errors_convert() {
    let full = AsyncChannelError::FullQueue;
    assert_eq!(ConnectionSendError::from(full), ConnectionSendError::AsyncChannelError(full));
    assert_eq!(ChannelCreationError::from(full), ChannelCreationError::AsyncChannelError(full));
    assert_eq!(ChannelCloseError::from(full), ChannelCloseError::AsyncChannelError(full));
}
