use bevy_iroh::server::messages::{
    ServerGroupMessageSendError, ServerMessageReceiveError, ServerMessageSendError,
};
use bevy_iroh::server::{
    dispatch_received_payloads, handle_server_events, new_client_connection,
    ClientConnectionTaskData, IrohServer, ServerGroupSendError, ServerReceiveError,
    ServerSendError,
};
use bevy_iroh::shared::channels::{
    ChannelConfig, ChannelSyncMessage, SendChannelsConfiguration,
};
use bevy_iroh::shared::peer_connection::RecvChannelsConfiguration;
use bevy_iroh::shared::InternalConnectionRef;
use bincode::error::{DecodeError, EncodeError};
use bytes::Bytes;
use tokio::runtime::Runtime;
use tokio::sync::mpsc;

const CFG: RecvChannelsConfiguration = RecvChannelsConfiguration {
    max_buffered_payloads_count_per_channel: 10,
    clear_stale_received_payloads: false,
};

fn server(channels: usize) -> (IrohServer, ClientConnectionTaskData, Runtime) {
    let runtime =
        tokio::runtime::Builder::new_multi_thread().worker_threads(1).enable_all().build().unwrap();
    let endpoint = runtime
        .block_on(
            iroh::Endpoint::builder(iroh::endpoint::presets::Minimal)
                .relay_mode(iroh::RelayMode::Disabled)
                .bind(),
        )
        .unwrap();
    let mut server = IrohServer::new();
    let configs =
        SendChannelsConfiguration::from_configs(vec![ChannelConfig::Unreliable; channels]).unwrap();
    let task = match server.start_endpoint(Ok(endpoint), configs, CFG) {
        Ok((_, task)) => task,
        Err(e) => panic!("{:?}", e),
    };
    let handle = InternalConnectionRef {
        stable_id: 1,
        remote_id: iroh::SecretKey::from_bytes(&[1; 32]).public(),
    };
    let (message, data) = new_client_connection(handle, CFG);
    task.to_sync_endpoint_send.try_send(message).unwrap();
    assert_eq!(handle_server_events(&mut server).connection_events.len(), 1);
    (server, data, runtime)
}

fn encode(message: &(u32, String)) -> Result<Vec<u8>, EncodeError> {
    bincode::serde::encode_to_vec(message, bincode::config::standard())
}

fn decode(bytes: &[u8]) -> Result<((u32, String), usize), DecodeError> {
    bincode::serde::decode_from_slice(bytes, bincode::config::standard())
}

fn bad() -> Result<Vec<u8>, EncodeError> {
    Err(EncodeError::Other("no"))
}

fn message(n: u32) -> (u32, String) {
    (n, format!("message {}", n))
}

fn queue(data: &mut ClientConnectionTaskData) -> mpsc::Receiver<Bytes> {
    let ChannelSyncMessage::CreateChannel { bytes_to_channel_recv, .. } =
        data.to_channels_recv.try_recv().unwrap();
    bytes_to_channel_recv
}

#[test]
fn a_message_is_sent_encoded() {
    let (mut server, mut data, _runtime) = server(1);
    let mut bytes = queue(&mut data);
    let endpoint = server.endpoint_mut();
    assert_eq!(endpoint.send_message(1, encode(&message(1))), Ok(()));
    assert_eq!(endpoint.send_message_on(1, 0, encode(&message(2))), Ok(()));
    endpoint.try_send_message(1, encode(&message(3)));
    endpoint.try_send_message_on(1, 0, encode(&message(4)));
    endpoint.try_send_message(1, bad());
    for n in 1..5 {
        let payload = bytes.try_recv().unwrap();
        assert_eq!(decode(&payload).unwrap().0, message(n));
    }
    assert!(bytes.try_recv().is_err());
}

#[test]
fn sending_a_message_names_what_is_missing() {
    let (mut server, _data, _runtime) = server(0);
    let endpoint = server.endpoint_mut();
    assert_eq!(
        endpoint.send_message(1, bad()),
        Err(ServerMessageSendError::NoDefaultChannel)
    );
    assert_eq!(
        endpoint.send_message_on(1, 0, bad()),
        Err(ServerMessageSendError::Serialization)
    );
    assert_eq!(
        endpoint.send_message_on(8, 0, encode(&message(1))),
        Err(ServerMessageSendError::SendError(ServerSendError::UnknownClient(8)))
    );
    assert_eq!(
        endpoint.send_group_message(&[1], encode(&message(1))),
        Err(ServerGroupMessageSendError::NoDefaultChannel)
    );
    assert_eq!(
        endpoint.broadcast_message(encode(&message(1))),
        Err(ServerGroupMessageSendError::NoDefaultChannel)
    );
    endpoint.try_send_group_message(&[1], encode(&message(1)));
    endpoint.try_broadcast_message(encode(&message(1)));
}

#[test]
fn group_messages_reach_their_clients() {
    let (mut server, mut data, _runtime) = server(1);
    let mut bytes = queue(&mut data);
    let endpoint = server.endpoint_mut();
    assert_eq!(endpoint.send_group_message(&[1], encode(&message(1))), Ok(()));
    assert_eq!(
        endpoint.send_group_message_on(&[1, 6], 0, encode(&message(2))),
        Err(ServerGroupMessageSendError::GroupSendError(ServerGroupSendError(vec![(
            6,
            ServerSendError::UnknownClient(6)
        )])))
    );
    endpoint.try_send_group_message(&[1], encode(&message(3)));
    endpoint.try_send_group_message_on(&[1], 0, encode(&message(4)));
    assert_eq!(endpoint.broadcast_message(encode(&message(5))), Ok(()));
    assert_eq!(endpoint.broadcast_message_on(0, encode(&message(6))), Ok(()));
    endpoint.try_broadcast_message(encode(&message(7)));
    endpoint.try_broadcast_message_on(0, encode(&message(8)));
    assert_eq!(
        endpoint.send_group_message_on(&[1], 0, bad()),
        Err(ServerGroupMessageSendError::Serialization)
    );
    assert_eq!(
        endpoint.broadcast_message_on(0, bad()),
        Err(ServerGroupMessageSendError::Serialization)
    );
    for n in 1..9 {
        assert_eq!(decode(&bytes.try_recv().unwrap()).unwrap().0, message(n));
    }
    assert!(bytes.try_recv().is_err());
}

#[test]
fn a_message_is_received_decoded() {
    let (mut server, data, _runtime) = server(1);
    let mut send = |channel: u8, payload: Vec<u8>| {
        data.bytes_from_client_send.try_send((channel, Bytes::from(payload))).unwrap();
    };
    send(0, encode(&message(1)).unwrap());
    send(0, encode(&message(2)).unwrap());
    send(4, encode(&message(3)).unwrap());
    send(4, vec![1]);
    send(4, encode(&message(4)).unwrap());
    send(4, vec![1]);
    assert_eq!(dispatch_received_payloads(&mut server), vec![]);
    let endpoint = server.endpoint_mut();
    assert_eq!(endpoint.receive_message(1, decode), Ok(Some(message(1))));
    assert_eq!(endpoint.try_receive_message(1, decode), Some(message(2)));
    assert_eq!(endpoint.receive_message(1, decode), Ok(None));
    assert_eq!(endpoint.receive_message_from(1, 4, decode), Ok(Some(message(3))));
    // A payload that is no message is gone all the same.
    assert_eq!(
        endpoint.receive_message_from(1, 4, decode),
        Err(ServerMessageReceiveError::Deserialization)
    );
    assert_eq!(endpoint.try_receive_message_from(1, 4, decode), Some(message(4)));
    assert_eq!(endpoint.try_receive_message_from(1, 4, decode), None);
    assert_eq!(endpoint.receive_message_from(1, 4, decode), Ok(None));
    assert_eq!(
        endpoint.receive_message_from(2, 4, decode),
        Err(ServerMessageReceiveError::ReceiveError(ServerReceiveError::UnknownClient(2)))
    );
}

#[test]
fn receiving_a_message_undoes_sending_it() {
    let (mut server, mut data, _runtime) = server(1);
    let mut bytes = queue(&mut data);
    for n in 1..4u32 {
        assert_eq!(server.endpoint_mut().send_message_on(1, 0, encode(&message(n))), Ok(()));
        let mut payload = bytes.try_recv().unwrap().to_vec();
        assert_eq!(payload, encode(&message(n)).unwrap());
        // Bytes after the message do not matter.
        payload.extend(vec![n as u8; n as usize - 1]);
        data.bytes_from_client_send.try_send((7, Bytes::from(payload))).unwrap();
    }
    assert_eq!(dispatch_received_payloads(&mut server), vec![]);
    for n in 1..4u32 {
        let received = server.endpoint_mut().receive_message_from(1, 7, decode);
        assert_eq!(received, Ok(Some(message(n))));
    }
    assert_eq!(server.endpoint_mut().receive_message_from(1, 7, decode), Ok(None));
}

#[test]
fn receiving_needs_a_default_channel() {
    let (mut server, _data, _runtime) = server(0);
    let endpoint = server.endpoint_mut();
    assert_eq!(
        endpoint.receive_message(1, decode),
        Err(ServerMessageReceiveError::NoDefaultChannel)
    );
    assert_eq!(endpoint.try_receive_message(1, decode), None);
}

#[test]
fn message_errors_convert() {
    let unknown = ServerSendError::UnknownClient(1);
    assert_eq!(
        ServerMessageSendError::from(unknown),
        ServerMessageSendError::SendError(unknown)
    );
    assert_eq!(
        ServerGroupMessageSendError::from(ServerGroupSendError(vec![(1, unknown)])),
        ServerGroupMessageSendError::GroupSendError(ServerGroupSendError(vec![(1, unknown)]))
    );
    let error = ServerReceiveError::UnknownClient(1);
    assert_eq!(
        ServerMessageReceiveError::from(error),
        ServerMessageReceiveError::ReceiveError(error)
    );
}
