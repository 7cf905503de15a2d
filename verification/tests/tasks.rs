use bevy_iroh::shared::channels::tasks::{
    spawner_step, SpawnerAction, SpawnerEvent, SpawnerState, CLOSE_CODE,
};
use bevy_iroh::shared::channels::{ChannelConfig, ChannelSyncMessage};
use bytes::Bytes;
use tokio::sync::mpsc;

fn request(id: u8, config: ChannelConfig) -> (ChannelSyncMessage, mpsc::Sender<Bytes>) {
    let (send, bytes_to_channel_recv) = mpsc::channel(4);
    let (_close_send, channel_close_recv) = mpsc::channel(1);
    (
        ChannelSyncMessage::CreateChannel { id, config, bytes_to_channel_recv, channel_close_recv },
        send,
    )
}

#[test]
fn each_config_starts_its_own_task() {
    let mut state = SpawnerState::Listening;
    let (message, send) = request(1, ChannelConfig::OrderedReliable { max_frame_size: 64 });
    match spawner_step(&mut state, SpawnerEvent::Request(message)) {
        SpawnerAction::StartOrderedReliable(mut data, size) => {
            assert_eq!(data.id, 1);
            assert_eq!(size, 64);
            send.try_send(Bytes::from_static(b"x")).unwrap();
            assert_eq!(data.bytes_recv.try_recv().unwrap(), Bytes::from_static(b"x"));
        }
        _ => panic!("wrong task"),
    }
    let (message, _send) = request(2, ChannelConfig::UnorderedReliable { max_frame_size: 65 });
    match spawner_step(&mut state, SpawnerEvent::Request(message)) {
        SpawnerAction::StartUnorderedReliable(data, size) => {
            assert_eq!((data.id, size), (2, 65));
        }
        _ => panic!("wrong task"),
    }
    let (message, _send) = request(3, ChannelConfig::Unreliable);
    match spawner_step(&mut state, SpawnerEvent::Request(message)) {
        SpawnerAction::StartUnreliable(data) => assert_eq!(data.id, 3),
        _ => panic!("wrong task"),
    }
    assert_eq!(state, SpawnerState::Listening);
}

#[test]
fn a_close_signal_ends_the_task_after_its_channels() {
    for event in [SpawnerEvent::CloseSignal, SpawnerEvent::RequestsEnded] {
        let mut state = SpawnerState::Listening;
        assert!(matches!(
            spawner_step(&mut state, SpawnerEvent::ChannelsEnded),
            SpawnerAction::Nothing
        ));
        assert!(matches!(spawner_step(&mut state, event), SpawnerAction::AwaitChannels));
        assert_eq!(state, SpawnerState::Draining);
        let (message, _send) = request(1, ChannelConfig::Unreliable);
        assert!(matches!(
            spawner_step(&mut state, SpawnerEvent::Request(message)),
            SpawnerAction::Nothing
        ));
        assert!(matches!(
            spawner_step(&mut state, SpawnerEvent::ChannelsEnded),
            SpawnerAction::CloseConnection(CLOSE_CODE, "closed")
        ));
        assert_eq!(state, SpawnerState::Ended);
        assert!(matches!(
            spawner_step(&mut state, SpawnerEvent::ChannelsEnded),
            SpawnerAction::Nothing
        ));
    }
}
