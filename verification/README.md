# bevy_iroh

Peer-to-peer game networking with [iroh](https://www.iroh.computer), for the Bevy
game engine, with a core that is verified with Verus.

- `src/` is the verified library. `server` and `client` hold the state of both
  sides: endpoints, connections, channels, buffers and their events. `shared`
  holds what they have in common. `config` configures iroh endpoints. The files
  named `laws.rs` state what holds of the whole.
- `tests/` runs the library with real tokio queues and iroh endpoints.
- `app/` is the Bevy side: plugins, resources, systems, and the async tasks that
  bind, accept, connect and move bytes. The wire protocol of the channels is a
  parameter of it, the trait `ChannelTasks`.

## Model

The synchronous side and the async tasks exchange messages through tokio queues.
What a queue does rests on the task at its other end. So the contracts speak of
histories: an `Outbox`, an `Inbox` and a `Broadcaster` know every call that they
made of their queue, with the answer that tokio gave. A view such as
`ServerEndpointView` or `PeerConnectionView` is built on these histories, and each
operation says how the view changes for each outcome: what was offered to which
queue, what was asked of it, and how the result follows from the answers. Where a
connection, a channel or an endpoint is dropped, its history goes with it. There
the contract speaks of the calls themselves: `queue_answered` and `listeners_told`
say what tokio answered to a call on a given half of a queue.

What the async tasks decide is in the library too: functions such as
`endpoint_task_step`, `client_task_step`, `connecting_step` and `watching_step`
take a state and an event, and give the next state and what to do. The tasks in
`app/` do it, and hand back what happened.

What is not proved stands in items marked `external_body` or written as
`assume_specification`. Each names the outside function that it speaks of: queues
of tokio, buffers of bytes, hash maps of Bevy, and endpoints, keys and addresses
of iroh.
