# bevy_websocket_adapter

Routes what a websocket transport receives into per-message-type queues for a
game loop, and delivers each queue to the consumer of its type.

- `src/shared/event.rs`: connection handles, envelopes, network events.
- `src/shared/resources.rs`: `Connections`, the message queues keyed by type
  name, with its view as a map and the invariant that no key is stored twice.
- `src/systems.rs`: routing a batch of received events, draining connection
  events, delivering a queue to its consumer, and the laws that relate them.
- `src/client.rs`: the client's decisions: the URL a connection goes to,
  which socket reads become events, what the writer does with each polled
  item, and when the client runs.
- `app/`: the websocket client's socket task (tokio, tungstenite), the engine plugin and
  systems, JSON decoding of envelopes, and the registry of message types.
