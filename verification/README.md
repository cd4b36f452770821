# event_streams

Subscriptions to the event streams that a Matrix timeline displays, with the
decisions verified in Verus.

A message can announce an event stream: text that changes while the message is
on display, such as an answer that is still being written. The library keeps a
subscription to each stream that a timeline displays, shows the stream's text in
place of the message's body, and gives the subscription up when the message
leaves the timeline, when the stream ends, or when the user unsubscribes.

- `src/` decides: which streams are displayed, which are to be subscribed to or
  released, what an update of a stream changes. It performs no I/O. A refresh is
  a sequence of steps; each step takes the outcome of the last piece of outside
  work and names the next one. `src/laws.rs` and `src/run.rs` prove what holds of
  whole sequences of steps, with and without updates in between.
- `app/` carries the decisions out with tokio, on top of traits for the timeline
  and its room.
- `tests/` runs the library on concrete values.
