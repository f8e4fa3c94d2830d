# event_pipeline

A booking-event pipeline and a topic-based event bus, verified with Verus.

Library (`src/`, verified):

- `event` — events, and wildcard matching of subscription patterns against topics.
- `registry` — the subscription table shared by both buses: ids, patterns, matching.
- `tokio_channel`, `flume_channel` — the two halves of a subscriber's channel,
  named as one channel, with a record of the events offered through the sender.
- `tokio_bus`, `flume_bus` — event buses over tokio and flume channels; each
  subscriber gets the receiver of its own channel, and publishing offers an
  event to the channel of exactly the subscribers whose pattern selects its
  topic. Laws over any sequence of calls: ids are distinct and never come
  back, and subscribers with one pattern are offered the same events.
- `notifier_event` — notifier events and their topics, with the laws that tie
  booking patterns to topics.
- `pipeline` — booking events, step decisions, the concrete steps.
- `run` — a pipeline run as a state machine that hands out one notification at a
  time; its model `pipeline_outcome` says what a whole run publishes and returns.
- `pipeline_laws` — laws about runs: success, executed steps, notification counts.
- `uuidv7` — time-ordered identifiers.

Application (`app/`): the async bus behind a lock, the notifier, the async
pipeline driver, serializable copies of notifier events, and a demo `main`.
