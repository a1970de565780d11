# anycms_event

An event bus for AnyCMS, with its decision logic verified by Verus.

`src/` is the verified library:

- `topic` — topic patterns (`*` one segment, `**` any number) and matching.
- `json`, `condition` — a JSON model and trigger conditions over payloads
  (`$eq`, `$ne`, `$gt`, `$gte`, `$lt`, `$lte`, `$in`, `$contains`, dotted
  paths), within limits on depth, operator count and string length.
- `trigger` — trigger rules, a rule store kept in priority order, and the
  engine that picks the actions an event sets off.
- `registry` — the registry of event types, with filtered, name-ordered,
  paginated queries.
- `execution_log` — a ring buffer of publish and handler records, queries
  newest first, and the telemetry that writes it.
- `bus` — retry backoff, the retry and dead-letter decisions of a handler
  run, what a pattern subscriber does with what it receives, and the
  registry bookkeeping of publishes and subscriptions.
- `sse` — event filters and the server-sent-event wire frame.
- `redis_bridge` — channel names, the echo check, source ids and the
  reconnect backoff of the Redis bridge.
- `naming` — default event names and topics from type names.
- `bus_def` — the `event_bus!` grammar: `bus B { event N { f: T, .. }
  topic m => [T, ..] }` over the macro's tokens.
- `text`, `sort` — character-sequence helpers and a verified stable sort.

`app/` runs it: the tokio event bus and its subscriber tasks, the trigger
engine's action handlers, the Redis transport, SSE streams, Axum and Actix
glue, serde and thiserror forms of the library's types, and tracing and
Prometheus telemetry.

`tests/` exercise the library.
