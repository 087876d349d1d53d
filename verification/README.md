# actor_framework

A small actor framework on tokio, and a tweet-analysis pipeline built on it:
a producer reads a tweet stream chunk by chunk, spreads the tweets over worker
actors that score them against a table of emotion values, and an aggregator
buffers the results for sinks that write them to PostgreSQL.

## Layout

- `src/` is the verified library (Verus). It holds the decisions and the data
  logic: the supervisor's reaction to actor events and the clean-up on
  restart (`actor/supervisor.rs`), the registry of abort handles and the
  stream-forwarding protocol (`actor/context.rs`), the broker's subscription
  map (`broker.rs`), byte and character scanning with UTF-8 and the decimal
  grammar (`scan.rs`), chunk parsing (`lab/utils.rs`, `utils.rs`), the emotion
  table (`utils.rs`), word scoring (`leacteur.rs`, `lab/leacteur.rs`), the
  producer's round-robin dispatch and scaling requests
  (`lab/message_producer.rs`), the worker pool and its ids
  (`actor_spawner.rs`), the aggregator's buffers (`lab/aggregator.rs`) and the
  sinks' plan (`lab/sink.rs`).
- `app/` is the program around it: the async runtime, addresses, channels,
  the actors themselves, HTTP, the database and `main`.
- `tests/` runs the library on concrete values.

## Notes

- The emotion table (`EmotionTable` in `utils.rs`) is a vector of distinct
  words with their values, searched from the front, so a lookup takes time
  linear in the size of the table. A `HashMap<String, i8>` would look words
  up in constant time, but Verus proves nothing of a map keyed by `String`;
  the vector lets the lookup, and the rule that a later line for the same
  word wins, be proved.
- The supervision loop in `app/actor/supervisor.rs` carries out, step by
  step, the plan that `SupervisorState::on_event` gives for each event.
