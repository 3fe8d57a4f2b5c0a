# rapidlog

An asynchronous logging library: caller threads encode their log arguments into
per-thread byte queues, and a backend worker drains the queues, orders the
records by timestamp, filters them, formats them and hands the lines to sinks.

`src/` is the library, verified with Verus:

- `arg/` — the schema bytecode that describes argument types, the `Encode` impls
  that write values, and the formatter that renders encoded values back to text;
  `arg/laws.rs` and `arg/schema_laws.rs` state what formatting gives back of what
  encoding wrote, and which schemas delimit themselves; `arg/decode_laws.rs`, what
  decoding a whole message gives back of its encoded arguments; `arg/shape.rs` builds the
  schema, string table and encoding of a user struct or enum from its shape (what
  deriving `Encode` writes), and `arg/shape_laws.rs` states how such values
  format back.
- `queue.rs`, `ring.rs` — framing of messages into cache-line padded frames on an
  `rtrb` byte ring buffer, and the producer and consumer halves of a queue block;
  `queue_laws.rs` states that a block is first in, first out: pops give back the
  pushed messages, in order.
- `thread_context.rs` — a thread's queue context: bounded or growing blocks, and
  draining a registry of blocks in order.
- `message.rs` — the fixed record header.
- `backend.rs` — ordering a batch by timestamp, level and filter decisions, and the
  line layout; `formatter.rs` — pattern layouts.
- `filter.rs`, `level.rs`, `logger.rs`, `frontend.rs`, `metadata.rs`, `sinks/`,
  `timestamp.rs`, `text.rs`, `config.rs`.

Formatted lines are token sequences: bytes, plus float tokens that carry the bits
of `f32` and `f64` values, which the caller prints.

`app/` holds what the verifier does not see: the thread-local contexts and global
registries, the backend thread, the console and file sinks, the logging macros,
and the `Display`/`Debug` argument wrappers.
