# lclq

A local queue service that speaks the AWS SQS protocol (query/XML and JSON
1.0), with an in-memory store and an SQLite store.

## Layout

- `src/` — the library, verified with Verus:
  - `text.rs`, `dict.rs` — strings, decimal numbers, and a small ordered map
    with distinct keys.
  - `receipt.rs` — receipt handles and how they are read back.
  - `types/` — messages, queue configurations, validation of names and sizes.
  - `sqs/request.rs` — reading form-encoded and JSON requests.
  - `sqs/response.rs`, `sqs/xml.rs`, `sqs/json.rs`, `sqs/json_response.rs` —
    XML responses, XML escaping, JSON text, and the JSON form of a response;
    `sqs/receive_round_trip.rs` — what a JSON client reads back from a
    ReceiveMessage answer.
  - `sqs/handler.rs` — queue attributes: creating a configuration, applying
    `SetQueueAttributes`, listing `GetQueueAttributes`.
  - `sqs/actions.rs` — what each action reads from a request, hands to the
    store, and answers.
  - `storage/memory.rs` — the in-memory store; `storage/laws.rs` — what holds
    of it over several operations; `storage/sqlite.rs` — the decisions of the
    SQLite store.
- `app/` — the HTTP server, the async store interface, the SQLite queries,
  and the JSON reading with serde.
- `tests/` — tests of the library.
