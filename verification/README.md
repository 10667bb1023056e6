# xanq

A simple embeddable message queue, verified with Verus.

Addresses name queues. The first operation on an address fixes its delivery
mode: **anycast** addresses have one queue shared by all subscribers, so each
message is consumed once; **broadcast** addresses give every subscriber its own
queue, so each message reaches every current subscriber.

## Layout

- `src/` — the verified library.
  - `queue.rs`: the FIFO queue whose messages keep stable ids.
  - `server.rs`: the server state (`ServerInner`) and its produce / subscribe /
    consume / unsubscribe operations, specified over `ServerView`.
  - `agent.rs`: one connection's `Session`: the reply to each request frame,
    and the subscriptions it owns.
  - `client.rs`: what a client makes of the server's replies.
  - `frame.rs`: the protocol frames, their `{:?}` rendering, the length header.
  - `error.rs`, `text.rs`: error values and the rendering of their messages.
  - `payload.rs`: what the library relies on of `bytes::Bytes`.
  - `laws.rs`: properties that span several operations.
- `app/` — the async, networked API (`Server`, `Client`, `Agent`, the
  `Producer` / `Consumer` traits) on Tokio, and the `xancode` wire encoding of
  frames. It holds the library's state behind one lock and calls into it.
- `tests/` — tests of the library.
