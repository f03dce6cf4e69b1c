# g3icap

An ICAP (RFC 3507) server library whose protocol logic is verified with Verus.

## Layout

- `src/` — the verified library.
  - `text.rs`, `keyed.rs`, `bridge.rs`: byte and character helpers; `bridge.rs`
    holds the few trusted calls into std and the `http` crate, each with the
    contract it is believed to meet.
  - `protocol/`: chunked transfer coding (incremental decoder and encoder),
    ICAP header fields, request and response parsing and serialisation, the
    Encapsulated header, OPTIONS/REQMOD/RESPMOD handlers, content-filter
    workflows, streaming decoders, error answers, and the read-back laws
    (`roundtrip.rs`, `ip_roundtrip.rs`).
  - `server/`: the connection logic that turns a parsed request into an
    answer, the listener's address, and the filter handler.
  - `service.rs`, `services.rs`, `stats.rs`: service registry, health checks,
    load balancing and counters.
- `tests/` — tests run against the compiled library.
- `app/` — the asynchronous I/O around the library: sockets, the accept loop,
  reading requests and writing answers, and copies of library types that
  carry outside derives.

## Checking

Every function in `src/` is verified by Verus against its `requires` /
`ensures` contract. Laws that span several calls (for example, that a chunked
body fed in two pieces decodes as it does in one call, or that written header
fields read back unchanged) are public proof functions in the modules they
concern.
