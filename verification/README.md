# ohmyserial

A serial hub: one real UART shared by many clients (PTY, TCP, WebSocket,
RFC 2217), with write arbitration, slow-reader policies and a byte-lossless,
SHA-256-chained event ledger.

The crate is written in Verus. Everything under `src/` is verified: each
public function carries a `requires`/`ensures` contract over mathematical
models (`Seq`, `Map`, `int`, views of the library's types), and Verus proves
the body against it, free of overflow and panics.

## Layout

- `src/` — the verified library.
  - `broker` — client registry, write admission and framing, leases,
    handoff, RX fan-out under the slow-client policies, and the events each
    decision records.
  - `config`, `policy`, `netaddr` — configuration validation, expansion and
    the endpoint catalog; loopback checks on bind addresses.
  - `schema`, `codec`, `store`, `ledger` — the event schema, base64, SHA-256
    and time stamps, the segment writer and verifier (hash chain, recovery of
    a torn segment), and the in-memory ring with its queries.
  - `workflow`, `runner`, `replay` — workflow definitions, run registry and
    the step machine; replay of recorded traffic.
  - `endpoint`, `rfc2217`, `bridge`, `serial`, `observe`, `api`,
    `supervisor`, `text` — per-endpoint decisions, Telnet/RFC 2217 decoding,
    device selection, log lines, API request checks and the supervisor's
    cross-profile checks.
- `tests/` — the tests, run against the compiled library.
- `app/` — the program around the library: argument handling, files,
  sockets, threads and the serial port. It holds no decisions of its own;
  it performs what the library decides and hands back what happened.

## Trusted boundary

Calls into outside crates (base64, sha2, chrono, uuid, getrandom, http) and
a few std functions stand behind small `#[verifier::external_body]`
wrappers; their contracts state what those crates document, and results
that take pages to state are named by uninterpreted spec functions. Each
wrapper's doc comment says what is assumed.

## Checking

Verus verifies `src/`; the tests run with the real outside crates linked.
