# dnser

A DNS forwarding resolver. Queries arrive over UDP and TCP, are answered
from a TTL-aware cache when possible, and are otherwise raced across the
configured upstream resolvers; the first valid reply wins and is cached,
including negative answers (RFC 2308).

## Layout

- `src/` is the library, verified with Verus:
  - `proto/` — the DNS wire format (RFC 1035, EDNS(0) per RFC 6891): header,
    questions, records, name compression, parsing and writing, and the proof
    that writing a well-formed message and parsing the bytes gives it back
    (`proto/roundtrip.rs`).
  - `cache.rs` — the response cache: keys that ignore ASCII case, positive and
    negative TTLs, aging of TTLs on a hit, expiry, eviction when full.
  - `server.rs` — how a query is answered: BADVERS, SERVFAIL and truncated
    replies, the server's OPT record, cache hits, upstream answers, and the
    UDP size limit.
  - `resolver.rs` — the table of in-flight query IDs, the bytes sent
    upstream, the checks on a reply, and the race between upstreams.
  - `net.rs` — DNS-over-TCP length-prefix framing.
  - `config.rs` — configuration types, defaults and checks.
  - `cli.rs` — the command line.
  - `testing/` — queries, records, replies and mock-upstream responses for tests.
- `app/` is the program around it: sockets, tasks, timers, the configuration
  file, logging and signals.
- `tests/` exercise the library on concrete values.
