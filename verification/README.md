# arcrelay-network

The LAN runtime of ArcRelay: one device identity, one discovery service and one
QUIC listener for every feature of the product.

* `src/` is the library. It holds every decision of the runtime as verified Verus
  code: identities and their signatures, the session handshake, the registry of
  live sessions, pairing and grants, what is announced and read over DNS-SD, which
  endpoints are remembered and dialed, the LAN scan, and the limits on all of it.
  Contracts speak of plain mathematical values. Proof functions whose names begin
  with `law_` state what holds across several functions.
* `tests/` runs the library on concrete values.
* `app/` is the program around it: sockets, TLS, tasks, timers, files and the SQLite
  tables. It hands in what they gave and carries out what was decided. It builds
  inside the product's workspace, next to `arcrelay_peer`, `arcrelay_transport` and
  `arcrelay_wire`.

What the library takes from other crates stands behind a few trusted functions in
`src/primitives.rs` and `src/dns_sd.rs`: SHA-256, Ed25519, base64, certificates,
random numbers, the clock, and the records of the mDNS daemon. Each says in its
comment what is believed of the call that it makes.
