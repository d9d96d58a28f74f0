# Consul cluster coordinator

A cluster coordinator for a fleet of gateways that runs alongside HashiCorp Consul. It knows the
peers from the catalog, elects leaders and takes locks through sessions with fencing tokens, notifies
replicas over events, and keeps state in a key/value store whose values can expire.

- `src/` is the library, written in Verus. It makes every request to the Consul HTTP API as a plain
  value and says what every reply means; its contracts state exactly which request follows from which
  call and which result from which reply. What holds across calls stands as public proof functions:
  a read gives back what was written, an expired key is absent wherever it is read, no lease is
  granted with a token of zero, a renewal comes before the expiry, the keyspaces share no key, of
  all claims on a key exactly one is won whatever readers do meanwhile, replaying what a watch tells
  gives the catalog, a subscriber gets each event once and none of its own.
- `app/` is the program around it: HTTP, JSON, the clock of the async runtime, background tasks.
- `tests/` runs the library on concrete values.

What is trusted rather than proved is a handful of private wrappers: the wall clock and the RFC 3339
text in `src/time.rs`, base64 decoding and the length of a JSON array in `src/client.rs`, and the
reason phrase of a status in `src/http.rs`. Each says in its documentation what it claims.

The publisher, the routing key and the payload of an event travel in an envelope that the program embedding the
coordinator supplies (`EventCodec` in `app/`).
