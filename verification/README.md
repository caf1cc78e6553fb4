# policy_controller

The controller of a fleet of network policy agents: it enrolls nodes, issues and
revokes their certificates, keeps the policy rules of each node and reconciles them
with what its agent reports.

- `src/` is a library proved with Verus. Every function states its contract; what holds
  of several functions together stands in public proof functions, mostly in the `laws`
  modules. Time, random numbers and messages come in as arguments or through the few
  functions marked `external_body`, whose contracts say what is taken on trust.
- `tests/` runs the library on concrete values, with the real cryptography and JSON
  crates underneath.
- `app/` is the running controller around the library: the SQLite store, TLS, the gRPC
  streams and the HTTP server. It is ordinary Rust; what it decides it asks the library.

A store is anything that implements `store::ControllerStore`. The contracts of the
functions that work on a store say what holds of every store, and are exact for one that
never fails on its own (`dependable`), such as the store in memory.
