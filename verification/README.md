# airbyte-to-flow

Runs Airbyte source connectors for a system that speaks the Flow capture protocol. Requests of
that protocol become calls of the connector and the files that it reads; the connector's messages
become responses.

- `src/` is the library, verified with Verus. It decides, on plain values: which operation a
  request asks for and how the connector is called for it (`interceptor`), what a connector says
  of itself with the patches beside it (`spec_response`), which bindings discovery offers
  (`discover`, `names`, `resource`), the catalog that a capture asks for and the responses that
  messages become (`pull`), which messages of a connector count (`stream`), and how state is
  persisted and handed back (`state`). JSON values are `json::Json`; merge patches are in `merge`.
- `app/` reads and writes files and streams, and carries out what the library decides.
- `tests/` runs the library.

What the library takes on trust of `serde_json`, `json_patch` and the standard library stands in
`serde_bridge`, `merge`, `names` and `text`, each item with what is claimed of it.
