# opcgw

Verified core of the web surface of an OPC UA / ChirpStack gateway.

- `src/` — the library, verified with Verus: configuration topology and
  dashboard snapshot, request validation, the edits of the configuration
  TOML document (create / update / delete of applications and devices,
  metric lists included: each edit is composed of single `toml_edit`
  calls, each stating its effect on a model of the document's tables,
  and proved against that model),
  HTTP Basic authentication with HMAC-SHA-256 digests, the CSRF check,
  the ChirpStack drift diff, the inventory query rules, command records
  and storage-latency budgets.
- `app/` — the axum server around it: routing, middleware, handlers, the
  atomic configuration file writer, and the services the web layer
  consumes from the rest of the gateway.
- `tests/` — tests of the library on concrete values.
