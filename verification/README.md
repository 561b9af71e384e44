# canopy

The decision logic of Canopy's services as a verified library: the safety-mode
ladder and the boundary that grades every administrative request, operator
sessions, the relay's cluster checks, artifacts (who is offered which, in what
order, and the digests their bytes are checked against), reporting-schema
pairs, the fleet registry, and the client generator's text rules.

- `src/` is the library. Every function in it carries a contract that Verus
  proves; calls into outside crates (serde_json, base64, sha2, blake3,
  node-semver, uuid, jiff, syn) go through small trusted wrappers whose
  contracts say what those crates document.
- `tests/` runs the library on concrete values.
- `app/` is the generator's command line: it reads and writes the files and
  hands the wire types to typify, syn and prettyplease.
