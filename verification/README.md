# ternary_beacon

Discovery and presence for fleet agents, verified with Verus.

Agents broadcast beacon messages (source, signal strength, capabilities,
metadata, timestamp). Scanners detect the messages of other agents within
range, classify their signal and report them strongest first. A registry
keeps the last sighting of each agent, merges capabilities and expires
stale entries. Filters combine criteria with ternary logic: any negative
criterion rejects a message.

Layout of `src/`:

- `types.rs`: `Ternary`, `AgentId`, `SignalStrength` and the classification of raw signals.
- `metadata.rs`: `Metadata`, a string map without repeated keys.
- `message.rs`: `BeaconMessage` and its view.
- `beacon.rs`: `Beacon`, which broadcasts an agent's message.
- `scanner.rs`: `BeaconScanner` and `DetectedBeacon`; the result of a scan is a stable sort of the detected messages by signal, strongest first.
- `filter.rs`: `FilterCriterion` and `BeaconFilter`.
- `registry.rs`: `BeaconRegistry`, a hash map from agent to entry, with expiry.
- `protocol.rs`: `ProtocolMessage`, `BeaconOp`, `PROTOCOL_VERSION`.

Most modules end with proof functions stating the laws of their part of the
library. `tests/` runs the library on concrete values.
