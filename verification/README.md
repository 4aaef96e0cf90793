# thread_engine

The decision-making core of a Thread browser and its companion services,
written in Verus: every function in `src/` carries a contract and is proved
against it.

- `src/` — the verified library: structured ids, Locator and URL text work,
  HTML reading, asset resolution, bookmarks and recent walks, the home's
  generated veils, session history, the Codex reader, the worlds directory,
  commerce, the P2P mesh peer set, the rendezvous hub, the presence relay's
  roster, Passport token reading, and the conformance suite (the corpus
  clauses with the constellation's reachability, transport, relay wire,
  rendezvous wire, and the live relay and rendezvous probes as state
  machines).
- `tests/` — tests of the library run with the real outside crates linked.
- `app/` — the runtime around it: HTTP, WebSocket servers and probe sockets,
  background threads, JSON files on disk, and the parts that compute in
  floating point.
