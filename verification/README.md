# crabtalk

The decision logic of the Crabtalk agent daemon, verified with Verus.

- `src/` — the library. Every function carries a contract and is proved:
  the agent loop's decisions (`agent/run.rs`), request building and
  compaction, the tool registry, the bash policy, skill and memory hooks,
  MCP bookkeeping, client-tool forwarding (`bridge.rs`), tool routing in
  the harness, the wire events of a conversation, configuration checks,
  package and agent merging, document merge patches and settings
  migrations, in-memory session and agent repositories, and the scripted
  test provider's stream encoding. Proof functions named `lemma_*` state
  the library's laws (deny wins, replies reach their dispatch, stored
  sessions read back, migrations are idempotent, …).
- `tests/` — executable tests of the library.
- `app/` — the edges Verus does not see: TOML and JSON files, package
  directories on disk, the `crabllm-core` wire types and provider, the
  async agent loop and client reply plumbing, running `bash` commands,
  services and console output.
