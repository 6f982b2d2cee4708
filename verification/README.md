# zerobox

A process and microVM sandbox toolkit whose decision-making core is
verified with Verus.

- `src/` is the verified library. Every function there carries a contract
  that Verus proves: path arithmetic and ordering, snapshot diffs and the
  restore plan (with proofs that a diff replays onto the tree it was taken
  from, that diffing the other way round reverses every change, that a
  restore reaches its target and leaves nothing to restore, and that the
  dry run announces exactly what a restore does), content-addressed object
  framing, exclusion rules, walk budgets, the command-line sandbox's
  policies and sandbox choice, the supervisor's sandbox table, snapshot
  catalog, address pool and port allocation, host network commands, VM boot
  steps, and the guest agent's JSON-RPC routing, command ids and kill rules.
  Calls into outside crates (BLAKE3, LZ4, base64, hex, globset, chrono,
  uuid) sit behind small trusted wrappers whose contracts say what the
  crates document.
- `app/` is the unverified shell around it: serde forms of the records,
  file-system walks and object storage, the HTTP API and its client, the
  Firecracker process and API socket, host `ip`/`iptables` commands, the
  guest agent's server and PTY relay, and the command line (which plans a
  sandboxed launch; starting the child under the sandbox is the codex
  crates' work, not built here).
- `tests/` runs the library on concrete values.
