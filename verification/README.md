# Plasmoid

A runtime for particles: small isolated programs with a mailbox each, which run on the nodes of a
peer-to-peer cluster and reach one another by pid or by name, wherever they live. Particles link to
and monitor each other as Erlang's processes do, supervisors restart them, and names can be claimed
for the whole cluster.

## Layout

- `src/` is the library: every rule of the runtime, with its contract, proved by Verus.
  - Particles: `pid`, `message`, `mailbox`, `policy`, `particle`, `registry`; in
    `exit_laws` and `signal_laws` what holds of exits, links, monitors and names as a whole, and in
    `counter_laws` that no pid and no reference comes twice.
  - Supervision: `supervisor` decides, `supervise` relates the decisions to running particles, and
    `supervisor_laws` says what holds of the decisions over time.
  - The cluster: `cluster`, `partitions`, `transport`, `wire`, `signals`, `protocol`, `global`,
    `doc_registry`, `gossip`.
  - What a particle sees: `host`, `invoke`, `app`, `gen_server`, and the example particles `ring`,
    `supervised` and `actors`.
  - The command line: `cli`, `scaffold`.
  - `assoc` and `text` are the maps and the text functions that the others use.
- `tests/` runs the library.
- `app/` is the program around it: the network, the file system, the WASM engine and the document
  store.
- `extras/wit/` is the interface between a component and its host.

The functions named `law_...` state what holds across several operations. Time is a parameter
(`now_ms`), and what has to be sent comes back as a list of effects, so that the library itself
neither waits nor talks to anyone.

What is taken on trust is marked `#[verifier::external_body]`; the comment above each such item
says which outside function it stands for, and what is claimed of it.
