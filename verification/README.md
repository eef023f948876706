# eureka

A graph-based agent execution engine. A run is a directed graph of nodes
(model-driven agents and subprocess-backed control nodes) joined by typed
ports; the scheduler fires a node once per round when all its required
inputs have arrived, routes what it emits along the edges (feedback edges
into the next round), and checkpoints the run so that it can be paused and
resumed.

## Layout

- `src/` is the library, verified with Verus:
  - `graph/`: artifacts, ports, graph specifications and the validator;
  - `scheduler/`: the run state machine (input joins, dispatch, routing,
    rounds, checkpoints and restoring from them), the run loop's decision
    on each event, and the invariants every
    state keeps;
  - `persistence/`: run records, checkpoints, run events, the in-memory
    versioned store and the environment handed to subprocesses;
  - `agent.rs`, `agent/tool.rs`: the decisions of agent nodes (opening
    message, merging parallel workers, splitting outputs across ports,
    the system preamble) and of shell tools (argument interpolation,
    answers and summaries);
  - `control.rs`: the protocol of control-node subprocesses, down to the
    emit envelopes read from their output;
  - `json.rs`, `rag.rs`, `manifest.rs`, `session.rs`, `config.rs`,
    `error.rs`, `text.rs`: JSON values as data, what the retrieval index
    takes of an artifact, manifests, session bookkeeping, configuration,
    errors and text formatting.
- `app/` is the unverified side: configuration files, YAML manifests,
  SQLite and file stores, subprocesses, the asynchronous run loop, and the
  serialized forms of the library's types.
- `tests/` exercises the library.
