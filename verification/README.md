# Amazon Rose Forest

A distributed vector store with a self-improving core, written in Rust and
verified with Verus.  The library under `src/` holds the logic, each function
with a contract that Verus proves; the program under `app/` wraps it in a node
that serves HTTP, talks to peers, keeps float metrics and runs the background
tasks.

## Library (`src/`)

- `core_lib`: maps keyed by text or by 128-bit identifiers, stable ordering
  of timestamped entries, centroids and their conflict-free replicated set,
  metric summaries and their exposition format.
- `sharding`: the Hilbert curve that places vectors in buckets, the bucket
  index, shards and their migrations.
- `nerv`: versioned objects, vector clocks between nodes, replication tasks.
- `network`: the circuit breaker.
- `holochain`: semantic version vectors, community arbitration of conflicts,
  content hashing, ontology graphs and their semantic merge, the knowledge
  graph, and the timestamp tags by which recent audits are read back.
- `darwin`: the self-improvement machinery: languages and generated code,
  branches of reality and their merges, the coding agent's diffs and archive,
  validation history, rituals, transcendence plans, model registry, and
  the log of proposed modifications with their validation and deployment.
- `server`, `utils`: request parsing, configuration, errors.
- `clock`: the wall clock and fresh identifiers, the only sources of values
  that change from call to call.

Each type's view (`@`) is its mathematical model; operations state their
results over it, and the public proof functions state the laws that hold
across operations (round trips of the Hilbert curve; version-vector merges
that are commutative, associative and idempotent; centroid operations that
are applied at most once, with concurrent creates converging in either
order up to the copy the vector type makes of the newer vector, and
exactly where its copies are equal; finality of arbitration decisions; one
trial call through a half-open circuit breaker; symmetry of entanglement;
and so on).

## Program (`app/`)

`app/main.rs` starts the node.  The rest holds what the library leaves
aside: floating-point vectors and scores, asynchronous services, the HTTP
server, metrics registries, and serialisable copies of library types.

## Checking

`tests/` exercises the library on concrete values.  Verifying needs Verus;
building and testing use the usual Cargo commands.
