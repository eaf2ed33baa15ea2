# qubit

The verified core of a service-dependency mapper for Kubernetes. An eBPF probe
captures HTTP request lines, a cluster agent reports pods, services and events,
and the core service folds both into a dependency graph that it serves over
HTTP and gRPC and stores in ClickHouse.

`src/` is the library, written in Verus: every function carries a contract
that Verus proves.

- `topology`, `subgraph`, `reach`, `laws`: the dependency graph, its
  subgraph query and the laws that each graph operation keeps.
- `filter`, `host`, `payload`, `text`: which frames the socket filter
  captures, and reading the request line and the service identity of the
  `Host` header out of a captured TCP payload.
- `registry`, `caches`, `aggregator`, `dispatch`, `model`: the lookup tables,
  the ingestion decisions for observed calls and Kubernetes events, and what
  the ingestion service does with each event type.
- `envoy`, `agent`, `agent_kube`, `agent_config`, `agent_schedule`: what the
  cluster agent reads out of Kubernetes objects and Envoy configuration, and
  its schedule of startup sends, 30-second resyncs and shutdown.
- `query`, `reply`, `display`, `order`, `mcp`, `sql`: what the read paths
  answer and the statements sent to the store.
- `loader`, `loadgen`, `config`, `kube`: the probe's user-space side, the load
  generator's decisions and the settings of each program.

Calls into outside crates (`moka`, `serde_json`, `serde_yaml`) stand behind
small trusted wrappers whose contracts say what those crates document.

`app/` is the program around the library: argument handling, configuration
files, the HTTP server, the ClickHouse client and the timers. `tests/` runs
the library on concrete values.
