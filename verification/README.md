# metrics-bridge

A Prometheus exporter for the metrics that PHP's promphp/prometheus_client_php
keeps in Redis. It reads the metric hashes, renders them in the Prometheus text
exposition format and serves them on `GET /metrics`, with `GET /health` and
`GET /ready` beside it.

## Layout

- `src/` is the library, written in Verus. Its functions carry contracts that
  Verus proves, except the few in `external.rs` (and `push_char` in
  `text.rs`), which make one call into another crate or std and whose
  contracts are taken as given.
  - `metrics/`: the metric model, label sets, promphp label decoding, the
    grouping of histogram fields (in both of promphp's hash layouts) and the
    samples of a series, and the text
    renderer, with the proofs that the written label order does not depend on insertion order.
  - `config.rs`: validation of the configuration, `${VAR}` substitution and
    the IP allow-list.
  - `cache.rs`: the per-source cache with its TTL.
  - `server.rs`: who may read `/metrics`, when the cached page is served and
    what `/ready` answers.
  - `source/`: the steps of reading a source from Redis and how the results
    of all sources are combined.
  - `external.rs`: the calls into base64, serde_json, ipnet and std, each with
    the contract that the library relies on.
- `app/` is the program around the library: configuration files and the
  environment, Redis connections, the axum server, the exporter's own
  prometheus metrics, the serde derives that read the YAML, the JSON metadata
  and the histogram keys into the library's types, and the floating-point
  parts (reading numbers, histogram sums and value formatting).
- `tests/` runs the library on concrete values.
