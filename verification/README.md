# gungho

An HTTP load balancer. The library (`src/`) holds its logic, each function
with a contract that Verus proves:

- `backend`: the pool of backends, its invariant (the positions kept at hand
  are exactly those of the healthy backends), health marks and connection
  counts.
- `lb`: the strategies (round robin, smooth weighted round robin, least
  connections, IP hash, random), with laws such as the weighted one choosing
  each backend as often as its weight over every full cycle (wherever no
  credit overflows `i64`, which holds where the number of backends times the
  total weight, or the total weight squared, fits in `i64`).
- `health`: how runs of health-check results become health marks.
- `headers`, `proxy`: how a request is readied for a backend (forwarding
  headers, hop-by-hop headers taken out, on the http crate's header map,
  which the library sees as a map from names to their values) and what the
  client is answered.
- `admin`: the admin endpoints' responses.
- `config`: defaults and validation of the configuration.

`app/` is the program around it: configuration files, the HTTP servers and
client, timers, metrics export, logging and tracing.
