# vantus

The verified core of the Vantus web platform, written in Verus.

`src/` holds the logic of the platform with its contracts and laws:

- `request`, `http`, `path`, `net`: parsing raw HTTP/1.x requests, query
  strings and addresses; rendering responses; normalizing paths.
- `routing`, `runtime`, `middleware`: route tables over `matchit`, the checks
  a request passes before and after routing, the runtime counters, and the
  order middleware runs in.
- `config`, `cli`, `host`: layered configuration (including the parsing of
  TOML, JSON, YAML and properties texts into entries), the framework
  settings, the command-line plan, limits and the module lifecycle of a
  host (start in order, cancel background work, stop in reverse).
- `logging`, `observability`, `id`, `di`, `errors`: log scrubbing, metrics
  and their Prometheus text, identifiers, extractor inputs and errors.
- `extraction`: the typed-extraction model of route handlers (which
  extractor serves each parameter, given its type's name) and the rules a
  route method must meet: a valid template, `Path` parameters that the
  template declares, at most one body extractor, none on GET, HEAD or
  OPTIONS. A procedural macro that turns annotated handler methods into
  routes would call these functions with the names it reads; no such macro
  is part of this crate.

`app/` is the runtime around it: reading files and the environment, the
standard-stream log sink, the `clap` command line, the token-bucket rate
limiter, background tasks, the middleware chain (run in the order
`middleware::pipeline_order` gives) and the `hyper` server.

`tests/` runs the library on concrete inputs.
