# all-llama-proxy

The decision core of a proxy that shares several model backends among many users, proved correct
with Verus, and the program parts around it.

- `src/` is the library. It decides who is let in (`admission`, `headers`), what a request asks
  for (`request`, `json`, `models`), whose request is served next and where (`scheduler`,
  `routing`, `rendezvous`), what happens to it on its way (`dispatch`), what clients are told
  (`replies`, `catalog`), and what the dashboard sees and may do (`dashboard`, `protocol`). Every
  function states in its contract what it returns or changes. `fairness` holds what the scheduler
  promises as a whole, `flights` what holds of a request's whole way; further laws stand beside
  what they are about, under names that begin with `law_`.
- `app/` is ordinary Rust: the HTTP handlers, the worker that talks to the backends, and the
  dashboard's socket.
- `tests/` runs the library on concrete values.

JSON, HTTP headers, times and the dashboard's message bodies are read and written by `serde_json`,
`http`, `chrono` and `bincode`. What the proofs take for granted of these crates is written down
at the functions marked `external_body`, each with a comment that names the function it calls.
