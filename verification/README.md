# llama_adapter

An adapter for `llama-server`, the inference server of llama.cpp, verified with
Verus. It resolves the name of the served model, tells whether the engine is
up, and maps one scrape of its `/metrics` endpoint onto the metrics that all
engines share: throughput, running averages, decode timings, caches and
speculative decoding.

- `src/` is the library. Its contracts are stated over mathematical models and
  proved; the modules are listed in `src/lib.rs`. Double-precision numbers are
  bit patterns, and their arithmetic is proved to round to the nearest double,
  ties to even.
- `app/` sends the requests, reads the samples out of exposition text, and
  offers the adapter with ordinary floating-point numbers.
- `tests/` runs the library, and compares its arithmetic with the machine's.

What is trusted rather than proved is what `reqwest` does: how it reads and
extends a URL, and how it writes an HTTP status. Those three calls are in
`src/http.rs`, each with what is claimed of it.
