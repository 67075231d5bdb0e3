# devkit

Observability and fee-data tooling for a Stellar fee tracker, written in Verus:
the library in `src/` states its behaviour in `requires`/`ensures` contracts and
Verus proves them.

- `src/` — the verified library: fee-data cleaning (duplicate removal, gap
  interpolation, repair planning, quality scans, statistics), conversions and
  reports, error tracking, timers and spans, trace-context propagation, health
  checks, metrics, log-rotation configuration. Laws that relate several
  functions are public proof functions named `law_*`.
- `tests/` — tests run against the compiled library.
- `app/` — ordinary Rust around the library: printing, file access, logging
  setup, serde conversions and the floating-point statistics.
