# lmv_core

The source-agnostic core of a music visualizer, written in Verus: the parts
that decide things are verified against their contracts, and the parts that
compute with floating point, read the clock, parse TOML or run FFTs sit
around them as ordinary Rust.

## Layout

- `src/` — the verified library.
  - `audio` — stream-format validation at the intake boundary.
  - `ring` — the bounded sample FIFO (power-of-two capacity, whole-frame
    pushes that drop rather than block) and the validated intake.
  - `analysis` — the hop/window cadence of the analyzer, the beat refractory
    guard and the beat latch.
  - `bands`, `spectrum` — the integer band edges of the three-band split and
    of the log band spectrum.
  - `expr` — tokenizer and recursive-descent compiler of the preset
    expression language, with its grammar as spec functions.
  - `grammar` — L-system rewriting.
  - `schema`, `preset` — system names, the L-system table checks, and the
    assembly of a preset from its parsed tables.
  - `lines` — the segment cap, cap-overflow reports and the L-system depth
    overflow search.
  - `capture` — readback row unpadding and the integer image metrics.
  - `stats` — the rolling frame-time window.
  - `roster` — the preset roster and active selection.
  - `rng`, `signal` — splitmix64 and channel interleaving.
  - `text` — character/string helpers shared by the modules above.
- `tests/` — tests that run the compiled library.
- `app/` — the surrounding Rust: FFT analysis (rustfft), expression
  evaluation, TOML preset loading (serde/toml), the thread-shared intake,
  diagnostics over the wall clock and signal synthesis.
