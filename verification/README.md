# hwtwin

The portable core of a live hardware digital twin: it maps a machine's raw
sensor keys onto logical subsystems (CPU P-/E-cores, GPU, DRAM, SSD, battery,
fans, power rails) and plans how a batch of readings reduces into one
snapshot.

- `src/text.rs` — whitespace, trimming, words and lines over characters.
- `src/profile.rs` — the `field: key key key` profile format, built-in
  profiles, and the choice between a profile file and a built-in one.
- `src/model.rs` — the batch of keys a profile references and the reduction
  plan: which readings feed each snapshot field.
- `src/cli.rs` — scan grouping and ordering, the key-type JSON object, gauge
  glyphs and HTTP request routing.
- `app/` — the program: the Apple SMC sensor backend, floating-point
  reduction and formatting, the terminal dashboard and the HTTP server.
