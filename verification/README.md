# metrique-otel

Translates metric entries into OpenTelemetry measurements, with the translation
verified by Verus.

- `src/float.rs`: double-precision numbers by their bits, and the whole numbers
  that stand for them
- `src/observation.rs`: what a field observes, and the number that each kind of
  instrument is given for it
- `src/journal.rs`: the ghost journal of everything that is done to the world
  around the library, and beneath it the only ways to do so: asking a meter
  provider for instruments (`journal/meters.rs`), calling an instrument
  (`journal/instrument.rs`), using a shared table (`journal/table.rs`)
- `src/metrics.rs`: kinds, units, making instruments, recording observations
- `src/fallback.rs`: the cache of instruments that are resolved at write time
- `src/plan.rs`: the plan of an entry from its descriptors
- `src/translator.rs`: collecting an entry and recording it
- `src/tags.rs`: the tags that give a field its kind of instrument
- `src/cache_laws.rs`: what holds of the cache over its whole life
- `src/laws.rs`: what holds of the library as a whole
- `src/outside.rs`: what is taken on trust of other crates
- `app/`: the traits of `metrique_writer_core`, and everything that computes
  with floating-point numbers
