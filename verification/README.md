# agent_choir

Data structures and algorithms for organising large ensembles of cooperative
agents into the four classical voice sections (Soprano, Alto, Tenor, Bass),
verified with Verus.

- `src/voice.rs`: the voice parts, their default pitch ranges and score order.
- `src/partmap.rs`: a map keyed by voice part.
- `src/section.rs`: singers and voice sections.
- `src/ieee.rs`: comparisons of `f64` values held as bit patterns.
- `src/allocation.rs`, `src/allocation_laws.rs`: assigning singers to parts,
  and what holds of every allocation.
- `src/director.rs`: the choir director's directives.
- `src/balance.rs`: the section sizes that the balance is measured on.
- `app/`: the floating-point scores (blend, balance, confidence) built on the
  library.

Skill levels, versatilities and thresholds are `f64` values; the library
holds them as their bit patterns (`f64::to_bits`) and compares them exactly
as `f64` comparison does.
