# lau_evolution

World evolution engine for game worlds that grow and adapt. This crate is
verified with Verus.

- `src/` is the verified library: the age classification of a world
  (`age`), the biome types (`room`), speciation and biome counting
  (`species`), and the deterministic seed bucket behind a room's jitter
  (`seed`). Each public function states its result exactly; the laws of
  speciation and ageing are public proof functions beside them.
- `app/` holds what computes on floating point (room vibe and fitness,
  mutation steps, selection pressure, world metrics), together with the
  serde forms of the library's types. It calls the library for the integer
  logic.
- `tests/` runs the library on concrete values.
