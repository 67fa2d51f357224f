# pyro_model

The rules of a top-down arena game about fire, gasoline and barrels, written in
Verus and verified.

## Numbers

Every real quantity is an `i64` counted in thousandths of its unit (`units.rs`):
`1000` is one second, one hit point, one world unit, or a ratio of `1.0`. Products
and quotients round toward zero, sums saturate at the bounds of `i64`, and lengths
are integer square roots rounded down. The world wraps around at its edges.

## Layout

- `src/units.rs`: fixed-point arithmetic.
- `src/arena.rs`: `Arena<T>`, a store of entities whose identifiers are never reused,
  with ageing of expiring entities and removal by identifier.
- `src/health.rs`: `Health`, also used as a lifetime.
- `src/geometry.rs`: vectors, positions in the wrapping world, shapes, colliders.
- `src/config.rs`, `src/components.rs`, `src/model.rs`: the game's data.
- `src/logic.rs`: one tick of the world (`Model::update`) and its steps.
- `src/deaths.rs`: what dying actors and blocks leave behind.
- `src/gen.rs`: scattering blocks over a new level; `Model::new`.
- `src/random.rs`: the random choices, made by the `rand` crate.
- `app/lib.rs`: reading the configuration from files, which write real numbers.
