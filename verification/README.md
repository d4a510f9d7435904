# EnhVec

An enhanced `Vec` that remembers whether and how its elements are sorted,
with sorted access, statistics of numeric elements, and hashing that does not
depend on the order of the elements. The library is written in Verus and
proved against its contracts.

## Layout

- `src/state.rs`: `Sorting` (the order asked for) and the recorded sort state.
- `src/order.rs`: the lawful order and equality that element types obey, and
  the facts about ascending and descending sequences.
- `src/sorting.rs`: sorting, reversing and searching a `Vec`, and what sorting
  towards an order yields (`arranged`).
- `src/inner.rs`: the storage, a short front part kept reversed so that
  pushing to the front is cheap, and the main part.
- `src/enhvec.rs`: `EnhVec` itself, with the spec of each operation.
- `src/sets.rs`: counting values and set-like comparisons.
- `src/integer.rs`: the `Integer` trait for the integer element types.
- `src/stats.rs`: sum, product, range, median, rank, mode and distinct elements.
- `src/laws.rs`: what holds of several operations together.
- `app/`: the floating-point statistics (`average`, `variance`, `stdev`,
  `percentile` and the `_fp` family) and the xxh3 hashing through the
  `custom_xxh3` crate.

The view of an `EnhVec` is its front part followed by its main part, and
every operation is specified on that sequence. The invariant `inv` holds of
every `EnhVec` that the constructors build and every operation keeps: the
recorded sort state vouches only for an order that all elements are in.
