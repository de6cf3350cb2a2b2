# serde_alloc

Deserialization that hands an allocator handle to every nested value.

- `src/` is the verified library (Verus). It holds the decisions of the
  deserializers: the seed that carries the handle (`WithAllocSeed`), the
  `Native` wrapper, how optional and boxed values are formed, the sequence and
  map collectors, the field tracker that the derived struct visitor consults
  for each key, and the derive's reading of attributes and its plan for a
  struct (`plan_derive`).
- `app/` is the serde-facing layer: the `DeserializeWithAlloc` trait, its
  impls for standard types, the loops that pull elements through serde's
  `SeqAccess` and `MapAccess`, and the derive's token input and output.
- `tests/` runs the library on concrete values.

The standard `Allocator` trait is unstable on the toolchain used here, so the
handle is an opaque `A: Clone` value and the collections use the global
allocator.
